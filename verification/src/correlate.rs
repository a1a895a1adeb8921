//! Matching entries across several per-pin queues by a shared key.
//!
//! Each input pin of a joining agent buffers what arrives as `(key, value)`
//! pairs in arrival order. A correlation is a key that every queue holds; the
//! query here finds the oldest such key, as seen from the shortest non-empty
//! queue, and reports where it sits in each queue. It never changes a queue:
//! removing the matched entries is left to the caller.

use agent_stream_kit::AgentValue;
use std::collections::VecDeque;
use vstd::prelude::*;

verus! {

/// The keys of one queue, front to back.
pub open spec fn queue_keys(queue: Seq<(String, AgentValue)>) -> Seq<Seq<char>> {
    Seq::new(queue.len(), |i: int| queue[i].0@)
}

/// The keys of every queue, in pin order.
pub open spec fn all_keys(queues: Seq<VecDeque<(String, AgentValue)>>) -> Seq<Seq<Seq<char>>> {
    Seq::new(queues.len(), |j: int| queue_keys(queues[j]@))
}

/// `p` is the first place in `keys` where `key` stands.
pub open spec fn is_first_position(keys: Seq<Seq<char>>, key: Seq<char>, p: int) -> bool {
    &&& 0 <= p < keys.len()
    &&& keys[p] == key
    &&& forall|i: int| 0 <= i < p ==> keys[i] != key
}

/// Every queue holds `key`.
pub open spec fn is_common(qs: Seq<Seq<Seq<char>>>, key: Seq<char>) -> bool {
    forall|j: int| 0 <= j < qs.len() ==> (#[trigger] qs[j]).contains(key)
}

/// `b` is the scan base: the first of the shortest non-empty queues.
pub open spec fn is_base(qs: Seq<Seq<Seq<char>>>, b: int) -> bool {
    &&& 0 <= b < qs.len()
    &&& qs[b].len() > 0
    &&& forall|j: int| 0 <= j < qs.len() && (#[trigger] qs[j]).len() > 0 ==> qs[b].len() <= qs[j].len()
    &&& forall|j: int| 0 <= j < b && (#[trigger] qs[j]).len() > 0 ==> qs[b].len() < qs[j].len()
}

/// There is something to correlate: at least one queue, and a key that all
/// of them hold.
pub open spec fn has_match(qs: Seq<Seq<Seq<char>>>) -> bool {
    qs.len() > 0 && exists|key: Seq<char>| is_common(qs, key)
}

/// `key` with `positions` is the correlation that the query reports: `key`
/// is the first key of the base queue that every queue holds, and
/// `positions[j]` is where it first stands in queue `j`.
pub open spec fn is_match(qs: Seq<Seq<Seq<char>>>, key: Seq<char>, positions: Seq<usize>) -> bool {
    &&& positions.len() == qs.len()
    &&& forall|j: int| 0 <= j < qs.len() ==> is_first_position(#[trigger] qs[j], key, positions[j] as int)
    &&& exists|b: int|
        {
            &&& is_base(qs, b)
            &&& forall|p: int| 0 <= p < positions[b] ==> !is_common(qs, #[trigger] qs[b][p])
        }
}

/// Picks the scan base, or `None` when every queue is empty.
fn shortest_nonempty(queues: &Vec<VecDeque<(String, AgentValue)>>) -> (r: Option<usize>)
    ensures
        match r {
            Some(b) => is_base(all_keys(queues@), b as int),
            None => forall|j: int| 0 <= j < queues.len() ==> (#[trigger] all_keys(queues@)[j]).len() == 0,
        },
{
    let ghost qs = all_keys(queues@);
    let mut best: Option<usize> = None;
    let mut j: usize = 0;
    while j < queues.len()
        invariant
            0 <= j <= queues.len(),
            qs == all_keys(queues@),
            match best {
                Some(b) => {
                    &&& 0 <= b < j
                    &&& qs[b as int].len() > 0
                    &&& forall|k: int| 0 <= k < j && (#[trigger] qs[k]).len() > 0 ==> qs[b as int].len() <= qs[k].len()
                    &&& forall|k: int| 0 <= k < b && (#[trigger] qs[k]).len() > 0 ==> qs[b as int].len() < qs[k].len()
                },
                None => forall|k: int| 0 <= k < j ==> (#[trigger] qs[k]).len() == 0,
            },
        decreases queues.len() - j,
    {
        let len = queues[j].len();
        assert(qs[j as int].len() == len);
        if len > 0 {
            match best {
                Some(b) => {
                    assert(qs[b as int].len() == queues[b as int]@.len());
                    if len < queues[b].len() {
                        best = Some(j);
                    }
                },
                None => {
                    best = Some(j);
                },
            }
        }
        j += 1;
    }
    best
}

/// Finds where `key` first stands in `queue`.
fn position_of(queue: &VecDeque<(String, AgentValue)>, key: &String) -> (r: Option<usize>)
    ensures
        match r {
            Some(p) => is_first_position(queue_keys(queue@), key@, p as int),
            None => !queue_keys(queue@).contains(key@),
        },
{
    let ghost keys = queue_keys(queue@);
    let mut i: usize = 0;
    while i < queue.len()
        invariant
            0 <= i <= queue.len(),
            keys == queue_keys(queue@),
            forall|k: int| 0 <= k < i ==> keys[k] != key@,
        decreases queue.len() - i,
    {
        assert(keys[i as int] == queue@[i as int].0@);
        if queue[i].0 == *key {
            return Some(i);
        }
        i += 1;
    }
    None
}

/// Looks the key at `pos` of the base queue up in every other queue. Gives the
/// position in each queue, the base's own being `pos`, or `None` as soon as
/// one queue lacks the key.
fn locate_in_all(queues: &Vec<VecDeque<(String, AgentValue)>>, base: usize, pos: usize) -> (r: Option<Vec<usize>>)
    requires
        base < queues.len(),
        pos < queues[base as int]@.len(),
    ensures
        match r {
            Some(positions) => {
                &&& positions@.len() == queues.len()
                &&& positions@[base as int] == pos
                &&& forall|j: int|
                    0 <= j < queues.len() && j != base ==> is_first_position(
                        #[trigger] all_keys(queues@)[j],
                        all_keys(queues@)[base as int][pos as int],
                        positions@[j] as int,
                    )
            },
            None => !is_common(all_keys(queues@), all_keys(queues@)[base as int][pos as int]),
        },
{
    let ghost qs = all_keys(queues@);
    let key = &queues[base][pos].0;
    assert(qs[base as int][pos as int] == key@);
    let mut positions: Vec<usize> = Vec::new();
    let mut idx: usize = 0;
    while idx < queues.len()
        invariant
            0 <= idx <= queues.len(),
            base < queues.len(),
            qs == all_keys(queues@),
            pos < qs[base as int].len(),
            key@ == qs[base as int][pos as int],
            positions@.len() == idx,
            idx > base ==> positions@[base as int] == pos,
            forall|j: int|
                0 <= j < idx && j != base ==> is_first_position(#[trigger] qs[j], key@, positions@[j] as int),
        decreases queues.len() - idx,
    {
        if idx == base {
            positions.push(pos);
        } else {
            match position_of(&queues[idx], key) {
                Some(p) => {
                    positions.push(p);
                },
                None => {
                    assert(!qs[idx as int].contains(key@));
                    return None;
                },
            }
        }
        idx += 1;
    }
    Some(positions)
}

/// Finds the first key that every queue holds and where it stands in each.
///
/// The scan base is the shortest non-empty queue, the first of them in pin
/// order where several are equally short. Its keys are tried front to back;
/// the first one that every other queue holds as well is the result, with
/// the position of its first occurrence in each queue. There is no match
/// when no key is shared by all queues, which includes the case of an empty
/// queue among them, and when there is no queue at all.
pub fn find_first_common_key(queues: &Vec<VecDeque<(String, AgentValue)>>) -> (r: Option<(String, Vec<usize>)>)
    ensures
        r.is_some() <==> has_match(all_keys(queues@)),
        match r {
            Some((key, positions)) => is_match(all_keys(queues@), key@, positions@),
            None => true,
        },
{
    let ghost qs = all_keys(queues@);
    let base = match shortest_nonempty(queues) {
        Some(b) => b,
        None => {
            proof {
                if qs.len() > 0 {
                    assert forall|key: Seq<char>| !is_common(qs, key) by {
                        assert(qs[0].len() == 0);
                        assert(!qs[0].contains(key));
                    }
                }
            }
            return None;
        },
    };
    let base_queue = &queues[base];
    assert(qs[base as int].len() == base_queue@.len());
    let mut pos: usize = 0;
    while pos < base_queue.len()
        invariant
            0 <= pos <= base_queue.len(),
            base < queues.len(),
            base_queue == &queues[base as int],
            qs == all_keys(queues@),
            is_base(qs, base as int),
            forall|p: int| 0 <= p < pos ==> !is_common(qs, #[trigger] qs[base as int][p]),
        decreases base_queue.len() - pos,
    {
        match locate_in_all(queues, base, pos) {
            Some(positions) => {
                let key = base_queue[pos].0.clone();
                proof {
                    let k = qs[base as int][pos as int];
                    assert(key@ == k);
                    assert forall|j: int| 0 <= j < qs.len() implies is_first_position(
                        #[trigger] qs[j],
                        k,
                        positions@[j] as int,
                    ) by {
                        if j == base {
                            assert forall|i: int| 0 <= i < pos implies qs[j][i] != k by {
                                if qs[j][i] == k {
                                    assert(!is_common(qs, qs[base as int][i]));
                                    assert forall|q: int| 0 <= q < qs.len() implies (#[trigger] qs[q]).contains(k) by {
                                        if q == base {
                                            assert(qs[q][pos as int] == k);
                                        } else {
                                            assert(is_first_position(qs[q], k, positions@[q] as int));
                                            assert(qs[q][positions@[q] as int] == k);
                                        }
                                    }
                                }
                            }
                        }
                    }
                    assert forall|q: int| 0 <= q < qs.len() implies (#[trigger] qs[q]).contains(k) by {
                        assert(is_first_position(qs[q], k, positions@[q] as int));
                        assert(qs[q][positions@[q] as int] == k);
                    }
                    assert(is_common(qs, k));
                    assert(is_base(qs, base as int) && forall|p: int|
                        0 <= p < positions@[base as int] ==> !is_common(qs, #[trigger] qs[base as int][p]));
                }
                return Some((key, positions));
            },
            None => {},
        }
        pos += 1;
    }
    proof {
        assert forall|key: Seq<char>| !is_common(qs, key) by {
            if is_common(qs, key) {
                assert(qs[base as int].contains(key));
                let p = choose|p: int| 0 <= p < qs[base as int].len() && qs[base as int][p] == key;
                assert(!is_common(qs, qs[base as int][p]));
            }
        }
    }
    None
}

/// An empty queue among the set rules a match out, whatever the other
/// queues hold.
pub proof fn lemma_empty_queue_blocks_match(qs: Seq<Seq<Seq<char>>>, j: int)
    requires
        0 <= j < qs.len(),
        qs[j].len() == 0,
    ensures
        !has_match(qs),
{
    assert forall|key: Seq<char>| !is_common(qs, key) by {
        assert(!qs[j].contains(key));
    }
}

/// Queues without a shared key have no match.
pub proof fn lemma_disjoint_queues_have_no_match(qs: Seq<Seq<Seq<char>>>, i: int, j: int)
    requires
        0 <= i < qs.len(),
        0 <= j < qs.len(),
        forall|key: Seq<char>| !(qs[i].contains(key) && qs[j].contains(key)),
    ensures
        !has_match(qs),
{
    assert forall|key: Seq<char>| !is_common(qs, key) by {
        if is_common(qs, key) {
            assert(qs[i].contains(key));
            assert(qs[j].contains(key));
        }
    }
}

/// The queues have at most one scan base.
pub proof fn lemma_base_is_unique(qs: Seq<Seq<Seq<char>>>, a: int, b: int)
    requires
        is_base(qs, a),
        is_base(qs, b),
    ensures
        a == b,
{
    if a < b {
        assert(qs[a].len() > 0);
    } else if b < a {
        assert(qs[b].len() > 0);
    }
}

/// The query is deterministic: the queues fix the key and every position of
/// the match.
pub proof fn lemma_match_is_unique(
    qs: Seq<Seq<Seq<char>>>,
    key1: Seq<char>,
    positions1: Seq<usize>,
    key2: Seq<char>,
    positions2: Seq<usize>,
)
    requires
        is_match(qs, key1, positions1),
        is_match(qs, key2, positions2),
    ensures
        key1 == key2,
        positions1 == positions2,
{
    let b1 = choose|b: int|
        {
            &&& is_base(qs, b)
            &&& forall|p: int| 0 <= p < positions1[b] ==> !is_common(qs, #[trigger] qs[b][p])
        };
    let b2 = choose|b: int|
        {
            &&& is_base(qs, b)
            &&& forall|p: int| 0 <= p < positions2[b] ==> !is_common(qs, #[trigger] qs[b][p])
        };
    lemma_base_is_unique(qs, b1, b2);
    let base = qs[b1];
    let p1 = positions1[b1] as int;
    let p2 = positions2[b1] as int;
    assert(is_first_position(base, key1, p1));
    assert(is_first_position(base, key2, p2));
    assert(is_common(qs, key1)) by {
        assert forall|j: int| 0 <= j < qs.len() implies (#[trigger] qs[j]).contains(key1) by {
            assert(is_first_position(qs[j], key1, positions1[j] as int));
            assert(qs[j][positions1[j] as int] == key1);
        }
    }
    assert(is_common(qs, key2)) by {
        assert forall|j: int| 0 <= j < qs.len() implies (#[trigger] qs[j]).contains(key2) by {
            assert(is_first_position(qs[j], key2, positions2[j] as int));
            assert(qs[j][positions2[j] as int] == key2);
        }
    }
    if p1 < p2 {
        assert(!is_common(qs, base[p1]));
    } else if p2 < p1 {
        assert(!is_common(qs, base[p2]));
    }
    assert(key1 == key2);
    assert forall|j: int| 0 <= j < qs.len() implies positions1[j] == positions2[j] by {
        assert(is_first_position(qs[j], key1, positions1[j] as int));
        assert(is_first_position(qs[j], key1, positions2[j] as int));
    }
    assert(positions1 =~= positions2);
}

/// The oldest shared key wins: no key that stands before the reported one
/// in the base queue is held by every queue.
pub proof fn lemma_match_is_oldest(qs: Seq<Seq<Seq<char>>>, key: Seq<char>, positions: Seq<usize>, b: int, p: int)
    requires
        is_match(qs, key, positions),
        is_base(qs, b),
        0 <= p < positions[b],
    ensures
        !is_common(qs, qs[b][p]),
{
    let chosen = choose|c: int|
        {
            &&& is_base(qs, c)
            &&& forall|p: int| 0 <= p < positions[c] ==> !is_common(qs, #[trigger] qs[c][p])
        };
    lemma_base_is_unique(qs, chosen, b);
}

} // verus!
