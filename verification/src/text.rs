//! Small helpers on text: comparing two strings and cutting a dotted path
//! into its segments.

use vstd::prelude::*;

verus! {

/// Where the first dot of `s` stands, or the length of `s` if it has none.
pub open spec fn first_dot(s: Seq<char>) -> int
    decreases s.len(),
{
    if s.len() == 0 || s[0] == '.' {
        0
    } else {
        1 + first_dot(s.skip(1))
    }
}

/// The pieces of `s` between its dots, in order. A text without a dot is
/// its own single piece; two dots in a row, or a dot at either end, give an
/// empty piece.
pub open spec fn segments(s: Seq<char>) -> Seq<Seq<char>>
    decreases s.len(),
{
    let d = first_dot(s);
    if 0 <= d < s.len() {
        seq![s.take(d)] + segments(s.skip(d + 1))
    } else {
        seq![s]
    }
}

/// `first_dot` finds a dot, and none stands before it.
pub proof fn lemma_first_dot(s: Seq<char>)
    ensures
        0 <= first_dot(s) <= s.len(),
        forall|j: int| 0 <= j < first_dot(s) ==> s[j] != '.',
        first_dot(s) < s.len() ==> s[first_dot(s)] == '.',
    decreases s.len(),
{
    if s.len() != 0 && s[0] != '.' {
        let rest = s.skip(1);
        lemma_first_dot(rest);
        assert forall|j: int| 0 <= j < first_dot(s) implies s[j] != '.' by {
            if j > 0 {
                assert(rest[j - 1] == s[j]);
            }
        }
        assert(first_dot(rest) < rest.len() ==> rest[first_dot(rest)] == s[first_dot(s)]);
    }
}

/// A place before which no dot stands is not past the first dot; if a dot
/// stands there, it is the first.
pub proof fn lemma_first_dot_at(s: Seq<char>, k: int)
    requires
        0 <= k <= s.len(),
        forall|j: int| 0 <= j < k ==> s[j] != '.',
    ensures
        first_dot(s) >= k,
        k < s.len() && s[k] == '.' ==> first_dot(s) == k,
{
    lemma_first_dot(s);
    if first_dot(s) < k {
        assert(s[first_dot(s)] == '.');
    }
}

/// No piece holds a dot, and there is always at least one piece.
pub proof fn lemma_segments_hold_no_dot(s: Seq<char>)
    ensures
        segments(s).len() >= 1,
        forall|k: int, j: int|
            0 <= k < segments(s).len() && 0 <= j < segments(s)[k].len() ==> segments(s)[k][j] != '.',
    decreases s.len(),
{
    lemma_first_dot(s);
    let d = first_dot(s);
    if d < s.len() {
        let rest = s.skip(d + 1);
        lemma_segments_hold_no_dot(rest);
        assert forall|k: int, j: int|
            0 <= k < segments(s).len() && 0 <= j < segments(s)[k].len() implies segments(s)[k][j] != '.' by {
            if k == 0 {
                assert(segments(s)[0] == s.take(d));
            } else {
                assert(segments(s)[k] == segments(rest)[k - 1]);
            }
        }
    }
}

/// Whether two strings hold the same text.
pub fn same_text(a: &str, b: &str) -> (r: bool)
    ensures
        r == (a@ == b@),
{
    let left = a.to_string();
    let right = b.to_string();
    left == right
}

/// The views of the pieces that a path was cut into.
pub open spec fn piece_views(pieces: Seq<&str>) -> Seq<Seq<char>> {
    Seq::new(pieces.len(), |k: int| pieces[k]@)
}

/// Cuts a dotted path into its segments.
pub fn split_path<'a>(path: &'a str) -> (pieces: Vec<&'a str>)
    ensures
        piece_views(pieces@) == segments(path@),
{
    let n = path.unicode_len();
    let mut pieces: Vec<&'a str> = Vec::new();
    let mut start: usize = 0;
    let mut i: usize = 0;
    proof {
        assert(path@.skip(0) =~= path@);
        assert(piece_views(pieces@) + segments(path@) =~= segments(path@));
    }
    while i < n
        invariant
            n == path@.len(),
            0 <= start <= i <= n,
            forall|j: int| start <= j < i ==> path@[j] != '.',
            segments(path@) == piece_views(pieces@) + segments(path@.skip(start as int)),
        decreases n - i,
    {
        if path.get_char(i) == '.' {
            let piece = path.substring_char(start, i);
            proof {
                let rest = path@.skip(start as int);
                assert forall|j: int| 0 <= j < i - start implies rest[j] != '.' by {
                    assert(rest[j] == path@[start + j]);
                }
                lemma_first_dot_at(rest, i - start);
                assert(rest.take(i - start) =~= path@.subrange(start as int, i as int));
                assert(rest.skip(i - start + 1) =~= path@.skip(i + 1));
                assert(piece_views(pieces@.push(piece)) =~= piece_views(pieces@) + seq![piece@]);
            }
            pieces.push(piece);
            start = i + 1;
        }
        i += 1;
    }
    let piece = path.substring_char(start, n);
    proof {
        let rest = path@.skip(start as int);
        assert forall|j: int| 0 <= j < n - start implies rest[j] != '.' by {
            assert(rest[j] == path@[start + j]);
        }
        lemma_first_dot_at(rest, n - start);
        assert(rest =~= path@.subrange(start as int, n as int));
        assert(piece_views(pieces@.push(piece)) =~= piece_views(pieces@) + seq![piece@]);
    }
    pieces.push(piece);
    pieces
}

} // verus!
