use agent_stream_kit::AgentValue;
use im::Vector;
use stream_join::data::{assign_at, get_value, lookup, Setter, PIN_DATA, PIN_VALUE};
use stream_join::error::InputError;

fn object(fields: Vec<(&str, AgentValue)>) -> AgentValue {
    let mut o = AgentValue::object_default();
    for (k, v) in fields {
        o.set(k.to_string(), v).unwrap();
    }
    o
}

fn array(items: Vec<AgentValue>) -> AgentValue {
    let mut v = Vector::new();
    for i in items {
        v.push_back(i);
    }
    AgentValue::array(v)
}

fn sample() -> AgentValue {
    object(vec![
        ("name", AgentValue::string("Alice")),
        ("user", object(vec![("age", AgentValue::integer(30)), ("tags", array(vec![AgentValue::integer(1)]))])),
    ])
}

#[test]
fn lookup_follows_the_path() {
    assert_eq!(lookup(&sample(), &vec!["name"]), AgentValue::string("Alice"));
    assert_eq!(lookup(&sample(), &vec!["user", "age"]), AgentValue::integer(30));
    assert_eq!(lookup(&sample(), &vec![]), sample());
}

#[test]
fn lookup_gives_unit_where_the_path_ends() {
    assert_eq!(lookup(&sample(), &vec!["missing"]), AgentValue::unit());
    assert_eq!(lookup(&sample(), &vec!["name", "first"]), AgentValue::unit());
    assert_eq!(lookup(&sample(), &vec!["user", "age", "x"]), AgentValue::unit());
    assert_eq!(lookup(&AgentValue::integer(3), &vec!["a"]), AgentValue::unit());
}

#[test]
fn get_value_on_object() {
    assert_eq!(get_value("user.age", &sample()), Some(AgentValue::integer(30)));
    assert_eq!(get_value("name", &sample()), Some(AgentValue::string("Alice")));
    assert_eq!(get_value("user.none", &sample()), Some(AgentValue::unit()));
}

#[test]
fn get_value_on_array_maps_each_element() {
    let items = array(vec![
        object(vec![("a", object(vec![("b", AgentValue::integer(1))]))]),
        object(vec![("a", AgentValue::integer(2))]),
        AgentValue::string("plain"),
        object(vec![("a", object(vec![("b", AgentValue::string("x"))]))]),
    ]);
    assert_eq!(
        get_value("a.b", &items),
        Some(array(vec![AgentValue::integer(1), AgentValue::unit(), AgentValue::unit(), AgentValue::string("x")]))
    );
    assert_eq!(get_value("a", &array(vec![])), Some(array(vec![])));
}

#[test]
fn get_value_sends_nothing_for_empty_key_or_scalar() {
    assert_eq!(get_value("", &sample()), None);
    assert_eq!(get_value("a", &AgentValue::integer(1)), None);
    assert_eq!(get_value("a", &AgentValue::string("s")), None);
    assert_eq!(get_value("a", &AgentValue::unit()), None);
}

#[test]
fn assign_sets_a_top_level_field() {
    let out = assign_at(sample(), &vec!["name"], 0, AgentValue::string("Bob")).unwrap();
    assert_eq!(out.get("name"), Some(&AgentValue::string("Bob")));
    assert_eq!(out.get("user"), sample().get("user"));
}

#[test]
fn assign_sets_a_nested_field_and_keeps_siblings() {
    let out = assign_at(sample(), &vec!["user", "age"], 0, AgentValue::integer(31)).unwrap();
    let expected = object(vec![
        ("name", AgentValue::string("Alice")),
        ("user", object(vec![("age", AgentValue::integer(31)), ("tags", array(vec![AgentValue::integer(1)]))])),
    ]);
    assert_eq!(out, expected);
}

#[test]
fn assign_creates_missing_objects() {
    let out = assign_at(AgentValue::object_default(), &vec!["a", "b", "c"], 0, AgentValue::integer(1)).unwrap();
    let expected = object(vec![("a", object(vec![("b", object(vec![("c", AgentValue::integer(1))]))]))]);
    assert_eq!(out, expected);
}

#[test]
fn assign_starts_at_the_given_segment() {
    let out = assign_at(AgentValue::object_default(), &vec!["skipped", "b"], 1, AgentValue::integer(1)).unwrap();
    assert_eq!(out, object(vec![("b", AgentValue::integer(1))]));
}

#[test]
fn assign_fails_through_a_non_object() {
    assert_eq!(
        assign_at(sample(), &vec!["name", "first"], 0, AgentValue::integer(1)).err(),
        Some(InputError::NotAnObject)
    );
    assert_eq!(
        assign_at(sample(), &vec!["user", "age", "x"], 0, AgentValue::integer(1)).err(),
        Some(InputError::NotAnObject)
    );
}

#[test]
fn setter_waits_for_both_inputs() {
    let mut setter = Setter::new();
    assert!(!setter.accept(7, PIN_DATA, sample()));
    assert_eq!(setter.assign("name"), Ok(None));
    assert!(setter.accept(7, PIN_VALUE, AgentValue::string("Bob")));
    let out = setter.assign("name").unwrap().unwrap();
    assert_eq!(out.get("name"), Some(&AgentValue::string("Bob")));
    // Both inputs are used up.
    assert_eq!(setter.assign("name"), Ok(None));
    assert!(!setter.accept(7, PIN_VALUE, AgentValue::integer(1)));
}

#[test]
fn setter_takes_inputs_in_either_order() {
    let mut setter = Setter::new();
    assert!(!setter.accept(3, PIN_VALUE, AgentValue::integer(5)));
    assert!(setter.accept(3, PIN_DATA, AgentValue::object_default()));
    let out = setter.assign("a.b").unwrap().unwrap();
    assert_eq!(out, object(vec![("a", object(vec![("b", AgentValue::integer(5))]))]));
}

#[test]
fn setter_drops_inputs_of_another_wave() {
    let mut setter = Setter::new();
    assert!(!setter.accept(1, PIN_DATA, sample()));
    assert!(!setter.accept(2, PIN_VALUE, AgentValue::integer(5)));
    assert_eq!(setter.assign("x"), Ok(None));
    assert!(setter.accept(2, PIN_DATA, AgentValue::object_default()));
    assert_eq!(setter.assign("x").unwrap().unwrap(), object(vec![("x", AgentValue::integer(5))]));
}

#[test]
fn setter_ignores_data_that_is_no_object_and_other_pins() {
    let mut setter = Setter::new();
    assert!(!setter.accept(1, PIN_VALUE, AgentValue::integer(5)));
    assert!(!setter.accept(1, PIN_DATA, AgentValue::integer(6)));
    assert!(!setter.accept(1, "other", sample()));
    assert_eq!(setter.assign("x"), Ok(None));
}

#[test]
fn setter_keeps_inputs_on_empty_key() {
    let mut setter = Setter::new();
    setter.accept(1, PIN_DATA, AgentValue::object_default());
    assert!(setter.accept(1, PIN_VALUE, AgentValue::integer(5)));
    assert_eq!(setter.assign(""), Ok(None));
    assert_eq!(setter.assign("k").unwrap().unwrap(), object(vec![("k", AgentValue::integer(5))]));
}

#[test]
fn setter_reports_a_blocked_path_and_uses_up_inputs() {
    let mut setter = Setter::new();
    setter.accept(1, PIN_DATA, sample());
    setter.accept(1, PIN_VALUE, AgentValue::integer(5));
    assert_eq!(setter.assign("name.first"), Err(InputError::NotAnObject));
    assert_eq!(setter.assign("name"), Ok(None));
}

#[test]
fn setter_first_wave_zero_is_not_a_change() {
    let mut setter = Setter::new();
    assert!(!setter.accept(0, PIN_DATA, AgentValue::object_default()));
    assert!(setter.accept(0, PIN_VALUE, AgentValue::integer(1)));
}
