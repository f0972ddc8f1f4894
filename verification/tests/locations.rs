use serde_json::Value;
use std::path::PathBuf;
use ty_resolver::locations::{location_from_value, locations_from_value, DefinitionLocation};

fn answer(text: &str) -> Value {
    serde_json::from_str(text).unwrap()
}

fn place(path: &str, line: u32) -> DefinitionLocation {
    DefinitionLocation {
        path: PathBuf::from(path),
        line,
    }
}

const ONE: &str = r#"{"uri":"file:///a%20b.py","range":{"start":{"line":3,"character":7}}}"#;
const LINK: &str = r#"{"targetUri":"file:///c.py","targetRange":{"start":{"line":0}}}"#;

#[test]
fn a_location_is_read() {
    assert_eq!(location_from_value(&answer(ONE)), Some(place("/a b.py", 3)));
    assert_eq!(locations_from_value(&answer(ONE)), vec![place("/a b.py", 3)]);
}

#[test]
fn a_location_link_is_read() {
    assert_eq!(locations_from_value(&answer(LINK)), vec![place("/c.py", 0)]);
}

#[test]
fn arrays_keep_their_order_and_pass_over_the_rest() {
    let text = format!("[{LINK}, 1, null, {{}}, {ONE}, \"x\", {LINK}]");
    assert_eq!(
        locations_from_value(&answer(&text)),
        vec![place("/c.py", 0), place("/a b.py", 3), place("/c.py", 0)]
    );
}

#[test]
fn arrays_one_behind_the_other_give_their_locations_so() {
    let first = locations_from_value(&answer(&format!("[{ONE}]")));
    let second = locations_from_value(&answer(&format!("[{LINK}, {LINK}]")));
    let both = locations_from_value(&answer(&format!("[{ONE}, {LINK}, {LINK}]")));
    assert_eq!(both, [first, second].concat());
}

#[test]
fn one_object_is_like_an_array_of_it() {
    assert_eq!(
        locations_from_value(&answer(ONE)),
        locations_from_value(&answer(&format!("[{ONE}]")))
    );
    assert_eq!(locations_from_value(&answer("{}")), vec![]);
}

#[test]
fn other_answers_give_no_locations() {
    for text in ["null", "true", "1", "2.5", "\"file:///x\"", "[]", "[[]]"] {
        assert_eq!(locations_from_value(&answer(text)), vec![], "{text}");
    }
}

#[test]
fn incomplete_locations_are_passed_over() {
    for text in [
        r#"{"range":{"start":{"line":3}}}"#,
        r#"{"uri":"file:///a.py"}"#,
        r#"{"uri":"https://a.py","range":{"start":{"line":3}}}"#,
        r#"{"uri":1,"range":{"start":{"line":3}}}"#,
        r#"{"uri":"file:///a.py","range":{"start":{"line":-1}}}"#,
        r#"{"uri":"file:///a.py","range":{"start":{"line":1.5}}}"#,
        r#"{"uri":"file:///a.py","range":{"start":{"line":4294967296}}}"#,
        r#"{"uri":"file:///a.py","range":{"start":{}}}"#,
        r#"{"uri":"file:///a.py","range":{}}"#,
        r#"{"uri":"file:///a.py","range":null,"targetRange":{"start":{"line":3}}}"#,
        r#"{"uri":null,"targetUri":"file:///a.py","range":{"start":{"line":3}}}"#,
    ] {
        assert_eq!(location_from_value(&answer(text)), None, "{text}");
    }
}

#[test]
fn the_largest_line_is_read() {
    let text = r#"{"uri":"file:///a.py","range":{"start":{"line":4294967295}}}"#;
    assert_eq!(locations_from_value(&answer(text)), vec![place("/a.py", u32::MAX)]);
}

#[test]
fn plain_entries_come_before_those_of_links() {
    let text = r#"{"uri":"file:///a.py","targetUri":"file:///b.py",
        "range":{"start":{"line":1}},"targetRange":{"start":{"line":2}}}"#;
    assert_eq!(locations_from_value(&answer(text)), vec![place("/a.py", 1)]);
    let mixed = r#"{"targetUri":"file:///b.py","range":{"start":{"line":1}}}"#;
    assert_eq!(locations_from_value(&answer(mixed)), vec![place("/b.py", 1)]);
}

#[test]
fn locations_are_compared_by_path_and_then_line() {
    let small = place("/a", 9);
    assert_eq!(small.clone(), small);
    assert!(small < place("/b", 0));
    assert!(small < place("/a", 10));
    assert_ne!(small, place("/a", 8));
}
