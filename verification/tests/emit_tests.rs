use icinga_filter::emit::{write_icinga_object, write_icinga_str, write_icinga_val, is_reserved};
use icinga_filter::value::{Object, Val};

#[test]
fn escaping_wraps_verbatim() {
    let mut out = String::new();
    write_icinga_str(&mut out, &String::from("a b\nc{d}e"));
    assert_eq!(out, "{{{a b\nc{d}e}}}");
}

#[test]
fn escaping_empty_string() {
    let mut out = String::new();
    write_icinga_str(&mut out, &String::new());
    assert_eq!(out, "{{{}}}");
}

#[test]
fn scalar_text_passes_through() {
    let mut out = String::new();
    write_icinga_val(&mut out, &Val::Scalar(String::from("42")));
    assert_eq!(out, "42");
}

#[test]
fn array_trailing_separator_after_every_element() {
    let mut out = String::new();
    let v = Val::Arr(vec![
        Val::Scalar(String::from("1")),
        Val::Scalar(String::from("2")),
        Val::Scalar(String::from("3")),
    ]);
    write_icinga_val(&mut out, &v);
    assert_eq!(out, "[ 1, 2, 3, ]");
    assert_eq!(out.matches(", ").count(), 3);
}

#[test]
fn empty_array() {
    let mut out = String::new();
    write_icinga_val(&mut out, &Val::Arr(Vec::new()));
    assert_eq!(out, "[ ]");
}

#[test]
fn nested_mapping_trailing_separator_after_every_pair() {
    let mut out = String::new();
    let v = Val::Obj(vec![
        (String::from("k1"), Val::Str(String::from("v1"))),
        (String::from("k2"), Val::Scalar(String::from("true"))),
    ]);
    write_icinga_val(&mut out, &v);
    assert_eq!(out, "{ {{{k1}}} = {{{v1}}}; {{{k2}}} = true; }");
    assert_eq!(out.matches("; ").count(), 2);
}

#[test]
fn reserved_keys_leave_no_line() {
    let o = Object {
        kind: String::from("Host"),
        name: String::from("h"),
        properties: vec![
            (String::from("__name"), Val::Str(String::from("x"))),
            (String::from("name"), Val::Str(String::from("x"))),
            (String::from("package"), Val::Str(String::from("x"))),
            (String::from("source_location"), Val::Str(String::from("x"))),
            (String::from("templates"), Val::Arr(Vec::new())),
            (String::from("type"), Val::Str(String::from("x"))),
            (String::from("kept"), Val::Str(String::from("y"))),
        ],
    };
    let mut out = String::new();
    write_icinga_object(&mut out, &o);
    assert_eq!(out, "object Host {{{h}}} {\n  kept = {{{y}}}\n}\n\n");
}

#[test]
fn reserved_predicate() {
    assert!(is_reserved(&String::from("templates")));
    assert!(is_reserved(&String::from("type")));
    assert!(!is_reserved(&String::from("address")));
    assert!(!is_reserved(&String::from("Templates")));
}

#[test]
fn object_with_no_properties() {
    let o = Object {
        kind: String::from("Service"),
        name: String::from("ping"),
        properties: Vec::new(),
    };
    let mut out = String::new();
    write_icinga_object(&mut out, &o);
    assert_eq!(out, "object Service {{{ping}}} {\n}\n\n");
}

#[test]
fn duplicate_keeps_the_tree() {
    let v = Val::Obj(vec![
        (
            String::from("a"),
            Val::Arr(vec![Val::Str(String::from("s")), Val::Scalar(String::from("null"))]),
        ),
    ]);
    let copy = v.duplicate();
    let mut out_orig = String::new();
    let mut out_copy = String::new();
    write_icinga_val(&mut out_orig, &v);
    write_icinga_val(&mut out_copy, &copy);
    assert_eq!(out_orig, out_copy);
}
