use rabe::errors::RabeError;
use rabe::parser::parse;
use rabe::policy::{serialize_policy, PolicyLanguage, PolicyValue};

#[test]
fn test_single_parsing() {
    let pol = String::from(r#"{"name": "A"}"#);
    let human = String::from("A");
    let json: PolicyValue = parse(&pol, PolicyLanguage::JsonPolicy).expect("unsuccessful parse");
    let serialized_json = serialize_policy(&json, PolicyLanguage::JsonPolicy, None);
    let serialized_human = serialize_policy(&json, PolicyLanguage::HumanPolicy, None);
    assert_eq!(serialized_json, pol);
    assert_eq!(serialized_human, human);
}

#[test]
fn test_children_parsing() {
    let pol = String::from(r#"{"name": "and", "children": [{"name": "B"}, {"name": "C"}]}"#);
    let human = String::from("(B and C)");
    let json: PolicyValue = parse(&pol, PolicyLanguage::JsonPolicy).expect("unsuccessful parse");
    let serialized_json = serialize_policy(&json, PolicyLanguage::JsonPolicy, None);
    let serialized_human = serialize_policy(&json, PolicyLanguage::HumanPolicy, None);
    assert_eq!(serialized_json, pol);
    assert_eq!(serialized_human, human);
}

#[test]
fn test_sub_children_parsing() {
    let pol = String::from(
        r#"{"name": "or", "children": [{"name": "A"}, {"name": "and", "children": [{"name": "B"}, {"name": "C"}]}]}"#,
    );
    let human = String::from(r#"(A or (B and C))"#);
    let json: PolicyValue = parse(&pol, PolicyLanguage::JsonPolicy).expect("unsuccessful parse");
    let serialized_json = serialize_policy(&json, PolicyLanguage::JsonPolicy, None);
    let serialized_human = serialize_policy(&json, PolicyLanguage::HumanPolicy, None);
    assert_eq!(serialized_json, pol);
    assert_eq!(serialized_human, human);
}

#[test]
fn s6_round_trip_between_languages() {
    let p_json = String::from(r#"{"name":"and","children":[{"name":"B"},{"name":"C"}]}"#);
    let t1 = parse(&p_json, PolicyLanguage::JsonPolicy).expect("json parse");
    let human = serialize_policy(&t1, PolicyLanguage::HumanPolicy, None);
    assert_eq!(human, "(B and C)");
    let t2 = parse(&human, PolicyLanguage::HumanPolicy).expect("human parse");
    let back = serialize_policy(&t2, PolicyLanguage::JsonPolicy, None);
    // structurally equal to the input: both reparse and reserialize alike
    let canonical = serialize_policy(&t1, PolicyLanguage::JsonPolicy, None);
    assert_eq!(back, canonical);
    assert_eq!(back, r#"{"name": "and", "children": [{"name": "B"}, {"name": "C"}]}"#);
}

#[test]
fn parses_unquoted_keys() {
    let pol = String::from(r#"{name:"or", children:[{name:"A"}, {name:"B"}]}"#);
    let t = parse(&pol, PolicyLanguage::JsonPolicy).expect("dialect parse");
    let out = serialize_policy(&t, PolicyLanguage::JsonPolicy, None);
    assert_eq!(out, r#"{"name": "or", "children": [{"name": "A"}, {"name": "B"}]}"#);
}

#[test]
fn parses_quoted_human_attributes() {
    let pol = String::from(r#""A" or "B""#);
    let t = parse(&pol, PolicyLanguage::HumanPolicy).expect("human parse");
    let out = serialize_policy(&t, PolicyLanguage::HumanPolicy, None);
    assert_eq!(out, "(A or B)");
}

#[test]
fn human_and_binds_tighter_than_or() {
    let pol = String::from("A and B or C");
    let t = parse(&pol, PolicyLanguage::HumanPolicy).expect("human parse");
    let out = serialize_policy(&t, PolicyLanguage::HumanPolicy, None);
    assert_eq!(out, "((A and B) or C)");
}

#[test]
fn rejects_malformed_json() {
    let pol = String::from(r#"{"name" "A"}"#);
    let r = parse(&pol, PolicyLanguage::JsonPolicy);
    assert!(matches!(r, Err(RabeError::PolicyParse(_))));
}

#[test]
fn rejects_single_child_gate() {
    let pol = String::from(r#"{"name": "or", "children": [{"name": "A"}]}"#);
    let r = parse(&pol, PolicyLanguage::JsonPolicy);
    assert_eq!(r.err(), Some(RabeError::PolicyShape));
}

#[test]
fn rejects_empty_attribute() {
    let pol = String::from(r#"{"name": ""}"#);
    let r = parse(&pol, PolicyLanguage::JsonPolicy);
    assert!(matches!(r, Err(RabeError::PolicyParse(_))));
}

#[test]
fn rejects_unknown_gate_name() {
    let pol = String::from(r#"{"name": "nand", "children": [{"name": "A"}, {"name": "B"}]}"#);
    let r = parse(&pol, PolicyLanguage::JsonPolicy);
    assert!(matches!(r, Err(RabeError::PolicyParse(_))));
}

#[test]
fn rejects_trailing_garbage() {
    let pol = String::from(r#"{"name": "A"} tail"#);
    let r = parse(&pol, PolicyLanguage::JsonPolicy);
    assert!(matches!(r, Err(RabeError::PolicyParse(_))));
}

#[test]
fn round_trip_json_after_serialize() {
    let pol = String::from(
        r#"{"name": "and", "children": [{"name": "X1"}, {"name": "or", "children": [{"name": "Y2"}, {"name": "Z3"}]}]}"#,
    );
    let t = parse(&pol, PolicyLanguage::JsonPolicy).expect("parse");
    let s1 = serialize_policy(&t, PolicyLanguage::JsonPolicy, None);
    let t2 = parse(&s1, PolicyLanguage::JsonPolicy).expect("reparse");
    let s2 = serialize_policy(&t2, PolicyLanguage::JsonPolicy, None);
    assert_eq!(s1, s2);
}

#[test]
fn round_trip_human_after_serialize() {
    let pol = String::from(r#""A" or ("B" and "C")"#);
    let t = parse(&pol, PolicyLanguage::HumanPolicy).expect("parse");
    let s1 = serialize_policy(&t, PolicyLanguage::HumanPolicy, None);
    assert_eq!(s1, "(A or (B and C))");
    let t2 = parse(&s1, PolicyLanguage::HumanPolicy).expect("reparse");
    let s2 = serialize_policy(&t2, PolicyLanguage::HumanPolicy, None);
    assert_eq!(s1, s2);
}
