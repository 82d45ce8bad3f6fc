use json_rust::helper::{traverse, TraverseError};
use json_rust::json::{helper_for_object_and_array_types, parser, ParseError};
use json_rust::json_object::{Key, NodeVisit, ValueType};

fn walk(text: &str) -> Vec<NodeVisit> {
    let parsed = parser(text);
    traverse(&parsed).expect("a document")
}

fn summary(visits: &[NodeVisit]) -> Vec<(usize, String, ValueType, String, usize)> {
    visits
        .iter()
        .map(|v| (v.depth, v.name.clone(), v.kind, v.value.clone(), v.n))
        .collect()
}

fn row(depth: usize, name: &str, kind: ValueType, value: &str, n: usize) -> (usize, String, ValueType, String, usize) {
    (depth, name.to_string(), kind, value.to_string(), n)
}

/// Length of the chain at `head`, checking on the way that each node counts its own chain.
fn checked_chain_len(head: Option<&Box<Key>>) -> usize {
    let mut len = 0;
    let mut cur = head;
    while let Some(node) = cur {
        assert_eq!(node.get_n(), checked_chain_len(node.get_ptr().as_ref()));
        len += 1;
        cur = node.get_next();
    }
    len
}

#[test]
fn flat_members_keep_order_kinds_and_values() {
    let parsed = parser(r#"{"a":1,"b":"x","c":true,"d":null}"#);
    let doc = parsed.as_ref().unwrap().as_ref().unwrap();
    assert_eq!(doc.get_n(), 4);
    assert_eq!(*doc.get_value_type(), ValueType::ObjectType);
    let visits = traverse(&parsed).unwrap();
    assert_eq!(
        summary(&visits),
        vec![
            row(0, "a", ValueType::NumberType, "1", 0),
            row(0, "b", ValueType::StringType, "x", 0),
            row(0, "c", ValueType::BooleanType, "true", 0),
            row(0, "d", ValueType::NullType, "null", 0),
        ]
    );
}

#[test]
fn nested_object_becomes_a_child_chain() {
    let parsed = parser(r#"{"a":{"b":1}}"#);
    let doc = parsed.as_ref().unwrap().as_ref().unwrap();
    assert_eq!(doc.get_n(), 1);
    let a = doc.get_ptr().as_ref().unwrap();
    assert_eq!(a.get_name(), "a");
    assert_eq!(*a.get_value_type(), ValueType::ObjectType);
    assert_eq!(a.get_value(), "");
    assert_eq!(a.get_n(), 1);
    let b = a.get_ptr().as_ref().unwrap();
    assert_eq!(b.get_name(), "b");
    assert_eq!(*b.get_value_type(), ValueType::NumberType);
    assert_eq!(b.get_value(), "1");
    assert!(b.get_next().is_none());
    assert!(a.get_next().is_none());
}

#[test]
fn nested_array_has_unnamed_elements_in_order() {
    let visits = walk(r#"{"a":[1,2,3]}"#);
    assert_eq!(
        summary(&visits),
        vec![
            row(0, "a", ValueType::ArrayType, "", 3),
            row(1, "", ValueType::NumberType, "1", 0),
            row(1, "", ValueType::NumberType, "2", 0),
            row(1, "", ValueType::NumberType, "3", 0),
        ]
    );
}

#[test]
fn traversal_twice_gives_the_same_sequence() {
    let parsed = parser(r#"{"a":{"b":[1,{"c":null}],"d":"e"},"f":false}"#);
    let first = traverse(&parsed).unwrap();
    let second = traverse(&parsed).unwrap();
    assert_eq!(first, second);
    assert_eq!(
        summary(&first),
        vec![
            row(0, "a", ValueType::ObjectType, "", 2),
            row(1, "b", ValueType::ArrayType, "", 2),
            row(2, "", ValueType::NumberType, "1", 0),
            row(2, "", ValueType::ObjectType, "", 1),
            row(3, "c", ValueType::NullType, "null", 0),
            row(1, "d", ValueType::StringType, "e", 0),
            row(0, "f", ValueType::BooleanType, "false", 0),
        ]
    );
}

#[test]
fn empty_input_is_no_document() {
    assert!(matches!(parser(""), Ok(None)));
    assert!(matches!(parser("  \n\t \r\n"), Ok(None)));
}

#[test]
fn empty_object_is_no_document() {
    assert!(matches!(parser("{}"), Ok(None)));
    assert!(matches!(parser(" [ ] "), Ok(None)));
}

#[test]
fn missing_opening_brace_is_structural_error() {
    assert!(matches!(parser(r#""a":1}"#), Err(ParseError::StructuralError)));
}

#[test]
fn unbalanced_outer_delimiters_are_structural_errors() {
    assert!(matches!(parser(r#"{"a":1"#), Err(ParseError::StructuralError)));
    assert!(matches!(parser(r#"{"a":1]"#), Err(ParseError::StructuralError)));
    assert!(matches!(parser("{"), Err(ParseError::StructuralError)));
    assert!(matches!(parser("x"), Err(ParseError::StructuralError)));
}

#[test]
fn last_member_without_trailing_comma_is_kept() {
    let visits = walk(r#"{"a":1,"b":2}"#);
    assert_eq!(
        summary(&visits),
        vec![row(0, "a", ValueType::NumberType, "1", 0), row(0, "b", ValueType::NumberType, "2", 0)]
    );
}

#[test]
fn child_counts_match_child_chains() {
    let parsed = parser(r#"{"a":{"b":1,"c":[true,false,{"d":2}]},"e":[],"f":"g"}"#);
    let doc = parsed.as_ref().unwrap().as_ref().unwrap();
    assert_eq!(doc.get_n(), checked_chain_len(doc.get_ptr().as_ref()));
    assert_eq!(doc.get_n(), 3);
}

#[test]
fn root_array_elements_are_unnamed() {
    let parsed = parser(" [1, \"two\", [3], {\"four\":4}] ");
    let doc = parsed.as_ref().unwrap().as_ref().unwrap();
    assert_eq!(*doc.get_value_type(), ValueType::ArrayType);
    assert_eq!(
        summary(&traverse(&parsed).unwrap()),
        vec![
            row(0, "", ValueType::NumberType, "1", 0),
            row(0, "", ValueType::StringType, "two", 0),
            row(0, "", ValueType::ArrayType, "", 1),
            row(1, "", ValueType::NumberType, "3", 0),
            row(0, "", ValueType::ObjectType, "", 1),
            row(1, "four", ValueType::NumberType, "4", 0),
        ]
    );
}

#[test]
fn duplicate_names_are_kept_as_siblings() {
    let visits = walk(r#"{"a":1,"a":2}"#);
    assert_eq!(
        summary(&visits),
        vec![row(0, "a", ValueType::NumberType, "1", 0), row(0, "a", ValueType::NumberType, "2", 0)]
    );
}

#[test]
fn literals_are_trimmed_and_classified() {
    let visits = walk("{\n  \"a\" : 12.5e3 ,\n  \"b\": nullx,\n  \"c\":  true\n}\n");
    assert_eq!(
        summary(&visits),
        vec![
            row(0, "a", ValueType::NumberType, "12.5e3", 0),
            row(0, "b", ValueType::NumberType, "nullx", 0),
            row(0, "c", ValueType::BooleanType, "true", 0),
        ]
    );
}

#[test]
fn escaped_quotes_do_not_end_strings() {
    let visits = walk(r#"{"k\"ey":"x\"y,z","n":1}"#);
    assert_eq!(
        summary(&visits),
        vec![
            row(0, "k\\\"ey", ValueType::StringType, "x\\\"y,z", 0),
            row(0, "n", ValueType::NumberType, "1", 0),
        ]
    );
}

#[test]
fn delimiters_inside_strings_at_top_level_are_plain_text() {
    let visits = walk(r#"{"a":"{[}]","b":[1]}"#);
    assert_eq!(
        summary(&visits),
        vec![
            row(0, "a", ValueType::StringType, "{[}]", 0),
            row(0, "b", ValueType::ArrayType, "", 1),
            row(1, "", ValueType::NumberType, "1", 0),
        ]
    );
}

#[test]
fn empty_nested_values_have_no_children() {
    let visits = walk(r#"{"a":{},"b":[]}"#);
    assert_eq!(
        summary(&visits),
        vec![row(0, "a", ValueType::ObjectType, "", 0), row(0, "b", ValueType::ArrayType, "", 0)]
    );
}

#[test]
fn helper_appends_to_existing_children() {
    let mut key = Key::new("root".to_string(), ValueType::ObjectType, String::new());
    key.add_key(Box::new(Key::new("first".to_string(), ValueType::NullType, "null".to_string())));
    helper_for_object_and_array_types(r#""x":"y","z":[true]"#, &mut key);
    assert_eq!(key.get_name(), "root");
    assert_eq!(key.get_n(), 3);
    let first = key.get_ptr().as_ref().unwrap();
    assert_eq!(first.get_name(), "first");
    let x = first.get_next().unwrap();
    assert_eq!((x.get_name(), x.get_value()), ("x", "y"));
    let z = x.get_next().unwrap();
    assert_eq!(*z.get_value_type(), ValueType::ArrayType);
    assert_eq!(z.get_n(), 1);
    assert_eq!(z.get_ptr().as_ref().unwrap().get_value(), "true");
}

#[test]
fn helper_reads_array_text_without_names() {
    let mut key = Key::new("list".to_string(), ValueType::ArrayType, String::new());
    helper_for_object_and_array_types(" 7 , \"s\" ", &mut key);
    assert_eq!(key.get_n(), 2);
    let a = key.get_ptr().as_ref().unwrap();
    assert_eq!((a.get_name(), a.get_value(), *a.get_value_type()), ("", "7", ValueType::NumberType));
    let b = a.get_next().unwrap();
    assert_eq!((b.get_name(), b.get_value(), *b.get_value_type()), ("", "s", ValueType::StringType));
}

#[test]
fn traverse_reports_missing_document() {
    assert_eq!(traverse(&Ok(None)), Err(TraverseError::NoJsonObject));
    assert_eq!(traverse(&parser("{}")), Err(TraverseError::NoJsonObject));
}

#[test]
fn traverse_forwards_errors() {
    assert_eq!(
        traverse(&Err(ParseError::IoFailure("gone".to_string()))),
        Err(TraverseError::IoError("gone".to_string()))
    );
    assert_eq!(traverse(&parser("oops")), Err(TraverseError::StructuralError));
}

#[test]
fn unicode_whitespace_only_is_no_document() {
    assert!(matches!(parser("\u{c}"), Ok(None)));
    assert!(matches!(parser("\u{b}\u{85}\u{a0}\u{2028}\u{3000} "), Ok(None)));
}

#[test]
fn unicode_whitespace_around_a_document_is_ignored() {
    let visits = walk("\u{a0}{\"a\":\u{2003}1\u{a0}}\u{c}");
    assert_eq!(summary(&visits), vec![row(0, "a", ValueType::NumberType, "1", 0)]);
}
