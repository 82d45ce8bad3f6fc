use json_rust::file_content::FileContent;
use json_rust::json_object::{JsonObject, Key, ValueType};

fn leaf(name: &str, value: &str) -> Box<Key> {
    Box::new(Key::new(name.to_string(), ValueType::StringType, value.to_string()))
}

fn names(head: Option<&Box<Key>>) -> Vec<String> {
    let mut out = Vec::new();
    let mut cur = head;
    while let Some(node) = cur {
        out.push(node.get_name().to_string());
        cur = node.get_next();
    }
    out
}

#[test]
fn new_key_has_no_links() {
    let k = Key::new("a".to_string(), ValueType::NumberType, "5".to_string());
    assert_eq!(k.get_name(), "a");
    assert_eq!(*k.get_value_type(), ValueType::NumberType);
    assert_eq!(k.get_value(), "5");
    assert_eq!(k.get_n(), 0);
    assert!(k.get_ptr().is_none());
    assert!(k.get_next().is_none());
    assert!(k.get_prev().is_none());
}

#[test]
fn key_setters_replace_fields() {
    let mut k = Key::new("a".to_string(), ValueType::NumberType, "5".to_string());
    k.set_name("b".to_string());
    k.set_value_type(ValueType::StringType);
    k.set_value("text".to_string());
    k.set_next(Some(leaf("n", "1")));
    k.set_prev(Some(leaf("p", "2")));
    assert_eq!(k.get_name(), "b");
    assert_eq!(*k.get_value_type(), ValueType::StringType);
    assert_eq!(k.get_value(), "text");
    assert_eq!(k.get_next().unwrap().get_name(), "n");
    assert_eq!(k.get_prev().unwrap().get_name(), "p");
    k.set_next(None);
    assert!(k.get_next().is_none());
}

#[test]
fn key_add_key_appends_at_the_tail() {
    let mut parent = Key::new("p".to_string(), ValueType::ObjectType, String::new());
    parent.add_key(leaf("x", "1"));
    parent.add_key(leaf("y", "2"));
    parent.add_key(leaf("z", "3"));
    assert_eq!(parent.get_n(), 3);
    assert_eq!(names(parent.get_ptr().as_ref()), vec!["x", "y", "z"]);
}

#[test]
fn add_key_takes_the_siblings_along() {
    let mut parent = Key::new("p".to_string(), ValueType::ObjectType, String::new());
    parent.add_key(leaf("x", "1"));
    let mut pair = leaf("y", "2");
    pair.set_next(Some(leaf("z", "3")));
    parent.add_key(pair);
    assert_eq!(parent.get_n(), 2);
    assert_eq!(names(parent.get_ptr().as_ref()), vec!["x", "y", "z"]);
}

#[test]
fn object_add_key_variants_append_alike() {
    let mut a = JsonObject::new();
    let mut b = JsonObject::new();
    let mut c = JsonObject::new();
    for name in ["one", "two", "three"] {
        a.add_key(leaf(name, "v"));
        b.add_key_new(leaf(name, "v"));
        c.add_key_old(leaf(name, "v"));
    }
    for doc in [&a, &b, &c] {
        assert_eq!(doc.get_n(), 3);
        assert_eq!(names(doc.get_ptr().as_ref()), vec!["one", "two", "three"]);
        assert_eq!(*doc.get_value_type(), ValueType::ObjectType);
    }
}

#[test]
fn object_add_key_on_empty_sets_count_to_one() {
    let mut doc = JsonObject::new();
    doc.set_n(7);
    doc.add_key(leaf("only", "v"));
    assert_eq!(doc.get_n(), 1);
    doc.add_key(leaf("second", "v"));
    assert_eq!(doc.get_n(), 2);
}

#[test]
fn object_setters_replace_fields() {
    let mut doc = JsonObject::new();
    assert_eq!(doc.get_n(), 0);
    assert!(doc.get_ptr().is_none());
    doc.set_ptr(Some(leaf("h", "v")));
    doc.set_n(1);
    assert_eq!(doc.get_n(), 1);
    assert_eq!(doc.get_ptr().as_ref().unwrap().get_name(), "h");
}

#[test]
fn lines_split_on_newlines() {
    let fc = FileContent::from_content("{\r\n  \"a\": 1\n}\n".to_string());
    assert_eq!(fc.count_lines(), 3);
    assert_eq!(fc.get_line_by_index(0).unwrap(), "{");
    assert_eq!(fc.get_line_by_index(1).unwrap(), "  \"a\": 1");
    assert_eq!(fc.get_line_by_index(2).unwrap(), "}");
    assert!(fc.get_line_by_index(3).is_none());
    assert_eq!(fc.get_content(), "{\r\n  \"a\": 1\n}\n");
    assert_eq!(fc.get_lines().len(), 3);
}

#[test]
fn last_line_without_newline_counts() {
    let fc = FileContent::from_content("a\n\nb".to_string());
    assert_eq!(fc.get_lines(), &["a".to_string(), String::new(), "b".to_string()]);
    assert_eq!(FileContent::from_content(String::new()).count_lines(), 0);
    assert_eq!(FileContent::from_content("\n".to_string()).count_lines(), 1);
}

#[test]
fn cursor_walks_lines_and_wraps() {
    let mut fc = FileContent::from_content("x\ny".to_string());
    assert_eq!(fc.get_current_line_index(), 0);
    assert_eq!(fc.go_to_next_line().unwrap(), "x");
    assert_eq!(fc.get_current_line_index(), 0);
    assert_eq!(fc.go_to_next_line().unwrap(), "y");
    assert_eq!(fc.get_current_line_index(), 1);
    assert!(fc.go_to_next_line().is_none());
    assert_eq!(fc.get_current_line_index(), 0);
    assert_eq!(fc.go_to_next_line().unwrap(), "x");
}

#[test]
fn set_cursor_out_of_range_goes_to_first_line() {
    let mut fc = FileContent::from_content("x\ny\nz".to_string());
    fc.set_current_line_index(2);
    assert_eq!(fc.go_to_next_line().unwrap(), "z");
    fc.set_current_line_index(9);
    assert_eq!(fc.go_to_next_line().unwrap(), "x");
}

#[test]
fn find_line_containing_returns_first_match() {
    let fc = FileContent::from_content("alpha\nbeta gamma\ngamma\n".to_string());
    assert_eq!(fc.find_line_containing("gam").unwrap(), "beta gamma");
    assert_eq!(fc.find_line_containing("alpha").unwrap(), "alpha");
    assert_eq!(fc.find_line_containing("").unwrap(), "alpha");
    assert!(fc.find_line_containing("delta").is_none());
    assert!(fc.find_line_containing("alpha\nbeta").is_none());
}

#[test]
fn cloned_tree_is_a_deep_copy() {
    let mut parent = Key::new("p".to_string(), ValueType::ObjectType, String::new());
    parent.add_key(leaf("x", "1"));
    parent.add_key(leaf("y", "2"));
    let copy = parent.clone();
    parent.set_name("changed".to_string());
    assert_eq!(copy.get_name(), "p");
    assert_eq!(copy.get_n(), 2);
    assert_eq!(names(copy.get_ptr().as_ref()), vec!["x", "y"]);

    let mut doc = JsonObject::new();
    doc.add_key(leaf("a", "v"));
    let doc_copy = doc.clone();
    doc.add_key(leaf("b", "v"));
    assert_eq!(doc_copy.get_n(), 1);
    assert_eq!(names(doc_copy.get_ptr().as_ref()), vec!["a"]);
}
