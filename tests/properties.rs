use source_downloader::component::ComponentError;
use source_downloader::config::{Properties, PropertyValue};

#[test]
fn later_pairs_win() {
    let p = Properties::from_map(vec![
        ("a".to_string(), PropertyValue::Integer(1)),
        ("b".to_string(), PropertyValue::Bool(true)),
        ("a".to_string(), PropertyValue::Text("two".to_string())),
    ]);
    assert_eq!(p.get("a").and_then(|v| v.as_str()), Some("two"));
    assert_eq!(p.get("a").and_then(|v| v.as_i64()), None);
    assert!(matches!(p.get("b"), Some(PropertyValue::Bool(true))));
    assert!(p.get("c").is_none());
}

#[test]
fn empty_bag_has_nothing() {
    let p = Properties::new();
    assert!(p.get("").is_none());
    let q = Properties::from_map(Vec::new());
    assert!(q.get("x").is_none());
}

#[test]
fn value_accessors() {
    assert_eq!(PropertyValue::Integer(-5).as_i64(), Some(-5));
    assert_eq!(PropertyValue::Null.as_i64(), None);
    assert_eq!(PropertyValue::Text("s".to_string()).as_str(), Some("s"));
    assert_eq!(PropertyValue::List(vec![PropertyValue::Null]).as_str(), None);
}

#[test]
fn component_error_keeps_its_message() {
    assert_eq!(ComponentError::new("boom").message(), "boom");
    assert_eq!(ComponentError::from_message("bang".to_string()).message(), "bang");
}
