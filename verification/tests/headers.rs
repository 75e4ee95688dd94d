use webhook_service::models::Headers;

#[test]
fn new_headers_hold_nothing() {
    let h = Headers::new();
    assert_eq!(h.len(), 0);
    assert!(h.get("host").is_none());
}

#[test]
fn append_keeps_values_in_the_order_they_came() {
    let mut h = Headers::new();
    h.append("x-foo".to_string(), "a".to_string());
    h.append("x-bar".to_string(), "1".to_string());
    h.append("x-foo".to_string(), "b".to_string());
    h.append("x-foo".to_string(), "a".to_string());
    assert_eq!(h.len(), 2);
    assert_eq!(h.get("x-foo").unwrap(), &vec!["a".to_string(), "b".to_string(), "a".to_string()]);
    assert_eq!(h.get("x-bar").unwrap(), &vec!["1".to_string()]);
    assert!(h.get("X-Foo").is_none());
}

#[test]
fn insert_replaces_the_values_under_a_name() {
    let mut h = Headers::new();
    h.append("x-foo".to_string(), "a".to_string());
    h.insert("x-foo".to_string(), vec!["c".to_string(), "d".to_string()]);
    h.insert("x-new".to_string(), Vec::new());
    assert_eq!(h.len(), 2);
    assert_eq!(h.get("x-foo").unwrap(), &vec!["c".to_string(), "d".to_string()]);
    assert_eq!(h.get("x-new").unwrap(), &Vec::<String>::new());
}

#[test]
fn names_lists_each_name_once() {
    let mut h = Headers::new();
    h.append("b".to_string(), "1".to_string());
    h.append("a".to_string(), "2".to_string());
    h.append("b".to_string(), "3".to_string());
    let mut names = h.names();
    names.sort();
    assert_eq!(names, vec!["a", "b"]);
    assert!(Headers::new().names().is_empty());
}
