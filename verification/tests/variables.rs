use ftml::variables::VariableMap;

#[test]
fn new_map_is_empty() {
    let map = VariableMap::new();
    assert!(map.is_empty());
    assert_eq!(map.len(), 0);
    assert_eq!(map.get("anything"), None);
}

#[test]
fn inserted_values_are_found() {
    let mut map = VariableMap::new();
    map.insert(String::from("a"), String::from("1"));
    map.insert(String::from("b"), String::from("2"));
    assert_eq!(map.get("a"), Some(&String::from("1")));
    assert_eq!(map.get("b"), Some(&String::from("2")));
    assert_eq!(map.get("c"), None);
    assert_eq!(map.len(), 2);
    assert!(!map.is_empty());
}

#[test]
fn the_first_value_of_a_name_counts() {
    let mut map = VariableMap::new();
    map.insert(String::from("a"), String::from("first"));
    map.insert(String::from("a"), String::from("second"));
    assert_eq!(map.get("a"), Some(&String::from("first")));
    assert_eq!(map.len(), 1);
}

#[test]
fn names_are_told_apart_exactly() {
    let mut map = VariableMap::new();
    map.insert(String::from("name"), String::from("x"));
    assert_eq!(map.get("Name"), None);
    assert_eq!(map.get("name "), None);
    assert_eq!(map.get(""), None);
}
