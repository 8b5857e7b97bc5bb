use paymaster::token_map::TokenIdMap;

fn strings(items: &[&str]) -> Vec<String> {
    items.iter().map(|s| s.to_string()).collect()
}

fn names(m: &TokenIdMap) -> Vec<String> {
    (0..m.len()).map(|i| m.entry(i).group.clone()).collect()
}

#[test]
fn new_map_is_empty() {
    let m = TokenIdMap::new();
    assert_eq!(m.len(), 0);
}

#[test]
fn groups_are_kept_in_ascending_order() {
    let mut m = TokenIdMap::new();
    m.insert("b".to_string(), strings(&["1"]));
    m.insert("a".to_string(), strings(&["2"]));
    m.insert("c".to_string(), strings(&["3"]));
    m.insert("B".to_string(), strings(&["4"]));
    assert_eq!(names(&m), strings(&["B", "a", "b", "c"]));
    assert_eq!(m.entry(0).ids, strings(&["4"]));
    assert_eq!(m.entry(1).ids, strings(&["2"]));
    assert_eq!(m.entry(2).ids, strings(&["1"]));
    assert_eq!(m.entry(3).ids, strings(&["3"]));
}

#[test]
fn a_group_put_in_again_is_replaced() {
    let mut m = TokenIdMap::new();
    m.insert("a".to_string(), strings(&["1", "2"]));
    m.insert("b".to_string(), strings(&["3"]));
    m.insert("a".to_string(), strings(&["9"]));
    assert_eq!(m.len(), 2);
    assert_eq!(names(&m), strings(&["a", "b"]));
    assert_eq!(m.entry(0).ids, strings(&["9"]));
    assert_eq!(m.entry(1).ids, strings(&["3"]));
}

#[test]
fn identifiers_are_kept_as_they_came() {
    let mut m = TokenIdMap::new();
    m.insert("a".to_string(), strings(&["2", "10", "1"]));
    assert_eq!(m.entry(0).ids, strings(&["2", "10", "1"]));
}

#[test]
fn insertion_order_does_not_show() {
    let mut x = TokenIdMap::new();
    x.insert("0xaa".to_string(), strings(&["1"]));
    x.insert("0xbb".to_string(), strings(&["2"]));
    let mut y = TokenIdMap::new();
    y.insert("0xbb".to_string(), strings(&["2"]));
    y.insert("0xaa".to_string(), strings(&["1"]));
    assert_eq!(names(&x), names(&y));
    for i in 0..x.len() {
        assert_eq!(x.entry(i).ids, y.entry(i).ids);
    }
}
