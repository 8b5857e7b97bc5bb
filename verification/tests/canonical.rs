use paymaster::canonical::canonicalize;
use paymaster::order::str_le;
use paymaster::request::ClaimRequest;
use paymaster::sorting::sort_ids;
use paymaster::token_map::TokenIdMap;

fn strings(items: &[&str]) -> Vec<String> {
    items.iter().map(|s| s.to_string()).collect()
}

fn request(groups: &[(&str, &[&str])]) -> ClaimRequest {
    let mut token_ids = TokenIdMap::new();
    for (group, ids) in groups {
        token_ids.insert(group.to_string(), strings(ids));
    }
    ClaimRequest {
        token_ids,
        amount: "100".to_string(),
        proof: strings(&["0x22", "0x11"]),
        signature: "0xabcd".to_string(),
        user_address: "0xUser".to_string(),
        authority: "0xAuthority".to_string(),
    }
}

/// The same object as `serde_json` writes it from a value built field by field.
fn by_serde_json(r: &ClaimRequest, groups: &[(&str, &[&str])]) -> String {
    let text = |s: &str| serde_json::Value::String(s.to_string());
    let list = |items: &[String]| serde_json::Value::Array(items.iter().map(|s| text(s)).collect());
    let mut sorted_groups: Vec<(String, Vec<String>)> = Vec::new();
    for (group, ids) in groups {
        sorted_groups.retain(|(g, _)| g != group);
        let mut ids = strings(ids);
        ids.sort();
        sorted_groups.push((group.to_string(), ids));
    }
    sorted_groups.sort();
    let mut token_ids = serde_json::Map::new();
    for (group, ids) in &sorted_groups {
        token_ids.insert(group.clone(), list(ids));
    }
    let mut object = serde_json::Map::new();
    object.insert("amount".to_string(), text(&r.amount));
    object.insert("proof".to_string(), list(&r.proof));
    object.insert("signature".to_string(), text(&r.signature));
    object.insert("tokenIds".to_string(), serde_json::Value::Object(token_ids));
    object.insert("userAddress".to_string(), text(&r.user_address));
    serde_json::to_string(&serde_json::Value::Object(object)).unwrap()
}

#[test]
fn canonical_message_is_byte_exact() {
    let r = request(&[("0xbb", &["2", "10"]), ("0xaa", &["7"])]);
    let expected = concat_all(&[
        "{\"amount\":\"100\",",
        "\"proof\":[\"0x22\",\"0x11\"],",
        "\"signature\":\"0xabcd\",",
        "\"tokenIds\":{\"0xaa\":[\"7\"],\"0xbb\":[\"10\",\"2\"]},",
        "\"userAddress\":\"0xUser\"}",
    ]);
    assert_eq!(canonicalize(&r), expected);
    assert_eq!(canonicalize(&r).as_bytes(), expected.as_bytes());
}

fn concat_all(parts: &[&str]) -> String {
    parts.concat()
}

#[test]
fn canonical_message_of_an_empty_request() {
    let r = ClaimRequest {
        token_ids: TokenIdMap::new(),
        amount: String::new(),
        proof: Vec::new(),
        signature: String::new(),
        user_address: String::new(),
        authority: String::new(),
    };
    assert_eq!(
        canonicalize(&r),
        "{\"amount\":\"\",\"proof\":[],\"signature\":\"\",\"tokenIds\":{},\"userAddress\":\"\"}"
    );
}

#[test]
fn canonical_message_leaves_the_authority_out() {
    let mut a = request(&[("0xaa", &["1"])]);
    let before = canonicalize(&a);
    a.authority = "0xSomebodyElse".to_string();
    assert_eq!(canonicalize(&a), before);
    assert!(!before.contains("uthority"));
}

#[test]
fn canonical_message_agrees_with_serde_json() {
    let cases: Vec<Vec<(&str, &[&str])>> = vec![
        vec![],
        vec![("0xaa", &[])],
        vec![("0xbb", &["2", "10", "1"]), ("0xaa", &["7"]), ("0xAA", &["b", "a", "B"])],
        vec![("k\"ey", &["a\\b", "\n", "\u{1}", "\u{1f}", "\u{7f}", "\u{e9}", "\u{1f600}"])],
        vec![("", &["", ""]), ("\t", &["\u{8}\u{c}\r", "/"])],
    ];
    for groups in &cases {
        let mut r = request(groups);
        r.amount = "1\"0\\0".to_string();
        r.user_address = "line\nbreak \u{0} nul".to_string();
        assert_eq!(canonicalize(&r), by_serde_json(&r, groups));
    }
}

#[test]
fn canonical_message_escapes_as_json_does() {
    let mut r = request(&[]);
    r.amount = "a\"b\\c\u{8}\t\n\u{c}\r\u{0}\u{1b}\u{1f} \u{7f}\u{e9}/".to_string();
    r.proof = Vec::new();
    r.signature = String::new();
    r.user_address = String::new();
    let expected = concat_all(&[
        "{\"amount\":\"a\\\"b\\\\c\\b\\t\\n\\f\\r\\u0000\\u001b\\u001f \u{7f}\u{e9}/\",",
        "\"proof\":[],\"signature\":\"\",\"tokenIds\":{},\"userAddress\":\"\"}",
    ]);
    assert_eq!(canonicalize(&r), expected);
}

#[test]
fn canonical_message_ignores_insertion_order_of_groups() {
    let a = request(&[("0xaa", &["1"]), ("0xbb", &["2"]), ("0xcc", &["3"])]);
    let b = request(&[("0xcc", &["3"]), ("0xaa", &["1"]), ("0xbb", &["2"])]);
    let c = request(&[("0xbb", &["2"]), ("0xcc", &["3"]), ("0xaa", &["1"])]);
    assert_eq!(canonicalize(&a), canonicalize(&b));
    assert_eq!(canonicalize(&a), canonicalize(&c));
}

#[test]
fn canonical_message_ignores_order_of_identifiers() {
    let a = request(&[("0xaa", &["3", "1", "2", "10"])]);
    let b = request(&[("0xaa", &["10", "2", "1", "3"])]);
    assert_eq!(canonicalize(&a), canonicalize(&b));
    assert!(canonicalize(&a).contains("\"0xaa\":[\"1\",\"10\",\"2\",\"3\"]"));
}

#[test]
fn canonical_message_keeps_the_order_of_the_proof() {
    let mut a = request(&[]);
    a.proof = strings(&["0x22", "0x11"]);
    let mut b = request(&[]);
    b.proof = strings(&["0x11", "0x22"]);
    assert_ne!(canonicalize(&a), canonicalize(&b));
    assert!(canonicalize(&a).contains("\"proof\":[\"0x22\",\"0x11\"]"));
}

#[test]
fn canonical_message_changes_with_each_signed_field() {
    let base = canonicalize(&request(&[("0xaa", &["1"])]));
    let mut r = request(&[("0xaa", &["1"])]);
    r.amount = "101".to_string();
    assert_ne!(canonicalize(&r), base);
    let mut r = request(&[("0xaa", &["1"])]);
    r.signature = "0xabce".to_string();
    assert_ne!(canonicalize(&r), base);
    let mut r = request(&[("0xaa", &["1"])]);
    r.user_address = "0xuser".to_string();
    assert_ne!(canonicalize(&r), base);
    assert_ne!(canonicalize(&request(&[("0xaa", &["2"])])), base);
    assert_ne!(canonicalize(&request(&[("0xab", &["1"])])), base);
}

#[test]
fn identifiers_sort_as_text_not_as_numbers() {
    assert_eq!(sort_ids(&strings(&["10", "2"])), strings(&["10", "2"]));
    assert_eq!(sort_ids(&strings(&["2", "10"])), strings(&["10", "2"]));
    assert_eq!(
        sort_ids(&strings(&["9", "100", "11", "1", "20"])),
        strings(&["1", "100", "11", "20", "9"])
    );
}

#[test]
fn sorting_keeps_every_identifier() {
    assert_eq!(sort_ids(&strings(&[])), strings(&[]));
    assert_eq!(sort_ids(&strings(&["b", "a", "b", "", "a"])), strings(&["", "a", "a", "b", "b"]));
}

#[test]
fn sorting_agrees_with_the_order_of_str() {
    let items = strings(&["b", "B", "a", "", "ab", "a\u{e9}", "\u{e9}", "\u{1f600}", "z", "~", "10", "2", "A"]);
    let mut expected = items.clone();
    expected.sort();
    assert_eq!(sort_ids(&items), expected);
    for a in &items {
        for b in &items {
            assert_eq!(str_le(a, b), a <= b);
        }
    }
}
