use mrms_pull::codec::parse_manifest;

#[test]
fn empty_array() {
    assert_eq!(parse_manifest("[]"), Some(vec![]));
    assert_eq!(parse_manifest("  [ ]  "), Some(vec![]));
}

#[test]
fn plain_locations_in_order() {
    let m = parse_manifest("[\"releases/app.jar\", \"cfg/app.yml\"]").expect("valid manifest");
    assert_eq!(m, vec!["releases/app.jar".to_string(), "cfg/app.yml".to_string()]);
}

#[test]
fn whitespace_is_free() {
    let m = parse_manifest(" [ \"a\" ,\n\t\"b\" , \"c\" ] ").expect("valid manifest");
    assert_eq!(m, vec!["a".to_string(), "b".to_string(), "c".to_string()]);
}

#[test]
fn escapes_inside_locations() {
    let m = parse_manifest("[\"a\\\\b\\\"c\", \"x\\u0041y\"]").expect("valid manifest");
    assert_eq!(m, vec!["a\\b\"c".to_string(), "xAy".to_string()]);
}

#[test]
fn rejects_what_is_not_an_array_of_strings() {
    assert_eq!(parse_manifest(""), None);
    assert_eq!(parse_manifest("["), None);
    assert_eq!(parse_manifest("[\"a\""), None);
    assert_eq!(parse_manifest("[1, 2]"), None);
    assert_eq!(parse_manifest("{\"a\": 1}"), None);
    assert_eq!(parse_manifest("[\"a\"] trailing"), None);
    assert_eq!(parse_manifest("[\"a\",]"), None);
}

#[test]
fn agrees_with_serde_on_shared_cases() {
    let cases = [
        "[]",
        "[\"releases/app.jar\", \"cfg/app.yml\"]",
        " [ \"a\" , \"b\" ] ",
        "[\"a\\\\b\\\"c\"]",
        "[1, 2]",
        "not json",
        "[\"a\",]",
    ];
    for text in cases {
        let ours = parse_manifest(text);
        let serde: Result<Vec<String>, _> = serde_json::from_str(text);
        match (ours, serde) {
            (Some(a), Ok(b)) => assert_eq!(a, b, "differs on {text}"),
            (None, Err(_)) => {},
            (a, b) => panic!("disagreement on {text}: ours {a:?}, serde ok={}", b.is_ok()),
        }
    }
}
