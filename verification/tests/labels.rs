use kbs::metadata::labels::{
    is_valid_label_key, is_valid_label_value, is_valid_rfc_1123_subdomain, merge, parse, to_map,
    Label,
};
use kbs::metadata::ConfigMetadata;
use kbs::string_map::StringMap;
use kbs::Error;

fn label(key: &str, value: Option<&str>) -> Label {
    Label {
        key: key.to_string(),
        value: value.map(|v| v.to_string()),
    }
}

fn pairs(map: &StringMap<String>) -> Vec<(String, String)> {
    map.entries().clone()
}

fn owned(items: &[(&str, &str)]) -> Vec<(String, String)> {
    items
        .iter()
        .map(|(k, v)| (k.to_string(), v.to_string()))
        .collect()
}

fn with_labels(items: &[(&str, &str)]) -> ConfigMetadata {
    let labels: Vec<Label> = items.iter().map(|(k, v)| label(k, Some(v))).collect();
    ConfigMetadata {
        labels: Some(to_map(&labels)),
    }
}

#[test]
fn test_valid_rfc_1123_subdomains() {
    for name in &["test", "test.com", "test-domain"] {
        assert!(is_valid_rfc_1123_subdomain(name), "{name} is not valid");
    }
}

#[test]
fn test_invalid_rfc_1123_subdomains() {
    for name in &["teSt", "tEst.Com"] {
        assert!(
            !is_valid_rfc_1123_subdomain(name),
            "{} should not valid",
            name
        );
    }
}

#[test]
fn test_valid_label_keys() {
    for key in &["test", "test.com", "test.com/key", "test-key"] {
        assert!(is_valid_label_key(key), "{key} is not valid");
    }
}

#[test]
fn test_invalid_label_keys() {
    for key in &["tesT", "test@com", "test+com/key", "1234?"] {
        assert!(!is_valid_label_key(key), "{key} should not be valid");
    }
}

#[test]
fn test_valid_label_values() {
    for value in &["test", "test-value", "test_value"] {
        assert!(is_valid_label_value(value), "{value} is not valid");
    }
}

#[test]
fn test_invalid_label_values() {
    for value in &["tesT", "test$value", "test_Value", "test/value"] {
        assert!(!is_valid_label_value(value), "{value} should not be valid");
    }
}

#[test]
fn subdomain_length_limit_is_253() {
    let longest = "a".repeat(253);
    let too_long = "a".repeat(254);
    assert!(is_valid_rfc_1123_subdomain(&longest));
    assert!(!is_valid_rfc_1123_subdomain(&too_long));
    assert!(is_valid_rfc_1123_subdomain(""));
}

#[test]
fn subdomain_refuses_underscore_and_other_scripts() {
    assert!(!is_valid_rfc_1123_subdomain("test_value"));
    assert!(!is_valid_rfc_1123_subdomain("t\u{e9}st"));
    assert!(!is_valid_rfc_1123_subdomain("\u{663}"));
    assert!(is_valid_rfc_1123_subdomain("0.9-a.z"));
}

#[test]
fn label_key_checks_prefix_and_name_separately() {
    let part = "a".repeat(253);
    let key = format!("{part}/{part}");
    assert!(is_valid_label_key(&key));
    let long_name = format!("{part}/{part}a");
    assert!(!is_valid_label_key(&long_name));
    assert!(!is_valid_label_key(&"a".repeat(254)));
    assert!(!is_valid_label_key("a/b/c"));
    assert!(is_valid_label_key("/name"));
    assert!(is_valid_label_key(""));
}

#[test]
fn label_value_length_limit_is_63() {
    assert!(is_valid_label_value(&"v".repeat(63)));
    assert!(!is_valid_label_value(&"v".repeat(64)));
    assert!(is_valid_label_value(""));
    assert!(is_valid_label_value("a_b.c-d"));
}

#[test]
fn parse_label_splits_on_first_equals() {
    let l = parse("env=prod").unwrap();
    assert_eq!(l.key, "env");
    assert_eq!(l.value, Some("prod".to_string()));

    let l = parse("example.com/env=").unwrap();
    assert_eq!(l.key, "example.com/env");
    assert_eq!(l.value, Some("".to_string()));

    let r = parse("a=b=c");
    assert!(matches!(r, Err(Error::Validation(_))));
    assert_eq!(
        r.unwrap_err().message(),
        "key or value are not valid RFC 1123 dns-style"
    );
}

#[test]
fn parse_label_reads_removal() {
    let l = parse("new-label-").unwrap();
    assert_eq!(l.key, "new-label");
    assert_eq!(l.value, None);

    let l = parse("-").unwrap();
    assert_eq!(l.key, "");
    assert_eq!(l.value, None);
}

#[test]
fn parse_label_refuses_other_strings() {
    let r = parse("label");
    assert!(matches!(r, Err(Error::Validation(_))));
    assert_eq!(r.unwrap_err().message(), "could not parse `label` as label");

    let r = parse("");
    assert_eq!(r.unwrap_err().message(), "could not parse `` as label");

    let r = parse("Env=prod");
    assert_eq!(
        r.unwrap_err().message(),
        "key or value are not valid RFC 1123 dns-style"
    );
    let r = parse("env=Prod");
    assert_eq!(
        r.unwrap_err().message(),
        "key or value are not valid RFC 1123 dns-style"
    );
}

#[test]
fn to_map_keeps_last_value_and_sorts_by_key() {
    let labels = vec![
        label("owner", Some("embik")),
        label("location", Some("nonexistent")),
        label("owner", Some("other")),
        label("gone", None),
    ];
    let map = to_map(&labels);
    assert_eq!(
        pairs(&map),
        owned(&[("location", "nonexistent"), ("owner", "other")])
    );
    assert_eq!(map.len(), 2);
    assert_eq!(map.get("owner"), Some(&"other".to_string()));
    assert_eq!(map.get("gone"), None);
}

#[test]
fn merge_without_existing_labels_takes_new_labels() {
    let metadata = ConfigMetadata { labels: None };
    let merged = merge(
        &metadata,
        &vec![label("a", Some("1")), label("b", None)],
        false,
    )
    .unwrap();
    assert_eq!(pairs(&merged), owned(&[("a", "1")]));
}

#[test]
fn merge_adds_and_removes() {
    let metadata = with_labels(&[("new-label", "new-value"), ("old-label", "old-value")]);
    let merged = merge(&metadata, &vec![label("new-label", None)], false).unwrap();
    assert_eq!(pairs(&merged), owned(&[("old-label", "old-value")]));

    let merged = merge(&metadata, &vec![label("third", Some("3"))], false).unwrap();
    assert_eq!(
        pairs(&merged),
        owned(&[
            ("new-label", "new-value"),
            ("old-label", "old-value"),
            ("third", "3")
        ])
    );
    // what was merged into is left as it was
    assert_eq!(metadata.labels.as_ref().unwrap().len(), 2);
}

#[test]
fn merging_the_same_label_twice_succeeds() {
    let metadata = with_labels(&[("env", "test")]);
    let labels = vec![label("env", Some("prod"))];
    let once = merge(&metadata, &labels, true).unwrap();
    let again = merge(
        &ConfigMetadata {
            labels: Some(once.clone()),
        },
        &labels,
        false,
    )
    .unwrap();
    assert_eq!(pairs(&once), owned(&[("env", "prod")]));
    assert_eq!(pairs(&again), pairs(&once));

    let fresh = merge(&ConfigMetadata { labels: None }, &labels, false).unwrap();
    let again = merge(
        &ConfigMetadata {
            labels: Some(fresh),
        },
        &labels,
        false,
    )
    .unwrap();
    assert_eq!(pairs(&again), owned(&[("env", "prod")]));
}

#[test]
fn merging_a_different_value_needs_overwrite() {
    let metadata = with_labels(&[("env", "test")]);
    let labels = vec![label("env", Some("prod"))];

    let refused = merge(&metadata, &labels, false);
    assert!(matches!(refused, Err(Error::Collision(_))));
    assert_eq!(
        refused.unwrap_err().message(),
        "cannot set key 'env' to value 'prod', is 'test' already"
    );

    let replaced = merge(&metadata, &labels, true).unwrap();
    assert_eq!(pairs(&replaced), owned(&[("env", "prod")]));
}

#[test]
fn merge_stops_at_first_conflict() {
    let metadata = with_labels(&[("a", "1"), ("b", "2")]);
    let labels = vec![
        label("c", Some("3")),
        label("b", Some("x")),
        label("a", Some("y")),
    ];
    let refused = merge(&metadata, &labels, false);
    assert_eq!(
        refused.unwrap_err().message(),
        "cannot set key 'b' to value 'x', is '2' already"
    );
}

#[test]
fn merge_sees_labels_set_earlier_in_the_same_call() {
    let metadata = with_labels(&[]);
    let labels = vec![label("a", Some("1")), label("a", Some("2"))];
    assert!(merge(&metadata, &labels, false).is_err());
    let labels = vec![
        label("a", Some("1")),
        label("a", None),
        label("a", Some("2")),
    ];
    let merged = merge(&metadata, &labels, false).unwrap();
    assert_eq!(pairs(&merged), owned(&[("a", "2")]));
}
