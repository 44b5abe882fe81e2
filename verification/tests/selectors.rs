use kbs::metadata;
use kbs::metadata::labels::Label;
use kbs::metadata::selectors::{parse, Operation, Selector};
use kbs::Error;

#[test]
fn test_parse() {
    for selector in &["test=test", "test!=test.com", "test=test.com"] {
        let s = parse(selector);
        assert!(s.is_ok());
        assert_eq!(s.unwrap().key, "test");
    }
}

#[test]
fn test_matches() {
    let tests: Vec<(Vec<Selector>, Vec<Label>, bool)> = vec![
        (
            vec![Selector {
                key: "key".to_string(),
                value: "val".to_string(),
                op: Operation::Equal,
            }],
            vec![],
            false,
        ),
        (
            vec![Selector {
                key: "key".to_string(),
                value: "val".to_string(),
                op: Operation::Equal,
            }],
            vec![Label {
                key: "key".to_string(),
                value: Some("val".to_string()),
            }],
            true,
        ),
        (
            vec![Selector {
                key: "key".to_string(),
                value: "val".to_string(),
                op: Operation::NotEqual,
            }],
            vec![Label {
                key: "key".to_string(),
                value: Some("val".to_string()),
            }],
            false,
        ),
    ];

    for test in tests.iter() {
        let (selectors, labels, expected) = test;
        let labels_map = metadata::labels::to_map(&labels);
        assert_eq!(
            metadata::selectors::matches(&selectors, &labels_map),
            expected.to_owned()
        );
    }
}

fn selectors(items: &[&str]) -> Vec<Selector> {
    items.iter().map(|s| parse(s).unwrap()).collect()
}

fn labels(items: &[(&str, &str)]) -> kbs::string_map::StringMap<String> {
    let labels: Vec<Label> = items
        .iter()
        .map(|(k, v)| Label {
            key: k.to_string(),
            value: Some(v.to_string()),
        })
        .collect();
    metadata::labels::to_map(&labels)
}

#[test]
fn parse_selector_reads_operation() {
    let s = parse("test!=test.com").unwrap();
    assert_eq!(s.key, "test");
    assert_eq!(s.value, "test.com");
    assert_eq!(s.op, Operation::NotEqual);

    let s = parse("example.com/test=").unwrap();
    assert_eq!(s.key, "example.com/test");
    assert_eq!(s.value, "");
    assert_eq!(s.op, Operation::Equal);

    let s = parse("!=v").unwrap();
    assert_eq!(s.key, "");
    assert_eq!(s.op, Operation::NotEqual);
}

#[test]
fn parse_selector_refuses_invalid_input() {
    let r = parse("test");
    assert!(matches!(r, Err(Error::Validation(_))));
    assert_eq!(
        r.unwrap_err().message(),
        "invalid selector: no `=` found in `test`"
    );

    for s in &["a!b!=c", "a!b=c", "=a!", "a==b", "A=b", "a=B", "a=b=c"] {
        let r = parse(s);
        assert!(matches!(r, Err(Error::Validation(_))), "{s}");
        assert_eq!(
            r.unwrap_err().message(),
            "key or value are not valid RFC 1123 dns-style"
        );
    }
}

#[test]
fn selectors_are_a_conjunction() {
    let l = labels(&[("a", "1"), ("b", "2")]);
    assert!(metadata::selectors::matches(
        &selectors(&["a=1", "b=2"]),
        &l
    ));
    assert!(!metadata::selectors::matches(
        &selectors(&["a=1", "b=3"]),
        &l
    ));
    assert!(!metadata::selectors::matches(&selectors(&["a!=1"]), &l));
    assert!(metadata::selectors::matches(
        &selectors(&["a!=2", "b=2"]),
        &l
    ));
    assert!(metadata::selectors::matches(&selectors(&[]), &l));
}

#[test]
fn selector_on_missing_key_fails_for_both_operations() {
    let l = labels(&[("a", "1")]);
    assert!(!metadata::selectors::matches(&selectors(&["c=1"]), &l));
    assert!(!metadata::selectors::matches(&selectors(&["c!=1"]), &l));
    assert!(!metadata::selectors::matches(
        &selectors(&["a=1", "c!=1"]),
        &l
    ));
    assert!(metadata::selectors::matches(
        &selectors(&[]),
        &labels(&[])
    ));
}
