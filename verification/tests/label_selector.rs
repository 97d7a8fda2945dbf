use sidekick::handlers::label_selector::{parse_label_selector, to_k8s_selector};

#[test]
fn parses_single_pair_with_slash_in_key() {
    let pairs = parse_label_selector("ginger-gitter/branch=main").unwrap();
    assert_eq!(
        pairs,
        vec![("ginger-gitter/branch".to_string(), "main".to_string())]
    );
}

#[test]
fn parses_multiple_pairs() {
    let pairs =
        parse_label_selector("ginger-gitter/branch=main,tekton.dev/pipeline=my-pipeline").unwrap();
    assert_eq!(
        pairs,
        vec![
            ("ginger-gitter/branch".to_string(), "main".to_string()),
            ("tekton.dev/pipeline".to_string(), "my-pipeline".to_string()),
        ]
    );
}

#[test]
fn value_containing_equals_is_preserved() {
    // first '=' splits key/value; any further '=' stays in the value
    let pairs = parse_label_selector("k=a=b").unwrap();
    assert_eq!(pairs, vec![("k".to_string(), "a=b".to_string())]);
}

#[test]
fn trailing_comma_is_forgiven() {
    let pairs = parse_label_selector("k=v,").unwrap();
    assert_eq!(pairs, vec![("k".to_string(), "v".to_string())]);
}

#[test]
fn missing_equals_errors() {
    assert!(parse_label_selector("not-a-pair").is_err());
}

#[test]
fn to_k8s_selector_roundtrips() {
    let pairs = vec![
        ("a/b".to_string(), "c".to_string()),
        ("d".to_string(), "e".to_string()),
    ];
    assert_eq!(to_k8s_selector(&pairs), "a/b=c,d=e");
}

#[test]
fn the_first_bad_segment_is_named() {
    let error = parse_label_selector("a=b, nope ,=x").unwrap_err();
    assert_eq!(error.bad_pair, "nope");
    assert_eq!(error.message(), "invalid label selector segment 'nope', expected key=value");
    assert_eq!(parse_label_selector("=x").unwrap_err().bad_pair, "=x");
}

#[test]
fn segments_are_trimmed_and_blank_ones_skipped() {
    let pairs = parse_label_selector(" a = b , ,c=,").unwrap();
    assert_eq!(
        pairs,
        vec![("a ".to_string(), " b".to_string()), ("c".to_string(), "".to_string())]
    );
    assert_eq!(parse_label_selector("").unwrap(), vec![]);
}

#[test]
fn what_is_written_is_read_back() {
    let pairs = vec![
        ("tekton.dev/pipeline".to_string(), "p=1".to_string()),
        ("k".to_string(), "".to_string()),
    ];
    assert_eq!(parse_label_selector(&to_k8s_selector(&pairs)).unwrap(), pairs);
    assert_eq!(to_k8s_selector(&[]), "");
}

#[test]
fn what_is_read_is_written_the_same_way_again() {
    let once = to_k8s_selector(&parse_label_selector(" a=b ,, c=d=e,").unwrap());
    assert_eq!(once, "a=b,c=d=e");
    assert_eq!(to_k8s_selector(&parse_label_selector(&once).unwrap()), once);
}
