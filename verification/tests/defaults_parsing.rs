use porteurbars::defaults::from_string;

#[test]
fn parses_defaults_preserving_order() {}

#[test]
fn test_from_string() {
    let contents = String::from(
        "
FOO=bar # a comment

# another comment
BAZ = boom
",
    );
    let mut expected = Vec::new();
    expected.push((String::from("FOO"), String::from("bar")));
    expected.push((String::from("BAZ"), String::from("boom")));
    assert_eq!(from_string(contents), expected)
}

#[test]
fn empty_source_yields_nothing() {
    assert_eq!(from_string(String::new()), Vec::new());
}

#[test]
fn comment_only_source_yields_nothing() {
    assert_eq!(from_string(String::from("# a\n# b\n")), Vec::new());
}

#[test]
fn line_without_equals_is_dropped() {
    assert_eq!(
        from_string(String::from("no equals here\nA=1\n")),
        vec![(String::from("A"), String::from("1"))]
    );
}

#[test]
fn value_keeps_second_equals() {
    assert_eq!(
        from_string(String::from("KEY=a=b\n")),
        vec![(String::from("KEY"), String::from("a=b"))]
    );
}

#[test]
fn value_cut_at_first_hash() {
    assert_eq!(
        from_string(String::from("KEY=value # one # two\n")),
        vec![(String::from("KEY"), String::from("value"))]
    );
}

#[test]
fn crlf_line_endings_are_recognised() {
    assert_eq!(
        from_string(String::from("A=1\r\nB=2\r\n")),
        vec![
            (String::from("A"), String::from("1")),
            (String::from("B"), String::from("2")),
        ]
    );
}

#[test]
fn final_line_without_newline_counts() {
    assert_eq!(
        from_string(String::from("A=1")),
        vec![(String::from("A"), String::from("1"))]
    );
}

#[test]
fn duplicate_names_are_kept_in_source_order() {
    assert_eq!(
        from_string(String::from("A=1\nB=2\nA=3\n")),
        vec![
            (String::from("A"), String::from("1")),
            (String::from("B"), String::from("2")),
            (String::from("A"), String::from("3")),
        ]
    );
}

#[test]
fn names_and_values_are_trimmed() {
    assert_eq!(
        from_string(String::from("  padded name \t=  padded value  \n")),
        vec![(String::from("padded name"), String::from("padded value"))]
    );
}

#[test]
fn empty_value_survives() {
    assert_eq!(
        from_string(String::from("KEY=\n")),
        vec![(String::from("KEY"), String::from(""))]
    );
}
