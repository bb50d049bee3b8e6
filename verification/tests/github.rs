use git_forum::internal::github::split_json_arrays;

#[test]
fn split_json_arrays_single() {
    let input = r#"[{"id":1}]"#;
    let result = split_json_arrays(input);
    assert_eq!(result.len(), 1);
    assert_eq!(result[0], r#"[{"id":1}]"#);
}

#[test]
fn split_json_arrays_multiple() {
    let input = r#"[{"id":1}][{"id":2}]"#;
    let result = split_json_arrays(input);
    assert_eq!(result.len(), 2);
    assert_eq!(result[0], r#"[{"id":1}]"#);
    assert_eq!(result[1], r#"[{"id":2}]"#);
}

#[test]
fn split_json_arrays_with_brackets_in_string() {
    let input = r#"[{"body":"[test]"}]"#;
    let result = split_json_arrays(input);
    assert_eq!(result.len(), 1);
}

#[test]
fn split_json_arrays_with_escaped_quote_in_string() {
    let input = r#"[{"body":"a\"]"}][]"#;
    let result = split_json_arrays(input);
    assert_eq!(result, vec![r#"[{"body":"a\"]"}]"#.to_string(), "[]".to_string()]);
}
