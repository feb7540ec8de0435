use cmdx::echo::get_string_from_match;

#[test]
fn test_basic() {
    let strings = vec!["hello".to_string(), "world".to_string()];
    assert_eq!("hello world\n", get_string_from_match(&strings, false));
}

#[test]
fn test_basic_with_option() {
    let strings = vec!["hello".to_string(), "world".to_string()];
    assert_eq!("hello world", get_string_from_match(&strings, true));
}

#[test]
fn test_empty() {
    let strings: Vec<String> = Vec::new();
    assert_eq!("\n", get_string_from_match(&strings, false));
}

#[test]
fn test_empty_with_option() {
    let strings: Vec<String> = Vec::new();
    assert_eq!("", get_string_from_match(&strings, true));
}

#[test]
fn single_string_is_echoed_alone() {
    let strings = vec!["hello".to_string()];
    assert_eq!("hello\n", get_string_from_match(&strings, false));
}
