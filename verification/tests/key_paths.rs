use cooklang_reports::key_path::{KeyPath, KeyPathParseError};

#[test]
fn file_and_simple_key() {
    let input = "path/key";
    let result = KeyPath::parse(input).unwrap();
    assert_eq!(result.path(), "path.yml");
    assert_eq!(result.key_vec(), vec!["key".to_string()]);
    assert_eq!(input, result.display_string());
}

#[test]
fn path_and_simple_key() {
    let input = "dir/path/key";
    let result = KeyPath::parse(input).unwrap();
    assert_eq!(result.path(), "dir/path.yml");
    assert_eq!(result.key_vec(), vec!["key".to_string()]);
    assert_eq!(input, result.display_string());
}

#[test]
fn file_and_nested_key() {
    let input = "path/key.nested.value";
    let result = KeyPath::parse(input).unwrap();
    assert_eq!(result.path(), "path.yml");
    assert_eq!(
        result.key_vec(),
        vec!["key".to_string(), "nested".to_string(), "value".to_string()]
    );
    assert_eq!(input, result.display_string());
}

#[test]
fn path_and_nested_key() {
    let input = "dir/path/key.nested.value";
    let result = KeyPath::parse(input).unwrap();
    assert_eq!(result.path(), "dir/path.yml");
    assert_eq!(
        result.key_vec(),
        vec!["key".to_string(), "nested".to_string(), "value".to_string()]
    );
    assert_eq!(input, result.display_string());
}

#[test]
fn file_and_empty_key() {
    let input = "path/";
    let result = KeyPath::parse(input).unwrap();
    assert_eq!(result.path(), "path.yml");
    assert_eq!(result.key_vec(), Vec::<String>::new());
    assert_eq!(input, result.display_string());
}

#[test]
fn err_no_path_some_key() {
    let result = KeyPath::parse("/key").unwrap_err();
    assert!(matches!(result, KeyPathParseError::NoPath));
}

#[test]
fn err_no_delimiter() {
    let values = vec!["inner", "middle.inner", "outer.middle.inner"];
    for value in values {
        let result = KeyPath::parse(value).unwrap_err();
        assert!(matches!(result, KeyPathParseError::NoDelimiter));
    }
}

#[test]
fn err_no_path_or_key() {
    let result = KeyPath::parse("/").unwrap_err();
    assert!(matches!(result, KeyPathParseError::NoPath));
}
