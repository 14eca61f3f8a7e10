use serde_with::de::{array_from_iterator, ArrayError};
use serde_with::rust::StringWithSeparator;
use serde_with::{Bytes, CommaSeparator, NoneAsEmptyString, SpaceSeparator};
use std::collections::BTreeSet;

fn none_as_empty_string_cases() {
    assert_eq!(NoneAsEmptyString::serialize_as(&None), "");
    assert_eq!(NoneAsEmptyString::deserialize_as(""), None);
    assert_eq!(NoneAsEmptyString::serialize_as(&Some("Hello".to_string())), "Hello");
    assert_eq!(NoneAsEmptyString::deserialize_as("Hello"), Some("Hello".to_string()));
}

#[test]
fn serde_as_test_none_as_empty_string() {
    none_as_empty_string_cases();
    // Some of the empty string is written as the empty string, which reads as None.
    assert_eq!(
        NoneAsEmptyString::deserialize_as(&NoneAsEmptyString::serialize_as(&Some(String::new()))),
        None
    );
}

#[test]
fn lib_test_none_as_empty_string() {
    none_as_empty_string_cases();
    // Other string types are read through the same string.
    let rc: Option<std::rc::Rc<str>> = NoneAsEmptyString::deserialize_as("Hello").map(|s| s.as_str().into());
    assert_eq!(rc.as_deref(), Some("Hello"));
}

#[test]
fn tests_test_none_as_empty_string() {
    none_as_empty_string_cases();
    assert_eq!(NoneAsEmptyString::deserialize_as(" "), Some(" ".to_string()));
}

fn string_with_separator_cases() {
    let tags = StringWithSeparator::<SpaceSeparator>::deserialize("#hello #world");
    assert_eq!(vec!["#hello", "#world"], tags);
    let more_tags: BTreeSet<String> =
        StringWithSeparator::<CommaSeparator>::deserialize("foo,bar,bar").into_iter().collect();
    assert_eq!(2, more_tags.len());

    let tags = vec!["1".to_string(), "2".to_string(), "3".to_string()];
    let more_tags: Vec<String> = BTreeSet::<String>::new().into_iter().collect();
    let json = format!(
        "{{\"tags\":{},\"more_tags\":{}}}",
        serde_json::to_string(&StringWithSeparator::<SpaceSeparator>::serialize(&tags)).unwrap(),
        serde_json::to_string(&StringWithSeparator::<CommaSeparator>::serialize(&more_tags)).unwrap()
    );
    assert_eq!(r#"{"tags":"1 2 3","more_tags":""}"#, json);
}

#[test]
fn serde_as_string_with_separator() {
    string_with_separator_cases();
}

#[test]
fn lib_string_with_separator() {
    string_with_separator_cases();
    // An empty string is an empty collection.
    assert!(StringWithSeparator::<CommaSeparator>::deserialize("").is_empty());
}

fn oks(values: &[u32]) -> Vec<Result<u32, String>> {
    values.iter().map(|v| Ok(*v)).collect()
}

fn array_cases() {
    assert_eq!(array_from_iterator(oks(&[]), 0), Ok(vec![]));
    assert_eq!(array_from_iterator(oks(&[1]), 1), Ok(vec![1]));
    assert_eq!(array_from_iterator(oks(&[11, 22]), 2), Ok(vec![11, 22]));
    let all: Vec<u32> = (0..32).collect();
    assert_eq!(array_from_iterator(oks(&all), 32), Ok(all.clone()));
}

#[test]
fn tests_test_arrays() {
    array_cases();
}

#[test]
fn serde_as_test_arrays() {
    array_cases();
    assert_eq!(array_from_iterator(oks(&[11]), 2), Err(ArrayError::InvalidLength(1)));
}

#[test]
fn lib_test_arrays() {
    array_cases();
    let failing: Vec<Result<u32, String>> = vec![Ok(1), Err("not a number".to_string())];
    assert_eq!(
        array_from_iterator(failing, 2),
        Err(ArrayError::Element("not a number".to_string()))
    );
}

#[test]
fn test_big_arrays() {
    // A single big array.
    assert_eq!(array_from_iterator(oks(&[0; 64]), 64), Ok(vec![0; 64]));
    // Too few entries.
    assert_eq!(array_from_iterator(oks(&[0; 14]), 64), Err(ArrayError::InvalidLength(14)));
    // Too many entries: the array is filled from the first ones; the rest is
    // left to the format, which reports it.
    assert_eq!(array_from_iterator(oks(&[0; 66]), 64), Ok(vec![0; 64]));
}

#[test]
fn test_bytes() {
    let letters = b"ABCDEFGHIJKLMNOPQRSTUVWXZYabcdefghijklmnopqrstuvwxyz";
    assert_eq!(Bytes::deserialize_array(letters, 52), Ok(letters.to_vec()));
    // From a string: its bytes.
    let s = "ABCDEFGHIJKLMNOPQRSTUVWXZYabcdefghijklmnopqrstuvwxyz";
    assert_eq!(Bytes::deserialize_array(s.as_bytes(), 52), Ok(letters.to_vec()));
    assert_eq!(Bytes::deserialize_array(b"...", 52), Err(3));
}
