use async_with_callback::ioresult::IOResult;

#[test]
fn into_string_gives_the_text_only() {
    assert_eq!(IOResult::Text("hello".to_string()).into_string(), Some("hello".to_string()));
    assert_eq!(IOResult::Text(String::new()).into_string(), Some(String::new()));
    assert_eq!(IOResult::Int(7).into_string(), None);
    assert_eq!(IOResult::Undefined.into_string(), None);
}

#[test]
fn into_int_gives_the_number_only() {
    assert_eq!(IOResult::Int(55).into_int(), Some(55));
    assert_eq!(IOResult::Int(0).into_int(), Some(0));
    assert_eq!(IOResult::Int(u64::MAX).into_int(), Some(u64::MAX));
    assert_eq!(IOResult::Text("55".to_string()).into_int(), None);
    assert_eq!(IOResult::Undefined.into_int(), None);
}
