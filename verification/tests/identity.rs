use async_with_callback::identity::next_identity;
use std::collections::HashMap;

#[test]
fn test_generate_cb_identity() {
    let mut queue: HashMap<usize, String> = HashMap::new();
    queue.insert(0, "0".to_string());
    queue.insert(1, "1".to_string());
    queue.insert(2, "2".to_string());

    let ident = next_identity(0, &queue);
    assert_eq!(ident, 3);
}

#[test]
fn runtime_test_generate_cb_identity() {
    let mut queue: HashMap<usize, String> = HashMap::new();
    queue.insert(0, "0".to_string());
    queue.insert(1, "1".to_string());
    queue.insert(2, "2".to_string());

    let ident = next_identity(0, &queue);
    assert_eq!(ident, 3);

    let mut ident = 0;
    let taken = queue.contains_key(&ident);
    if taken {
        ident = next_identity(ident, &queue);
    }
    assert_eq!(ident, 3);
}

#[test]
fn next_identity_starts_after_the_counter() {
    let in_use: HashMap<usize, u8> = HashMap::new();
    assert_eq!(next_identity(0, &in_use), 1);
    assert_eq!(next_identity(1, &in_use), 2);
    assert_eq!(next_identity(41, &in_use), 42);
}

#[test]
fn next_identity_skips_what_is_in_use() {
    let mut in_use: HashMap<usize, u8> = HashMap::new();
    in_use.insert(5, 0);
    in_use.insert(6, 0);
    in_use.insert(8, 0);
    assert_eq!(next_identity(4, &in_use), 7);
    assert_eq!(next_identity(7, &in_use), 9);
    assert_eq!(next_identity(8, &in_use), 9);
}

#[test]
fn next_identity_wraps_around_and_skips_zero() {
    let in_use: HashMap<usize, u8> = HashMap::new();
    assert_eq!(next_identity(usize::MAX, &in_use), 1);
    assert_eq!(next_identity(usize::MAX - 1, &in_use), usize::MAX);

    let mut in_use: HashMap<usize, u8> = HashMap::new();
    in_use.insert(usize::MAX, 0);
    in_use.insert(1, 0);
    assert_eq!(next_identity(usize::MAX - 1, &in_use), 2);
}
