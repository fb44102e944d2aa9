use link_shortener::utils::{is_not_empty, min_length};

#[test]
fn min_length_tests_length() {
    let at_least_two = min_length::<i32>(2);
    assert!(at_least_two(&vec![1, 2]));
    assert!(at_least_two(&vec![1, 2, 3]));
    assert!(!at_least_two(&vec![1]));
}

#[test]
fn is_not_empty_tests_emptiness() {
    assert!(is_not_empty(&vec![1]));
    assert!(!is_not_empty::<i32>(&vec![]));
}
