use link_shortener::wrappers::Integer;

#[test]
fn add_integers() {
    let lhs = Integer::new(1);
    let rhs = Integer::new(2);
    assert_eq!(lhs + rhs, Integer::new(3));
}

#[test]
fn integer_default_is_zero() {
    assert_eq!(Integer::default(), Integer::new(0));
}
