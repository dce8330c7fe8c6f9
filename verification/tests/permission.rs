use guche::permission::is_superuser;

#[test]
fn empty_list_allows_all() {
    assert!(is_superuser(123, &[]));
}

#[test]
fn matching_user() {
    assert!(is_superuser(123, &[123, 456]));
}

#[test]
fn non_matching_user() {
    assert!(!is_superuser(789, &[123, 456]));
}

#[test]
fn last_listed_user_matches() {
    assert!(is_superuser(-5, &[1, 2, -5]));
    assert!(!is_superuser(0, &[1]));
}
