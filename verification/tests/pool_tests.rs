use r_blockchain::generate_rand_string;
use r_blockchain::validate_pool_size;

#[test]
fn zero_pool_size_is_fatal_construction_error() {
    let err = validate_pool_size(0).unwrap_err();
    assert_eq!(err.message(), "thread pool size must be greater than 0");
}

#[test]
fn positive_pool_sizes_are_accepted() {
    assert_eq!(validate_pool_size(1).unwrap(), 1);
    assert_eq!(validate_pool_size(4).unwrap(), 4);
}

#[test]
fn random_identifier_is_ten_alphanumeric_characters() {
    for _ in 0..20 {
        let id = generate_rand_string();
        assert_eq!(id.len(), 10);
        assert!(id.chars().all(|c| c.is_ascii_alphanumeric()));
    }
}
