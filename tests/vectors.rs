use statvec::vectors::{generate_random_vec, generate_vec};

#[test]
fn vector() {
    let vec = generate_vec(5);
    assert_eq!(vec, vec![0, 1, 2, 3, 4]);
}

#[test]
fn random_vec() {
    let vec_a = generate_random_vec(5);
    let vec_b = generate_random_vec(5);
    assert_ne!(vec_a, vec_b);
}

#[test]
fn empty_vectors() {
    assert!(generate_vec(0).is_empty());
    assert!(generate_random_vec(0).is_empty());
}

#[test]
fn random_vec_has_requested_length() {
    assert_eq!(generate_random_vec(17).len(), 17);
}
