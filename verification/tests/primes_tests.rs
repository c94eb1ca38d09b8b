use workpool::primes::{check_if_prime, concat_parts, stride_primes};

#[test]
fn small_numbers_are_not_prime() {
    assert!(!check_if_prime(-5));
    assert!(!check_if_prime(-1));
    assert!(!check_if_prime(0));
    assert!(!check_if_prime(1));
}

#[test]
fn known_primes_are_recognised() {
    assert!(check_if_prime(2));
    assert!(check_if_prime(3));
    assert!(check_if_prime(5));
    assert!(check_if_prime(17));
    assert!(check_if_prime(23));
    assert!(check_if_prime(97));
}

#[test]
fn known_composites_are_rejected() {
    assert!(!check_if_prime(4));
    assert!(!check_if_prime(9));
    assert!(!check_if_prime(25));
    assert!(!check_if_prime(91));
    assert!(!check_if_prime(100));
}

#[test]
fn strides_partition_the_primes() {
    let even = stride_primes(-5, 23, 2, 0);
    let odd = stride_primes(-5, 23, 2, 1);
    assert_eq!(even, vec![2]);
    assert_eq!(odd, vec![3, 5, 7, 11, 13, 17, 19, 23]);
}

#[test]
fn three_strides_cover_everything() {
    let mut all: Vec<i32> = Vec::new();
    for idx in 0..3 {
        all.extend(stride_primes(2, 30, 3, idx));
    }
    all.sort();
    assert_eq!(all, vec![2, 3, 5, 7, 11, 13, 17, 19, 23, 29]);
}

#[test]
fn empty_range_finds_nothing() {
    assert_eq!(stride_primes(10, 5, 2, 0), Vec::<i32>::new());
    assert_eq!(stride_primes(10, 5, 2, 1), Vec::<i32>::new());
}

#[test]
fn concat_keeps_parts_in_order() {
    let parts = vec![vec![1, 2], vec![3], vec![], vec![4, 5]];
    assert_eq!(concat_parts(parts), vec![1, 2, 3, 4, 5]);
    assert_eq!(concat_parts(Vec::new()), Vec::<i32>::new());
}
