use prime_time::bignum::BigNum;
use prime_time::oracle::is_prime;

/// A nonnegative value from its little-endian base-2^32 limbs.
fn pos(limbs: Vec<u32>) -> BigNum {
    BigNum { limbs, negative: false }
}

/// A negative value from the limbs of its magnitude.
fn neg(limbs: Vec<u32>) -> BigNum {
    BigNum { limbs, negative: true }
}

#[test]
fn nothing_at_most_one_is_prime() {
    assert!(!is_prime(&pos(vec![])));
    assert!(!is_prime(&pos(vec![1])));
    assert!(!is_prime(&neg(vec![1])));
    assert!(!is_prime(&neg(vec![7])));
    assert!(!is_prime(&neg(vec![104729])));
}

#[test]
fn two_and_three_are_prime() {
    assert!(is_prime(&pos(vec![2])));
    assert!(is_prime(&pos(vec![3])));
}

#[test]
fn products_of_two_factors_are_composite() {
    assert!(!is_prime(&pos(vec![4])));
    assert!(!is_prime(&pos(vec![6])));
    assert!(!is_prime(&pos(vec![9])));
    assert!(!is_prime(&pos(vec![25])));
    assert!(!is_prime(&pos(vec![49])));
    assert!(!is_prime(&pos(vec![1000000])));
    assert!(!is_prime(&pos(vec![104729 * 2])));
}

#[test]
fn known_primes_are_prime() {
    assert!(is_prime(&pos(vec![5])));
    assert!(is_prime(&pos(vec![7])));
    assert!(is_prime(&pos(vec![13])));
    assert!(is_prime(&pos(vec![97])));
    assert!(is_prime(&pos(vec![104729])));
    assert!(is_prime(&pos(vec![1000003])));
}

#[test]
fn large_prime_is_prime() {
    // 999999937 is prime; trial division up to its square root stays fast.
    assert!(is_prime(&pos(vec![999999937])));
}

#[test]
fn values_beyond_sixty_four_bits_are_handled() {
    // 2^64 and 2^64 + 2 are even, so composite is decided at once.
    assert!(!is_prime(&pos(vec![0, 0, 1])));
    assert!(!is_prime(&pos(vec![2, 0, 1])));
    // 2^65 + 1 is divisible by 3.
    assert!(!is_prime(&pos(vec![1, 0, 2])));
}

#[test]
fn from_u32_builds_the_expected_limbs() {
    let a = BigNum::from_u32(104729);
    assert_eq!(a.limbs, vec![104729]);
    assert!(!a.negative);
    let z = BigNum::from_u32(0);
    assert_eq!(z.limbs, Vec::<u32>::new());
    assert!(!z.negative);
}
