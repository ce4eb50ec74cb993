use protohack::prime::{handle_is_prime, prime_response_json};

#[test]
fn primality_answers() {
    assert!(!handle_is_prime(0).prime);
    assert!(!handle_is_prime(1).prime);
    assert!(handle_is_prime(2).prime);
    assert!(handle_is_prime(7).prime);
    assert!(!handle_is_prime(8).prime);
    assert!(!handle_is_prime(123).prime);
    assert!(handle_is_prime(22_801_763_489).prime);
    assert!(!handle_is_prime(22_801_763_491).prime);
}

#[test]
fn response_method_is_fixed() {
    assert_eq!(handle_is_prime(5).method, "isPrime");
}

#[test]
fn responses_frame_as_json() {
    assert_eq!(
        prime_response_json(&handle_is_prime(123)),
        "{\"method\":\"isPrime\",\"prime\":false}"
    );
    assert_eq!(
        prime_response_json(&handle_is_prime(113)),
        "{\"method\":\"isPrime\",\"prime\":true}"
    );
}
