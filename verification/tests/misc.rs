use protocore::chat::valid_name;
use protocore::pest_msg::Action;
use protocore::pest_msg::TargetPopulation;
use protocore::primality::is_prime;

#[test]
fn chat_names() {
    assert!(valid_name(b"alice"));
    assert!(valid_name(b"Bob99"));
    assert!(!valid_name(b""));
    assert!(!valid_name(b"bad name"));
    assert!(!valid_name(b"no-dash"));
}

#[test]
fn primes() {
    assert!(!is_prime(0));
    assert!(!is_prime(1));
    assert!(is_prime(2));
    assert!(is_prime(3));
    assert!(!is_prime(4));
    assert!(is_prime(97));
    assert!(!is_prime(91));
    assert!(is_prime(7919));
    assert!(!is_prime(7917));
    assert!(is_prime(2147483647));
}

#[test]
fn policy_decisions() {
    let band = TargetPopulation { species: b"dog".to_vec(), min: 3, max: 7 };
    assert_eq!(band.policy_action(0), Some(Action::Conserve));
    assert_eq!(band.policy_action(2), Some(Action::Conserve));
    assert_eq!(band.policy_action(3), None);
    assert_eq!(band.policy_action(7), None);
    assert_eq!(band.policy_action(8), Some(Action::Cull));
}
