use servofetch::error::ExceptionKind;
use servofetch::policy::{policy_kind, NetworkPolicyKind, NetworkPolicyRegistry, PolicyStep};

#[test]
fn first_request_initializes_strict_policy() {
    let mut registry = NetworkPolicyRegistry::new();
    assert_eq!(registry.recorded(), None);
    let step = registry.request(false).unwrap();
    assert_eq!(step, PolicyStep::Initialize(NetworkPolicyKind::Strict));
    assert_eq!(registry.recorded(), Some(false));
}

#[test]
fn first_request_initializes_permissive_policy() {
    let mut registry = NetworkPolicyRegistry::new();
    let step = registry.request(true).unwrap();
    assert_eq!(step, PolicyStep::Initialize(NetworkPolicyKind::Permissive));
    assert_eq!(registry.recorded(), Some(true));
}

#[test]
fn same_policy_again_is_unchanged() {
    let mut registry = NetworkPolicyRegistry::new();
    registry.request(true).unwrap();
    assert_eq!(registry.request(true).unwrap(), PolicyStep::Unchanged);
    assert_eq!(registry.request(true).unwrap(), PolicyStep::Unchanged);
    assert_eq!(registry.recorded(), Some(true));
}

#[test]
fn other_policy_is_refused_and_keeps_the_first() {
    let mut registry = NetworkPolicyRegistry::new();
    registry.request(false).unwrap();
    let failure = registry.request(true).unwrap_err();
    assert_eq!(failure.kind, ExceptionKind::ValueError);
    assert_eq!(
        failure.message,
        "servo-fetch network policy is process-wide and was already initialized with a different allow_private_addresses value"
    );
    assert_eq!(registry.recorded(), Some(false));
    assert_eq!(registry.request(false).unwrap(), PolicyStep::Unchanged);
}

#[test]
fn policy_kind_follows_allow_private_addresses() {
    assert_eq!(policy_kind(true), NetworkPolicyKind::Permissive);
    assert_eq!(policy_kind(false), NetworkPolicyKind::Strict);
}
