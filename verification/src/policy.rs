//! The process-wide network policy. servo-fetch is initialised once per process with
//! either the strict policy (private and local addresses blocked) or the permissive one;
//! every later browser must ask for the same policy.

use vstd::prelude::*;

use crate::error::{failure_from_str, ExceptionKind, Failure};

verus! {

/// The network policy servo-fetch is initialised with.
#[derive(Clone, Copy, Debug, PartialEq, Eq, Structural)]
pub enum NetworkPolicyKind {
    /// Private and local network addresses are blocked.
    Strict,
    /// Private and local network addresses are allowed.
    Permissive,
}

/// What the caller must do after a policy request was accepted.
#[derive(Clone, Copy, Debug, PartialEq, Eq, Structural)]
pub enum PolicyStep {
    /// The policy was already in force; nothing to do.
    Unchanged,
    /// First request of the process: initialise servo-fetch with this policy.
    Initialize(NetworkPolicyKind),
}

/// The policy that `allow_private_addresses` selects.
pub open spec fn policy_kind_for(allow_private_addresses: bool) -> NetworkPolicyKind {
    if allow_private_addresses {
        NetworkPolicyKind::Permissive
    } else {
        NetworkPolicyKind::Strict
    }
}

/// The answer to a request for `allow` when `recorded` is the policy already in force
/// (`None`: none yet). `None` means the request is refused.
pub open spec fn policy_request_outcome(recorded: Option<bool>, allow: bool) -> Option<PolicyStep> {
    match recorded {
        None => Some(PolicyStep::Initialize(policy_kind_for(allow))),
        Some(existing) => if existing == allow {
            Some(PolicyStep::Unchanged)
        } else {
            None
        },
    }
}

/// The policy in force after a request for `allow`.
pub open spec fn policy_after_request(recorded: Option<bool>, allow: bool) -> Option<bool> {
    match recorded {
        None => Some(allow),
        Some(existing) => Some(existing),
    }
}

pub open spec fn policy_conflict_message() -> Seq<char> {
    "servo-fetch network policy is process-wide and was already initialized with a different allow_private_addresses value"@
}

/// Maps `allow_private_addresses` to the servo-fetch policy.
pub fn policy_kind(allow_private_addresses: bool) -> (r: NetworkPolicyKind)
    ensures
        r == policy_kind_for(allow_private_addresses),
{
    if allow_private_addresses {
        NetworkPolicyKind::Permissive
    } else {
        NetworkPolicyKind::Strict
    }
}

/// Records which `allow_private_addresses` value the process was initialised with.
pub struct NetworkPolicyRegistry {
    recorded: Option<bool>,
}

impl View for NetworkPolicyRegistry {
    type V = Option<bool>;

    open spec fn view(&self) -> Option<bool> {
        self.spec_recorded()
    }
}

impl NetworkPolicyRegistry {
    pub closed spec fn spec_recorded(&self) -> Option<bool> {
        self.recorded
    }

    /// A registry of a process in which no browser was created yet.
    pub fn new() -> (r: NetworkPolicyRegistry)
        ensures
            r@ == None::<bool>,
    {
        NetworkPolicyRegistry { recorded: None }
    }

    /// The `allow_private_addresses` value in force, if any.
    pub fn recorded(&self) -> (r: Option<bool>)
        ensures
            r == self@,
    {
        self.recorded
    }

    /// Handles a browser's request for a policy. The first request fixes the policy for
    /// the process and asks the caller to initialise servo-fetch; a later request for the
    /// same policy changes nothing; a request for the other policy is refused with a
    /// `ValueError` and leaves the registry as it was.
    pub fn request(&mut self, allow_private_addresses: bool) -> (r: Result<PolicyStep, Failure>)
        ensures
            final(self)@ == policy_after_request(old(self)@, allow_private_addresses),
            match r {
                Ok(step) => policy_request_outcome(old(self)@, allow_private_addresses) == Some(step),
                Err(f) => policy_request_outcome(old(self)@, allow_private_addresses) is None
                    && f.is(ExceptionKind::ValueError, policy_conflict_message()),
            },
    {
        match self.recorded {
            Some(existing) => {
                if existing == allow_private_addresses {
                    Ok(PolicyStep::Unchanged)
                } else {
                    Err(failure_from_str(
                        ExceptionKind::ValueError,
                        "servo-fetch network policy is process-wide and was already initialized with a different allow_private_addresses value",
                    ))
                }
            },
            None => {
                let kind = policy_kind(allow_private_addresses);
                self.recorded = Some(allow_private_addresses);
                Ok(PolicyStep::Initialize(kind))
            },
        }
    }
}

/// The first request of a process is always accepted: it initialises servo-fetch with
/// the policy it asked for and fixes that policy.
pub proof fn lemma_first_request_initializes(allow: bool)
    ensures
        policy_request_outcome(None, allow) == Some(PolicyStep::Initialize(policy_kind_for(allow))),
        policy_after_request(None, allow) == Some(allow),
{
}

/// The policy is process-wide: once a first request for `first` was accepted, a later
/// request for `second` is accepted exactly when it asks for the same value, and it never
/// initialises servo-fetch a second time.
pub proof fn lemma_policy_is_process_wide(first: bool, second: bool)
    ensures
        ({
            let recorded = policy_after_request(None, first);
            &&& (policy_request_outcome(recorded, second) is Some <==> first == second)
            &&& policy_request_outcome(recorded, second) != Some(
                PolicyStep::Initialize(policy_kind_for(second)),
            )
        }),
{
}

/// Once a policy is in force, no request, accepted or refused, changes it.
pub proof fn lemma_recorded_policy_is_permanent(existing: bool, allow: bool)
    ensures
        policy_after_request(Some(existing), allow) == Some(existing),
{
}

/// Requests that ask for the same policy are idempotent: asking twice leaves the same
/// policy in force as asking once, and the second answer is `Unchanged`.
pub proof fn lemma_repeated_request_is_idempotent(recorded: Option<bool>, allow: bool)
    requires
        policy_request_outcome(recorded, allow) is Some,
    ensures
        policy_after_request(policy_after_request(recorded, allow), allow) == policy_after_request(
            recorded,
            allow,
        ),
        policy_request_outcome(policy_after_request(recorded, allow), allow) == Some(
            PolicyStep::Unchanged,
        ),
{
}

} // verus!
