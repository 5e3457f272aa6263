//! What the store in a database decides from the answers to its questions: roles and
//! policies, users and accounts.
use crate::ambient::in_calendar;
use crate::auth::LockoutPolicy;
use crate::error::{outcome, ControlPlaneError, Fault};
use crate::key::str_same;
use crate::text::{concat, concat3, concat5};
use crate::types::{Decision, Policy, PolicyTarget};
use vstd::prelude::*;

verus! {

/// The number of the lock that all changes of the inheritance of roles take.
pub const ROLE_INHERITS_LOCK_KEY: i64 = 7_017_571_801_419_901_042;

/// What a failed command means where the code says that a key was taken already: a
/// conflict over `what`. Any other failure is that of the store.
pub fn conflict_or_backend(code: Option<&str>, failure: String, what: &str) -> (r: ControlPlaneError)
    ensures
        r@ == (if code matches Some(c) && c@ == "23505"@ {
            Fault::Conflict(what@)
        } else {
            Fault::Backend(failure@)
        }),
{
    match code {
        Some(c) => {
            if str_same(c, "23505") {
                return ControlPlaneError::Conflict(what.to_owned());
            }
        },
        None => {},
    }
    ControlPlaneError::Backend(failure)
}

/// What a failed command means where the code says that it refers to nothing: `what`
/// is missing. Any other failure is that of the store.
pub fn notfound_or_backend(code: Option<&str>, failure: String, what: &str) -> (r: ControlPlaneError)
    ensures
        r@ == (if code matches Some(c) && c@ == "23503"@ {
            Fault::NotFound(what@)
        } else {
            Fault::Backend(failure@)
        }),
{
    match code {
        Some(c) => {
            if str_same(c, "23503") {
                return ControlPlaneError::NotFound(what.to_owned());
            }
        },
        None => {},
    }
    ControlPlaneError::Backend(failure)
}

/// What an operation of the store does next, from what it was told so far.
#[derive(Debug)]
pub enum StoreStep {
    /// Ask whether the subject exists.
    AskSubject,
    /// Ask whether the role exists.
    AskRole,
    /// Ask whether the inherited role exists.
    AskInherited,
    /// Ask whether the role can be reached from the inherited one.
    AskCycle,
    /// Ask whether the type exists.
    AskType,
    /// Judge the row filter, with the properties of the type where there is one.
    JudgeFilter,
    /// Ask whether the subject belongs to a user.
    AskUser,
    /// Store it.
    Store,
    /// Refuse it.
    Refuse(ControlPlaneError),
}

/// What an operation of the store does next, with the refusal by its kind and words.
pub enum StoreVerdict {
    AskSubject,
    AskRole,
    AskInherited,
    AskCycle,
    AskType,
    JudgeFilter,
    AskUser,
    Store,
    Refuse(Fault),
}

impl View for StoreStep {
    type V = StoreVerdict;

    open spec fn view(&self) -> StoreVerdict {
        match self {
            StoreStep::AskSubject => StoreVerdict::AskSubject,
            StoreStep::AskRole => StoreVerdict::AskRole,
            StoreStep::AskInherited => StoreVerdict::AskInherited,
            StoreStep::AskCycle => StoreVerdict::AskCycle,
            StoreStep::AskType => StoreVerdict::AskType,
            StoreStep::JudgeFilter => StoreVerdict::JudgeFilter,
            StoreStep::AskUser => StoreVerdict::AskUser,
            StoreStep::Store => StoreVerdict::Store,
            StoreStep::Refuse(e) => StoreVerdict::Refuse(e@),
        }
    }
}

/// The assignment of a role to a subject: both must exist.
pub open spec fn assign_step(
    subject: Seq<char>,
    role: Seq<char>,
    subject_exists: Option<bool>,
    role_exists: Option<bool>,
) -> StoreVerdict {
    match (subject_exists, role_exists) {
        (None, _) => StoreVerdict::AskSubject,
        (Some(false), _) => StoreVerdict::Refuse(Fault::NotFound("subject "@ + subject)),
        (Some(true), None) => StoreVerdict::AskRole,
        (Some(true), Some(false)) => StoreVerdict::Refuse(Fault::NotFound("role "@ + role)),
        (Some(true), Some(true)) => StoreVerdict::Store,
    }
}

/// The assignment of a role: the subject must exist, then the role.
pub fn assign_role(subject: &str, role: &str, subject_exists: Option<bool>, role_exists: Option<bool>) -> (r:
    StoreStep)
    ensures
        r@ == assign_step(subject@, role@, subject_exists, role_exists),
{
    match subject_exists {
        None => StoreStep::AskSubject,
        Some(there) => {
            if !there {
                StoreStep::Refuse(ControlPlaneError::NotFound(concat("subject ", subject)))
            } else {
                match role_exists {
                    None => StoreStep::AskRole,
                    Some(there) => {
                        if there {
                            StoreStep::Store
                        } else {
                            StoreStep::Refuse(ControlPlaneError::NotFound(concat("role ", role)))
                        }
                    },
                }
            }
        },
    }
}

/// The inheritance of a role by another: both must exist, and there must be no cycle.
pub open spec fn inherit_step(
    role: Seq<char>,
    inherits: Seq<char>,
    role_exists: Option<bool>,
    inherits_exists: Option<bool>,
    creates_cycle: Option<bool>,
) -> StoreVerdict {
    match (role_exists, inherits_exists, creates_cycle) {
        (None, _, _) => StoreVerdict::AskRole,
        (Some(false), _, _) => StoreVerdict::Refuse(Fault::NotFound("role "@ + role)),
        (Some(true), None, _) => StoreVerdict::AskInherited,
        (Some(true), Some(false), _) => StoreVerdict::Refuse(
            Fault::NotFound("role "@ + inherits),
        ),
        (Some(true), Some(true), None) => StoreVerdict::AskCycle,
        (Some(true), Some(true), Some(true)) => StoreVerdict::Refuse(
            Fault::Conflict(
                "role inheritance "@ + role + " -> "@ + inherits + " would create a cycle"@,
            ),
        ),
        (Some(true), Some(true), Some(false)) => StoreVerdict::Store,
    }
}

/// The inheritance of a role, under the lock: both roles must exist, and the inherited
/// one must not lead back to the other.
pub fn add_role_inheritance(
    role: &str,
    inherits: &str,
    role_exists: Option<bool>,
    inherits_exists: Option<bool>,
    creates_cycle: Option<bool>,
) -> (r: StoreStep)
    ensures
        r@ == inherit_step(role@, inherits@, role_exists, inherits_exists, creates_cycle),
{
    match role_exists {
        None => {
            return StoreStep::AskRole;
        },
        Some(there) => {
            if !there {
                return StoreStep::Refuse(ControlPlaneError::NotFound(concat("role ", role)));
            }
        },
    }
    match inherits_exists {
        None => {
            return StoreStep::AskInherited;
        },
        Some(there) => {
            if !there {
                return StoreStep::Refuse(ControlPlaneError::NotFound(concat("role ", inherits)));
            }
        },
    }
    match creates_cycle {
        None => StoreStep::AskCycle,
        Some(cycle) => {
            if cycle {
                StoreStep::Refuse(
                    ControlPlaneError::Conflict(
                        concat5(
                            "role inheritance ",
                            role,
                            " -> ",
                            inherits,
                            " would create a cycle",
                        ),
                    ),
                )
            } else {
                StoreStep::Store
            }
        },
    }
}

/// The grant of an action on a target to a role: the role must exist, and a type that
/// is the target must.
pub open spec fn grant_step(
    role: Seq<char>,
    target: PolicyTarget,
    role_exists: Option<bool>,
    type_exists: Option<bool>,
) -> StoreVerdict {
    match role_exists {
        None => StoreVerdict::AskRole,
        Some(false) => StoreVerdict::Refuse(Fault::NotFound("role "@ + role)),
        Some(true) => match target {
            PolicyTarget::Type(name) => match type_exists {
                None => StoreVerdict::AskType,
                Some(false) => StoreVerdict::Refuse(
                    Fault::Validation("grant references unknown type `"@ + name@ + "`"@),
                ),
                Some(true) => StoreVerdict::Store,
            },
            PolicyTarget::Table(_) => StoreVerdict::Store,
        },
    }
}

/// The grant of an action on a target to a role.
pub fn grant(role: &str, target: &PolicyTarget, role_exists: Option<bool>, type_exists: Option<bool>) -> (r:
    StoreStep)
    ensures
        r@ == grant_step(role@, *target, role_exists, type_exists),
{
    match role_exists {
        None => {
            return StoreStep::AskRole;
        },
        Some(there) => {
            if !there {
                return StoreStep::Refuse(ControlPlaneError::NotFound(concat("role ", role)));
            }
        },
    }
    match target {
        PolicyTarget::Type(name) => match type_exists {
            None => StoreStep::AskType,
            Some(there) => {
                if there {
                    StoreStep::Store
                } else {
                    StoreStep::Refuse(
                        ControlPlaneError::Validation(
                            concat3("grant references unknown type `", name.as_str(), "`"),
                        ),
                    )
                }
            },
        },
        PolicyTarget::Table(_) => StoreStep::Store,
    }
}

/// The setting of a policy of a role: the role must exist, a type that is the target
/// must, and a row filter must be accepted.
pub open spec fn policy_step(
    role: Seq<char>,
    policy: Policy,
    role_exists: Option<bool>,
    type_exists: Option<bool>,
    filter: Option<Result<(), String>>,
) -> StoreVerdict {
    let judged = match (policy.row_filter, filter) {
        (None, _) => StoreVerdict::Store,
        (Some(_), None) => StoreVerdict::JudgeFilter,
        (Some(_), Some(Err(m))) => StoreVerdict::Refuse(Fault::Validation(m@)),
        (Some(_), Some(Ok(_))) => StoreVerdict::Store,
    };
    match role_exists {
        None => StoreVerdict::AskRole,
        Some(false) => StoreVerdict::Refuse(Fault::NotFound("role "@ + role)),
        Some(true) => match policy.target {
            PolicyTarget::Type(name) => match type_exists {
                None => StoreVerdict::AskType,
                Some(false) => StoreVerdict::Refuse(
                    Fault::Validation("policy references unknown type "@ + name@),
                ),
                Some(true) => judged,
            },
            PolicyTarget::Table(_) => judged,
        },
    }
}

/// The setting of a policy of a role.
pub fn set_policy(
    role: &str,
    policy: &Policy,
    role_exists: Option<bool>,
    type_exists: Option<bool>,
    filter: Option<Result<(), String>>,
) -> (r: StoreStep)
    ensures
        r@ == policy_step(role@, *policy, role_exists, type_exists, filter),
{
    match role_exists {
        None => {
            return StoreStep::AskRole;
        },
        Some(there) => {
            if !there {
                return StoreStep::Refuse(ControlPlaneError::NotFound(concat("role ", role)));
            }
        },
    }
    match &policy.target {
        PolicyTarget::Type(name) => match type_exists {
            None => {
                return StoreStep::AskType;
            },
            Some(there) => {
                if !there {
                    return StoreStep::Refuse(
                        ControlPlaneError::Validation(
                            concat("policy references unknown type ", name.as_str()),
                        ),
                    );
                }
            },
        },
        PolicyTarget::Table(_) => {},
    }
    if policy.row_filter.is_none() {
        return StoreStep::Store;
    }
    match filter {
        None => StoreStep::JudgeFilter,
        Some(Err(m)) => StoreStep::Refuse(ControlPlaneError::Validation(m)),
        Some(Ok(_)) => StoreStep::Store,
    }
}

/// What is decided from whether some grant denies, and whether some allows; neither is
/// known where there is no grant.
pub open spec fn decided(has_deny: Option<bool>, has_allow: Option<bool>) -> Decision {
    if has_deny == Some(true) {
        Decision::Deny
    } else if has_allow == Some(true) {
        Decision::Allow
    } else {
        Decision::Deny
    }
}

/// What is decided of an action of a subject.
pub fn check(has_deny: Option<bool>, has_allow: Option<bool>) -> (r: Decision)
    ensures
        r == decided(has_deny, has_allow),
{
    match has_deny {
        Some(true) => {
            return Decision::Deny;
        },
        _ => {},
    }
    match has_allow {
        Some(true) => Decision::Allow,
        _ => Decision::Deny,
    }
}

/// An action is allowed only where a grant allows it and none denies it.
pub proof fn law_stored_deny_wins(has_deny: Option<bool>, has_allow: Option<bool>)
    ensures
        decided(has_deny, has_allow) == Decision::Allow <==> has_allow == Some(true) && has_deny != Some(
            true,
        ),
{
}

/// Whether the start of the system was sealed just now: once.
pub fn seal_bootstrap(inserted: u64) -> (r: Result<(), ControlPlaneError>)
    ensures
        outcome(r) == (if inserted == 0 {
            Err(Fault::Conflict("bootstrap already sealed"@))
        } else {
            Ok::<(), Fault>(())
        }),
{
    if inserted == 0 {
        Err(ControlPlaneError::Conflict("bootstrap already sealed".to_owned()))
    } else {
        Ok(())
    }
}

/// What follows the change of a user's flag: whether the user's sessions are to be
/// deleted in the same transaction. A user that was not found is an error.
pub fn set_user_disabled(username: &str, found: bool, disabled: bool) -> (r: Result<
    bool,
    ControlPlaneError,
>)
    ensures
        outcome(r) == (if found {
            Ok(disabled)
        } else {
            Err(Fault::NotFound("user "@ + username@))
        }),
{
    if found {
        Ok(disabled)
    } else {
        Err(ControlPlaneError::NotFound(concat("user ", username)))
    }
}

/// Whether a password was changed, or that the subject has none.
pub fn update_password(subject: &str, changed: u64) -> (r: Result<(), ControlPlaneError>)
    ensures
        outcome(r) == (if changed == 0 {
            Err(Fault::NotFound("credential for subject "@ + subject@))
        } else {
            Ok::<(), Fault>(())
        }),
{
    if changed == 0 {
        Err(ControlPlaneError::NotFound(concat("credential for subject ", subject)))
    } else {
        Ok(())
    }
}

/// What the command that counts a failed login is given: the instant before which the
/// last failure is forgotten, the end of a lockout, and the number of failures that
/// leads to it.
#[derive(Clone, Copy, Debug, PartialEq, Eq, Structural)]
pub struct FailedLogin {
    pub window_cutoff: i128,
    pub locked_until: i128,
    pub threshold: i32,
}

/// What the command that counts a failed login is given.
pub fn record_failed_login(now: i128, policy: LockoutPolicy) -> (r: FailedLogin)
    requires
        in_calendar(now as int),
        in_calendar(now - policy.window),
        in_calendar(now + policy.lockout_duration),
    ensures
        r.window_cutoff == now - policy.window,
        r.locked_until == now + policy.lockout_duration,
        r.threshold == (if policy.threshold <= i32::MAX {
            policy.threshold as int
        } else {
            i32::MAX as int
        }),
{
    FailedLogin {
        window_cutoff: now - policy.window,
        locked_until: now + policy.lockout_duration,
        threshold: if policy.threshold <= 2_147_483_647 {
            policy.threshold as i32
        } else {
            2_147_483_647
        },
    }
}

/// The creation of a service account: its subject must be no user.
pub open spec fn account_step(subject: Seq<char>, clashes_user: Option<bool>) -> StoreVerdict {
    match clashes_user {
        None => StoreVerdict::AskUser,
        Some(true) => StoreVerdict::Refuse(
            Fault::Conflict("subject "@ + subject + " already belongs to a user"@),
        ),
        Some(false) => StoreVerdict::Store,
    }
}

/// The creation of a service account: its subject must not belong to a user.
pub fn create_service_account(subject: &str, clashes_user: Option<bool>) -> (r: StoreStep)
    ensures
        r@ == account_step(subject@, clashes_user),
{
    match clashes_user {
        None => StoreStep::AskUser,
        Some(clashes) => {
            if clashes {
                StoreStep::Refuse(
                    ControlPlaneError::Conflict(
                        concat3("subject ", subject, " already belongs to a user"),
                    ),
                )
            } else {
                StoreStep::Store
            }
        },
    }
}

/// The seal of a token as it is stored: 32 bytes, or the row is not one of this store.
pub fn token_seal(bytes: &Vec<u8>) -> (r: Option<[u8; 32]>)
    ensures
        r is Some <==> bytes@.len() == 32,
        r matches Some(seal) ==> seal@ == bytes@,
{
    if bytes.len() != 32 {
        return None;
    }
    let mut seal: [u8; 32] = [0u8;32];
    let mut i: usize = 0;
    while i < 32
        invariant
            bytes@.len() == 32,
            i <= 32,
            seal@.len() == 32,
            forall|j: int| 0 <= j < i ==> #[trigger] seal@[j] == bytes@[j],
        decreases 32 - i,
    {
        seal[i] = bytes[i];
        i = i + 1;
    }
    assert(seal@ =~= bytes@);
    Some(seal)
}

} // verus!
