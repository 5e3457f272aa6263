//! What holds of access control across its operations: who has which role, and what is
//! decided from it.
use crate::acl::{
    applying, effect_granted, grant_revoked, inheritance_added, inheritance_removed, policy_cleared,
    policy_set, role_assigned, role_defined, role_deleted, role_unassigned, subject_defined, AclView,
};
use crate::error::ControlPlaneError;
use crate::graph::{is_path, lemma_reachable_self, reachable};
use crate::key::text_before;
use crate::memory::ControlPlaneView;
use crate::types::{Action, Decision, Effect, Policy, PolicyTarget, TargetKey};
use vstd::prelude::*;

verus! {

/// Something is allowed where a role that the subject has is granted it and no role that
/// the subject has denies it, and only there.
pub proof fn law_allowed_where_granted_and_not_denied(
    acl: AclView,
    subject: Seq<char>,
    action: Action,
    target: TargetKey,
    role: Seq<char>,
)
    ensures
        acl.effective(subject, role) && acl.grants.dom().contains((role, (action, target)))
            && acl.grants[(role, (action, target))] == Effect::Deny ==> acl.decides(subject, action, target)
            == Decision::Deny,
        acl.effective(subject, role) && acl.grants.dom().contains((role, (action, target)))
            && acl.grants[(role, (action, target))] == Effect::Allow && (forall|other: Seq<char>|
            acl.effective(subject, other) && #[trigger] acl.grants.dom().contains((other, (action, target)))
                ==> acl.grants[(other, (action, target))] == Effect::Allow) ==> acl.decides(
            subject,
            action,
            target,
        ) == Decision::Allow,
        acl.decides(subject, action, target) == Decision::Allow ==> exists|by: Seq<char>|
            acl.effective(subject, by) && #[trigger] acl.grants.dom().contains((by, (action, target)))
                && acl.grants[(by, (action, target))] == Effect::Allow,
{
    if acl.decides(subject, action, target) == Decision::Allow {
        let by = choose|by: Seq<char>|
            acl.effective(subject, by) && #[trigger] acl.grants.dom().contains((by, (action, target)))
                && acl.grants[(by, (action, target))] == Effect::Allow;
        assert(acl.grants.dom().contains((by, (action, target))));
    }
}

/// A subject has no roles but those that it is assigned and those that follow from them by
/// inheritance: they are in every set of roles that holds the assigned ones and, with a
/// role, what it inherits.
pub proof fn law_no_roles_but_inherited_ones(
    acl: AclView,
    subject: Seq<char>,
    roles: Set<Seq<char>>,
    role: Seq<char>,
)
    requires
        forall|direct: Seq<char>| #[trigger]
            acl.members.contains((subject, direct)) ==> roles.contains(direct),
        forall|a: Seq<char>, b: Seq<char>| #[trigger]
            acl.inherits.contains((a, b)) && roles.contains(a) ==> roles.contains(b),
        acl.effective(subject, role),
    ensures
        roles.contains(role),
{
    let direct = choose|direct: Seq<char>| #[trigger]
        acl.members.contains((subject, direct)) && reachable(acl.inherits, direct, role);
    let p = choose|p: Seq<Seq<char>>| #[trigger]
        is_path(acl.inherits, p) && p[0] == direct && p.last() == role;
    lemma_path_stays(acl, roles, p, p.len() - 1);
}

proof fn lemma_path_stays(acl: AclView, roles: Set<Seq<char>>, p: Seq<Seq<char>>, i: int)
    requires
        is_path(acl.inherits, p),
        roles.contains(p[0]),
        forall|a: Seq<char>, b: Seq<char>| #[trigger]
            acl.inherits.contains((a, b)) && roles.contains(a) ==> roles.contains(b),
        0 <= i < p.len(),
    ensures
        roles.contains(p[i]),
    decreases i,
{
    if i > 0 {
        lemma_path_stays(acl, roles, p, i - 1);
        assert(acl.inherits.contains((p[i - 1], p[i - 1 + 1])));
    }
}

/// The policies that apply to a subject are those of each role that it has and that has one
/// for the action on the target, in the order of the roles' names.
pub proof fn law_policies_of_every_role_apply(
    acl: AclView,
    subject: Seq<char>,
    action: Action,
    target: TargetKey,
    roles: Seq<Seq<char>>,
    role: Seq<char>,
    i: int,
    j: int,
)
    requires
        applying(acl, subject, action, target, roles),
    ensures
        roles.contains(role) <==> acl.effective(subject, role) && acl.policies.dom().contains(
            (role, (action, target)),
        ),
        0 <= i < j < roles.len() ==> text_before(roles[i], roles[j]),
{
}

/// A subject has a role that it is assigned, where both are there; assigning it changes no
/// other assignment, and nothing else.
pub proof fn law_assigned_role_is_had(
    pre: ControlPlaneView,
    post: ControlPlaneView,
    subject: Seq<char>,
    role: Seq<char>,
    r: Result<(), ControlPlaneError>,
    other: (Seq<char>, Seq<char>),
)
    requires
        role_assigned(pre, post, subject, role, r),
    ensures
        r is Ok <==> pre.acl.subjects.contains(subject) && pre.acl.roles.contains(role),
        r is Err ==> post == pre && (r->Err_0)@ is NotFound,
        r is Ok ==> post.acl.members.contains((subject, role)) && post.acl.effective(subject, role),
        other != (subject, role) ==> post.acl.members.contains(other) == pre.acl.members.contains(other),
        post.acl == (AclView { members: post.acl.members, ..pre.acl }),
        post == (ControlPlaneView { acl: post.acl, ..pre }),
{
    if r is Ok {
        lemma_reachable_self(post.acl.inherits, role);
        assert(post.acl.members.contains((subject, role)));
    }
}

/// A role that is taken away is not assigned any more; no other assignment changes.
pub proof fn law_unassigned_role_is_not_assigned(
    pre: ControlPlaneView,
    post: ControlPlaneView,
    subject: Seq<char>,
    role: Seq<char>,
    other: (Seq<char>, Seq<char>),
)
    requires
        role_unassigned(pre, post, subject, role),
    ensures
        !post.acl.members.contains((subject, role)),
        other != (subject, role) ==> post.acl.members.contains(other) == pre.acl.members.contains(other),
        post.acl == (AclView { members: post.acl.members, ..pre.acl }),
        post == (ControlPlaneView { acl: post.acl, ..pre }),
{
}

/// A role may inherit another where both are there and the other does not inherit it
/// already, however far; whoever has the role then has the other too.
pub proof fn law_inheritance_makes_no_cycle(
    pre: ControlPlaneView,
    post: ControlPlaneView,
    role: Seq<char>,
    inherits: Seq<char>,
    r: Result<(), ControlPlaneError>,
    subject: Seq<char>,
    other: (Seq<char>, Seq<char>),
)
    requires
        inheritance_added(pre, post, role, inherits, r),
    ensures
        r is Ok <==> pre.acl.roles.contains(role) && pre.acl.roles.contains(inherits) && !reachable(
            pre.acl.inherits,
            inherits,
            role,
        ),
        role == inherits ==> r is Err,
        r is Err ==> post == pre,
        r is Ok ==> post.acl.inherits.contains((role, inherits)),
        r is Ok && post.acl.effective(subject, role) ==> post.acl.effective(subject, inherits),
        other != (role, inherits) ==> post.acl.inherits.contains(other) == pre.acl.inherits.contains(other),
        post.acl == (AclView { inherits: post.acl.inherits, ..pre.acl }),
        post == (ControlPlaneView { acl: post.acl, ..pre }),
{
    lemma_reachable_self(pre.acl.inherits, role);
    if r is Ok && post.acl.effective(subject, role) {
        crate::acl::law_roles_inherit(post.acl, subject, role, inherits);
    }
}

/// An inheritance that is removed does not hold directly any more; no other changes.
pub proof fn law_removed_inheritance_is_gone(
    pre: ControlPlaneView,
    post: ControlPlaneView,
    role: Seq<char>,
    inherits: Seq<char>,
    other: (Seq<char>, Seq<char>),
)
    requires
        inheritance_removed(pre, post, role, inherits),
    ensures
        !post.acl.inherits.contains((role, inherits)),
        other != (role, inherits) ==> post.acl.inherits.contains(other) == pre.acl.inherits.contains(other),
        post.acl == (AclView { inherits: post.acl.inherits, ..pre.acl }),
        post == (ControlPlaneView { acl: post.acl, ..pre }),
{
}

/// A grant stands under its role, action and target with its effect, and takes the place of
/// an earlier one there; it touches no other grant. One on a type needs the type. A grant
/// that denies is obeyed by everyone who has the role.
pub proof fn law_grant_stands(
    pre: ControlPlaneView,
    post: ControlPlaneView,
    role: Seq<char>,
    action: Action,
    target: PolicyTarget,
    effect: Effect,
    r: Result<(), ControlPlaneError>,
    subject: Seq<char>,
    other: (Seq<char>, (Action, TargetKey)),
)
    requires
        effect_granted(pre, post, role, action, target, effect, r),
    ensures
        r is Ok <==> pre.acl.roles.contains(role) && (target matches PolicyTarget::Type(name)
            ==> pre.ontology.types.dom().contains(name@)),
        r is Err ==> post == pre,
        r is Ok ==> post.acl.grants.dom().contains((role, (action, target@))) && post.acl.grants[(
            role,
            (action, target@),
        )] == effect,
        r is Ok && effect == Effect::Deny && post.acl.effective(subject, role) ==> post.acl.decides(
            subject,
            action,
            target@,
        ) == Decision::Deny,
        other != (role, (action, target@)) ==> post.acl.grants.dom().contains(other)
            == pre.acl.grants.dom().contains(other) && post.acl.grants[other] == pre.acl.grants[other],
        post.acl == (AclView { grants: post.acl.grants, ..pre.acl }),
        post == (ControlPlaneView { acl: post.acl, ..pre }),
{
    if r is Ok {
        assert(post.acl.grants.dom().contains((role, (action, target@))));
    }
}

/// A grant that is revoked is gone, and no other is.
pub proof fn law_revoked_grant_is_gone(
    pre: ControlPlaneView,
    post: ControlPlaneView,
    role: Seq<char>,
    action: Action,
    target: TargetKey,
    other: (Seq<char>, (Action, TargetKey)),
)
    requires
        grant_revoked(pre, post, role, action, target),
    ensures
        !post.acl.grants.dom().contains((role, (action, target))),
        other != (role, (action, target)) ==> post.acl.grants.dom().contains(other)
            == pre.acl.grants.dom().contains(other) && post.acl.grants[other] == pre.acl.grants[other],
        post.acl == (AclView { grants: post.acl.grants, ..pre.acl }),
        post == (ControlPlaneView { acl: post.acl, ..pre }),
{
}

/// Deleting a role takes away its assignments, its grants, its policies and its
/// inheritances on both sides, and nothing of any other role.
pub proof fn law_deleting_a_role_spares_the_others(
    pre: ControlPlaneView,
    post: ControlPlaneView,
    role: Seq<char>,
    subject: Seq<char>,
    other: Seq<char>,
    key: (Seq<char>, (Action, TargetKey)),
    edge: (Seq<char>, Seq<char>),
)
    requires
        role_deleted(pre, post, role),
    ensures
        !post.acl.roles.contains(role),
        other != role ==> post.acl.roles.contains(other) == pre.acl.roles.contains(other),
        post.acl.members.contains((subject, other)) <==> pre.acl.members.contains((subject, other))
            && other != role,
        post.acl.grants.dom().contains(key) <==> pre.acl.grants.dom().contains(key) && key.0 != role,
        post.acl.grants.dom().contains(key) ==> post.acl.grants[key] == pre.acl.grants[key],
        post.acl.policies.dom().contains(key) <==> pre.acl.policies.dom().contains(key) && key.0 != role,
        post.acl.policies.dom().contains(key) ==> post.acl.policies[key] == pre.acl.policies[key],
        post.acl.inherits.contains(edge) <==> pre.acl.inherits.contains(edge) && edge.0 != role && edge.1
            != role,
        post.acl.subjects == pre.acl.subjects,
        post == (ControlPlaneView { acl: post.acl, ..pre }),
{
}

/// A policy stands under its role, its action and its own target, and takes the place of an
/// earlier one there. It needs the role, the type that it is on, and a row filter that is in
/// order where it has one.
pub proof fn law_policy_stands(
    pre: ControlPlaneView,
    post: ControlPlaneView,
    role: Seq<char>,
    action: Action,
    policy: Policy,
    filter: Result<(), String>,
    r: Result<(), ControlPlaneError>,
    other: (Seq<char>, (Action, TargetKey)),
)
    requires
        policy_set(pre, post, role, action, policy, filter, r),
    ensures
        r is Ok <==> pre.acl.roles.contains(role) && (policy.target matches PolicyTarget::Type(name)
            ==> pre.ontology.types.dom().contains(name@)) && (policy.row_filter is Some ==> filter is Ok),
        r is Err ==> post == pre,
        r is Ok ==> post.acl.policies.dom().contains((role, (action, policy.target@)))
            && post.acl.policies[(role, (action, policy.target@))] == policy,
        other != (role, (action, policy.target@)) ==> post.acl.policies.dom().contains(other)
            == pre.acl.policies.dom().contains(other) && post.acl.policies[other]
            == pre.acl.policies[other],
        post.acl == (AclView { policies: post.acl.policies, ..pre.acl }),
        post == (ControlPlaneView { acl: post.acl, ..pre }),
{
}

/// A policy that is cleared is gone, and no other is.
pub proof fn law_cleared_policy_is_gone(
    pre: ControlPlaneView,
    post: ControlPlaneView,
    role: Seq<char>,
    action: Action,
    target: TargetKey,
    other: (Seq<char>, (Action, TargetKey)),
)
    requires
        policy_cleared(pre, post, role, action, target),
    ensures
        !post.acl.policies.dom().contains((role, (action, target))),
        other != (role, (action, target)) ==> post.acl.policies.dom().contains(other)
            == pre.acl.policies.dom().contains(other) && post.acl.policies[other]
            == pre.acl.policies[other],
        post.acl == (AclView { policies: post.acl.policies, ..pre.acl }),
        post == (ControlPlaneView { acl: post.acl, ..pre }),
{
}

/// Defining a subject or a role makes it known, a second time as well as the first, and
/// gives it nothing.
pub proof fn law_defined_names_are_known(
    pre: ControlPlaneView,
    with_subject: ControlPlaneView,
    with_role: ControlPlaneView,
    id: Seq<char>,
    other: Seq<char>,
)
    requires
        subject_defined(pre, with_subject, id),
        role_defined(pre, with_role, id),
    ensures
        with_subject.acl.subjects.contains(id),
        other != id ==> with_subject.acl.subjects.contains(other) == pre.acl.subjects.contains(other),
        with_role.acl.roles.contains(id),
        other != id ==> with_role.acl.roles.contains(other) == pre.acl.roles.contains(other),
        with_subject.acl == (AclView { subjects: with_subject.acl.subjects, ..pre.acl }),
        with_role.acl == (AclView { roles: with_role.acl.roles, ..pre.acl }),
        with_subject == (ControlPlaneView { acl: with_subject.acl, ..pre }),
        with_role == (ControlPlaneView { acl: with_role.acl, ..pre }),
{
}

} // verus!
