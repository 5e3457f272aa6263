//! Access control: subjects, roles with inheritance, grants and policies.
use crate::error::{outcome, ControlPlaneError, Fault};
use crate::graph::{
    acyclic, effective_roles, lemma_acyclic_insert, lemma_acyclic_subset, lemma_reachable_self,
    reached_from, reaches, reachable, Edges,
};
use crate::key::{str_same, text_before, Key};
use crate::memory::{ControlPlaneView, MemoryControlPlane};
use crate::ordered::{kept, lemma_entry, lemma_position, position_of, OrderedMap, OrderedSet};
use crate::text::{concat, concat3, concat5, texts};
use crate::types::{Action, Decision, Effect, Grant, Policy, PolicyTarget, TargetKey};
use vstd::prelude::*;

verus! {

/// What a grant or a policy is kept under: role, action, target.
pub type GrantKey = (Seq<char>, (Action, TargetKey));

/// What access control holds.
#[verifier::ext_equal]
pub struct AclView {
    pub subjects: Set<Seq<char>>,
    pub roles: Set<Seq<char>>,
    /// A subject and a role that it has.
    pub members: Set<(Seq<char>, Seq<char>)>,
    pub grants: Map<GrantKey, Effect>,
    pub policies: Map<GrantKey, Policy>,
    /// A role and a role whose permissions it gains.
    pub inherits: Edges,
}

impl AclView {
    /// The subject has the role, directly or through inheritance.
    pub open spec fn effective(self, subject: Seq<char>, role: Seq<char>) -> bool {
        exists|direct: Seq<char>| #[trigger]
            self.members.contains((subject, direct)) && reachable(self.inherits, direct, role)
    }

    /// Some role that the subject has is granted `effect`.
    pub open spec fn granted(
        self,
        subject: Seq<char>,
        action: Action,
        target: TargetKey,
        effect: Effect,
    ) -> bool {
        exists|role: Seq<char>|
            self.effective(subject, role) && #[trigger] self.grants.dom().contains(
                (role, (action, target)),
            ) && self.grants[(role, (action, target))] == effect
    }

    /// What is decided: allowed where some role allows and none denies.
    pub open spec fn decides(self, subject: Seq<char>, action: Action, target: TargetKey) -> Decision {
        if self.granted(subject, action, target, Effect::Allow) && !self.granted(
            subject,
            action,
            target,
            Effect::Deny,
        ) {
            Decision::Allow
        } else {
            Decision::Deny
        }
    }
}

/// The state of access control.
pub struct AclState {
    pub subjects: OrderedSet<String>,
    pub roles: OrderedSet<String>,
    pub members: OrderedSet<(String, String)>,
    pub grants: OrderedMap<(String, (Action, PolicyTarget)), Effect>,
    pub policies: OrderedMap<(String, (Action, PolicyTarget)), Policy>,
    pub inherits: OrderedSet<(String, String)>,
}

impl View for AclState {
    type V = AclView;

    open spec fn view(&self) -> AclView {
        AclView {
            subjects: self.subjects@,
            roles: self.roles@,
            members: self.members@,
            grants: self.grants@,
            policies: self.policies@,
            inherits: self.inherits@,
        }
    }
}

impl AclState {
    /// The collections are in order, and no role inherits itself, however far.
    pub open spec fn wf(&self) -> bool {
        &&& self.subjects.wf()
        &&& self.roles.wf()
        &&& self.members.wf()
        &&& self.grants.wf()
        &&& self.policies.wf()
        &&& self.inherits.wf()
        &&& acyclic(self.inherits@)
    }

    /// Access control that knows nobody.
    pub fn new() -> (r: Self)
        ensures
            r.wf(),
            r@ == (AclView {
                subjects: Set::empty(),
                roles: Set::empty(),
                members: Set::empty(),
                grants: Map::empty(),
                policies: Map::empty(),
                inherits: Set::empty(),
            }),
    {
        AclState {
            subjects: OrderedSet::new(),
            roles: OrderedSet::new(),
            members: OrderedSet::new(),
            grants: OrderedMap::new(),
            policies: OrderedMap::new(),
            inherits: OrderedSet::new(),
        }
    }

    /// Makes `id` a subject.
    pub fn subjects_insert(&mut self, id: &str)
        requires
            old(self).wf(),
        ensures
            final(self).wf(),
            final(self)@ == (AclView { subjects: old(self)@.subjects.insert(id@), ..old(self)@ }),
    {
        self.subjects.insert(id.to_owned());
    }

    /// The roles that `subject` has directly, in order.
    fn direct_roles(&self, subject: &str) -> (r: Vec<String>)
        requires
            self.wf(),
        ensures
            forall|i: int, j: int|
                0 <= i < j < r@.len() ==> text_before(#[trigger] r@[i]@, #[trigger] r@[j]@),
            forall|role: Seq<char>|
                crate::text::holds(r@, role) <==> #[trigger] self@.members.contains(
                    (subject@, role),
                ),
    {
        let entries: &Vec<((String, String), ())> = &self.members.map.entries;
        let mut out: Vec<String> = Vec::new();
        let ghost mut at: Seq<int> = Seq::empty();
        let mut i: usize = 0;
        while i < entries.len()
            invariant
                self.wf(),
                *entries == self.members.map.entries,
                i <= entries@.len(),
                at.len() == out@.len(),
                forall|a: int|
                    0 <= a < at.len() ==> 0 <= #[trigger] at[a] < i && entries@[at[a]].0.0@ == subject@
                        && entries@[at[a]].0.1@ == out@[a]@,
                forall|a: int, b: int| 0 <= a < b < at.len() ==> #[trigger] at[a] < #[trigger] at[b],
                forall|e: int|
                    0 <= e < i && (#[trigger] entries@[e]).0.0@ == subject@ ==> exists|a: int|
                        0 <= a < at.len() && #[trigger] at[a] == e,
            decreases entries@.len() - i,
        {
            let ghost before = at;
            if str_same(entries[i].0.0.as_str(), subject) {
                out.push(entries[i].0.1.clone());
                proof {
                    at = at.push(i as int);
                    assert(at[at.len() - 1] == i);
                }
            }
            proof {
                assert forall|e: int|
                    0 <= e < i + 1 && (#[trigger] entries@[e]).0.0@ == subject@ implies exists|a: int|
                    0 <= a < at.len() && #[trigger] at[a] == e by {
                    if e < i {
                        let a = choose|a: int| 0 <= a < before.len() && #[trigger] before[a] == e;
                        assert(at[a] == e);
                    }
                }
            }
            i = i + 1;
        }
        proof {
            assert forall|a: int, b: int| 0 <= a < b < out@.len() implies text_before(
                #[trigger] out@[a]@,
                #[trigger] out@[b]@,
            ) by {
                assert(at[a] < at[b]);
                let x = entries@[at[a]].0;
                let y = entries@[at[b]].0;
                assert(<(String, String)>::before(x.model(), y.model()));
                crate::key::lemma_text_irreflexive(subject@);
            }
            assert forall|role: Seq<char>| #[trigger]
                self@.members.contains((subject@, role)) implies crate::text::holds(out@, role) by {
                lemma_position(entries@, (subject@, role));
                let p = position_of(entries@, (subject@, role));
                let a = choose|a: int| 0 <= a < at.len() && #[trigger] at[a] == p;
                assert(out@[a]@ == role);
            }
            assert forall|role: Seq<char>|
                crate::text::holds(out@, role) implies #[trigger] self@.members.contains(
                (subject@, role),
            ) by {
                let a = choose|a: int| 0 <= a < out@.len() && #[trigger] out@[a]@ == role;
                lemma_entry(entries@, at[a]);
            }
        }
        out
    }

    /// The roles that `subject` has, directly or through inheritance.
    fn effective_of(&self, subject: &str) -> (r: OrderedSet<String>)
        requires
            self.wf(),
        ensures
            r.wf(),
            forall|role: Seq<char>| #[trigger]
                r@.contains(role) <==> self@.effective(subject@, role),
    {
        let direct: Vec<String> = self.direct_roles(subject);
        let r: OrderedSet<String> = effective_roles(&self.inherits, &direct);
        proof {
            assert forall|role: Seq<char>| #[trigger] r@.contains(role) implies self@.effective(
                subject@,
                role,
            ) by {
                let i = choose|i: int|
                    0 <= i < texts(direct@).len() && reachable(
                        self.inherits@,
                        #[trigger] texts(direct@)[i],
                        role,
                    );
                assert(crate::text::holds(direct@, direct@[i]@));
                assert(self@.members.contains((subject@, direct@[i]@)));
            }
            assert forall|role: Seq<char>| self@.effective(subject@, role) implies #[trigger] r@.contains(
                role,
            ) by {
                let d = choose|direct: Seq<char>| #[trigger]
                    self@.members.contains((subject@, direct)) && reachable(
                        self@.inherits,
                        direct,
                        role,
                    );
                assert(crate::text::holds(direct@, d));
                let i = choose|i: int| 0 <= i < direct@.len() && #[trigger] direct@[i]@ == d;
                assert(texts(direct@)[i] == d);
                assert(reached_from(self.inherits@, texts(direct@), role));
            }
        }
        r
    }
}

/// The name is that of a subject from now on.
pub open spec fn subject_defined(pre: ControlPlaneView, post: ControlPlaneView, id: Seq<char>) -> bool {
    post == ControlPlaneView {
        acl: AclView { subjects: pre.acl.subjects.insert(id), ..pre.acl },
        ..pre
    }
}

/// The name is that of a role from now on.
pub open spec fn role_defined(pre: ControlPlaneView, post: ControlPlaneView, id: Seq<char>) -> bool {
    post == ControlPlaneView { acl: AclView { roles: pre.acl.roles.insert(id), ..pre.acl }, ..pre }
}

/// What assigning a role does and gives.
pub open spec fn role_assigned(
    pre: ControlPlaneView,
    post: ControlPlaneView,
    subject: Seq<char>,
    role: Seq<char>,
    r: Result<(), ControlPlaneError>,
) -> bool {
    &&& outcome(r) == (if !pre.acl.subjects.contains(subject) {
        Err(Fault::NotFound("subject "@ + subject))
    } else if !pre.acl.roles.contains(role) {
        Err(Fault::NotFound("role "@ + role))
    } else {
        Ok::<(), Fault>(())
    })
    &&& r is Err ==> post == pre
    &&& r is Ok ==> post == (ControlPlaneView {
        acl: AclView { members: pre.acl.members.insert((subject, role)), ..pre.acl },
        ..pre
    })
}

/// The subject does not have the role directly any more.
pub open spec fn role_unassigned(
    pre: ControlPlaneView,
    post: ControlPlaneView,
    subject: Seq<char>,
    role: Seq<char>,
) -> bool {
    post == ControlPlaneView {
        acl: AclView { members: pre.acl.members.remove((subject, role)), ..pre.acl },
        ..pre
    }
}

/// What letting a role inherit another does and gives.
pub open spec fn inheritance_added(
    pre: ControlPlaneView,
    post: ControlPlaneView,
    role: Seq<char>,
    inherits: Seq<char>,
    r: Result<(), ControlPlaneError>,
) -> bool {
    &&& outcome(r) == (if !pre.acl.roles.contains(role) {
        Err(Fault::NotFound("role "@ + role))
    } else if !pre.acl.roles.contains(inherits) {
        Err(Fault::NotFound("role "@ + inherits))
    } else if reachable(pre.acl.inherits, inherits, role) {
        Err(
            Fault::Conflict(
                "role inheritance "@ + role + " -> "@ + inherits + " would create a cycle"@,
            ),
        )
    } else {
        Ok::<(), Fault>(())
    })
    &&& r is Err ==> post == pre
    &&& r is Ok ==> post == (ControlPlaneView {
        acl: AclView { inherits: pre.acl.inherits.insert((role, inherits)), ..pre.acl },
        ..pre
    })
}

/// The role does not inherit the other directly any more.
pub open spec fn inheritance_removed(
    pre: ControlPlaneView,
    post: ControlPlaneView,
    role: Seq<char>,
    inherits: Seq<char>,
) -> bool {
    post == ControlPlaneView {
        acl: AclView { inherits: pre.acl.inherits.remove((role, inherits)), ..pre.acl },
        ..pre
    }
}

/// What granting does and gives.
pub open spec fn effect_granted(
    pre: ControlPlaneView,
    post: ControlPlaneView,
    role: Seq<char>,
    action: Action,
    target: PolicyTarget,
    effect: Effect,
    r: Result<(), ControlPlaneError>,
) -> bool {
    &&& outcome(r) == (if !pre.acl.roles.contains(role) {
        Err(Fault::NotFound("role "@ + role))
    } else if target is Type && !pre.ontology.types.dom().contains(target->Type_0@) {
        Err(Fault::Validation("grant references unknown type `"@ + target->Type_0@ + "`"@))
    } else {
        Ok::<(), Fault>(())
    })
    &&& r is Err ==> post == pre
    &&& r is Ok ==> post == (ControlPlaneView {
        acl: AclView {
            grants: pre.acl.grants.insert((role, (action, target@)), effect),
            ..pre.acl
        },
        ..pre
    })
}

/// Nothing is granted to the role for the action on the target any more.
pub open spec fn grant_revoked(
    pre: ControlPlaneView,
    post: ControlPlaneView,
    role: Seq<char>,
    action: Action,
    target: TargetKey,
) -> bool {
    post == ControlPlaneView {
        acl: AclView { grants: pre.acl.grants.remove((role, (action, target))), ..pre.acl },
        ..pre
    }
}

/// The role and what mentions it are gone.
pub open spec fn role_deleted(pre: ControlPlaneView, post: ControlPlaneView, role: Seq<char>) -> bool {
    post == ControlPlaneView { acl: without_role(pre.acl, role), ..pre }
}

/// What setting a policy does and gives, `filter` being the verdict on its row filter.
pub open spec fn policy_set(
    pre: ControlPlaneView,
    post: ControlPlaneView,
    role: Seq<char>,
    action: Action,
    policy: Policy,
    filter: Result<(), String>,
    r: Result<(), ControlPlaneError>,
) -> bool {
    &&& outcome(r) == policy_verdict(pre, role, policy, filter)
    &&& r is Err ==> post == pre
    &&& r is Ok ==> post == (ControlPlaneView {
        acl: AclView {
            policies: pre.acl.policies.insert((role, (action, policy.target@)), policy),
            ..pre.acl
        },
        ..pre
    })
}

/// The role has no policy for the action on the target any more.
pub open spec fn policy_cleared(
    pre: ControlPlaneView,
    post: ControlPlaneView,
    role: Seq<char>,
    action: Action,
    target: TargetKey,
) -> bool {
    post == ControlPlaneView {
        acl: AclView { policies: pre.acl.policies.remove((role, (action, target))), ..pre.acl },
        ..pre
    }
}

fn role_missing(role: &str) -> (r: ControlPlaneError)
    ensures
        r@ == Fault::NotFound("role "@ + role@),
{
    ControlPlaneError::NotFound(concat("role ", role))
}

impl MemoryControlPlane {
    /// Makes `id` a subject. Idempotent.
    pub fn define_subject(&mut self, id: &str)
        requires
            old(self).wf(),
        ensures
            final(self).wf(),
            subject_defined(old(self)@, final(self)@, id@),
    {
        self.acl.subjects_insert(id);
    }

    /// Makes `id` a role. Idempotent.
    pub fn define_role(&mut self, id: &str)
        requires
            old(self).wf(),
        ensures
            final(self).wf(),
            role_defined(old(self)@, final(self)@, id@),
    {
        self.acl.roles.insert(id.to_owned());
    }

    /// Gives `subject` the role `role`. Both must exist.
    pub fn assign_role(&mut self, subject: &str, role: &str) -> (r: Result<(), ControlPlaneError>)
        requires
            old(self).wf(),
        ensures
            final(self).wf(),
            r is Err ==> *final(self) == *old(self),
            role_assigned(old(self)@, final(self)@, subject@, role@, r),
    {
        if !self.acl.subjects.contains(&subject.to_owned()) {
            return Err(ControlPlaneError::NotFound(concat("subject ", subject)));
        }
        if !self.acl.roles.contains(&role.to_owned()) {
            return Err(role_missing(role));
        }
        self.acl.members.insert((subject.to_owned(), role.to_owned()));
        Ok(())
    }

    /// Whether `subject` has `role` directly.
    pub fn has_role(&self, subject: &str, role: &str) -> (r: bool)
        requires
            self.wf(),
        ensures
            r == self@.acl.members.contains((subject@, role@)),
    {
        self.acl.members.contains(&(subject.to_owned(), role.to_owned()))
    }

    /// The roles, in order.
    pub fn list_roles(&self) -> (r: Vec<&String>)
        requires
            self.wf(),
        ensures
            roles_listed(self@.acl, r@),
    {
        crate::ordered::elements_of(&self.acl.roles)
    }

    /// Takes `role` from `subject`.
    pub fn unassign_role(&mut self, subject: &str, role: &str)
        requires
            old(self).wf(),
        ensures
            final(self).wf(),
            role_unassigned(old(self)@, final(self)@, subject@, role@),
    {
        self.acl.members.remove(&(subject.to_owned(), role.to_owned()));
    }

    /// Lets `role` gain the permissions of `inherits`, unless that would close a
    /// cycle.
    pub fn add_role_inheritance(&mut self, role: &str, inherits: &str) -> (r: Result<
        (),
        ControlPlaneError,
    >)
        requires
            old(self).wf(),
        ensures
            final(self).wf(),
            r is Err ==> *final(self) == *old(self),
            inheritance_added(old(self)@, final(self)@, role@, inherits@, r),
    {
        if !self.acl.roles.contains(&role.to_owned()) {
            return Err(role_missing(role));
        }
        if !self.acl.roles.contains(&inherits.to_owned()) {
            return Err(role_missing(inherits));
        }
        if reaches(&self.acl.inherits, inherits, role) {
            return Err(
                ControlPlaneError::Conflict(
                    concat5("role inheritance ", role, " -> ", inherits, " would create a cycle"),
                ),
            );
        }
        proof {
            lemma_acyclic_insert(self.acl.inherits@, role@, inherits@);
        }
        self.acl.inherits.insert((role.to_owned(), inherits.to_owned()));
        Ok(())
    }

    /// Ends the inheritance of `inherits` by `role`.
    pub fn remove_role_inheritance(&mut self, role: &str, inherits: &str)
        requires
            old(self).wf(),
        ensures
            final(self).wf(),
            inheritance_removed(old(self)@, final(self)@, role@, inherits@),
    {
        self.acl.inherits.remove(&(role.to_owned(), inherits.to_owned()));
        proof {
            lemma_acyclic_subset(self.acl.inherits@, old(self).acl.inherits@);
        }
    }

    /// Grants `role` an effect on a target. A type must exist; tables are taken as
    /// they are.
    pub fn grant(&mut self, role: &str, action: Action, target: PolicyTarget, effect: Effect) -> (r: Result<
        (),
        ControlPlaneError,
    >)
        requires
            old(self).wf(),
        ensures
            final(self).wf(),
            r is Err ==> *final(self) == *old(self),
            effect_granted(old(self)@, final(self)@, role@, action, target, effect, r),
    {
        if !self.acl.roles.contains(&role.to_owned()) {
            return Err(role_missing(role));
        }
        match &target {
            PolicyTarget::Type(name) => {
                if !self.ontology.types.contains(name) {
                    return Err(
                        ControlPlaneError::Validation(
                            concat3("grant references unknown type `", name.as_str(), "`"),
                        ),
                    );
                }
            },
            PolicyTarget::Table(_) => {},
        }
        self.acl.grants.insert((role.to_owned(), (action, target)), effect);
        Ok(())
    }

    /// Takes back what `role` was granted on a target.
    pub fn revoke(&mut self, role: &str, action: Action, target: &PolicyTarget)
        requires
            old(self).wf(),
        ensures
            final(self).wf(),
            grant_revoked(old(self)@, final(self)@, role@, action, target@),
    {
        let _gone: Option<Effect> = self.acl.grants.remove(
            &(role.to_owned(), (action, target.duplicate())),
        );
    }

    /// Whether an ontology type of this name is defined.
    pub fn type_exists(&self, name: &str) -> (r: bool)
        requires
            self.wf(),
        ensures
            r == self@.ontology.types.dom().contains(name@),
    {
        self.ontology.types.contains(&name.to_owned())
    }

    /// The grants of `role`, in order of action and target.
    pub fn list_grants(&self, role: &str) -> (r: Result<Vec<Grant>, ControlPlaneError>)
        requires
            self.wf(),
        ensures
            match r {
                Err(e) => !self@.acl.roles.contains(role@) && e@ == Fault::NotFound(
                    "role "@ + role@,
                ),
                Ok(list) => {
                    &&& self@.acl.roles.contains(role@)
                    &&& forall|i: int, j: int|
                        0 <= i < j < list@.len() ==> <(Action, PolicyTarget)>::before(
                            ((#[trigger] list@[i]).action, list@[i].target@),
                            ((#[trigger] list@[j]).action, list@[j].target@),
                        )
                    &&& forall|i: int|
                        0 <= i < list@.len() ==> self@.acl.grants.dom().contains(
                            (role@, ((#[trigger] list@[i]).action, list@[i].target@)),
                        ) && self@.acl.grants[(role@, (list@[i].action, list@[i].target@))]
                            == list@[i].effect
                    &&& forall|a: Action, t: TargetKey| #[trigger]
                        self@.acl.grants.dom().contains((role@, (a, t))) ==> exists|i: int|
                            0 <= i < list@.len() && (#[trigger] list@[i]).action == a
                                && list@[i].target@ == t
                },
            },
    {
        if !self.acl.roles.contains(&role.to_owned()) {
            return Err(role_missing(role));
        }
        let entries: &Vec<((String, (Action, PolicyTarget)), Effect)> = &self.acl.grants.entries;
        let mut out: Vec<Grant> = Vec::new();
        let ghost mut at: Seq<int> = Seq::empty();
        let mut i: usize = 0;
        while i < entries.len()
            invariant
                self.wf(),
                *entries == self.acl.grants.entries,
                i <= entries@.len(),
                at.len() == out@.len(),
                forall|a: int|
                    0 <= a < at.len() ==> 0 <= #[trigger] at[a] < i && entries@[at[a]].0.0@ == role@
                        && entries@[at[a]].0.1.0 == out@[a].action && entries@[at[a]].0.1.1@
                        == out@[a].target@ && entries@[at[a]].1 == out@[a].effect,
                forall|a: int, b: int| 0 <= a < b < at.len() ==> #[trigger] at[a] < #[trigger] at[b],
                forall|e: int|
                    0 <= e < i && (#[trigger] entries@[e]).0.0@ == role@ ==> exists|a: int|
                        0 <= a < at.len() && #[trigger] at[a] == e,
            decreases entries@.len() - i,
        {
            let ghost before = at;
            if str_same(entries[i].0.0.as_str(), role) {
                out.push(
                    Grant {
                        action: entries[i].0.1.0,
                        target: entries[i].0.1.1.duplicate(),
                        effect: entries[i].1,
                    },
                );
                proof {
                    at = at.push(i as int);
                    assert(at[at.len() - 1] == i);
                }
            }
            proof {
                assert forall|e: int|
                    0 <= e < i + 1 && (#[trigger] entries@[e]).0.0@ == role@ implies exists|a: int|
                    0 <= a < at.len() && #[trigger] at[a] == e by {
                    if e < i {
                        let a = choose|a: int| 0 <= a < before.len() && #[trigger] before[a] == e;
                        assert(at[a] == e);
                    }
                }
            }
            i = i + 1;
        }
        proof {
            assert forall|a: int, b: int| 0 <= a < b < out@.len() implies <(
                Action,
                PolicyTarget,
            )>::before(
                ((#[trigger] out@[a]).action, out@[a].target@),
                ((#[trigger] out@[b]).action, out@[b].target@),
            ) by {
                assert(at[a] < at[b]);
                let x = entries@[at[a]].0;
                let y = entries@[at[b]].0;
                assert(<(String, (Action, PolicyTarget))>::before(x.model(), y.model()));
                crate::key::lemma_text_irreflexive(role@);
            }
            assert forall|i: int| 0 <= i < out@.len() implies self@.acl.grants.dom().contains(
                (role@, ((#[trigger] out@[i]).action, out@[i].target@)),
            ) && self@.acl.grants[(role@, (out@[i].action, out@[i].target@))] == out@[i].effect by {
                lemma_entry(entries@, at[i]);
            }
            assert forall|a: Action, t: TargetKey| #[trigger]
                self@.acl.grants.dom().contains((role@, (a, t))) implies exists|i: int|
                0 <= i < out@.len() && (#[trigger] out@[i]).action == a && out@[i].target@ == t by {
                lemma_position(entries@, (role@, (a, t)));
                let p = position_of(entries@, (role@, (a, t)));
                let i = choose|i: int| 0 <= i < at.len() && #[trigger] at[i] == p;
                assert(out@[i].action == a);
            }
        }
        Ok(out)
    }

    /// The roles that `subject` has directly, in order.
    pub fn roles_of(&self, subject: &str) -> (r: Result<Vec<String>, ControlPlaneError>)
        requires
            self.wf(),
        ensures
            match r {
                Err(e) => !self@.acl.subjects.contains(subject@) && e@ == Fault::NotFound(
                    "subject "@ + subject@,
                ),
                Ok(list) => {
                    &&& self@.acl.subjects.contains(subject@)
                    &&& assigned_listed(self@.acl, subject@, list@)
                },
            },
    {
        if !self.acl.subjects.contains(&subject.to_owned()) {
            return Err(ControlPlaneError::NotFound(concat("subject ", subject)));
        }
        Ok(self.acl.direct_roles(subject))
    }

    /// Deletes `role` with everything that mentions it.
    pub fn delete_role(&mut self, role: &str)
        requires
            old(self).wf(),
        ensures
            final(self).wf(),
            role_deleted(old(self)@, final(self)@, role@),
    {
        let gone: String = role.to_owned();
        self.acl.roles.remove(&gone);
        self.acl.members.retain(
            (|k: &(String, String), v: &()| -> (keep: bool)
                ensures
                    keep == (k.1@ != role@),
            {
                !str_same(k.1.as_str(), role)
            }),
            Ghost(|m: (Seq<char>, Seq<char>)| m.1 != role@),
        );
        self.acl.grants.retain(
            (|k: &(String, (Action, PolicyTarget)), v: &Effect| -> (keep: bool)
                ensures
                    keep == (k.0@ != role@),
            {
                !str_same(k.0.as_str(), role)
            }),
            Ghost(|m: GrantKey, v: Effect| m.0 != role@),
        );
        self.acl.policies.retain(
            (|k: &(String, (Action, PolicyTarget)), v: &Policy| -> (keep: bool)
                ensures
                    keep == (k.0@ != role@),
            {
                !str_same(k.0.as_str(), role)
            }),
            Ghost(|m: GrantKey, v: Policy| m.0 != role@),
        );
        self.acl.inherits.retain(
            (|k: &(String, String), v: &()| -> (keep: bool)
                ensures
                    keep == (k.0@ != role@ && k.1@ != role@),
            {
                !str_same(k.0.as_str(), role) && !str_same(k.1.as_str(), role)
            }),
            Ghost(|m: (Seq<char>, Seq<char>)| m.0 != role@ && m.1 != role@),
        );
        proof {
            lemma_acyclic_subset(self.acl.inherits@, old(self).acl.inherits@);
            assert(self.acl@ =~= without_role(old(self).acl@, role@));
        }
    }

    /// Sets the policy of `role` for an action on the policy's target. A type must
    /// exist. `filter` is the verdict on the row filter.
    pub fn set_policy(&mut self, role: &str, action: Action, policy: Policy, filter: Result<(), String>) -> (r:
        Result<(), ControlPlaneError>)
        requires
            old(self).wf(),
        ensures
            final(self).wf(),
            r is Err ==> *final(self) == *old(self),
            policy_set(old(self)@, final(self)@, role@, action, policy, filter, r),
    {
        if !self.acl.roles.contains(&role.to_owned()) {
            return Err(role_missing(role));
        }
        match &policy.target {
            PolicyTarget::Type(name) => {
                if !self.ontology.types.contains(name) {
                    return Err(
                        ControlPlaneError::Validation(
                            concat("policy references unknown type ", name.as_str()),
                        ),
                    );
                }
            },
            PolicyTarget::Table(_) => {},
        }
        if policy.row_filter.is_some() {
            match filter {
                Err(m) => {
                    return Err(ControlPlaneError::Validation(m));
                },
                Ok(_) => {},
            }
        }
        let target: PolicyTarget = policy.target.duplicate();
        self.acl.policies.insert((role.to_owned(), (action, target)), policy);
        Ok(())
    }

    /// Clears the policy of `role` for an action on a target.
    pub fn clear_policy(&mut self, role: &str, action: Action, target: &PolicyTarget)
        requires
            old(self).wf(),
        ensures
            final(self).wf(),
            policy_cleared(old(self)@, final(self)@, role@, action, target@),
    {
        let _gone: Option<Policy> = self.acl.policies.remove(
            &(role.to_owned(), (action, target.duplicate())),
        );
    }

    /// Decides whether `subject` may do `action` to `target`.
    pub fn check(&self, subject: &str, action: Action, target: &PolicyTarget) -> (r: Decision)
        requires
            self.wf(),
        ensures
            r == self@.acl.decides(subject@, action, target@),
    {
        let effective: OrderedSet<String> = self.acl.effective_of(subject);
        let entries: &Vec<(String, ())> = &effective.map.entries;
        let mut saw_allow: bool = false;
        let mut i: usize = 0;
        while i < entries.len()
            invariant
                self.wf(),
                effective.wf(),
                *entries == effective.map.entries,
                i <= entries@.len(),
                forall|role: Seq<char>| #[trigger]
                    effective@.contains(role) <==> self@.acl.effective(subject@, role),
                saw_allow <==> exists|e: int|
                    0 <= e < i && self@.acl.grants.dom().contains(
                        ((#[trigger] entries@[e]).0@, (action, target@)),
                    ) && self@.acl.grants[(entries@[e].0@, (action, target@))] == Effect::Allow,
                forall|e: int|
                    0 <= e < i && self@.acl.grants.dom().contains(
                        ((#[trigger] entries@[e]).0@, (action, target@)),
                    ) ==> self@.acl.grants[(entries@[e].0@, (action, target@))] != Effect::Deny,
            decreases entries@.len() - i,
        {
            proof {
                lemma_entry(entries@, i as int);
                assert(effective@.contains(entries@[i as int].0@));
            }
            let key: (String, (Action, PolicyTarget)) = (
                entries[i].0.clone(),
                (action, target.duplicate()),
            );
            match self.acl.grants.get(&key) {
                Some(Effect::Deny) => {
                    assert(self@.acl.grants.dom().contains((entries@[i as int].0@, (action, target@))));
                    return Decision::Deny;
                },
                Some(Effect::Allow) => {
                    saw_allow = true;
                },
                None => {},
            }
            i = i + 1;
        }
        proof {
            if self@.acl.granted(subject@, action, target@, Effect::Deny) {
                let role = choose|role: Seq<char>|
                    self@.acl.effective(subject@, role) && #[trigger] self@.acl.grants.dom().contains(
                        (role, (action, target@)),
                    ) && self@.acl.grants[(role, (action, target@))] == Effect::Deny;
                assert(effective@.contains(role));
                lemma_position(entries@, role);
            }
            if self@.acl.granted(subject@, action, target@, Effect::Allow) {
                let role = choose|role: Seq<char>|
                    self@.acl.effective(subject@, role) && #[trigger] self@.acl.grants.dom().contains(
                        (role, (action, target@)),
                    ) && self@.acl.grants[(role, (action, target@))] == Effect::Allow;
                assert(effective@.contains(role));
                lemma_position(entries@, role);
                assert(saw_allow);
            }
            if saw_allow {
                let e = choose|e: int|
                    0 <= e < i && self@.acl.grants.dom().contains(
                        ((#[trigger] entries@[e]).0@, (action, target@)),
                    ) && self@.acl.grants[(entries@[e].0@, (action, target@))] == Effect::Allow;
                lemma_entry(entries@, e);
                assert(effective@.contains(entries@[e].0@));
            }
        }
        if saw_allow {
            Decision::Allow
        } else {
            Decision::Deny
        }
    }

    /// The policies that apply to `subject` for `action` on `target`, one for each
    /// role that has one, in order of the roles.
    pub fn policies_for(&self, subject: &str, action: Action, target: &PolicyTarget) -> (r: Vec<&Policy>)
        requires
            self.wf(),
        ensures
            exists|roles: Seq<Seq<char>>| #[trigger]
                applying(self@.acl, subject@, action, target@, roles) && roles.len() == r@.len()
                    && forall|i: int|
                    0 <= i < roles.len() ==> *(#[trigger] r@[i]) == self@.acl.policies[(
                        roles[i],
                        (action, target@),
                    )],
    {
        let effective: OrderedSet<String> = self.acl.effective_of(subject);
        let entries: &Vec<(String, ())> = &effective.map.entries;
        let mut out: Vec<&Policy> = Vec::new();
        let ghost mut roles: Seq<Seq<char>> = Seq::empty();
        let ghost mut at: Seq<int> = Seq::empty();
        let mut i: usize = 0;
        while i < entries.len()
            invariant
                self.wf(),
                effective.wf(),
                *entries == effective.map.entries,
                i <= entries@.len(),
                roles.len() == out@.len(),
                at.len() == out@.len(),
                forall|a: int|
                    0 <= a < at.len() ==> 0 <= #[trigger] at[a] < i && entries@[at[a]].0@ == roles[a]
                        && self@.acl.policies.dom().contains((roles[a], (action, target@))) && *out@[a]
                        == self@.acl.policies[(roles[a], (action, target@))],
                forall|a: int, b: int| 0 <= a < b < at.len() ==> #[trigger] at[a] < #[trigger] at[b],
                forall|e: int|
                    0 <= e < i && self@.acl.policies.dom().contains(
                        ((#[trigger] entries@[e]).0@, (action, target@)),
                    ) ==> exists|a: int| 0 <= a < at.len() && #[trigger] at[a] == e,
            decreases entries@.len() - i,
        {
            let ghost before = at;
            let key: (String, (Action, PolicyTarget)) = (
                entries[i].0.clone(),
                (action, target.duplicate()),
            );
            match self.acl.policies.get(&key) {
                Some(p) => {
                    out.push(p);
                    proof {
                        at = at.push(i as int);
                        roles = roles.push(entries@[i as int].0@);
                        assert(at[at.len() - 1] == i);
                    }
                },
                None => {},
            }
            proof {
                assert forall|e: int|
                    0 <= e < i + 1 && self@.acl.policies.dom().contains(
                        ((#[trigger] entries@[e]).0@, (action, target@)),
                    ) implies exists|a: int| 0 <= a < at.len() && #[trigger] at[a] == e by {
                    if e < i {
                        let a = choose|a: int| 0 <= a < before.len() && #[trigger] before[a] == e;
                        assert(at[a] == e);
                    }
                }
            }
            i = i + 1;
        }
        proof {
            assert forall|a: int, b: int| 0 <= a < b < roles.len() implies text_before(
                #[trigger] roles[a],
                #[trigger] roles[b],
            ) by {
                assert(at[a] < at[b]);
                assert(String::before(entries@[at[a]].0.model(), entries@[at[b]].0.model()));
            }
            assert forall|a: int| 0 <= a < roles.len() implies self@.acl.effective(
                subject@,
                #[trigger] roles[a],
            ) && self@.acl.policies.dom().contains((roles[a], (action, target@))) by {
                lemma_entry(entries@, at[a]);
                assert(effective@.contains(roles[a]));
            }
            assert forall|role: Seq<char>|
                self@.acl.effective(subject@, role) && #[trigger] self@.acl.policies.dom().contains(
                    (role, (action, target@)),
                ) implies roles.contains(role) by {
                assert(effective@.contains(role));
                lemma_position(entries@, role);
                let p = position_of(entries@, role);
                let a = choose|a: int| 0 <= a < at.len() && #[trigger] at[a] == p;
                assert(roles[a] == role);
            }
            assert(applying(self@.acl, subject@, action, target@, roles));
            assert forall|a: int| 0 <= a < roles.len() implies *(#[trigger] out@[a])
                == self@.acl.policies[(roles[a], (action, target@))] by {
                assert(0 <= at[a] < i);
            }
        }
        out
    }
}

/// `roles` lists, in order, the roles of `subject` that have a policy for `action`
/// on `target`.
pub open spec fn applying(
    acl: AclView,
    subject: Seq<char>,
    action: Action,
    target: TargetKey,
    roles: Seq<Seq<char>>,
) -> bool {
    &&& forall|a: int, b: int|
        0 <= a < b < roles.len() ==> text_before(#[trigger] roles[a], #[trigger] roles[b])
    &&& forall|a: int|
        0 <= a < roles.len() ==> acl.effective(subject, #[trigger] roles[a])
            && acl.policies.dom().contains((roles[a], (action, target)))
    &&& forall|role: Seq<char>|
        acl.effective(subject, role) && #[trigger] acl.policies.dom().contains(
            (role, (action, target)),
        ) ==> roles.contains(role)
}

/// Access control without the role and what mentions it.
pub open spec fn without_role(acl: AclView, role: Seq<char>) -> AclView {
    AclView {
        subjects: acl.subjects,
        roles: acl.roles.remove(role),
        members: acl.members.filter(|m: (Seq<char>, Seq<char>)| m.1 != role),
        grants: kept(acl.grants, |m: GrantKey, v: Effect| m.0 != role),
        policies: kept(acl.policies, |m: GrantKey, v: Policy| m.0 != role),
        inherits: acl.inherits.filter(
            |m: (Seq<char>, Seq<char>)| m.0 != role && m.1 != role,
        ),
    }
}

/// The roles that are defined, by name.
pub open spec fn roles_listed(acl: AclView, list: Seq<&String>) -> bool {
    &&& forall|i: int, j: int|
        0 <= i < j < list.len() ==> text_before(#[trigger] list[i]@, #[trigger] list[j]@)
    &&& forall|role: Seq<char>| #[trigger]
        acl.roles.contains(role) <==> exists|i: int| 0 <= i < list.len() && #[trigger] list[i]@ == role
}

/// The roles that are assigned to a subject, by name.
pub open spec fn assigned_listed(acl: AclView, subject: Seq<char>, list: Seq<String>) -> bool {
    &&& forall|i: int, j: int|
        0 <= i < j < list.len() ==> text_before(#[trigger] list[i]@, #[trigger] list[j]@)
    &&& forall|role: Seq<char>|
        crate::text::holds(list, role) <==> #[trigger] acl.members.contains((subject, role))
}

/// Whether the policy may be set, and why not.
pub open spec fn policy_verdict(
    cp: ControlPlaneView,
    role: Seq<char>,
    policy: Policy,
    filter: Result<(), String>,
) -> Result<(), Fault> {
    if !cp.acl.roles.contains(role) {
        Err(Fault::NotFound("role "@ + role))
    } else if policy.target is Type && !cp.ontology.types.dom().contains(policy.target->Type_0@) {
        Err(Fault::Validation("policy references unknown type "@ + policy.target->Type_0@))
    } else if policy.row_filter is Some && filter is Err {
        Err(Fault::Validation(filter->Err_0@))
    } else {
        Ok(())
    }
}


/// One denial among a subject's roles denies, whatever else is granted.
pub proof fn law_deny_wins(acl: AclView, subject: Seq<char>, action: Action, target: TargetKey)
    requires
        acl.granted(subject, action, target, Effect::Deny),
    ensures
        acl.decides(subject, action, target) == Decision::Deny,
{
}

/// What nothing allows is denied.
pub proof fn law_default_deny(acl: AclView, subject: Seq<char>, action: Action, target: TargetKey)
    requires
        !acl.granted(subject, action, target, Effect::Allow),
    ensures
        acl.decides(subject, action, target) == Decision::Deny,
{
}

/// A subject has the roles that its roles inherit.
pub proof fn law_roles_inherit(
    acl: AclView,
    subject: Seq<char>,
    role: Seq<char>,
    inherited: Seq<char>,
)
    requires
        acl.effective(subject, role),
        acl.inherits.contains((role, inherited)),
    ensures
        acl.effective(subject, inherited),
{
    let direct = choose|direct: Seq<char>| #[trigger]
        acl.members.contains((subject, direct)) && reachable(acl.inherits, direct, role);
    crate::graph::lemma_reachable_step(acl.inherits, direct, role, inherited);
    assert(acl.members.contains((subject, direct)));
}

/// A subject has the roles it is assigned.
pub proof fn law_assigned_is_effective(acl: AclView, subject: Seq<char>, role: Seq<char>)
    requires
        acl.members.contains((subject, role)),
    ensures
        acl.effective(subject, role),
{
    lemma_reachable_self(acl.inherits, role);
}

/// Nobody has a deleted role, directly or through inheritance.
pub proof fn law_deleted_role_is_gone(acl: AclView, role: Seq<char>, subject: Seq<char>)
    ensures
        !without_role(acl, role).effective(subject, role),
        !without_role(acl, role).roles.contains(role),
{
    let after = without_role(acl, role);
    if after.effective(subject, role) {
        let direct = choose|direct: Seq<char>| #[trigger]
            after.members.contains((subject, direct)) && reachable(after.inherits, direct, role);
        let p = choose|p: Seq<Seq<char>>| #[trigger]
            crate::graph::is_path(after.inherits, p) && p[0] == direct && p.last() == role;
        if p.len() > 1 {
            assert(after.inherits.contains((p[p.len() - 2], p[p.len() - 2 + 1])));
        }
    }
}

} // verus!
