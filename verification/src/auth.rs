//! Who may sign in: users with passwords and sessions, service accounts with
//! tokens, and the seal on the first sign-up.
use crate::acl::AclView;
use crate::ambient;
use crate::error::{outcome, ControlPlaneError, Fault};
use crate::key::{bytes_before, str_same, text_before, Key};
use crate::memory::{ControlPlaneView, MemoryControlPlane};
use crate::ordered::{kept, lemma_entry, lemma_position, position_of, OrderedMap};
use crate::text::{concat, concat3};
use crate::vecs::{keyed_before, places_by};
use vstd::prelude::*;

verus! {

/// A user to be created.
pub struct NewUser {
    pub username: String,
    pub subject_id: String,
    pub password_phc: String,
}

/// What is needed to check a password.
pub struct PasswordCredential {
    pub subject_id: String,
    pub password_phc: String,
    pub locked_until: Option<i128>,
}

/// A user as listed.
pub struct UserSummary {
    pub subject_id: String,
    pub username: String,
    pub disabled: bool,
    pub created_at: i128,
}

/// A service account to be created.
pub struct NewServiceAccount {
    pub subject_id: String,
    pub name: String,
}

/// A service account.
pub struct ServiceAccount {
    pub subject_id: String,
    pub name: String,
    pub created_at: i128,
}

/// A service token as listed.
pub struct ServiceToken {
    pub token_sha256: [u8; 32],
    pub subject_id: String,
    pub label: String,
    pub created_at: i128,
    pub expires_at: i128,
    pub revoked_at: Option<i128>,
}

/// When failed sign-ins lock a user out. Spans are in nanoseconds.
pub struct LockoutPolicy {
    pub threshold: u32,
    pub window: i128,
    pub lockout_duration: i128,
}

/// A user as kept, under the user's name.
pub struct User {
    pub subject_id: String,
    pub password_phc: String,
    pub disabled: bool,
    pub created_at: i128,
    pub failed_attempt_count: u32,
    pub last_failed_at: Option<i128>,
    pub locked_until: Option<i128>,
}

/// A session as kept, under the hash of its token.
pub struct Session {
    pub subject_id: String,
    pub expires_at: i128,
}

/// A service token as kept, under its hash.
pub struct TokenRecord {
    pub subject_id: String,
    pub label: String,
    pub created_at: i128,
    pub expires_at: i128,
    pub revoked_at: Option<i128>,
}

/// What is held of users and service accounts.
#[verifier::ext_equal]
pub struct AuthView {
    pub users: Map<Seq<char>, User>,
    pub sessions: Map<Seq<u8>, Session>,
    pub accounts: Map<Seq<char>, ServiceAccount>,
    pub tokens: Map<Seq<u8>, TokenRecord>,
    pub sealed: bool,
}

impl AuthView {
    /// Some disabled user is the subject.
    pub open spec fn disabled(self, subject: Seq<char>) -> bool {
        exists|name: Seq<char>| #[trigger]
            self.users.dom().contains(name) && self.users[name].subject_id@ == subject
                && self.users[name].disabled
    }

    /// Some user is the subject.
    pub open spec fn is_user(self, subject: Seq<char>) -> bool {
        exists|name: Seq<char>| #[trigger]
            self.users.dom().contains(name) && self.users[name].subject_id@ == subject
    }

    /// Some service account has the name.
    pub open spec fn account_named(self, name: Seq<char>) -> bool {
        exists|id: Seq<char>| #[trigger]
            self.accounts.dom().contains(id) && self.accounts[id].name@ == name
    }

    /// Whose session the token opens at `now`.
    pub open spec fn session_subject(self, token: Seq<u8>, now: int) -> Option<Seq<char>> {
        if self.sessions.dom().contains(token) && now < self.sessions[token].expires_at
            && !self.disabled(self.sessions[token].subject_id@) {
            Some(self.sessions[token].subject_id@)
        } else {
            None
        }
    }

    /// Whom the service token stands for at `now`.
    pub open spec fn token_subject(self, token: Seq<u8>, now: int) -> Option<Seq<char>> {
        if self.tokens.dom().contains(token) && self.tokens[token].revoked_at is None && now
            < self.tokens[token].expires_at {
            Some(self.tokens[token].subject_id@)
        } else {
            None
        }
    }

    /// The sessions without those of `subject`, but for the one of `spared`.
    pub open spec fn sessions_without(self, subject: Seq<char>, spared: Option<Seq<u8>>) -> Map<
        Seq<u8>,
        Session,
    > {
        kept(
            self.sessions,
            |token: Seq<u8>, s: Session| s.subject_id@ != subject || spared == Some(token),
        )
    }
}

/// The view of an optional text.
pub open spec fn text_of(t: Option<String>) -> Option<Seq<char>> {
    match t {
        Some(s) => Some(s@),
        None => None,
    }
}

/// The failures of the user that count after one more at `now`.
pub open spec fn failures_at(u: User, now: i128, policy: LockoutPolicy) -> int {
    if u.last_failed_at is Some && now - u.last_failed_at->0 <= policy.window {
        u.failed_attempt_count + 1
    } else {
        1
    }
}

/// The counter and the end of the lockout can be written down.
pub open spec fn failure_fits(u: User, now: i128, policy: LockoutPolicy) -> bool {
    &&& failures_at(u, now, policy) <= u32::MAX
    &&& failures_at(u, now, policy) >= policy.threshold ==> ambient::in_calendar(
        now + policy.lockout_duration,
    )
}

/// The user after one more failure at `now`.
pub open spec fn after_failed_login(u: User, now: i128, policy: LockoutPolicy) -> User {
    User {
        failed_attempt_count: failures_at(u, now, policy) as u32,
        last_failed_at: Some(now),
        locked_until: if failures_at(u, now, policy) >= policy.threshold {
            Some((now + policy.lockout_duration) as i128)
        } else {
            u.locked_until
        },
        ..u
    }
}

/// A user who has just been created.
pub open spec fn created_user(user: NewUser, now: i128) -> User {
    User {
        subject_id: user.subject_id,
        password_phc: user.password_phc,
        disabled: false,
        created_at: now,
        failed_attempt_count: 0,
        last_failed_at: None,
        locked_until: None,
    }
}

/// A service account that has just been created.
pub open spec fn created_account(account: NewServiceAccount, now: i128) -> ServiceAccount {
    ServiceAccount { subject_id: account.subject_id, name: account.name, created_at: now }
}

/// The token as it is listed.
pub open spec fn listed_token(token: [u8; 32], t: TokenRecord) -> ServiceToken {
    ServiceToken {
        token_sha256: token,
        subject_id: t.subject_id,
        label: t.label,
        created_at: t.created_at,
        expires_at: t.expires_at,
        revoked_at: t.revoked_at,
    }
}

/// The users, by name.
pub open spec fn users_listed(auth: AuthView, list: Seq<UserSummary>) -> bool {
    &&& forall|i: int, j: int|
        0 <= i < j < list.len() ==> text_before(
            #[trigger] list[i].username@,
            #[trigger] list[j].username@,
        )
    &&& forall|i: int|
        0 <= i < list.len() ==> auth.users.dom().contains((#[trigger] list[i]).username@) && list[i]
            == listed_user(list[i].username, auth.users[list[i].username@])
    &&& forall|name: Seq<char>| #[trigger]
        auth.users.dom().contains(name) ==> exists|i: int|
            0 <= i < list.len() && (#[trigger] list[i]).username@ == name
}

/// The user as listed.
pub open spec fn listed_user(name: String, u: User) -> UserSummary {
    UserSummary {
        subject_id: u.subject_id,
        username: name,
        disabled: u.disabled,
        created_at: u.created_at,
    }
}

/// Users and service accounts.
pub struct AuthState {
    pub users: OrderedMap<String, User>,
    pub sessions: OrderedMap<[u8; 32], Session>,
    pub accounts: OrderedMap<String, ServiceAccount>,
    pub tokens: OrderedMap<[u8; 32], TokenRecord>,
    pub sealed: bool,
}

impl View for AuthState {
    type V = AuthView;

    open spec fn view(&self) -> AuthView {
        AuthView {
            users: self.users@,
            sessions: self.sessions@,
            accounts: self.accounts@,
            tokens: self.tokens@,
            sealed: self.sealed,
        }
    }
}

/// Every failure is remembered with an instant of the calendar.
pub open spec fn failures_dated(users: Map<Seq<char>, User>) -> bool {
    forall|name: Seq<char>| #[trigger]
        users.dom().contains(name) ==> (users[name].last_failed_at matches Some(t)
            ==> ambient::in_calendar(t as int))
}

/// A service account is kept under its subject.
pub open spec fn accounts_keyed(accounts: Map<Seq<char>, ServiceAccount>) -> bool {
    forall|id: Seq<char>| #[trigger] accounts.dom().contains(id) ==> accounts[id].subject_id@ == id
}

impl AuthState {
    pub open spec fn wf(&self) -> bool {
        &&& self.users.wf()
        &&& self.sessions.wf()
        &&& self.accounts.wf()
        &&& self.tokens.wf()
        &&& failures_dated(self.users@)
        &&& accounts_keyed(self.accounts@)
    }

    /// No users, no service accounts, and the first sign-up open.
    pub fn new() -> (r: Self)
        ensures
            r.wf(),
            r@ == (AuthView {
                users: Map::empty(),
                sessions: Map::empty(),
                accounts: Map::empty(),
                tokens: Map::empty(),
                sealed: false,
            }),
    {
        AuthState {
            users: OrderedMap::new(),
            sessions: OrderedMap::new(),
            accounts: OrderedMap::new(),
            tokens: OrderedMap::new(),
            sealed: false,
        }
    }

    /// Where in the order of names the first user stands who is the subject, and is
    /// disabled where `only_disabled` asks for it.
    fn user_place(&self, subject: &str, only_disabled: bool) -> (r: Option<usize>)
        requires
            self.wf(),
        ensures
            match r {
                Some(i) => i < self.users.entries@.len() && self.users.entries@[i as int].1.subject_id@
                    == subject@ && (only_disabled ==> self.users.entries@[i as int].1.disabled),
                None => forall|name: Seq<char>| #[trigger]
                    self@.users.dom().contains(name) && self@.users[name].subject_id@ == subject@ ==> (
                    only_disabled && !self@.users[name].disabled),
            },
    {
        let entries: &Vec<(String, User)> = &self.users.entries;
        let mut i: usize = 0;
        while i < entries.len()
            invariant
                i <= entries@.len(),
                *entries == self.users.entries,
                forall|j: int|
                    0 <= j < i && (#[trigger] entries@[j]).1.subject_id@ == subject@ ==> only_disabled
                        && !entries@[j].1.disabled,
            decreases entries@.len() - i,
        {
            if str_same(entries[i].1.subject_id.as_str(), subject) && (!only_disabled
                || entries[i].1.disabled) {
                return Some(i);
            }
            i = i + 1;
        }
        proof {
            assert forall|name: Seq<char>| #[trigger]
                self@.users.dom().contains(name) && self@.users[name].subject_id@
                    == subject@ implies only_disabled && !self@.users[name].disabled by {
                lemma_position(entries@, name);
            }
        }
        None
    }

    /// Whether some service account has the name.
    fn account_has_name(&self, name: &str) -> (r: bool)
        requires
            self.wf(),
        ensures
            r == self@.account_named(name@),
    {
        let entries: &Vec<(String, ServiceAccount)> = &self.accounts.entries;
        let mut i: usize = 0;
        while i < entries.len()
            invariant
                self.wf(),
                i <= entries@.len(),
                *entries == self.accounts.entries,
                forall|j: int| 0 <= j < i ==> (#[trigger] entries@[j]).1.name@ != name@,
            decreases entries@.len() - i,
        {
            if str_same(entries[i].1.name.as_str(), name) {
                proof {
                    lemma_entry(entries@, i as int);
                    assert(self@.accounts.dom().contains(entries@[i as int].0@));
                }
                return true;
            }
            i = i + 1;
        }
        proof {
            assert forall|id: Seq<char>| #[trigger]
                self@.accounts.dom().contains(id) implies self@.accounts[id].name@ != name@ by {
                lemma_position(entries@, id);
            }
        }
        false
    }
}

/// The user `name`, who is the subject, has the new password; nothing else changes.
pub open spec fn password_changed(
    pre: ControlPlaneView,
    post: ControlPlaneView,
    name: Seq<char>,
    subject: Seq<char>,
    new_phc: String,
) -> bool {
    &&& pre.auth.users.dom().contains(name)
    &&& pre.auth.users[name].subject_id@ == subject
    &&& post == (ControlPlaneView {
        auth: AuthView {
            users: pre.auth.users.insert(
                name,
                User { password_phc: new_phc, ..pre.auth.users[name] },
            ),
            ..pre.auth
        },
        ..pre
    })
}

/// A session of the subject is opened under the token.
pub open spec fn session_opened(
    pre: ControlPlaneView,
    post: ControlPlaneView,
    token: Seq<u8>,
    subject: String,
    expires_at: i128,
) -> bool {
    post == ControlPlaneView {
        auth: AuthView {
            sessions: pre.auth.sessions.insert(token, Session { subject_id: subject, expires_at }),
            ..pre.auth
        },
        ..pre
    }
}

/// The session of the token is ended.
pub open spec fn session_revoked(pre: ControlPlaneView, post: ControlPlaneView, token: Seq<u8>) -> bool {
    post == ControlPlaneView {
        auth: AuthView { sessions: pre.auth.sessions.remove(token), ..pre.auth },
        ..pre
    }
}

/// The sessions of the subject are ended, but for the one of `spared`.
pub open spec fn sessions_revoked(
    pre: ControlPlaneView,
    post: ControlPlaneView,
    subject: Seq<char>,
    spared: Option<Seq<u8>>,
) -> bool {
    post == ControlPlaneView {
        auth: AuthView { sessions: pre.auth.sessions_without(subject, spared), ..pre.auth },
        ..pre
    }
}

/// What sealing the first sign-up does and gives.
pub open spec fn bootstrap_sealed(
    pre: ControlPlaneView,
    post: ControlPlaneView,
    r: Result<(), ControlPlaneError>,
) -> bool {
    &&& outcome(r) == (if pre.auth.sealed {
        Err(Fault::Conflict("bootstrap already sealed"@))
    } else {
        Ok::<(), Fault>(())
    })
    &&& post == ControlPlaneView { auth: AuthView { sealed: true, ..pre.auth }, ..pre }
}

/// What disabling or enabling a user does and gives.
pub open spec fn user_switched(
    pre: ControlPlaneView,
    post: ControlPlaneView,
    username: Seq<char>,
    disabled: bool,
    r: Result<(), ControlPlaneError>,
) -> bool {
    if !pre.auth.users.dom().contains(username) {
        outcome(r) == Err::<(), Fault>(Fault::NotFound("user "@ + username)) && post == pre
    } else {
        let u = pre.auth.users[username];
        r is Ok && post == (ControlPlaneView {
            auth: AuthView {
                users: pre.auth.users.insert(username, User { disabled, ..u }),
                sessions: if disabled {
                    pre.auth.sessions_without(u.subject_id@, None)
                } else {
                    pre.auth.sessions
                },
                ..pre.auth
            },
            ..pre
        })
    }
}

/// What setting a new password does and gives.
pub open spec fn password_updated(
    pre: ControlPlaneView,
    post: ControlPlaneView,
    subject: Seq<char>,
    new_phc: String,
    r: Result<(), ControlPlaneError>,
) -> bool {
    if pre.auth.is_user(subject) {
        r is Ok && exists|name: Seq<char>| #[trigger]
            password_changed(pre, post, name, subject, new_phc)
    } else {
        outcome(r) == Err::<(), Fault>(Fault::NotFound("credential for subject "@ + subject)) && post
            == pre
    }
}

/// What a failed sign-in at `now` does.
pub open spec fn login_failed(
    pre: ControlPlaneView,
    post: ControlPlaneView,
    username: Seq<char>,
    now: i128,
    policy: LockoutPolicy,
) -> bool {
    post == (if pre.auth.users.dom().contains(username) {
        ControlPlaneView {
            auth: AuthView {
                users: pre.auth.users.insert(
                    username,
                    after_failed_login(pre.auth.users[username], now, policy),
                ),
                ..pre.auth
            },
            ..pre
        }
    } else {
        pre
    })
}

/// What forgetting the failed sign-ins of a user does.
pub open spec fn logins_reset(pre: ControlPlaneView, post: ControlPlaneView, username: Seq<char>) -> bool {
    post == (if pre.auth.users.dom().contains(username) {
        ControlPlaneView {
            auth: AuthView {
                users: pre.auth.users.insert(
                    username,
                    User {
                        failed_attempt_count: 0,
                        last_failed_at: None,
                        locked_until: None,
                        ..pre.auth.users[username]
                    },
                ),
                ..pre.auth
            },
            ..pre
        }
    } else {
        pre
    })
}

/// What creating a user at `now` does and gives.
pub open spec fn user_created(
    pre: ControlPlaneView,
    post: ControlPlaneView,
    user: NewUser,
    now: i128,
    r: Result<(), ControlPlaneError>,
) -> bool {
    if pre.auth.users.dom().contains(user.username@) {
        post == pre && outcome(r) == Err::<(), Fault>(
            Fault::Conflict("username "@ + user.username@),
        )
    } else {
        r is Ok && post == (ControlPlaneView {
            auth: AuthView {
                users: pre.auth.users.insert(user.username@, created_user(user, now)),
                ..pre.auth
            },
            acl: AclView { subjects: pre.acl.subjects.insert(user.subject_id@), ..pre.acl },
            ..pre
        })
    }
}

/// What creating a service account at `now` does and gives.
pub open spec fn account_created(
    pre: ControlPlaneView,
    post: ControlPlaneView,
    account: NewServiceAccount,
    now: i128,
    r: Result<(), ControlPlaneError>,
) -> bool {
    if pre.auth.account_named(account.name@) {
        post == pre && outcome(r) == Err::<(), Fault>(
            Fault::Conflict("service account name "@ + account.name@),
        )
    } else if pre.auth.is_user(account.subject_id@) {
        post == pre && outcome(r) == Err::<(), Fault>(
            Fault::Conflict("subject "@ + account.subject_id@ + " already belongs to a user"@),
        )
    } else {
        r is Ok && post == (ControlPlaneView {
            auth: AuthView {
                accounts: pre.auth.accounts.insert(
                    account.subject_id@,
                    created_account(account, now),
                ),
                ..pre.auth
            },
            acl: AclView { subjects: pre.acl.subjects.insert(account.subject_id@), ..pre.acl },
            ..pre
        })
    }
}

/// What creating a service token at `now` does and gives.
pub open spec fn token_created(
    pre: ControlPlaneView,
    post: ControlPlaneView,
    subject: Seq<char>,
    token: Seq<u8>,
    label: Seq<char>,
    expires_at: i128,
    now: i128,
    r: Result<(), ControlPlaneError>,
) -> bool {
    if !pre.auth.accounts.dom().contains(subject) {
        post == pre && outcome(r) == Err::<(), Fault>(Fault::NotFound("service account "@ + subject))
    } else {
        &&& r is Ok
        &&& post.auth.tokens.dom() == pre.auth.tokens.dom().insert(token)
        &&& forall|other: Seq<u8>|
            other != token && #[trigger] pre.auth.tokens.dom().contains(other)
                ==> post.auth.tokens[other] == pre.auth.tokens[other]
        &&& post.auth.tokens[token].subject_id@ == subject
        &&& post.auth.tokens[token].label@ == label
        &&& post.auth.tokens[token].created_at == now
        &&& post.auth.tokens[token].expires_at == expires_at
        &&& post.auth.tokens[token].revoked_at is None
        &&& post == (ControlPlaneView {
            auth: AuthView { tokens: post.auth.tokens, ..pre.auth },
            ..pre
        })
    }
}

/// What revoking a service token at `now` does.
pub open spec fn token_revoked(pre: ControlPlaneView, post: ControlPlaneView, token: Seq<u8>, now: i128) -> bool {
    if pre.auth.tokens.dom().contains(token) && pre.auth.tokens[token].revoked_at is None {
        post == (ControlPlaneView {
            auth: AuthView {
                tokens: pre.auth.tokens.insert(
                    token,
                    TokenRecord { revoked_at: Some(now), ..pre.auth.tokens[token] },
                ),
                ..pre.auth
            },
            ..pre
        })
    } else {
        post == pre
    }
}

impl MemoryControlPlane {
    /// Creates a user at `now`, who is a subject from then on.
    pub fn create_user_at(&mut self, user: NewUser, now: i128) -> (r: Result<(), ControlPlaneError>)
        requires
            old(self).wf(),
        ensures
            final(self).wf(),
            user_created(old(self)@, final(self)@, user, now, r),
    {
        if self.auth.users.contains(&user.username) {
            return Err(ControlPlaneError::Conflict(concat("username ", user.username.as_str())));
        }
        let subject: String = user.subject_id.clone();
        self.auth.users.insert(
            user.username,
            User {
                subject_id: user.subject_id,
                password_phc: user.password_phc,
                disabled: false,
                created_at: now,
                failed_attempt_count: 0,
                last_failed_at: None,
                locked_until: None,
            },
        );
        self.acl.subjects_insert(subject.as_str());
        Ok(())
    }

    /// Creates a user, who is a subject from then on.
    pub fn create_user(&mut self, user: NewUser) -> (r: Result<(), ControlPlaneError>)
        requires
            old(self).wf(),
        ensures
            final(self).wf(),
            exists|now: i128|
                ambient::in_calendar(now as int) && #[trigger] user_created(
                    old(self)@,
                    final(self)@,
                    user,
                    now,
                    r,
                ),
    {
        let now: i128 = ambient::now();
        let r: Result<(), ControlPlaneError> = self.create_user_at(user, now);
        assert(user_created(old(self)@, self@, user, now, r));
        r
    }

    /// What a password of the user is checked against; a disabled user has none.
    pub fn find_password_credential(&self, username: &str) -> (r: Option<PasswordCredential>)
        requires
            self.wf(),
        ensures
            r is Some <==> self@.auth.users.dom().contains(username@)
                && !self@.auth.users[username@].disabled,
            r matches Some(c) ==> c == (PasswordCredential {
                subject_id: self@.auth.users[username@].subject_id,
                password_phc: self@.auth.users[username@].password_phc,
                locked_until: self@.auth.users[username@].locked_until,
            }),
    {
        match self.auth.users.get(&username.to_owned()) {
            Some(u) => {
                if u.disabled {
                    None
                } else {
                    Some(
                        PasswordCredential {
                            subject_id: u.subject_id.clone(),
                            password_phc: u.password_phc.clone(),
                            locked_until: u.locked_until,
                        },
                    )
                }
            },
            None => None,
        }
    }

    /// Opens a session of the subject, in place of one with the same token.
    pub fn create_session(&mut self, subject: String, token_sha256: &[u8; 32], expires_at: i128)
        requires
            old(self).wf(),
        ensures
            final(self).wf(),
            session_opened(old(self)@, final(self)@, token_sha256@, subject, expires_at),
    {
        self.auth.sessions.insert(*token_sha256, Session { subject_id: subject, expires_at });
    }

    /// Whose session the token opens at `now`: one that has not expired, of a subject
    /// that is no disabled user.
    pub fn resolve_session(&self, token_sha256: &[u8; 32], now: i128) -> (r: Option<String>)
        requires
            self.wf(),
        ensures
            text_of(r) == self@.auth.session_subject(token_sha256@, now as int),
    {
        match self.auth.sessions.get(token_sha256) {
            None => None,
            Some(s) => {
                if s.expires_at <= now {
                    return None;
                }
                match self.auth.user_place(s.subject_id.as_str(), true) {
                    Some(i) => {
                        proof {
                            lemma_entry(self.auth.users.entries@, i as int);
                        }
                        None
                    },
                    None => Some(s.subject_id.clone()),
                }
            },
        }
    }

    /// Ends a session.
    pub fn revoke_session(&mut self, token_sha256: &[u8; 32])
        requires
            old(self).wf(),
        ensures
            final(self).wf(),
            session_revoked(old(self)@, final(self)@, token_sha256@),
    {
        let _gone: Option<Session> = self.auth.sessions.remove(token_sha256);
    }

    /// Whether there is a user.
    pub fn has_any_user(&self) -> (r: bool)
        requires
            self.wf(),
        ensures
            r == exists|name: Seq<char>| #[trigger] self@.auth.users.dom().contains(name),
    {
        if self.auth.users.entries.len() > 0 {
            proof {
                lemma_entry(self.auth.users.entries@, 0);
                assert(self@.auth.users.dom().contains(self.auth.users.entries@[0].0@));
            }
            true
        } else {
            proof {
                assert forall|name: Seq<char>| !(#[trigger] self@.auth.users.dom().contains(name)) by {
                    if self@.auth.users.dom().contains(name) {
                        lemma_position(self.auth.users.entries@, name);
                    }
                }
            }
            false
        }
    }

    /// Whether the first sign-up is closed.
    pub fn is_bootstrap_sealed(&self) -> (r: bool)
        ensures
            r == self@.auth.sealed,
    {
        self.auth.sealed
    }

    /// Closes the first sign-up, for good.
    pub fn seal_bootstrap(&mut self) -> (r: Result<(), ControlPlaneError>)
        requires
            old(self).wf(),
        ensures
            final(self).wf(),
            bootstrap_sealed(old(self)@, final(self)@, r),
    {
        if self.auth.sealed {
            return Err(ControlPlaneError::Conflict("bootstrap already sealed".to_owned()));
        }
        self.auth.sealed = true;
        Ok(())
    }

    /// The users, in order of their names.
    pub fn list_users(&self) -> (r: Vec<UserSummary>)
        requires
            self.wf(),
        ensures
            users_listed(self@.auth, r@),
    {
        let entries: &Vec<(String, User)> = &self.auth.users.entries;
        let mut out: Vec<UserSummary> = Vec::new();
        let mut i: usize = 0;
        while i < entries.len()
            invariant
                i <= entries@.len(),
                out@.len() == i,
                forall|j: int|
                    0 <= j < i ==> #[trigger] out@[j] == listed_user(entries@[j].0, entries@[j].1),
            decreases entries@.len() - i,
        {
            let u: &User = &entries[i].1;
            out.push(
                UserSummary {
                    subject_id: u.subject_id.clone(),
                    username: entries[i].0.clone(),
                    disabled: u.disabled,
                    created_at: u.created_at,
                },
            );
            i = i + 1;
        }
        proof {
            assert forall|a: int, b: int| 0 <= a < b < out@.len() implies text_before(
                #[trigger] out@[a].username@,
                #[trigger] out@[b].username@,
            ) by {
                assert(String::before(entries@[a].0.model(), entries@[b].0.model()));
            }
            assert forall|a: int| 0 <= a < out@.len() implies self@.auth.users.dom().contains(
                (#[trigger] out@[a]).username@,
            ) && out@[a] == listed_user(out@[a].username, self@.auth.users[out@[a].username@]) by {
                lemma_entry(entries@, a);
            }
            assert forall|name: Seq<char>| #[trigger]
                self@.auth.users.dom().contains(name) implies exists|a: int|
                0 <= a < out@.len() && (#[trigger] out@[a]).username@ == name by {
                lemma_position(entries@, name);
                let a = position_of(entries@, name);
                assert(out@[a].username@ == name);
            }
        }
        out
    }

    /// Disables a user, which ends the sessions of the user's subject, or enables
    /// the user again.
    pub fn set_user_disabled(&mut self, username: &str, disabled: bool) -> (r: Result<
        (),
        ControlPlaneError,
    >)
        requires
            old(self).wf(),
        ensures
            final(self).wf(),
            user_switched(old(self)@, final(self)@, username@, disabled, r),
    {
        let name: String = username.to_owned();
        match self.auth.users.remove(&name) {
            None => {
                assert(self@.auth.users =~= old(self)@.auth.users);
                Err(ControlPlaneError::NotFound(concat("user ", username)))
            },
            Some(mut u) => {
                u.disabled = disabled;
                let subject: String = u.subject_id.clone();
                self.auth.users.insert(name, u);
                assert(self@.auth.users =~= old(self)@.auth.users.insert(username@, u));
                if disabled {
                    self.drop_sessions(subject.as_str(), None);
                }
                Ok(())
            },
        }
    }

    /// Ends the sessions of the subject, but for the one of `keep`.
    fn drop_sessions(&mut self, subject: &str, keep: Option<&[u8; 32]>)
        requires
            old(self).wf(),
        ensures
            final(self).wf(),
            sessions_revoked(
                old(self)@,
                final(self)@,
                subject@,
                match keep {
                    Some(k) => Some(k@),
                    None => None,
                },
            ),
    {
        let ghost spared: Option<Seq<u8>> = match keep {
            Some(k) => Some(k@),
            None => None,
        };
        self.auth.sessions.retain(
            (|token: &[u8; 32], s: &Session| -> (stays: bool)
                ensures
                    stays == (s.subject_id@ != subject@ || (keep is Some && keep->0@ == token@)),
            {
                !str_same(s.subject_id.as_str(), subject) || match keep {
                    Some(k) => token.same(k),
                    None => false,
                }
            }),
            Ghost(|token: Seq<u8>, s: Session| s.subject_id@ != subject@ || spared == Some(token)),
        );
    }

    /// Ends the sessions of the subject, but for the one of `keep`.
    pub fn revoke_subject_sessions(&mut self, subject: &str, keep: Option<&[u8; 32]>)
        requires
            old(self).wf(),
        ensures
            final(self).wf(),
            sessions_revoked(
                old(self)@,
                final(self)@,
                subject@,
                match keep {
                    Some(k) => Some(k@),
                    None => None,
                },
            ),
    {
        self.drop_sessions(subject, keep);
    }

    /// Gives a user who is the subject a new password. Where several are, one of
    /// them gets it.
    pub fn update_password(&mut self, subject: &str, new_phc: String) -> (r: Result<
        (),
        ControlPlaneError,
    >)
        requires
            old(self).wf(),
        ensures
            final(self).wf(),
            password_updated(old(self)@, final(self)@, subject@, new_phc, r),
    {
        match self.auth.user_place(subject, false) {
            None => Err(ControlPlaneError::NotFound(concat("credential for subject ", subject))),
            Some(i) => {
                let ghost start = self.auth.users@;
                let name: String = self.auth.users.entries[i].0.clone();
                proof {
                    lemma_entry(self.auth.users.entries@, i as int);
                }
                let ghost key = name@;
                match self.auth.users.remove(&name) {
                    None => {},
                    Some(mut u) => {
                        u.password_phc = new_phc;
                        self.auth.users.insert(name, u);
                        assert(self.auth.users@ =~= start.insert(key, u));
                        assert(password_changed(old(self)@, self@, key, subject@, new_phc));
                    },
                }
                Ok(())
            },
        }
    }

    /// The password verifier of a user who is the subject.
    pub fn password_phc_for_subject(&self, subject: &str) -> (r: Option<String>)
        requires
            self.wf(),
        ensures
            r is Some <==> self@.auth.is_user(subject@),
            r matches Some(phc) ==> exists|name: Seq<char>| #[trigger]
                self@.auth.users.dom().contains(name) && self@.auth.users[name].subject_id@ == subject@
                    && self@.auth.users[name].password_phc == phc,
    {
        match self.auth.user_place(subject, false) {
            None => None,
            Some(i) => {
                proof {
                    lemma_entry(self.auth.users.entries@, i as int);
                }
                Some(self.auth.users.entries[i].1.password_phc.clone())
            },
        }
    }

    /// Whether one more failed sign-in of the user at `now` can be written down.
    pub fn can_record_failure(&self, username: &str, now: i128, policy: &LockoutPolicy) -> (r: bool)
        requires
            self.wf(),
            ambient::in_calendar(now as int),
        ensures
            r == (self@.auth.users.dom().contains(username@) ==> failure_fits(
                self@.auth.users[username@],
                now,
                *policy,
            )),
    {
        match self.auth.users.get(&username.to_owned()) {
            None => true,
            Some(u) => {
                let within_window: bool = match u.last_failed_at {
                    Some(t) => now - t <= policy.window,
                    None => false,
                };
                if within_window && u.failed_attempt_count == u32::MAX {
                    return false;
                }
                let failures: u32 = if within_window {
                    u.failed_attempt_count + 1
                } else {
                    1
                };
                failures < policy.threshold || match now.checked_add(policy.lockout_duration) {
                    Some(t) => ambient::FIRST_INSTANT <= t && t < ambient::CALENDAR_END,
                    None => false,
                }
            },
        }
    }

    /// Counts a failed sign-in at `now`. A failure within the window of the last one
    /// adds to it, a later one starts over; at the threshold the user is locked out
    /// for the policy's span. A name that is nobody's changes nothing.
    pub fn record_failed_login(&mut self, username: &str, now: i128, policy: LockoutPolicy)
        requires
            old(self).wf(),
            ambient::in_calendar(now as int),
            old(self)@.auth.users.dom().contains(username@) ==> failure_fits(
                old(self)@.auth.users[username@],
                now,
                policy,
            ),
        ensures
            final(self).wf(),
            login_failed(old(self)@, final(self)@, username@, now, policy),
    {
        let name: String = username.to_owned();
        match self.auth.users.remove(&name) {
            None => {
                assert(self@.auth.users =~= old(self)@.auth.users);
            },
            Some(mut u) => {
                let within_window: bool = match u.last_failed_at {
                    Some(t) => now - t <= policy.window,
                    None => false,
                };
                u.failed_attempt_count = if within_window {
                    u.failed_attempt_count + 1
                } else {
                    1
                };
                u.last_failed_at = Some(now);
                if u.failed_attempt_count >= policy.threshold {
                    u.locked_until = Some(now + policy.lockout_duration);
                }
                self.auth.users.insert(name, u);
                assert(self@.auth.users =~= old(self)@.auth.users.insert(username@, u));
            },
        }
    }

    /// Forgets the failed sign-ins of a user.
    pub fn reset_failed_logins(&mut self, username: &str)
        requires
            old(self).wf(),
        ensures
            final(self).wf(),
            logins_reset(old(self)@, final(self)@, username@),
    {
        let name: String = username.to_owned();
        match self.auth.users.remove(&name) {
            None => {
                assert(self@.auth.users =~= old(self)@.auth.users);
            },
            Some(mut u) => {
                u.failed_attempt_count = 0;
                u.last_failed_at = None;
                u.locked_until = None;
                self.auth.users.insert(name, u);
                assert(self@.auth.users =~= old(self)@.auth.users.insert(username@, u));
            },
        }
    }

    /// Creates a service account at `now`, a subject from then on, under a name that
    /// no other has and for a subject that is no user.
    pub fn create_service_account_at(&mut self, account: NewServiceAccount, now: i128) -> (r: Result<
        (),
        ControlPlaneError,
    >)
        requires
            old(self).wf(),
        ensures
            final(self).wf(),
            account_created(old(self)@, final(self)@, account, now, r),
    {
        if self.auth.account_has_name(account.name.as_str()) {
            return Err(
                ControlPlaneError::Conflict(concat("service account name ", account.name.as_str())),
            );
        }
        match self.auth.user_place(account.subject_id.as_str(), false) {
            Some(i) => {
                proof {
                    lemma_entry(self.auth.users.entries@, i as int);
                }
                return Err(
                    ControlPlaneError::Conflict(
                        concat3(
                            "subject ",
                            account.subject_id.as_str(),
                            " already belongs to a user",
                        ),
                    ),
                );
            },
            None => {},
        }
        let subject: String = account.subject_id.clone();
        self.auth.accounts.insert(
            account.subject_id.clone(),
            ServiceAccount {
                subject_id: account.subject_id,
                name: account.name,
                created_at: now,
            },
        );
        self.acl.subjects_insert(subject.as_str());
        Ok(())
    }

    /// Creates a service account.
    pub fn create_service_account(&mut self, account: NewServiceAccount) -> (r: Result<
        (),
        ControlPlaneError,
    >)
        requires
            old(self).wf(),
        ensures
            final(self).wf(),
            exists|now: i128|
                ambient::in_calendar(now as int) && #[trigger] account_created(
                    old(self)@,
                    final(self)@,
                    account,
                    now,
                    r,
                ),
    {
        let now: i128 = ambient::now();
        let r: Result<(), ControlPlaneError> = self.create_service_account_at(account, now);
        assert(account_created(old(self)@, self@, account, now, r));
        r
    }

    /// Gives a service account a token at `now`, in place of one with the same hash.
    pub fn create_service_token_at(
        &mut self,
        subject: &str,
        token_sha256: &[u8; 32],
        label: &str,
        expires_at: i128,
        now: i128,
    ) -> (r: Result<(), ControlPlaneError>)
        requires
            old(self).wf(),
        ensures
            final(self).wf(),
            token_created(
                old(self)@,
                final(self)@,
                subject@,
                token_sha256@,
                label@,
                expires_at,
                now,
                r,
            ),
    {
        let owner: String = subject.to_owned();
        if !self.auth.accounts.contains(&owner) {
            return Err(ControlPlaneError::NotFound(concat("service account ", subject)));
        }
        self.auth.tokens.insert(
            *token_sha256,
            TokenRecord {
                subject_id: owner,
                label: label.to_owned(),
                created_at: now,
                expires_at,
                revoked_at: None,
            },
        );
        Ok(())
    }

    /// Gives a service account a token.
    pub fn create_service_token(
        &mut self,
        subject: &str,
        token_sha256: &[u8; 32],
        label: &str,
        expires_at: i128,
    ) -> (r: Result<(), ControlPlaneError>)
        requires
            old(self).wf(),
        ensures
            final(self).wf(),
            exists|now: i128|
                ambient::in_calendar(now as int) && #[trigger] token_created(
                    old(self)@,
                    final(self)@,
                    subject@,
                    token_sha256@,
                    label@,
                    expires_at,
                    now,
                    r,
                ),
    {
        let now: i128 = ambient::now();
        let r: Result<(), ControlPlaneError> = self.create_service_token_at(
            subject,
            token_sha256,
            label,
            expires_at,
            now,
        );
        assert(token_created(
            old(self)@,
            self@,
            subject@,
            token_sha256@,
            label@,
            expires_at,
            now,
            r,
        ));
        r
    }

    /// Whom the service token stands for at `now`: it is not revoked and has not
    /// expired.
    pub fn resolve_service_token(&self, token_sha256: &[u8; 32], now: i128) -> (r: Option<String>)
        requires
            self.wf(),
        ensures
            text_of(r) == self@.auth.token_subject(token_sha256@, now as int),
    {
        match self.auth.tokens.get(token_sha256) {
            None => None,
            Some(t) => {
                if t.revoked_at.is_none() && t.expires_at > now {
                    Some(t.subject_id.clone())
                } else {
                    None
                }
            },
        }
    }

    /// Revokes a service token at `now`; one that was revoked before keeps its
    /// instant.
    pub fn revoke_service_token_at(&mut self, token_sha256: &[u8; 32], now: i128)
        requires
            old(self).wf(),
        ensures
            final(self).wf(),
            token_revoked(old(self)@, final(self)@, token_sha256@, now),
    {
        let ghost start = self.auth.tokens@;
        match self.auth.tokens.remove(token_sha256) {
            None => {
                assert(self.auth.tokens@ =~= start);
            },
            Some(mut t) => {
                if t.revoked_at.is_none() {
                    t.revoked_at = Some(now);
                }
                self.auth.tokens.insert(*token_sha256, t);
                assert(self.auth.tokens@ =~= start.insert(token_sha256@, t));
                proof {
                    if start[token_sha256@].revoked_at is Some {
                        assert(self.auth.tokens@ =~= start);
                    }
                }
            },
        }
    }

    /// Revokes a service token.
    pub fn revoke_service_token(&mut self, token_sha256: &[u8; 32])
        requires
            old(self).wf(),
        ensures
            final(self).wf(),
            exists|now: i128|
                ambient::in_calendar(now as int) && #[trigger] token_revoked(
                    old(self)@,
                    final(self)@,
                    token_sha256@,
                    now,
                ),
    {
        let now: i128 = ambient::now();
        self.revoke_service_token_at(token_sha256, now);
        assert(token_revoked(old(self)@, self@, token_sha256@, now));
    }

    /// The tokens of a service account, oldest first; those of one instant in the
    /// order of their hashes.
    pub fn list_service_tokens(&self, subject: &str) -> (r: Vec<ServiceToken>)
        requires
            self.wf(),
        ensures
            forall|i: int, j: int|
                0 <= i < j < r@.len() ==> token_before(#[trigger] r@[i], #[trigger] r@[j]),
            forall|i: int|
                0 <= i < r@.len() ==> self@.auth.tokens.dom().contains(
                    (#[trigger] r@[i]).token_sha256@,
                ) && r@[i].subject_id@ == subject@ && r@[i] == listed_token(
                    r@[i].token_sha256,
                    self@.auth.tokens[r@[i].token_sha256@],
                ),
            forall|token: Seq<u8>| #[trigger]
                self@.auth.tokens.dom().contains(token) && self@.auth.tokens[token].subject_id@
                    == subject@ ==> exists|i: int|
                    0 <= i < r@.len() && (#[trigger] r@[i]).token_sha256@ == token,
    {
        let entries: &Vec<([u8; 32], TokenRecord)> = &self.auth.tokens.entries;
        let ghost p = |e: ([u8; 32], TokenRecord)| e.1.subject_id@ == subject@;
        let ghost c = |e: ([u8; 32], TokenRecord)| e.1.created_at;
        let places: Vec<usize> = places_by(
            entries,
            (|e: &([u8; 32], TokenRecord)| -> (keep: bool)
                ensures
                    keep == (e.1.subject_id@ == subject@),
            { str_same(e.1.subject_id.as_str(), subject) }),
            (|e: &([u8; 32], TokenRecord)| -> (key: i128)
                ensures
                    key == e.1.created_at,
            { e.1.created_at }),
            Ghost(p),
            Ghost(c),
        );
        let count: usize = entries.len();
        let mut out: Vec<ServiceToken> = Vec::new();
        let mut i: usize = 0;
        while i < places.len()
            invariant
                i <= places@.len(),
                out@.len() == i,
                forall|j: int| 0 <= j < places@.len() ==> (#[trigger] places@[j]) < entries@.len(),
                forall|j: int|
                    0 <= j < i ==> #[trigger] out@[j] == listed_token(
                        entries@[places@[j] as int].0,
                        entries@[places@[j] as int].1,
                    ),
            decreases places@.len() - i,
        {
            let e: &([u8; 32], TokenRecord) = &entries[places[i]];
            out.push(
                ServiceToken {
                    token_sha256: e.0,
                    subject_id: e.1.subject_id.clone(),
                    label: e.1.label.clone(),
                    created_at: e.1.created_at,
                    expires_at: e.1.expires_at,
                    revoked_at: e.1.revoked_at,
                },
            );
            i = i + 1;
        }
        proof {
            assert forall|a: int, b: int| 0 <= a < b < out@.len() implies token_before(
                #[trigger] out@[a],
                #[trigger] out@[b],
            ) by {
                assert(keyed_before(entries@, c, places@[a], places@[b]));
                if places@[a] < places@[b] {
                    assert(<[u8; 32]>::before(
                        entries@[places@[a] as int].0.model(),
                        entries@[places@[b] as int].0.model(),
                    ));
                }
            }
            assert forall|a: int| 0 <= a < out@.len() implies self@.auth.tokens.dom().contains(
                (#[trigger] out@[a]).token_sha256@,
            ) && out@[a].subject_id@ == subject@ && out@[a] == listed_token(
                out@[a].token_sha256,
                self@.auth.tokens[out@[a].token_sha256@],
            ) by {
                lemma_entry(entries@, places@[a] as int);
                assert(p(entries@[places@[a] as int]));
            }
            assert forall|token: Seq<u8>| #[trigger]
                self@.auth.tokens.dom().contains(token) && self@.auth.tokens[token].subject_id@
                    == subject@ implies exists|a: int|
                0 <= a < out@.len() && (#[trigger] out@[a]).token_sha256@ == token by {
                lemma_position(entries@, token);
                let k = position_of(entries@, token);
                assert(k < count);
                assert(p(entries@[k as usize as int]));
                assert(places@.contains(k as usize));
                let a = choose|a: int| 0 <= a < places@.len() && places@[a] == k as usize;
                assert(out@[a].token_sha256@ == token);
            }
        }
        out
    }

    /// The service accounts, oldest first; those of one instant in the order of
    /// their subjects.
    pub fn list_service_accounts(&self) -> (r: Vec<ServiceAccount>)
        requires
            self.wf(),
        ensures
            forall|i: int, j: int|
                0 <= i < j < r@.len() ==> account_before(#[trigger] r@[i], #[trigger] r@[j]),
            forall|i: int|
                0 <= i < r@.len() ==> self@.auth.accounts.dom().contains(
                    (#[trigger] r@[i]).subject_id@,
                ) && r@[i] == self@.auth.accounts[r@[i].subject_id@],
            forall|id: Seq<char>| #[trigger]
                self@.auth.accounts.dom().contains(id) ==> exists|i: int|
                    0 <= i < r@.len() && (#[trigger] r@[i]).subject_id@ == id,
    {
        let entries: &Vec<(String, ServiceAccount)> = &self.auth.accounts.entries;
        let ghost p = |e: (String, ServiceAccount)| true;
        let ghost c = |e: (String, ServiceAccount)| e.1.created_at;
        let places: Vec<usize> = places_by(
            entries,
            (|e: &(String, ServiceAccount)| -> (keep: bool)
                ensures
                    keep,
            { true }),
            (|e: &(String, ServiceAccount)| -> (key: i128)
                ensures
                    key == e.1.created_at,
            { e.1.created_at }),
            Ghost(p),
            Ghost(c),
        );
        let count: usize = entries.len();
        let mut out: Vec<ServiceAccount> = Vec::new();
        let mut i: usize = 0;
        while i < places.len()
            invariant
                i <= places@.len(),
                out@.len() == i,
                forall|j: int| 0 <= j < places@.len() ==> (#[trigger] places@[j]) < entries@.len(),
                forall|j: int|
                    0 <= j < i ==> #[trigger] out@[j] == entries@[places@[j] as int].1,
            decreases places@.len() - i,
        {
            let a: &ServiceAccount = &entries[places[i]].1;
            out.push(
                ServiceAccount {
                    subject_id: a.subject_id.clone(),
                    name: a.name.clone(),
                    created_at: a.created_at,
                },
            );
            i = i + 1;
        }
        proof {
            assert forall|k: int| 0 <= k < entries@.len() implies (#[trigger] entries@[k]).0@
                == entries@[k].1.subject_id@ by {
                lemma_entry(entries@, k);
            }
            assert forall|a: int, b: int| 0 <= a < b < out@.len() implies account_before(
                #[trigger] out@[a],
                #[trigger] out@[b],
            ) by {
                assert(keyed_before(entries@, c, places@[a], places@[b]));
                if places@[a] < places@[b] {
                    assert(String::before(
                        entries@[places@[a] as int].0.model(),
                        entries@[places@[b] as int].0.model(),
                    ));
                }
            }
            assert forall|a: int| 0 <= a < out@.len() implies self@.auth.accounts.dom().contains(
                (#[trigger] out@[a]).subject_id@,
            ) && out@[a] == self@.auth.accounts[out@[a].subject_id@] by {
                lemma_entry(entries@, places@[a] as int);
            }
            assert forall|id: Seq<char>| #[trigger]
                self@.auth.accounts.dom().contains(id) implies exists|a: int|
                0 <= a < out@.len() && (#[trigger] out@[a]).subject_id@ == id by {
                lemma_position(entries@, id);
                let k = position_of(entries@, id);
                assert(k < count);
                assert(p(entries@[k as usize as int]));
                assert(places@.contains(k as usize));
                let a = choose|a: int| 0 <= a < places@.len() && places@[a] == k as usize;
                assert(out@[a].subject_id@ == id);
            }
        }
        out
    }
}

/// The order in which tokens are listed.
pub open spec fn token_before(a: ServiceToken, b: ServiceToken) -> bool {
    a.created_at < b.created_at || (a.created_at == b.created_at && bytes_before(
        a.token_sha256@,
        b.token_sha256@,
    ))
}

/// The order in which service accounts are listed.
pub open spec fn account_before(a: ServiceAccount, b: ServiceAccount) -> bool {
    a.created_at < b.created_at || (a.created_at == b.created_at && text_before(
        a.subject_id@,
        b.subject_id@,
    ))
}

/// No session of a disabled user's subject opens anything, however it came about.
pub proof fn law_disabled_user_has_no_session(v: AuthView, name: Seq<char>, token: Seq<u8>, now: int)
    requires
        v.users.dom().contains(name),
        v.users[name].disabled,
        v.sessions.dom().contains(token),
        v.sessions[token].subject_id@ == v.users[name].subject_id@,
    ensures
        v.session_subject(token, now) is None,
{
}

/// Disabling a user leaves no session of the user's subject behind, so that none
/// opens once the user is enabled again.
pub proof fn law_disabling_ends_sessions(v: AuthView, subject: Seq<char>, token: Seq<u8>)
    ensures
        !(v.sessions_without(subject, None).dom().contains(token) && v.sessions_without(
            subject,
            None,
        )[token].subject_id@ == subject),
{
}

/// A service token that was revoked stands for nobody from then on.
pub proof fn law_revoked_token_is_dead(
    pre: ControlPlaneView,
    post: ControlPlaneView,
    token: Seq<u8>,
    revoked: i128,
    now: int,
)
    requires
        token_revoked(pre, post, token, revoked),
    ensures
        post.auth.token_subject(token, now) is None,
{
}

/// A service account never has the subject of a user that was there before it.
pub proof fn law_accounts_are_not_users(
    pre: ControlPlaneView,
    post: ControlPlaneView,
    account: NewServiceAccount,
    now: i128,
)
    requires
        account_created(pre, post, account, now, Ok(())),
    ensures
        !pre.auth.is_user(account.subject_id@),
        post.auth.accounts.dom().contains(account.subject_id@),
{
}

/// Failures that follow one another within the window lock the user out once there
/// are as many of them as the threshold.
pub proof fn law_threshold_locks_out(u: User, now: i128, policy: LockoutPolicy)
    requires
        failure_fits(u, now, policy),
        u.last_failed_at is Some,
        now - u.last_failed_at->0 <= policy.window,
        u.failed_attempt_count + 1 >= policy.threshold,
    ensures
        after_failed_login(u, now, policy).locked_until == Some(
            (now + policy.lockout_duration) as i128,
        ),
{
}

/// A failure after the window counts as the first.
pub proof fn law_window_starts_over(u: User, now: i128, policy: LockoutPolicy)
    requires
        u.last_failed_at is Some,
        now - u.last_failed_at->0 > policy.window,
    ensures
        after_failed_login(u, now, policy).failed_attempt_count == 1,
{
}

} // verus!
