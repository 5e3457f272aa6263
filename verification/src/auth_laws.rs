//! What holds of users, sessions, service accounts and their tokens across operations.
use crate::auth::{
    account_before, account_created, bootstrap_sealed, listed_token, listed_user, login_failed,
    logins_reset, password_updated, session_opened, session_revoked, sessions_revoked, token_before,
    token_created, token_revoked, user_created, user_switched, AuthView, LockoutPolicy,
    NewServiceAccount, NewUser, ServiceAccount, ServiceToken, TokenRecord, User,
};
use crate::error::ControlPlaneError;
use crate::memory::ControlPlaneView;
use vstd::prelude::*;

verus! {

/// A session opens for its own subject until it expires, and not from then on, unless its
/// user is disabled.
pub proof fn law_session_opens_until_it_expires(
    pre: ControlPlaneView,
    post: ControlPlaneView,
    token: Seq<u8>,
    subject: String,
    expires_at: i128,
    now: int,
    other: Seq<u8>,
)
    requires
        session_opened(pre, post, token, subject, expires_at),
    ensures
        now < expires_at && (forall|name: Seq<char>| #[trigger]
            pre.auth.users.dom().contains(name) && pre.auth.users[name].subject_id@ == subject@
                ==> !pre.auth.users[name].disabled) ==> post.auth.session_subject(token, now) == Some(
            subject@,
        ),
        now >= expires_at ==> post.auth.session_subject(token, now) is None,
        other != token ==> post.auth.session_subject(other, now) == pre.auth.session_subject(other, now),
        post.auth.users == pre.auth.users,
        post.auth.tokens == pre.auth.tokens,
        post.auth.accounts == pre.auth.accounts,
        post.auth.sealed == pre.auth.sealed,
        post == (ControlPlaneView { auth: post.auth, ..pre }),
{
}

/// A session that was revoked opens for nobody, and no other session changes.
pub proof fn law_revoked_session_is_dead(
    pre: ControlPlaneView,
    post: ControlPlaneView,
    token: Seq<u8>,
    now: int,
    other: Seq<u8>,
)
    requires
        session_revoked(pre, post, token),
    ensures
        post.auth.session_subject(token, now) is None,
        other != token ==> post.auth.session_subject(other, now) == pre.auth.session_subject(other, now),
        post.auth == (AuthView { sessions: post.auth.sessions, ..pre.auth }),
        post == (ControlPlaneView { auth: post.auth, ..pre }),
{
}

/// Ending the sessions of a subject ends each of them but the one that is spared, and none
/// of any other subject.
pub proof fn law_only_the_subjects_sessions_end(
    pre: ControlPlaneView,
    post: ControlPlaneView,
    subject: Seq<char>,
    spared: Option<Seq<u8>>,
    token: Seq<u8>,
)
    requires
        sessions_revoked(pre, post, subject, spared),
        pre.auth.sessions.dom().contains(token),
    ensures
        post.auth.sessions.dom().contains(token) <==> pre.auth.sessions[token].subject_id@ != subject
            || spared == Some(token),
        post.auth.sessions.dom().contains(token) ==> post.auth.sessions[token] == pre.auth.sessions[token],
        post.auth.sessions.dom().subset_of(pre.auth.sessions.dom()),
        post.auth == (AuthView { sessions: post.auth.sessions, ..pre.auth }),
        post == (ControlPlaneView { auth: post.auth, ..pre }),
{
}

/// The first sign-up can be sealed once; from then on it is sealed for good.
pub proof fn law_seal_holds(
    pre: ControlPlaneView,
    sealed: ControlPlaneView,
    again: ControlPlaneView,
    first: Result<(), ControlPlaneError>,
    second: Result<(), ControlPlaneError>,
)
    requires
        bootstrap_sealed(pre, sealed, first),
        bootstrap_sealed(sealed, again, second),
    ensures
        sealed.auth.sealed,
        again.auth.sealed,
        first is Ok <==> !pre.auth.sealed,
        second is Err && (second->Err_0)@ is Conflict,
        sealed.auth == (AuthView { sealed: true, ..pre.auth }),
        sealed == (ControlPlaneView { auth: sealed.auth, ..pre }),
{
}

/// A user who is disabled has no session left, and one who is enabled gets none back; the
/// user's password, failures and lockout stay, and so does every other user.
pub proof fn law_switching_a_user(
    pre: ControlPlaneView,
    post: ControlPlaneView,
    username: Seq<char>,
    disabled: bool,
    r: Result<(), ControlPlaneError>,
    token: Seq<u8>,
    other: Seq<char>,
)
    requires
        user_switched(pre, post, username, disabled, r),
    ensures
        r is Ok <==> pre.auth.users.dom().contains(username),
        r is Err ==> post == pre && (r->Err_0)@ is NotFound,
        r is Ok ==> {
            let (was, is) = (pre.auth.users[username], post.auth.users[username]);
            &&& is.disabled == disabled
            &&& is.subject_id == was.subject_id
            &&& is.password_phc == was.password_phc
            &&& is.created_at == was.created_at
            &&& is.failed_attempt_count == was.failed_attempt_count
            &&& is.last_failed_at == was.last_failed_at
            &&& is.locked_until == was.locked_until
            &&& post.auth.sessions.dom().contains(token) <==> pre.auth.sessions.dom().contains(token) && !(
            disabled && pre.auth.sessions[token].subject_id@ == was.subject_id@)
        },
        post.auth.sessions.dom().contains(token) ==> post.auth.sessions[token] == pre.auth.sessions[token],
        post.auth.users.dom() == pre.auth.users.dom(),
        other != username ==> post.auth.users[other] == pre.auth.users[other],
        post.auth.tokens == pre.auth.tokens,
        post.auth.accounts == pre.auth.accounts,
        post == (ControlPlaneView { auth: post.auth, ..pre }),
{
    assert(post.auth.users.dom() =~= pre.auth.users.dom());
}

/// A user is created under a name that no user has: enabled, with the password handed in,
/// without failures and not locked out, and known as a subject from then on. A name that
/// is taken is refused, and nothing changes.
pub proof fn law_new_user_can_sign_in(
    pre: ControlPlaneView,
    post: ControlPlaneView,
    user: NewUser,
    now: i128,
    r: Result<(), ControlPlaneError>,
    other: Seq<char>,
)
    requires
        user_created(pre, post, user, now, r),
    ensures
        r is Ok <==> !pre.auth.users.dom().contains(user.username@),
        r is Err ==> post == pre && (r->Err_0)@ is Conflict,
        r is Ok ==> {
            let u = post.auth.users[user.username@];
            &&& post.auth.users.dom() == pre.auth.users.dom().insert(user.username@)
            &&& u.subject_id == user.subject_id
            &&& u.password_phc == user.password_phc
            &&& !u.disabled
            &&& u.created_at == now
            &&& u.failed_attempt_count == 0
            &&& u.last_failed_at is None
            &&& u.locked_until is None
            &&& post.acl.subjects == pre.acl.subjects.insert(user.subject_id@)
        },
        other != user.username@ ==> post.auth.users[other] == pre.auth.users[other],
        post.auth == (AuthView { users: post.auth.users, ..pre.auth }),
        post.acl.roles == pre.acl.roles && post.acl.members == pre.acl.members && post.acl.grants
            == pre.acl.grants && post.acl.policies == pre.acl.policies && post.acl.inherits
            == pre.acl.inherits,
        post == (ControlPlaneView { auth: post.auth, acl: post.acl, ..pre }),
{
    if r is Ok {
        assert(post.auth.users.dom() =~= pre.auth.users.dom().insert(user.username@));
    }
}

/// A new password takes the place of the old one for one user of the subject; nothing else
/// of that user changes, and no other user does. A subject without a user is refused.
pub proof fn law_new_password_stands(
    pre: ControlPlaneView,
    post: ControlPlaneView,
    subject: Seq<char>,
    new_phc: String,
    r: Result<(), ControlPlaneError>,
) -> (name: Seq<char>)
    requires
        password_updated(pre, post, subject, new_phc, r),
    ensures
        r is Ok <==> exists|n: Seq<char>| #[trigger]
            pre.auth.users.dom().contains(n) && pre.auth.users[n].subject_id@ == subject,
        r is Err ==> post == pre && (r->Err_0)@ is NotFound,
        r is Ok ==> {
            let (was, is) = (pre.auth.users[name], post.auth.users[name]);
            &&& pre.auth.users.dom().contains(name)
            &&& was.subject_id@ == subject
            &&& is.password_phc == new_phc
            &&& is.subject_id == was.subject_id
            &&& is.disabled == was.disabled
            &&& is.created_at == was.created_at
            &&& is.failed_attempt_count == was.failed_attempt_count
            &&& is.last_failed_at == was.last_failed_at
            &&& is.locked_until == was.locked_until
            &&& post.auth.users == pre.auth.users.insert(name, is)
        },
        post.auth == (AuthView { users: post.auth.users, ..pre.auth }),
        post == (ControlPlaneView { auth: post.auth, ..pre }),
{
    if r is Ok {
        let name = choose|name: Seq<char>| #[trigger]
            crate::auth::password_changed(pre, post, name, subject, new_phc);
        name
    } else {
        Seq::empty()
    }
}

/// A failed sign-in counts one more failure where the last one lies within the window, and
/// starts again at one where it does not. With as many as the threshold the user is locked
/// out, for the span that the policy gives from now; with fewer the lockout stays as it
/// was. Only the count, the instant and the lockout change, and only of that user.
pub proof fn law_failed_login_counts(
    pre: ControlPlaneView,
    post: ControlPlaneView,
    username: Seq<char>,
    now: i128,
    policy: LockoutPolicy,
    other: Seq<char>,
)
    requires
        login_failed(pre, post, username, now, policy),
        pre.auth.users.dom().contains(username) ==> crate::auth::failure_fits(
            pre.auth.users[username],
            now,
            policy,
        ),
    ensures
        !pre.auth.users.dom().contains(username) ==> post == pre,
        pre.auth.users.dom().contains(username) ==> {
            let (was, is) = (pre.auth.users[username], post.auth.users[username]);
            let recent = was.last_failed_at is Some && now - was.last_failed_at->0 <= policy.window;
            &&& recent ==> is.failed_attempt_count == was.failed_attempt_count + 1
            &&& !recent ==> is.failed_attempt_count == 1
            &&& is.last_failed_at == Some(now)
            &&& is.failed_attempt_count >= policy.threshold ==> (is.locked_until matches Some(t) && t
                == now + policy.lockout_duration)
            &&& is.failed_attempt_count < policy.threshold ==> is.locked_until == was.locked_until
            &&& is.subject_id == was.subject_id
            &&& is.password_phc == was.password_phc
            &&& is.disabled == was.disabled
            &&& is.created_at == was.created_at
        },
        post.auth.users.dom() == pre.auth.users.dom(),
        other != username ==> post.auth.users[other] == pre.auth.users[other],
        post.auth == (AuthView { users: post.auth.users, ..pre.auth }),
        post == (ControlPlaneView { auth: post.auth, ..pre }),
{
    assert(post.auth.users.dom() =~= pre.auth.users.dom());
}

/// Forgetting the failed sign-ins of a user leaves none and no lockout, and changes nothing
/// else of the user and nobody else.
pub proof fn law_reset_forgets_failures(
    pre: ControlPlaneView,
    post: ControlPlaneView,
    username: Seq<char>,
    other: Seq<char>,
)
    requires
        logins_reset(pre, post, username),
    ensures
        pre.auth.users.dom().contains(username) ==> {
            let (was, is) = (pre.auth.users[username], post.auth.users[username]);
            &&& is.failed_attempt_count == 0
            &&& is.last_failed_at is None
            &&& is.locked_until is None
            &&& is.subject_id == was.subject_id
            &&& is.password_phc == was.password_phc
            &&& is.disabled == was.disabled
            &&& is.created_at == was.created_at
        },
        post.auth.users.dom() == pre.auth.users.dom(),
        other != username ==> post.auth.users[other] == pre.auth.users[other],
        post.auth == (AuthView { users: post.auth.users, ..pre.auth }),
        post == (ControlPlaneView { auth: post.auth, ..pre }),
{
    assert(post.auth.users.dom() =~= pre.auth.users.dom());
}

/// A service account is created where no account has its name and no user its subject; it
/// is then kept under its subject and known as a subject. Otherwise nothing changes.
pub proof fn law_new_account_is_kept(
    pre: ControlPlaneView,
    post: ControlPlaneView,
    account: NewServiceAccount,
    now: i128,
    r: Result<(), ControlPlaneError>,
    other: Seq<char>,
)
    requires
        account_created(pre, post, account, now, r),
    ensures
        r is Ok <==> (forall|id: Seq<char>| #[trigger]
            pre.auth.accounts.dom().contains(id) ==> pre.auth.accounts[id].name@ != account.name@) && (
        forall|n: Seq<char>| #[trigger]
            pre.auth.users.dom().contains(n) ==> pre.auth.users[n].subject_id@ != account.subject_id@),
        r is Err ==> post == pre && (r->Err_0)@ is Conflict,
        r is Ok ==> {
            let a = post.auth.accounts[account.subject_id@];
            &&& post.auth.accounts.dom() == pre.auth.accounts.dom().insert(account.subject_id@)
            &&& a.subject_id == account.subject_id
            &&& a.name == account.name
            &&& a.created_at == now
            &&& post.acl.subjects == pre.acl.subjects.insert(account.subject_id@)
        },
        other != account.subject_id@ ==> post.auth.accounts[other] == pre.auth.accounts[other],
        post.auth == (AuthView { accounts: post.auth.accounts, ..pre.auth }),
        post == (ControlPlaneView { auth: post.auth, acl: post.acl, ..pre }),
{
    if r is Ok {
        assert(post.auth.accounts.dom() =~= pre.auth.accounts.dom().insert(account.subject_id@));
    }
}

/// A service token stands for its account until it expires, and not from then on; only an
/// account can have one.
pub proof fn law_token_stands_until_it_expires(
    pre: ControlPlaneView,
    post: ControlPlaneView,
    subject: Seq<char>,
    token: Seq<u8>,
    label: Seq<char>,
    expires_at: i128,
    made: i128,
    r: Result<(), ControlPlaneError>,
    now: int,
    other: Seq<u8>,
)
    requires
        token_created(pre, post, subject, token, label, expires_at, made, r),
    ensures
        r is Ok <==> pre.auth.accounts.dom().contains(subject),
        r is Err ==> post == pre && (r->Err_0)@ is NotFound,
        r is Ok && now < expires_at ==> post.auth.token_subject(token, now) == Some(subject),
        r is Ok && now >= expires_at ==> post.auth.token_subject(token, now) is None,
        other != token ==> post.auth.token_subject(other, now) == pre.auth.token_subject(other, now),
        post.auth == (AuthView { tokens: post.auth.tokens, ..pre.auth }),
        post == (ControlPlaneView { auth: post.auth, ..pre }),
{
    if r is Ok && other != token && pre.auth.tokens.dom().contains(other) {
        assert(post.auth.tokens[other] == pre.auth.tokens[other]);
    }
}

/// Revoking a token that stands keeps when it was revoked, and the rest of it; revoking it
/// again changes nothing, and no other token ever changes.
pub proof fn law_first_revocation_stands(
    pre: ControlPlaneView,
    post: ControlPlaneView,
    token: Seq<u8>,
    now: i128,
    other: Seq<u8>,
)
    requires
        token_revoked(pre, post, token, now),
    ensures
        pre.auth.tokens.dom().contains(token) ==> {
            let (was, is) = (pre.auth.tokens[token], post.auth.tokens[token]);
            &&& is.revoked_at == (if was.revoked_at is Some {
                was.revoked_at
            } else {
                Some(now)
            })
            &&& is.subject_id == was.subject_id
            &&& is.label == was.label
            &&& is.created_at == was.created_at
            &&& is.expires_at == was.expires_at
        },
        post.auth.tokens.dom() == pre.auth.tokens.dom(),
        other != token ==> post.auth.tokens[other] == pre.auth.tokens[other],
        post.auth == (AuthView { tokens: post.auth.tokens, ..pre.auth }),
        post == (ControlPlaneView { auth: post.auth, ..pre }),
{
    assert(post.auth.tokens.dom() =~= pre.auth.tokens.dom());
}

/// Whom a session or a token stands for is its own subject, and it stands only while it is
/// there, has not expired, was not revoked and its user is not disabled.
pub proof fn law_who_may_come_in(v: AuthView, token: Seq<u8>, now: int)
    ensures
        v.session_subject(token, now) matches Some(who) ==> v.sessions.dom().contains(token) && who
            == v.sessions[token].subject_id@ && now < v.sessions[token].expires_at && forall|
            name: Seq<char>,
        | #[trigger]
            v.users.dom().contains(name) && v.users[name].subject_id@ == who ==> !v.users[name].disabled,
        v.token_subject(token, now) matches Some(who) ==> v.tokens.dom().contains(token) && who
            == v.tokens[token].subject_id@ && now < v.tokens[token].expires_at
            && v.tokens[token].revoked_at is None,
{
}

/// What is listed of a user and of a token is what is kept of them.
pub proof fn law_listing_tells_what_is_kept(name: String, u: User, token: [u8; 32], t: TokenRecord)
    ensures
        listed_user(name, u).username == name,
        listed_user(name, u).subject_id == u.subject_id,
        listed_user(name, u).disabled == u.disabled,
        listed_user(name, u).created_at == u.created_at,
        listed_token(token, t).token_sha256 == token,
        listed_token(token, t).subject_id == t.subject_id,
        listed_token(token, t).label == t.label,
        listed_token(token, t).created_at == t.created_at,
        listed_token(token, t).expires_at == t.expires_at,
        listed_token(token, t).revoked_at == t.revoked_at,
{
}

/// Tokens and accounts are listed from the oldest to the newest.
pub proof fn law_listed_by_age(a: ServiceToken, b: ServiceToken, c: ServiceAccount, d: ServiceAccount)
    ensures
        token_before(a, b) ==> a.created_at <= b.created_at,
        a.created_at < b.created_at ==> token_before(a, b),
        account_before(c, d) ==> c.created_at <= d.created_at,
        c.created_at < d.created_at ==> account_before(c, d),
{
}

} // verus!
