use crate::error::{error_message, AppError, AppErrorView};
use crate::profile::{AuthMethodConfig, ConnectionProfile, UserCredential};
use crate::state::{HostKeyStatus, HostKeyVerificationRequest, HostKeyVerificationResponse, SessionInfo, SessionState};
use crate::text::{decimal, decimal_string, uuid_string, uuid_text};
use vstd::prelude::*;

verus! {

// ─── Choosing what to connect to ────────────────────────

/// Position of the first profile with id `id`, or -1.
pub open spec fn profile_index(ps: Seq<ConnectionProfile>, id: u128) -> int
    decreases ps.len(),
{
    if ps.len() == 0 {
        -1
    } else if ps[0].id == id {
        0
    } else {
        let r = profile_index(ps.drop_first(), id);
        if r < 0 {
            -1
        } else {
            r + 1
        }
    }
}

pub proof fn lemma_profile_index_at(ps: Seq<ConnectionProfile>, id: u128, i: int)
    requires
        0 <= i <= ps.len(),
        forall|j: int| 0 <= j < i ==> (#[trigger] ps[j]).id != id,
        i == ps.len() || ps[i].id == id,
    ensures
        profile_index(ps, id) == if i == ps.len() { -1 } else { i },
    decreases i,
{
    if i > 0 {
        assert forall|j: int| 0 <= j < i - 1 implies (#[trigger] ps.drop_first()[j]).id != id by {
            assert(ps.drop_first()[j] == ps[j + 1]);
        }
        lemma_profile_index_at(ps.drop_first(), id, i - 1);
    }
}

/// Find the profile to connect to.
pub fn find_profile(profiles: &Vec<ConnectionProfile>, profile_id: u128) -> (r: Result<ConnectionProfile, AppError>)
    ensures
        match r {
            Ok(p) => profile_index(profiles@, profile_id) >= 0 && p.same_as(profiles@[profile_index(profiles@, profile_id)]),
            Err(e) => profile_index(profiles@, profile_id) == -1
                && e@ == AppErrorView::ProfileError("Profile not found: "@ + uuid_text(profile_id)),
        },
{
    let mut i: usize = 0;
    while i < profiles.len()
        invariant
            0 <= i <= profiles@.len(),
            forall|j: int| 0 <= j < i ==> (#[trigger] profiles@[j]).id != profile_id,
        decreases profiles@.len() - i,
    {
        if profiles[i].id == profile_id {
            proof {
                lemma_profile_index_at(profiles@, profile_id, i as int);
            }
            return Ok(profiles[i].clone());
        }
        i += 1;
    }
    proof {
        lemma_profile_index_at(profiles@, profile_id, i as int);
    }
    Err(AppError::ProfileError("Profile not found: ".to_owned().concat(uuid_string(profile_id).as_str())))
}

/// Position of the first user with id `id`, or -1.
pub open spec fn user_index(us: Seq<UserCredential>, id: u128) -> int
    decreases us.len(),
{
    if us.len() == 0 {
        -1
    } else if us[0].id == id {
        0
    } else {
        let r = user_index(us.drop_first(), id);
        if r < 0 {
            -1
        } else {
            r + 1
        }
    }
}

pub proof fn lemma_user_index_at(us: Seq<UserCredential>, id: u128, i: int)
    requires
        0 <= i <= us.len(),
        forall|j: int| 0 <= j < i ==> (#[trigger] us[j]).id != id,
        i == us.len() || us[i].id == id,
    ensures
        user_index(us, id) == if i == us.len() { -1 } else { i },
    decreases i,
{
    if i > 0 {
        assert forall|j: int| 0 <= j < i - 1 implies (#[trigger] us.drop_first()[j]).id != id by {
            assert(us.drop_first()[j] == us[j + 1]);
        }
        lemma_user_index_at(us.drop_first(), id, i - 1);
    }
}

/// The user a connection is made as: the one with the given id, or, when
/// none is given, the profile's only user.
pub open spec fn resolve_user_spec(us: Seq<UserCredential>, user_id: Option<u128>) -> Result<UserCredential, AppErrorView> {
    match user_id {
        Some(uid) => if user_index(us, uid) >= 0 {
            Ok(us[user_index(us, uid)])
        } else {
            Err(AppErrorView::UserNotFound(uid))
        },
        None => if us.len() == 1 {
            Ok(us[0])
        } else {
            Err(AppErrorView::UserSelectionRequired)
        },
    }
}

/// Resolve which user of a profile to connect as.
pub fn resolve_user(profile: &ConnectionProfile, user_id: Option<u128>) -> (r: Result<UserCredential, AppError>)
    ensures
        match r {
            Ok(u) => resolve_user_spec(profile.users@, user_id) == Ok::<UserCredential, AppErrorView>(u),
            Err(e) => resolve_user_spec(profile.users@, user_id) == Err::<UserCredential, AppErrorView>(e@),
        },
{
    match user_id {
        Some(uid) => {
            let mut i: usize = 0;
            while i < profile.users.len()
                invariant
                    0 <= i <= profile.users@.len(),
                    user_id == Some(uid),
                    forall|j: int| 0 <= j < i ==> (#[trigger] profile.users@[j]).id != uid,
                decreases profile.users@.len() - i,
            {
                if profile.users[i].id == uid {
                    proof {
                        lemma_user_index_at(profile.users@, uid, i as int);
                    }
                    let u = profile.users[i].clone();
                    assert(u == profile.users@[i as int]);
                    assert(user_index(profile.users@, uid) == i as int);
                    return Ok(u);
                }
                i += 1;
            }
            proof {
                lemma_user_index_at(profile.users@, uid, i as int);
            }
            Err(AppError::UserNotFound(uid))
        },
        None => {
            if profile.users.len() == 1 {
                Ok(profile.users[0].clone())
            } else {
                Err(AppError::UserSelectionRequired)
            }
        },
    }
}

// ─── Session states ─────────────────────────────────────

/// The state shown after a failed connection step: an error with the
/// failure's message.
pub fn failure_state(err: &AppError) -> (r: SessionState)
    ensures
        r matches SessionState::Error { message } && message@ == error_message(err@),
{
    SessionState::Error { message: err.message() }
}

/// Outcome of an authentication attempt: connected, or an error state and
/// `AuthFailed` naming the user.
pub fn authentication_outcome(authenticated: bool, username: &str) -> (r: (SessionState, Result<(), AppError>))
    ensures
        authenticated ==> r.0 is Connected && r.1 is Ok,
        !authenticated ==> (r.0 matches SessionState::Error { message } && message@ == "Authentication failed"@),
        !authenticated ==> (r.1 matches Err(e) && e@ == AppErrorView::AuthFailed(
                "Server rejected authentication for user '"@ + username@ + "'"@,
            )),
{
    if authenticated {
        (SessionState::Connected, Ok(()))
    } else {
        (
            SessionState::Error { message: "Authentication failed".to_owned() },
            Err(AppError::AuthFailed("Server rejected authentication for user '".to_owned().concat(username).concat("'"))),
        )
    }
}

/// Error when no password or passphrase is at hand for a connection.
pub fn credentials_required_error() -> (r: AppError)
    ensures
        r@ == AppErrorView::AuthFailed("Password or passphrase required — please provide credentials"@),
{
    AppError::AuthFailed("Password or passphrase required — please provide credentials".to_owned())
}

/// Summary of a session for the front end; the host is shown as
/// `host:port`.
pub fn session_info(
    id: u128,
    profile: &ConnectionProfile,
    user_id: u128,
    username: &str,
    state: SessionState,
    terminal_count: usize,
    has_sftp: bool,
    tunnel_count: usize,
) -> (r: SessionInfo)
    ensures
        r.id == id,
        r.profile_name@ == profile.name@,
        r.host@ == profile.host@ + ":"@ + decimal(profile.port as nat),
        r.user_id == user_id,
        r.username@ == username@,
        r.state == state,
        r.terminal_count == terminal_count,
        r.has_sftp == has_sftp,
        r.tunnel_count == tunnel_count,
{
    SessionInfo {
        id,
        profile_name: profile.name.clone(),
        host: profile.host.clone().concat(":").concat(decimal_string(profile.port as u64).as_str()),
        user_id,
        username: username.to_owned(),
        state,
        terminal_count,
        has_sftp,
        tunnel_count,
    }
}

// ─── Test connection ────────────────────────────────────

/// Auth configuration from the profile editor's form: "publicKey" with the
/// given key path (empty when none), anything else a password.
pub fn test_auth_config(auth_method_type: &str, private_key_path: Option<String>) -> (r: AuthMethodConfig)
    ensures
        auth_method_type@ == "publicKey"@ ==> (r matches AuthMethodConfig::PublicKey { private_key_path: p, passphrase_in_keychain: false }
            && p@ == match private_key_path { Some(x) => x@, None => Seq::<char>::empty() }),
        auth_method_type@ != "publicKey"@ ==> r is Password,
{
    if crate::text::str_eq(auth_method_type, "publicKey") {
        let p = match private_key_path {
            Some(x) => x,
            None => String::new(),
        };
        AuthMethodConfig::PublicKey { private_key_path: p, passphrase_in_keychain: false }
    } else {
        AuthMethodConfig::Password
    }
}

/// The kind of credentials a test connection authenticated with.
pub enum TestAuthKind {
    Password,
    PublicKey,
    Missing,
}

/// Result of a test connection after the authentication attempt.
pub fn test_connection_result(kind: TestAuthKind, authenticated: bool, username: &str) -> (r: Result<String, AppError>)
    ensures
        match kind {
            TestAuthKind::Missing => r matches Err(e) && e@ == AppErrorView::AuthFailed("Password or passphrase required"@),
            TestAuthKind::Password => if authenticated {
                r matches Ok(m) && m@ == "Connection successful"@
            } else {
                r matches Err(e) && e@ == AppErrorView::AuthFailed("Server rejected authentication for user '"@ + username@ + "'"@)
            },
            TestAuthKind::PublicKey => if authenticated {
                r matches Ok(m) && m@ == "Connection successful"@
            } else {
                r matches Err(e) && e@ == AppErrorView::AuthFailed("Server rejected public key for user '"@ + username@ + "'"@)
            },
        },
{
    match kind {
        TestAuthKind::Missing => Err(AppError::AuthFailed("Password or passphrase required".to_owned())),
        TestAuthKind::Password => if authenticated {
            Ok("Connection successful".to_owned())
        } else {
            Err(AppError::AuthFailed("Server rejected authentication for user '".to_owned().concat(username).concat("'")))
        },
        TestAuthKind::PublicKey => if authenticated {
            Ok("Connection successful".to_owned())
        } else {
            Err(AppError::AuthFailed("Server rejected public key for user '".to_owned().concat(username).concat("'")))
        },
    }
}

// ─── The connect sequence ───────────────────────────────

/// What the connect sequence learned last.
pub enum ConnectInput {
    /// The TCP and SSH handshake finished, or failed with this error.
    Handshake(Result<(), AppError>),
    /// Resolving the authentication method gave one (`true`), none at hand
    /// (`false`), or failed.
    AuthMethod(Result<bool, AppError>),
    /// The authentication attempt succeeded or failed.
    Authenticated(Result<(), AppError>),
}

/// What the connect sequence does next: the state to announce, whether to
/// go on, whether to disconnect the SSH connection, and the result when it
/// ends.
pub struct ConnectDecision {
    pub announce: Option<SessionState>,
    pub proceed: bool,
    pub disconnect: bool,
    pub result: Option<Result<(), AppError>>,
}

/// The decision after each step of connecting: a failed handshake ends the
/// sequence with its error; once connected, a missing credential or a
/// failed authentication ends it with the error and a disconnect; a found
/// method announces `Authenticating`; a successful authentication announces
/// `Connected` and ends with success.
pub fn connect_step(input: ConnectInput) -> (r: ConnectDecision)
    ensures
        match input {
            ConnectInput::Handshake(Ok(())) => r.announce is None && r.proceed && !r.disconnect && r.result is None,
            ConnectInput::Handshake(Err(e)) => {
                &&& r.announce matches Some(SessionState::Error { message }) && message@ == error_message(e@)
                &&& !r.proceed && !r.disconnect
                &&& r.result matches Some(Err(f)) && f@ == e@
            },
            ConnectInput::AuthMethod(Ok(true)) => r.announce matches Some(SessionState::Authenticating) && r.proceed
                && !r.disconnect && r.result is None,
            ConnectInput::AuthMethod(Ok(false)) => {
                let e = AppErrorView::AuthFailed("Password or passphrase required — please provide credentials"@);
                &&& r.announce matches Some(SessionState::Error { message }) && message@ == error_message(e)
                &&& !r.proceed && r.disconnect
                &&& r.result matches Some(Err(f)) && f@ == e
            },
            ConnectInput::AuthMethod(Err(e)) | ConnectInput::Authenticated(Err(e)) => {
                &&& r.announce matches Some(SessionState::Error { message }) && message@ == error_message(e@)
                &&& !r.proceed && r.disconnect
                &&& r.result matches Some(Err(f)) && f@ == e@
            },
            ConnectInput::Authenticated(Ok(())) => r.announce matches Some(SessionState::Connected) && !r.proceed
                && !r.disconnect && r.result matches Some(Ok(())),
        },
{
    match input {
        ConnectInput::Handshake(Ok(())) => ConnectDecision { announce: None, proceed: true, disconnect: false, result: None },
        ConnectInput::Handshake(Err(e)) => ConnectDecision {
            announce: Some(failure_state(&e)),
            proceed: false,
            disconnect: false,
            result: Some(Err(e)),
        },
        ConnectInput::AuthMethod(Ok(true)) => ConnectDecision {
            announce: Some(SessionState::Authenticating),
            proceed: true,
            disconnect: false,
            result: None,
        },
        ConnectInput::AuthMethod(Ok(false)) => {
            let e = credentials_required_error();
            ConnectDecision { announce: Some(failure_state(&e)), proceed: false, disconnect: true, result: Some(Err(e)) }
        },
        ConnectInput::AuthMethod(Err(e)) => ConnectDecision {
            announce: Some(failure_state(&e)),
            proceed: false,
            disconnect: true,
            result: Some(Err(e)),
        },
        ConnectInput::Authenticated(Ok(())) => ConnectDecision {
            announce: Some(SessionState::Connected),
            proceed: false,
            disconnect: false,
            result: Some(Ok(())),
        },
        ConnectInput::Authenticated(Err(e)) => ConnectDecision {
            announce: Some(failure_state(&e)),
            proceed: false,
            disconnect: true,
            result: Some(Err(e)),
        },
    }
}

// ─── Host key verification ──────────────────────────────

/// What to do with a server's host key before asking anyone.
pub enum HostKeyFirstStep {
    /// Known and unchanged: accept.
    Accept,
    /// Revoked: reject.
    Reject,
    /// Unknown or changed: ask the user.
    Ask,
}

/// First step for a host key status.
pub fn host_key_first_step(status: &HostKeyStatus) -> (r: HostKeyFirstStep)
    ensures
        status is Trusted <==> r is Accept,
        status is Revoked <==> r is Reject,
        (status is Unknown || status is Changed) <==> r is Ask,
{
    match status {
        HostKeyStatus::Trusted => HostKeyFirstStep::Accept,
        HostKeyStatus::Revoked => HostKeyFirstStep::Reject,
        HostKeyStatus::Unknown { .. } => HostKeyFirstStep::Ask,
        HostKeyStatus::Changed { .. } => HostKeyFirstStep::Ask,
    }
}

/// What to write to the known hosts after the user answers.
pub enum KnownHostsWrite {
    Nothing,
    /// Add the key of an unknown host.
    Add,
    /// Replace the changed key of a known host.
    Update,
}

/// Decision after asking the user about an unknown or changed key: accept
/// once, accept and remember (adding an unknown key, replacing a changed
/// one), or reject. No answer (the question could not be asked, or the
/// answer channel closed) rejects.
pub fn host_key_answer(status: &HostKeyStatus, response: Option<HostKeyVerificationResponse>) -> (r: (bool, KnownHostsWrite))
    ensures
        r.0 <==> (response matches Some(a) && !(a is Reject)),
        (response matches Some(HostKeyVerificationResponse::AcceptAndSave) && status is Unknown) <==> r.1 is Add,
        (response matches Some(HostKeyVerificationResponse::AcceptAndSave) && status is Changed) <==> r.1 is Update,
{
    match response {
        None => (false, KnownHostsWrite::Nothing),
        Some(HostKeyVerificationResponse::Reject) => (false, KnownHostsWrite::Nothing),
        Some(HostKeyVerificationResponse::Accept) => (true, KnownHostsWrite::Nothing),
        Some(HostKeyVerificationResponse::AcceptAndSave) => match status {
            HostKeyStatus::Unknown { .. } => (true, KnownHostsWrite::Add),
            HostKeyStatus::Changed { .. } => (true, KnownHostsWrite::Update),
            _ => (true, KnownHostsWrite::Nothing),
        },
    }
}

/// The question sent to the front end about a host key; the session id is
/// added by the connect command.
pub fn host_key_request(host: &str, port: u16, status: HostKeyStatus) -> (r: HostKeyVerificationRequest)
    ensures
        r.host@ == host@,
        r.port == port,
        r.status == status,
        r.session_id is None,
{
    HostKeyVerificationRequest { host: host.to_owned(), port, status, session_id: None }
}

/// Result of answering a host-key question: an error when no question is
/// pending for the session, or when the answer could not be delivered.
pub fn host_key_reply_result(session_id: u128, pending: bool, delivered: bool) -> (r: Result<(), AppError>)
    ensures
        !pending ==> (r matches Err(e)
            && e@ == AppErrorView::Other("No pending host key verification for session "@ + uuid_text(session_id))),
        pending && !delivered ==> (r matches Err(e) && e@ == AppErrorView::Other(
            "Host key verification channel already closed"@,
        )),
        pending && delivered ==> r is Ok,
{
    if !pending {
        Err(AppError::Other("No pending host key verification for session ".to_owned().concat(uuid_string(session_id).as_str())))
    } else if !delivered {
        Err(AppError::Other("Host key verification channel already closed".to_owned()))
    } else {
        Ok(())
    }
}

} // verus!
