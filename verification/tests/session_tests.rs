use nexterm::error::AppError;
use nexterm::profile::{AuthMethodConfig, ConnectionProfile, UserCredential};
use nexterm::session::{
    connect_step, host_key_reply_result, ConnectInput,
    authentication_outcome, credentials_required_error, failure_state, find_profile, host_key_answer,
    host_key_first_step, host_key_request, resolve_user, session_info, test_auth_config, test_connection_result,
    HostKeyFirstStep, KnownHostsWrite, TestAuthKind,
};
use nexterm::state::{HostKeyStatus, HostKeyVerificationResponse, SessionState};

fn user(id: u128, name: &str, is_default: bool) -> UserCredential {
    UserCredential { id, username: name.to_string(), auth_method: AuthMethodConfig::Password, is_default }
}

fn profile_with_users(users: Vec<UserCredential>) -> ConnectionProfile {
    let mut p = ConnectionProfile::default();
    p.id = 0x10;
    p.name = "prod".to_string();
    p.host = "prod.example.com".to_string();
    p.users = users;
    p
}

#[test]
fn find_profile_reports_missing_id() {
    let profiles = vec![profile_with_users(vec![])];
    assert_eq!(find_profile(&profiles, 0x10).map(|p| p.name), Ok("prod".to_string()));
    assert_eq!(
        find_profile(&profiles, 1).map(|p| p.name),
        Err(AppError::ProfileError("Profile not found: 00000000-0000-0000-0000-000000000001".to_string()))
    );
}

#[test]
fn resolve_user_by_id_default_or_only_user() {
    let p = profile_with_users(vec![user(1, "root", false), user(2, "deploy", true)]);
    assert_eq!(resolve_user(&p, Some(1)).map(|u| u.username), Ok("root".to_string()));
    assert_eq!(resolve_user(&p, None).map(|u| u.username), Err(AppError::UserSelectionRequired));
    assert_eq!(resolve_user(&p, Some(9)).map(|u| u.id), Err(AppError::UserNotFound(9)));
    let single = profile_with_users(vec![user(3, "only", false)]);
    assert_eq!(resolve_user(&single, None).map(|u| u.id), Ok(3));
    let ambiguous = profile_with_users(vec![user(4, "a", false), user(5, "b", false)]);
    assert_eq!(resolve_user(&ambiguous, None).map(|u| u.id), Err(AppError::UserSelectionRequired));
}

#[test]
fn authentication_outcome_states() {
    let (state, r) = authentication_outcome(true, "root");
    assert!(matches!(state, SessionState::Connected));
    assert!(r.is_ok());
    let (state, r) = authentication_outcome(false, "root");
    assert!(matches!(state, SessionState::Error { ref message } if message == "Authentication failed"));
    assert_eq!(r, Err(AppError::AuthFailed("Server rejected authentication for user 'root'".to_string())));
    assert_eq!(
        credentials_required_error(),
        AppError::AuthFailed("Password or passphrase required — please provide credentials".to_string())
    );
    assert!(matches!(failure_state(&AppError::ConnectionTimeout), SessionState::Error { .. }));
}

#[test]
fn session_info_shows_host_and_port() {
    let mut p = profile_with_users(vec![]);
    p.port = 2222;
    let info = session_info(7, &p, 3, "root", SessionState::Connected, 2, true, 1);
    assert_eq!(info.host, "prod.example.com:2222");
    assert_eq!(info.profile_name, "prod");
    assert_eq!(info.terminal_count, 2);
    assert!(info.has_sftp);
}

#[test]
fn test_connection_messages() {
    assert_eq!(test_connection_result(TestAuthKind::Password, true, "u"), Ok("Connection successful".to_string()));
    assert_eq!(
        test_connection_result(TestAuthKind::PublicKey, false, "u"),
        Err(AppError::AuthFailed("Server rejected public key for user 'u'".to_string()))
    );
    assert_eq!(
        test_connection_result(TestAuthKind::Missing, false, "u"),
        Err(AppError::AuthFailed("Password or passphrase required".to_string()))
    );
    assert!(matches!(test_auth_config("password", None), AuthMethodConfig::Password));
    assert!(matches!(
        test_auth_config("publicKey", Some("~/.ssh/id".to_string())),
        AuthMethodConfig::PublicKey { .. }
    ));
}

#[test]
fn host_key_decisions() {
    assert!(matches!(host_key_first_step(&HostKeyStatus::Trusted), HostKeyFirstStep::Accept));
    assert!(matches!(host_key_first_step(&HostKeyStatus::Revoked), HostKeyFirstStep::Reject));
    let unknown = HostKeyStatus::Unknown { fingerprint: "SHA256:x".to_string(), key_type: "ssh-ed25519".to_string() };
    assert!(matches!(host_key_first_step(&unknown), HostKeyFirstStep::Ask));
    let (ok, write) = host_key_answer(&unknown, Some(HostKeyVerificationResponse::AcceptAndSave));
    assert!(ok);
    assert!(matches!(write, KnownHostsWrite::Add));
    let (ok, write) = host_key_answer(&unknown, Some(HostKeyVerificationResponse::Accept));
    assert!(ok);
    assert!(matches!(write, KnownHostsWrite::Nothing));
    let (ok, _) = host_key_answer(&unknown, Some(HostKeyVerificationResponse::Reject));
    assert!(!ok);
    let (ok, _) = host_key_answer(&unknown, None);
    assert!(!ok, "a dropped answer rejects the key");
    let req = host_key_request("h", 22, unknown);
    assert_eq!(req.host, "h");
    assert_eq!(req.port, 22);
    assert!(req.session_id.is_none());
}

#[test]
fn connect_sequence_decisions() {
    let d = connect_step(ConnectInput::Handshake(Ok(())));
    assert!(d.proceed && d.announce.is_none() && !d.disconnect && d.result.is_none());
    let d = connect_step(ConnectInput::Handshake(Err(AppError::ConnectionTimeout)));
    assert!(!d.proceed && !d.disconnect);
    assert_eq!(d.result, Some(Err(AppError::ConnectionTimeout)));
    let d = connect_step(ConnectInput::AuthMethod(Ok(true)));
    assert!(matches!(d.announce, Some(SessionState::Authenticating)) && d.proceed);
    let d = connect_step(ConnectInput::AuthMethod(Ok(false)));
    assert!(d.disconnect && !d.proceed);
    assert_eq!(d.result, Some(Err(credentials_required_error())));
    let d = connect_step(ConnectInput::Authenticated(Ok(())));
    assert!(matches!(d.announce, Some(SessionState::Connected)));
    assert_eq!(d.result, Some(Ok(())));
    let rejected = AppError::AuthFailed("Server rejected authentication for user 'root'".to_string());
    let d = connect_step(ConnectInput::Authenticated(Err(rejected.clone())));
    assert!(d.disconnect);
    assert!(matches!(d.announce, Some(SessionState::Error { ref message }) if message == &rejected.message()));
}

#[test]
fn host_key_reply_errors() {
    assert_eq!(
        host_key_reply_result(1, false, false),
        Err(AppError::Other("No pending host key verification for session 00000000-0000-0000-0000-000000000001".to_string()))
    );
    assert_eq!(
        host_key_reply_result(1, true, false),
        Err(AppError::Other("Host key verification channel already closed".to_string()))
    );
    assert_eq!(host_key_reply_result(1, true, true), Ok(()));
}
