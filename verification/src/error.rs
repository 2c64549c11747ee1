use crate::text::{uuid_string, uuid_text};
use vstd::prelude::*;

verus! {

/// Errors raised by the folder operations of a profiles envelope.
#[derive(Debug, Clone, Copy, PartialEq, Eq)]
pub enum ProfileError {
    FolderNotFound,
    ProfileNotFound,
    InvalidName,
    DuplicateName,
    SystemFolderProtected,
    IncompleteReorder,
    ProfileFolderMismatch,
}

/// Application-level error. Identifiers are carried as the 128-bit value of
/// the UUID they stand for.
#[derive(Debug, Clone, PartialEq, Eq)]
pub enum AppError {
    ProfileError(String),
    Folder(ProfileError),
    VaultError(String),
    VaultLocked,
    VaultWrongPassword,
    KeyError(String),
    AuthFailed(String),
    ConnectionTimeout,
    NotConnected,
    SessionNotFound(u128),
    TerminalNotFound(u128),
    TunnelError(String),
    UserNotFound(u128),
    UserSelectionRequired,
    Ssh(String),
    Other(String),
}

/// `AppError` with its messages as character sequences.
pub enum AppErrorView {
    ProfileError(Seq<char>),
    Folder(ProfileError),
    VaultError(Seq<char>),
    VaultLocked,
    VaultWrongPassword,
    KeyError(Seq<char>),
    AuthFailed(Seq<char>),
    ConnectionTimeout,
    NotConnected,
    SessionNotFound(u128),
    TerminalNotFound(u128),
    TunnelError(Seq<char>),
    UserNotFound(u128),
    UserSelectionRequired,
    Ssh(Seq<char>),
    Other(Seq<char>),
}

impl View for AppError {
    type V = AppErrorView;

    open spec fn view(&self) -> AppErrorView {
        match self {
            AppError::ProfileError(m) => AppErrorView::ProfileError(m@),
            AppError::Folder(e) => AppErrorView::Folder(*e),
            AppError::VaultError(m) => AppErrorView::VaultError(m@),
            AppError::VaultLocked => AppErrorView::VaultLocked,
            AppError::VaultWrongPassword => AppErrorView::VaultWrongPassword,
            AppError::KeyError(m) => AppErrorView::KeyError(m@),
            AppError::AuthFailed(m) => AppErrorView::AuthFailed(m@),
            AppError::ConnectionTimeout => AppErrorView::ConnectionTimeout,
            AppError::NotConnected => AppErrorView::NotConnected,
            AppError::SessionNotFound(id) => AppErrorView::SessionNotFound(*id),
            AppError::TerminalNotFound(id) => AppErrorView::TerminalNotFound(*id),
            AppError::TunnelError(m) => AppErrorView::TunnelError(m@),
            AppError::UserNotFound(id) => AppErrorView::UserNotFound(*id),
            AppError::UserSelectionRequired => AppErrorView::UserSelectionRequired,
            AppError::Ssh(m) => AppErrorView::Ssh(m@),
            AppError::Other(m) => AppErrorView::Other(m@),
        }
    }
}

/// Message of a folder operation error.
pub open spec fn profile_error_message(e: ProfileError) -> Seq<char> {
    match e {
        ProfileError::FolderNotFound => "Folder not found"@,
        ProfileError::ProfileNotFound => "Profile not found"@,
        ProfileError::InvalidName => "Invalid folder name"@,
        ProfileError::DuplicateName => "A folder with this name already exists"@,
        ProfileError::SystemFolderProtected => "The system folder cannot be changed"@,
        ProfileError::IncompleteReorder => "The new order must list every item exactly once"@,
        ProfileError::ProfileFolderMismatch => "The profile is not in this folder"@,
    }
}

/// Text of an application error, as reported to the user.
pub open spec fn error_message(e: AppErrorView) -> Seq<char> {
    match e {
        AppErrorView::ProfileError(m) => "Profile error: "@ + m,
        AppErrorView::Folder(pe) => "Folder error: "@ + profile_error_message(pe),
        AppErrorView::VaultError(m) => "Vault error: "@ + m,
        AppErrorView::VaultLocked => "Vault is locked"@,
        AppErrorView::VaultWrongPassword => "Wrong master password"@,
        AppErrorView::KeyError(m) => "Key error: "@ + m,
        AppErrorView::AuthFailed(m) => "Authentication failed: "@ + m,
        AppErrorView::ConnectionTimeout => "Connection timed out"@,
        AppErrorView::NotConnected => "Not connected"@,
        AppErrorView::SessionNotFound(id) => "Session not found: "@ + uuid_text(id),
        AppErrorView::TerminalNotFound(id) => "Terminal not found: "@ + uuid_text(id),
        AppErrorView::TunnelError(m) => "Tunnel error: "@ + m,
        AppErrorView::UserNotFound(id) => "User not found: "@ + uuid_text(id),
        AppErrorView::UserSelectionRequired => "User selection required: the profile has several users"@,
        AppErrorView::Ssh(m) => "SSH error: "@ + m,
        AppErrorView::Other(m) => m,
    }
}

impl ProfileError {
    /// Message of this error.
    pub fn message(&self) -> (r: String)
        ensures
            r@ == profile_error_message(*self),
    {
        match self {
            ProfileError::FolderNotFound => "Folder not found".to_owned(),
            ProfileError::ProfileNotFound => "Profile not found".to_owned(),
            ProfileError::InvalidName => "Invalid folder name".to_owned(),
            ProfileError::DuplicateName => "A folder with this name already exists".to_owned(),
            ProfileError::SystemFolderProtected => "The system folder cannot be changed".to_owned(),
            ProfileError::IncompleteReorder => "The new order must list every item exactly once".to_owned(),
            ProfileError::ProfileFolderMismatch => "The profile is not in this folder".to_owned(),
        }
    }
}

impl AppError {
    /// Text of this error, as reported to the user.
    pub fn message(&self) -> (r: String)
        ensures
            r@ == error_message(self@),
    {
        match self {
            AppError::ProfileError(m) => "Profile error: ".to_owned().concat(m.as_str()),
            AppError::Folder(pe) => "Folder error: ".to_owned().concat(pe.message().as_str()),
            AppError::VaultError(m) => "Vault error: ".to_owned().concat(m.as_str()),
            AppError::VaultLocked => "Vault is locked".to_owned(),
            AppError::VaultWrongPassword => "Wrong master password".to_owned(),
            AppError::KeyError(m) => "Key error: ".to_owned().concat(m.as_str()),
            AppError::AuthFailed(m) => "Authentication failed: ".to_owned().concat(m.as_str()),
            AppError::ConnectionTimeout => "Connection timed out".to_owned(),
            AppError::NotConnected => "Not connected".to_owned(),
            AppError::SessionNotFound(id) => "Session not found: ".to_owned().concat(uuid_string(*id).as_str()),
            AppError::TerminalNotFound(id) => "Terminal not found: ".to_owned().concat(uuid_string(*id).as_str()),
            AppError::TunnelError(m) => "Tunnel error: ".to_owned().concat(m.as_str()),
            AppError::UserNotFound(id) => "User not found: ".to_owned().concat(uuid_string(*id).as_str()),
            AppError::UserSelectionRequired => "User selection required: the profile has several users".to_owned(),
            AppError::Ssh(m) => "SSH error: ".to_owned().concat(m.as_str()),
            AppError::Other(m) => m.clone(),
        }
    }
}

} // verus!
