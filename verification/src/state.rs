use vstd::prelude::*;

verus! {

/// Kind of port forward.
#[derive(Debug, Clone, Copy, PartialEq, Eq)]
pub enum TunnelType {
    Local,
    Remote,
}

/// Configuration of one port forward. `id` is the 128-bit value of its UUID.
#[derive(Debug)]
pub struct TunnelConfig {
    pub id: u128,
    pub tunnel_type: TunnelType,
    pub bind_host: String,
    pub bind_port: u16,
    pub target_host: String,
    pub target_port: u16,
    pub label: Option<String>,
}

/// Copy of an optional string with the same characters.
pub fn clone_opt_string(s: &Option<String>) -> (r: Option<String>)
    ensures
        r == *s,
{
    match s {
        Some(x) => Some(x.clone()),
        None => None,
    }
}

impl Clone for TunnelConfig {
    fn clone(&self) -> (r: Self)
        ensures
            r == *self,
    {
        TunnelConfig {
            id: self.id,
            tunnel_type: self.tunnel_type,
            bind_host: self.bind_host.clone(),
            bind_port: self.bind_port,
            target_host: self.target_host.clone(),
            target_port: self.target_port,
            label: clone_opt_string(&self.label),
        }
    }
}

/// Connection state of a session.
#[derive(Debug, Clone)]
pub enum SessionState {
    Disconnected,
    Connecting,
    Authenticating,
    Connected,
    Error { message: String },
}

/// Summary of a session for the front end. `id` and `user_id` are UUID
/// values; `host` is `host:port`.
#[derive(Debug, Clone)]
pub struct SessionInfo {
    pub id: u128,
    pub profile_name: String,
    pub host: String,
    pub user_id: u128,
    pub username: String,
    pub state: SessionState,
    pub terminal_count: usize,
    pub has_sftp: bool,
    pub tunnel_count: usize,
}

/// Commands sent to a terminal's reader task.
#[derive(Debug)]
pub enum TerminalCommand {
    /// Raw bytes (keystrokes) for the channel.
    Write(Vec<u8>),
    /// Resize the PTY (cols, rows).
    Resize(u32, u32),
    /// Close the channel.
    Close,
}

/// Direction of a file transfer.
#[derive(Debug, Clone, Copy)]
pub enum TransferDirection {
    Upload,
    Download,
}

/// Progress events of a file transfer; `transfer_id` is a UUID value.
#[derive(Debug, Clone)]
pub enum TransferEvent {
    Started { transfer_id: u128, file_name: String, total_bytes: u64, direction: TransferDirection },
    Progress { transfer_id: u128, bytes_transferred: u64, total_bytes: u64 },
    Completed { transfer_id: u128 },
    Failed { transfer_id: u128, error: String },
}

/// State of a port forward.
#[derive(Debug, Clone)]
pub enum TunnelState {
    Stopped,
    Starting,
    Active { connections: u32 },
    Error { message: String },
}

/// Events of a port forward; `tunnel_id` is a UUID value.
#[derive(Debug, Clone)]
pub enum TunnelEvent {
    StateChanged { tunnel_id: u128, state: TunnelState },
    Traffic { tunnel_id: u128, bytes_in: u64, bytes_out: u64 },
}

/// Contents of a remote file for the viewer.
#[derive(Debug, Clone)]
pub struct FileContent {
    pub content: String,
    pub file_name: String,
    pub file_size: u64,
    pub encoding: String,
    pub truncated: bool,
    pub total_lines: usize,
}

/// One hit of a recursive remote search.
#[derive(Debug, Clone)]
pub struct SearchResult {
    pub path: String,
    pub file_name: String,
    pub file_type: String,
    pub size: u64,
    pub relative_path: String,
}

/// Kind of a directory entry.
#[derive(Debug, Clone, Copy)]
pub enum FileType {
    File,
    Directory,
    Symlink,
    Other,
}

/// One directory entry of a listing.
#[derive(Debug, Clone)]
pub struct FileEntry {
    pub name: String,
    pub path: String,
    pub file_type: FileType,
    pub size: u64,
    pub permissions: u32,
    pub permissions_str: String,
    pub modified: Option<i64>,
    pub accessed: Option<i64>,
    pub owner: Option<u32>,
    pub group: Option<u32>,
    pub link_target: Option<String>,
}

/// Result of checking a server's host key against the known hosts.
#[derive(Debug, Clone)]
pub enum HostKeyStatus {
    Trusted,
    Unknown { fingerprint: String, key_type: String },
    Changed { old_fingerprint: String, new_fingerprint: String, key_type: String, old_key_type: Option<String> },
    Revoked,
}

/// A host-key question for the front end; `session_id` is a UUID value.
#[derive(Debug, Clone)]
pub struct HostKeyVerificationRequest {
    pub host: String,
    pub port: u16,
    pub status: HostKeyStatus,
    pub session_id: Option<u128>,
}

/// The user's answer to a host-key question.
#[derive(Debug, Clone, Copy)]
pub enum HostKeyVerificationResponse {
    Accept,
    AcceptAndSave,
    Reject,
}

/// Events of a terminal for the front end.
#[derive(Debug, Clone)]
pub enum TerminalEvent {
    Output { data: Vec<u8> },
    Closed { reason: String },
    Error { message: String },
}

} // verus!
