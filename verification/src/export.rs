use crate::crypto::{
    aes256gcm_decrypt, aes256gcm_encrypt, aes256gcm_open, aes_gcm_max_plaintext, argon2id_derive,
    argon2id_key, random_bytes, utf8_error_message, utf8_to_string,
};
use crate::error::{AppError, AppErrorView};
use crate::fs_secure::BestEffortOutcome;
use crate::profile::{AuthMethodConfig, ConnectionProfile, Folder, UserCredential};
use crate::state::clone_opt_string;
use crate::text::{is_utc_rfc3339, now_rfc3339, opt_view};
use crate::vault::{credential_lookup, lookup_credential, read_spec, vault_key_text, Vault, VaultModel};
use vstd::prelude::*;
use vstd::utf8::{decode_utf8, encode_utf8, valid_utf8};

verus! {

// ─── Export result ──────────────────────────────────────

/// Result of an export: the number of profiles written, and stable warning
/// identifiers for the front end (currently only "acl_not_applied").
#[derive(Debug, Default)]
pub struct ExportResult {
    pub count: u32,
    pub warnings: Vec<String>,
}

/// Build an `ExportResult` from a profile count and the outcome of
/// hardening the export file: any outcome but `Hardened` adds the warning
/// "acl_not_applied".
pub fn build_export_result(count: u32, outcome: BestEffortOutcome) -> (r: ExportResult)
    ensures
        r.count == count,
        outcome is Hardened ==> r.warnings@.len() == 0,
        !(outcome is Hardened) ==> r.warnings@.len() == 1 && r.warnings@[0]@ == "acl_not_applied"@,
{
    let mut warnings: Vec<String> = Vec::new();
    match outcome {
        BestEffortOutcome::Hardened => {},
        BestEffortOutcome::SkippedUnsupported => {
            warnings.push("acl_not_applied".to_owned());
        },
        BestEffortOutcome::Failed(_) => {
            warnings.push("acl_not_applied".to_owned());
        },
    }
    ExportResult { count, warnings }
}

// ─── Export format ──────────────────────────────────────

/// A user within an exported profile; `password` only in encrypted exports.
#[derive(Debug)]
pub struct ExportedUser {
    pub username: String,
    pub auth_method: String,
    pub private_key_path: Option<String>,
    pub is_default: bool,
    pub password: Option<String>,
}

/// A user folder within an export.
#[derive(Debug)]
pub struct ExportedFolder {
    pub name: String,
    pub display_order: i32,
    pub is_expanded: bool,
}

/// A profile within an export: safe metadata, the users, and the folder's
/// name. `username`, `auth_method`, `private_key_path` and `password` are
/// the single-user fields of the first export format, read on import only.
#[derive(Debug)]
pub struct ExportedProfile {
    pub name: String,
    pub host: String,
    pub port: u16,
    pub users: Vec<ExportedUser>,
    pub folder_name: Option<String>,
    pub display_order: i32,
    pub username: Option<String>,
    pub auth_method: Option<String>,
    pub private_key_path: Option<String>,
    pub password: Option<String>,
}

/// Top-level export envelope.
#[derive(Debug)]
pub struct ExportEnvelope {
    pub version: u32,
    pub app: String,
    pub exported_at: String,
    pub folders: Vec<ExportedFolder>,
    pub profiles: Vec<ExportedProfile>,
}

/// Result returned after an import.
#[derive(Debug)]
pub struct ImportResult {
    pub imported: u32,
    pub skipped: u32,
    pub errors: Vec<String>,
}

/// `ExportedUser` with its texts as character sequences.
pub struct ExportedUserView {
    pub username: Seq<char>,
    pub auth_method: Seq<char>,
    pub private_key_path: Option<Seq<char>>,
    pub is_default: bool,
    pub password: Option<Seq<char>>,
}

/// `ExportedFolder` with its name as a character sequence.
pub struct ExportedFolderView {
    pub name: Seq<char>,
    pub display_order: i32,
    pub is_expanded: bool,
}

/// `ExportedProfile` with its texts as character sequences.
pub struct ExportedProfileView {
    pub name: Seq<char>,
    pub host: Seq<char>,
    pub port: u16,
    pub users: Seq<ExportedUserView>,
    pub folder_name: Option<Seq<char>>,
    pub display_order: i32,
    pub username: Option<Seq<char>>,
    pub auth_method: Option<Seq<char>>,
    pub private_key_path: Option<Seq<char>>,
    pub password: Option<Seq<char>>,
}

/// `ExportEnvelope` with its texts as character sequences.
pub struct ExportEnvelopeView {
    pub version: u32,
    pub app: Seq<char>,
    pub exported_at: Seq<char>,
    pub folders: Seq<ExportedFolderView>,
    pub profiles: Seq<ExportedProfileView>,
}

impl View for ExportedUser {
    type V = ExportedUserView;

    open spec fn view(&self) -> ExportedUserView {
        ExportedUserView {
            username: self.username@,
            auth_method: self.auth_method@,
            private_key_path: opt_view(self.private_key_path),
            is_default: self.is_default,
            password: opt_view(self.password),
        }
    }
}

impl View for ExportedFolder {
    type V = ExportedFolderView;

    open spec fn view(&self) -> ExportedFolderView {
        ExportedFolderView { name: self.name@, display_order: self.display_order, is_expanded: self.is_expanded }
    }
}

impl View for ExportedProfile {
    type V = ExportedProfileView;

    open spec fn view(&self) -> ExportedProfileView {
        ExportedProfileView {
            name: self.name@,
            host: self.host@,
            port: self.port,
            users: self.users@.map_values(|u: ExportedUser| u@),
            folder_name: opt_view(self.folder_name),
            display_order: self.display_order,
            username: opt_view(self.username),
            auth_method: opt_view(self.auth_method),
            private_key_path: opt_view(self.private_key_path),
            password: opt_view(self.password),
        }
    }
}

impl View for ExportEnvelope {
    type V = ExportEnvelopeView;

    open spec fn view(&self) -> ExportEnvelopeView {
        ExportEnvelopeView {
            version: self.version,
            app: self.app@,
            exported_at: self.exported_at@,
            folders: self.folders@.map_values(|f: ExportedFolder| f@),
            profiles: self.profiles@.map_values(|p: ExportedProfile| p@),
        }
    }
}

/// Label of an auth method in the export format.
pub open spec fn auth_label(m: AuthMethodConfig) -> Seq<char> {
    match m {
        AuthMethodConfig::Password => "password"@,
        AuthMethodConfig::PublicKey { .. } => "publickey"@,
        AuthMethodConfig::KeyboardInteractive => "keyboard-interactive"@,
    }
}

/// Key path of an auth method, for public-key auth only.
pub open spec fn auth_key_path(m: AuthMethodConfig) -> Option<Seq<char>> {
    match m {
        AuthMethodConfig::PublicKey { private_key_path, .. } => Some(private_key_path@),
        _ => None,
    }
}

/// The export form of a user, carrying `password`.
pub open spec fn export_user(u: UserCredential, password: Option<Seq<char>>) -> ExportedUserView {
    ExportedUserView {
        username: u.username@,
        auth_method: auth_label(u.auth_method),
        private_key_path: auth_key_path(u.auth_method),
        is_default: u.is_default,
        password,
    }
}

/// The password stored for a user of a profile in the vault, if a vault is
/// given and reading it succeeds with a value.
pub open spec fn stored_password(vault: Option<VaultModel>, profile_id: u128, user_id: u128) -> Option<Seq<char>> {
    match vault {
        Some(m) => match credential_lookup(m, profile_id, Some(user_id), "password"@) {
            Ok(Some(pw)) => Some(pw),
            _ => None,
        },
        None => None,
    }
}

/// The export form of a profile placed in the folder named `folder_name`,
/// with the users' passwords read from `vault` when one is given.
pub open spec fn export_profile(p: ConnectionProfile, folder_name: Option<Seq<char>>, vault: Option<VaultModel>) -> ExportedProfileView {
    ExportedProfileView {
        name: p.name@,
        host: p.host@,
        port: p.port,
        users: p.users@.map_values(|u: UserCredential| export_user(u, stored_password(vault, p.id, u.id))),
        folder_name,
        display_order: p.display_order,
        username: None,
        auth_method: None,
        private_key_path: None,
        password: None,
    }
}

fn auth_fields(m: &AuthMethodConfig) -> (r: (String, Option<String>))
    ensures
        r.0@ == auth_label(*m),
        opt_view(r.1) == auth_key_path(*m),
{
    match m {
        AuthMethodConfig::Password => ("password".to_owned(), None),
        AuthMethodConfig::PublicKey { private_key_path, .. } => ("publickey".to_owned(), Some(private_key_path.clone())),
        AuthMethodConfig::KeyboardInteractive => ("keyboard-interactive".to_owned(), None),
    }
}

impl ExportedProfile {
    /// The export form of a profile, placed in the folder named
    /// `folder_name`; passwords are left out.
    pub fn from_profile(p: &ConnectionProfile, folder_name: Option<String>) -> (r: ExportedProfile)
        ensures
            r@ == export_profile(*p, opt_view(folder_name), None),
    {
        let mut users: Vec<ExportedUser> = Vec::new();
        let mut i: usize = 0;
        while i < p.users.len()
            invariant
                0 <= i <= p.users@.len(),
                users@.len() == i,
                forall|j: int| 0 <= j < i ==> (#[trigger] users@[j])@ == export_user(p.users@[j], None),
            decreases p.users@.len() - i,
        {
            let u = &p.users[i];
            let (auth_method, private_key_path) = auth_fields(&u.auth_method);
            let e = ExportedUser {
                username: u.username.clone(),
                auth_method,
                private_key_path,
                is_default: u.is_default,
                password: None,
            };
            assert(e@ == export_user(p.users@[i as int], None));
            let ghost pre = users@;
            users.push(e);
            proof {
                assert(users@ == pre.push(e));
            }
            i += 1;
        }
        let r = ExportedProfile {
            name: p.name.clone(),
            host: p.host.clone(),
            port: p.port,
            users,
            folder_name,
            display_order: p.display_order,
            username: None,
            auth_method: None,
            private_key_path: None,
            password: None,
        };
        assert(r@.users =~= export_profile(*p, opt_view(r.folder_name), None).users);
        r
    }
}

/// The last folder with id `id` (a later folder shadows an earlier one).
pub open spec fn folder_by_id(fs: Seq<Folder>, id: u128) -> Option<Folder>
    decreases fs.len(),
{
    if fs.len() == 0 {
        None
    } else if fs.last().id == id {
        Some(fs.last())
    } else {
        folder_by_id(fs.drop_last(), id)
    }
}

/// Name of the user folder a profile is exported under: none for a profile
/// without a folder, in an unknown folder, or in the system folder.
pub open spec fn export_folder_name(fs: Seq<Folder>, p: ConnectionProfile) -> Option<Seq<char>> {
    match p.folder_id {
        None => None,
        Some(fid) => match folder_by_id(fs, fid) {
            Some(f) => if f.is_system { None } else { Some(f.name@) },
            None => None,
        },
    }
}

/// The user folders (not the system folder) in export form, in list order.
pub open spec fn export_folders(fs: Seq<Folder>) -> Seq<ExportedFolderView>
    decreases fs.len(),
{
    if fs.len() == 0 {
        seq![]
    } else if fs.last().is_system {
        export_folders(fs.drop_last())
    } else {
        export_folders(fs.drop_last()).push(
            ExportedFolderView { name: fs.last().name@, display_order: fs.last().display_order, is_expanded: fs.last().is_expanded },
        )
    }
}

/// The export envelope of profiles and folders at time `exported_at`, with
/// the users' passwords read from `vault` when one is given.
pub open spec fn export_envelope(ps: Seq<ConnectionProfile>, fs: Seq<Folder>, exported_at: Seq<char>, vault: Option<VaultModel>) -> ExportEnvelopeView {
    ExportEnvelopeView {
        version: 3,
        app: "NexTerm"@,
        exported_at,
        folders: export_folders(fs),
        profiles: ps.map_values(|p: ConnectionProfile| export_profile(p, export_folder_name(fs, p), vault)),
    }
}

/// The model of an optional vault.
pub open spec fn vault_model_of(v: Option<Vault>) -> Option<VaultModel> {
    match v {
        Some(x) => Some(x@),
        None => None,
    }
}

/// The model of an optional vault reference.
pub open spec fn vault_model(v: Option<&Vault>) -> Option<VaultModel> {
    match v {
        Some(x) => Some(x@),
        None => None,
    }
}

/// The users of an exported profile with each password read from the vault.
fn users_with_passwords(users: &Vec<ExportedUser>, p: &ConnectionProfile, vault: &Vault) -> (r: Vec<ExportedUser>)
    requires
        vault.wf(),
        users@.len() == p.users@.len(),
        forall|j: int| 0 <= j < users@.len() ==> (#[trigger] users@[j])@ == export_user(p.users@[j], None),
    ensures
        r@.len() == users@.len(),
        forall|j: int| 0 <= j < r@.len() ==> (#[trigger] r@[j])@ == export_user(p.users@[j], stored_password(Some(vault@), p.id, p.users@[j].id)),
{
    let mut out: Vec<ExportedUser> = Vec::new();
    let mut j: usize = 0;
    while j < users.len()
        invariant
            vault.wf(),
            users@.len() == p.users@.len(),
            forall|t: int| 0 <= t < users@.len() ==> (#[trigger] users@[t])@ == export_user(p.users@[t], None),
            0 <= j <= users@.len(),
            out@.len() == j,
            forall|t: int| 0 <= t < j ==> (#[trigger] out@[t])@ == export_user(p.users@[t], stored_password(Some(vault@), p.id, p.users@[t].id)),
        decreases users@.len() - j,
    {
        let u = &users[j];
        let password = match lookup_credential(vault, p.id, Some(p.users[j].id), "password") {
            Ok(Some(pw)) => Some(pw),
            _ => None,
        };
        let e = ExportedUser {
            username: u.username.clone(),
            auth_method: u.auth_method.clone(),
            private_key_path: clone_opt_string(&u.private_key_path),
            is_default: u.is_default,
            password,
        };
        let ghost pre = out@;
        out.push(e);
        proof {
            assert(out@ == pre.push(e));
        }
        j += 1;
    }
    out
}

fn find_folder_last(fs: &Vec<Folder>, id: u128) -> (r: Option<usize>)
    ensures
        match r {
            Some(i) => i < fs@.len() && folder_by_id(fs@, id) == Some(fs@[i as int]),
            None => folder_by_id(fs@, id) is None,
        },
{
    let mut found: Option<usize> = None;
    let mut i: usize = 0;
    while i < fs.len()
        invariant
            0 <= i <= fs@.len(),
            match found {
                Some(j) => j < i && folder_by_id(fs@.take(i as int), id) == Some(fs@[j as int]),
                None => folder_by_id(fs@.take(i as int), id) is None,
            },
        decreases fs@.len() - i,
    {
        proof {
            assert(fs@.take(i as int + 1).drop_last() =~= fs@.take(i as int));
        }
        if fs[i].id == id {
            found = Some(i);
        }
        i += 1;
    }
    proof {
        assert(fs@.take(fs@.len() as int) =~= fs@);
    }
    found
}

/// Build the export envelope at time `exported_at`: version 3, app
/// "NexTerm", the user folders, and every profile with the name of its user
/// folder; with a vault, each user carries the password stored for it.
pub fn build_export_envelope_at(profiles: &Vec<ConnectionProfile>, folders: &Vec<Folder>, exported_at: String, vault: Option<&Vault>) -> (r: ExportEnvelope)
    requires
        vault matches Some(v) ==> v.wf(),
    ensures
        r@ == export_envelope(profiles@, folders@, exported_at@, vault_model(vault)),
{
    let mut exported_folders: Vec<ExportedFolder> = Vec::new();
    let mut i: usize = 0;
    while i < folders.len()
        invariant
            0 <= i <= folders@.len(),
            exported_folders@.map_values(|f: ExportedFolder| f@) == export_folders(folders@.take(i as int)),
        decreases folders@.len() - i,
    {
        proof {
            assert(folders@.take(i as int + 1).drop_last() =~= folders@.take(i as int));
        }
        let f = &folders[i];
        if !f.is_system {
            exported_folders.push(ExportedFolder { name: f.name.clone(), display_order: f.display_order, is_expanded: f.is_expanded });
            proof {
                assert(exported_folders@.map_values(|f: ExportedFolder| f@) =~= export_folders(folders@.take(i as int + 1)));
            }
        }
        i += 1;
    }
    proof {
        assert(folders@.take(folders@.len() as int) =~= folders@);
    }
    let mut exported_profiles: Vec<ExportedProfile> = Vec::new();
    let mut k: usize = 0;
    while k < profiles.len()
        invariant
            0 <= k <= profiles@.len(),
            exported_profiles@.len() == k,
            vault matches Some(v) ==> v.wf(),
            forall|j: int| 0 <= j < k ==> (#[trigger] exported_profiles@[j])@
                == export_profile(profiles@[j], export_folder_name(folders@, profiles@[j]), vault_model(vault)),
        decreases profiles@.len() - k,
    {
        let p = &profiles[k];
        let folder_name: Option<String> = match p.folder_id {
            Some(fid) => match find_folder_last(folders, fid) {
                Some(j) => if folders[j].is_system {
                    None
                } else {
                    Some(folders[j].name.clone())
                },
                None => None,
            },
            None => None,
        };
        assert(opt_view(folder_name) == export_folder_name(folders@, profiles@[k as int]));
        let mut e = ExportedProfile::from_profile(p, folder_name);
        match vault {
            Some(v) => {
                proof {
                    assert(e@.users.len() == e.users@.len());
                    assert(e@.users.len() == p.users@.len());
                    assert forall|j: int| 0 <= j < e.users@.len() implies (#[trigger] e.users@[j])@ == export_user(p.users@[j], None) by {
                        assert(e@.users[j] == e.users@[j]@);
                        assert(e@.users[j] == export_user(p.users@[j], stored_password(None, p.id, p.users@[j].id)));
                    }
                }
                let users = users_with_passwords(&e.users, p, v);
                e.users = users;
                proof {
                    assert(e@.users =~= export_profile(*p, opt_view(e.folder_name), vault_model(vault)).users);
                }
            },
            None => {},
        }
        let ghost pre = exported_profiles@;
        exported_profiles.push(e);
        proof {
            assert(exported_profiles@ == pre.push(e));
        }
        k += 1;
    }
    let r = ExportEnvelope {
        version: 3,
        app: "NexTerm".to_owned(),
        exported_at,
        folders: exported_folders,
        profiles: exported_profiles,
    };
    proof {
        assert(r@.folders =~= export_folders(folders@));
        assert(r@.profiles =~= export_envelope(profiles@, folders@, exported_at@, vault_model(vault)).profiles);
    }
    r
}

/// Build the export envelope stamped with the current time (RFC 3339),
/// without passwords.
pub fn build_export_envelope(profiles: &Vec<ConnectionProfile>, folders: &Vec<Folder>) -> (r: ExportEnvelope)
    ensures
        r@ == export_envelope(profiles@, folders@, r@.exported_at, None),
        is_utc_rfc3339(r@.exported_at),
{
    build_export_envelope_at(profiles, folders, now_rfc3339(), None)
}

/// Check an export request and build its envelope: there must be profiles,
/// and a password when credentials are included. With credentials and an
/// open vault, each user carries its stored password. Also gives the number
/// of profiles.
pub fn prepare_export(
    profiles: &Vec<ConnectionProfile>,
    folders: &Vec<Folder>,
    vault: &Option<Vault>,
    include_credentials: bool,
    export_password: &Option<String>,
) -> (r: Result<(ExportEnvelope, u32), AppError>)
    requires
        (*vault) matches Some(v) ==> v.wf(),
    ensures
        match r {
            Ok((env, count)) => {
                &&& profiles@.len() > 0
                &&& !(include_credentials && export_password is None)
                &&& count == profiles@.len() as u32
                &&& is_utc_rfc3339(env@.exported_at)
                &&& env@ == export_envelope(profiles@, folders@, env@.exported_at,
                    if include_credentials { vault_model_of(*vault) } else { None })
            },
            Err(e) => {
                ||| profiles@.len() == 0 && e@ == AppErrorView::ProfileError("No profiles to export"@)
                ||| profiles@.len() > 0 && include_credentials && export_password is None
                    && e@ == AppErrorView::ProfileError("Export password is required when including credentials"@)
            },
        },
{
    if profiles.len() == 0 {
        return Err(AppError::ProfileError("No profiles to export".to_owned()));
    }
    if include_credentials && export_password.is_none() {
        return Err(AppError::ProfileError("Export password is required when including credentials".to_owned()));
    }
    let source: Option<&Vault> = if include_credentials {
        vault.as_ref()
    } else {
        None
    };
    let env = build_export_envelope_at(profiles, folders, now_rfc3339(), source);
    let count = profiles.len() as u32;
    Ok((env, count))
}

// ─── Encrypted export files ─────────────────────────────

/// The magic bytes that open an encrypted export: "RMKT".
pub open spec fn export_magic() -> Seq<u8> {
    seq![82u8, 77u8, 75u8, 84u8]
}

/// Salt size of an encrypted export.
pub const EXPORT_SALT_SIZE: usize = 32;

/// Nonce size of an encrypted export.
pub const EXPORT_NONCE_SIZE: usize = 12;

/// What decrypting an encrypted export with a password (as UTF-8 bytes)
/// gives: magic(4), salt(32), nonce(12), then ciphertext and tag.
pub open spec fn export_open(data: Seq<u8>, password: Seq<u8>) -> Result<Seq<u8>, AppErrorView> {
    if data.len() < 64 {
        Err(AppErrorView::ProfileError("Encrypted file is too short"@))
    } else if data.take(4) != export_magic() {
        Err(AppErrorView::ProfileError("Not a valid encrypted export file"@))
    } else if password.len() > 0xFFFF_FFFF {
        Err(AppErrorView::ProfileError("Key derivation failed: "@ + "password is too long"@))
    } else {
        match aes256gcm_open(argon2id_key(password, data.subrange(4, 36)), data.subrange(36, 48), data.skip(48)) {
            None => Err(AppErrorView::ProfileError("Wrong export password or corrupted file"@)),
            Some(p) => Ok(p),
        }
    }
}

/// View of a byte result whose error is an `AppError`.
pub open spec fn bytes_result_view(r: Result<Vec<u8>, AppError>) -> Result<Seq<u8>, AppErrorView> {
    match r {
        Ok(b) => Ok(b@),
        Err(e) => Err(e@),
    }
}

/// Derive a 32-byte key from password + salt using Argon2id.
fn derive_export_key(password: &str, salt: &[u8]) -> (r: Result<Vec<u8>, AppError>)
    requires
        8 <= salt@.len() <= 0xFFFF_FFFF,
    ensures
        match r {
            Ok(k) => k@ == argon2id_key(encode_utf8(password@), salt@) && k@.len() == 32
                && encode_utf8(password@).len() <= 0xFFFF_FFFF,
            Err(e) => encode_utf8(password@).len() > 0xFFFF_FFFF
                && e@ == AppErrorView::ProfileError("Key derivation failed: "@ + "password is too long"@),
        },
        encode_utf8(password@).len() <= 0xFFFF_FFFF ==> r is Ok,
{
    let pb = password.as_bytes();
    assert(pb@ == encode_utf8(password@));
    match argon2id_derive(pb, salt) {
        Ok(k) => Ok(k),
        Err(m) => Err(AppError::ProfileError("Key derivation failed: ".to_owned().concat(m.as_str()))),
    }
}

/// Encrypt data for export: magic, a random salt and nonce, then the
/// ciphertext and tag. Decrypting the result with the same password gives
/// the data back.
pub fn encrypt_export_data(plaintext: &[u8], password: &str) -> (r: Result<Vec<u8>, AppError>)
    ensures
        match r {
            Ok(out) => {
                &&& out@.len() == 64 + plaintext@.len()
                &&& out@.take(4) == export_magic()
                &&& export_open(out@, encode_utf8(password@)) == Ok::<Seq<u8>, AppErrorView>(plaintext@)
            },
            Err(e) => {
                ||| encode_utf8(password@).len() > 0xFFFF_FFFF
                    && e@ == AppErrorView::ProfileError("Key derivation failed: "@ + "password is too long"@)
                ||| encode_utf8(password@).len() <= 0xFFFF_FFFF && plaintext@.len() > aes_gcm_max_plaintext()
                    && e@ == AppErrorView::ProfileError("Encryption failed: "@ + "aead::Error"@)
            },
        },
        (encode_utf8(password@).len() <= 0xFFFF_FFFF && plaintext@.len() <= aes_gcm_max_plaintext()) ==> r is Ok,
{
    let salt = random_bytes(EXPORT_SALT_SIZE);
    let key = match derive_export_key(password, salt.as_slice()) {
        Ok(k) => k,
        Err(e) => {
            return Err(e);
        },
    };
    let nonce = random_bytes(EXPORT_NONCE_SIZE);
    let ks = key.as_slice();
    let ns = nonce.as_slice();
    assert(ks@ == key@ && ns@ == nonce@);
    match aes256gcm_encrypt(ks, ns, plaintext) {
        Ok(ct) => {
            let mut out: Vec<u8> = Vec::new();
            out.push(82u8);
            out.push(77u8);
            out.push(75u8);
            out.push(84u8);
            let mut i: usize = 0;
            while i < salt.len()
                invariant
                    0 <= i <= salt@.len(),
                    out@ == export_magic() + salt@.take(i as int),
                decreases salt@.len() - i,
            {
                out.push(salt[i]);
                proof {
                    assert(salt@.take(i as int + 1) =~= salt@.take(i as int).push(salt@[i as int]));
                }
                i += 1;
            }
            let mut j: usize = 0;
            while j < nonce.len()
                invariant
                    0 <= j <= nonce@.len(),
                    out@ == export_magic() + salt@ + nonce@.take(j as int),
                decreases nonce@.len() - j,
            {
                out.push(nonce[j]);
                proof {
                    assert(nonce@.take(j as int + 1) =~= nonce@.take(j as int).push(nonce@[j as int]));
                }
                j += 1;
            }
            let mut k: usize = 0;
            while k < ct.len()
                invariant
                    0 <= k <= ct@.len(),
                    out@ == export_magic() + salt@ + nonce@ + ct@.take(k as int),
                decreases ct@.len() - k,
            {
                out.push(ct[k]);
                proof {
                    assert(ct@.take(k as int + 1) =~= ct@.take(k as int).push(ct@[k as int]));
                }
                k += 1;
            }
            proof {
                assert(salt@.take(32) =~= salt@);
                assert(nonce@.take(12) =~= nonce@);
                assert(ct@.take(ct@.len() as int) =~= ct@);
                assert(out@.take(4) =~= export_magic());
                assert(out@.subrange(4, 36) =~= salt@);
                assert(out@.subrange(36, 48) =~= nonce@);
                assert(out@.skip(48) =~= ct@);
            }
            Ok(out)
        },
        Err(m) => Err(AppError::ProfileError("Encryption failed: ".to_owned().concat(m.as_str()))),
    }
}

/// Whether `data` begins with the encrypted-export magic bytes.
pub fn has_export_magic(data: &[u8]) -> (r: bool)
    ensures
        r == (data@.len() >= 4 && data@.take(4) == export_magic()),
{
    let r = data.len() >= 4 && data[0] == 82u8 && data[1] == 77u8 && data[2] == 75u8 && data[3] == 84u8;
    proof {
        if data@.len() >= 4 {
            assert(r == (data@.take(4) =~= export_magic()));
        }
    }
    r
}

/// Decrypt an encrypted export file.
pub fn decrypt_export_data(data: &[u8], password: &str) -> (r: Result<Vec<u8>, AppError>)
    ensures
        bytes_result_view(r) == export_open(data@, encode_utf8(password@)),
{
    if data.len() < 4 + EXPORT_SALT_SIZE + EXPORT_NONCE_SIZE + 16 {
        return Err(AppError::ProfileError("Encrypted file is too short".to_owned()));
    }
    if !has_export_magic(data) {
        return Err(AppError::ProfileError("Not a valid encrypted export file".to_owned()));
    }
    let (_, rest) = data.split_at(4);
    let (salt, rest2) = rest.split_at(EXPORT_SALT_SIZE);
    let (nonce, ciphertext) = rest2.split_at(EXPORT_NONCE_SIZE);
    proof {
        assert(salt@ =~= data@.subrange(4, 36));
        assert(nonce@ =~= data@.subrange(36, 48));
        assert(ciphertext@ =~= data@.skip(48));
    }
    let key = match derive_export_key(password, salt) {
        Ok(k) => k,
        Err(e) => {
            return Err(e);
        },
    };
    match aes256gcm_decrypt(key.as_slice(), nonce, ciphertext) {
        Ok(p) => Ok(p),
        Err(_) => Err(AppError::ProfileError("Wrong export password or corrupted file".to_owned())),
    }
}

/// The text of an import file: an encrypted export is decrypted with the
/// password (which it needs), and the bytes must be UTF-8.
pub open spec fn import_text(raw: Seq<u8>, password: Option<Seq<u8>>) -> Result<Seq<char>, AppErrorView> {
    if raw.len() >= 4 && raw.take(4) == export_magic() {
        match password {
            None => Err(AppErrorView::ProfileError("Import password is required for encrypted exports"@)),
            Some(pw) => match export_open(raw, pw) {
                Err(e) => Err(e),
                Ok(p) => if valid_utf8(p) {
                    Ok(decode_utf8(p))
                } else {
                    Err(AppErrorView::ProfileError("Invalid decrypted data: "@ + utf8_error_message(p)))
                },
            },
        }
    } else if valid_utf8(raw) {
        Ok(decode_utf8(raw))
    } else {
        Err(AppErrorView::ProfileError("Invalid file encoding: "@ + utf8_error_message(raw)))
    }
}

/// Read the text of an import file, decrypting an encrypted export with the
/// password.
pub fn decode_import_bytes(raw: Vec<u8>, password: Option<&str>) -> (r: Result<String, AppError>)
    ensures
        match r {
            Ok(t) => import_text(raw@, match password { Some(p) => Some(encode_utf8(p@)), None => None }) == Ok::<Seq<char>, AppErrorView>(t@),
            Err(e) => import_text(raw@, match password { Some(p) => Some(encode_utf8(p@)), None => None }) == Err::<Seq<char>, AppErrorView>(e@),
        },
{
    if has_export_magic(raw.as_slice()) {
        let pw = match password {
            Some(p) => p,
            None => {
                return Err(AppError::ProfileError("Import password is required for encrypted exports".to_owned()));
            },
        };
        let decrypted = match decrypt_export_data(raw.as_slice(), pw) {
            Ok(d) => d,
            Err(e) => {
                return Err(e);
            },
        };
        match utf8_to_string(decrypted) {
            Ok(t) => Ok(t),
            Err(m) => Err(AppError::ProfileError("Invalid decrypted data: ".to_owned().concat(m.as_str()))),
        }
    } else {
        match utf8_to_string(raw) {
            Ok(t) => Ok(t),
            Err(m) => Err(AppError::ProfileError("Invalid file encoding: ".to_owned().concat(m.as_str()))),
        }
    }
}

/// Each exported user carries the password the vault holds under that
/// user's own credential name `{profile}:{user}:password`; when nothing is
/// stored there, the profile's legacy password `{profile}:password`; and
/// without a vault no password at all.
pub proof fn law_export_carries_user_passwords(
    ps: Seq<ConnectionProfile>,
    fs: Seq<Folder>,
    exported_at: Seq<char>,
    m: VaultModel,
    k: int,
    j: int,
    v: Seq<char>,
)
    requires
        0 <= k < ps.len(),
        0 <= j < ps[k].users@.len(),
    ensures
        read_spec(m, vault_key_text(ps[k].id, Some(ps[k].users@[j].id), "password"@))
            == Ok::<Option<Seq<char>>, AppErrorView>(Some(v))
            ==> export_envelope(ps, fs, exported_at, Some(m)).profiles[k].users[j].password == Some(v),
        read_spec(m, vault_key_text(ps[k].id, Some(ps[k].users@[j].id), "password"@))
            == Ok::<Option<Seq<char>>, AppErrorView>(None) && read_spec(m, vault_key_text(ps[k].id, None, "password"@))
            == Ok::<Option<Seq<char>>, AppErrorView>(Some(v))
            ==> export_envelope(ps, fs, exported_at, Some(m)).profiles[k].users[j].password == Some(v),
        export_envelope(ps, fs, exported_at, None).profiles[k].users[j].password is None,
        export_envelope(ps, fs, exported_at, Some(m)).profiles[k].users[j].username == ps[k].users@[j].username@,
{
}

} // verus!
