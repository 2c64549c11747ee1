use vstd::prelude::*;
use vstd::string::StrSliceExecFns;
use crate::error::{AppError, ProfileError};
use crate::state::{TunnelConfig, clone_opt_string};
use crate::text::{trim, lowercase, trim_str, to_lowercase, new_uuid, now_micros, is_v4_uuid};
use crate::json::{JsonRoot, JsonRootView, json_root, parse_json_root};

verus! {

/// Raw name of the built-in folder that holds ungrouped profiles.
pub const SYSTEM_FOLDER_NAME: &'static str = "__system__";

// ─── Folder ─────────────────────────────────────────────

/// A named group of connection profiles. `id` is the 128-bit value of its
/// UUID; `created_at` and `updated_at` are microseconds since the Unix epoch.
#[derive(Debug)]
pub struct Folder {
    pub id: u128,
    pub name: String,
    pub display_order: i32,
    pub is_system: bool,
    pub is_expanded: bool,
    pub created_at: i64,
    pub updated_at: i64,
}

impl Clone for Folder {
    fn clone(&self) -> (r: Self)
        ensures
            r == *self,
    {
        Folder {
            id: self.id,
            name: self.name.clone(),
            display_order: self.display_order,
            is_system: self.is_system,
            is_expanded: self.is_expanded,
            created_at: self.created_at,
            updated_at: self.updated_at,
        }
    }
}

impl Folder {
    /// This folder with `is_expanded` set to `e`.
    pub open spec fn with_expanded(self, e: bool) -> Folder {
        Folder { is_expanded: e, ..self }
    }

    /// This folder with `name` and `updated_at` replaced.
    pub open spec fn renamed(self, name: String, updated_at: i64) -> Folder {
        Folder { name: name, updated_at: updated_at, ..self }
    }

    /// This folder with `display_order` set to `o`.
    pub open spec fn with_order(self, o: i32) -> Folder {
        Folder { display_order: o, ..self }
    }
}


// ─── Profiles ───────────────────────────────────────────

/// How a user authenticates.
#[derive(Debug)]
pub enum AuthMethodConfig {
    /// Password fetched from the vault at connect time.
    Password,
    /// Public key auth; the passphrase may be in the vault.
    PublicKey { private_key_path: String, passphrase_in_keychain: bool },
    /// Keyboard-interactive auth.
    KeyboardInteractive,
}

impl Clone for AuthMethodConfig {
    fn clone(&self) -> (r: Self)
        ensures
            r == *self,
    {
        match self {
            AuthMethodConfig::Password => AuthMethodConfig::Password,
            AuthMethodConfig::PublicKey { private_key_path, passphrase_in_keychain } => {
                AuthMethodConfig::PublicKey {
                    private_key_path: private_key_path.clone(),
                    passphrase_in_keychain: *passphrase_in_keychain,
                }
            },
            AuthMethodConfig::KeyboardInteractive => AuthMethodConfig::KeyboardInteractive,
        }
    }
}

/// One user identity of a profile, with its auth configuration.
#[derive(Debug)]
pub struct UserCredential {
    pub id: u128,
    pub username: String,
    pub auth_method: AuthMethodConfig,
    pub is_default: bool,
}

impl Clone for UserCredential {
    fn clone(&self) -> (r: Self)
        ensures
            r == *self,
    {
        UserCredential {
            id: self.id,
            username: self.username.clone(),
            auth_method: self.auth_method.clone(),
            is_default: self.is_default,
        }
    }
}

/// A saved server with its users. `username` and `auth_method` are the
/// fields of the legacy single-user format.
#[derive(Debug)]
pub struct ConnectionProfile {
    pub id: u128,
    pub name: String,
    pub host: String,
    pub port: u16,
    pub username: Option<String>,
    pub auth_method: Option<AuthMethodConfig>,
    pub users: Vec<UserCredential>,
    pub startup_directory: Option<String>,
    pub tunnels: Vec<TunnelConfig>,
    pub display_order: i32,
    pub folder_id: Option<u128>,
    pub created_at: i64,
    pub updated_at: i64,
}

/// Copy of a list of users.
pub fn clone_users(v: &Vec<UserCredential>) -> (r: Vec<UserCredential>)
    ensures
        r@ == v@,
{
    let mut out: Vec<UserCredential> = Vec::new();
    let mut i: usize = 0;
    while i < v.len()
        invariant
            0 <= i <= v.len(),
            out@ == v@.take(i as int),
        decreases v.len() - i,
    {
        out.push(v[i].clone());
        proof {
            assert(v@.take(i as int + 1) == v@.take(i as int).push(v@[i as int]));
        }
        i += 1;
    }
    proof {
        assert(v@.take(v@.len() as int) == v@);
    }
    out
}

/// Copy of a list of tunnel configurations.
pub fn clone_tunnels(v: &Vec<TunnelConfig>) -> (r: Vec<TunnelConfig>)
    ensures
        r@ == v@,
{
    let mut out: Vec<TunnelConfig> = Vec::new();
    let mut i: usize = 0;
    while i < v.len()
        invariant
            0 <= i <= v.len(),
            out@ == v@.take(i as int),
        decreases v.len() - i,
    {
        out.push(v[i].clone());
        proof {
            assert(v@.take(i as int + 1) == v@.take(i as int).push(v@[i as int]));
        }
        i += 1;
    }
    proof {
        assert(v@.take(v@.len() as int) == v@);
    }
    out
}

impl Clone for ConnectionProfile {
    fn clone(&self) -> (r: Self)
        ensures
            r.same_as(*self),
    {
        let auth_method = match &self.auth_method {
            Some(a) => Some(a.clone()),
            None => None,
        };
        let r = ConnectionProfile {
            id: self.id,
            name: self.name.clone(),
            host: self.host.clone(),
            port: self.port,
            username: clone_opt_string(&self.username),
            auth_method,
            users: clone_users(&self.users),
            startup_directory: clone_opt_string(&self.startup_directory),
            tunnels: clone_tunnels(&self.tunnels),
            display_order: self.display_order,
            folder_id: self.folder_id,
            created_at: self.created_at,
            updated_at: self.updated_at,
        };
        proof {
            assert(r.users@ =~= self.users@);
            assert(r.tunnels@ =~= self.tunnels@);
        }
        r
    }
}

impl Default for ConnectionProfile {
    /// A blank profile on port 22 with a fresh id and the current time.
    fn default() -> (r: Self)
        ensures
            r.name@.len() == 0,
            r.host@.len() == 0,
            r.port == 22,
            r.username is None,
            r.auth_method is None,
            r.users@.len() == 0,
            r.startup_directory is None,
            r.tunnels@.len() == 0,
            r.display_order == 0,
            r.folder_id is None,
            is_v4_uuid(r.id),
    {
        ConnectionProfile {
            id: new_uuid(),
            name: String::new(),
            host: String::new(),
            port: 22,
            username: None,
            auth_method: None,
            users: Vec::new(),
            startup_directory: None,
            tunnels: Vec::new(),
            display_order: 0,
            folder_id: None,
            created_at: now_micros(),
            updated_at: now_micros(),
        }
    }
}

impl ConnectionProfile {
    /// Equal field by field, lists compared by their contents.
    pub open spec fn same_as(self, other: ConnectionProfile) -> bool {
        &&& self.id == other.id
        &&& self.name == other.name
        &&& self.host == other.host
        &&& self.port == other.port
        &&& self.username == other.username
        &&& self.auth_method == other.auth_method
        &&& self.users@ == other.users@
        &&& self.startup_directory == other.startup_directory
        &&& self.tunnels@ == other.tunnels@
        &&& self.display_order == other.display_order
        &&& self.folder_id == other.folder_id
        &&& self.created_at == other.created_at
        &&& self.updated_at == other.updated_at
    }

    /// This profile with folder and display order replaced.
    pub open spec fn placed(self, folder: Option<u128>, order: i32) -> ConnectionProfile {
        ConnectionProfile { folder_id: folder, display_order: order, ..self }
    }

    /// This profile with its display order replaced.
    pub open spec fn with_order(self, order: i32) -> ConnectionProfile {
        ConnectionProfile { display_order: order, ..self }
    }
}

/// Folders and profiles as they are persisted together.
#[derive(Debug)]
pub struct ProfilesEnvelope {
    pub folders: Vec<Folder>,
    pub profiles: Vec<ConnectionProfile>,
}

/// Copy of a list of folders.
pub fn clone_folders(v: &Vec<Folder>) -> (r: Vec<Folder>)
    ensures
        r@ == v@,
{
    let mut out: Vec<Folder> = Vec::new();
    let mut i: usize = 0;
    while i < v.len()
        invariant
            0 <= i <= v.len(),
            out@ == v@.take(i as int),
        decreases v.len() - i,
    {
        out.push(v[i].clone());
        proof {
            assert(v@.take(i as int + 1) == v@.take(i as int).push(v@[i as int]));
        }
        i += 1;
    }
    proof {
        assert(v@.take(v@.len() as int) == v@);
    }
    out
}

/// Two lists of profiles that are equal element by element in the sense of
/// `ConnectionProfile::same_as`.
pub open spec fn same_profiles(a: Seq<ConnectionProfile>, b: Seq<ConnectionProfile>) -> bool {
    a.len() == b.len() && forall|i: int| 0 <= i < a.len() ==> (#[trigger] a[i]).same_as(b[i])
}

/// Copy of a list of profiles.
pub fn clone_profiles(v: &Vec<ConnectionProfile>) -> (r: Vec<ConnectionProfile>)
    ensures
        same_profiles(r@, v@),
{
    let mut out: Vec<ConnectionProfile> = Vec::new();
    let mut i: usize = 0;
    while i < v.len()
        invariant
            0 <= i <= v.len(),
            out@.len() == i,
            forall|j: int| 0 <= j < i ==> (#[trigger] out@[j]).same_as(v@[j]),
        decreases v.len() - i,
    {
        out.push(v[i].clone());
        i += 1;
    }
    out
}

impl Clone for ProfilesEnvelope {
    fn clone(&self) -> (r: Self)
        ensures
            r.folders@ == self.folders@,
            same_profiles(r.profiles@, self.profiles@),
    {
        ProfilesEnvelope {
            folders: clone_folders(&self.folders),
            profiles: clone_profiles(&self.profiles),
        }
    }
}

/// Set the display order of the profile at position `k` in place.
fn set_profile_order(v: &mut Vec<ConnectionProfile>, k: usize, o: i32)
    requires
        k < old(v)@.len(),
    ensures
        final(v)@ == old(v)@.update(k as int, old(v)@[k as int].with_order(o)),
{
    v[k].display_order = o;
}

/// Result of deleting a folder: how many profiles moved to the system folder.
#[derive(Debug, Clone, Copy, PartialEq, Eq)]
pub struct DeleteFolderResult {
    pub moved_profile_count: usize,
}

/// Number of users marked as default.
pub open spec fn count_defaults(us: Seq<UserCredential>) -> nat
    decreases us.len(),
{
    if us.len() == 0 {
        0
    } else {
        count_defaults(us.drop_last()) + if us.last().is_default { 1nat } else { 0nat }
    }
}

/// The first problem that `ConnectionProfile::validate` reports, if any.
pub open spec fn profile_problem(p: ConnectionProfile) -> Option<Seq<char>> {
    if trim(p.name@).len() == 0 {
        Some("name is required"@)
    } else if trim(p.host@).len() == 0 {
        Some("hostname is required"@)
    } else if p.port == 0 {
        Some("port must be > 0"@)
    } else if p.users@.len() == 0 {
        Some("profile must have at least one user"@)
    } else if exists|i: int| 0 <= i < p.users@.len() && trim((#[trigger] p.users@[i]).username@).len() == 0 {
        Some("each user must have a username"@)
    } else if count_defaults(p.users@) > 1 {
        Some("only one default user allowed"@)
    } else {
        None
    }
}

impl ConnectionProfile {
    /// Check the fields required before saving: name, host, a non-zero port,
    /// at least one user, a username for each user, at most one default user.
    pub fn validate(&self) -> (r: Result<(), AppError>)
        ensures
            match profile_problem(*self) {
                None => r is Ok,
                Some(m) => r matches Err(AppError::ProfileError(s)) && s@ == m,
            },
    {
        if trim_str(self.name.as_str()).is_empty() {
            return Err(AppError::ProfileError("name is required".to_owned()));
        }
        if trim_str(self.host.as_str()).is_empty() {
            return Err(AppError::ProfileError("hostname is required".to_owned()));
        }
        if self.port == 0 {
            return Err(AppError::ProfileError("port must be > 0".to_owned()));
        }
        if self.users.len() == 0 {
            return Err(AppError::ProfileError("profile must have at least one user".to_owned()));
        }
        let mut i: usize = 0;
        while i < self.users.len()
            invariant
                0 <= i <= self.users.len(),
                forall|j: int| 0 <= j < i ==> trim((#[trigger] self.users@[j]).username@).len() > 0,
                trim(self.name@).len() > 0,
                trim(self.host@).len() > 0,
                self.port != 0,
                self.users@.len() > 0,
            decreases self.users.len() - i,
        {
            if trim_str(self.users[i].username.as_str()).is_empty() {
                assert(trim(self.users@[i as int].username@).len() == 0);
                return Err(AppError::ProfileError("each user must have a username".to_owned()));
            }
            i += 1;
        }
        let mut defaults: usize = 0;
        let mut k: usize = 0;
        while k < self.users.len()
            invariant
                0 <= k <= self.users.len(),
                defaults as nat == count_defaults(self.users@.take(k as int)),
                defaults <= k,
            decreases self.users.len() - k,
        {
            proof {
                assert(self.users@.take(k as int + 1).drop_last() == self.users@.take(k as int));
            }
            if self.users[k].is_default {
                defaults += 1;
            }
            k += 1;
        }
        proof {
            assert(self.users@.take(self.users@.len() as int) == self.users@);
        }
        if defaults > 1 {
            return Err(AppError::ProfileError("only one default user allowed".to_owned()));
        }
        Ok(())
    }

    /// Move the legacy top-level username and auth method into `users`: when
    /// `users` is empty and the legacy username is not empty, one default
    /// user is created from them (auth method `Password` when none was set).
    /// Then the legacy fields are cleared. A profile that already has users
    /// is left untouched.
    pub fn migrate_legacy_fields(&mut self)
        ensures
            old(self).users@.len() > 0 ==> *final(self) == *old(self),
            old(self).users@.len() == 0 ==> {
                &&& final(self).username is None
                &&& final(self).auth_method is None
                &&& final(self).id == old(self).id
                &&& final(self).name == old(self).name
                &&& final(self).host == old(self).host
                &&& final(self).port == old(self).port
                &&& final(self).startup_directory == old(self).startup_directory
                &&& final(self).tunnels == old(self).tunnels
                &&& final(self).display_order == old(self).display_order
                &&& final(self).folder_id == old(self).folder_id
                &&& final(self).created_at == old(self).created_at
                &&& final(self).updated_at == old(self).updated_at
                &&& if old(self).username is Some && old(self).username.unwrap()@.len() > 0 {
                    &&& final(self).users@.len() == 1
                    &&& final(self).users@[0].username == old(self).username.unwrap()
                    &&& final(self).users@[0].is_default
                    &&& final(self).users@[0].auth_method == match old(self).auth_method {
                        Some(a) => a,
                        None => AuthMethodConfig::Password,
                    }
                } else {
                    final(self).users@.len() == 0
                }
            },
    {
        if self.users.len() > 0 {
            return;
        }
        let username = self.username.take();
        let auth_method = self.auth_method.take();
        match username {
            Some(u) => {
                if !u.as_str().is_empty() {
                    let auth = match auth_method {
                        Some(a) => a,
                        None => AuthMethodConfig::Password,
                    };
                    self.users.push(UserCredential { id: new_uuid(), username: u, auth_method: auth, is_default: true });
                }
            },
            None => {},
        }
    }
}

// ─── System folder and format migration ───────────────

/// A folder is a fresh system folder: named `SYSTEM_FOLDER_NAME`, system,
/// expanded, first in order.
pub open spec fn is_fresh_system_folder(f: Folder) -> bool {
    &&& f.name@ == SYSTEM_FOLDER_NAME@
    &&& f.display_order == 0
    &&& f.is_system
    &&& f.is_expanded
    &&& f.created_at == f.updated_at
}

/// Build the system folder that holds ungrouped profiles.
pub fn make_system_folder() -> (r: Folder)
    ensures
        is_fresh_system_folder(r),
        is_v4_uuid(r.id),
{
    let now = now_micros();
    Folder {
        id: new_uuid(),
        name: SYSTEM_FOLDER_NAME.to_owned(),
        display_order: 0,
        is_system: true,
        is_expanded: true,
        created_at: now,
        updated_at: now,
    }
}

/// `make_system_folder`, public for the tests of other modules.
pub fn make_system_folder_for_test() -> (r: Folder)
    ensures
        is_fresh_system_folder(r),
        is_v4_uuid(r.id),
{
    make_system_folder()
}

/// Convert a legacy list of profiles into an envelope: one system folder,
/// every profile in it with display orders 0, 1, 2, … in list order.
pub fn migrate_legacy_to_envelope(profiles: Vec<ConnectionProfile>) -> (r: ProfilesEnvelope)
    requires
        profiles@.len() <= i32::MAX,
    ensures
        r.folders@.len() == 1,
        is_fresh_system_folder(r.folders@[0]),
        r.profiles@ == Seq::new(
            profiles@.len(),
            |i: int| profiles@[i].placed(Some(r.folders@[0].id), i as i32),
        ),
{
    let system_folder = make_system_folder();
    let sys_id = system_folder.id;
    let mut profiles = profiles;
    let ghost ps0 = profiles@;
    let mut i: usize = 0;
    while i < profiles.len()
        invariant
            0 <= i <= profiles.len(),
            profiles@.len() == ps0.len(),
            ps0.len() <= i32::MAX,
            forall|j: int| 0 <= j < i ==> #[trigger] profiles@[j] == ps0[j].placed(Some(sys_id), j as i32),
            forall|j: int| i <= j < ps0.len() ==> #[trigger] profiles@[j] == ps0[j],
        decreases profiles.len() - i,
    {
        profiles[i].folder_id = Some(sys_id);
        profiles[i].display_order = i as i32;
        i += 1;
    }
    let mut folders: Vec<Folder> = Vec::new();
    folders.push(system_folder);
    let r = ProfilesEnvelope { folders, profiles };
    assert(r.profiles@ =~= Seq::new(ps0.len(), |i: int| ps0[i].placed(Some(r.folders@[0].id), i as i32)));
    r
}

/// Turn profiles read in the legacy flat-array format into an envelope: each
/// profile without users but with a legacy username is migrated
/// (`migrate_legacy_fields`), then all go into a new system folder.
pub fn envelope_from_legacy(profiles: Vec<ConnectionProfile>) -> (r: ProfilesEnvelope)
    requires
        profiles@.len() <= i32::MAX,
    ensures
        r.folders@.len() == 1,
        is_fresh_system_folder(r.folders@[0]),
        r.profiles@.len() == profiles@.len(),
        forall|i: int| 0 <= i < profiles@.len() ==> {
            let p = #[trigger] r.profiles@[i];
            &&& p.folder_id == Some(r.folders@[0].id)
            &&& p.display_order == i as i32
            &&& p.id == profiles@[i].id
            &&& p.name == profiles@[i].name
            &&& p.host == profiles@[i].host
            &&& p.port == profiles@[i].port
            &&& (profiles@[i].users@.len() > 0 || profiles@[i].username is None) ==> p.users == profiles@[i].users
            &&& (profiles@[i].users@.len() == 0 && profiles@[i].username is Some) ==> p.username is None
                && p.auth_method is None
        },
{
    let mut profiles = profiles;
    let ghost ps0 = profiles@;
    let mut i: usize = 0;
    while i < profiles.len()
        invariant
            0 <= i <= profiles.len(),
            profiles@.len() == ps0.len(),
            ps0.len() <= i32::MAX,
            forall|j: int| 0 <= j < ps0.len() ==> {
                let p = #[trigger] profiles@[j];
                &&& p.id == ps0[j].id
                &&& p.name == ps0[j].name
                &&& p.host == ps0[j].host
                &&& p.port == ps0[j].port
                &&& (ps0[j].users@.len() > 0 || ps0[j].username is None) ==> p.users == ps0[j].users
                &&& (j < i && ps0[j].users@.len() == 0 && ps0[j].username is Some) ==> p.username is None
                    && p.auth_method is None
            },
            forall|j: int| i <= j < ps0.len() ==> #[trigger] profiles@[j] == ps0[j],
        decreases profiles.len() - i,
    {
        if profiles[i].users.len() == 0 && profiles[i].username.is_some() {
            profiles[i].migrate_legacy_fields();
        }
        i += 1;
    }
    migrate_legacy_to_envelope(profiles)
}

impl ProfilesEnvelope {
    /// Add a system folder when there is none. Returns whether one was added.
    pub fn ensure_system_folder(&mut self) -> (added: bool)
        ensures
            final(self).profiles@ == old(self).profiles@,
            added == !has_system_folder(old(self).folders@),
            !added ==> final(self).folders@ == old(self).folders@,
            added ==> final(self).folders@.len() == old(self).folders@.len() + 1
                && final(self).folders@.drop_last() == old(self).folders@
                && is_fresh_system_folder(final(self).folders@.last()),
            has_system_folder(final(self).folders@),
    {
        let mut i: usize = 0;
        while i < self.folders.len()
            invariant
                0 <= i <= self.folders.len(),
                forall|j: int| 0 <= j < i ==> !(#[trigger] self.folders@[j]).is_system,
            decreases self.folders.len() - i,
        {
            if self.folders[i].is_system {
                return false;
            }
            i += 1;
        }
        self.folders.push(make_system_folder());
        proof {
            assert(self.folders@.drop_last() =~= old(self).folders@);
            let n = self.folders@.len() - 1;
            assert(self.folders@[n].is_system);
        }
        true
    }
}

/// On-disk format of the profiles file.
#[derive(Debug, Clone, Copy, PartialEq, Eq)]
pub enum ProfilesFormat {
    /// Legacy flat array of profiles.
    LegacyArray,
    /// Object with `folders` and `profiles`.
    Envelope,
}

/// Detect the format of the profiles file from its bytes: a JSON array is
/// the legacy format, a JSON object the envelope; anything else is an error.
pub fn detect_profiles_format(bytes: &[u8]) -> (r: Result<ProfilesFormat, AppError>)
    ensures
        match json_root(bytes@) {
            JsonRootView::Array => r == Ok::<ProfilesFormat, AppError>(ProfilesFormat::LegacyArray),
            JsonRootView::Object => r == Ok::<ProfilesFormat, AppError>(ProfilesFormat::Envelope),
            JsonRootView::Invalid(m) => r matches Err(AppError::ProfileError(s))
                && s@ == "Invalid JSON in profiles file: "@ + m,
            JsonRootView::Other(t) => r matches Err(AppError::ProfileError(s))
                && s@ == "Unrecognised profiles.json root shape: "@ + t,
        },
{
    match parse_json_root(bytes) {
        JsonRoot::Array => Ok(ProfilesFormat::LegacyArray),
        JsonRoot::Object => Ok(ProfilesFormat::Envelope),
        JsonRoot::Invalid(m) => {
            let s = "Invalid JSON in profiles file: ".to_owned().concat(m.as_str());
            Err(AppError::ProfileError(s))
        },
        JsonRoot::Other(t) => {
            let s = "Unrecognised profiles.json root shape: ".to_owned().concat(t.as_str());
            Err(AppError::ProfileError(s))
        },
    }
}

/// The ids of a list of folders, in order.
pub open spec fn folder_ids(fs: Seq<Folder>) -> Seq<u128> {
    fs.map_values(|f: Folder| f.id)
}

/// Position of the first folder with the given id.
pub open spec fn folder_pos(fs: Seq<Folder>, id: u128) -> Option<int> {
    folder_ids(fs).index_of_first(id)
}

/// What `folder_pos` tells.
pub open spec fn folder_pos_facts(fs: Seq<Folder>, id: u128) -> bool {
    match folder_pos(fs, id) {
        Some(i) => 0 <= i < fs.len() && fs[i].id == id && forall|j: int| 0 <= j < i ==> fs[j].id != id,
        None => forall|j: int| 0 <= j < fs.len() ==> fs[j].id != id,
    }
}

/// Proof of `folder_pos_facts`.
pub proof fn lemma_folder_pos(fs: Seq<Folder>, id: u128)
    ensures
        folder_pos_facts(fs, id),
{
    lemma_first_facts(folder_ids(fs), id);
    match folder_pos(fs, id) {
        Some(i) => {
            assert(folder_ids(fs)[i] == fs[i].id);
            assert forall|j: int| 0 <= j < i implies fs[j].id != id by {
                assert(folder_ids(fs)[j] == fs[j].id);
            }
        },
        None => {
            assert forall|j: int| 0 <= j < fs.len() implies fs[j].id != id by {
                assert(folder_ids(fs)[j] == fs[j].id);
            }
        },
    }
}

/// The largest `display_order` of a list of folders, or -1 for an empty list.
pub open spec fn max_folder_order(fs: Seq<Folder>) -> int
    decreases fs.len(),
{
    if fs.len() == 0 {
        -1
    } else {
        let m = max_folder_order(fs.drop_last());
        if fs.last().display_order > m { fs.last().display_order as int } else { m }
    }
}

/// A folder name is valid when, trimmed, it is not empty and has at most 64
/// characters.
pub open spec fn valid_folder_name(name: Seq<char>) -> bool {
    trim(name).len() > 0 && trim(name).len() <= 64
}

/// Some folder other than `exclude` has a name equal to `name` ignoring case.
pub open spec fn name_conflict(fs: Seq<Folder>, name: Seq<char>, exclude: Option<u128>) -> bool {
    exists|i: int|
        0 <= i < fs.len() && exclude != Some(#[trigger] fs[i].id) && lowercase(fs[i].name@)
            == lowercase(name)
}

/// `x` occurs in `ids` first at position `i`.
pub proof fn lemma_first_at(ids: Seq<u128>, x: u128, i: int)
    requires
        0 <= i < ids.len(),
        ids[i] == x,
        forall|j: int| 0 <= j < i ==> ids[j] != x,
    ensures
        ids.index_of_first(x) == Some(i),
{
    ids.index_of_first_ensures(x);
    if ids.index_of_first(x) != Some(i) {
        let k = ids.index_of_first(x).unwrap();
        assert(k != i);
    }
}

/// `x` does not occur in `ids`.
pub proof fn lemma_absent(ids: Seq<u128>, x: u128)
    requires
        forall|j: int| 0 <= j < ids.len() ==> ids[j] != x,
    ensures
        ids.index_of_first(x) is None,
{
    ids.index_of_first_ensures(x);
}

/// What `index_of_first` tells of a sequence of ids.
pub proof fn lemma_first_facts(ids: Seq<u128>, x: u128)
    ensures
        match ids.index_of_first(x) {
            Some(i) => 0 <= i < ids.len() && ids[i] == x && forall|j: int| 0 <= j < i ==> ids[j] != x,
            None => forall|j: int| 0 <= j < ids.len() ==> ids[j] != x,
        },
{
    ids.index_of_first_ensures(x);
}

/// Position of the first folder with the given id.
fn find_folder(folders: &Vec<Folder>, id: u128) -> (r: Option<usize>)
    ensures
        match r {
            Some(i) => folder_pos(folders@, id) == Some(i as int) && i < folders@.len()
                && folders@[i as int].id == id,
            None => folder_pos(folders@, id) is None,
        },
        folder_pos_facts(folders@, id),
{
    proof {
        lemma_folder_pos(folders@, id);
    }
    let mut i: usize = 0;
    while i < folders.len()
        invariant
            0 <= i <= folders.len(),
            forall|j: int| 0 <= j < i ==> folders@[j].id != id,
        decreases folders.len() - i,
    {
        if folders[i].id == id {
            proof {
                lemma_first_at(folder_ids(folders@), id, i as int);
            }
            return Some(i);
        }
        i += 1;
    }
    proof {
        lemma_absent(folder_ids(folders@), id);
    }
    None
}


/// Whether `x` occurs in `ids`.
fn ids_contain(ids: &Vec<u128>, x: u128) -> (r: bool)
    ensures
        r == ids@.contains(x),
{
    let mut i: usize = 0;
    while i < ids.len()
        invariant
            0 <= i <= ids.len(),
            forall|j: int| 0 <= j < i ==> ids@[j] != x,
        decreases ids.len() - i,
    {
        if ids[i] == x {
            assert(ids@[i as int] == x);
            return true;
        }
        i += 1;
    }
    false
}

/// The ids of a list of profiles, in order.
pub open spec fn profile_ids(ps: Seq<ConnectionProfile>) -> Seq<u128> {
    ps.map_values(|p: ConnectionProfile| p.id)
}

/// Position of the first profile with the given id.
pub open spec fn profile_pos(ps: Seq<ConnectionProfile>, id: u128) -> Option<int> {
    profile_ids(ps).index_of_first(id)
}

/// What `profile_pos` tells.
pub open spec fn profile_pos_facts(ps: Seq<ConnectionProfile>, id: u128) -> bool {
    match profile_pos(ps, id) {
        Some(i) => 0 <= i < ps.len() && ps[i].id == id && forall|j: int| 0 <= j < i ==> ps[j].id != id,
        None => forall|j: int| 0 <= j < ps.len() ==> ps[j].id != id,
    }
}

/// Proof of `profile_pos_facts`.
pub proof fn lemma_profile_pos(ps: Seq<ConnectionProfile>, id: u128)
    ensures
        profile_pos_facts(ps, id),
{
    lemma_first_facts(profile_ids(ps), id);
    match profile_pos(ps, id) {
        Some(i) => {
            assert(profile_ids(ps)[i] == ps[i].id);
            assert forall|j: int| 0 <= j < i implies ps[j].id != id by {
                assert(profile_ids(ps)[j] == ps[j].id);
            }
        },
        None => {
            assert forall|j: int| 0 <= j < ps.len() implies ps[j].id != id by {
                assert(profile_ids(ps)[j] == ps[j].id);
            }
        },
    }
}

/// Two lists of profiles with the same ids have the same first positions.
pub proof fn lemma_profile_pos_same_ids(a: Seq<ConnectionProfile>, b: Seq<ConnectionProfile>, id: u128)
    requires
        profile_ids(a) == profile_ids(b),
    ensures
        profile_pos(a, id) == profile_pos(b, id),
{
}

/// Position of the first profile with the given id.
pub(crate) fn find_profile(ps: &Vec<ConnectionProfile>, id: u128) -> (r: Option<usize>)
    ensures
        match r {
            Some(i) => profile_pos(ps@, id) == Some(i as int) && i < ps@.len() && ps@[i as int].id == id,
            None => profile_pos(ps@, id) is None,
        },
        profile_pos_facts(ps@, id),
{
    proof {
        lemma_profile_pos(ps@, id);
    }
    let mut i: usize = 0;
    while i < ps.len()
        invariant
            0 <= i <= ps.len(),
            forall|j: int| 0 <= j < i ==> ps@[j].id != id,
            profile_pos_facts(ps@, id),
        decreases ps.len() - i,
    {
        if ps[i].id == id {
            return Some(i);
        }
        i += 1;
    }
    None
}

/// The profile at position `k` after assigning `ids` their positions as
/// display orders: the first profile with a given id takes the last position
/// of that id in `ids`.
pub open spec fn ordered_profile(ps: Seq<ConnectionProfile>, ids: Seq<u128>, k: int) -> ConnectionProfile {
    if profile_pos(ps, ps[k].id) == Some(k) && last_pos(ids, ps[k].id) >= 0 {
        ps[k].with_order(last_pos(ids, ps[k].id) as i32)
    } else {
        ps[k]
    }
}

/// The profiles after assigning `ids` their positions as display orders.
pub open spec fn ordered_profiles(ps: Seq<ConnectionProfile>, ids: Seq<u128>) -> Seq<ConnectionProfile> {
    Seq::new(ps.len(), |k: int| ordered_profile(ps, ids, k))
}

/// Give the first profile with each id of `ids` the position of that id in
/// `ids` as its display order (later positions win).
pub(crate) fn assign_orders(ps: &mut Vec<ConnectionProfile>, ids: &Vec<u128>)
    ensures
        final(ps)@ == ordered_profiles(old(ps)@, ids@),
{
    let ghost ps0 = ps@;
    let mut idx: usize = 0;
    proof {
        assert(ps@ =~= ordered_profiles(ps0, ids@.take(0)));
    }
    while idx < ids.len()
        invariant
            0 <= idx <= ids.len(),
            ps@ == ordered_profiles(ps0, ids@.take(idx as int)),
            profile_ids(ps@) == profile_ids(ps0),
        decreases ids.len() - idx,
    {
        let ghost before = ps@;
        let ghost pre = ids@.take(idx as int);
        let ghost post = ids@.take(idx as int + 1);
        let x = ids[idx];
        proof {
            assert(post.drop_last() == pre);
            assert(post.last() == x);
            lemma_profile_pos_same_ids(ps@, ps0, x);
        }
        match find_profile(ps, x) {
            Some(p) => {
                set_profile_order(ps, p, idx as i32);
                proof {
                    assert forall|k: int| 0 <= k < ps0.len() implies #[trigger] ps@[k] == ordered_profile(ps0, post, k) by {
                        assert(ps0[k].id == before[k].id) by {
                            assert(profile_ids(before)[k] == profile_ids(ps0)[k]);
                        }
                        lemma_profile_pos_same_ids(before, ps0, ps0[k].id);
                    }
                    assert(ps@ =~= ordered_profiles(ps0, post));
                    assert(profile_ids(ps@) =~= profile_ids(ps0));
                }
            },
            None => {
                proof {
                    assert forall|k: int| 0 <= k < ps0.len() implies #[trigger] ps@[k] == ordered_profile(ps0, post, k) by {
                        assert(profile_ids(before)[k] == profile_ids(ps0)[k]);
                        lemma_profile_pos_same_ids(before, ps0, ps0[k].id);
                    }
                    assert(ps@ =~= ordered_profiles(ps0, post));
                }
            },
        }
        idx += 1;
    }
    proof {
        assert(ids@.take(ids@.len() as int) == ids@);
    }
}

/// `(id, display_order)` of the profiles of folder `f`, in list order.
pub open spec fn folder_entries(ps: Seq<ConnectionProfile>, f: u128) -> Seq<(u128, i32)>
    decreases ps.len(),
{
    if ps.len() == 0 {
        Seq::empty()
    } else {
        let e = folder_entries(ps.drop_last(), f);
        if ps.last().folder_id == Some(f) {
            e.push((ps.last().id, ps.last().display_order))
        } else {
            e
        }
    }
}

/// The ids of a list of entries.
pub open spec fn entry_ids(s: Seq<(u128, i32)>) -> Seq<u128> {
    s.map_values(|e: (u128, i32)| e.0)
}

/// Position of the first entry whose order is greater than `o`, or the length.
pub open spec fn first_greater(s: Seq<(u128, i32)>, o: i32) -> int
    decreases s.len(),
{
    if s.len() == 0 {
        0
    } else if s[0].1 > o {
        0
    } else {
        1 + first_greater(s.drop_first(), o)
    }
}

/// Stable sort of entries by display order: each entry, taken in list order,
/// goes after all entries already placed whose order is not greater.
pub open spec fn sort_by_order(s: Seq<(u128, i32)>) -> Seq<(u128, i32)>
    decreases s.len(),
{
    if s.len() == 0 {
        s
    } else {
        let t = sort_by_order(s.drop_last());
        t.insert(first_greater(t, s.last().1), s.last())
    }
}

/// `first_greater` is a position of the list, or its length.
pub proof fn lemma_first_greater_bounds(s: Seq<(u128, i32)>, o: i32)
    ensures
        0 <= first_greater(s, o) <= s.len(),
    decreases s.len(),
{
    if s.len() > 0 && s[0].1 <= o {
        lemma_first_greater_bounds(s.drop_first(), o);
    }
}

/// `first_greater` is the first position whose order exceeds `o`.
pub proof fn lemma_first_greater_at(s: Seq<(u128, i32)>, o: i32, p: int)
    requires
        0 <= p <= s.len(),
        forall|j: int| 0 <= j < p ==> s[j].1 <= o,
        p == s.len() || s[p].1 > o,
    ensures
        first_greater(s, o) == p,
    decreases p,
{
    if p > 0 {
        lemma_first_greater_at(s.drop_first(), o, p - 1);
    }
}

/// Sorting keeps the length.
pub proof fn lemma_sort_len(s: Seq<(u128, i32)>)
    ensures
        sort_by_order(s).len() == s.len(),
    decreases s.len(),
{
    if s.len() > 0 {
        lemma_sort_len(s.drop_last());
        lemma_first_greater_bounds(sort_by_order(s.drop_last()), s.last().1);
    }
}

/// Stable sort by display order.
fn sort_entries(v: &Vec<(u128, i32)>) -> (r: Vec<(u128, i32)>)
    ensures
        r@ == sort_by_order(v@),
{
    let mut out: Vec<(u128, i32)> = Vec::new();
    let mut i: usize = 0;
    while i < v.len()
        invariant
            0 <= i <= v.len(),
            out@ == sort_by_order(v@.take(i as int)),
        decreases v.len() - i,
    {
        let x = v[i];
        let mut p: usize = 0;
        while p < out.len() && out[p].1 <= x.1
            invariant
                0 <= p <= out.len(),
                forall|j: int| 0 <= j < p ==> out@[j].1 <= x.1,
            decreases out.len() - p,
        {
            p += 1;
        }
        proof {
            lemma_first_greater_at(out@, x.1, p as int);
            let post = v@.take(i as int + 1);
            assert(post.drop_last() == v@.take(i as int));
            assert(post.last() == x);
        }
        out.insert(p, x);
        i += 1;
    }
    proof {
        assert(v@.take(v@.len() as int) == v@);
    }
    out
}

/// Largest display order among the profiles of folder `f`, or -1.
pub open spec fn max_in_folder(ps: Seq<ConnectionProfile>, f: u128) -> int
    decreases ps.len(),
{
    if ps.len() == 0 {
        -1
    } else {
        let m = max_in_folder(ps.drop_last(), f);
        if ps.last().folder_id == Some(f) && ps.last().display_order > m {
            ps.last().display_order as int
        } else {
            m
        }
    }
}

/// Largest display order is at least -1 and at most `i32::MAX`.
pub proof fn lemma_max_in_folder_bounds(ps: Seq<ConnectionProfile>, f: u128)
    ensures
        -1 <= max_in_folder(ps, f) <= i32::MAX,
    decreases ps.len(),
{
    if ps.len() > 0 {
        lemma_max_in_folder_bounds(ps.drop_last(), f);
    }
}

/// The profile at position `k` after moving the profiles whose ids are listed
/// into folder `sys`: the first profile with a listed id takes `base` plus
/// the last position of its id as its order.
pub open spec fn moved_profile(ps: Seq<ConnectionProfile>, ids: Seq<u128>, sys: u128, base: int, k: int) -> ConnectionProfile {
    if profile_pos(ps, ps[k].id) == Some(k) && last_pos(ids, ps[k].id) >= 0 {
        ps[k].placed(Some(sys), (base + last_pos(ids, ps[k].id)) as i32)
    } else {
        ps[k]
    }
}

/// The profiles after moving the listed ones into folder `sys`.
pub open spec fn moved_profiles(ps: Seq<ConnectionProfile>, ids: Seq<u128>, sys: u128, base: int) -> Seq<ConnectionProfile> {
    Seq::new(ps.len(), |k: int| moved_profile(ps, ids, sys, base, k))
}

/// Move the first profile with each listed id into folder `sys`, with order
/// `base` plus the id's position in the list (later positions win).
fn move_entries(ps: &mut Vec<ConnectionProfile>, ids: &Vec<u128>, sys: u128, base: i32)
    requires
        0 <= base,
        base + ids@.len() <= i32::MAX + 1,
    ensures
        final(ps)@ == moved_profiles(old(ps)@, ids@, sys, base as int),
{
    let ghost ps0 = ps@;
    let mut idx: usize = 0;
    proof {
        assert(ps@ =~= moved_profiles(ps0, ids@.take(0), sys, base as int));
    }
    while idx < ids.len()
        invariant
            0 <= idx <= ids.len(),
            0 <= base,
            base + ids@.len() <= i32::MAX + 1,
            ps@ == moved_profiles(ps0, ids@.take(idx as int), sys, base as int),
            profile_ids(ps@) == profile_ids(ps0),
        decreases ids.len() - idx,
    {
        let ghost before = ps@;
        let ghost post = ids@.take(idx as int + 1);
        let x = ids[idx];
        proof {
            assert(post.drop_last() == ids@.take(idx as int));
            assert(post.last() == x);
            lemma_profile_pos_same_ids(ps@, ps0, x);
        }
        match find_profile(ps, x) {
            Some(p) => {
                let o = base + idx as i32;
                ps[p].folder_id = Some(sys);
                ps[p].display_order = o;
                proof {
                    assert forall|k: int| 0 <= k < ps0.len() implies #[trigger] ps@[k] == moved_profile(ps0, post, sys, base as int, k) by {
                        assert(profile_ids(before)[k] == profile_ids(ps0)[k]);
                    }
                    assert(ps@ =~= moved_profiles(ps0, post, sys, base as int));
                    assert(profile_ids(ps@) =~= profile_ids(ps0));
                }
            },
            None => {
                proof {
                    assert forall|k: int| 0 <= k < ps0.len() implies #[trigger] ps@[k] == moved_profile(ps0, post, sys, base as int, k) by {
                        assert(profile_ids(before)[k] == profile_ids(ps0)[k]);
                    }
                    assert(ps@ =~= moved_profiles(ps0, post, sys, base as int));
                }
            },
        }
        idx += 1;
    }
    proof {
        assert(ids@.take(ids@.len() as int) == ids@);
    }
}

/// Entries of the profiles of folder `f`.
fn collect_folder_entries(ps: &Vec<ConnectionProfile>, f: u128) -> (r: Vec<(u128, i32)>)
    ensures
        r@ == folder_entries(ps@, f),
        r@.len() <= ps@.len(),
{
    let mut out: Vec<(u128, i32)> = Vec::new();
    let mut k: usize = 0;
    while k < ps.len()
        invariant
            0 <= k <= ps.len(),
            out@ == folder_entries(ps@.take(k as int), f),
            out@.len() <= k,
        decreases ps.len() - k,
    {
        proof {
            assert(ps@.take(k as int + 1).drop_last() == ps@.take(k as int));
        }
        if ps[k].folder_id == Some(f) {
            out.push((ps[k].id, ps[k].display_order));
        }
        k += 1;
    }
    proof {
        assert(ps@.take(ps@.len() as int) == ps@);
    }
    out
}

/// Ids of a list of entries.
fn ids_of_entries(v: &Vec<(u128, i32)>) -> (r: Vec<u128>)
    ensures
        r@ == entry_ids(v@),
{
    let mut out: Vec<u128> = Vec::new();
    let mut i: usize = 0;
    while i < v.len()
        invariant
            0 <= i <= v.len(),
            out@ == entry_ids(v@.take(i as int)),
        decreases v.len() - i,
    {
        out.push(v[i].0);
        proof {
            assert(entry_ids(v@.take(i as int + 1)) =~= entry_ids(v@.take(i as int)).push(v@[i as int].0));
        }
        i += 1;
    }
    proof {
        assert(v@.take(v@.len() as int) == v@);
    }
    out
}

/// Position of the last occurrence of `x` in `s`, or -1.
pub open spec fn last_pos(s: Seq<u128>, x: u128) -> int
    decreases s.len(),
{
    if s.len() == 0 {
        -1
    } else if s.last() == x {
        s.len() - 1
    } else {
        last_pos(s.drop_last(), x)
    }
}

/// Facts on `last_pos`.
pub proof fn lemma_last_pos(s: Seq<u128>, x: u128)
    ensures
        -1 <= last_pos(s, x) < s.len(),
        last_pos(s, x) >= 0 ==> s[last_pos(s, x)] == x,
        last_pos(s, x) == -1 <==> !s.contains(x),
    decreases s.len(),
{
    if s.len() > 0 {
        lemma_last_pos(s.drop_last(), x);
        if s.last() != x && s.contains(x) {
            let j = choose|j: int| 0 <= j < s.len() && s[j] == x;
            assert(s.drop_last()[j] == x);
        }
    }
}

/// The folder at position `k` after `reorder_folders(ids)`: the first folder
/// with a given id takes the last position of that id in `ids` as its order.
pub open spec fn reordered_folder(fs: Seq<Folder>, ids: Seq<u128>, k: int) -> Folder {
    if folder_pos(fs, fs[k].id) == Some(k) && last_pos(ids, fs[k].id) >= 0 {
        fs[k].with_order(last_pos(ids, fs[k].id) as i32)
    } else {
        fs[k]
    }
}

/// The folders after `reorder_folders(ids)`.
pub open spec fn reordered_folders(fs: Seq<Folder>, ids: Seq<u128>) -> Seq<Folder> {
    Seq::new(fs.len(), |k: int| reordered_folder(fs, ids, k))
}

/// Some id of `ids` is not the id of any folder.
pub open spec fn has_unknown_folder(fs: Seq<Folder>, ids: Seq<u128>) -> bool {
    exists|t: int| 0 <= t < ids.len() && !folder_ids(fs).contains(#[trigger] ids[t])
}

/// `ids` does not list exactly the folders: its length differs from the
/// folder count, or some folder's id is missing from it.
pub open spec fn incomplete_folder_order(fs: Seq<Folder>, ids: Seq<u128>) -> bool {
    ids.len() != fs.len() || exists|k: int| 0 <= k < fs.len() && !ids.contains(#[trigger] fs[k].id)
}

/// `ids` does not list exactly the profiles of folder `f`: its length differs
/// from their count, or some profile of the folder is missing from it.
pub open spec fn incomplete_profile_order(ps: Seq<ConnectionProfile>, f: u128, ids: Seq<u128>) -> bool {
    ids.len() != count_in_folder(ps, f) || exists|k: int|
        0 <= k < ps.len() && ps[k].folder_id == Some(f) && !ids.contains(#[trigger] ps[k].id)
}

/// Position of the first system folder.
pub open spec fn system_pos(fs: Seq<Folder>) -> int
    decreases fs.len(),
{
    if fs.len() == 0 {
        -1
    } else if system_pos(fs.drop_last()) >= 0 {
        system_pos(fs.drop_last())
    } else if fs.last().is_system {
        fs.len() - 1
    } else {
        -1
    }
}

/// Facts on `system_pos`.
pub proof fn lemma_system_pos(fs: Seq<Folder>)
    ensures
        -1 <= system_pos(fs) < fs.len(),
        system_pos(fs) >= 0 ==> fs[system_pos(fs)].is_system && forall|j: int|
            0 <= j < system_pos(fs) ==> !fs[j].is_system,
        system_pos(fs) == -1 ==> forall|j: int| 0 <= j < fs.len() ==> !fs[j].is_system,
    decreases fs.len(),
{
    if fs.len() > 0 {
        lemma_system_pos(fs.drop_last());
        assert forall|j: int| 0 <= j < fs.len() - 1 implies fs.drop_last()[j] == fs[j] by {}
    }
}

/// The envelope holds a system folder.
pub open spec fn has_system_folder(fs: Seq<Folder>) -> bool {
    exists|j: int| 0 <= j < fs.len() && (#[trigger] fs[j]).is_system
}

/// The error, if any, that `reorder_profiles_in_folder` reports for one id.
pub open spec fn entry_error(ps: Seq<ConnectionProfile>, f: u128, pid: u128) -> Option<ProfileError> {
    match profile_pos(ps, pid) {
        None => Some(ProfileError::ProfileNotFound),
        Some(i) => if ps[i].folder_id != Some(f) {
            Some(ProfileError::ProfileFolderMismatch)
        } else {
            None
        },
    }
}

/// The error of the first id of `ids` that has one.
pub open spec fn first_entry_error(ps: Seq<ConnectionProfile>, f: u128, ids: Seq<u128>) -> Option<
    ProfileError,
>
    decreases ids.len(),
{
    if ids.len() == 0 {
        None
    } else {
        match first_entry_error(ps, f, ids.drop_last()) {
            Some(e) => Some(e),
            None => entry_error(ps, f, ids.last()),
        }
    }
}

/// Number of profiles assigned to folder `f`.
pub open spec fn count_in_folder(ps: Seq<ConnectionProfile>, f: u128) -> nat
    decreases ps.len(),
{
    if ps.len() == 0 {
        0
    } else {
        count_in_folder(ps.drop_last(), f) + if ps.last().folder_id == Some(f) { 1nat } else { 0nat }
    }
}

/// The first error of `ids.take(t + 1)` is that of `ids.take(t)`, or else that
/// of `ids[t]`.
pub proof fn lemma_first_error_extends(ps: Seq<ConnectionProfile>, f: u128, ids: Seq<u128>, t: int)
    requires
        0 <= t < ids.len(),
    ensures
        first_entry_error(ps, f, ids.take(t + 1)) == match first_entry_error(ps, f, ids.take(t)) {
            Some(e) => Some(e),
            None => entry_error(ps, f, ids[t]),
        },
{
    assert(ids.take(t + 1).drop_last() == ids.take(t));
}

/// Once a prefix of `ids` has an error, the first error of `ids` is that one.
pub proof fn lemma_first_error_prefix(ps: Seq<ConnectionProfile>, f: u128, ids: Seq<u128>, m: int)
    requires
        0 <= m <= ids.len(),
        first_entry_error(ps, f, ids.take(m)) is Some,
    ensures
        first_entry_error(ps, f, ids) == first_entry_error(ps, f, ids.take(m)),
    decreases ids.len(),
{
    if m == ids.len() {
        assert(ids.take(m) == ids);
    } else {
        assert(ids.drop_last().take(m) == ids.take(m));
        lemma_first_error_prefix(ps, f, ids.drop_last(), m);
    }
}

/// The profiles after `delete_folder(f)`: those of `f`, sorted stably by
/// display order, are appended to the system folder `sys`.
pub open spec fn after_folder_delete(ps: Seq<ConnectionProfile>, f: u128, sys: u128) -> Seq<ConnectionProfile> {
    moved_profiles(ps, entry_ids(sort_by_order(folder_entries(ps, f))), sys, max_in_folder(ps, sys) + 1)
}

/// The folders after `delete_folder(f)`: without `f` when it is a user
/// folder, unchanged otherwise.
pub open spec fn folders_after_delete(fs: Seq<Folder>, f: u128) -> Seq<Folder> {
    match folder_pos(fs, f) {
        Some(i) => if fs[i].is_system { fs } else { fs.remove(i) },
        None => fs,
    }
}

/// `fs` holds exactly one system folder, at position `j`.
pub open spec fn only_system_folder_at(fs: Seq<Folder>, j: int) -> bool {
    &&& 0 <= j < fs.len()
    &&& fs[j].is_system
    &&& forall|k: int| 0 <= k < fs.len() && #[trigger] fs[k].is_system ==> k == j
}

/// `delete_folder(f)` on these folders and profiles stays within `i32`.
pub open spec fn delete_fits(fs: Seq<Folder>, ps: Seq<ConnectionProfile>, f: u128) -> bool {
    folder_entries(ps, f).len() > 0 ==> max_in_folder(ps, fs[system_pos(fs)].id) + folder_entries(ps, f).len()
        <= i32::MAX
}

/// The folder the profile `pid` is in, if any: a profile with no folder is
/// in none, so moving it into a folder is a move into another folder.
pub open spec fn current_folder(ps: Seq<ConnectionProfile>, pid: u128) -> Option<u128> {
    match profile_pos(ps, pid) {
        Some(i) => ps[i].folder_id,
        None => None,
    }
}

/// Where a profile moved within its own folder is reinserted.
pub open spec fn insert_index(new_order: i32, len: int) -> int {
    if new_order < 0 {
        len
    } else if (new_order as int) < len {
        new_order as int
    } else {
        len
    }
}

/// Ids of the target folder's profiles in their new order when the profile
/// `pid` moves within that folder to position `new_order`.
pub open spec fn same_folder_order(ps: Seq<ConnectionProfile>, pid: u128, target: u128, new_order: i32) -> Seq<u128> {
    let ids = entry_ids(sort_by_order(folder_entries(ps, target)));
    let rest = ids.remove(ids.index_of_first(pid).unwrap());
    rest.insert(insert_index(new_order, rest.len() as int), pid)
}

/// The profile at position `k` after moving `pid` into another folder
/// `target` at `new_order`: the target's profiles at or after that order
/// shift down by one.
pub open spec fn cross_moved_profile(ps: Seq<ConnectionProfile>, pid: u128, target: u128, new_order: i32, k: int) -> ConnectionProfile {
    if profile_pos(ps, pid) == Some(k) {
        ps[k].placed(Some(target), new_order)
    } else if ps[k].folder_id == Some(target) && ps[k].display_order >= new_order {
        ps[k].with_order((ps[k].display_order + 1) as i32)
    } else {
        ps[k]
    }
}

/// The profiles after moving `pid` into another folder `target`.
pub open spec fn cross_moved_profiles(ps: Seq<ConnectionProfile>, pid: u128, target: u128, new_order: i32) -> Seq<ConnectionProfile> {
    Seq::new(ps.len(), |k: int| cross_moved_profile(ps, pid, target, new_order, k))
}

/// The inputs on which `move_profile_to_folder` completes: a move within the
/// folder needs the profile among the folder's profiles, and a move into
/// another folder must not shift an order past `i32::MAX`.
pub open spec fn move_defined(fs: Seq<Folder>, ps: Seq<ConnectionProfile>, pid: u128, target: u128, new_order: i32) -> bool {
    folder_ids(fs).contains(target) && profile_ids(ps).contains(pid) ==> if current_folder(ps, pid) == Some(target) {
        entry_ids(sort_by_order(folder_entries(ps, target))).contains(pid)
    } else {
        forall|k: int| 0 <= k < ps.len() && ps[k].folder_id == Some(target) && ps[k].display_order >= new_order
            ==> ps[k].display_order < i32::MAX
    }
}

/// Trim a proposed folder name and check it: not empty, at most 64 characters.
pub fn validate_folder_name(name: &str) -> (r: Result<String, ProfileError>)
    ensures
        match r {
            Ok(t) => valid_folder_name(name@) && t@ == trim(name@),
            Err(e) => !valid_folder_name(name@) && e == ProfileError::InvalidName,
        },
{
    let trimmed = trim_str(name);
    let char_len = trimmed.unicode_len();
    if char_len == 0 || char_len > 64 {
        return Err(ProfileError::InvalidName);
    }
    Ok(trimmed.to_owned())
}

impl ProfilesEnvelope {
    /// Whether a folder other than `exclude_id` already has `name`, ignoring case.
    pub fn name_conflicts(&self, name: &str, exclude_id: Option<u128>) -> (r: bool)
        ensures
            r == name_conflict(self.folders@, name@, exclude_id),
    {
        let lower = to_lowercase(name);
        let mut i: usize = 0;
        while i < self.folders.len()
            invariant
                0 <= i <= self.folders.len(),
                lower@ == lowercase(name@),
                forall|j: int|
                    0 <= j < i ==> !(exclude_id != Some(#[trigger] self.folders@[j].id)
                        && lowercase(self.folders@[j].name@) == lowercase(name@)),
            decreases self.folders.len() - i,
        {
            let f = &self.folders[i];
            let skip = match exclude_id {
                Some(eid) => f.id == eid,
                None => false,
            };
            if !skip {
                let fl = to_lowercase(f.name.as_str());
                if fl == lower {
                    assert(exclude_id != Some(self.folders@[i as int].id)
                        && lowercase(self.folders@[i as int].name@) == lowercase(name@));
                    return true;
                }
            }
            i += 1;
        }
        false
    }

    /// Id of the first system folder.
    pub fn system_folder_id(&self) -> (r: u128)
        requires
            has_system_folder(self.folders@),
        ensures
            system_pos(self.folders@) >= 0,
            r == self.folders@[system_pos(self.folders@)].id,
    {
        proof {
            lemma_system_pos(self.folders@);
        }
        let mut i: usize = 0;
        while i < self.folders.len()
            invariant
                0 <= i <= self.folders.len(),
                forall|j: int| 0 <= j < i ==> !self.folders@[j].is_system,
                has_system_folder(self.folders@),
                -1 <= system_pos(self.folders@) < self.folders@.len(),
                system_pos(self.folders@) >= 0 ==> self.folders@[system_pos(self.folders@)].is_system
                    && forall|j: int| 0 <= j < system_pos(self.folders@) ==> !self.folders@[j].is_system,
                system_pos(self.folders@) == -1 ==> forall|j: int| 0 <= j < self.folders@.len() ==> !self.folders@[j].is_system,
            decreases self.folders.len() - i,
        {
            if self.folders[i].is_system {
                return self.folders[i].id;
            }
            i += 1;
        }
        proof {
            let j = choose|j: int| 0 <= j < self.folders@.len() && (#[trigger] self.folders@[j]).is_system;
            assert(false);
        }
        0
    }

    /// Set the expand/collapse state of a folder. Setting the current value is
    /// allowed.
    pub fn set_folder_expanded(&mut self, folder_id: u128, expanded: bool) -> (r: Result<
        (),
        ProfileError,
    >)
        ensures
            match folder_pos(old(self).folders@, folder_id) {
                Some(i) => r is Ok && final(self).folders@ == old(self).folders@.update(
                    i,
                    old(self).folders@[i].with_expanded(expanded),
                ),
                None => r == Err::<(), ProfileError>(ProfileError::FolderNotFound)
                    && final(self).folders@ == old(self).folders@,
            },
            final(self).profiles@ == old(self).profiles@,
    {
        match find_folder(&self.folders, folder_id) {
            Some(i) => {
                self.folders[i].is_expanded = expanded;
                Ok(())
            },
            None => Err(ProfileError::FolderNotFound),
        }
    }

    /// Create a user folder. The name is trimmed and must be valid and not
    /// equal, ignoring case, to an existing folder's name. The new folder
    /// comes after all others (`display_order` one more than the largest, or 0)
    /// and starts expanded.
    pub fn create_folder(&mut self, name: String) -> (r: Result<Folder, ProfileError>)
        requires
            max_folder_order(old(self).folders@) < i32::MAX,
        ensures
            final(self).profiles@ == old(self).profiles@,
            !valid_folder_name(name@) ==> r == Err::<Folder, ProfileError>(ProfileError::InvalidName)
                && final(self).folders@ == old(self).folders@,
            valid_folder_name(name@) && name_conflict(old(self).folders@, trim(name@), None)
                ==> r == Err::<Folder, ProfileError>(ProfileError::DuplicateName)
                && final(self).folders@ == old(self).folders@,
            valid_folder_name(name@) && !name_conflict(old(self).folders@, trim(name@), None)
                ==> r is Ok,
            r matches Ok(f) ==> {
                &&& f.name@ == trim(name@)
                &&& is_v4_uuid(f.id)
                &&& f.display_order == max_folder_order(old(self).folders@) + 1
                &&& !f.is_system
                &&& f.is_expanded
                &&& f.created_at == f.updated_at
                &&& final(self).folders@ == old(self).folders@.push(f)
            },
    {
        let trimmed = validate_folder_name(name.as_str())?;
        if self.name_conflicts(trimmed.as_str(), None) {
            return Err(ProfileError::DuplicateName);
        }
        let mut max_order: i32 = -1;
        let mut i: usize = 0;
        while i < self.folders.len()
            invariant
                0 <= i <= self.folders.len(),
                max_order as int == max_folder_order(self.folders@.take(i as int)),
            decreases self.folders.len() - i,
        {
            proof {
                assert(self.folders@.take(i as int + 1).drop_last() == self.folders@.take(i as int));
            }
            if self.folders[i].display_order > max_order {
                max_order = self.folders[i].display_order;
            }
            i += 1;
        }
        proof {
            assert(self.folders@.take(self.folders@.len() as int) == self.folders@);
        }
        let now = now_micros();
        let folder = Folder {
            id: new_uuid(),
            name: trimmed,
            display_order: max_order + 1,
            is_system: false,
            is_expanded: true,
            created_at: now,
            updated_at: now,
        };
        let result = folder.clone();
        self.folders.push(folder);
        Ok(result)
    }

    /// Rename a user folder. The name is checked first, then that the folder
    /// exists and is not the system folder, then for a duplicate name among
    /// the other folders (a case change of its own name is allowed).
    pub fn rename_folder(&mut self, folder_id: u128, new_name: String) -> (r: Result<
        Folder,
        ProfileError,
    >)
        ensures
            final(self).profiles@ == old(self).profiles@,
            r is Err ==> final(self).folders@ == old(self).folders@,
            !valid_folder_name(new_name@) ==> r == Err::<Folder, ProfileError>(ProfileError::InvalidName),
            valid_folder_name(new_name@) && folder_pos(old(self).folders@, folder_id) is None
                ==> r == Err::<Folder, ProfileError>(ProfileError::FolderNotFound),
            valid_folder_name(new_name@) ==> (folder_pos(old(self).folders@, folder_id) matches Some(i)
                ==> {
                let f = old(self).folders@[i];
                &&& f.is_system ==> r == Err::<Folder, ProfileError>(ProfileError::SystemFolderProtected)
                &&& !f.is_system && name_conflict(old(self).folders@, trim(new_name@), Some(folder_id))
                    ==> r == Err::<Folder, ProfileError>(ProfileError::DuplicateName)
                &&& !f.is_system && !name_conflict(old(self).folders@, trim(new_name@), Some(folder_id))
                    ==> (r matches Ok(g) && g == f.renamed(g.name, g.updated_at) && g.name@ == trim(new_name@)
                        && final(self).folders@ == old(self).folders@.update(i, g))
            }),
    {
        let trimmed = validate_folder_name(new_name.as_str())?;
        let i = match find_folder(&self.folders, folder_id) {
            Some(i) => i,
            None => return Err(ProfileError::FolderNotFound),
        };
        if self.folders[i].is_system {
            return Err(ProfileError::SystemFolderProtected);
        }
        if self.name_conflicts(trimmed.as_str(), Some(folder_id)) {
            return Err(ProfileError::DuplicateName);
        }
        let now = now_micros();
        self.folders[i].name = trimmed;
        self.folders[i].updated_at = now;
        Ok(self.folders[i].clone())
    }

    /// Delete a user folder. Its profiles move to the system folder, after
    /// the profiles already there, in the order of their display orders (ties
    /// kept in list order). Returns how many profiles moved.
    pub fn delete_folder(&mut self, folder_id: u128) -> (r: Result<DeleteFolderResult, ProfileError>)
        requires
            folder_pos(old(self).folders@, folder_id) matches Some(i) && !old(self).folders@[i].is_system
                ==> has_system_folder(old(self).folders@) && delete_fits(
                old(self).folders@,
                old(self).profiles@,
                folder_id,
            ),
        ensures
            final(self).folders@ == folders_after_delete(old(self).folders@, folder_id),
            r is Err ==> final(self).folders@ == old(self).folders@ && final(self).profiles@ == old(
                self,
            ).profiles@,
            folder_pos(old(self).folders@, folder_id) is None ==> r == Err::<
                DeleteFolderResult,
                ProfileError,
            >(ProfileError::FolderNotFound),
            folder_pos(old(self).folders@, folder_id) matches Some(i) ==> (if old(self).folders@[i].is_system {
                r == Err::<DeleteFolderResult, ProfileError>(ProfileError::SystemFolderProtected)
            } else {
                let sys = old(self).folders@[system_pos(old(self).folders@)].id;
                &&& r matches Ok(d) && d.moved_profile_count == folder_entries(old(self).profiles@, folder_id).len()
                &&& final(self).folders@ == old(self).folders@.remove(i)
                &&& final(self).profiles@ == after_folder_delete(old(self).profiles@, folder_id, sys)
            }),
    {
        let i = match find_folder(&self.folders, folder_id) {
            Some(i) => i,
            None => return Err(ProfileError::FolderNotFound),
        };
        if self.folders[i].is_system {
            return Err(ProfileError::SystemFolderProtected);
        }
        let sys_id = self.system_folder_id();
        let entries = collect_folder_entries(&self.profiles, folder_id);
        let sorted = sort_entries(&entries);
        proof {
            lemma_sort_len(entries@);
        }
        let moved_count = sorted.len();
        if moved_count > 0 {
            let mut sys_max: i32 = -1;
            let mut k: usize = 0;
            while k < self.profiles.len()
                invariant
                    0 <= k <= self.profiles.len(),
                    sys_max as int == max_in_folder(self.profiles@.take(k as int), sys_id),
                decreases self.profiles.len() - k,
            {
                proof {
                    assert(self.profiles@.take(k as int + 1).drop_last() == self.profiles@.take(k as int));
                }
                if self.profiles[k].folder_id == Some(sys_id) && self.profiles[k].display_order > sys_max {
                    sys_max = self.profiles[k].display_order;
                }
                k += 1;
            }
            proof {
                assert(self.profiles@.take(self.profiles@.len() as int) == self.profiles@);
                lemma_max_in_folder_bounds(self.profiles@, sys_id);
            }
            let ids = ids_of_entries(&sorted);
            move_entries(&mut self.profiles, &ids, sys_id, sys_max + 1);
        } else {
            proof {
                assert(entry_ids(sorted@).len() == 0);
                assert(self.profiles@ =~= after_folder_delete(old(self).profiles@, folder_id, sys_id));
            }
        }
        self.folders.remove(i);
        Ok(DeleteFolderResult { moved_profile_count: moved_count })
    }

    /// Move a profile to a folder at a position. Into another folder, the
    /// target's profiles at or after `new_order` shift by one and the profile
    /// takes `new_order`. Within its own folder, the folder's profiles (sorted
    /// by order) are renumbered from 0 with the profile reinserted at
    /// `new_order` (at the end if `new_order` is negative or past the end).
    pub fn move_profile_to_folder(&mut self, profile_id: u128, target_folder_id: u128, new_order: i32) -> (r:
        Result<(), ProfileError>)
        requires
            move_defined(old(self).folders@, old(self).profiles@, profile_id, target_folder_id, new_order),
        ensures
            final(self).folders@ == old(self).folders@,
            r is Err ==> final(self).profiles@ == old(self).profiles@,
            !folder_ids(old(self).folders@).contains(target_folder_id) ==> r == Err::<(), ProfileError>(
                ProfileError::FolderNotFound,
            ),
            folder_ids(old(self).folders@).contains(target_folder_id) && !profile_ids(
                old(self).profiles@,
            ).contains(profile_id) ==> r == Err::<(), ProfileError>(ProfileError::ProfileNotFound),
            folder_ids(old(self).folders@).contains(target_folder_id) && profile_ids(
                old(self).profiles@,
            ).contains(profile_id) ==> r is Ok && final(self).profiles@ == if current_folder(old(self).profiles@, profile_id) == Some(
                target_folder_id,
            ) {
                ordered_profiles(
                    old(self).profiles@,
                    same_folder_order(old(self).profiles@, profile_id, target_folder_id, new_order),
                )
            } else {
                cross_moved_profiles(old(self).profiles@, profile_id, target_folder_id, new_order)
            },
    {
        if find_folder(&self.folders, target_folder_id).is_none() {
            proof {
                assert forall|j: int| 0 <= j < folder_ids(self.folders@).len()
                    implies folder_ids(self.folders@)[j] != target_folder_id by {}
            }
            return Err(ProfileError::FolderNotFound);
        }
        proof {
            lemma_folder_pos(self.folders@, target_folder_id);
            let i = folder_pos(self.folders@, target_folder_id).unwrap();
            assert(folder_ids(self.folders@)[i] == target_folder_id);
        }
        let pos = match find_profile(&self.profiles, profile_id) {
            Some(p) => p,
            None => {
                proof {
                    assert forall|j: int| 0 <= j < profile_ids(self.profiles@).len()
                        implies profile_ids(self.profiles@)[j] != profile_id by {}
                }
                return Err(ProfileError::ProfileNotFound);
            },
        };
        proof {
            assert(profile_ids(self.profiles@)[pos as int] == profile_id);
        }
        if self.profiles[pos].folder_id == Some(target_folder_id) {
            let entries = collect_folder_entries(&self.profiles, target_folder_id);
            let sorted = sort_entries(&entries);
            let mut ids = ids_of_entries(&sorted);
            let mut cp: usize = 0;
            while cp < ids.len() && ids[cp] != profile_id
                invariant
                    0 <= cp <= ids.len(),
                    forall|j: int| 0 <= j < cp ==> ids@[j] != profile_id,
                decreases ids.len() - cp,
            {
                cp += 1;
            }
            proof {
                ids@.index_of_first_ensures(profile_id);
                if cp == ids@.len() {
                    let j = choose|j: int| 0 <= j < ids@.len() && ids@[j] == profile_id;
                    assert(false);
                }
                lemma_first_at(ids@, profile_id, cp as int);
            }
            ids.remove(cp);
            let len = ids.len();
            let insert_pos: usize = if new_order < 0 {
                len
            } else if (new_order as usize) < len {
                new_order as usize
            } else {
                len
            };
            ids.insert(insert_pos, profile_id);
            assign_orders(&mut self.profiles, &ids);
        } else {
            let ghost ps0 = self.profiles@;
            let mut k: usize = 0;
            while k < self.profiles.len()
                invariant
                    0 <= k <= self.profiles.len(),
                    self.profiles@.len() == ps0.len(),
                    self.folders@ == old(self).folders@,
                    pos < ps0.len(),
                    ps0[pos as int].folder_id != Some(target_folder_id),
                    move_defined(old(self).folders@, ps0, profile_id, target_folder_id, new_order),
                    current_folder(ps0, profile_id) != Some(target_folder_id),
                    folder_ids(old(self).folders@).contains(target_folder_id),
                    profile_ids(ps0).contains(profile_id),
                    forall|j: int| 0 <= j < k && j != pos ==> #[trigger] self.profiles@[j] == cross_moved_profile(ps0, profile_id, target_folder_id, new_order, j),
                    forall|j: int| k <= j < ps0.len() ==> #[trigger] self.profiles@[j] == ps0[j],
                    self.profiles@[pos as int] == ps0[pos as int],
                    profile_pos(ps0, profile_id) == Some(pos as int),
                decreases self.profiles.len() - k,
            {
                if self.profiles[k].folder_id == Some(target_folder_id) && self.profiles[k].display_order >= new_order {
                    let o = self.profiles[k].display_order + 1;
                    self.profiles[k].display_order = o;
                }
                k += 1;
            }
            self.profiles[pos].folder_id = Some(target_folder_id);
            self.profiles[pos].display_order = new_order;
            proof {
                assert(self.profiles@ =~= cross_moved_profiles(ps0, profile_id, target_folder_id, new_order));
            }
        }
        Ok(())
    }

    /// Reorder all folders: each folder's `display_order` becomes its
    /// position in `ordered_ids`. Every id must be a folder's
    /// (`FolderNotFound`), and the list must hold exactly the folders: as
    /// long as the folder list, with every folder's id (`IncompleteReorder`).
    pub fn reorder_folders(&mut self, ordered_ids: Vec<u128>) -> (r: Result<(), ProfileError>)
        ensures
            final(self).profiles@ == old(self).profiles@,
            has_unknown_folder(old(self).folders@, ordered_ids@) ==> r == Err::<(), ProfileError>(
                ProfileError::FolderNotFound,
            ) && final(self).folders@ == old(self).folders@,
            !has_unknown_folder(old(self).folders@, ordered_ids@) && incomplete_folder_order(
                old(self).folders@,
                ordered_ids@,
            ) ==> r == Err::<(), ProfileError>(ProfileError::IncompleteReorder) && final(self).folders@
                == old(self).folders@,
            !has_unknown_folder(old(self).folders@, ordered_ids@) && !incomplete_folder_order(
                old(self).folders@,
                ordered_ids@,
            ) ==> r is Ok && final(self).folders@ == reordered_folders(
                old(self).folders@,
                ordered_ids@,
            ),
    {
        let mut t: usize = 0;
        while t < ordered_ids.len()
            invariant
                0 <= t <= ordered_ids.len(),
                forall|u: int| 0 <= u < t ==> folder_ids(self.folders@).contains(#[trigger] ordered_ids@[u]),
            decreases ordered_ids.len() - t,
        {
            match find_folder(&self.folders, ordered_ids[t]) {
                Some(i) => {
                    assert(folder_ids(self.folders@)[i as int] == ordered_ids@[t as int]);
                },
                None => {
                    proof {
                        assert forall|j: int| 0 <= j < folder_ids(self.folders@).len()
                            implies folder_ids(self.folders@)[j] != ordered_ids@[t as int] by {}
                        assert(!folder_ids(self.folders@).contains(ordered_ids@[t as int]));
                    }
                    return Err(ProfileError::FolderNotFound);
                },
            }
            t += 1;
        }
        if ordered_ids.len() != self.folders.len() {
            return Err(ProfileError::IncompleteReorder);
        }
        let mut m: usize = 0;
        while m < self.folders.len()
            invariant
                0 <= m <= self.folders.len(),
                forall|j: int| 0 <= j < m ==> ordered_ids@.contains(#[trigger] self.folders@[j].id),
                forall|u: int|
                    0 <= u < ordered_ids.len() ==> folder_ids(self.folders@).contains(#[trigger] ordered_ids@[u]),
                self.folders@ == old(self).folders@,
                self.profiles@ == old(self).profiles@,
            decreases self.folders.len() - m,
        {
            if !ids_contain(&ordered_ids, self.folders[m].id) {
                proof {
                    assert(!ordered_ids@.contains(self.folders@[m as int].id));
                }
                return Err(ProfileError::IncompleteReorder);
            }
            m += 1;
        }
        let ghost fs0 = self.folders@;
        let ghost ids = ordered_ids@;
        let mut idx: usize = 0;
        proof {
            assert(self.folders@ =~= reordered_folders(fs0, ids.take(0)));
        }
        while idx < ordered_ids.len()
            invariant
                0 <= idx <= ordered_ids.len(),
                ids == ordered_ids@,
                self.folders@ == reordered_folders(fs0, ids.take(idx as int)),
                folder_ids(self.folders@) == folder_ids(fs0),
                self.profiles@ == old(self).profiles@,
                fs0 == old(self).folders@,
            decreases ordered_ids.len() - idx,
        {
            let ghost before = self.folders@;
            let ghost post = ids.take(idx as int + 1);
            let x = ordered_ids[idx];
            proof {
                assert(post.drop_last() == ids.take(idx as int));
                assert(post.last() == x);
            }
            match find_folder(&self.folders, x) {
                Some(p) => {
                    self.folders[p].display_order = idx as i32;
                    proof {
                        assert forall|k: int| 0 <= k < fs0.len() implies #[trigger] self.folders@[k]
                            == reordered_folder(fs0, post, k) by {
                            assert(folder_ids(before)[k] == folder_ids(fs0)[k]);
                        }
                        assert(self.folders@ =~= reordered_folders(fs0, post));
                        assert(folder_ids(self.folders@) =~= folder_ids(fs0));
                    }
                },
                None => {
                    proof {
                        assert forall|k: int| 0 <= k < fs0.len() implies #[trigger] self.folders@[k]
                            == reordered_folder(fs0, post, k) by {
                            assert(folder_ids(before)[k] == folder_ids(fs0)[k]);
                        }
                        assert(self.folders@ =~= reordered_folders(fs0, post));
                    }
                },
            }
            idx += 1;
        }
        proof {
            assert(ids.take(ids.len() as int) == ids);
        }
        Ok(())
    }

    /// Reorder the profiles of one folder: each listed profile's
    /// `display_order` becomes its position in the list. The folder must
    /// exist; each id must be a profile's (`ProfileNotFound`) that belongs to
    /// the folder (`ProfileFolderMismatch`), checked in list order; the list
    /// must hold exactly the folder's profiles: as long as their count, with
    /// every one of their ids (`IncompleteReorder`).
    pub fn reorder_profiles_in_folder(&mut self, folder_id: u128, ordered_profile_ids: Vec<u128>) -> (r:
        Result<(), ProfileError>)
        ensures
            final(self).folders@ == old(self).folders@,
            r is Err ==> final(self).profiles@ == old(self).profiles@,
            folder_pos(old(self).folders@, folder_id) is None ==> r == Err::<(), ProfileError>(
                ProfileError::FolderNotFound,
            ),
            folder_pos(old(self).folders@, folder_id) is Some ==> match first_entry_error(
                old(self).profiles@,
                folder_id,
                ordered_profile_ids@,
            ) {
                Some(e) => r == Err::<(), ProfileError>(e),
                None => if incomplete_profile_order(old(self).profiles@, folder_id, ordered_profile_ids@) {
                    r == Err::<(), ProfileError>(ProfileError::IncompleteReorder)
                } else {
                    r is Ok && final(self).profiles@ == ordered_profiles(
                        old(self).profiles@,
                        ordered_profile_ids@,
                    )
                },
            },
    {
        if find_folder(&self.folders, folder_id).is_none() {
            return Err(ProfileError::FolderNotFound);
        }
        let mut t: usize = 0;
        while t < ordered_profile_ids.len()
            invariant
                0 <= t <= ordered_profile_ids.len(),
                first_entry_error(self.profiles@, folder_id, ordered_profile_ids@.take(t as int)) is None,
                folder_pos(self.folders@, folder_id) is Some,
                self.profiles@ == old(self).profiles@,
                self.folders@ == old(self).folders@,
            decreases ordered_profile_ids.len() - t,
        {
            let pid = ordered_profile_ids[t];
            proof {
                let pre = ordered_profile_ids@.take(t as int);
                let post = ordered_profile_ids@.take(t as int + 1);
                assert(post.drop_last() == pre);
                assert(post.last() == pid);
            }
            match find_profile(&self.profiles, pid) {
                None => {
                    proof {
                        lemma_first_error_extends(self.profiles@, folder_id, ordered_profile_ids@, t as int);
                        lemma_first_error_prefix(self.profiles@, folder_id, ordered_profile_ids@, t as int + 1);
                    }
                    return Err(ProfileError::ProfileNotFound);
                },
                Some(i) => {
                    if self.profiles[i].folder_id != Some(folder_id) {
                        proof {
                            lemma_first_error_extends(self.profiles@, folder_id, ordered_profile_ids@, t as int);
                            lemma_first_error_prefix(self.profiles@, folder_id, ordered_profile_ids@, t as int + 1);
                        }
                        return Err(ProfileError::ProfileFolderMismatch);
                    }
                },
            }
            t += 1;
        }
        proof {
            assert(ordered_profile_ids@.take(ordered_profile_ids@.len() as int) == ordered_profile_ids@);
        }
        let mut count: usize = 0;
        let mut k: usize = 0;
        while k < self.profiles.len()
            invariant
                0 <= k <= self.profiles.len(),
                count as nat == count_in_folder(self.profiles@.take(k as int), folder_id),
                count <= k,
                first_entry_error(self.profiles@, folder_id, ordered_profile_ids@) is None,
                folder_pos(self.folders@, folder_id) is Some,
                self.profiles@ == old(self).profiles@,
                self.folders@ == old(self).folders@,
            decreases self.profiles.len() - k,
        {
            proof {
                assert(self.profiles@.take(k as int + 1).drop_last() == self.profiles@.take(k as int));
            }
            if self.profiles[k].folder_id == Some(folder_id) {
                count += 1;
            }
            k += 1;
        }
        proof {
            assert(self.profiles@.take(self.profiles@.len() as int) == self.profiles@);
        }
        if ordered_profile_ids.len() != count {
            return Err(ProfileError::IncompleteReorder);
        }
        let mut m: usize = 0;
        while m < self.profiles.len()
            invariant
                0 <= m <= self.profiles.len(),
                forall|j: int|
                    0 <= j < m && self.profiles@[j].folder_id == Some(folder_id) ==> ordered_profile_ids@.contains(
                        #[trigger] self.profiles@[j].id,
                    ),
                self.profiles@ == old(self).profiles@,
                self.folders@ == old(self).folders@,
                folder_pos(self.folders@, folder_id) is Some,
                first_entry_error(self.profiles@, folder_id, ordered_profile_ids@) is None,
                ordered_profile_ids@.len() == count_in_folder(self.profiles@, folder_id),
            decreases self.profiles.len() - m,
        {
            if self.profiles[m].folder_id == Some(folder_id) && !ids_contain(&ordered_profile_ids, self.profiles[m].id) {
                proof {
                    assert(!ordered_profile_ids@.contains(self.profiles@[m as int].id));
                }
                return Err(ProfileError::IncompleteReorder);
            }
            m += 1;
        }
        assign_orders(&mut self.profiles, &ordered_profile_ids);
        Ok(())
    }
}


// ─── Loading and backup ─────────────────────────────────

/// The envelope of a missing or empty profiles file: a fresh system folder
/// and no profiles.
pub fn empty_envelope() -> (r: ProfilesEnvelope)
    ensures
        r.folders@.len() == 1,
        is_fresh_system_folder(r.folders@[0]),
        is_v4_uuid(r.folders@[0].id),
        r.profiles@.len() == 0,
{
    let mut folders: Vec<Folder> = Vec::new();
    folders.push(make_system_folder());
    ProfilesEnvelope { folders, profiles: Vec::new() }
}

/// What reading the profiles file gave.
pub enum ProfilesFile {
    /// There is no file.
    Missing,
    /// The file could not be read; the error's message.
    Unreadable(String),
    /// The file's bytes.
    Bytes(Vec<u8>),
}

/// How loading goes on after the profiles file was read.
pub enum LoadPlan {
    /// Use this envelope (a missing or empty file).
    Fresh(ProfilesEnvelope),
    /// Parse the bytes as a legacy flat array, then migrate them.
    ParseLegacy,
    /// Parse the bytes as an envelope, then heal it.
    ParseEnvelope,
}

/// Decide how to load the profiles from what reading their file gave: a
/// missing or empty file gives a fresh envelope; an unreadable file, bytes
/// that are not JSON, or a JSON root that is neither an array nor an object
/// are errors; an array is the legacy format; an object the envelope.
pub fn plan_profiles_load(file: &ProfilesFile) -> (r: Result<LoadPlan, AppError>)
    ensures
        match *file {
            ProfilesFile::Missing => r matches Ok(LoadPlan::Fresh(e)) && e.folders@.len() == 1 && is_fresh_system_folder(
                e.folders@[0],
            ) && e.profiles@.len() == 0,
            ProfilesFile::Unreadable(m) => r matches Err(AppError::ProfileError(s)) && s@ == "Failed to read profiles file: "@
                + m@,
            ProfilesFile::Bytes(b) => if b@.len() == 0 {
                r matches Ok(LoadPlan::Fresh(e)) && e.folders@.len() == 1 && is_fresh_system_folder(e.folders@[0])
                    && e.profiles@.len() == 0
            } else {
                match json_root(b@) {
                    JsonRootView::Array => r matches Ok(LoadPlan::ParseLegacy),
                    JsonRootView::Object => r matches Ok(LoadPlan::ParseEnvelope),
                    JsonRootView::Invalid(m) => r matches Err(AppError::ProfileError(s))
                        && s@ == "Invalid JSON in profiles file: "@ + m,
                    JsonRootView::Other(t) => r matches Err(AppError::ProfileError(s))
                        && s@ == "Unrecognised profiles.json root shape: "@ + t,
                }
            },
        },
{
    match file {
        ProfilesFile::Missing => Ok(LoadPlan::Fresh(empty_envelope())),
        ProfilesFile::Unreadable(m) => Err(
            AppError::ProfileError("Failed to read profiles file: ".to_owned().concat(m.as_str())),
        ),
        ProfilesFile::Bytes(b) => {
            if b.len() == 0 {
                return Ok(LoadPlan::Fresh(empty_envelope()));
            }
            match detect_profiles_format(b.as_slice()) {
                Ok(ProfilesFormat::LegacyArray) => Ok(LoadPlan::ParseLegacy),
                Ok(ProfilesFormat::Envelope) => Ok(LoadPlan::ParseEnvelope),
                Err(e) => Err(e),
            }
        },
    }
}

/// Name of the backup written before a legacy profiles file is migrated:
/// `profiles.backup.json`, or, when that file exists already,
/// `profiles.backup.{stamp}.json`.
pub fn backup_file_name(primary_exists: bool, stamp: &str) -> (r: String)
    ensures
        !primary_exists ==> r@ == "profiles.backup.json"@,
        primary_exists ==> r@ == "profiles.backup."@ + stamp@ + ".json"@,
{
    if primary_exists {
        "profiles.backup.".to_owned().concat(stamp).concat(".json")
    } else {
        "profiles.backup.json".to_owned()
    }
}

/// The shape of a `%Y%m%d_%H%M%S` stamp: at least 15 characters (a year of
/// at least four, then month and day of two each), ending in `_` and the
/// six digits of hour, minute and second.
pub open spec fn is_backup_stamp(s: Seq<char>) -> bool {
    &&& s.len() >= 15
    &&& s[s.len() - 7] == '_'
    &&& forall|i: int| s.len() - 6 <= i < s.len() ==> '0' <= #[trigger] s[i] <= '9'
}

/// Calls `chrono::Utc::now().format("%Y%m%d_%H%M%S")`. chrono writes the
/// year with at least four digits and month, day, hour, minute and second
/// with two zero-padded digits each, so the text has the shape of
/// `is_backup_stamp`; which time it shows depends on the clock and is not
/// stated.
#[verifier::external_body]
fn utc_backup_stamp() -> (r: String)
    ensures
        is_backup_stamp(r@),
{
    chrono::Utc::now().format("%Y%m%d_%H%M%S").to_string()
}

/// The backup name to use now: the clock is read only when the plain name
/// is taken, and then the name carries the current UTC time stamp.
pub fn backup_file_name_now(primary_exists: bool) -> (r: String)
    ensures
        !primary_exists ==> r@ == "profiles.backup.json"@,
        primary_exists ==> exists|stamp: Seq<char>| is_backup_stamp(stamp) && r@ == "profiles.backup."@ + stamp + ".json"@,
{
    if primary_exists {
        let stamp = utc_backup_stamp();
        backup_file_name(true, stamp.as_str())
    } else {
        backup_file_name(false, "")
    }
}


// ─── Laws ───────────────────────────────────────────────

/// Deleting a folder, whether it succeeds or not, keeps exactly one system
/// folder: the same one, with its id and name.
pub proof fn law_delete_keeps_the_system_folder(fs: Seq<Folder>, f: u128, j: int)
    requires
        only_system_folder_at(fs, j),
    ensures
        exists|k: int| {
            &&& only_system_folder_at(folders_after_delete(fs, f), k)
            &&& #[trigger] folders_after_delete(fs, f)[k] == fs[j]
        },
{
    let after = folders_after_delete(fs, f);
    match folder_pos(fs, f) {
        Some(i) => {
            lemma_folder_pos(fs, f);
            if fs[i].is_system {
                assert(after[j] == fs[j]);
            } else {
                assert(i != j);
                let k = if j < i { j } else { j - 1 };
                assert(after[k] == fs[j]);
                assert forall|m: int| 0 <= m < after.len() && #[trigger] after[m].is_system implies m == k by {
                    if m < i {
                        assert(after[m] == fs[m]);
                    } else {
                        assert(after[m] == fs[m + 1]);
                    }
                }
                assert(only_system_folder_at(after, k));
            }
        },
        None => {
            assert(after[j] == fs[j]);
        },
    }
}

/// Setting a folder's expanded state twice to the same value leaves the
/// folders as setting it once did.
pub proof fn law_set_folder_expanded_idempotent(fs: Seq<Folder>, folder_id: u128, expanded: bool)
    ensures
        folder_pos(fs, folder_id) matches Some(i) ==> {
            let once = fs.update(i, fs[i].with_expanded(expanded));
            &&& folder_pos(once, folder_id) == Some(i)
            &&& once.update(i, once[i].with_expanded(expanded)) == once
        },
{
    if let Some(i) = folder_pos(fs, folder_id) {
        lemma_folder_pos(fs, folder_id);
        let once = fs.update(i, fs[i].with_expanded(expanded));
        assert(folder_ids(once) =~= folder_ids(fs));
        assert(once.update(i, once[i].with_expanded(expanded)) =~= once);
    }
}

/// A folder created and then deleted leaves the folder list as it was, and,
/// since no profile is in a new folder yet, the profiles too.
pub proof fn law_create_then_delete(fs: Seq<Folder>, ps: Seq<ConnectionProfile>, f: Folder, sys: u128)
    requires
        !folder_ids(fs).contains(f.id),
        forall|k: int| 0 <= k < ps.len() ==> (#[trigger] ps[k]).folder_id != Some(f.id),
    ensures
        folder_pos(fs.push(f), f.id) == Some(fs.len() as int),
        fs.push(f).remove(fs.len() as int) == fs,
        folder_entries(ps, f.id).len() == 0,
        after_folder_delete(ps, f.id, sys) == ps,
{
    lemma_folder_pos(fs.push(f), f.id);
    assert forall|j: int| 0 <= j < fs.len() implies fs.push(f)[j].id != f.id by {
        assert(folder_ids(fs)[j] == fs[j].id);
    }
    assert(fs.push(f)[fs.len() as int].id == f.id);
    assert(fs.push(f).remove(fs.len() as int) =~= fs);
    lemma_no_entries(ps, f.id);
    let after = after_folder_delete(ps, f.id, sys);
    assert(entry_ids(sort_by_order(folder_entries(ps, f.id))) =~= Seq::<u128>::empty());
    assert forall|k: int| 0 <= k < ps.len() implies #[trigger] after[k] == ps[k] by {
        assert(last_pos(Seq::<u128>::empty(), ps[k].id) == -1);
    }
    assert(after =~= ps);
}

proof fn lemma_no_entries(ps: Seq<ConnectionProfile>, f: u128)
    requires
        forall|k: int| 0 <= k < ps.len() ==> (#[trigger] ps[k]).folder_id != Some(f),
    ensures
        folder_entries(ps, f).len() == 0,
    decreases ps.len(),
{
    if ps.len() > 0 {
        assert forall|k: int| 0 <= k < ps.len() - 1 implies (#[trigger] ps.drop_last()[k]).folder_id != Some(f) by {
            assert(ps.drop_last()[k] == ps[k]);
        }
        lemma_no_entries(ps.drop_last(), f);
        assert(ps.last() == ps[ps.len() - 1]);
    }
}

/// An entry is in `folder_entries(ps, f)` exactly when some profile of the
/// folder has its id and order.
proof fn lemma_folder_entries_contains(ps: Seq<ConnectionProfile>, f: u128, e: (u128, i32))
    ensures
        folder_entries(ps, f).contains(e) <==> exists|k: int|
            0 <= k < ps.len() && (#[trigger] ps[k]).folder_id == Some(f) && ps[k].id == e.0 && ps[k].display_order
                == e.1,
    decreases ps.len(),
{
    if ps.len() > 0 {
        lemma_folder_entries_contains(ps.drop_last(), f, e);
        let prev = folder_entries(ps.drop_last(), f);
        let last = ps.last();
        if folder_entries(ps, f).contains(e) {
            if prev.contains(e) {
                let k = choose|k: int|
                    0 <= k < ps.len() - 1 && (#[trigger] ps.drop_last()[k]).folder_id == Some(f) && ps.drop_last()[k].id
                        == e.0 && ps.drop_last()[k].display_order == e.1;
                assert(ps[k] == ps.drop_last()[k]);
            } else {
                assert(last.folder_id == Some(f));
                let j = choose|j: int| 0 <= j < prev.push((last.id, last.display_order)).len()
                    && prev.push((last.id, last.display_order))[j] == e;
                if j < prev.len() {
                    assert(prev[j] == e);
                }
                assert(ps[ps.len() - 1] == last);
            }
        }
        if exists|k: int|
            0 <= k < ps.len() && (#[trigger] ps[k]).folder_id == Some(f) && ps[k].id == e.0 && ps[k].display_order
                == e.1 {
            let k = choose|k: int|
                0 <= k < ps.len() && (#[trigger] ps[k]).folder_id == Some(f) && ps[k].id == e.0 && ps[k].display_order
                    == e.1;
            if k < ps.len() - 1 {
                assert(ps.drop_last()[k] == ps[k]);
                assert(prev.contains(e));
                let j = choose|j: int| 0 <= j < prev.len() && prev[j] == e;
                if last.folder_id == Some(f) {
                    assert(prev.push((last.id, last.display_order))[j] == e);
                }
            } else {
                assert(ps[k] == last);
                assert(prev.push((last.id, last.display_order))[prev.len() as int] == e);
            }
        }
    }
}

/// Sorting entries by order keeps exactly the same entries.
proof fn lemma_sort_contains(s: Seq<(u128, i32)>, e: (u128, i32))
    ensures
        sort_by_order(s).contains(e) <==> s.contains(e),
    decreases s.len(),
{
    if s.len() > 0 {
        lemma_sort_contains(s.drop_last(), e);
        let t = sort_by_order(s.drop_last());
        let p = first_greater(t, s.last().1);
        lemma_first_greater_bounds(t, s.last().1);
        let u = t.insert(p, s.last());
        if u.contains(e) {
            let j = choose|j: int| 0 <= j < u.len() && u[j] == e;
            if j < p {
                assert(t[j] == e);
            } else if j > p {
                assert(t[j - 1] == e);
            }
            if e != s.last() {
                assert(t.contains(e));
                let i = choose|i: int| 0 <= i < s.len() - 1 && s.drop_last()[i] == e;
                assert(s[i] == e);
            } else {
                assert(s[s.len() - 1] == e);
            }
        }
        if s.contains(e) {
            let i = choose|i: int| 0 <= i < s.len() && s[i] == e;
            if i == s.len() - 1 {
                assert(u[p] == e);
            } else {
                assert(s.drop_last()[i] == e);
                assert(t.contains(e));
                let j = choose|j: int| 0 <= j < t.len() && t[j] == e;
                if j < p {
                    assert(u[j] == e);
                } else {
                    assert(u[j + 1] == e);
                }
            }
        }
    }
}

/// Ids of entries: an id is listed exactly when some entry has it.
proof fn lemma_entry_ids_contains(s: Seq<(u128, i32)>, id: u128)
    ensures
        entry_ids(s).contains(id) <==> exists|o: i32| s.contains((id, o)),
{
    if entry_ids(s).contains(id) {
        let j = choose|j: int| 0 <= j < entry_ids(s).len() && entry_ids(s)[j] == id;
        assert(s[j].0 == id);
        assert(s.contains((id, s[j].1)));
    }
    if exists|o: i32| s.contains((id, o)) {
        let o = choose|o: i32| s.contains((id, o));
        let j = choose|j: int| 0 <= j < s.len() && s[j] == (id, o);
        assert(entry_ids(s)[j] == id);
    }
}

/// Deleting a folder leaves none of its profiles behind: with distinct
/// profile ids, every profile that was in the folder is in the system folder
/// afterwards, every other profile keeps its folder, and the list keeps its
/// length and its ids in order.
pub proof fn law_delete_folder_moves_all(ps: Seq<ConnectionProfile>, f: u128, sys: u128)
    requires
        profile_ids(ps).no_duplicates(),
    ensures
        after_folder_delete(ps, f, sys).len() == ps.len(),
        forall|k: int| 0 <= k < ps.len() ==> (#[trigger] after_folder_delete(ps, f, sys)[k]).id == ps[k].id,
        forall|k: int|
            0 <= k < ps.len() && ps[k].folder_id == Some(f) ==> (#[trigger] after_folder_delete(ps, f, sys)[k]).folder_id
                == Some(sys),
        forall|k: int|
            0 <= k < ps.len() && ps[k].folder_id != Some(f) ==> #[trigger] after_folder_delete(ps, f, sys)[k] == ps[k],
{
    let entries = folder_entries(ps, f);
    let ids = entry_ids(sort_by_order(entries));
    let base = max_in_folder(ps, sys) + 1;
    let after = after_folder_delete(ps, f, sys);
    assert forall|k: int| 0 <= k < ps.len() implies profile_pos(ps, ps[k].id) == Some(k) by {
        lemma_profile_pos(ps, ps[k].id);
        let i = profile_pos(ps, ps[k].id).unwrap();
        assert(profile_ids(ps)[i] == ps[i].id);
        assert(profile_ids(ps)[k] == ps[k].id);
    }
    assert forall|k: int| 0 <= k < ps.len() && ps[k].folder_id == Some(f) implies #[trigger] after[k].folder_id == Some(sys) by {
        let e = (ps[k].id, ps[k].display_order);
        lemma_folder_entries_contains(ps, f, e);
        lemma_sort_contains(entries, e);
        lemma_entry_ids_contains(sort_by_order(entries), ps[k].id);
        lemma_last_pos(ids, ps[k].id);
    }
    assert forall|k: int| 0 <= k < ps.len() && ps[k].folder_id != Some(f) implies #[trigger] after[k] == ps[k] by {
        lemma_entry_ids_contains(sort_by_order(entries), ps[k].id);
        lemma_last_pos(ids, ps[k].id);
        if ids.contains(ps[k].id) {
            let o = choose|o: i32| sort_by_order(entries).contains((ps[k].id, o));
            lemma_sort_contains(entries, (ps[k].id, o));
            lemma_folder_entries_contains(ps, f, (ps[k].id, o));
            let j = choose|j: int|
                0 <= j < ps.len() && (#[trigger] ps[j]).folder_id == Some(f) && ps[j].id == ps[k].id && ps[j].display_order
                    == o;
            assert(profile_ids(ps)[j] == profile_ids(ps)[k]);
        }
    }
}

/// In a list without repeats, the last position of an element is its
/// position.
proof fn lemma_last_pos_distinct(s: Seq<u128>, t: int)
    requires
        s.no_duplicates(),
        0 <= t < s.len(),
    ensures
        last_pos(s, s[t]) == t,
{
    lemma_last_pos(s, s[t]);
}

/// Reordering folders by a list of their ids without repeats gives the
/// folder with each listed id its position in the list as display order.
pub proof fn law_reorder_folders_positions(fs: Seq<Folder>, ids: Seq<u128>)
    requires
        ids.no_duplicates(),
        forall|t: int| 0 <= t < ids.len() ==> folder_ids(fs).contains(#[trigger] ids[t]),
    ensures
        forall|t: int| 0 <= t < ids.len() ==> (folder_pos(fs, #[trigger] ids[t]) matches Some(i)
            && reordered_folders(fs, ids)[i].display_order == t as i32),
{
    assert forall|t: int| 0 <= t < ids.len() implies (folder_pos(fs, #[trigger] ids[t]) matches Some(i)
        && reordered_folders(fs, ids)[i].display_order == t as i32) by {
        lemma_folder_pos(fs, ids[t]);
        let j = choose|j: int| 0 <= j < folder_ids(fs).len() && folder_ids(fs)[j] == ids[t];
        assert(fs[j].id == ids[t]);
        lemma_last_pos_distinct(ids, t);
    }
}

/// Reordering profiles by a list of their ids without repeats gives the
/// first profile with each listed id its position in the list as display
/// order; every other profile is left as it was.
pub proof fn law_reorder_profiles_positions(ps: Seq<ConnectionProfile>, ids: Seq<u128>)
    requires
        ids.no_duplicates(),
    ensures
        ordered_profiles(ps, ids).len() == ps.len(),
        forall|t: int| 0 <= t < ids.len() && profile_ids(ps).contains(#[trigger] ids[t]) ==> (profile_pos(ps, ids[t]) matches Some(i)
            && ordered_profiles(ps, ids)[i].display_order == t as i32),
        forall|k: int| 0 <= k < ps.len() && !ids.contains(#[trigger] ps[k].id) ==> ordered_profiles(ps, ids)[k] == ps[k],
{
    assert forall|t: int| 0 <= t < ids.len() && profile_ids(ps).contains(#[trigger] ids[t]) implies (profile_pos(ps, ids[t]) matches Some(i)
        && ordered_profiles(ps, ids)[i].display_order == t as i32) by {
        lemma_profile_pos(ps, ids[t]);
        let j = choose|j: int| 0 <= j < profile_ids(ps).len() && profile_ids(ps)[j] == ids[t];
        assert(ps[j].id == ids[t]);
        lemma_last_pos_distinct(ids, t);
    }
    assert forall|k: int| 0 <= k < ps.len() && !ids.contains(#[trigger] ps[k].id) implies ordered_profiles(ps, ids)[k] == ps[k] by {
        lemma_last_pos(ids, ps[k].id);
    }
}

/// The ids of a folder's entries are ids of profiles, and with distinct
/// profile ids they are distinct.
proof fn lemma_entry_ids_of_folder(ps: Seq<ConnectionProfile>, f: u128)
    ensures
        forall|t: int| 0 <= t < entry_ids(folder_entries(ps, f)).len() ==> profile_ids(ps).contains(
            #[trigger] entry_ids(folder_entries(ps, f))[t],
        ),
        profile_ids(ps).no_duplicates() ==> entry_ids(folder_entries(ps, f)).no_duplicates(),
    decreases ps.len(),
{
    if ps.len() > 0 {
        let prev = ps.drop_last();
        lemma_entry_ids_of_folder(prev, f);
        let e = folder_entries(prev, f);
        let ids = entry_ids(folder_entries(ps, f));
        assert forall|t: int| 0 <= t < ids.len() implies profile_ids(ps).contains(#[trigger] ids[t]) by {
            if t < entry_ids(e).len() {
                assert(ids[t] == entry_ids(e)[t]);
                let j = choose|j: int| 0 <= j < profile_ids(prev).len() && profile_ids(prev)[j] == entry_ids(e)[t];
                assert(profile_ids(ps)[j] == profile_ids(prev)[j]);
            } else {
                assert(ids[t] == ps.last().id);
                assert(profile_ids(ps)[ps.len() - 1] == ps.last().id);
            }
        }
        if profile_ids(ps).no_duplicates() {
            assert(profile_ids(prev).no_duplicates()) by {
                assert forall|i: int, j: int| 0 <= i < j < profile_ids(prev).len() implies profile_ids(prev)[i]
                    != profile_ids(prev)[j] by {
                    assert(profile_ids(prev)[i] == profile_ids(ps)[i]);
                    assert(profile_ids(prev)[j] == profile_ids(ps)[j]);
                }
            }
            if ps.last().folder_id == Some(f) {
                assert forall|i: int, j: int| 0 <= i < j < ids.len() implies ids[i] != ids[j] by {
                    if j == ids.len() - 1 {
                        assert(ids[i] == entry_ids(e)[i]);
                        let k = choose|k: int| 0 <= k < profile_ids(prev).len() && profile_ids(prev)[k] == entry_ids(e)[i];
                        assert(profile_ids(ps)[k] == profile_ids(prev)[k]);
                        assert(profile_ids(ps)[ps.len() - 1] == ps.last().id);
                    } else {
                        assert(ids[i] == entry_ids(e)[i] && ids[j] == entry_ids(e)[j]);
                    }
                }
            } else {
                assert(ids == entry_ids(e));
            }
        }
    }
}

/// Sorting entries keeps their ids, and keeps them distinct.
proof fn lemma_sort_ids(s: Seq<(u128, i32)>)
    ensures
        forall|x: u128| entry_ids(sort_by_order(s)).contains(x) <==> entry_ids(s).contains(x),
        entry_ids(s).no_duplicates() ==> entry_ids(sort_by_order(s)).no_duplicates(),
    decreases s.len(),
{
    assert forall|x: u128| entry_ids(sort_by_order(s)).contains(x) <==> entry_ids(s).contains(x) by {
        lemma_entry_ids_contains(sort_by_order(s), x);
        lemma_entry_ids_contains(s, x);
        if entry_ids(s).contains(x) {
            let o = choose|o: i32| s.contains((x, o));
            lemma_sort_contains(s, (x, o));
        }
        if entry_ids(sort_by_order(s)).contains(x) {
            let o = choose|o: i32| sort_by_order(s).contains((x, o));
            lemma_sort_contains(s, (x, o));
        }
    }
    if s.len() > 0 && entry_ids(s).no_duplicates() {
        let prev = s.drop_last();
        assert(entry_ids(prev).no_duplicates()) by {
            assert forall|i: int, j: int| 0 <= i < j < entry_ids(prev).len() implies entry_ids(prev)[i] != entry_ids(prev)[j] by {
                assert(entry_ids(prev)[i] == entry_ids(s)[i]);
                assert(entry_ids(prev)[j] == entry_ids(s)[j]);
            }
        }
        lemma_sort_ids(prev);
        let t = sort_by_order(prev);
        let p = first_greater(t, s.last().1);
        lemma_first_greater_bounds(t, s.last().1);
        lemma_sort_len(prev);
        let u = t.insert(p, s.last());
        assert(!entry_ids(prev).contains(s.last().0)) by {
            if entry_ids(prev).contains(s.last().0) {
                let j = choose|j: int| 0 <= j < entry_ids(prev).len() && entry_ids(prev)[j] == s.last().0;
                assert(entry_ids(s)[j] == entry_ids(s)[s.len() - 1]);
            }
        }
        assert(!entry_ids(t).contains(s.last().0));
        assert forall|i: int, j: int| 0 <= i < j < entry_ids(u).len() implies entry_ids(u)[i] != entry_ids(u)[j] by {
            let ti = if i < p { i } else if i == p { -1 } else { i - 1 };
            let tj = if j < p { j } else if j == p { -1 } else { j - 1 };
            if ti >= 0 {
                assert(entry_ids(u)[i] == entry_ids(t)[ti]);
            }
            if tj >= 0 {
                assert(entry_ids(u)[j] == entry_ids(t)[tj]);
            }
            if i == p {
                assert(entry_ids(u)[i] == s.last().0);
            }
            if j == p {
                assert(entry_ids(u)[j] == s.last().0);
            }
        }
    }
}

/// Moving a profile within its own folder renumbers the folder's profiles
/// 0, 1, 2, … in their new order, with the moved profile at the position it
/// was given (at the end when that is negative or past the end). This holds
/// when profile ids are distinct.
pub proof fn law_same_folder_move_renumbers(ps: Seq<ConnectionProfile>, pid: u128, target: u128, new_order: i32)
    requires
        profile_ids(ps).no_duplicates(),
        entry_ids(sort_by_order(folder_entries(ps, target))).contains(pid),
    ensures
        same_folder_order(ps, pid, target, new_order).len() == folder_entries(ps, target).len(),
        same_folder_order(ps, pid, target, new_order)[insert_index(new_order, folder_entries(ps, target).len() - 1)]
            == pid,
        forall|k: int| 0 <= k < same_folder_order(ps, pid, target, new_order).len() ==> (profile_pos(
            ps,
            #[trigger] same_folder_order(ps, pid, target, new_order)[k],
        ) matches Some(i) && ordered_profiles(ps, same_folder_order(ps, pid, target, new_order))[i].display_order
            == k as i32),
{
    let entries = folder_entries(ps, target);
    let ids = entry_ids(sort_by_order(entries));
    lemma_entry_ids_of_folder(ps, target);
    lemma_sort_ids(entries);
    lemma_sort_len(entries);
    let i = ids.index_of_first(pid).unwrap();
    lemma_first_facts(ids, pid);
    let rest = ids.remove(i);
    let pos = insert_index(new_order, rest.len() as int);
    let out = rest.insert(pos, pid);
    assert(!rest.contains(pid)) by {
        if rest.contains(pid) {
            let j = choose|j: int| 0 <= j < rest.len() && rest[j] == pid;
            if j < i {
                assert(ids[j] == pid);
            } else {
                assert(ids[j + 1] == pid);
            }
        }
    }
    assert(out.no_duplicates()) by {
        assert forall|a: int, b: int| 0 <= a < b < out.len() implies out[a] != out[b] by {
            let ra = if a < pos { a } else if a == pos { -1 } else { a - 1 };
            let rb = if b < pos { b } else if b == pos { -1 } else { b - 1 };
            let ia = if ra < 0 { -1 } else if ra < i { ra } else { ra + 1 };
            let ib = if rb < 0 { -1 } else if rb < i { rb } else { rb + 1 };
            if ra >= 0 {
                assert(out[a] == rest[ra]);
                assert(rest[ra] == ids[ia]);
            }
            if rb >= 0 {
                assert(out[b] == rest[rb]);
                assert(rest[rb] == ids[ib]);
            }
        }
    }
    assert forall|k: int| 0 <= k < out.len() implies profile_ids(ps).contains(#[trigger] out[k]) by {
        if k == pos {
            assert(out[k] == pid);
            assert(ids[i] == pid);
            assert(entry_ids(entries).contains(pid));
            let t = choose|t: int| 0 <= t < entry_ids(entries).len() && entry_ids(entries)[t] == pid;
        } else {
            let r = if k < pos { k } else { k - 1 };
            let j = if r < i { r } else { r + 1 };
            assert(out[k] == rest[r]);
            assert(rest[r] == ids[j]);
            assert(entry_ids(entries).contains(ids[j]));
            let t = choose|t: int| 0 <= t < entry_ids(entries).len() && entry_ids(entries)[t] == ids[j];
        }
    }
    law_reorder_profiles_positions(ps, out);
}

} // verus!
