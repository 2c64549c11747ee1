use crate::assoc::{assoc_map, fold_insert, has_key, keys_distinct, lemma_assoc_at, lemma_assoc_push, lemma_assoc_update};
use crate::error::{error_message, AppError, AppErrorView};
use crate::export::{
    ExportEnvelope, ExportEnvelopeView, ExportedFolder, ExportedFolderView, ExportedProfile, ExportedProfileView, ExportedUser,
    ExportedUserView,
};
use crate::profile::{
    SYSTEM_FOLDER_NAME, has_system_folder, lemma_system_pos, max_in_folder, system_pos, AuthMethodConfig, ConnectionProfile, Folder,
    UserCredential,
};
use crate::state::TunnelConfig;
use crate::text::{all_v4, lowercase, new_uuid, now_micros, opt_view, str_eq, to_lowercase, trim, trim_str};
use crate::crypto::aes_gcm_max_plaintext;
use crate::vault::{encrypt_error, read_spec, vault_key, vault_key_text, Vault, VaultModel};
use crate::export::ImportResult;
use vstd::prelude::*;
use vstd::utf8::{encode_utf8, encode_utf8_decode_utf8};

verus! {

// ─── Views ──────────────────────────────────────────────

/// A folder with its name as a character sequence.
pub struct FolderView {
    pub id: u128,
    pub name: Seq<char>,
    pub display_order: i32,
    pub is_system: bool,
    pub is_expanded: bool,
    pub created_at: i64,
    pub updated_at: i64,
}

/// An auth method with its key path as a character sequence.
pub enum AuthView {
    Password,
    PublicKey { path: Seq<char>, in_vault: bool },
    KeyboardInteractive,
}

/// A user with its texts as character sequences.
pub struct UserView {
    pub id: u128,
    pub username: Seq<char>,
    pub auth: AuthView,
    pub is_default: bool,
}

/// A profile with its texts as character sequences.
pub struct ProfileView {
    pub id: u128,
    pub name: Seq<char>,
    pub host: Seq<char>,
    pub port: u16,
    pub username: Option<Seq<char>>,
    pub auth_method: Option<AuthView>,
    pub users: Seq<UserView>,
    pub startup_directory: Option<Seq<char>>,
    pub tunnels: Seq<TunnelConfig>,
    pub display_order: i32,
    pub folder_id: Option<u128>,
    pub created_at: i64,
    pub updated_at: i64,
}

pub open spec fn folder_view(f: Folder) -> FolderView {
    FolderView {
        id: f.id,
        name: f.name@,
        display_order: f.display_order,
        is_system: f.is_system,
        is_expanded: f.is_expanded,
        created_at: f.created_at,
        updated_at: f.updated_at,
    }
}

pub open spec fn auth_view(a: AuthMethodConfig) -> AuthView {
    match a {
        AuthMethodConfig::Password => AuthView::Password,
        AuthMethodConfig::PublicKey { private_key_path, passphrase_in_keychain } => AuthView::PublicKey {
            path: private_key_path@,
            in_vault: passphrase_in_keychain,
        },
        AuthMethodConfig::KeyboardInteractive => AuthView::KeyboardInteractive,
    }
}

pub open spec fn user_view(u: UserCredential) -> UserView {
    UserView { id: u.id, username: u.username@, auth: auth_view(u.auth_method), is_default: u.is_default }
}

pub open spec fn profile_view(p: ConnectionProfile) -> ProfileView {
    ProfileView {
        id: p.id,
        name: p.name@,
        host: p.host@,
        port: p.port,
        username: opt_view(p.username),
        auth_method: match p.auth_method {
            Some(a) => Some(auth_view(a)),
            None => None,
        },
        users: p.users@.map_values(|u: UserCredential| user_view(u)),
        startup_directory: opt_view(p.startup_directory),
        tunnels: p.tunnels@,
        display_order: p.display_order,
        folder_id: p.folder_id,
        created_at: p.created_at,
        updated_at: p.updated_at,
    }
}

// ─── Ordering of the imported items ─────────────────────

/// Lexicographic order of byte strings (the order of `str::cmp`).
pub open spec fn bytes_lt(a: Seq<u8>, b: Seq<u8>) -> bool
    decreases a.len(),
{
    if a.len() == 0 {
        b.len() > 0
    } else if b.len() == 0 {
        false
    } else if a[0] != b[0] {
        a[0] < b[0]
    } else {
        bytes_lt(a.drop_first(), b.drop_first())
    }
}

/// Bytes of the lowercase form of a text, the key by which names compare.
pub open spec fn name_key(s: Seq<char>) -> Seq<u8> {
    encode_utf8(lowercase(s))
}

/// Folders are imported by display order, then by name ignoring case.
pub open spec fn folder_before(a: ExportedFolderView, b: ExportedFolderView) -> bool {
    a.display_order < b.display_order || (a.display_order == b.display_order && bytes_lt(name_key(a.name), name_key(b.name)))
}

/// Folder-name key of an exported profile; no folder comes first.
pub open spec fn folder_key(p: ExportedProfileView) -> Option<Seq<u8>> {
    match p.folder_name {
        Some(n) => Some(name_key(n)),
        None => None,
    }
}

pub open spec fn opt_bytes_lt(a: Option<Seq<u8>>, b: Option<Seq<u8>>) -> bool {
    match (a, b) {
        (None, Some(_)) => true,
        (Some(x), Some(y)) => bytes_lt(x, y),
        _ => false,
    }
}

/// Profiles are imported by folder name ignoring case (none first), then by
/// display order, then by name ignoring case.
pub open spec fn profile_before(a: ExportedProfileView, b: ExportedProfileView) -> bool {
    ||| opt_bytes_lt(folder_key(a), folder_key(b))
    ||| folder_key(a) == folder_key(b) && a.display_order < b.display_order
    ||| folder_key(a) == folder_key(b) && a.display_order == b.display_order && bytes_lt(name_key(a.name), name_key(b.name))
}

/// Position before which `x` goes in `s`: the first element that `x` comes
/// strictly before, or the end.
pub open spec fn insert_pos<T>(s: Seq<T>, x: T, before: spec_fn(T, T) -> bool) -> int
    decreases s.len(),
{
    if s.len() == 0 {
        0
    } else if before(x, s[0]) {
        0
    } else {
        1 + insert_pos(s.drop_first(), x, before)
    }
}

/// Stable sort by a strict order: each element, taken in list order, goes
/// after every element already placed that it does not come strictly before.
pub open spec fn stable_sort<T>(s: Seq<T>, before: spec_fn(T, T) -> bool) -> Seq<T>
    decreases s.len(),
{
    if s.len() == 0 {
        s
    } else {
        let t = stable_sort(s.drop_last(), before);
        t.insert(insert_pos(t, s.last(), before), s.last())
    }
}

pub proof fn lemma_insert_pos_bounds<T>(s: Seq<T>, x: T, before: spec_fn(T, T) -> bool)
    ensures
        0 <= insert_pos(s, x, before) <= s.len(),
    decreases s.len(),
{
    if s.len() > 0 && !before(x, s[0]) {
        lemma_insert_pos_bounds(s.drop_first(), x, before);
    }
}

pub proof fn lemma_insert_pos_at<T>(s: Seq<T>, x: T, before: spec_fn(T, T) -> bool, p: int)
    requires
        0 <= p <= s.len(),
        forall|j: int| 0 <= j < p ==> !before(x, #[trigger] s[j]),
        p == s.len() || before(x, s[p]),
    ensures
        insert_pos(s, x, before) == p,
    decreases p,
{
    if p > 0 {
        assert forall|j: int| 0 <= j < p - 1 implies !before(x, #[trigger] s.drop_first()[j]) by {
            assert(s.drop_first()[j] == s[j + 1]);
        }
        lemma_insert_pos_at(s.drop_first(), x, before, p - 1);
    }
}

pub proof fn lemma_stable_sort_len<T>(s: Seq<T>, before: spec_fn(T, T) -> bool)
    ensures
        stable_sort(s, before).len() == s.len(),
    decreases s.len(),
{
    if s.len() > 0 {
        lemma_stable_sort_len(s.drop_last(), before);
        lemma_insert_pos_bounds(stable_sort(s.drop_last(), before), s.last(), before);
    }
}

pub proof fn lemma_bytes_lt_skip(a: Seq<u8>, b: Seq<u8>, i: int)
    requires
        0 <= i <= a.len(),
        i <= b.len(),
        forall|j: int| 0 <= j < i ==> a[j] == b[j],
    ensures
        bytes_lt(a, b) == bytes_lt(a.skip(i), b.skip(i)),
    decreases i,
{
    if i > 0 {
        assert forall|j: int| 0 <= j < i - 1 implies a.drop_first()[j] == b.drop_first()[j] by {
            assert(a.drop_first()[j] == a[j + 1]);
            assert(b.drop_first()[j] == b[j + 1]);
        }
        lemma_bytes_lt_skip(a.drop_first(), b.drop_first(), i - 1);
        assert(a.drop_first().skip(i - 1) =~= a.skip(i));
        assert(b.drop_first().skip(i - 1) =~= b.skip(i));
    } else {
        assert(a.skip(0) =~= a);
        assert(b.skip(0) =~= b);
    }
}

/// Lexicographic comparison of byte strings.
fn bytes_less(a: &[u8], b: &[u8]) -> (r: bool)
    ensures
        r == bytes_lt(a@, b@),
{
    let mut i: usize = 0;
    while i < a.len() && i < b.len() && a[i] == b[i]
        invariant
            0 <= i <= a@.len(),
            i <= b@.len(),
            forall|j: int| 0 <= j < i ==> a@[j] == b@[j],
        decreases a@.len() - i,
    {
        i += 1;
    }
    proof {
        lemma_bytes_lt_skip(a@, b@, i as int);
    }
    if i == a.len() {
        i < b.len()
    } else if i == b.len() {
        false
    } else {
        a[i] < b[i]
    }
}

/// Lowercase form of each exported folder's name.
fn folder_keys(efs: &Vec<ExportedFolder>) -> (r: Vec<String>)
    ensures
        r@.len() == efs@.len(),
        forall|j: int| 0 <= j < r@.len() ==> (#[trigger] r@[j])@ == lowercase(efs@[j].name@),
{
    let mut keys: Vec<String> = Vec::new();
    let mut i: usize = 0;
    while i < efs.len()
        invariant
            0 <= i <= efs@.len(),
            keys@.len() == i,
            forall|j: int| 0 <= j < i ==> (#[trigger] keys@[j])@ == lowercase(efs@[j].name@),
        decreases efs@.len() - i,
    {
        keys.push(to_lowercase(efs[i].name.as_str()));
        i += 1;
    }
    keys
}

/// The exported folders in import order (positions into the list).
fn folder_order(efs: &Vec<ExportedFolder>) -> (r: Vec<usize>)
    ensures
        forall|j: int| 0 <= j < r@.len() ==> #[trigger] r@[j] < efs@.len(),
        r@.map_values(|i: usize| efs@[i as int]@)
            == stable_sort(efs@.map_values(|f: ExportedFolder| f@), |a: ExportedFolderView, b: ExportedFolderView| folder_before(a, b)),
{
    let keys = folder_keys(efs);
    let ghost views = efs@.map_values(|f: ExportedFolder| f@);
    let ghost before = |a: ExportedFolderView, b: ExportedFolderView| folder_before(a, b);
    let mut out: Vec<usize> = Vec::new();
    let mut i: usize = 0;
    while i < efs.len()
        invariant
            0 <= i <= efs@.len(),
            keys@.len() == efs@.len(),
            forall|j: int| 0 <= j < keys@.len() ==> (#[trigger] keys@[j])@ == lowercase(efs@[j].name@),
            views == efs@.map_values(|f: ExportedFolder| f@),
            before == (|a: ExportedFolderView, b: ExportedFolderView| folder_before(a, b)),
            forall|j: int| 0 <= j < out@.len() ==> #[trigger] out@[j] < efs@.len(),
            out@.map_values(|k: usize| efs@[k as int]@) == stable_sort(views.take(i as int), before),
        decreases efs@.len() - i,
    {
        let ghost placed = out@.map_values(|k: usize| efs@[k as int]@);
        let ghost x = efs@[i as int]@;
        let xo = efs[i].display_order;
        let xk = keys[i].as_str().as_bytes();
        let mut p: usize = 0;
        while p < out.len()
            invariant
                0 <= p <= out@.len(),
                placed == out@.map_values(|k: usize| efs@[k as int]@),
                forall|j: int| 0 <= j < out@.len() ==> #[trigger] out@[j] < efs@.len(),
                keys@.len() == efs@.len(),
                forall|j: int| 0 <= j < keys@.len() ==> (#[trigger] keys@[j])@ == lowercase(efs@[j].name@),
                i < efs@.len(),
                x == efs@[i as int]@,
                xo == efs@[i as int].display_order,
                xk@ == name_key(efs@[i as int].name@),
                before == (|a: ExportedFolderView, b: ExportedFolderView| folder_before(a, b)),
                forall|j: int| 0 <= j < p ==> !before(x, #[trigger] placed[j]),
            ensures
                0 <= p <= out@.len(),
                forall|j: int| 0 <= j < p ==> !before(x, #[trigger] placed[j]),
                p == out@.len() || before(x, placed[p as int]),
            decreases out@.len() - p,
        {
            let k = out[p];
            let yo = efs[k].display_order;
            let yk = keys[k].as_str().as_bytes();
            let lt = xo < yo || (xo == yo && bytes_less(xk, yk));
            assert(placed[p as int] == efs@[k as int]@);
            assert(lt == before(x, placed[p as int]));
            if lt {
                break;
            }
            p += 1;
        }
        proof {
            lemma_insert_pos_at(placed, x, before, p as int);
            assert(views.take(i as int + 1).drop_last() =~= views.take(i as int));
            assert(views.take(i as int + 1).last() == x);
        }
        out.insert(p, i);
        proof {
            assert(out@.map_values(|k: usize| efs@[k as int]@) =~= placed.insert(p as int, x));
        }
        i += 1;
    }
    proof {
        assert(views.take(efs@.len() as int) =~= views);
    }
    out
}

/// Bytes of an optional text.
pub open spec fn opt_bytes(o: Option<String>) -> Option<Seq<u8>> {
    match o {
        Some(s) => Some(encode_utf8(s@)),
        None => None,
    }
}

/// `profile_before` on the keys of two profiles.
fn profile_less(xf: &Option<String>, xo: i32, xn: &String, yf: &Option<String>, yo: i32, yn: &String) -> (r: bool)
    ensures
        r == (opt_bytes_lt(opt_bytes(*xf), opt_bytes(*yf))
            || (opt_bytes(*xf) == opt_bytes(*yf) && xo < yo)
            || (opt_bytes(*xf) == opt_bytes(*yf) && xo == yo && bytes_lt(encode_utf8(xn@), encode_utf8(yn@)))),
{
    let (f_lt, f_eq) = match (xf, yf) {
        (None, None) => (false, true),
        (None, Some(_)) => (true, false),
        (Some(_), None) => (false, false),
        (Some(a), Some(b)) => {
            let ab = a.as_str().as_bytes();
            let bb = b.as_str().as_bytes();
            let eq = str_eq(a.as_str(), b.as_str());
            proof {
                encode_utf8_decode_utf8(a@);
                encode_utf8_decode_utf8(b@);
            }
            (bytes_less(ab, bb), eq)
        },
    };
    if f_lt {
        return true;
    }
    if !f_eq {
        return false;
    }
    if xo < yo {
        return true;
    }
    if xo != yo {
        return false;
    }
    bytes_less(xn.as_str().as_bytes(), yn.as_str().as_bytes())
}

/// Sort keys of each exported profile: folder name and name, lowercase.
fn profile_keys(eps: &Vec<ExportedProfile>) -> (r: (Vec<Option<String>>, Vec<String>))
    ensures
        r.0@.len() == eps@.len(),
        r.1@.len() == eps@.len(),
        forall|j: int| 0 <= j < eps@.len() ==> opt_bytes(#[trigger] r.0@[j]) == folder_key(eps@[j]@),
        forall|j: int| 0 <= j < eps@.len() ==> encode_utf8((#[trigger] r.1@[j])@) == name_key(eps@[j].name@),
{
    let mut fk: Vec<Option<String>> = Vec::new();
    let mut nk: Vec<String> = Vec::new();
    let mut i: usize = 0;
    while i < eps.len()
        invariant
            0 <= i <= eps@.len(),
            fk@.len() == i,
            nk@.len() == i,
            forall|j: int| 0 <= j < i ==> opt_bytes(#[trigger] fk@[j]) == folder_key(eps@[j]@),
            forall|j: int| 0 <= j < i ==> encode_utf8((#[trigger] nk@[j])@) == name_key(eps@[j].name@),
        decreases eps@.len() - i,
    {
        let f = match &eps[i].folder_name {
            Some(n) => Some(to_lowercase(n.as_str())),
            None => None,
        };
        fk.push(f);
        nk.push(to_lowercase(eps[i].name.as_str()));
        i += 1;
    }
    (fk, nk)
}

/// The exported profiles in import order (positions into the list).
fn profile_order(eps: &Vec<ExportedProfile>) -> (r: Vec<usize>)
    ensures
        forall|j: int| 0 <= j < r@.len() ==> #[trigger] r@[j] < eps@.len(),
        r@.map_values(|i: usize| eps@[i as int]@)
            == stable_sort(eps@.map_values(|p: ExportedProfile| p@), |a: ExportedProfileView, b: ExportedProfileView| profile_before(a, b)),
{
    let (fk, nk) = profile_keys(eps);
    let ghost views = eps@.map_values(|p: ExportedProfile| p@);
    let ghost before = |a: ExportedProfileView, b: ExportedProfileView| profile_before(a, b);
    let mut out: Vec<usize> = Vec::new();
    let mut i: usize = 0;
    while i < eps.len()
        invariant
            0 <= i <= eps@.len(),
            fk@.len() == eps@.len(),
            nk@.len() == eps@.len(),
            forall|j: int| 0 <= j < eps@.len() ==> opt_bytes(#[trigger] fk@[j]) == folder_key(eps@[j]@),
            forall|j: int| 0 <= j < eps@.len() ==> encode_utf8((#[trigger] nk@[j])@) == name_key(eps@[j].name@),
            views == eps@.map_values(|p: ExportedProfile| p@),
            before == (|a: ExportedProfileView, b: ExportedProfileView| profile_before(a, b)),
            forall|j: int| 0 <= j < out@.len() ==> #[trigger] out@[j] < eps@.len(),
            out@.map_values(|k: usize| eps@[k as int]@) == stable_sort(views.take(i as int), before),
        decreases eps@.len() - i,
    {
        let ghost placed = out@.map_values(|k: usize| eps@[k as int]@);
        let ghost x = eps@[i as int]@;
        let xo = eps[i].display_order;
        let mut p: usize = 0;
        while p < out.len()
            invariant
                0 <= p <= out@.len(),
                placed == out@.map_values(|k: usize| eps@[k as int]@),
                forall|j: int| 0 <= j < out@.len() ==> #[trigger] out@[j] < eps@.len(),
                fk@.len() == eps@.len(),
                nk@.len() == eps@.len(),
                forall|j: int| 0 <= j < eps@.len() ==> opt_bytes(#[trigger] fk@[j]) == folder_key(eps@[j]@),
                forall|j: int| 0 <= j < eps@.len() ==> encode_utf8((#[trigger] nk@[j])@) == name_key(eps@[j].name@),
                i < eps@.len(),
                x == eps@[i as int]@,
                xo == eps@[i as int].display_order,
                before == (|a: ExportedProfileView, b: ExportedProfileView| profile_before(a, b)),
                forall|j: int| 0 <= j < p ==> !before(x, #[trigger] placed[j]),
            ensures
                0 <= p <= out@.len(),
                forall|j: int| 0 <= j < p ==> !before(x, #[trigger] placed[j]),
                p == out@.len() || before(x, placed[p as int]),
            decreases out@.len() - p,
        {
            let k = out[p];
            let lt = profile_less(&fk[i], xo, &nk[i], &fk[k], eps[k].display_order, &nk[k]);
            assert(placed[p as int] == eps@[k as int]@);
            assert(lt == before(x, placed[p as int]));
            if lt {
                break;
            }
            p += 1;
        }
        proof {
            lemma_insert_pos_at(placed, x, before, p as int);
            assert(views.take(i as int + 1).drop_last() =~= views.take(i as int));
            assert(views.take(i as int + 1).last() == x);
        }
        out.insert(p, i);
        proof {
            assert(out@.map_values(|k: usize| eps@[k as int]@) =~= placed.insert(p as int, x));
        }
        i += 1;
    }
    proof {
        assert(views.take(eps@.len() as int) =~= views);
    }
    out
}

// ─── The import, step by step ───────────────────────────

/// What an import has done so far: all folders and profiles, the folder
/// names (lowercase) known for placing profiles, the next display order of
/// each folder, the counts, the messages of skipped profiles, the passwords
/// to store, and how many fresh ids were taken.
pub struct ImportState {
    pub folders: Seq<FolderView>,
    pub profiles: Seq<ProfileView>,
    pub names: Map<Seq<char>, u128>,
    pub next_order: Map<u128, int>,
    pub imported: nat,
    pub skipped: nat,
    pub created: nat,
    pub errors: Seq<Seq<char>>,
    pub creds: Seq<(u128, u128, Seq<char>)>,
    pub used: nat,
}

/// Lowercase name and id of each user folder, in list order.
pub open spec fn name_entries(fs: Seq<Folder>) -> Seq<(Seq<char>, u128)>
    decreases fs.len(),
{
    if fs.len() == 0 {
        seq![]
    } else if fs.last().is_system {
        name_entries(fs.drop_last())
    } else {
        name_entries(fs.drop_last()).push((lowercase(fs.last().name@), fs.last().id))
    }
}

/// Some folder of the list has id `id`.
pub open spec fn has_folder_id(fs: Seq<Folder>, id: u128) -> bool {
    exists|i: int| 0 <= i < fs.len() && fs[i].id == id
}

pub proof fn lemma_has_folder_id_take(fs: Seq<Folder>, i: int)
    requires
        0 <= i < fs.len(),
    ensures
        forall|id: u128| #[trigger] has_folder_id(fs.take(i + 1), id) == (has_folder_id(fs.take(i), id) || id == fs[i].id),
{
    let a = fs.take(i);
    let b = fs.take(i + 1);
    assert forall|id: u128| #[trigger] has_folder_id(b, id) == (has_folder_id(a, id) || id == fs[i].id) by {
        if has_folder_id(b, id) {
            let t = choose|t: int| 0 <= t < b.len() && b[t].id == id;
            if t < i {
                assert(a[t].id == id);
            }
        }
        if has_folder_id(a, id) {
            let t = choose|t: int| 0 <= t < a.len() && a[t].id == id;
            assert(b[t].id == id);
        }
        if id == fs[i].id {
            assert(b[i].id == id);
        }
    }
}

/// The state before the first step: every folder's next display order is
/// one more than the largest order of its profiles (0 for an empty folder).
pub open spec fn import_start(fs: Seq<Folder>, ps: Seq<ConnectionProfile>) -> ImportState {
    ImportState {
        folders: fs.map_values(|f: Folder| folder_view(f)),
        profiles: ps.map_values(|p: ConnectionProfile| profile_view(p)),
        names: fold_insert(name_entries(fs)),
        next_order: Map::new(|id: u128| has_folder_id(fs, id), |id: u128| max_in_folder(ps, id) + 1),
        imported: 0,
        skipped: 0,
        created: 0,
        errors: seq![],
        creds: seq![],
        used: 0,
    }
}

/// The largest display order of a list of folders, or -1.
pub open spec fn max_view_order(fs: Seq<FolderView>) -> int
    decreases fs.len(),
{
    if fs.len() == 0 {
        -1
    } else {
        let m = max_view_order(fs.drop_last());
        if fs.last().display_order > m {
            fs.last().display_order as int
        } else {
            m
        }
    }
}

/// Importing one exported folder: a name that is empty after trimming, the
/// system folder's name, or a known name (ignoring case) is passed over;
/// otherwise a folder is created after all others, with a fresh id.
pub open spec fn folder_step(st: ImportState, ef: ExportedFolderView, ids: Seq<u128>, now: i64) -> ImportState {
    let t = trim(ef.name);
    if t.len() == 0 || t == SYSTEM_FOLDER_NAME@ || st.names.contains_key(lowercase(t)) {
        st
    } else {
        let id = ids[st.used as int];
        let f = FolderView {
            id,
            name: t,
            display_order: (max_view_order(st.folders) + 1) as i32,
            is_system: false,
            is_expanded: ef.is_expanded,
            created_at: now,
            updated_at: now,
        };
        ImportState {
            folders: st.folders.push(f),
            names: st.names.insert(lowercase(t), id),
            next_order: st.next_order.insert(id, 0),
            created: st.created + 1,
            used: st.used + 1,
            ..st
        }
    }
}

/// Importing the exported folders in the given order.
pub open spec fn import_folders(st: ImportState, efs: Seq<ExportedFolderView>, ids: Seq<u128>, now: i64) -> ImportState
    decreases efs.len(),
{
    if efs.len() == 0 {
        st
    } else {
        folder_step(import_folders(st, efs.drop_last(), ids, now), efs.last(), ids, now)
    }
}

/// Auth method from its export label: "publickey" (key path defaulting to
/// "~/.ssh/id_rsa"), "keyboard-interactive", anything else a password.
pub open spec fn auth_of(label: Seq<char>, path: Option<Seq<char>>) -> AuthView {
    if label == "publickey"@ {
        AuthView::PublicKey {
            path: match path {
                Some(p) => p,
                None => "~/.ssh/id_rsa"@,
            },
            in_vault: false,
        }
    } else if label == "keyboard-interactive"@ {
        AuthView::KeyboardInteractive
    } else {
        AuthView::Password
    }
}

/// Some profile has exactly this name and host.
pub open spec fn has_profile(ps: Seq<ProfileView>, name: Seq<char>, host: Seq<char>) -> bool {
    exists|k: int| 0 <= k < ps.len() && ps[k].name == name && ps[k].host == host
}

/// Users of the current export format, with fresh ids from position `base`.
pub open spec fn listed_users(eus: Seq<ExportedUserView>, ids: Seq<u128>, base: nat) -> Seq<UserView> {
    Seq::new(
        eus.len(),
        |j: int| UserView {
            id: ids[base + j],
            username: eus[j].username,
            auth: auth_of(eus[j].auth_method, eus[j].private_key_path),
            is_default: eus[j].is_default,
        },
    )
}

/// Folder a profile goes into: the known folder with its folder name
/// (trimmed, ignoring case), else the system folder.
pub open spec fn target_folder(st: ImportState, ep: ExportedProfileView, sys: u128) -> u128 {
    match ep.folder_name {
        Some(n) => if st.names.contains_key(lowercase(trim(n))) {
            st.names[lowercase(trim(n))]
        } else {
            sys
        },
        None => sys,
    }
}

/// Position of the first exported user with this username, or -1.
pub open spec fn first_user(eus: Seq<ExportedUserView>, username: Seq<char>) -> int
    decreases eus.len(),
{
    if eus.len() == 0 {
        -1
    } else if eus[0].username == username {
        0
    } else {
        let r = first_user(eus.drop_first(), username);
        if r < 0 {
            -1
        } else {
            r + 1
        }
    }
}

/// The non-empty password given for a username by the first exported user
/// with that name.
pub open spec fn listed_password(eus: Seq<ExportedUserView>, username: Seq<char>) -> Option<Seq<char>> {
    let i = first_user(eus, username);
    if 0 <= i < eus.len() {
        match eus[i].password {
            Some(pw) => if pw.len() > 0 {
                Some(pw)
            } else {
                None
            },
            None => None,
        }
    } else {
        None
    }
}

/// Passwords to store for the listed users of a profile, in user order.
pub open spec fn listed_credentials(eus: Seq<ExportedUserView>, users: Seq<UserView>, pid: u128) -> Seq<(u128, u128, Seq<char>)>
    decreases users.len(),
{
    if users.len() == 0 {
        seq![]
    } else {
        let rest = listed_credentials(eus, users.drop_last(), pid);
        match listed_password(eus, users.last().username) {
            Some(pw) => rest.push((pid, users.last().id, pw)),
            None => rest,
        }
    }
}

/// Passwords to store for an imported profile: those of the listed users,
/// then, for the first export format, its single password for the first user.
pub open spec fn profile_credentials(ep: ExportedProfileView, users: Seq<UserView>, pid: u128) -> Seq<(u128, u128, Seq<char>)> {
    let listed = listed_credentials(ep.users, users, pid);
    if ep.users.len() == 0 && users.len() > 0 {
        match ep.password {
            Some(pw) => if pw.len() > 0 {
                listed.push((pid, users[0].id, pw))
            } else {
                listed
            },
            None => listed,
        }
    } else {
        listed
    }
}

/// Adding an imported profile with its users: a fresh id after the users'
/// ids, placed last in its folder.
pub open spec fn add_profile(st: ImportState, ep: ExportedProfileView, users: Seq<UserView>, sys: u128, ids: Seq<u128>, now: i64) -> ImportState {
    let base = st.used + users.len();
    let pid = ids[base as int];
    let target = target_folder(st, ep, sys);
    let order = if st.next_order.contains_key(target) { st.next_order[target] } else { 0 };
    let p = ProfileView {
        id: pid,
        name: ep.name,
        host: ep.host,
        port: ep.port,
        username: None,
        auth_method: None,
        users,
        startup_directory: None,
        tunnels: seq![],
        display_order: order as i32,
        folder_id: Some(target),
        created_at: now,
        updated_at: now,
    };
    ImportState {
        profiles: st.profiles.push(p),
        next_order: st.next_order.insert(target, order + 1),
        imported: st.imported + 1,
        creds: st.creds + profile_credentials(ep, users, pid),
        used: base + 1,
        ..st
    }
}

/// Importing one exported profile: one with the name and host of an
/// existing profile is skipped; one with an empty name or host, or without
/// a usable user, is reported; otherwise it is added.
pub open spec fn profile_step(st: ImportState, ep: ExportedProfileView, sys: u128, ids: Seq<u128>, now: i64) -> ImportState {
    if has_profile(st.profiles, ep.name, ep.host) {
        ImportState { skipped: st.skipped + 1, ..st }
    } else if trim(ep.name).len() == 0 || trim(ep.host).len() == 0 {
        ImportState { errors: st.errors.push("Skipped invalid profile: '"@ + ep.name + "'"@), ..st }
    } else if ep.users.len() > 0 {
        add_profile(st, ep, listed_users(ep.users, ids, st.used), sys, ids, now)
    } else {
        match ep.username {
            Some(u) => if trim(u).len() == 0 {
                ImportState { errors: st.errors.push("Skipped invalid profile: '"@ + ep.name + "' (no username)"@), ..st }
            } else {
                let user = UserView {
                    id: ids[st.used as int],
                    username: u,
                    auth: auth_of(
                        match ep.auth_method {
                            Some(a) => a,
                            None => "password"@,
                        },
                        ep.private_key_path,
                    ),
                    is_default: true,
                };
                add_profile(st, ep, seq![user], sys, ids, now)
            },
            None => ImportState { errors: st.errors.push("Skipped profile with no users: '"@ + ep.name + "'"@), ..st },
        }
    }
}

/// Importing the exported profiles in the given order.
pub open spec fn import_profiles_in(st: ImportState, eps: Seq<ExportedProfileView>, sys: u128, ids: Seq<u128>, now: i64) -> ImportState
    decreases eps.len(),
{
    if eps.len() == 0 {
        st
    } else {
        profile_step(import_profiles_in(st, eps.drop_last(), sys, ids, now), eps.last(), sys, ids, now)
    }
}

/// The whole import of an envelope into folders and profiles, with fresh
/// ids taken in order from `ids` and `now` as creation time: the envelope
/// must come from this application and a system folder must exist; folders
/// are imported first, then profiles, each in import order.
pub open spec fn import_spec(fs: Seq<Folder>, ps: Seq<ConnectionProfile>, env: ExportEnvelopeView, ids: Seq<u128>, now: i64) -> Result<ImportState, AppErrorView> {
    if env.app != "NexTerm"@ {
        Err(AppErrorView::ProfileError("File is not a NexTerm export"@))
    } else if !has_system_folder(fs) {
        Err(AppErrorView::ProfileError("System folder not found during import"@))
    } else {
        let sys = fs[system_pos(fs)].id;
        let st = import_folders(
            import_start(fs, ps),
            stable_sort(env.folders, |a: ExportedFolderView, b: ExportedFolderView| folder_before(a, b)),
            ids,
            now,
        );
        Ok(import_profiles_in(
            st,
            stable_sort(env.profiles, |a: ExportedProfileView, b: ExportedProfileView| profile_before(a, b)),
            sys,
            ids,
            now,
        ))
    }
}

// ─── Executable state ───────────────────────────────────

/// What an import gives back besides the new folders and profiles: the
/// counts, the messages of skipped profiles, the passwords to store
/// (profile id, user id, password), and the fresh ids taken, in order.
pub struct ImportOutcome {
    pub imported: u32,
    pub skipped: u32,
    pub created_folders: u32,
    pub errors: Vec<String>,
    pub credentials: Vec<(u128, u128, String)>,
    pub fresh_ids: Vec<u128>,
    pub imported_at: i64,
}

struct ImportWork {
    names: Vec<(String, u128)>,
    next_order: Vec<(u128, i32)>,
    imported: u32,
    skipped: u32,
    created: u32,
    errors: Vec<String>,
    creds: Vec<(u128, u128, String)>,
    ids: Vec<u128>,
}

pub open spec fn names_view(v: Seq<(String, u128)>) -> Seq<(Seq<char>, u128)> {
    v.map_values(|e: (String, u128)| (e.0@, e.1))
}

pub open spec fn orders_view(v: Seq<(u128, i32)>) -> Seq<(u128, int)> {
    v.map_values(|e: (u128, i32)| (e.0, e.1 as int))
}

pub open spec fn creds_view(v: Seq<(u128, u128, String)>) -> Seq<(u128, u128, Seq<char>)> {
    v.map_values(|c: (u128, u128, String)| (c.0, c.1, c.2@))
}

pub open spec fn strings_view(v: Seq<String>) -> Seq<Seq<char>> {
    v.map_values(|e: String| e@)
}

spec fn work_view(w: ImportWork, fs: Seq<Folder>, ps: Seq<ConnectionProfile>) -> ImportState {
    ImportState {
        folders: fs.map_values(|f: Folder| folder_view(f)),
        profiles: ps.map_values(|p: ConnectionProfile| profile_view(p)),
        names: assoc_map(names_view(w.names@)),
        next_order: assoc_map(orders_view(w.next_order@)),
        imported: w.imported as nat,
        skipped: w.skipped as nat,
        created: w.created as nat,
        errors: strings_view(w.errors@),
        creds: creds_view(w.creds@),
        used: w.ids@.len(),
    }
}

spec fn work_wf(w: ImportWork) -> bool {
    &&& keys_distinct(names_view(w.names@))
    &&& keys_distinct(orders_view(w.next_order@))
}

/// Position of `key` among the names, if present.
fn find_name(names: &Vec<(String, u128)>, key: &str) -> (r: Option<usize>)
    ensures
        match r {
            Some(i) => i < names@.len() && names@[i as int].0@ == key@,
            None => !has_key(names_view(names@), key@),
        },
{
    let mut i: usize = 0;
    while i < names.len()
        invariant
            0 <= i <= names@.len(),
            forall|j: int| 0 <= j < i ==> names@[j].0@ != key@,
        decreases names@.len() - i,
    {
        if str_eq(names[i].0.as_str(), key) {
            return Some(i);
        }
        i += 1;
    }
    proof {
        if has_key(names_view(names@), key@) {
            let j = choose|j: int| 0 <= j < names_view(names@).len() && names_view(names@)[j].0 == key@;
            assert(names@[j].0@ == key@);
        }
    }
    None
}

/// Position of folder `id` among the next orders, if present.
fn find_order(orders: &Vec<(u128, i32)>, id: u128) -> (r: Option<usize>)
    ensures
        match r {
            Some(i) => i < orders@.len() && orders@[i as int].0 == id,
            None => !has_key(orders_view(orders@), id),
        },
{
    let mut i: usize = 0;
    while i < orders.len()
        invariant
            0 <= i <= orders@.len(),
            forall|j: int| 0 <= j < i ==> orders@[j].0 != id,
        decreases orders@.len() - i,
    {
        if orders[i].0 == id {
            return Some(i);
        }
        i += 1;
    }
    proof {
        if has_key(orders_view(orders@), id) {
            let j = choose|j: int| 0 <= j < orders_view(orders@).len() && orders_view(orders@)[j].0 == id;
            assert(orders@[j].0 == id);
        }
    }
    None
}

/// Largest display order among the profiles of folder `f`, or -1.
fn max_order_in_folder(ps: &Vec<ConnectionProfile>, f: u128) -> (r: i32)
    ensures
        r as int == max_in_folder(ps@, f),
{
    let mut m: i32 = -1;
    let mut k: usize = 0;
    while k < ps.len()
        invariant
            0 <= k <= ps@.len(),
            m as int == max_in_folder(ps@.take(k as int), f),
        decreases ps@.len() - k,
    {
        proof {
            assert(ps@.take(k as int + 1).drop_last() =~= ps@.take(k as int));
        }
        if ps[k].folder_id == Some(f) && ps[k].display_order > m {
            m = ps[k].display_order;
        }
        k += 1;
    }
    proof {
        assert(ps@.take(ps@.len() as int) =~= ps@);
    }
    m
}

/// Largest display order among folders, or -1.
fn max_folder_display_order(fs: &Vec<Folder>) -> (r: i32)
    ensures
        r as int == max_view_order(fs@.map_values(|f: Folder| folder_view(f))),
{
    let ghost views = fs@.map_values(|f: Folder| folder_view(f));
    let mut m: i32 = -1;
    let mut k: usize = 0;
    while k < fs.len()
        invariant
            0 <= k <= fs@.len(),
            views == fs@.map_values(|f: Folder| folder_view(f)),
            m as int == max_view_order(views.take(k as int)),
        decreases fs@.len() - k,
    {
        proof {
            assert(views.take(k as int + 1).drop_last() =~= views.take(k as int));
            assert(views.take(k as int + 1).last() == folder_view(fs@[k as int]));
        }
        if fs[k].display_order > m {
            m = fs[k].display_order;
        }
        k += 1;
    }
    proof {
        assert(views.take(fs@.len() as int) =~= views);
    }
    m
}

/// Upper bound on display orders: `b` bounds every profile's order.
pub proof fn lemma_max_in_folder_le(ps: Seq<ConnectionProfile>, f: u128, b: int)
    requires
        b >= -1,
        forall|k: int| 0 <= k < ps.len() ==> #[trigger] ps[k].display_order <= b,
    ensures
        max_in_folder(ps, f) <= b,
    decreases ps.len(),
{
    if ps.len() > 0 {
        lemma_max_in_folder_le(ps.drop_last(), f, b);
    }
}

/// The state before the first step, from the current folders and profiles.
fn start_work(fs: &Vec<Folder>, ps: &Vec<ConnectionProfile>) -> (w: ImportWork)
    requires
        forall|k: int| 0 <= k < ps@.len() ==> #[trigger] ps@[k].display_order < i32::MAX,
    ensures
        work_wf(w),
        work_view(w, fs@, ps@) == import_start(fs@, ps@),
{
    let mut names: Vec<(String, u128)> = Vec::new();
    let mut orders: Vec<(u128, i32)> = Vec::new();
    let mut i: usize = 0;
    assert(names_view(names@) =~= Seq::<(Seq<char>, u128)>::empty());
    assert(orders_view(orders@) =~= Seq::<(u128, int)>::empty());
    assert(assoc_map(orders_view(orders@)) =~= Map::new(|id: u128| has_folder_id(fs@.take(0), id), |id: u128| max_in_folder(ps@, id) + 1));
    assert(assoc_map(names_view(names@)) =~= fold_insert(name_entries(fs@.take(0))));
    while i < fs.len()
        invariant
            0 <= i <= fs@.len(),
            forall|k: int| 0 <= k < ps@.len() ==> #[trigger] ps@[k].display_order < i32::MAX,
            keys_distinct(names_view(names@)),
            keys_distinct(orders_view(orders@)),
            assoc_map(names_view(names@)) == fold_insert(name_entries(fs@.take(i as int))),
            assoc_map(orders_view(orders@)) == Map::new(|id: u128| has_folder_id(fs@.take(i as int), id), |id: u128| max_in_folder(ps@, id) + 1),
        decreases fs@.len() - i,
    {
        let f = &fs[i];
        proof {
            assert(fs@.take(i as int + 1).drop_last() =~= fs@.take(i as int));
            assert(fs@.take(i as int + 1).last() == fs@[i as int]);
            lemma_max_in_folder_le(ps@, f.id, i32::MAX - 1);
        }
        let ghost prev_map = assoc_map(names_view(names@));
        if !f.is_system {
            let key = crate::text::to_lowercase(f.name.as_str());
            let ghost before = names_view(names@);
            match find_name(&names, key.as_str()) {
                Some(k) => {
                    let n = names[k].0.clone();
                    names.set(k, (n, f.id));
                    proof {
                        lemma_assoc_update(before, k as int, f.id);
                        assert(names_view(names@) =~= before.update(k as int, (before[k as int].0, f.id)));
                        let ne = name_entries(fs@.take(i as int));
                        assert(name_entries(fs@.take(i as int + 1)) == ne.push((key@, f.id)));
                        assert(ne.push((key@, f.id)).drop_last() =~= ne);
                    }
                },
                None => {
                    names.push((key, f.id));
                    proof {
                        lemma_assoc_push(before, key@, f.id);
                        assert(names_view(names@) =~= before.push((key@, f.id)));
                        let ne = name_entries(fs@.take(i as int));
                        assert(name_entries(fs@.take(i as int + 1)) == ne.push((key@, f.id)));
                        assert(ne.push((key@, f.id)).drop_last() =~= ne);
                    }
                },
            }
        }
        proof {
            if f.is_system {
                assert(name_entries(fs@.take(i as int + 1)) == name_entries(fs@.take(i as int)));
            }
        }
        let ghost obefore = orders_view(orders@);
        let ghost target = Map::new(|id: u128| has_folder_id(fs@.take(i as int + 1), id), |id: u128| max_in_folder(ps@, id) + 1);
        match find_order(&orders, f.id) {
            Some(_) => {
                proof {
                    lemma_has_folder_id_take(fs@, i as int);
                    assert(assoc_map(obefore).contains_key(f.id)) by {
                        let t = choose|t: int| 0 <= t < orders@.len() && orders@[t].0 == f.id;
                        assert(obefore[t].0 == f.id);
                    }
                    assert(assoc_map(orders_view(orders@)) =~= target);
                }
            },
            None => {
                let m = max_order_in_folder(ps, f.id);
                orders.push((f.id, m + 1));
                proof {
                    lemma_assoc_push(obefore, f.id, (m + 1) as int);
                    assert(orders_view(orders@) =~= obefore.push((f.id, (m + 1) as int)));
                    lemma_has_folder_id_take(fs@, i as int);
                    assert(assoc_map(orders_view(orders@)) =~= target);
                }
            },
        }
        i += 1;
    }
    proof {
        assert(fs@.take(fs@.len() as int) =~= fs@);
    }
    let w = ImportWork {
        names,
        next_order: orders,
        imported: 0,
        skipped: 0,
        created: 0,
        errors: Vec::new(),
        creds: Vec::new(),
        ids: Vec::new(),
    };
    proof {
        assert(strings_view(w.errors@) =~= Seq::<Seq<char>>::empty());
        assert(creds_view(w.creds@) =~= Seq::<(u128, u128, Seq<char>)>::empty());
    }
    w
}

/// Set the next display order of folder `id`.
fn set_order(orders: &mut Vec<(u128, i32)>, id: u128, v: i32)
    requires
        keys_distinct(orders_view(old(orders)@)),
    ensures
        keys_distinct(orders_view(final(orders)@)),
        assoc_map(orders_view(final(orders)@)) == assoc_map(orders_view(old(orders)@)).insert(id, v as int),
{
    let ghost before = orders_view(orders@);
    match find_order(orders, id) {
        Some(k) => {
            orders.set(k, (id, v));
            proof {
                lemma_assoc_update(before, k as int, v as int);
                assert(orders_view(orders@) =~= before.update(k as int, (before[k as int].0, v as int)));
            }
        },
        None => {
            orders.push((id, v));
            proof {
                lemma_assoc_push(before, id, v as int);
                assert(orders_view(orders@) =~= before.push((id, v as int)));
            }
        },
    }
}

/// One step of the folder import.
fn import_folder(fs: &mut Vec<Folder>, w: &mut ImportWork, ps: &Vec<ConnectionProfile>, ef: &ExportedFolder, now: i64)
    requires
        work_wf(*old(w)),
        max_view_order(old(fs)@.map_values(|f: Folder| folder_view(f))) < i32::MAX,
        old(w).created < u32::MAX,
        all_v4(old(w).ids@),
    ensures
        work_wf(*final(w)),
        all_v4(final(w).ids@),
        work_view(*final(w), final(fs)@, ps@) == folder_step(work_view(*old(w), old(fs)@, ps@), ef@, final(w).ids@, now),
        final(w).ids@.take(old(w).ids@.len() as int) == old(w).ids@,
        final(w).ids@.len() >= old(w).ids@.len(),
        final(fs)@.len() >= old(fs)@.len(),
        final(fs)@.take(old(fs)@.len() as int) == old(fs)@,
        max_view_order(final(fs)@.map_values(|f: Folder| folder_view(f)))
            <= max_view_order(old(fs)@.map_values(|f: Folder| folder_view(f))) + 1,
        final(w).created <= old(w).created + 1,
        final(w).imported == old(w).imported,
        final(w).skipped == old(w).skipped,
        final(w).errors == old(w).errors,
        final(w).creds == old(w).creds,
{
    let ghost st = work_view(*w, fs@, ps@);
    let ghost fs0 = fs@;
    proof {
        assert(w.ids@.take(w.ids@.len() as int) =~= w.ids@);
        assert(fs@.take(fs@.len() as int) =~= fs@);
    }
    let trimmed = trim_str(ef.name.as_str());
    if trimmed.is_empty() || str_eq(trimmed, SYSTEM_FOLDER_NAME) {
        return;
    }
    let key = to_lowercase(trimmed);
    let ghost nb = names_view(w.names@);
    match find_name(&w.names, key.as_str()) {
        Some(k) => {
            proof {
                assert(nb[k as int].0 == key@);
                assert(has_key(nb, key@));
            }
            return;
        },
        None => {},
    }
    let max_order = max_folder_display_order(fs);
    let id = new_uuid();
    let ghost ids0 = w.ids@;
    w.ids.push(id);
    proof {
        assert(all_v4(w.ids@)) by {
            assert forall|k: int| 0 <= k < w.ids@.len() implies crate::text::is_v4_uuid(#[trigger] w.ids@[k]) by {
                if k < ids0.len() {
                    assert(w.ids@[k] == ids0[k]);
                }
            }
        }
    }
    let folder = Folder {
        id,
        name: trimmed.to_owned(),
        display_order: max_order + 1,
        is_system: false,
        is_expanded: ef.is_expanded,
        created_at: now,
        updated_at: now,
    };
    set_order(&mut w.next_order, id, 0);
    w.names.push((key, id));
    proof {
        lemma_assoc_push(nb, key@, id);
        assert(names_view(w.names@) =~= nb.push((key@, id)));
    }
    fs.push(folder);
    w.created = w.created + 1;
    proof {
        assert(w.ids@[ids0.len() as int] == id);
        assert(w.ids@.take(ids0.len() as int) =~= ids0);
        assert(fs@.take(fs0.len() as int) =~= fs0);
        let nv = fs@.map_values(|f: Folder| folder_view(f));
        let ov = fs0.map_values(|f: Folder| folder_view(f));
        assert(nv =~= ov.push(folder_view(folder)));
        assert(nv.drop_last() =~= ov);
    }
}

/// Whether a profile with exactly this name and host exists.
fn has_profile_exec(ps: &Vec<ConnectionProfile>, name: &String, host: &String) -> (r: bool)
    ensures
        r == has_profile(ps@.map_values(|p: ConnectionProfile| profile_view(p)), name@, host@),
{
    let ghost views = ps@.map_values(|p: ConnectionProfile| profile_view(p));
    let mut k: usize = 0;
    while k < ps.len()
        invariant
            0 <= k <= ps@.len(),
            views == ps@.map_values(|p: ConnectionProfile| profile_view(p)),
            forall|j: int| 0 <= j < k ==> !(views[j].name == name@ && views[j].host == host@),
        decreases ps@.len() - k,
    {
        if ps[k].name == *name && ps[k].host == *host {
            assert(views[k as int].name == name@ && views[k as int].host == host@);
            return true;
        }
        k += 1;
    }
    false
}

/// Auth method from its export label and key path.
fn auth_from(label: &str, path: &Option<String>) -> (r: AuthMethodConfig)
    ensures
        auth_view(r) == auth_of(label@, opt_view(*path)),
{
    if str_eq(label, "publickey") {
        let p = match path {
            Some(x) => x.clone(),
            None => "~/.ssh/id_rsa".to_owned(),
        };
        AuthMethodConfig::PublicKey { private_key_path: p, passphrase_in_keychain: false }
    } else if str_eq(label, "keyboard-interactive") {
        AuthMethodConfig::KeyboardInteractive
    } else {
        AuthMethodConfig::Password
    }
}

pub proof fn lemma_first_user_at(eus: Seq<ExportedUserView>, name: Seq<char>, i: int)
    requires
        0 <= i <= eus.len(),
        forall|j: int| 0 <= j < i ==> (#[trigger] eus[j]).username != name,
        i == eus.len() || eus[i].username == name,
    ensures
        first_user(eus, name) == if i == eus.len() { -1 } else { i },
    decreases i,
{
    if i > 0 {
        assert forall|j: int| 0 <= j < i - 1 implies (#[trigger] eus.drop_first()[j]).username != name by {
            assert(eus.drop_first()[j] == eus[j + 1]);
        }
        lemma_first_user_at(eus.drop_first(), name, i - 1);
    }
}

/// Position of the first exported user with this username.
fn first_listed(eus: &Vec<ExportedUser>, username: &String) -> (r: Option<usize>)
    ensures
        match r {
            Some(i) => i < eus@.len() && first_user(eus@.map_values(|u: ExportedUser| u@), username@) == i as int,
            None => first_user(eus@.map_values(|u: ExportedUser| u@), username@) == -1,
        },
{
    let ghost views = eus@.map_values(|u: ExportedUser| u@);
    let mut i: usize = 0;
    while i < eus.len()
        invariant
            0 <= i <= eus@.len(),
            views == eus@.map_values(|u: ExportedUser| u@),
            forall|j: int| 0 <= j < i ==> (#[trigger] views[j]).username != username@,
        decreases eus@.len() - i,
    {
        if eus[i].username == *username {
            proof {
                lemma_first_user_at(views, username@, i as int);
            }
            return Some(i);
        }
        i += 1;
    }
    proof {
        lemma_first_user_at(views, username@, i as int);
    }
    None
}

/// Users of the current export format, each with a fresh id.
fn make_listed_users(eus: &Vec<ExportedUser>, ids: &mut Vec<u128>) -> (r: Vec<UserCredential>)
    requires
        all_v4(old(ids)@),
    ensures
        all_v4(final(ids)@),
        final(ids)@.len() == old(ids)@.len() + eus@.len(),
        final(ids)@.take(old(ids)@.len() as int) == old(ids)@,
        r@.map_values(|u: UserCredential| user_view(u))
            == listed_users(eus@.map_values(|u: ExportedUser| u@), final(ids)@, old(ids)@.len()),
{
    let ghost ids0 = ids@;
    let ghost views = eus@.map_values(|u: ExportedUser| u@);
    let mut users: Vec<UserCredential> = Vec::new();
    let mut j: usize = 0;
    while j < eus.len()
        invariant
            0 <= j <= eus@.len(),
            views == eus@.map_values(|u: ExportedUser| u@),
            ids@.len() == ids0.len() + j,
            ids@.take(ids0.len() as int) == ids0,
            all_v4(ids@),
            users@.len() == j,
            forall|t: int| 0 <= t < j ==> user_view(#[trigger] users@[t]) == (UserView {
                id: ids@[ids0.len() + t],
                username: views[t].username,
                auth: auth_of(views[t].auth_method, views[t].private_key_path),
                is_default: views[t].is_default,
            }),
        decreases eus@.len() - j,
    {
        let eu = &eus[j];
        let id = new_uuid();
        let ghost before = ids@;
        ids.push(id);
        proof {
            assert(ids@.take(ids0.len() as int) =~= before.take(ids0.len() as int));
            assert forall|k: int| 0 <= k < ids@.len() implies crate::text::is_v4_uuid(#[trigger] ids@[k]) by {
                if k < before.len() {
                    assert(ids@[k] == before[k]);
                }
            }
        }
        let auth = auth_from(eu.auth_method.as_str(), &eu.private_key_path);
        users.push(UserCredential { id, username: eu.username.clone(), auth_method: auth, is_default: eu.is_default });
        j += 1;
    }
    proof {
        assert(users@.map_values(|u: UserCredential| user_view(u)) =~= listed_users(views, ids@, ids0.len()));
    }
    users
}

/// Passwords to store for the listed users of a profile.
fn listed_creds(eus: &Vec<ExportedUser>, users: &Vec<UserCredential>, pid: u128) -> (r: Vec<(u128, u128, String)>)
    ensures
        creds_view(r@) == listed_credentials(eus@.map_values(|u: ExportedUser| u@), users@.map_values(|u: UserCredential| user_view(u)), pid),
{
    let ghost ev = eus@.map_values(|u: ExportedUser| u@);
    let ghost uv = users@.map_values(|u: UserCredential| user_view(u));
    let mut out: Vec<(u128, u128, String)> = Vec::new();
    let mut j: usize = 0;
    assert(creds_view(out@) =~= listed_credentials(ev, uv.take(0), pid));
    while j < users.len()
        invariant
            0 <= j <= users@.len(),
            ev == eus@.map_values(|u: ExportedUser| u@),
            uv == users@.map_values(|u: UserCredential| user_view(u)),
            creds_view(out@) == listed_credentials(ev, uv.take(j as int), pid),
        decreases users@.len() - j,
    {
        let u = &users[j];
        proof {
            assert(uv.take(j as int + 1).drop_last() =~= uv.take(j as int));
            assert(uv.take(j as int + 1).last() == user_view(users@[j as int]));
        }
        let ghost before = out@;
        match first_listed(eus, &u.username) {
            Some(i) => {
                match &eus[i].password {
                    Some(pw) => {
                        if !pw.as_str().is_empty() {
                            out.push((pid, u.id, pw.clone()));
                            proof {
                                assert(creds_view(out@) =~= creds_view(before).push((pid, u.id, pw@)));
                            }
                        }
                    },
                    None => {},
                }
            },
            None => {},
        }
        j += 1;
    }
    proof {
        assert(uv.take(users@.len() as int) =~= uv);
    }
    out
}

/// One step of the profile import.
fn import_profile(ps: &mut Vec<ConnectionProfile>, w: &mut ImportWork, fs: &Vec<Folder>, ep: &ExportedProfile, sys: u128, now: i64)
    requires
        work_wf(*old(w)),
        old(w).imported < u32::MAX,
        old(w).skipped < u32::MAX,
        forall|id: u128| #[trigger] assoc_map(orders_view(old(w).next_order@)).contains_key(id)
            ==> assoc_map(orders_view(old(w).next_order@))[id] < i32::MAX,
        all_v4(old(w).ids@),
    ensures
        work_wf(*final(w)),
        all_v4(final(w).ids@),
        work_view(*final(w), fs@, final(ps)@) == profile_step(work_view(*old(w), fs@, old(ps)@), ep@, sys, final(w).ids@, now),
        final(w).ids@.take(old(w).ids@.len() as int) == old(w).ids@,
        final(w).ids@.len() >= old(w).ids@.len(),
        final(ps)@.len() >= old(ps)@.len(),
        final(ps)@.take(old(ps)@.len() as int) == old(ps)@,
        final(w).created == old(w).created,
{
    let ghost st = work_view(*w, fs@, ps@);
    let ghost ps0 = ps@;
    let ghost ids0 = w.ids@;
    proof {
        assert(w.ids@.take(w.ids@.len() as int) =~= w.ids@);
        assert(ps@.take(ps@.len() as int) =~= ps@);
    }
    if has_profile_exec(ps, &ep.name, &ep.host) {
        w.skipped = w.skipped + 1;
        return;
    }
    if trim_str(ep.name.as_str()).is_empty() || trim_str(ep.host.as_str()).is_empty() {
        let msg = "Skipped invalid profile: '".to_owned().concat(ep.name.as_str()).concat("'");
        let ghost eb = w.errors@;
        w.errors.push(msg);
        proof {
            assert(strings_view(w.errors@) =~= strings_view(eb).push(msg@));
        }
        return;
    }
    let users: Vec<UserCredential> = if ep.users.len() > 0 {
        make_listed_users(&ep.users, &mut w.ids)
    } else {
        match &ep.username {
            Some(u) => {
                if trim_str(u.as_str()).is_empty() {
                    let msg = "Skipped invalid profile: '".to_owned().concat(ep.name.as_str()).concat("' (no username)");
                    let ghost eb = w.errors@;
                    w.errors.push(msg);
                    proof {
                        assert(strings_view(w.errors@) =~= strings_view(eb).push(msg@));
                    }
                    return;
                }
                let label: &str = match &ep.auth_method {
                    Some(a) => a.as_str(),
                    None => "password",
                };
                let auth = auth_from(label, &ep.private_key_path);
                let id = new_uuid();
                let ghost before = w.ids@;
                w.ids.push(id);
                proof {
                    assert forall|k: int| 0 <= k < w.ids@.len() implies crate::text::is_v4_uuid(#[trigger] w.ids@[k]) by {
                        if k < before.len() {
                            assert(w.ids@[k] == before[k]);
                        }
                    }
                }
                let mut one: Vec<UserCredential> = Vec::new();
                one.push(UserCredential { id, username: u.clone(), auth_method: auth, is_default: true });
                proof {
                    assert(w.ids@.take(ids0.len() as int) =~= ids0);
                }
                one
            },
            None => {
                let msg = "Skipped profile with no users: '".to_owned().concat(ep.name.as_str()).concat("'");
                let ghost eb = w.errors@;
                w.errors.push(msg);
                proof {
                    assert(strings_view(w.errors@) =~= strings_view(eb).push(msg@));
                }
                return;
            },
        }
    };
    let ghost uv = users@.map_values(|u: UserCredential| user_view(u));
    let ghost ids1 = w.ids@;
    let pid = new_uuid();
    w.ids.push(pid);
    proof {
        assert forall|k: int| 0 <= k < w.ids@.len() implies crate::text::is_v4_uuid(#[trigger] w.ids@[k]) by {
            if k < ids1.len() {
                assert(w.ids@[k] == ids1[k]);
            }
        }
    }
    proof {
        assert(w.ids@.take(ids1.len() as int) =~= ids1);
        assert(w.ids@.take(ids0.len() as int) =~= ids0) by {
            assert(ids1.take(ids0.len() as int) =~= ids0);
        }
    }
    let target: u128 = match &ep.folder_name {
        Some(n) => {
            let key = to_lowercase(trim_str(n.as_str()));
            match find_name(&w.names, key.as_str()) {
                Some(k) => {
                    proof {
                        lemma_assoc_at(names_view(w.names@), k as int);
                    }
                    w.names[k].1
                },
                None => sys,
            }
        },
        None => sys,
    };
    let order: i32 = match find_order(&w.next_order, target) {
        Some(k) => {
            proof {
                lemma_assoc_at(orders_view(w.next_order@), k as int);
            }
            w.next_order[k].1
        },
        None => 0,
    };
    let mut creds = listed_creds(&ep.users, &users, pid);
    if ep.users.len() == 0 && users.len() > 0 {
        match &ep.password {
            Some(pw) => {
                if !pw.as_str().is_empty() {
                    let ghost cb = creds@;
                    creds.push((pid, users[0].id, pw.clone()));
                    proof {
                        assert(creds_view(creds@) =~= creds_view(cb).push((pid, users@[0].id, pw@)));
                    }
                }
            },
            None => {},
        }
    }
    let ghost wc = w.creds@;
    let ghost wb = *w;
    let mut i: usize = 0;
    while i < creds.len()
        invariant
            0 <= i <= creds@.len(),
            creds_view(w.creds@) == creds_view(wc) + creds_view(creds@).take(i as int),
            w.names == wb.names,
            w.next_order == wb.next_order,
            w.imported == wb.imported,
            w.skipped == wb.skipped,
            w.created == wb.created,
            w.errors == wb.errors,
            w.ids == wb.ids,
        decreases creds@.len() - i,
    {
        let c = (creds[i].0, creds[i].1, creds[i].2.clone());
        let ghost cb = w.creds@;
        w.creds.push(c);
        proof {
            assert(creds_view(w.creds@) =~= creds_view(cb).push((c.0, c.1, c.2@)));
            assert(creds_view(creds@).take(i as int + 1) =~= creds_view(creds@).take(i as int).push(creds_view(creds@)[i as int]));
        }
        i += 1;
    }
    proof {
        assert(creds_view(creds@).take(creds@.len() as int) =~= creds_view(creds@));
    }
    set_order(&mut w.next_order, target, order + 1);
    let profile = ConnectionProfile {
        id: pid,
        name: ep.name.clone(),
        host: ep.host.clone(),
        port: ep.port,
        username: None,
        auth_method: None,
        users,
        startup_directory: None,
        tunnels: Vec::new(),
        display_order: order,
        folder_id: Some(target),
        created_at: now,
        updated_at: now,
    };
    ps.push(profile);
    w.imported = w.imported + 1;
    proof {
        assert(ps@.take(ps0.len() as int) =~= ps0);
        let nv = ps@.map_values(|p: ConnectionProfile| profile_view(p));
        let ov = ps0.map_values(|p: ConnectionProfile| profile_view(p));
        assert(profile_view(profile).users == uv);
        assert(profile_view(profile).tunnels =~= Seq::<TunnelConfig>::empty());
        assert(nv =~= ov.push(profile_view(profile)));
        let ids = w.ids@;
        if ep@.users.len() > 0 {
            assert(listed_users(ep@.users, ids, ids0.len()) =~= listed_users(ep@.users, ids1, ids0.len()));
            assert(uv == listed_users(ep@.users, ids, ids0.len()));
        } else {
            assert(uv =~= seq![uv[0]]);
        }
        assert(ids1.len() == ids0.len() + uv.len());
        assert(ids[ids1.len() as int] == pid);
    }
}

// ─── Frame facts: a step reads only the ids it takes ────

pub proof fn lemma_folders_used(st: ImportState, efs: Seq<ExportedFolderView>, ids: Seq<u128>, now: i64)
    ensures
        import_folders(st, efs, ids, now).used >= st.used,
    decreases efs.len(),
{
    if efs.len() > 0 {
        lemma_folders_used(st, efs.drop_last(), ids, now);
    }
}

pub proof fn lemma_folders_frame(st: ImportState, efs: Seq<ExportedFolderView>, a: Seq<u128>, b: Seq<u128>, now: i64)
    requires
        a.len() <= b.len(),
        b.take(a.len() as int) == a,
        import_folders(st, efs, a, now).used <= a.len(),
    ensures
        import_folders(st, efs, b, now) == import_folders(st, efs, a, now),
    decreases efs.len(),
{
    if efs.len() > 0 {
        let inner = import_folders(st, efs.drop_last(), a, now);
        assert(inner.used <= import_folders(st, efs, a, now).used);
        lemma_folders_frame(st, efs.drop_last(), a, b, now);
        if inner.used < a.len() {
            assert(b[inner.used as int] == b.take(a.len() as int)[inner.used as int]);
        }
    }
}

pub proof fn lemma_profile_step_used(st: ImportState, ep: ExportedProfileView, sys: u128, ids: Seq<u128>, now: i64)
    ensures
        profile_step(st, ep, sys, ids, now).used >= st.used,
{
}

pub proof fn lemma_profiles_used(st: ImportState, eps: Seq<ExportedProfileView>, sys: u128, ids: Seq<u128>, now: i64)
    ensures
        import_profiles_in(st, eps, sys, ids, now).used >= st.used,
    decreases eps.len(),
{
    if eps.len() > 0 {
        lemma_profiles_used(st, eps.drop_last(), sys, ids, now);
    }
}

pub proof fn lemma_profile_step_frame(st: ImportState, ep: ExportedProfileView, sys: u128, a: Seq<u128>, b: Seq<u128>, now: i64)
    requires
        a.len() <= b.len(),
        b.take(a.len() as int) == a,
        profile_step(st, ep, sys, a, now).used <= a.len(),
    ensures
        profile_step(st, ep, sys, b, now) == profile_step(st, ep, sys, a, now),
{
    if !has_profile(st.profiles, ep.name, ep.host) && !(trim(ep.name).len() == 0 || trim(ep.host).len() == 0) {
        if ep.users.len() > 0 {
            let n = ep.users.len();
            assert forall|x: int| st.used <= x < st.used + n implies #[trigger] a[x] == b[x] by {
                assert(b.take(a.len() as int)[x] == b[x]);
            }
            assert(listed_users(ep.users, b, st.used) =~= listed_users(ep.users, a, st.used));
            assert(a[(st.used + n) as int] == b.take(a.len() as int)[(st.used + n) as int]);
        } else if ep.username is Some && trim(ep.username->0).len() > 0 {
            assert(a[st.used as int] == b.take(a.len() as int)[st.used as int]);
            assert(a[(st.used + 1) as int] == b.take(a.len() as int)[(st.used + 1) as int]);
        }
    }
}

pub proof fn lemma_profiles_frame(st: ImportState, eps: Seq<ExportedProfileView>, sys: u128, a: Seq<u128>, b: Seq<u128>, now: i64)
    requires
        a.len() <= b.len(),
        b.take(a.len() as int) == a,
        import_profiles_in(st, eps, sys, a, now).used <= a.len(),
    ensures
        import_profiles_in(st, eps, sys, b, now) == import_profiles_in(st, eps, sys, a, now),
    decreases eps.len(),
{
    if eps.len() > 0 {
        let inner = import_profiles_in(st, eps.drop_last(), sys, a, now);
        lemma_profile_step_used(inner, eps.last(), sys, a, now);
        lemma_profiles_frame(st, eps.drop_last(), sys, a, b, now);
        lemma_profile_step_frame(inner, eps.last(), sys, a, b, now);
    }
}

pub proof fn lemma_max_view_order_le(fs: Seq<FolderView>, b: int)
    requires
        b >= -1,
        forall|j: int| 0 <= j < fs.len() ==> #[trigger] fs[j].display_order <= b,
    ensures
        max_view_order(fs) <= b,
    decreases fs.len(),
{
    if fs.len() > 0 {
        lemma_max_view_order_le(fs.drop_last(), b);
    }
}

// ─── The import ─────────────────────────────────────────

/// Orders and counts stay in range during an import: every display order
/// plus the number of items to import stays below `i32::MAX`, and the item
/// counts fit the `u32` counters.
pub open spec fn import_fits(fs: Seq<Folder>, ps: Seq<ConnectionProfile>, env: ExportEnvelopeView) -> bool {
    &&& env.profiles.len() + 2 <= i32::MAX
    &&& env.folders.len() + 1 <= i32::MAX
    &&& forall|k: int| 0 <= k < ps.len() ==> #[trigger] ps[k].display_order + env.profiles.len() + 2 <= i32::MAX
    &&& forall|j: int| 0 <= j < fs.len() ==> #[trigger] fs[j].display_order + env.folders.len() + 1 <= i32::MAX
}

/// The import state `st` is what the outcome and the new folders and
/// profiles show.
pub open spec fn outcome_shows(st: ImportState, out: ImportOutcome, fs: Seq<Folder>, ps: Seq<ConnectionProfile>) -> bool {
    &&& st.folders == fs.map_values(|f: Folder| folder_view(f))
    &&& st.profiles == ps.map_values(|p: ConnectionProfile| profile_view(p))
    &&& st.imported == out.imported
    &&& st.skipped == out.skipped
    &&& st.created == out.created_folders
    &&& st.errors == strings_view(out.errors@)
    &&& st.creds == creds_view(out.credentials@)
    &&& st.used == out.fresh_ids@.len()
}

/// Id of the first system folder, if any.
pub(crate) fn first_system_folder(fs: &Vec<Folder>) -> (r: Option<u128>)
    ensures
        match r {
            Some(id) => has_system_folder(fs@) && system_pos(fs@) >= 0 && id == fs@[system_pos(fs@)].id,
            None => !has_system_folder(fs@),
        },
{
    proof {
        lemma_system_pos(fs@);
    }
    let mut i: usize = 0;
    while i < fs.len()
        invariant
            0 <= i <= fs@.len(),
            forall|j: int| 0 <= j < i ==> !fs@[j].is_system,
            -1 <= system_pos(fs@) < fs@.len(),
            system_pos(fs@) >= 0 ==> fs@[system_pos(fs@)].is_system
                && forall|j: int| 0 <= j < system_pos(fs@) ==> !fs@[j].is_system,
            system_pos(fs@) == -1 ==> forall|j: int| 0 <= j < fs@.len() ==> !fs@[j].is_system,
        decreases fs@.len() - i,
    {
        if fs[i].is_system {
            assert(has_system_folder(fs@));
            return Some(fs[i].id);
        }
        i += 1;
    }
    None
}

/// Import an envelope into the folders and profiles, at time `now`. Folders
/// come first, then profiles, each in import order; fresh ids are drawn as
/// needed and given back in the outcome, with the counts, the messages of
/// skipped profiles and the passwords to store.
pub fn import_envelope(folders: &mut Vec<Folder>, profiles: &mut Vec<ConnectionProfile>, envelope: &ExportEnvelope, now: i64) -> (r: Result<ImportOutcome, AppError>)
    requires
        import_fits(old(folders)@, old(profiles)@, envelope@),
    ensures
        match r {
            Ok(out) => {
                &&& out.imported_at == now
                &&& all_v4(out.fresh_ids@)
                &&& import_spec(old(folders)@, old(profiles)@, envelope@, out.fresh_ids@, now) is Ok
                &&& outcome_shows(import_spec(old(folders)@, old(profiles)@, envelope@, out.fresh_ids@, now)->Ok_0, out, final(folders)@, final(profiles)@)
                &&& final(folders)@.take(old(folders)@.len() as int) == old(folders)@
                &&& final(profiles)@.take(old(profiles)@.len() as int) == old(profiles)@
            },
            Err(e) => {
                &&& import_spec(old(folders)@, old(profiles)@, envelope@, seq![], now) == Err::<ImportState, AppErrorView>(e@)
                &&& final(folders)@ == old(folders)@
                &&& final(profiles)@ == old(profiles)@
            },
        },
{
    if !str_eq(envelope.app.as_str(), "NexTerm") {
        return Err(AppError::ProfileError("File is not a NexTerm export".to_owned()));
    }
    let sys = match first_system_folder(folders) {
        Some(id) => id,
        None => {
            return Err(AppError::ProfileError("System folder not found during import".to_owned()));
        },
    };
    let ghost fs0 = folders@;
    let ghost ps0 = profiles@;
    let ghost env = envelope@;
    let ghost pb: int = i32::MAX - env.profiles.len() - 2;
    let ghost fb: int = i32::MAX - env.folders.len() - 1;
    let mut w = start_work(folders, profiles);
    let ghost st0 = import_start(fs0, ps0);
    let forder = folder_order(&envelope.folders);
    let ghost fsorted = forder@.map_values(|k: usize| envelope.folders@[k as int]@);
    proof {
        lemma_stable_sort_len(env.folders, |a: ExportedFolderView, b: ExportedFolderView| folder_before(a, b));
        assert(fsorted.len() == env.folders.len());
        assert(fsorted.take(0) =~= Seq::<ExportedFolderView>::empty());
        assert(folders@.take(fs0.len() as int) =~= fs0);
        assert(w.ids@ =~= Seq::<u128>::empty());
        lemma_max_view_order_le(st0.folders, fb);
        assert forall|k: int| 0 <= k < ps0.len() implies #[trigger] ps0[k].display_order <= pb by {
            assert(ps0[k].display_order + env.profiles.len() + 2 <= i32::MAX);
        }
        assert forall|id: u128| #[trigger] st0.next_order.contains_key(id) implies st0.next_order[id] <= pb + 1 by {
            lemma_max_in_folder_le(ps0, id, pb);
        }
        assert(assoc_map(orders_view(w.next_order@)) == st0.next_order);
    }
    let mut i: usize = 0;
    while i < forder.len()
        invariant
            0 <= i <= forder@.len(),
            forder@.len() == envelope.folders@.len(),
            forall|j: int| 0 <= j < forder@.len() ==> #[trigger] forder@[j] < envelope.folders@.len(),
            fsorted == forder@.map_values(|k: usize| envelope.folders@[k as int]@),
            env == envelope@,
            import_fits(fs0, ps0, env),
            pb == i32::MAX - env.profiles.len() - 2,
            fb == i32::MAX - env.folders.len() - 1,
            work_wf(w),
            all_v4(w.ids@),
            work_view(w, folders@, profiles@) == import_folders(st0, fsorted.take(i as int), w.ids@, now),
            profiles@ == ps0,
            folders@.len() >= fs0.len(),
            folders@.take(fs0.len() as int) == fs0,
            w.created <= i,
            w.imported == 0,
            w.skipped == 0,
            max_view_order(folders@.map_values(|f: Folder| folder_view(f))) <= fb + i,
            forall|id: u128| #[trigger] assoc_map(orders_view(w.next_order@)).contains_key(id)
                ==> assoc_map(orders_view(w.next_order@))[id] <= pb + 1,
        decreases forder@.len() - i,
    {
        let ghost ids_before = w.ids@;
        let ghost st_before = work_view(w, folders@, profiles@);
        let ghost fsb = folders@;
        let k = forder[i];
        import_folder(folders, &mut w, profiles, &envelope.folders[k], now);
        proof {
            assert(fsorted[i as int] == envelope.folders@[k as int]@);
            assert(fsorted.take(i as int + 1).drop_last() =~= fsorted.take(i as int));
            assert(fsorted.take(i as int + 1).last() == fsorted[i as int]);
            lemma_folders_frame(st0, fsorted.take(i as int), ids_before, w.ids@, now);
            assert(folders@.take(fs0.len() as int) =~= fs0) by {
                assert(folders@.take(fsb.len() as int) == fsb);
                assert(fsb.take(fs0.len() as int) == fs0);
            }
        }
        i += 1;
    }
    proof {
        assert(fsorted.take(forder@.len() as int) =~= fsorted);
    }
    let ghost st1 = work_view(w, folders@, profiles@);
    let ghost ids1 = w.ids@;
    let ghost fs1 = folders@;
    let porder = profile_order(&envelope.profiles);
    let ghost psorted = porder@.map_values(|k: usize| envelope.profiles@[k as int]@);
    proof {
        lemma_stable_sort_len(env.profiles, |a: ExportedProfileView, b: ExportedProfileView| profile_before(a, b));
        assert(psorted.take(0) =~= Seq::<ExportedProfileView>::empty());
        assert(profiles@.take(ps0.len() as int) =~= ps0);
        assert(w.ids@.take(ids1.len() as int) =~= ids1);
    }
    let mut t: usize = 0;
    while t < porder.len()
        invariant
            0 <= t <= porder@.len(),
            porder@.len() == envelope.profiles@.len(),
            forall|j: int| 0 <= j < porder@.len() ==> #[trigger] porder@[j] < envelope.profiles@.len(),
            psorted == porder@.map_values(|k: usize| envelope.profiles@[k as int]@),
            env == envelope@,
            import_fits(fs0, ps0, env),
            pb == i32::MAX - env.profiles.len() - 2,
            work_wf(w),
            all_v4(w.ids@),
            st1.used <= w.ids@.len(),
            work_view(w, folders@, profiles@) == import_profiles_in(st1, psorted.take(t as int), sys, w.ids@, now),
            folders@ == fs1,
            folders@.take(fs0.len() as int) == fs0,
            profiles@.len() >= ps0.len(),
            profiles@.take(ps0.len() as int) == ps0,
            w.ids@.len() >= ids1.len(),
            w.ids@.take(ids1.len() as int) == ids1,
            w.imported <= t,
            w.skipped <= t,
            forall|id: u128| #[trigger] assoc_map(orders_view(w.next_order@)).contains_key(id)
                ==> assoc_map(orders_view(w.next_order@))[id] <= pb + 1 + t,
        decreases porder@.len() - t,
    {
        let ghost ids_before = w.ids@;
        let ghost psb = profiles@;
        let k = porder[t];
        import_profile(profiles, &mut w, folders, &envelope.profiles[k], sys, now);
        proof {
            assert(psorted[t as int] == envelope.profiles@[k as int]@);
            assert(psorted.take(t as int + 1).drop_last() =~= psorted.take(t as int));
            assert(psorted.take(t as int + 1).last() == psorted[t as int]);
            lemma_profiles_frame(st1, psorted.take(t as int), sys, ids_before, w.ids@, now);
            assert(profiles@.take(ps0.len() as int) =~= ps0) by {
                assert(profiles@.take(psb.len() as int) == psb);
                assert(psb.take(ps0.len() as int) == ps0);
            }
            assert(w.ids@.take(ids1.len() as int) =~= ids1) by {
                assert(w.ids@.take(ids_before.len() as int) == ids_before);
                assert(ids_before.take(ids1.len() as int) == ids1);
            }
        }
        t += 1;
    }
    proof {
        assert(psorted.take(porder@.len() as int) =~= psorted);
        assert(fs0[system_pos(fs0)].id == sys);
    }
    let out = ImportOutcome {
        imported: w.imported,
        skipped: w.skipped,
        created_folders: w.created,
        errors: w.errors,
        credentials: w.creds,
        fresh_ids: w.ids,
        imported_at: now,
    };
    proof {
        let ids = out.fresh_ids@;
        lemma_folders_frame(st0, fsorted, ids1, ids, now);
    }
    Ok(out)
}

/// Import an envelope into the folders and profiles, stamped with the
/// current time (microseconds since the Unix epoch).
pub fn import_envelope_now(folders: &mut Vec<Folder>, profiles: &mut Vec<ConnectionProfile>, envelope: &ExportEnvelope) -> (r: Result<ImportOutcome, AppError>)
    requires
        import_fits(old(folders)@, old(profiles)@, envelope@),
    ensures
        match r {
            Ok(out) => {
                &&& all_v4(out.fresh_ids@)
                &&& import_spec(old(folders)@, old(profiles)@, envelope@, out.fresh_ids@, out.imported_at) is Ok
                &&& outcome_shows(import_spec(old(folders)@, old(profiles)@, envelope@, out.fresh_ids@, out.imported_at)->Ok_0, out, final(folders)@, final(profiles)@)
                &&& final(folders)@.take(old(folders)@.len() as int) == old(folders)@
                &&& final(profiles)@.take(old(profiles)@.len() as int) == old(profiles)@
            },
            Err(e) => {
                &&& import_spec(old(folders)@, old(profiles)@, envelope@, seq![], 0) == Err::<ImportState, AppErrorView>(e@)
                &&& final(folders)@ == old(folders)@
                &&& final(profiles)@ == old(profiles)@
            },
        },
{
    let now = now_micros();
    import_envelope(folders, profiles, envelope, now)
}

/// Name of the credential under which an imported password is stored.
pub open spec fn import_cred_name(c: (u128, u128, Seq<char>)) -> Seq<char> {
    vault_key_text(c.0, Some(c.1), "password"@)
}

/// Whether storing `value` into a vault with this key fails.
pub open spec fn store_fails(key: Option<Seq<u8>>, value: Seq<char>) -> bool {
    key is None || encode_utf8(value).len() > aes_gcm_max_plaintext()
}

/// Messages for the imported passwords that cannot be stored.
pub open spec fn store_errors(key: Option<Seq<u8>>, creds: Seq<(u128, u128, Seq<char>)>) -> Seq<Seq<char>>
    decreases creds.len(),
{
    if creds.len() == 0 {
        seq![]
    } else {
        let rest = store_errors(key, creds.drop_last());
        if store_fails(key, creds.last().2) {
            rest.push("Failed to store credential: "@ + error_message(encrypt_error(key)))
        } else {
            rest
        }
    }
}

/// No later credential of the list has the same name as the one at `j`.
pub open spec fn last_with_name(creds: Seq<(u128, u128, Seq<char>)>, j: int) -> bool {
    forall|k: int| j < k < creds.len() ==> import_cred_name(#[trigger] creds[k]) != import_cred_name(creds[j])
}

/// Store imported passwords in the vault, if one is open; gives the messages
/// of those that could not be stored. Each password stored reads back from
/// the vault, unless a later one has the same name; other credentials are
/// untouched.
pub fn store_imported_credentials(vault: &mut Option<Vault>, creds: &Vec<(u128, u128, String)>) -> (errors: Vec<String>)
    requires
        (*old(vault)) matches Some(v) ==> v.wf(),
    ensures
        (*old(vault)) is None ==> (*final(vault)) is None && errors@.len() == 0,
        (*old(vault)) matches Some(v0) ==> {
            &&& (*final(vault)) is Some
            &&& final(vault)->Some_0.wf()
            &&& final(vault)->Some_0@.key == v0@.key
            &&& final(vault)->Some_0@.salt == v0@.salt
            &&& strings_view(errors@) == store_errors(v0@.key, creds_view(creds@))
            &&& forall|name: Seq<char>| (forall|k: int| 0 <= k < creds@.len() ==> import_cred_name(#[trigger] creds_view(creds@)[k]) != name)
                ==> read_spec(final(vault)->Some_0@, name) == read_spec(v0@, name)
            &&& forall|j: int| 0 <= j < creds@.len() && last_with_name(creds_view(creds@), j)
                && !store_fails(v0@.key, creds_view(creds@)[j].2)
                ==> read_spec(final(vault)->Some_0@, import_cred_name(creds_view(creds@)[j]))
                    == Ok::<Option<Seq<char>>, AppErrorView>(Some(creds_view(creds@)[j].2))
        },
{
    let mut errors: Vec<String> = Vec::new();
    match vault {
        None => {
            return errors;
        },
        Some(v) => {
            let ghost v0 = v@;
            let ghost cv = creds_view(creds@);
            let mut i: usize = 0;
            assert(strings_view(errors@) =~= store_errors(v0.key, cv.take(0)));
            while i < creds.len()
                invariant
                    0 <= i <= creds@.len(),
                    cv == creds_view(creds@),
                    v.wf(),
                    v@.key == v0.key,
                    v@.salt == v0.salt,
                    strings_view(errors@) == store_errors(v0.key, cv.take(i as int)),
                    forall|name: Seq<char>| (forall|k: int| 0 <= k < i ==> import_cred_name(#[trigger] cv[k]) != name)
                        ==> read_spec(v@, name) == read_spec(v0, name),
                    forall|j: int| 0 <= j < i && (forall|k: int| j < k < i ==> import_cred_name(#[trigger] cv[k]) != import_cred_name(cv[j]))
                        && !store_fails(v0.key, cv[j].2)
                        ==> read_spec(v@, import_cred_name(cv[j])) == Ok::<Option<Seq<char>>, AppErrorView>(Some(cv[j].2)),
                decreases creds@.len() - i,
            {
                let key = vault_key(creds[i].0, Some(creds[i].1), "password");
                let ghost before = v@;
                let ghost eb = errors@;
                let ghost c = cv[i as int];
                assert(c == (creds@[i as int].0, creds@[i as int].1, creds@[i as int].2@));
                match v.store(key.as_str(), creds[i].2.as_str()) {
                    Ok(()) => {
                        proof {
                            crate::vault::law_read_after_store(before, v@, key@, c.2);
                        }
                    },
                    Err(e) => {
                        let msg = "Failed to store credential: ".to_owned().concat(e.message().as_str());
                        errors.push(msg);
                        proof {
                            assert(strings_view(errors@) =~= strings_view(eb).push(msg@));
                        }
                    },
                }
                proof {
                    assert(cv.take(i as int + 1).drop_last() =~= cv.take(i as int));
                    assert(cv.take(i as int + 1).last() == c);
                }
                i += 1;
            }
            proof {
                assert(cv.take(creds@.len() as int) =~= cv);
            }
        },
    }
    errors
}

/// Finish an import: store the imported passwords in the vault, if one is
/// open, and report the counts with every message (those of skipped
/// profiles first, then those of passwords that could not be stored).
pub fn finish_import(outcome: ImportOutcome, vault: &mut Option<Vault>) -> (r: ImportResult)
    requires
        (*old(vault)) matches Some(v) ==> v.wf(),
    ensures
        r.imported == outcome.imported,
        r.skipped == outcome.skipped,
        (*old(vault)) is None ==> (*final(vault)) is None && strings_view(r.errors@) == strings_view(outcome.errors@),
        (*old(vault)) matches Some(v0) ==> {
            &&& (*final(vault)) is Some
            &&& final(vault)->Some_0.wf()
            &&& strings_view(r.errors@) == strings_view(outcome.errors@) + store_errors(v0@.key, creds_view(outcome.credentials@))
        },
{
    let store_errs = store_imported_credentials(vault, &outcome.credentials);
    let mut errors = outcome.errors;
    let ghost e0 = errors@;
    let mut i: usize = 0;
    while i < store_errs.len()
        invariant
            0 <= i <= store_errs@.len(),
            strings_view(errors@) == strings_view(e0) + strings_view(store_errs@).take(i as int),
        decreases store_errs@.len() - i,
    {
        let ghost eb = errors@;
        errors.push(store_errs[i].clone());
        proof {
            assert(strings_view(errors@) =~= strings_view(eb).push(store_errs@[i as int]@));
            assert(strings_view(store_errs@).take(i as int + 1) =~= strings_view(store_errs@).take(i as int).push(store_errs@[i as int]@));
        }
        i += 1;
    }
    proof {
        assert(strings_view(store_errs@).take(store_errs@.len() as int) =~= strings_view(store_errs@));
    }
    ImportResult { imported: outcome.imported, skipped: outcome.skipped, errors }
}


// ─── Laws ───────────────────────────────────────────────

/// No two profiles of the list share both name and host.
pub open spec fn distinct_name_host(ps: Seq<ProfileView>) -> bool {
    forall|i: int, j: int|
        0 <= i < j < ps.len() ==> !(#[trigger] ps[i].name == #[trigger] ps[j].name && ps[i].host == ps[j].host)
}

proof fn lemma_folders_keep_profiles(st: ImportState, efs: Seq<ExportedFolderView>, ids: Seq<u128>, now: i64)
    ensures
        import_folders(st, efs, ids, now).profiles == st.profiles,
    decreases efs.len(),
{
    if efs.len() > 0 {
        lemma_folders_keep_profiles(st, efs.drop_last(), ids, now);
    }
}

proof fn lemma_profile_step_distinct(st: ImportState, ep: ExportedProfileView, sys: u128, ids: Seq<u128>, now: i64)
    requires
        distinct_name_host(st.profiles),
    ensures
        distinct_name_host(profile_step(st, ep, sys, ids, now).profiles),
        profile_step(st, ep, sys, ids, now).profiles.take(st.profiles.len() as int) == st.profiles,
        profile_step(st, ep, sys, ids, now).profiles.len() >= st.profiles.len(),
{
    let next = profile_step(st, ep, sys, ids, now).profiles;
    if next.len() > st.profiles.len() {
        assert(!has_profile(st.profiles, ep.name, ep.host));
        assert(next == st.profiles.push(next.last()));
        assert(next.last().name == ep.name && next.last().host == ep.host);
        assert forall|i: int, j: int| 0 <= i < j < next.len() implies !(#[trigger] next[i].name == #[trigger] next[j].name
            && next[i].host == next[j].host) by {
            if j == next.len() - 1 {
                assert(next[i] == st.profiles[i]);
            } else {
                assert(next[i] == st.profiles[i] && next[j] == st.profiles[j]);
            }
        }
        assert(next.take(st.profiles.len() as int) =~= st.profiles);
    } else {
        assert(next == st.profiles);
        assert(next.take(st.profiles.len() as int) =~= st.profiles);
    }
}

proof fn lemma_profiles_in_distinct(st: ImportState, eps: Seq<ExportedProfileView>, sys: u128, ids: Seq<u128>, now: i64)
    requires
        distinct_name_host(st.profiles),
    ensures
        distinct_name_host(import_profiles_in(st, eps, sys, ids, now).profiles),
        import_profiles_in(st, eps, sys, ids, now).profiles.take(st.profiles.len() as int) == st.profiles,
        import_profiles_in(st, eps, sys, ids, now).profiles.len() >= st.profiles.len(),
    decreases eps.len(),
{
    if eps.len() > 0 {
        let inner = import_profiles_in(st, eps.drop_last(), sys, ids, now);
        lemma_profiles_in_distinct(st, eps.drop_last(), sys, ids, now);
        lemma_profile_step_distinct(inner, eps.last(), sys, ids, now);
        let out = import_profiles_in(st, eps, sys, ids, now).profiles;
        assert(out.take(st.profiles.len() as int) =~= out.take(inner.profiles.len() as int).take(st.profiles.len() as int));
    }
}

/// An import keeps every existing profile in place, and never creates a
/// second profile with the name and host of one that is already there or
/// that it imported before: when no two profiles shared name and host before
/// the import, none do after it.
pub proof fn law_import_no_duplicate_profiles(
    fs: Seq<Folder>,
    ps: Seq<ConnectionProfile>,
    env: ExportEnvelopeView,
    ids: Seq<u128>,
    now: i64,
)
    requires
        distinct_name_host(ps.map_values(|p: ConnectionProfile| profile_view(p))),
    ensures
        import_spec(fs, ps, env, ids, now) matches Ok(st) ==> {
            &&& distinct_name_host(st.profiles)
            &&& st.profiles.take(ps.len() as int) == ps.map_values(|p: ConnectionProfile| profile_view(p))
        },
{
    if env.app == "NexTerm"@ && has_system_folder(fs) {
        let sys = fs[system_pos(fs)].id;
        let start = import_start(fs, ps);
        let efs = stable_sort(env.folders, |a: ExportedFolderView, b: ExportedFolderView| folder_before(a, b));
        let st = import_folders(start, efs, ids, now);
        lemma_folders_keep_profiles(start, efs, ids, now);
        let eps = stable_sort(env.profiles, |a: ExportedProfileView, b: ExportedProfileView| profile_before(a, b));
        lemma_profiles_in_distinct(st, eps, sys, ids, now);
    }
}

/// An exported profile is a duplicate only of an existing profile with both
/// its name and its host: such a one is skipped and nothing is added; one
/// whose name and host pair is new, with a non-empty name and host and
/// listed users, is added with that name and host, even when another
/// profile has the same name or the same host.
pub proof fn law_import_duplicates_match_name_and_host(
    st: ImportState,
    ep: ExportedProfileView,
    sys: u128,
    ids: Seq<u128>,
    now: i64,
)
    ensures
        (exists|k: int| 0 <= k < st.profiles.len() && #[trigger] st.profiles[k].name == ep.name && st.profiles[k].host == ep.host)
            ==> profile_step(st, ep, sys, ids, now).skipped == st.skipped + 1
            && profile_step(st, ep, sys, ids, now).imported == st.imported
            && profile_step(st, ep, sys, ids, now).profiles == st.profiles,
        (forall|k: int| 0 <= k < st.profiles.len() ==> !(#[trigger] st.profiles[k].name == ep.name && st.profiles[k].host == ep.host))
            && trim(ep.name).len() > 0 && trim(ep.host).len() > 0 && ep.users.len() > 0 ==> {
            let r = profile_step(st, ep, sys, ids, now);
            &&& r.imported == st.imported + 1
            &&& r.skipped == st.skipped
            &&& r.profiles.len() == st.profiles.len() + 1
            &&& r.profiles.take(st.profiles.len() as int) == st.profiles
            &&& r.profiles.last().name == ep.name
            &&& r.profiles.last().host == ep.host
        },
{
    let r = profile_step(st, ep, sys, ids, now);
    if !has_profile(st.profiles, ep.name, ep.host) && ep.users.len() > 0 {
        assert(r.profiles.take(st.profiles.len() as int) =~= st.profiles);
    }
}

} // verus!
