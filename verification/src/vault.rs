use crate::crypto::{
    aes256gcm_decrypt, aes256gcm_encrypt, aes256gcm_open, aes_gcm_max_plaintext, argon2id_derive,
    argon2id_key, base64_decode, base64_decode_text, base64_encode_bytes, random_bytes,
    utf8_error_message, utf8_to_string, wipe,
};
use crate::assoc::{
    assoc_map, fold_insert, has_key, keys_distinct, lemma_assoc_at, lemma_assoc_push, lemma_assoc_remove,
    lemma_assoc_update, lemma_fold_insert_distinct, lemma_has_key_take, lemma_same_keys,
};
use crate::error::{AppError, AppErrorView};
use crate::text::{decimal, decimal_string, starts_with, str_eq, str_starts_with, uuid_string, uuid_text};
use vstd::prelude::*;
use vstd::utf8::{decode_utf8, encode_utf8, encode_utf8_decode_utf8, encode_utf8_valid_utf8, valid_utf8};

verus! {

/// Current vault format version.
pub const VAULT_VERSION: u32 = 1;

/// AES-256-GCM nonce size in bytes.
pub const NONCE_SIZE: usize = 12;

/// Salt size in bytes for Argon2id.
pub const SALT_SIZE: usize = 32;

/// Authentication tag size of AES-256-GCM in bytes.
pub const TAG_SIZE: usize = 16;

// ─── Model ──────────────────────────────────────────────

/// A vault as the specifications see it: the derived key while unlocked,
/// the salt, and each credential name with its sealed blob
/// (nonce, then ciphertext and tag).
pub struct VaultModel {
    pub key: Option<Seq<u8>>,
    pub salt: Seq<u8>,
    pub entries: Map<Seq<char>, Seq<u8>>,
}

/// Shape that every vault keeps: a 32-byte salt and, while unlocked, a
/// 32-byte key.
pub open spec fn model_wf(m: VaultModel) -> bool {
    &&& m.salt.len() == 32
    &&& (m.key matches Some(k) ==> k.len() == 32)
}

/// Names and blobs of the executable credential list.
pub open spec fn cred_pairs(v: Seq<(String, Vec<u8>)>) -> Seq<(Seq<char>, Seq<u8>)> {
    v.map_values(|p: (String, Vec<u8>)| (p.0@, p.1@))
}

// ─── Reading a blob ─────────────────────────────────────

/// What opening a stored blob gives.
pub enum Opened {
    /// The vault holds no key.
    Locked,
    /// Shorter than a nonce and a tag.
    TooShort,
    /// The tag does not check under the key.
    Rejected,
    /// The plaintext (given) is not UTF-8.
    NotUtf8(Seq<u8>),
    /// The credential's text.
    Text(Seq<char>),
}

/// Opening `blob` (nonce(12), then ciphertext and tag) under `key`.
pub open spec fn open_blob(key: Option<Seq<u8>>, blob: Seq<u8>) -> Opened {
    match key {
        None => Opened::Locked,
        Some(k) => if blob.len() < 28 {
            Opened::TooShort
        } else {
            match aes256gcm_open(k, blob.take(12), blob.skip(12)) {
                None => Opened::Rejected,
                Some(pt) => if valid_utf8(pt) {
                    Opened::Text(decode_utf8(pt))
                } else {
                    Opened::NotUtf8(pt)
                },
            }
        },
    }
}

/// The text that an opened blob gives, or the error reported for it.
pub open spec fn opened_result(o: Opened) -> Result<Seq<char>, AppErrorView> {
    match o {
        Opened::Locked => Err(AppErrorView::VaultLocked),
        Opened::TooShort => Err(AppErrorView::VaultError("Ciphertext too short"@)),
        Opened::Rejected => Err(AppErrorView::VaultError("Decryption failed"@)),
        Opened::NotUtf8(pt) => Err(AppErrorView::VaultError("Invalid UTF-8 in credential: "@ + utf8_error_message(pt))),
        Opened::Text(t) => Ok(t),
    }
}

/// Reading the credential `name`: `None` when there is none.
pub open spec fn read_spec(m: VaultModel, name: Seq<char>) -> Result<Option<Seq<char>>, AppErrorView> {
    if m.entries.contains_key(name) {
        match opened_result(open_blob(m.key, m.entries[name])) {
            Ok(t) => Ok(Some(t)),
            Err(e) => Err(e),
        }
    } else {
        Ok(None)
    }
}

/// View of the result of a credential read.
pub open spec fn read_view(r: Result<Option<String>, AppError>) -> Result<Option<Seq<char>>, AppErrorView> {
    match r {
        Ok(Some(s)) => Ok(Some(s@)),
        Ok(None) => Ok(None),
        Err(e) => Err(e@),
    }
}

/// The error that sealing a credential reports: the vault is locked, or the
/// plaintext is longer than AES-GCM accepts.
pub open spec fn encrypt_error(key: Option<Seq<u8>>) -> AppErrorView {
    if key is None {
        AppErrorView::VaultLocked
    } else {
        AppErrorView::VaultError("Encryption failed: "@ + "aead::Error"@)
    }
}

/// `new` is `old` with `value` sealed under `name`: key and salt unchanged,
/// every other credential unchanged, and the new blob opening to `value`.
pub open spec fn stored(old: VaultModel, new: VaultModel, name: Seq<char>, value: Seq<char>) -> bool {
    &&& new.key == old.key
    &&& new.salt == old.salt
    &&& new.entries.contains_key(name)
    &&& new.entries == old.entries.insert(name, new.entries[name])
    &&& open_blob(old.key, new.entries[name]) == Opened::Text(value)
    &&& new.entries[name].len() == 28 + encode_utf8(value).len()
}

/// `m` without the credentials whose names start with `prefix`.
pub open spec fn without_prefix(m: Map<Seq<char>, Seq<u8>>, prefix: Seq<char>) -> Map<Seq<char>, Seq<u8>> {
    Map::new(|k: Seq<char>| m.contains_key(k) && !starts_with(k, prefix), |k: Seq<char>| m[k])
}

// ─── On-disk record ─────────────────────────────────────

/// The vault file's contents: version, base64 salt, and each credential
/// name with its base64 blob.
pub struct VaultFile {
    pub version: u32,
    pub salt: String,
    pub credentials: Vec<(String, String)>,
}

/// `VaultFile` with its texts as character sequences.
pub struct VaultFileView {
    pub version: u32,
    pub salt: Seq<char>,
    pub credentials: Seq<(Seq<char>, Seq<char>)>,
}

impl View for VaultFile {
    type V = VaultFileView;

    open spec fn view(&self) -> VaultFileView {
        VaultFileView {
            version: self.version,
            salt: self.salt@,
            credentials: self.credentials@.map_values(|p: (String, String)| (p.0@, p.1@)),
        }
    }
}

/// Decoding each credential's base64 blob in order; the first that does not
/// decode gives the error.
pub open spec fn decode_credentials(c: Seq<(Seq<char>, Seq<char>)>) -> Result<Seq<(Seq<char>, Seq<u8>)>, AppErrorView>
    decreases c.len(),
{
    if c.len() == 0 {
        Ok(seq![])
    } else {
        match decode_credentials(c.drop_last()) {
            Err(e) => Err(e),
            Ok(d) => if base64_decode(c.last().1) is Ok {
                Ok(d.push((c.last().0, base64_decode(c.last().1)->Ok_0)))
            } else {
                Err(AppErrorView::VaultError(
                    "Invalid credential encoding for "@ + c.last().0 + ": "@ + base64_decode(c.last().1)->Err_0,
                ))
            },
        }
    }
}

/// What opening a vault file with a master password (as UTF-8 bytes) gives:
/// version, salt and key derivation are checked in that order, then every
/// credential is decoded, and the first credential must open under the key.
pub open spec fn unlock_spec(f: VaultFileView, password: Seq<u8>) -> Result<VaultModel, AppErrorView> {
    if f.version != 1 {
        Err(AppErrorView::VaultError("Unsupported vault version: "@ + decimal(f.version as nat)))
    } else if base64_decode(f.salt) is Err {
        Err(AppErrorView::VaultError("Invalid salt encoding: "@ + base64_decode(f.salt)->Err_0))
    } else if base64_decode(f.salt)->Ok_0.len() != 32 {
        Err(AppErrorView::VaultError("Invalid salt length"@))
    } else if password.len() > 0xFFFF_FFFF {
        Err(AppErrorView::VaultError("Key derivation failed: "@ + "password is too long"@))
    } else {
        match decode_credentials(f.credentials) {
            Err(e) => Err(e),
            Ok(d) => {
                let salt = base64_decode(f.salt)->Ok_0;
                let key = argon2id_key(password, salt);
                let entries = fold_insert(d);
                if d.len() > 0 && !(open_blob(Some(key), entries[d[0].0]) is Text) {
                    Err(AppErrorView::VaultWrongPassword)
                } else {
                    Ok(VaultModel { key: Some(key), salt, entries })
                }
            },
        }
    }
}

/// The file `f` records the salt and the credentials of `m`.
pub open spec fn file_holds(f: VaultFileView, m: VaultModel) -> bool {
    &&& f.version == 1
    &&& base64_decode(f.salt) is Ok
    &&& base64_decode(f.salt)->Ok_0 == m.salt
    &&& decode_credentials(f.credentials) is Ok
    &&& keys_distinct(decode_credentials(f.credentials)->Ok_0)
    &&& assoc_map(decode_credentials(f.credentials)->Ok_0) == m.entries
}

/// View of the result of opening or creating a vault.
pub open spec fn vault_result_view(r: Result<Vault, AppError>) -> Result<VaultModel, AppErrorView> {
    match r {
        Ok(v) => Ok(v@),
        Err(e) => Err(e@),
    }
}

pub proof fn lemma_decode_shape(c: Seq<(Seq<char>, Seq<char>)>)
    requires
        decode_credentials(c) is Ok,
    ensures
        decode_credentials(c)->Ok_0.len() == c.len(),
        forall|i: int| 0 <= i < c.len() ==> (#[trigger] decode_credentials(c)->Ok_0[i]).0 == c[i].0,
    decreases c.len(),
{
    if c.len() > 0 {
        lemma_decode_shape(c.drop_last());
    }
}

pub proof fn lemma_decode_prefix_err(c: Seq<(Seq<char>, Seq<char>)>, n: int)
    requires
        0 <= n <= c.len(),
        decode_credentials(c.take(n)) is Err,
    ensures
        decode_credentials(c) == decode_credentials(c.take(n)),
    decreases c.len() - n,
{
    if n < c.len() {
        assert(c.take(n + 1).drop_last() =~= c.take(n));
        lemma_decode_prefix_err(c, n + 1);
    } else {
        assert(c.take(n) =~= c);
    }
}

/// Every credential of `m` opens to text.
pub open spec fn all_readable(m: VaultModel) -> bool {
    forall|k: Seq<char>| #[trigger] m.entries.contains_key(k) ==> open_blob(m.key, m.entries[k]) is Text
}

/// Every credential of `m` that opens to text is short enough to be sealed
/// again.
pub open spec fn all_resealable(m: VaultModel) -> bool {
    forall|k: Seq<char>| #[trigger] m.entries.contains_key(k) && open_blob(m.key, m.entries[k]) is Text
        ==> encode_utf8(open_blob(m.key, m.entries[k])->Text_0).len() <= aes_gcm_max_plaintext()
}

/// `new` holds the credentials of `old` sealed again under the key that
/// `password` derives with the new salt; each reads as before.
pub open spec fn rekeyed(old: VaultModel, new: VaultModel, password: Seq<u8>) -> bool {
    &&& new.salt.len() == 32
    &&& new.key == Some(argon2id_key(password, new.salt))
    &&& new.entries.dom() == old.entries.dom()
    &&& forall|k: Seq<char>| #[trigger] old.entries.contains_key(k) ==> read_spec(new, k) == read_spec(old, k)
}

/// After a failure while sealing again: the key is the new one, and what is
/// left is a part of the old credentials, each reading as before.
pub open spec fn partly_rekeyed(old: VaultModel, new: VaultModel, password: Seq<u8>) -> bool {
    &&& new.salt.len() == 32
    &&& new.key == Some(argon2id_key(password, new.salt))
    &&& forall|k: Seq<char>| #[trigger] new.entries.contains_key(k)
        ==> old.entries.contains_key(k) && read_spec(new, k) == read_spec(old, k)
}

// ─── Vault ──────────────────────────────────────────────

/// Encrypted credential store: credential names mapped to AES-256-GCM
/// sealed blobs, under a key derived from a master password with Argon2id.
pub struct Vault {
    derived_key: Option<Vec<u8>>,
    salt: Vec<u8>,
    credentials: Vec<(String, Vec<u8>)>,
}

impl Vault {
    /// Internal invariant: a 32-byte salt, a 32-byte key while unlocked, and
    /// no credential name twice.
    pub closed spec fn wf(&self) -> bool {
        &&& self.salt@.len() == 32
        &&& (self.derived_key matches Some(k) ==> k@.len() == 32)
        &&& keys_distinct(cred_pairs(self.credentials@))
    }
}

impl View for Vault {
    type V = VaultModel;

    closed spec fn view(&self) -> VaultModel {
        VaultModel {
            key: match self.derived_key {
                Some(k) => Some(k@),
                None => None,
            },
            salt: self.salt@,
            entries: assoc_map(cred_pairs(self.credentials@)),
        }
    }
}

impl Vault {
    /// Position of the credential `name`, if the vault holds it.
    fn find(&self, name: &str) -> (r: Option<usize>)
        ensures
            match r {
                Some(i) => i < self.credentials@.len() && self.credentials@[i as int].0@ == name@,
                None => !has_key(cred_pairs(self.credentials@), name@),
            },
    {
        let mut i: usize = 0;
        while i < self.credentials.len()
            invariant
                0 <= i <= self.credentials@.len(),
                forall|j: int| 0 <= j < i ==> self.credentials@[j].0@ != name@,
            decreases self.credentials@.len() - i,
        {
            if str_eq(self.credentials[i].0.as_str(), name) {
                return Some(i);
            }
            i += 1;
        }
        proof {
            if has_key(cred_pairs(self.credentials@), name@) {
                let j = choose|j: int| 0 <= j < cred_pairs(self.credentials@).len() && cred_pairs(self.credentials@)[j].0 == name@;
                assert(self.credentials@[j].0@ == name@);
            }
        }
        None
    }

    /// Check if a credential exists.
    pub fn has(&self, key: &str) -> (r: bool)
        ensures
            r == self@.entries.contains_key(key@),
    {
        match self.find(key) {
            Some(i) => {
                proof {
                    assert(cred_pairs(self.credentials@)[i as int].0 == key@);
                    assert(has_key(cred_pairs(self.credentials@), key@));
                }
                true
            },
            None => false,
        }
    }

    /// Check if the vault is unlocked (has a derived key in memory).
    pub fn is_unlocked(&self) -> (r: bool)
        ensures
            r == self@.key is Some,
    {
        self.derived_key.is_some()
    }

    /// A well-formed vault has a well-formed model.
    pub proof fn lemma_model_wf(&self)
        requires
            self.wf(),
        ensures
            model_wf(self@),
    {
    }

    /// Derive a 32-byte key from password + salt using Argon2id.
    fn derive_key(password: &str, salt: &[u8]) -> (r: Result<Vec<u8>, AppError>)
        requires
            salt@.len() == 32,
        ensures
            match r {
                Ok(k) => k@ == argon2id_key(encode_utf8(password@), salt@) && k@.len() == 32
                    && encode_utf8(password@).len() <= 0xFFFF_FFFF,
                Err(e) => encode_utf8(password@).len() > 0xFFFF_FFFF
                    && e@ == AppErrorView::VaultError("Key derivation failed: "@ + "password is too long"@),
            },
            encode_utf8(password@).len() <= 0xFFFF_FFFF ==> r is Ok,
    {
        let pb = password.as_bytes();
        assert(pb@ == encode_utf8(password@));
        match argon2id_derive(pb, salt) {
            Ok(k) => Ok(k),
            Err(m) => Err(AppError::VaultError("Key derivation failed: ".to_owned().concat(m.as_str()))),
        }
    }

    /// Encrypt a plaintext string: a fresh random nonce(12), then the
    /// ciphertext and tag.
    fn encrypt(&self, plaintext: &str) -> (r: Result<Vec<u8>, AppError>)
        requires
            self.wf(),
        ensures
            match r {
                Ok(blob) => self@.key is Some
                    && encode_utf8(plaintext@).len() <= aes_gcm_max_plaintext()
                    && open_blob(self@.key, blob@) == Opened::Text(plaintext@)
                    && blob@.len() == 28 + encode_utf8(plaintext@).len(),
                Err(e) => e@ == encrypt_error(self@.key),
            },
            (self@.key is Some && encode_utf8(plaintext@).len() <= aes_gcm_max_plaintext()) ==> r is Ok,
    {
        let key = match &self.derived_key {
            Some(k) => k,
            None => {
                return Err(AppError::VaultLocked);
            },
        };
        let nonce = random_bytes(NONCE_SIZE);
        let pt = plaintext.as_bytes();
        assert(pt@ == encode_utf8(plaintext@));
        let ks = key.as_slice();
        let ns = nonce.as_slice();
        assert(ks@ == key@ && ns@ == nonce@);
        match aes256gcm_encrypt(ks, ns, pt) {
            Ok(mut ct) => {
                let ghost ct0 = ct@;
                let mut result = nonce;
                result.append(&mut ct);
                proof {
                    assert(result@.take(12) =~= nonce@);
                    assert(result@.skip(12) =~= ct0);
                    encode_utf8_valid_utf8(plaintext@);
                    encode_utf8_decode_utf8(plaintext@);
                }
                Ok(result)
            },
            Err(m) => Err(AppError::VaultError("Encryption failed: ".to_owned().concat(m.as_str()))),
        }
    }

    /// Decrypt nonce(12) + ciphertext + tag(16) into the credential's text.
    fn decrypt(&self, data: &[u8]) -> (r: Result<String, AppError>)
        requires
            self.wf(),
        ensures
            match r {
                Ok(t) => opened_result(open_blob(self@.key, data@)) == Ok::<Seq<char>, AppErrorView>(t@),
                Err(e) => opened_result(open_blob(self@.key, data@)) == Err::<Seq<char>, AppErrorView>(e@),
            },
    {
        let key = match &self.derived_key {
            Some(k) => k,
            None => {
                return Err(AppError::VaultLocked);
            },
        };
        if data.len() < NONCE_SIZE + TAG_SIZE {
            return Err(AppError::VaultError("Ciphertext too short".to_owned()));
        }
        let (nonce, sealed) = data.split_at(NONCE_SIZE);
        proof {
            assert(nonce@ =~= data@.take(12));
            assert(sealed@ =~= data@.skip(12));
        }
        match aes256gcm_decrypt(key.as_slice(), nonce, sealed) {
            Ok(pt) => match utf8_to_string(pt) {
                Ok(t) => Ok(t),
                Err(m) => Err(AppError::VaultError("Invalid UTF-8 in credential: ".to_owned().concat(m.as_str()))),
            },
            Err(_) => Err(AppError::VaultError("Decryption failed".to_owned())),
        }
    }

    /// Get a credential, decrypted; `None` when the vault holds no such name.
    pub fn get(&self, key: &str) -> (r: Result<Option<String>, AppError>)
        requires
            self.wf(),
        ensures
            read_view(r) == read_spec(self@, key@),
    {
        match self.find(key) {
            Some(i) => {
                proof {
                    lemma_assoc_at(cred_pairs(self.credentials@), i as int);
                }
                match self.decrypt(self.credentials[i].1.as_slice()) {
                    Ok(t) => Ok(Some(t)),
                    Err(e) => Err(e),
                }
            },
            None => Ok(None),
        }
    }

    /// Store a credential: encrypt it under a fresh nonce and put it under
    /// `key`, replacing what was there.
    pub fn store(&mut self, key: &str, value: &str) -> (r: Result<(), AppError>)
        requires
            old(self).wf(),
        ensures
            final(self).wf(),
            match r {
                Ok(_) => stored(old(self)@, final(self)@, key@, value@),
                Err(e) => final(self)@ == old(self)@ && e@ == encrypt_error(old(self)@.key),
            },
            r is Ok <==> (old(self)@.key is Some && encode_utf8(value@).len() <= aes_gcm_max_plaintext()),
    {
        let blob = match self.encrypt(value) {
            Ok(b) => b,
            Err(e) => {
                return Err(e);
            },
        };
        let ghost b = blob@;
        let ghost before = cred_pairs(self.credentials@);
        match self.find(key) {
            Some(i) => {
                let name = self.credentials[i].0.clone();
                self.credentials.set(i, (name, blob));
                proof {
                    lemma_assoc_update(before, i as int, b);
                    assert(cred_pairs(self.credentials@) =~= before.update(i as int, (before[i as int].0, b)));
                    lemma_assoc_at(cred_pairs(self.credentials@), i as int);
                }
            },
            None => {
                self.credentials.push((key.to_owned(), blob));
                proof {
                    lemma_assoc_push(before, key@, b);
                    assert(cred_pairs(self.credentials@) =~= before.push((key@, b)));
                }
            },
        }
        Ok(())
    }

    /// Delete a credential.
    pub fn delete(&mut self, key: &str)
        requires
            old(self).wf(),
        ensures
            final(self).wf(),
            final(self)@.key == old(self)@.key,
            final(self)@.salt == old(self)@.salt,
            final(self)@.entries == old(self)@.entries.remove(key@),
    {
        let ghost before = cred_pairs(self.credentials@);
        match self.find(key) {
            Some(i) => {
                self.credentials.remove(i);
                proof {
                    lemma_assoc_remove(before, i as int);
                    assert(cred_pairs(self.credentials@) =~= before.remove(i as int));
                }
            },
            None => {
                assert(assoc_map(before) =~= assoc_map(before).remove(key@));
            },
        }
    }

    /// Delete all credentials whose names start with `prefix`
    /// (e.g., "profile_id:").
    pub fn delete_by_prefix(&mut self, prefix: &str)
        requires
            old(self).wf(),
        ensures
            final(self).wf(),
            final(self)@.key == old(self)@.key,
            final(self)@.salt == old(self)@.salt,
            final(self)@.entries == without_prefix(old(self)@.entries, prefix@),
    {
        let ghost orig = cred_pairs(self.credentials@);
        let ghost om = assoc_map(orig);
        let ghost mut j: int = 0;
        let mut i: usize = 0;
        assert(assoc_map(orig) =~= Map::new(
            |k: Seq<char>| om.contains_key(k) && !(starts_with(k, prefix@) && has_key(orig.take(0), k)),
            |k: Seq<char>| om[k],
        ));
        while i < self.credentials.len()
            invariant
                self.wf(),
                0 <= i <= self.credentials@.len(),
                0 <= j <= orig.len(),
                self.derived_key == old(self).derived_key,
                self.salt == old(self).salt,
                om == assoc_map(orig),
                keys_distinct(orig),
                cred_pairs(self.credentials@).skip(i as int) == orig.skip(j),
                forall|t: int| 0 <= t < i ==> !starts_with(#[trigger] cred_pairs(self.credentials@)[t].0, prefix@),
                forall|t: int| 0 <= t < i ==> has_key(orig.take(j), #[trigger] cred_pairs(self.credentials@)[t].0),
                assoc_map(cred_pairs(self.credentials@)) == Map::new(
                    |k: Seq<char>| om.contains_key(k) && !(starts_with(k, prefix@) && has_key(orig.take(j), k)),
                    |k: Seq<char>| om[k],
                ),
            decreases self.credentials@.len() - i,
        {
            let ghost cp = cred_pairs(self.credentials@);
            let ghost x = cp[i as int];
            proof {
                assert(cp.skip(i as int).len() == orig.skip(j).len());
                assert(orig.skip(j).len() > 0);
                assert(cp.skip(i as int)[0] == orig.skip(j)[0]);
                assert(x == orig[j]);
                lemma_assoc_at(orig, j);
            }
            if str_starts_with(self.credentials[i].0.as_str(), prefix) {
                self.credentials.remove(i);
                proof {
                    lemma_assoc_remove(cp, i as int);
                    assert(cred_pairs(self.credentials@) =~= cp.remove(i as int));
                    let ncp = cred_pairs(self.credentials@);
                    assert(ncp.skip(i as int) =~= orig.skip(j + 1)) by {
                        assert(cp.skip(i as int).skip(1) =~= ncp.skip(i as int));
                        assert(orig.skip(j).skip(1) =~= orig.skip(j + 1));
                    }
                    lemma_has_key_take(orig, j);
                    assert forall|t: int| 0 <= t < i implies has_key(orig.take(j + 1), #[trigger] ncp[t].0) by {
                        assert(ncp[t] == cp[t]);
                    }
                    let target = Map::new(
                        |k: Seq<char>| om.contains_key(k) && !(starts_with(k, prefix@) && has_key(orig.take(j + 1), k)),
                        |k: Seq<char>| om[k],
                    );
                    assert forall|k: Seq<char>| #[trigger] target.contains_key(k) == assoc_map(ncp).contains_key(k) by {
                        assert(has_key(orig.take(j + 1), k) == (has_key(orig.take(j), k) || k == x.0));
                    }
                    assert forall|k: Seq<char>| #[trigger] target.contains_key(k) implies target[k] == assoc_map(ncp)[k] by {
                        assert(k != x.0);
                    }
                    assert(assoc_map(ncp) =~= target);
                    j = j + 1;
                }
            } else {
                proof {
                    assert(cp.skip(i as int + 1) =~= orig.skip(j + 1)) by {
                        assert(cp.skip(i as int).skip(1) =~= cp.skip(i as int + 1));
                        assert(orig.skip(j).skip(1) =~= orig.skip(j + 1));
                    }
                    lemma_has_key_take(orig, j);
                    assert(has_key(orig.take(j + 1), x.0));
                    let target = Map::new(
                        |k: Seq<char>| om.contains_key(k) && !(starts_with(k, prefix@) && has_key(orig.take(j + 1), k)),
                        |k: Seq<char>| om[k],
                    );
                    assert forall|k: Seq<char>| #[trigger] target.contains_key(k) == assoc_map(cp).contains_key(k) by {
                        assert(has_key(orig.take(j + 1), k) == (has_key(orig.take(j), k) || k == x.0));
                    }
                    assert(assoc_map(cp) =~= target);
                    assert forall|t: int| 0 <= t < i + 1 implies has_key(orig.take(j + 1), #[trigger] cp[t].0) by {
                        if t < i {
                            assert(has_key(orig.take(j), cp[t].0));
                        }
                    }
                    assert forall|t: int| 0 <= t < i + 1 implies !starts_with(#[trigger] cp[t].0, prefix@) by {
                    }
                    j = j + 1;
                }
                i += 1;
            }
        }
        proof {
            let cp = cred_pairs(self.credentials@);
            assert(orig.skip(j).len() == 0);
            assert(j == orig.len());
            assert(orig.take(j) =~= orig);
            assert(assoc_map(cp) =~= without_prefix(om, prefix@));
        }
    }

    /// Create a new vault under a master password: a random salt and the key
    /// derived from it, no credentials.
    pub fn create(master_password: &str) -> (r: Result<Vault, AppError>)
        ensures
            match r {
                Ok(v) => {
                    &&& v.wf()
                    &&& v@.key == Some(argon2id_key(encode_utf8(master_password@), v@.salt))
                    &&& v@.entries == Map::<Seq<char>, Seq<u8>>::empty()
                },
                Err(e) => encode_utf8(master_password@).len() > 0xFFFF_FFFF
                    && e@ == AppErrorView::VaultError("Key derivation failed: "@ + "password is too long"@),
            },
            encode_utf8(master_password@).len() <= 0xFFFF_FFFF ==> r is Ok,
    {
        let salt = random_bytes(SALT_SIZE);
        let key = match Self::derive_key(master_password, salt.as_slice()) {
            Ok(k) => k,
            Err(e) => {
                return Err(e);
            },
        };
        let v = Vault { derived_key: Some(key), salt, credentials: Vec::new() };
        proof {
            assert(assoc_map(cred_pairs(v.credentials@)) =~= Map::<Seq<char>, Seq<u8>>::empty());
        }
        Ok(v)
    }

    /// The file record of this vault: version, base64 salt, and each
    /// credential's base64 blob, in the vault's order.
    pub fn to_file(&self) -> (r: VaultFile)
        requires
            self.wf(),
        ensures
            file_holds(r@, self@),
            r@.credentials.len() > 0 ==> self@.entries.contains_key(r@.credentials[0].0),
    {
        let ghost cp = cred_pairs(self.credentials@);
        let mut creds: Vec<(String, String)> = Vec::new();
        let mut i: usize = 0;
        assert(creds@.map_values(|p: (String, String)| (p.0@, p.1@)) =~= Seq::<(Seq<char>, Seq<char>)>::empty());
        assert(cp.take(0) =~= Seq::<(Seq<char>, Seq<u8>)>::empty());
        while i < self.credentials.len()
            invariant
                0 <= i <= self.credentials@.len(),
                cp == cred_pairs(self.credentials@),
                creds@.len() == i,
                decode_credentials(creds@.map_values(|p: (String, String)| (p.0@, p.1@))) == Ok::<Seq<(Seq<char>, Seq<u8>)>, AppErrorView>(cp.take(i as int)),
            decreases self.credentials@.len() - i,
        {
            let name = self.credentials[i].0.clone();
            let text = base64_encode_bytes(self.credentials[i].1.as_slice());
            let ghost before = creds@.map_values(|p: (String, String)| (p.0@, p.1@));
            creds.push((name, text));
            proof {
                let after = creds@.map_values(|p: (String, String)| (p.0@, p.1@));
                assert(after.drop_last() =~= before);
                assert(cp.take(i as int + 1) =~= cp.take(i as int).push(cp[i as int]));
            }
            i += 1;
        }
        let salt = base64_encode_bytes(self.salt.as_slice());
        let f = VaultFile { version: VAULT_VERSION, salt, credentials: creds };
        proof {
            assert(cp.take(cp.len() as int) =~= cp);
            if f@.credentials.len() > 0 {
                lemma_decode_shape(f@.credentials);
                lemma_assoc_at(cp, 0);
            }
        }
        f
    }

    /// Open a vault from its file record with the master password. The
    /// password is checked by opening the first credential, if there is one.
    pub fn unlock(file: &VaultFile, master_password: &str) -> (r: Result<Vault, AppError>)
        ensures
            vault_result_view(r) == unlock_spec(file@, encode_utf8(master_password@)),
            r matches Ok(v) ==> v.wf(),
    {
        if file.version != VAULT_VERSION {
            let v = decimal_string(file.version as u64);
            return Err(AppError::VaultError("Unsupported vault version: ".to_owned().concat(v.as_str())));
        }
        let salt = match base64_decode_text(file.salt.as_str()) {
            Ok(b) => b,
            Err(m) => {
                return Err(AppError::VaultError("Invalid salt encoding: ".to_owned().concat(m.as_str())));
            },
        };
        if salt.len() != SALT_SIZE {
            return Err(AppError::VaultError("Invalid salt length".to_owned()));
        }
        let key = match Self::derive_key(master_password, salt.as_slice()) {
            Ok(k) => k,
            Err(e) => {
                return Err(e);
            },
        };
        let ghost fc = file@.credentials;
        let ghost mut d: Seq<(Seq<char>, Seq<u8>)> = seq![];
        let mut vault = Vault { derived_key: Some(key), salt, credentials: Vec::new() };
        let mut i: usize = 0;
        while i < file.credentials.len()
            invariant
                0 <= i <= file.credentials@.len(),
                fc == file@.credentials,
                file@.version == 1,
                base64_decode(file@.salt) is Ok,
                base64_decode(file@.salt)->Ok_0.len() == 32,
                encode_utf8(master_password@).len() <= 0xFFFF_FFFF,
                vault.wf(),
                vault.derived_key matches Some(k) && k@ == argon2id_key(encode_utf8(master_password@), vault.salt@),
                vault.salt@ == base64_decode(file.salt@)->Ok_0,
                decode_credentials(fc.take(i as int)) == Ok::<Seq<(Seq<char>, Seq<u8>)>, AppErrorView>(d),
                assoc_map(cred_pairs(vault.credentials@)) == fold_insert(d),
                d.len() == i,
                i == 0 ==> vault.credentials@.len() == 0,
                i > 0 ==> vault.credentials@.len() > 0 && vault.credentials@[0].0@ == d[0].0,
            decreases file.credentials@.len() - i,
        {
            let name = &file.credentials[i].0;
            proof {
                assert(fc[i as int] == (file.credentials@[i as int].0@, file.credentials@[i as int].1@));
                assert(fc.take(i as int + 1).drop_last() =~= fc.take(i as int));
                assert(fc.take(i as int + 1).last() == fc[i as int]);
            }
            let bytes = match base64_decode_text(file.credentials[i].1.as_str()) {
                Ok(b) => b,
                Err(m) => {
                    proof {
                        assert(base64_decode(fc[i as int].1) is Err);
                        assert(base64_decode(fc[i as int].1)->Err_0 == m@);
                        assert(decode_credentials(fc.take(i as int + 1)) == Err::<Seq<(Seq<char>, Seq<u8>)>, AppErrorView>(
                            AppErrorView::VaultError("Invalid credential encoding for "@ + name@ + ": "@ + m@)));
                        lemma_decode_prefix_err(fc, i as int + 1);
                    }
                    return Err(AppError::VaultError(
                        "Invalid credential encoding for ".to_owned().concat(name.as_str()).concat(": ").concat(m.as_str()),
                    ));
                },
            };
            let ghost before = cred_pairs(vault.credentials@);
            let ghost b = bytes@;
            match vault.find(name.as_str()) {
                Some(k) => {
                    let n = vault.credentials[k].0.clone();
                    vault.credentials.set(k, (n, bytes));
                    proof {
                        lemma_assoc_update(before, k as int, b);
                        assert(cred_pairs(vault.credentials@) =~= before.update(k as int, (before[k as int].0, b)));
                    }
                },
                None => {
                    vault.credentials.push((name.clone(), bytes));
                    proof {
                        lemma_assoc_push(before, name@, b);
                        assert(cred_pairs(vault.credentials@) =~= before.push((name@, b)));
                    }
                },
            }
            proof {
                assert(d.push((name@, b)).drop_last() =~= d);
                assert(d.push((name@, b))[0] == if i == 0 { (name@, b) } else { d[0] });
                d = d.push((name@, b));
            }
            i += 1;
        }
        proof {
            assert(fc.take(fc.len() as int) =~= fc);
            assert(decode_credentials(file@.credentials) == Ok::<Seq<(Seq<char>, Seq<u8>)>, AppErrorView>(d));
        }
        if vault.credentials.len() > 0 {
            proof {
                lemma_assoc_at(cred_pairs(vault.credentials@), 0);
            }
            match vault.decrypt(vault.credentials[0].1.as_slice()) {
                Ok(_) => {},
                Err(_) => {
                    return Err(AppError::VaultWrongPassword);
                },
            }
        }
        Ok(vault)
    }

    /// Change the master password: every credential is opened with the
    /// current key, a new salt and key are derived, and every credential is
    /// sealed again under the new key.
    pub fn change_master_password(&mut self, new_password: &str) -> (r: Result<(), AppError>)
        requires
            old(self).wf(),
        ensures
            final(self).wf(),
            match r {
                Ok(_) => rekeyed(old(self)@, final(self)@, encode_utf8(new_password@)),
                Err(e) => if !all_readable(old(self)@) {
                    final(self)@ == old(self)@ && (exists|k: Seq<char>| #[trigger] old(self)@.entries.contains_key(k)
                        && read_spec(old(self)@, k) == Err::<Option<Seq<char>>, AppErrorView>(e@))
                } else if encode_utf8(new_password@).len() > 0xFFFF_FFFF {
                    final(self)@ == old(self)@
                        && e@ == AppErrorView::VaultError("Key derivation failed: "@ + "password is too long"@)
                } else {
                    partly_rekeyed(old(self)@, final(self)@, encode_utf8(new_password@))
                        && e@ == AppErrorView::VaultError("Encryption failed: "@ + "aead::Error"@)
                },
            },
            r is Ok <==> (all_readable(old(self)@) && all_resealable(old(self)@)
                && encode_utf8(new_password@).len() <= 0xFFFF_FFFF),
    {
        let ghost cp = cred_pairs(self.credentials@);
        let ghost om = self@;
        let mut plains: Vec<String> = Vec::new();
        let mut i: usize = 0;
        while i < self.credentials.len()
            invariant
                self.wf(),
                om == self@,
                om == old(self)@,
                cp == cred_pairs(self.credentials@),
                0 <= i <= self.credentials@.len(),
                plains@.len() == i,
                forall|t: int| 0 <= t < i ==> #[trigger] open_blob(om.key, cp[t].1) == Opened::Text(plains@[t]@),
            decreases self.credentials@.len() - i,
        {
            match self.decrypt(self.credentials[i].1.as_slice()) {
                Ok(p) => {
                    plains.push(p);
                },
                Err(e) => {
                    proof {
                        lemma_assoc_at(cp, i as int);
                        assert(read_spec(om, cp[i as int].0) == Err::<Option<Seq<char>>, AppErrorView>(e@));
                        assert(om.entries.contains_key(cp[i as int].0));
                        assert(!all_readable(om));
                    }
                    return Err(e);
                },
            }
            i += 1;
        }
        proof {
            assert forall|k: Seq<char>| #[trigger] om.entries.contains_key(k) implies
                (open_blob(om.key, om.entries[k]) is Text
                && exists|t: int| 0 <= t < cp.len() && cp[t].0 == k && open_blob(om.key, om.entries[k]) == Opened::Text(plains@[t]@)) by {
                let t = choose|t: int| 0 <= t < cp.len() && cp[t].0 == k;
                lemma_assoc_at(cp, t);
            }
        }
        let new_salt = random_bytes(SALT_SIZE);
        let new_key = match Self::derive_key(new_password, new_salt.as_slice()) {
            Ok(k) => k,
            Err(e) => {
                return Err(e);
            },
        };
        let ghost nk = new_key@;
        let old_key = self.derived_key.take();
        if let Some(mut k) = old_key {
            wipe(&mut k);
        }
        self.salt = new_salt;
        self.derived_key = Some(new_key);
        let mut old_creds: Vec<(String, Vec<u8>)> = Vec::new();
        std::mem::swap(&mut old_creds, &mut self.credentials);
        assert(cred_pairs(self.credentials@) =~= Seq::<(Seq<char>, Seq<u8>)>::empty());
        let mut new_creds: Vec<(String, Vec<u8>)> = Vec::new();
        let mut j: usize = 0;
        while j < old_creds.len()
            invariant
                self.wf(),
                self.credentials@.len() == 0,
                self@.key == Some(nk),
                nk == argon2id_key(encode_utf8(new_password@), self@.salt),
                cp == cred_pairs(old_creds@),
                keys_distinct(cp),
                om == old(self)@,
                om.entries == assoc_map(cp),
                encode_utf8(new_password@).len() <= 0xFFFF_FFFF,
                all_readable(om),
                plains@.len() == cp.len(),
                forall|t: int| 0 <= t < cp.len() ==> #[trigger] open_blob(om.key, cp[t].1) == Opened::Text(plains@[t]@),
                0 <= j <= old_creds@.len(),
                new_creds@.len() == j,
                forall|t: int| 0 <= t < j ==> (#[trigger] new_creds@[t]).0@ == cp[t].0
                    && open_blob(Some(nk), new_creds@[t].1@) == Opened::Text(plains@[t]@)
                    && encode_utf8(plains@[t]@).len() <= aes_gcm_max_plaintext(),
            decreases old_creds@.len() - j,
        {
            match self.encrypt(plains[j].as_str()) {
                Ok(b) => {
                    let name = old_creds[j].0.clone();
                    new_creds.push((name, b));
                },
                Err(e) => {
                    proof {
                        lemma_assoc_at(cp, j as int);
                        assert(om.entries.contains_key(cp[j as int].0));
                        assert(!all_resealable(om));
                        let np = cred_pairs(new_creds@);
                        let cpj = cp.take(j as int);
                        assert forall|t: int| 0 <= t < np.len() implies #[trigger] np[t].0 == cpj[t].0 by {}
                        lemma_same_keys(np, cpj);
                        assert(keys_distinct(cpj));
                        assert forall|k: Seq<char>| #[trigger] assoc_map(np).contains_key(k) implies
                            om.entries.contains_key(k) && read_spec(Self::model_of(Some(nk), self@.salt, np), k) == read_spec(om, k) by {
                            let t = choose|t: int| 0 <= t < np.len() && np[t].0 == k;
                            lemma_assoc_at(np, t);
                            lemma_assoc_at(cp, t);
                        }
                    }
                    self.credentials = new_creds;
                    return Err(e);
                },
            }
            j += 1;
        }
        proof {
            let np = cred_pairs(new_creds@);
            assert forall|t: int| 0 <= t < np.len() implies #[trigger] np[t].0 == cp[t].0 by {}
            lemma_same_keys(np, cp);
            assert forall|k: Seq<char>| #[trigger] om.entries.contains_key(k) && open_blob(om.key, om.entries[k]) is Text
                implies encode_utf8(open_blob(om.key, om.entries[k])->Text_0).len() <= aes_gcm_max_plaintext() by {
                let t = choose|t: int| 0 <= t < cp.len() && cp[t].0 == k;
                lemma_assoc_at(cp, t);
            }
            assert(all_resealable(om));
            assert forall|k: Seq<char>| #[trigger] om.entries.contains_key(k) implies
                read_spec(Self::model_of(Some(nk), self@.salt, np), k) == read_spec(om, k) by {
                let t = choose|t: int| 0 <= t < cp.len() && cp[t].0 == k;
                lemma_assoc_at(np, t);
                lemma_assoc_at(cp, t);
            }
            assert(assoc_map(np).dom() =~= om.entries.dom());
        }
        self.credentials = new_creds;
        Ok(())
    }

    /// The model of a vault with the given key, salt and named blobs.
    spec fn model_of(key: Option<Seq<u8>>, salt: Seq<u8>, pairs: Seq<(Seq<char>, Seq<u8>)>) -> VaultModel {
        VaultModel { key, salt, entries: assoc_map(pairs) }
    }

    /// Lock the vault: the derived key is wiped and dropped.
    pub fn lock(&mut self)
        requires
            old(self).wf(),
        ensures
            final(self).wf(),
            final(self)@.key is None,
            final(self)@.salt == old(self)@.salt,
            final(self)@.entries == old(self)@.entries,
    {
        let taken = self.derived_key.take();
        if let Some(mut k) = taken {
            wipe(&mut k);
        }
    }
}

// ─── Laws ───────────────────────────────────────────────

/// A credential reads back as the value stored under its name; every other
/// credential reads as before.
pub proof fn law_read_after_store(old: VaultModel, new: VaultModel, name: Seq<char>, value: Seq<char>)
    requires
        stored(old, new, name, value),
    ensures
        read_spec(new, name) == Ok::<Option<Seq<char>>, AppErrorView>(Some(value)),
        forall|other: Seq<char>| other != name ==> #[trigger] read_spec(new, other) == read_spec(old, other),
{
    assert forall|other: Seq<char>| other != name implies #[trigger] read_spec(new, other) == read_spec(old, other) by {
        assert(new.entries.contains_key(other) == old.entries.contains_key(other));
    }
}

/// After a credential is deleted, the vault no longer has it and reading it
/// gives nothing; every other credential reads as before.
pub proof fn law_read_after_delete(old: VaultModel, new: VaultModel, name: Seq<char>)
    requires
        new.key == old.key,
        new.salt == old.salt,
        new.entries == old.entries.remove(name),
    ensures
        !new.entries.contains_key(name),
        read_spec(new, name) == Ok::<Option<Seq<char>>, AppErrorView>(None),
        forall|other: Seq<char>| other != name ==> #[trigger] read_spec(new, other) == read_spec(old, other),
{
}

/// After deleting by prefix, no remaining name starts with the prefix, and
/// every credential whose name does not start with it reads as before.
pub proof fn law_read_after_prefix_delete(old: VaultModel, new: VaultModel, prefix: Seq<char>)
    requires
        new.key == old.key,
        new.salt == old.salt,
        new.entries == without_prefix(old.entries, prefix),
    ensures
        forall|k: Seq<char>| #[trigger] new.entries.contains_key(k) ==> !starts_with(k, prefix),
        forall|k: Seq<char>| starts_with(k, prefix) ==> #[trigger] read_spec(new, k) == Ok::<Option<Seq<char>>, AppErrorView>(None),
        forall|k: Seq<char>| !starts_with(k, prefix) ==> #[trigger] read_spec(new, k) == read_spec(old, k),
{
}

/// A locked vault reports `VaultLocked` for every credential it holds, and
/// nothing for a name it does not hold.
pub proof fn law_locked_reads(m: VaultModel, name: Seq<char>)
    requires
        m.key is None,
    ensures
        m.entries.contains_key(name) ==> read_spec(m, name) == Err::<Option<Seq<char>>, AppErrorView>(AppErrorView::VaultLocked),
        !m.entries.contains_key(name) ==> read_spec(m, name) == Ok::<Option<Seq<char>>, AppErrorView>(None),
{
}

/// A vault written to its file record and opened again with its master
/// password gives back the same salt, key and credentials, provided the
/// first recorded credential opens under the key.
pub proof fn law_reopen(f: VaultFileView, m: VaultModel, password: Seq<u8>)
    requires
        file_holds(f, m),
        model_wf(m),
        m.key == Some(argon2id_key(password, m.salt)),
        password.len() <= 0xFFFF_FFFF,
        f.credentials.len() > 0 ==> open_blob(m.key, m.entries[f.credentials[0].0]) is Text,
    ensures
        unlock_spec(f, password) == Ok::<VaultModel, AppErrorView>(m),
{
    let d = decode_credentials(f.credentials)->Ok_0;
    lemma_decode_shape(f.credentials);
    lemma_fold_insert_distinct(d);
    if d.len() > 0 {
        assert(d[0].0 == f.credentials[0].0);
    }
}

/// After the master password is changed, the vault written to its file
/// record opens with the new password and every credential reads as before.
pub proof fn law_reopen_after_rekey(old: VaultModel, new: VaultModel, f: VaultFileView, password: Seq<u8>)
    requires
        rekeyed(old, new, password),
        model_wf(new),
        all_readable(old),
        file_holds(f, new),
        password.len() <= 0xFFFF_FFFF,
    ensures
        unlock_spec(f, password) == Ok::<VaultModel, AppErrorView>(new),
        forall|k: Seq<char>| #[trigger] old.entries.contains_key(k) ==> read_spec(new, k) == read_spec(old, k),
{
    if f.credentials.len() > 0 {
        let d = decode_credentials(f.credentials)->Ok_0;
        lemma_decode_shape(f.credentials);
        let k = f.credentials[0].0;
        assert(d[0].0 == k);
        assert(has_key(d, k));
        assert(new.entries.contains_key(k));
        assert(old.entries.contains_key(k));
        assert(read_spec(new, k) == read_spec(old, k));
    }
    law_reopen(f, new, password);
}

// ─── Credential names ───────────────────────────────────

/// Name of a credential: `{profile_id}:{user_id}:{type}`, or the legacy
/// `{profile_id}:{type}` when there is no user.
pub open spec fn vault_key_text(profile_id: u128, user_id: Option<u128>, credential_type: Seq<char>) -> Seq<char> {
    match user_id {
        Some(uid) => uuid_text(profile_id) + ":"@ + uuid_text(uid) + ":"@ + credential_type,
        None => uuid_text(profile_id) + ":"@ + credential_type,
    }
}

/// Build a credential name: `{profile_id}:{user_id}:{type}`, falling back to
/// the legacy `{profile_id}:{type}` when there is no user.
pub fn vault_key(profile_id: u128, user_id: Option<u128>, credential_type: &str) -> (r: String)
    ensures
        r@ == vault_key_text(profile_id, user_id, credential_type@),
{
    let p = uuid_string(profile_id);
    match user_id {
        Some(uid) => {
            let u = uuid_string(uid);
            p.concat(":").concat(u.as_str()).concat(":").concat(credential_type)
        },
        None => p.concat(":").concat(credential_type),
    }
}

/// Build the legacy credential name `{profile_id}:{type}`.
pub fn vault_key_legacy(profile_id: u128, credential_type: &str) -> (r: String)
    ensures
        r@ == vault_key_text(profile_id, None, credential_type@),
{
    uuid_string(profile_id).concat(":").concat(credential_type)
}

/// Looking up a credential: the name with the user first; when that gives
/// nothing and a user was given, the legacy name without the user.
pub open spec fn credential_lookup(m: VaultModel, profile_id: u128, user_id: Option<u128>, credential_type: Seq<char>) -> Result<Option<Seq<char>>, AppErrorView> {
    match read_spec(m, vault_key_text(profile_id, user_id, credential_type)) {
        Ok(None) => if user_id is Some {
            read_spec(m, vault_key_text(profile_id, None, credential_type))
        } else {
            Ok(None)
        },
        other => other,
    }
}

/// Read a credential without changing the vault: the name with the user
/// first, the legacy name without it second.
pub fn lookup_credential(vault: &Vault, profile_id: u128, user_id: Option<u128>, credential_type: &str) -> (r: Result<Option<String>, AppError>)
    requires
        vault.wf(),
    ensures
        read_view(r) == credential_lookup(vault@, profile_id, user_id, credential_type@),
{
    let key = vault_key(profile_id, user_id, credential_type);
    match vault.get(key.as_str()) {
        Ok(Some(v)) => {
            return Ok(Some(v));
        },
        Ok(None) => {},
        Err(e) => {
            return Err(e);
        },
    }
    if user_id.is_some() {
        let legacy = vault_key_legacy(profile_id, credential_type);
        return vault.get(legacy.as_str());
    }
    Ok(None)
}

/// What a credential lookup leaves in the vault: when a user was given,
/// nothing is stored under the name with the user and the legacy name holds
/// a credential that can be sealed again, that credential is now stored
/// under the name with the user too (the legacy name keeps it); otherwise
/// the vault is unchanged.
pub open spec fn after_lookup(old: VaultModel, new: VaultModel, profile_id: u128, user_id: Option<u128>, credential_type: Seq<char>) -> bool {
    let name = vault_key_text(profile_id, user_id, credential_type);
    if user_id is Some && read_spec(old, name) == Ok::<Option<Seq<char>>, AppErrorView>(None) {
        match read_spec(old, vault_key_text(profile_id, None, credential_type)) {
            Ok(Some(v)) => if encode_utf8(v).len() <= aes_gcm_max_plaintext() {
                stored(old, new, name, v)
            } else {
                new == old
            },
            _ => new == old,
        }
    } else {
        new == old
    }
}

/// Retrieve a credential from the vault, trying the name with the user
/// first and the legacy name without it second. A hit on the legacy name is
/// written under the name with the user as well, so that the new name reads
/// it from then on; when it cannot be sealed the lookup still succeeds.
pub fn get_credential_from_vault(vault: &mut Vault, profile_id: u128, user_id: Option<u128>, credential_type: &str) -> (r: Result<Option<String>, AppError>)
    requires
        old(vault).wf(),
    ensures
        final(vault).wf(),
        read_view(r) == credential_lookup(old(vault)@, profile_id, user_id, credential_type@),
        after_lookup(old(vault)@, final(vault)@, profile_id, user_id, credential_type@),
        match r {
            Ok(Some(v)) => encode_utf8(v@).len() <= aes_gcm_max_plaintext() ==> read_spec(
                final(vault)@,
                vault_key_text(profile_id, user_id, credential_type@),
            ) == Ok::<Option<Seq<char>>, AppErrorView>(Some(v@)),
            _ => true,
        },
{
    let key = vault_key(profile_id, user_id, credential_type);
    match vault.get(key.as_str()) {
        Ok(Some(v)) => {
            return Ok(Some(v));
        },
        Ok(None) => {},
        Err(e) => {
            return Err(e);
        },
    }
    if user_id.is_some() {
        let legacy = vault_key_legacy(profile_id, credential_type);
        return match vault.get(legacy.as_str()) {
            Ok(Some(v)) => {
                let ghost before = vault@;
                let _ = vault.store(key.as_str(), v.as_str());
                proof {
                    if vault@ != before {
                        law_read_after_store(before, vault@, key@, v@);
                    }
                }
                Ok(Some(v))
            },
            other => other,
        };
    }
    Ok(None)
}

/// Delete all credentials of a profile (names starting with
/// `{profile_id}:`) from the vault, if one is open.
pub fn delete_profile_credentials(vault: &mut Option<Vault>, profile_id: u128)
    requires
        (*old(vault)) matches Some(v) ==> v.wf(),
    ensures
        match (*old(vault), *final(vault)) {
            (Some(a), Some(b)) => b.wf() && b@.key == a@.key && b@.salt == a@.salt
                && b@.entries == without_prefix(a@.entries, uuid_text(profile_id) + ":"@),
            (None, None) => true,
            _ => false,
        },
{
    match vault {
        Some(v) => {
            let prefix = uuid_string(profile_id).concat(":");
            v.delete_by_prefix(prefix.as_str());
        },
        None => {},
    }
}

/// Whether a vault file exists and whether a vault is open and unlocked.
pub struct VaultStatus {
    pub exists: bool,
    pub unlocked: bool,
}

/// Status for the front end: whether the vault file exists, and whether the
/// open vault (if any) is unlocked.
pub fn vault_status(exists: bool, vault: &Option<Vault>) -> (r: VaultStatus)
    ensures
        r.exists == exists,
        r.unlocked == (vault matches Some(v) && v@.key is Some),
{
    let unlocked = match vault {
        Some(v) => v.is_unlocked(),
        None => false,
    };
    VaultStatus { exists, unlocked }
}


// ─── Credential commands ────────────────────────────────

/// Store a credential of a profile (and user) in the open vault; an error
/// when no vault is open.
pub fn store_credential(
    vault: &mut Option<Vault>,
    profile_id: u128,
    user_id: Option<u128>,
    credential_type: &str,
    value: &str,
) -> (r: Result<(), AppError>)
    requires
        (*old(vault)) matches Some(v) ==> v.wf(),
    ensures
        match (*old(vault), *final(vault)) {
            (None, None) => r matches Err(e) && e@ == AppErrorView::VaultLocked,
            (Some(a), Some(b)) => b.wf() && match r {
                Ok(_) => stored(a@, b@, vault_key_text(profile_id, user_id, credential_type@), value@),
                Err(e) => b@ == a@ && e@ == encrypt_error(a@.key),
            },
            _ => false,
        },
{
    match vault {
        None => Err(AppError::VaultLocked),
        Some(v) => {
            let key = vault_key(profile_id, user_id, credential_type);
            v.store(key.as_str(), value)
        },
    }
}

/// Whether the open vault holds a credential of a profile (and user); an
/// error when no vault is open.
pub fn has_credential(vault: &Option<Vault>, profile_id: u128, user_id: Option<u128>, credential_type: &str) -> (r:
    Result<bool, AppError>)
    ensures
        match vault {
            None => r matches Err(e) && e@ == AppErrorView::VaultLocked,
            Some(v) => r == Ok::<bool, AppError>(
                v@.entries.contains_key(vault_key_text(profile_id, user_id, credential_type@)),
            ),
        },
{
    match vault {
        None => Err(AppError::VaultLocked),
        Some(v) => {
            let key = vault_key(profile_id, user_id, credential_type);
            Ok(v.has(key.as_str()))
        },
    }
}

/// Delete a credential of a profile (and user) from the open vault; an
/// error when no vault is open.
pub fn delete_credential(vault: &mut Option<Vault>, profile_id: u128, user_id: Option<u128>, credential_type: &str) -> (r:
    Result<(), AppError>)
    requires
        (*old(vault)) matches Some(v) ==> v.wf(),
    ensures
        match (*old(vault), *final(vault)) {
            (None, None) => r matches Err(e) && e@ == AppErrorView::VaultLocked,
            (Some(a), Some(b)) => r is Ok && b.wf() && b@.key == a@.key && b@.salt == a@.salt
                && b@.entries == a@.entries.remove(vault_key_text(profile_id, user_id, credential_type@)),
            _ => false,
        },
{
    match vault {
        None => Err(AppError::VaultLocked),
        Some(v) => {
            let key = vault_key(profile_id, user_id, credential_type);
            v.delete(key.as_str());
            Ok(())
        },
    }
}

/// Lock the vault if one is open and close it.
pub fn close_vault(vault: &mut Option<Vault>)
    requires
        (*old(vault)) matches Some(v) ==> v.wf(),
    ensures
        *final(vault) is None,
{
    if let Some(v) = vault {
        v.lock();
    }
    *vault = None;
}

} // verus!
