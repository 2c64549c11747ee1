use crate::error::{AppError, AppErrorView};
use crate::text::{starts_with, str_starts_with};
use ssh_key::{Algorithm, EcdsaCurve};
use vstd::prelude::*;
use vstd::utf8::encode_utf8;

verus! {

#[verifier::external_type_specification]
#[verifier::external_body]
pub struct ExPrivateKey(ssh_key::PrivateKey);

/// Signature algorithm of a key, as far as the key list tells them apart.
#[derive(Debug, Clone, Copy, PartialEq, Eq)]
pub enum KeyAlgorithm {
    Rsa,
    Ed25519,
    EcdsaP256,
    EcdsaP384,
    EcdsaP521,
    Other,
}

/// A parsed OpenSSH private key, with what the logic reads of it and the
/// bytes it was parsed from.
pub(crate) struct ParsedKey {
    key: ssh_key::PrivateKey,
    encrypted: bool,
    algorithm: KeyAlgorithm,
    comment: String,
    fingerprint: Vec<u8>,
    source: Vec<u8>,
}

/// A loaded private key with what is known of it: whether it is still
/// encrypted, and the SHA-256 fingerprint of its public key.
pub struct LoadedKey {
    pub key: ssh_key::PrivateKey,
    pub encrypted: bool,
    pub fingerprint: Vec<u8>,
}

/// What a loaded key is, as far as the library states it.
pub struct LoadedKeyView {
    pub encrypted: bool,
    pub fingerprint: Seq<u8>,
}

impl View for LoadedKey {
    type V = LoadedKeyView;

    open spec fn view(&self) -> LoadedKeyView {
        LoadedKeyView { encrypted: self.encrypted, fingerprint: self.fingerprint@ }
    }
}

/// The error text of `PrivateKey::from_openssh` on these bytes, or `None`
/// when they parse.
pub uninterp spec fn openssh_parse_error(bytes: Seq<u8>) -> Option<Seq<char>>;

/// `PrivateKey::is_encrypted` of the key parsed from these bytes.
pub uninterp spec fn openssh_encrypted(bytes: Seq<u8>) -> bool;

/// `PrivateKey::algorithm` of the key parsed from these bytes.
pub uninterp spec fn openssh_algorithm(bytes: Seq<u8>) -> KeyAlgorithm;

/// `PrivateKey::comment` of the key parsed from these bytes.
pub uninterp spec fn openssh_comment(bytes: Seq<u8>) -> Seq<char>;

/// The SHA-256 fingerprint bytes (`PrivateKey::fingerprint`) of the public
/// key of the key parsed from these bytes.
pub uninterp spec fn openssh_fingerprint(bytes: Seq<u8>) -> Seq<u8>;

/// The error text of `PrivateKey::decrypt` with this password on the key
/// parsed from these bytes, or `None` when it decrypts.
pub uninterp spec fn openssh_decrypt_error(bytes: Seq<u8>, password: Seq<u8>) -> Option<Seq<char>>;

/// Calls `ssh_key::PrivateKey::from_openssh`, then `is_encrypted`,
/// `algorithm` (told apart by variant and curve), `comment` and the SHA-256
/// `fingerprint` on the key. The outcome and each attribute are named as
/// functions of the bytes.
#[verifier::external_body]
fn parse_openssh_key(bytes: &[u8]) -> (r: Result<ParsedKey, String>)
    ensures
        match r {
            Ok(p) => {
                &&& openssh_parse_error(bytes@) is None
                &&& p.encrypted == openssh_encrypted(bytes@)
                &&& p.algorithm == openssh_algorithm(bytes@)
                &&& p.comment@ == openssh_comment(bytes@)
                &&& p.fingerprint@ == openssh_fingerprint(bytes@)
                &&& p.source@ == bytes@
            },
            Err(m) => openssh_parse_error(bytes@) == Some(m@),
        },
{
    let k = match ssh_key::PrivateKey::from_openssh(bytes) { Ok(k) => k, Err(e) => return Err(e.to_string()) };
    let algorithm = match k.algorithm() {
        Algorithm::Rsa { .. } => KeyAlgorithm::Rsa,
        Algorithm::Ed25519 => KeyAlgorithm::Ed25519,
        Algorithm::Ecdsa { curve: EcdsaCurve::NistP256 } => KeyAlgorithm::EcdsaP256,
        Algorithm::Ecdsa { curve: EcdsaCurve::NistP384 } => KeyAlgorithm::EcdsaP384,
        Algorithm::Ecdsa { curve: EcdsaCurve::NistP521 } => KeyAlgorithm::EcdsaP521,
        _ => KeyAlgorithm::Other,
    };
    let (encrypted, comment) = (k.is_encrypted(), k.comment().to_string());
    let fingerprint = k.fingerprint(ssh_key::HashAlg::Sha256).as_bytes().to_vec();
    Ok(ParsedKey { key: k, encrypted, algorithm, comment, fingerprint, source: bytes.to_vec() })
}

/// Calls `ssh_key::PrivateKey::decrypt` with a password, then `is_encrypted`
/// and the SHA-256 `fingerprint` on the result. The outcome is named as a
/// function of the key's bytes and the password. A decrypted key holds the
/// key pair decoded from the plaintext, never the encrypted form, and keeps
/// the public key of the encrypted one, so it is not encrypted and has the
/// same fingerprint.
#[verifier::external_body]
fn decrypt_openssh_key(key: &ParsedKey, password: &[u8]) -> (r: Result<LoadedKey, String>)
    ensures
        match r {
            Ok(k) => {
                &&& openssh_decrypt_error(key.source@, password@) is None
                &&& !k.encrypted
                &&& k.fingerprint@ == openssh_fingerprint(key.source@)
            },
            Err(m) => openssh_decrypt_error(key.source@, password@) == Some(m@),
        },
{
    let k = key.key.decrypt(password).map_err(|e| e.to_string())?;
    let fingerprint = k.fingerprint(ssh_key::HashAlg::Sha256).as_bytes().to_vec();
    Ok(LoadedKey { encrypted: k.is_encrypted(), fingerprint, key: k })
}

/// The key as parsed, with what is known of it.
fn parsed_as_loaded(p: ParsedKey) -> (r: LoadedKey)
    ensures
        r.encrypted == p.encrypted,
        r.fingerprint@ == p.fingerprint@,
{
    LoadedKey { key: p.key, encrypted: p.encrypted, fingerprint: p.fingerprint }
}

/// What reading a key file gave.
pub enum KeyFile {
    /// There is no file at the path.
    Missing,
    /// The file could not be read; the error's message.
    Unreadable(String),
    /// The file's text.
    Text(String),
}

/// `KeyFile` with its texts as character sequences.
pub enum KeyFileView {
    Missing,
    Unreadable(Seq<char>),
    Text(Seq<char>),
}

impl View for KeyFile {
    type V = KeyFileView;

    open spec fn view(&self) -> KeyFileView {
        match self {
            KeyFile::Missing => KeyFileView::Missing,
            KeyFile::Unreadable(m) => KeyFileView::Unreadable(m@),
            KeyFile::Text(t) => KeyFileView::Text(t@),
        }
    }
}

/// Outcome of loading a key from a file, optionally with a passphrase: a
/// missing or unreadable file, a parse failure, or (with a passphrase, for
/// an encrypted key) a decryption failure; else the key of the file, which
/// is decrypted when a passphrase was given and still encrypted only when
/// the file's key is encrypted and no passphrase was given.
pub open spec fn load_key_spec(path: Seq<char>, file: KeyFileView, passphrase: Option<Seq<u8>>) -> Result<LoadedKeyView, AppErrorView> {
    match file {
        KeyFileView::Missing => Err(AppErrorView::KeyError("Key file not found: "@ + path)),
        KeyFileView::Unreadable(m) => Err(AppErrorView::KeyError("Failed to read key file "@ + path + ": "@ + m)),
        KeyFileView::Text(t) => {
            let bytes = encode_utf8(t);
            match passphrase {
                None => match openssh_parse_error(bytes) {
                    Some(m) => Err(AppErrorView::KeyError(
                        "Failed to parse key "@ + path + " (may be encrypted — passphrase required): "@ + m,
                    )),
                    None => Ok(LoadedKeyView { encrypted: openssh_encrypted(bytes), fingerprint: openssh_fingerprint(bytes) }),
                },
                Some(pp) => match openssh_parse_error(bytes) {
                    Some(m) => Err(AppErrorView::KeyError("Failed to load/decrypt key "@ + path + ": "@ + m)),
                    None => if openssh_encrypted(bytes) {
                        match openssh_decrypt_error(bytes, pp) {
                            Some(m) => Err(AppErrorView::KeyError("Failed to load/decrypt key "@ + path + ": "@ + m)),
                            None => Ok(LoadedKeyView { encrypted: false, fingerprint: openssh_fingerprint(bytes) }),
                        }
                    } else {
                        Ok(LoadedKeyView { encrypted: false, fingerprint: openssh_fingerprint(bytes) })
                    },
                },
            }
        },
    }
}

/// Load a private key from what reading its file gave, decrypting it with
/// the passphrase when one is given and the key is encrypted. `path` is the
/// file's path as shown in messages.
pub fn load_private_key(path: &str, file: &KeyFile, passphrase: Option<&str>) -> (r: Result<LoadedKey, AppError>)
    ensures
        match r {
            Ok(k) => load_key_spec(path@, file@, match passphrase { Some(p) => Some(encode_utf8(p@)), None => None })
                == Ok::<LoadedKeyView, AppErrorView>(k@),
            Err(e) => load_key_spec(path@, file@, match passphrase { Some(p) => Some(encode_utf8(p@)), None => None })
                == Err::<LoadedKeyView, AppErrorView>(e@),
        },
{
    let text = match file {
        KeyFile::Missing => {
            return Err(AppError::KeyError("Key file not found: ".to_owned().concat(path)));
        },
        KeyFile::Unreadable(m) => {
            return Err(AppError::KeyError("Failed to read key file ".to_owned().concat(path).concat(": ").concat(m.as_str())));
        },
        KeyFile::Text(t) => t,
    };
    let bytes = text.as_str().as_bytes();
    match passphrase {
        None => match parse_openssh_key(bytes) {
            Ok(p) => Ok(parsed_as_loaded(p)),
            Err(m) => Err(AppError::KeyError(
                "Failed to parse key ".to_owned().concat(path).concat(" (may be encrypted — passphrase required): ").concat(m.as_str()),
            )),
        },
        Some(pp) => match parse_openssh_key(bytes) {
            Err(m) => Err(AppError::KeyError("Failed to load/decrypt key ".to_owned().concat(path).concat(": ").concat(m.as_str()))),
            Ok(p) => {
                if p.encrypted {
                    let pb = pp.as_bytes();
                    match decrypt_openssh_key(&p, pb) {
                        Ok(k) => Ok(k),
                        Err(m) => Err(AppError::KeyError("Failed to load/decrypt key ".to_owned().concat(path).concat(": ").concat(m.as_str()))),
                    }
                } else {
                    Ok(parsed_as_loaded(p))
                }
            },
        },
    }
}

// ─── Key discovery ──────────────────────────────────────

/// An available SSH key for the front end.
#[derive(Debug, Clone)]
pub struct KeyInfo {
    pub path: String,
    pub key_type: String,
    pub is_encrypted: bool,
    pub comment: Option<String>,
}

/// The UTF-8 bytes of `s` hold those of `needle` at some position.
pub open spec fn contains_text(s: Seq<char>, needle: Seq<char>) -> bool {
    let h = encode_utf8(s);
    let n = encode_utf8(needle);
    exists|i: int| 0 <= i && i + n.len() <= h.len() && #[trigger] h.subrange(i, i + n.len()) == n
}

/// `str::contains` with a string pattern, by byte comparison.
pub fn str_contains(s: &str, needle: &str) -> (r: bool)
    ensures
        r == contains_text(s@, needle@),
{
    let h = s.as_bytes();
    let n = needle.as_bytes();
    if n.len() > h.len() {
        proof {
            assert forall|i: int| 0 <= i && i + n@.len() <= h@.len() implies #[trigger] h@.subrange(i, i + n@.len()) != n@ by {}
        }
        return false;
    }
    let mut i: usize = 0;
    let last = h.len() - n.len();
    while i <= last
        invariant
            n@.len() <= h@.len(),
            h@.len() == h.len(),
            last == h@.len() - n@.len(),
            h@ == encode_utf8(s@),
            n@ == encode_utf8(needle@),
            0 <= i <= h@.len() - n@.len() + 1,
            forall|k: int| 0 <= k < i ==> #[trigger] h@.subrange(k, k + n@.len()) != n@,
        decreases h@.len() - i,
    {
        let mut j: usize = 0;
        let mut same = true;
        while j < n.len()
            invariant
                i + n@.len() <= h@.len(),
                h@.len() == h.len(),
                0 <= j <= n@.len(),
                same == forall|t: int| 0 <= t < j ==> h@[i + t] == n@[t],
            decreases n@.len() - j,
        {
            if h[i + j] != n[j] {
                same = false;
            }
            j += 1;
        }
        if same {
            assert(h@.subrange(i as int, i + n@.len()) =~= n@);
            return true;
        }
        proof {
            let t = choose|t: int| 0 <= t < n@.len() && h@[i + t] != n@[t];
            assert(h@.subrange(i as int, i + n@.len())[t] != n@[t]);
        }
        i += 1;
    }
    false
}

/// Label of a key algorithm in the key list.
pub open spec fn algorithm_label(a: KeyAlgorithm) -> Seq<char> {
    match a {
        KeyAlgorithm::Rsa => "RSA"@,
        KeyAlgorithm::Ed25519 => "Ed25519"@,
        KeyAlgorithm::EcdsaP256 => "ECDSA-256"@,
        KeyAlgorithm::EcdsaP384 => "ECDSA-384"@,
        KeyAlgorithm::EcdsaP521 => "ECDSA-521"@,
        KeyAlgorithm::Other => "Unknown"@,
    }
}

/// The key type shown for a file that does not parse but looks encrypted.
pub open spec fn encrypted_label(contents: Seq<char>) -> Seq<char> {
    if contains_text(contents, "RSA"@) {
        "RSA"@
    } else if contains_text(contents, "OPENSSH"@) {
        "OpenSSH (encrypted)"@
    } else {
        "Unknown (encrypted)"@
    }
}

/// What the key list shows of a file: a key that parses with its type and
/// comment; one that does not parse but names an encryption marker
/// ("ENCRYPTED", "aes256-ctr" or "bcrypt") as encrypted; nothing otherwise.
/// The result is (path, type, encrypted, comment).
pub open spec fn identify_spec(contents: Seq<char>, path: Seq<char>) -> Option<(Seq<char>, Seq<char>, bool, Option<Seq<char>>)> {
    let bytes = encode_utf8(contents);
    if openssh_parse_error(bytes) is None {
        Some((path, algorithm_label(openssh_algorithm(bytes)), false, Some(openssh_comment(bytes))))
    } else if contains_text(contents, "ENCRYPTED"@) || contains_text(contents, "aes256-ctr"@) || contains_text(contents, "bcrypt"@) {
        Some((path, encrypted_label(contents), true, None))
    } else {
        None
    }
}

/// The key list entry of a file, if it holds a key.
pub fn identify_key(contents: &str, path: &str) -> (r: Option<KeyInfo>)
    ensures
        match r {
            Some(k) => identify_spec(contents@, path@) == Some((k.path@, k.key_type@, k.is_encrypted, crate::text::opt_view(k.comment))),
            None => identify_spec(contents@, path@) is None,
        },
{
    match parse_openssh_key(contents.as_bytes()) {
        Ok(p) => {
            let label = match p.algorithm {
                KeyAlgorithm::Rsa => "RSA",
                KeyAlgorithm::Ed25519 => "Ed25519",
                KeyAlgorithm::EcdsaP256 => "ECDSA-256",
                KeyAlgorithm::EcdsaP384 => "ECDSA-384",
                KeyAlgorithm::EcdsaP521 => "ECDSA-521",
                KeyAlgorithm::Other => "Unknown",
            };
            Some(KeyInfo { path: path.to_owned(), key_type: label.to_owned(), is_encrypted: false, comment: Some(p.comment) })
        },
        Err(_) => {
            if str_contains(contents, "ENCRYPTED") || str_contains(contents, "aes256-ctr") || str_contains(contents, "bcrypt") {
                let label = if str_contains(contents, "RSA") {
                    "RSA"
                } else if str_contains(contents, "OPENSSH") {
                    "OpenSSH (encrypted)"
                } else {
                    "Unknown (encrypted)"
                };
                Some(KeyInfo { path: path.to_owned(), key_type: label.to_owned(), is_encrypted: true, comment: None })
            } else {
                None
            }
        },
    }
}

/// `str::ends_with` with a string pattern, on UTF-8 bytes.
pub open spec fn ends_with(s: Seq<char>, p: Seq<char>) -> bool {
    encode_utf8(p).len() <= encode_utf8(s).len()
        && encode_utf8(s).skip(encode_utf8(s).len() - encode_utf8(p).len()) == encode_utf8(p)
}

fn str_ends_with(s: &str, p: &str) -> (r: bool)
    ensures
        r == ends_with(s@, p@),
{
    let sb = s.as_bytes();
    let pb = p.as_bytes();
    if pb.len() > sb.len() {
        return false;
    }
    let off = sb.len() - pb.len();
    let mut i: usize = 0;
    while i < pb.len()
        invariant
            pb@.len() <= sb@.len(),
            sb@.len() == sb.len(),
            off == sb@.len() - pb@.len(),
            sb@ == encode_utf8(s@),
            pb@ == encode_utf8(p@),
            0 <= i <= pb@.len(),
            forall|j: int| 0 <= j < i ==> sb@[off + j] == pb@[j],
        decreases pb@.len() - i,
    {
        if sb[off + i] != pb[i] {
            assert(sb@.skip(off as int)[i as int] != pb@[i as int]);
            return false;
        }
        i += 1;
    }
    assert(sb@.skip(off as int) =~= pb@);
    true
}

/// Whether a file in the SSH directory is a private key candidate: named
/// `id_*`, not a `.pub` file.
pub fn is_key_file_name(name: &str) -> (r: bool)
    ensures
        r == (starts_with(name@, "id_"@) && !ends_with(name@, ".pub"@)),
{
    str_starts_with(name, "id_") && !str_ends_with(name, ".pub")
}

} // verus!
