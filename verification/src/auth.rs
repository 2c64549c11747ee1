use crate::error::{AppError, AppErrorView};
use crate::keys::{load_key_spec, load_private_key, KeyFile, KeyFileView, LoadedKey, LoadedKeyView};
use crate::profile::{AuthMethodConfig, UserCredential};
use crate::vault::{after_lookup, credential_lookup, get_credential_from_vault, read_spec, vault_key_text, Vault, VaultModel};
use vstd::prelude::*;
use vstd::utf8::encode_utf8;

verus! {

/// How a session authenticates, resolved at connect time.
pub enum AuthMethod {
    Password(String),
    PublicKey { key: Box<LoadedKey> },
}

/// `AuthMethod` with the password as characters and the key by what is
/// known of it.
pub enum AuthMethodView {
    Password(Seq<char>),
    PublicKey(LoadedKeyView),
}

impl View for AuthMethod {
    type V = AuthMethodView;

    open spec fn view(&self) -> AuthMethodView {
        match self {
            AuthMethod::Password(p) => AuthMethodView::Password(p@),
            AuthMethod::PublicKey { key } => AuthMethodView::PublicKey((**key)@),
        }
    }
}

/// Calls `shellexpand::tilde`. A path that does not start with `~` comes
/// back unchanged; one that does keeps everything after the `~` at its end
/// (the home directory, or the `~` itself, stands before it). Which home
/// directory is used depends on the environment and is left unsaid.
#[verifier::external_body]
fn expand_tilde(path: &str) -> (r: String)
    ensures
        (path@.len() == 0 || path@[0] != '~') ==> r@ == path@,
        (path@.len() > 0 && path@[0] == '~') ==> {
            &&& r@.len() >= path@.len() - 1
            &&& r@.skip(r@.len() - (path@.len() - 1)) == path@.skip(1)
        },
{
    shellexpand::tilde(path).to_string()
}

/// The key file a user authenticates with, with `~` expanded: `None` unless
/// the user uses public-key authentication.
pub fn key_file_path(user: &UserCredential) -> (r: Option<String>)
    ensures
        match user.auth_method {
            AuthMethodConfig::PublicKey { private_key_path, .. } => match r {
                Some(p) => {
                    &&& (private_key_path@.len() == 0 || private_key_path@[0] != '~') ==> p@ == private_key_path@
                    &&& (private_key_path@.len() > 0 && private_key_path@[0] == '~') ==> {
                        &&& p@.len() >= private_key_path@.len() - 1
                        &&& p@.skip(p@.len() - (private_key_path@.len() - 1)) == private_key_path@.skip(1)
                    }
                },
                None => false,
            },
            _ => r is None,
        },
{
    match &user.auth_method {
        AuthMethodConfig::PublicKey { private_key_path, .. } => Some(expand_tilde(private_key_path.as_str())),
        _ => None,
    }
}

/// A passphrase as the bytes handed to the key decryption.
pub open spec fn passphrase_bytes(p: Option<Seq<char>>) -> Option<Seq<u8>> {
    match p {
        Some(s) => Some(encode_utf8(s)),
        None => None,
    }
}

/// Loading the key with a passphrase, as an authentication outcome.
pub open spec fn key_with_passphrase(path: Seq<char>, file: KeyFileView, passphrase: Seq<char>) -> Result<Option<AuthMethodView>, AppErrorView> {
    match load_key_spec(path, file, passphrase_bytes(Some(passphrase))) {
        Ok(k) => Ok(Some(AuthMethodView::PublicKey(k))),
        Err(e) => Err(e),
    }
}

/// The authentication method of a user: a password given now or found in
/// the vault; a key that loads unencrypted without a passphrase, or with the one given
/// now, or with the one found in the vault when the user keeps it there.
/// `Ok(None)` means that a password or passphrase must be asked for.
/// `key_path` and `file` are the expanded key path and what reading it gave.
pub open spec fn resolve_auth_spec(
    user: UserCredential,
    profile_id: u128,
    password: Option<Seq<char>>,
    vault: Option<VaultModel>,
    key_path: Seq<char>,
    file: KeyFileView,
) -> Result<Option<AuthMethodView>, AppErrorView> {
    match user.auth_method {
        AuthMethodConfig::Password => match password {
            Some(pw) => Ok(Some(AuthMethodView::Password(pw))),
            None => match vault {
                Some(m) => match credential_lookup(m, profile_id, Some(user.id), "password"@) {
                    Err(e) => Err(e),
                    Ok(Some(s)) => Ok(Some(AuthMethodView::Password(s))),
                    Ok(None) => Ok(None),
                },
                None => Ok(None),
            },
        },
        AuthMethodConfig::PublicKey { passphrase_in_keychain, .. } => {
            if usable_without_passphrase(key_path, file) {
                Ok(Some(AuthMethodView::PublicKey(load_key_spec(key_path, file, None)->Ok_0)))
            } else {
                match password {
                    Some(pp) => key_with_passphrase(key_path, file, pp),
                    None => match vault {
                        Some(m) => if passphrase_in_keychain {
                            match credential_lookup(m, profile_id, Some(user.id), "passphrase"@) {
                                Err(e) => Err(e),
                                Ok(Some(pp)) => key_with_passphrase(key_path, file, pp),
                                Ok(None) => Ok(None),
                            }
                        } else {
                            Ok(None)
                        },
                        None => Ok(None),
                    },
                }
            }
        },
        AuthMethodConfig::KeyboardInteractive => Err(
            AppErrorView::AuthFailed("Keyboard-interactive auth not yet implemented"@),
        ),
    }
}

/// The key loads without a passphrase and is not encrypted.
pub open spec fn usable_without_passphrase(key_path: Seq<char>, file: KeyFileView) -> bool {
    load_key_spec(key_path, file, None) matches Ok(k) && !k.encrypted
}

/// The kind of credential that resolving a user's authentication looks up
/// in the vault, when a vault is open: the password when none is given for
/// password authentication; the passphrase when the key does not load
/// without one, none is given and the user keeps it in the vault.
pub open spec fn auth_lookup(user: UserCredential, password: Option<Seq<char>>, key_path: Seq<char>, file: KeyFileView) -> Option<Seq<char>> {
    match user.auth_method {
        AuthMethodConfig::Password => if password is None { Some("password"@) } else { None },
        AuthMethodConfig::PublicKey { passphrase_in_keychain, .. } => if !usable_without_passphrase(key_path, file)
            && password is None && passphrase_in_keychain {
            Some("passphrase"@)
        } else {
            None
        },
        AuthMethodConfig::KeyboardInteractive => None,
    }
}

/// `Option<&str>` as characters.
pub open spec fn str_opt(p: Option<&str>) -> Option<Seq<char>> {
    match p {
        Some(s) => Some(s@),
        None => None,
    }
}

/// An optional vault as its model.
pub open spec fn vault_opt(v: Option<Vault>) -> Option<VaultModel> {
    match v {
        Some(v) => Some(v@),
        None => None,
    }
}

/// The result of `resolve_auth_method` by views.
pub open spec fn auth_result_view(r: Result<Option<AuthMethod>, AppError>) -> Result<Option<AuthMethodView>, AppErrorView> {
    match r {
        Ok(Some(a)) => Ok(Some(a@)),
        Ok(None) => Ok(None),
        Err(e) => Err(e@),
    }
}

/// Resolve how a user authenticates, from the password given with the
/// connect request, the vault if it is open, and (for key authentication)
/// the expanded key path and what reading that file gave. A credential
/// found in the vault under its legacy name is also stored under the name
/// with the user.
pub fn resolve_auth_method(
    user: &UserCredential,
    profile_id: u128,
    password: Option<&str>,
    vault: &mut Option<Vault>,
    key_path: &str,
    key_file: &KeyFile,
) -> (r: Result<Option<AuthMethod>, AppError>)
    requires
        (*old(vault)) matches Some(v) ==> v.wf(),
    ensures
        auth_result_view(r) == resolve_auth_spec(*user, profile_id, str_opt(password), vault_opt(*old(vault)), key_path@, key_file@),
        match (user.auth_method, password) {
            (AuthMethodConfig::Password, Some(pw)) => auth_result_view(r) == Ok::<Option<AuthMethodView>, AppErrorView>(
                Some(AuthMethodView::Password(pw@)),
            ),
            _ => true,
        },
        match (*old(vault), *final(vault)) {
            (Some(a), Some(b)) => b.wf() && match auth_lookup(*user, str_opt(password), key_path@, key_file@) {
                Some(t) => after_lookup(a@, b@, profile_id, Some(user.id), t),
                None => b@ == a@,
            },
            (None, None) => true,
            _ => false,
        },
{
    match &user.auth_method {
        AuthMethodConfig::Password => {
            if let Some(pw) = password {
                return Ok(Some(AuthMethod::Password(pw.to_owned())));
            }
            if let Some(v) = vault {
                match get_credential_from_vault(v, profile_id, Some(user.id), "password") {
                    Err(e) => {
                        return Err(e);
                    },
                    Ok(Some(stored)) => {
                        return Ok(Some(AuthMethod::Password(stored)));
                    },
                    Ok(None) => {},
                }
            }
            Ok(None)
        },
        AuthMethodConfig::PublicKey { passphrase_in_keychain, .. } => {
            let plain = match load_private_key(key_path, key_file, None) {
                Ok(key) => if key.encrypted {
                    None
                } else {
                    Some(key)
                },
                Err(_) => None,
            };
            match plain {
                Some(key) => Ok(Some(AuthMethod::PublicKey { key: Box::new(key) })),
                None => {
                    if let Some(pp) = password {
                        return match load_private_key(key_path, key_file, Some(pp)) {
                            Ok(key) => Ok(Some(AuthMethod::PublicKey { key: Box::new(key) })),
                            Err(e) => Err(e),
                        };
                    }
                    if *passphrase_in_keychain {
                        if let Some(v) = vault {
                            match get_credential_from_vault(v, profile_id, Some(user.id), "passphrase") {
                                Err(e) => {
                                    return Err(e);
                                },
                                Ok(Some(passphrase)) => {
                                    return match load_private_key(key_path, key_file, Some(passphrase.as_str())) {
                                        Ok(key) => Ok(Some(AuthMethod::PublicKey { key: Box::new(key) })),
                                        Err(e) => Err(e),
                                    };
                                },
                                Ok(None) => {},
                            }
                        }
                    }
                    Ok(None)
                },
            }
        },
        AuthMethodConfig::KeyboardInteractive => Err(
            AppError::AuthFailed("Keyboard-interactive auth not yet implemented".to_owned()),
        ),
    }
}

/// With password authentication, a password given with the connect request
/// is the one used, whatever the vault holds; without one, the password
/// stored under the user's own credential name is used; with neither a
/// password nor a vault, the password must be asked for.
pub proof fn law_password_sources(
    user: UserCredential,
    profile_id: u128,
    pw: Seq<char>,
    vault: Option<VaultModel>,
    key_path: Seq<char>,
    file: KeyFileView,
    stored: Seq<char>,
)
    requires
        user.auth_method is Password,
    ensures
        resolve_auth_spec(user, profile_id, Some(pw), vault, key_path, file) == Ok::<Option<AuthMethodView>, AppErrorView>(
            Some(AuthMethodView::Password(pw)),
        ),
        resolve_auth_spec(user, profile_id, None, None, key_path, file) == Ok::<Option<AuthMethodView>, AppErrorView>(None),
        match vault {
            Some(m) => read_spec(m, vault_key_text(profile_id, Some(user.id), "password"@)) == Ok::<
                Option<Seq<char>>,
                AppErrorView,
            >(Some(stored)) ==> resolve_auth_spec(user, profile_id, None, vault, key_path, file) == Ok::<
                Option<AuthMethodView>,
                AppErrorView,
            >(Some(AuthMethodView::Password(stored))),
            None => true,
        },
{
}

} // verus!
