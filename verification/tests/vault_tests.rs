use nexterm::error::AppError;
use nexterm::vault::{
    close_vault, delete_credential, delete_profile_credentials, get_credential_from_vault, has_credential,
    store_credential, vault_key, vault_key_legacy, vault_status, Vault, VaultFile,
};

const PROFILE: u128 = 0x1111_1111_1111_1111_1111_1111_1111_1111;
const USER: u128 = 0x2222_2222_2222_2222_2222_2222_2222_2222;

#[test]
fn vault_keys_name_profile_user_and_type() {
    assert_eq!(
        vault_key(PROFILE, Some(USER), "password"),
        "11111111-1111-1111-1111-111111111111:22222222-2222-2222-2222-222222222222:password"
    );
    assert_eq!(vault_key(PROFILE, None, "password"), "11111111-1111-1111-1111-111111111111:password");
    assert_eq!(vault_key_legacy(PROFILE, "passphrase"), "11111111-1111-1111-1111-111111111111:passphrase");
}

#[test]
fn vault_store_get_delete_and_reopen() {
    let mut vault = Vault::create("master").expect("create");
    assert!(vault.is_unlocked());
    vault.store("a", "secret-a").expect("store");
    vault.store("b", "secret-b").expect("store");
    assert_eq!(vault.get("a"), Ok(Some("secret-a".to_string())));
    assert!(vault.has("b"));
    vault.delete("b");
    assert!(!vault.has("b"));
    assert_eq!(vault.get("b"), Ok(None));
    let file: VaultFile = vault.to_file();
    assert_eq!(file.credentials.len(), 1);
    let reopened = Vault::unlock(&file, "master").expect("unlock with the right password");
    assert_eq!(reopened.get("a"), Ok(Some("secret-a".to_string())));
    assert_eq!(Vault::unlock(&file, "wrong").err(), Some(AppError::VaultWrongPassword));
    vault.lock();
    assert!(!vault.is_unlocked());
    assert_eq!(vault.get("a"), Err(AppError::VaultLocked));
    assert_eq!(vault.store("c", "x"), Err(AppError::VaultLocked));
}

#[test]
fn vault_commands_need_an_open_vault() {
    let mut none: Option<Vault> = None;
    assert_eq!(store_credential(&mut none, PROFILE, Some(USER), "password", "x"), Err(AppError::VaultLocked));
    assert_eq!(has_credential(&none, PROFILE, None, "password"), Err(AppError::VaultLocked));
    assert_eq!(delete_credential(&mut none, PROFILE, None, "password"), Err(AppError::VaultLocked));
    let status = vault_status(true, &none);
    assert!(status.exists);
    assert!(!status.unlocked);
}

#[test]
fn credentials_fall_back_to_legacy_names_and_are_deleted_by_profile() {
    let mut open = Some(Vault::create("master").expect("create"));
    store_credential(&mut open, PROFILE, None, "password", "legacy-pw").expect("store legacy");
    store_credential(&mut open, PROFILE, Some(USER), "passphrase", "pp").expect("store per user");
    store_credential(&mut open, 0x99, None, "password", "other").expect("store other profile");
    assert_eq!(has_credential(&open, PROFILE, Some(USER), "passphrase"), Ok(true));
    {
        let v = open.as_mut().unwrap();
        assert_eq!(
            get_credential_from_vault(v, PROFILE, Some(USER), "password"),
            Ok(Some("legacy-pw".to_string())),
            "a user without its own entry falls back to the legacy name"
        );
        assert_eq!(get_credential_from_vault(v, PROFILE, Some(USER), "passphrase"), Ok(Some("pp".to_string())));
    }
    assert_eq!(has_credential(&open, PROFILE, Some(USER), "password"), Ok(true), "a legacy hit is migrated");
    assert_eq!(has_credential(&open, PROFILE, None, "password"), Ok(true), "the legacy name is kept");
    delete_profile_credentials(&mut open, PROFILE);
    assert_eq!(has_credential(&open, PROFILE, Some(USER), "passphrase"), Ok(false));
    assert_eq!(has_credential(&open, PROFILE, None, "password"), Ok(false));
    assert_eq!(has_credential(&open, 0x99, None, "password"), Ok(true));
    assert!(vault_status(true, &open).unlocked);
    delete_credential(&mut open, 0x99, None, "password").expect("delete");
    assert_eq!(has_credential(&open, 0x99, None, "password"), Ok(false));
    close_vault(&mut open);
    assert!(open.is_none());
}

#[test]
fn change_master_password_rekeys_every_credential() {
    let mut vault = Vault::create("old").expect("create");
    vault.store("k", "value").expect("store");
    vault.change_master_password("new").expect("rekey");
    let file = vault.to_file();
    assert_eq!(Vault::unlock(&file, "old").err(), Some(AppError::VaultWrongPassword));
    let reopened = Vault::unlock(&file, "new").expect("unlock with the new password");
    assert_eq!(reopened.get("k"), Ok(Some("value".to_string())));
}

#[test]
fn unlock_rejects_malformed_vault_files() {
    let bad_version = VaultFile { version: 2, salt: String::new(), credentials: vec![] };
    assert_eq!(
        Vault::unlock(&bad_version, "pw").err(),
        Some(AppError::VaultError("Unsupported vault version: 2".to_string()))
    );
    let bad_salt = VaultFile { version: 1, salt: "!!".to_string(), credentials: vec![] };
    match Vault::unlock(&bad_salt, "pw") {
        Err(AppError::VaultError(m)) => assert!(m.starts_with("Invalid salt encoding: ")),
        _ => panic!("a salt that is not base64 is refused"),
    }
    let short_salt = VaultFile { version: 1, salt: "AAAA".to_string(), credentials: vec![] };
    assert_eq!(Vault::unlock(&short_salt, "pw").err(), Some(AppError::VaultError("Invalid salt length".to_string())));
}

#[test]
fn error_messages_name_the_failure() {
    assert_eq!(AppError::VaultLocked.message(), "Vault is locked");
    assert_eq!(AppError::VaultWrongPassword.message(), "Wrong master password");
    assert_eq!(AppError::TunnelError("x".to_string()).message(), "Tunnel error: x");
    assert_eq!(AppError::Other("plain".to_string()).message(), "plain");
    assert_eq!(
        AppError::SessionNotFound(1).message(),
        "Session not found: 00000000-0000-0000-0000-000000000001"
    );
    assert_eq!(
        AppError::Folder(nexterm::error::ProfileError::FolderNotFound).message(),
        "Folder error: Folder not found"
    );
}
