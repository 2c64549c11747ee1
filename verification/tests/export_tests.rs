use nexterm::error::AppError;
use nexterm::export::{
    build_export_envelope, build_export_result, decode_import_bytes, decrypt_export_data, encrypt_export_data,
    has_export_magic, ExportEnvelope, ExportedFolder, ExportedProfile, ExportedUser,
};
use nexterm::fs_secure::BestEffortOutcome;
use nexterm::importing::{finish_import, import_envelope};
use nexterm::profile::{make_system_folder, ConnectionProfile, Folder, SYSTEM_FOLDER_NAME};
use std::io;

fn fresh_id() -> u128 {
    uuid::Uuid::new_v4().as_u128()
}

#[test]
fn build_export_envelope_preserves_folder_structure() {
    let now = 1_767_225_600_000_000i64;
    let system = Folder {
        id: fresh_id(),
        name: SYSTEM_FOLDER_NAME.to_string(),
        display_order: 0,
        is_system: true,
        is_expanded: true,
        created_at: now,
        updated_at: now,
    };
    let proxmox = Folder {
        id: fresh_id(),
        name: "PROXMOX".to_string(),
        display_order: 1,
        is_system: false,
        is_expanded: false,
        created_at: now,
        updated_at: now,
    };
    let mut grouped = ConnectionProfile::default();
    grouped.name = "zammad".to_string();
    grouped.host = "192.168.2.56".to_string();
    grouped.port = 22;
    grouped.display_order = 4;
    grouped.folder_id = Some(proxmox.id);
    let mut ungrouped = ConnectionProfile::default();
    ungrouped.name = "root".to_string();
    ungrouped.host = "192.168.2.74".to_string();
    ungrouped.port = 22;
    ungrouped.display_order = 1;
    ungrouped.folder_id = Some(system.id);

    let envelope = build_export_envelope(&vec![ungrouped, grouped], &vec![system, proxmox.clone()]);

    assert_eq!(envelope.version, 3);
    assert_eq!(envelope.folders.len(), 1, "system folder must not be exported as a user folder");
    assert_eq!(envelope.folders[0].name, proxmox.name);
    assert_eq!(envelope.profiles.len(), 2);
    assert_eq!(envelope.profiles[0].folder_name, None, "system-folder profiles should import into Ungrouped by default");
    assert_eq!(envelope.profiles[1].folder_name.as_deref(), Some("PROXMOX"));
    assert_eq!(envelope.profiles[1].display_order, 4);
}

#[test]
fn build_export_result_hardened_has_no_warnings() {
    let result = build_export_result(3, BestEffortOutcome::Hardened);
    assert_eq!(result.count, 3);
    assert!(result.warnings.is_empty(), "no warnings expected when ACL hardening succeeded");
}

#[test]
fn build_export_result_skipped_unsupported_emits_acl_not_applied() {
    let result = build_export_result(5, BestEffortOutcome::SkippedUnsupported);
    assert_eq!(result.count, 5);
    assert!(
        result.warnings.contains(&"acl_not_applied".to_string()),
        "expected 'acl_not_applied' warning for SkippedUnsupported outcome"
    );
}

#[test]
fn build_export_result_failed_emits_acl_not_applied() {
    let err = io::Error::new(io::ErrorKind::PermissionDenied, "access denied");
    let result = build_export_result(2, BestEffortOutcome::Failed(err));
    assert_eq!(result.count, 2);
    assert!(
        result.warnings.contains(&"acl_not_applied".to_string()),
        "expected 'acl_not_applied' warning for Failed outcome"
    );
}

#[test]
fn export_result_warning_string_is_stable_contract() {
    let result = build_export_result(1, BestEffortOutcome::SkippedUnsupported);
    assert_eq!(result.warnings[0], "acl_not_applied");
}

#[test]
fn encrypted_export_round_trips_with_the_right_password() {
    let plaintext = br#"{"version":3,"profiles":[]}"#;
    let sealed = encrypt_export_data(plaintext, "s3cret").expect("encrypt");
    assert_eq!(sealed.len(), 64 + plaintext.len());
    assert!(has_export_magic(&sealed));
    assert_eq!(&sealed[..4], b"RMKT");
    assert_ne!(&sealed[48..], &plaintext[..], "the payload must not be stored in clear");
    let opened = decrypt_export_data(&sealed, "s3cret").expect("decrypt");
    assert_eq!(opened, plaintext.to_vec());
}

#[test]
fn encrypted_export_rejects_wrong_password() {
    let sealed = encrypt_export_data(b"payload", "right").expect("encrypt");
    assert_eq!(
        decrypt_export_data(&sealed, "wrong"),
        Err(AppError::ProfileError("Wrong export password or corrupted file".to_string()))
    );
}

#[test]
fn encrypted_export_rejects_short_and_foreign_files() {
    assert_eq!(
        decrypt_export_data(&[0u8; 10], "pw"),
        Err(AppError::ProfileError("Encrypted file is too short".to_string()))
    );
    assert_eq!(
        decrypt_export_data(&[0u8; 80], "pw"),
        Err(AppError::ProfileError("Not a valid encrypted export file".to_string()))
    );
}

#[test]
fn import_bytes_plain_json_and_encrypted() {
    let plain = decode_import_bytes(b"{\"a\":1}".to_vec(), None).expect("plain text");
    assert_eq!(plain, "{\"a\":1}");
    let sealed = encrypt_export_data(b"{\"b\":2}", "pw").expect("encrypt");
    let opened = decode_import_bytes(sealed.clone(), Some("pw")).expect("decrypt");
    assert_eq!(opened, "{\"b\":2}");
    assert!(decode_import_bytes(sealed, None).is_err(), "an encrypted file needs a password");
}

fn exported(name: &str, host: &str, folder: Option<&str>, order: i32) -> ExportedProfile {
    ExportedProfile {
        name: name.to_string(),
        host: host.to_string(),
        port: 22,
        users: vec![ExportedUser {
            username: "admin".to_string(),
            auth_method: "password".to_string(),
            private_key_path: None,
            is_default: true,
            password: Some("pw1".to_string()),
        }],
        folder_name: folder.map(|f| f.to_string()),
        display_order: order,
        username: None,
        auth_method: None,
        private_key_path: None,
        password: None,
    }
}

#[test]
fn import_creates_folders_skips_duplicates_and_collects_passwords() {
    let sys = make_system_folder();
    let sys_id = sys.id;
    let mut folders = vec![sys];
    let mut existing = ConnectionProfile::default();
    existing.name = "old".to_string();
    existing.host = "old.example.com".to_string();
    existing.folder_id = Some(sys_id);
    let mut profiles = vec![existing];
    let envelope = ExportEnvelope {
        version: 3,
        app: "NexTerm".to_string(),
        exported_at: "2026-01-01T00:00:00Z".to_string(),
        folders: vec![ExportedFolder { name: "Lab".to_string(), display_order: 0, is_expanded: true }],
        profiles: vec![
            exported("old", "old.example.com", None, 0),
            exported("new", "new.example.com", Some("lab"), 1),
            exported("   ", "x", None, 2),
        ],
    };
    let out = import_envelope(&mut folders, &mut profiles, &envelope, 42).expect("import");
    assert_eq!(out.imported, 1);
    assert_eq!(out.skipped, 1);
    assert_eq!(out.created_folders, 1);
    assert_eq!(out.errors, vec!["Skipped invalid profile: '   '".to_string()]);
    assert_eq!(folders.len(), 2);
    assert_eq!(folders[1].name, "Lab");
    assert_eq!(profiles.len(), 2);
    assert_eq!(profiles[1].name, "new");
    assert_eq!(profiles[1].folder_id, Some(folders[1].id), "folder names match ignoring case");
    assert_eq!(profiles[1].users.len(), 1);
    assert_eq!(out.credentials.len(), 1);
    assert_eq!(out.credentials[0].0, profiles[1].id);
    assert_eq!(out.credentials[0].1, profiles[1].users[0].id);
    assert_eq!(out.credentials[0].2, "pw1");
    let mut no_vault = None;
    let result = finish_import(out, &mut no_vault);
    assert_eq!(result.imported, 1);
    assert_eq!(result.skipped, 1);
}

#[test]
fn importing_the_same_export_twice_skips_every_profile_the_second_time() {
    let sys = make_system_folder();
    let mut folders = vec![sys];
    let mut profiles: Vec<ConnectionProfile> = vec![];
    let envelope = || ExportEnvelope {
        version: 3,
        app: "NexTerm".to_string(),
        exported_at: "2026-01-01T00:00:00Z".to_string(),
        folders: vec![],
        profiles: vec![exported("a", "a.example.com", None, 0), exported("b", "b.example.com", None, 1)],
    };
    let first = import_envelope(&mut folders, &mut profiles, &envelope(), 1).expect("import");
    assert_eq!(first.imported, 2);
    let second = import_envelope(&mut folders, &mut profiles, &envelope(), 2).expect("import again");
    assert_eq!(second.imported, 0);
    assert_eq!(second.skipped, 2);
    assert_eq!(profiles.len(), 2);
}

#[test]
fn import_refuses_foreign_files() {
    let mut folders = vec![make_system_folder()];
    let mut profiles: Vec<ConnectionProfile> = vec![];
    let envelope = ExportEnvelope {
        version: 3,
        app: "Other".to_string(),
        exported_at: String::new(),
        folders: vec![],
        profiles: vec![],
    };
    match import_envelope(&mut folders, &mut profiles, &envelope, 1) {
        Err(e) => assert_eq!(e, AppError::ProfileError("File is not a NexTerm export".to_string())),
        Ok(_) => panic!("a foreign file is refused"),
    }
    let mut no_system: Vec<Folder> = vec![];
    let ok_envelope = ExportEnvelope {
        version: 3,
        app: "NexTerm".to_string(),
        exported_at: String::new(),
        folders: vec![],
        profiles: vec![],
    };
    match import_envelope(&mut no_system, &mut profiles, &ok_envelope, 1) {
        Err(e) => assert_eq!(e, AppError::ProfileError("System folder not found during import".to_string())),
        Ok(_) => panic!("an import needs a system folder"),
    }
}

#[test]
fn export_envelopes_are_stamped_in_utc() {
    let envelope = build_export_envelope(&vec![ConnectionProfile::default()], &vec![make_system_folder()]);
    assert!(envelope.exported_at.len() >= 25);
    assert!(envelope.exported_at.ends_with("+00:00"));
    assert!(chrono::DateTime::parse_from_rfc3339(&envelope.exported_at).is_ok());
}
