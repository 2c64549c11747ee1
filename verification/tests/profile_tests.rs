use nexterm::error::{AppError, ProfileError};
use nexterm::profile::{
    backup_file_name, detect_profiles_format, empty_envelope, envelope_from_legacy, make_system_folder,
    make_system_folder_for_test, migrate_legacy_to_envelope, plan_profiles_load, validate_folder_name,
    AuthMethodConfig, LoadPlan, ProfilesFile,
    ConnectionProfile, ProfilesEnvelope, ProfilesFormat, UserCredential, SYSTEM_FOLDER_NAME,
};

fn fresh_id() -> u128 {
    uuid::Uuid::new_v4().as_u128()
}

/// A profile with a single default password user.
fn test_profile(name: &str, host: &str, username: &str) -> ConnectionProfile {
    let mut p = ConnectionProfile::default();
    p.name = name.to_string();
    p.host = host.to_string();
    p.users = vec![UserCredential {
        id: fresh_id(),
        username: username.to_string(),
        auth_method: AuthMethodConfig::Password,
        is_default: true,
    }];
    p
}

fn env_with_system_folder() -> ProfilesEnvelope {
    ProfilesEnvelope { folders: vec![make_system_folder()], profiles: vec![] }
}

// ─── Validation ─────────────────────────────────────────

#[test]
fn validation_rejects_empty_name() {
    let profile = test_profile("", "example.com", "user");
    assert!(profile.validate().is_err());
}

#[test]
fn validation_rejects_empty_host() {
    let profile = test_profile("Test", "", "user");
    assert!(profile.validate().is_err());
}

#[test]
fn validation_rejects_empty_users() {
    let mut profile = ConnectionProfile::default();
    profile.name = "Test".to_string();
    profile.host = "example.com".to_string();
    profile.users = vec![];
    assert!(profile.validate().is_err());
}

#[test]
fn validation_rejects_user_with_empty_username() {
    let mut profile = ConnectionProfile::default();
    profile.name = "Test".to_string();
    profile.host = "example.com".to_string();
    profile.users = vec![UserCredential {
        id: fresh_id(),
        username: "".to_string(),
        auth_method: AuthMethodConfig::Password,
        is_default: true,
    }];
    assert!(profile.validate().is_err());
}

#[test]
fn validation_rejects_multiple_defaults() {
    let mut profile = ConnectionProfile::default();
    profile.name = "Test".to_string();
    profile.host = "example.com".to_string();
    profile.users = vec![
        UserCredential {
            id: fresh_id(),
            username: "root".to_string(),
            auth_method: AuthMethodConfig::Password,
            is_default: true,
        },
        UserCredential {
            id: fresh_id(),
            username: "deploy".to_string(),
            auth_method: AuthMethodConfig::Password,
            is_default: true,
        },
    ];
    assert!(profile.validate().is_err());
}

#[test]
fn validation_accepts_valid_profile() {
    let profile = test_profile("Production", "prod.example.com", "deploy");
    assert!(profile.validate().is_ok());
}

#[test]
fn validation_messages_name_the_first_problem() {
    let mut p = test_profile("  ", "", "user");
    assert_eq!(p.validate(), Err(AppError::ProfileError("name is required".to_string())));
    p.name = "x".to_string();
    assert_eq!(p.validate(), Err(AppError::ProfileError("hostname is required".to_string())));
    p.host = "h".to_string();
    p.port = 0;
    assert_eq!(p.validate(), Err(AppError::ProfileError("port must be > 0".to_string())));
    p.port = 22;
    p.users[0].username = " ".to_string();
    assert_eq!(p.validate(), Err(AppError::ProfileError("each user must have a username".to_string())));
}

// ─── System folder and format migration ───────────────

#[test]
fn system_folder_name_constant_is_stable() {
    assert_eq!(SYSTEM_FOLDER_NAME, "__system__");
    let sys_folder = make_system_folder();
    assert!(sys_folder.is_system);
    assert_eq!(sys_folder.name, "__system__");
    assert!(sys_folder.is_expanded);
    assert_eq!(sys_folder.display_order, 0);
    assert_eq!(make_system_folder_for_test().name, "__system__");
}

#[test]
fn migration_detect_format_legacy_array() {
    let bytes = br#"[{"id":"00000000-0000-0000-0000-000000000001","name":"Server","host":"h","port":22,"tunnels":[],"displayOrder":0,"createdAt":"2024-01-01T00:00:00Z","updatedAt":"2024-01-01T00:00:00Z"}]"#;
    let fmt = detect_profiles_format(bytes).expect("detect_profiles_format must succeed on valid array");
    assert!(matches!(fmt, ProfilesFormat::LegacyArray), "expected LegacyArray, got {fmt:?}");
}

#[test]
fn migration_detect_format_envelope() {
    let bytes = br#"{"folders":[],"profiles":[]}"#;
    let fmt = detect_profiles_format(bytes).expect("detect_profiles_format must succeed on valid envelope");
    assert!(matches!(fmt, ProfilesFormat::Envelope), "expected Envelope, got {fmt:?}");
}

#[test]
fn migration_detect_format_rejects_corrupted_and_scalar_roots() {
    match detect_profiles_format(b"{not valid json at all") {
        Err(AppError::ProfileError(m)) => assert!(m.starts_with("Invalid JSON in profiles file: ")),
        other => panic!("expected a ProfileError, got {other:?}"),
    }
    match detect_profiles_format(b"42") {
        Err(AppError::ProfileError(m)) => assert_eq!(m, "Unrecognised profiles.json root shape: 42"),
        other => panic!("expected a ProfileError, got {other:?}"),
    }
}

#[test]
fn migration_legacy_to_envelope_produces_system_folder() {
    let profiles = vec![
        test_profile("Server A", "a.example.com", "admin"),
        test_profile("Server B", "b.example.com", "deploy"),
    ];
    let envelope = migrate_legacy_to_envelope(profiles);
    assert_eq!(envelope.folders.len(), 1, "must have exactly 1 folder");
    let sys = &envelope.folders[0];
    assert_eq!(sys.name, SYSTEM_FOLDER_NAME, "folder name must be SYSTEM_FOLDER_NAME");
    assert!(sys.is_system, "folder must be is_system: true");
    assert!(sys.is_expanded, "folder must be is_expanded: true");
    assert_eq!(sys.display_order, 0, "system folder display_order must be 0");
    assert_eq!(envelope.profiles.len(), 2);
    for (i, p) in envelope.profiles.iter().enumerate() {
        assert_eq!(p.folder_id, Some(sys.id), "profile {i} must have folder_id = system folder id");
        assert_eq!(p.display_order, i as i32, "profile {i} must have display_order = {i}");
    }
}

#[test]
fn migration_missing_file_returns_system_folder_envelope() {
    let envelope = empty_envelope();
    assert_eq!(envelope.folders.len(), 1, "must return exactly 1 folder (system folder)");
    assert!(envelope.folders[0].is_system, "the folder must be is_system: true");
    assert_eq!(envelope.profiles.len(), 0, "must return 0 profiles");
}

#[test]
fn migration_backup_collision_uses_timestamped_variant() {
    assert_eq!(backup_file_name(false, "20260101_000000"), "profiles.backup.json");
    let name = backup_file_name(true, "20260101_000000");
    assert_eq!(name, "profiles.backup.20260101_000000.json");
    assert!(name.starts_with("profiles.backup.") && name.ends_with(".json") && name.len() > "profiles.backup..json".len());
    let now_name = nexterm::profile::backup_file_name_now(true);
    assert!(now_name.starts_with("profiles.backup.") && now_name.ends_with(".json"));
    assert_ne!(now_name, "profiles.backup.json");
    assert_eq!(nexterm::profile::backup_file_name_now(false), "profiles.backup.json");
}

fn legacy_root_profile() -> ConnectionProfile {
    let mut p = ConnectionProfile::default();
    p.id = 1;
    p.name = "Legacy Server".to_string();
    p.host = "legacy.example.com".to_string();
    p.port = 22;
    p.username = Some("root".to_string());
    p.auth_method = Some(AuthMethodConfig::Password);
    p
}

#[test]
fn legacy_profile_migration() {
    let mut profiles = vec![legacy_root_profile()];
    assert!(profiles[0].users.is_empty());
    assert_eq!(profiles[0].username, Some("root".to_string()));
    profiles[0].migrate_legacy_fields();
    assert_eq!(profiles[0].users.len(), 1);
    assert_eq!(profiles[0].users[0].username, "root");
    assert!(profiles[0].users[0].is_default);
    assert!(profiles[0].username.is_none());
    assert!(profiles[0].auth_method.is_none());
}

#[test]
fn already_migrated_profile_untouched() {
    let user_id = fresh_id();
    let mut profile = ConnectionProfile::default();
    profile.name = "Modern".to_string();
    profile.host = "modern.example.com".to_string();
    profile.users = vec![UserCredential {
        id: user_id,
        username: "deploy".to_string(),
        auth_method: AuthMethodConfig::Password,
        is_default: true,
    }];
    profile.migrate_legacy_fields();
    assert_eq!(profile.users.len(), 1);
    assert_eq!(profile.users[0].id, user_id);
}

#[test]
fn legacy_file_becomes_envelope_with_migrated_users() {
    let mut second = legacy_root_profile();
    second.id = 2;
    second.username = None;
    let env = envelope_from_legacy(vec![legacy_root_profile(), second]);
    assert_eq!(env.folders.len(), 1);
    assert_eq!(env.profiles.len(), 2);
    assert_eq!(env.profiles[0].users.len(), 1);
    assert_eq!(env.profiles[0].users[0].username, "root");
    assert!(env.profiles[1].users.is_empty());
    assert_eq!(env.profiles[1].display_order, 1);
    assert_eq!(env.profiles[1].folder_id, Some(env.folders[0].id));
}

#[test]
fn ensure_system_folder_heals_an_envelope_without_one() {
    let mut env = ProfilesEnvelope { folders: vec![], profiles: vec![] };
    assert!(env.ensure_system_folder());
    assert_eq!(env.folders.len(), 1);
    assert!(env.folders[0].is_system);
    assert!(!env.ensure_system_folder());
    assert_eq!(env.folders.len(), 1);
}

// ─── Folder CRUD ────────────────────────────────────────

#[test]
fn crud_create_folder_happy_path() {
    let mut env = env_with_system_folder();
    let folder = env.create_folder("Proxmox".to_string()).expect("create_folder must succeed");
    assert_ne!(folder.id, 0, "must have a non-nil UUID");
    assert_eq!(folder.name, "Proxmox");
    assert!(!folder.is_system, "new folder must not be system");
    assert!(folder.is_expanded, "new folder must default is_expanded: true");
    assert_eq!(folder.display_order, 1, "display_order must be current_max+1");
    assert_eq!(env.folders.len(), 2, "envelope must contain 2 folders now");
}

#[test]
fn crud_create_folder_rejects_empty_name() {
    let mut env = env_with_system_folder();
    let result = env.create_folder("".to_string());
    assert!(result.is_err());
    assert!(matches!(result.unwrap_err(), ProfileError::InvalidName));
}

#[test]
fn crud_create_folder_rejects_whitespace_name() {
    let mut env = env_with_system_folder();
    let result = env.create_folder("    ".to_string());
    assert!(result.is_err());
    assert!(matches!(result.unwrap_err(), ProfileError::InvalidName));
}

#[test]
fn crud_create_folder_rejects_name_over_64_chars() {
    let mut env = env_with_system_folder();
    let long_name = "a".repeat(65);
    let result = env.create_folder(long_name);
    assert!(result.is_err());
    assert!(matches!(result.unwrap_err(), ProfileError::InvalidName));
}

#[test]
fn crud_create_folder_accepts_name_of_64_chars_and_trims() {
    let mut env = env_with_system_folder();
    let f = env.create_folder(format!("  {}  ", "b".repeat(64))).expect("64 characters are allowed");
    assert_eq!(f.name, "b".repeat(64));
    assert_eq!(validate_folder_name("  x "), Ok("x".to_string()));
}

#[test]
fn folder_name_limit_counts_characters_not_bytes() {
    let mut env = env_with_system_folder();
    let f = env.create_folder("é".repeat(40)).expect("40 characters are allowed");
    assert_eq!(f.name, "é".repeat(40));
    assert_eq!(validate_folder_name(&"é".repeat(64)), Ok("é".repeat(64)));
    assert_eq!(validate_folder_name(&"é".repeat(65)), Err(ProfileError::InvalidName));
}

#[test]
fn crud_create_folder_rejects_duplicate_name_case_insensitive() {
    let mut env = env_with_system_folder();
    env.create_folder("Proxmox".to_string()).expect("first create must succeed");
    let err1 = env.create_folder("Proxmox".to_string()).unwrap_err();
    assert!(matches!(err1, ProfileError::DuplicateName), "same-case duplicate must fail");
    let err2 = env.create_folder("PROXMOX".to_string()).unwrap_err();
    assert!(matches!(err2, ProfileError::DuplicateName), "different-case duplicate must fail");
}

#[test]
fn crud_rename_folder_happy_path() {
    let mut env = env_with_system_folder();
    let folder = env.create_folder("OldName".to_string()).expect("create must succeed");
    let folder_id = folder.id;
    let old_order = folder.display_order;
    let renamed = env.rename_folder(folder_id, "NewName".to_string()).expect("rename must succeed");
    assert_eq!(renamed.name, "NewName");
    assert_eq!(renamed.id, folder_id, "UUID must not change");
    assert_eq!(renamed.display_order, old_order, "display_order must not change");
}

#[test]
fn crud_rename_folder_not_found() {
    let mut env = env_with_system_folder();
    let result = env.rename_folder(fresh_id(), "NewName".to_string());
    assert!(matches!(result.unwrap_err(), ProfileError::FolderNotFound));
}

#[test]
fn crud_rename_folder_system_protected() {
    let mut env = env_with_system_folder();
    let sys_id = env.folders[0].id;
    let result = env.rename_folder(sys_id, "NewName".to_string());
    assert!(matches!(result.unwrap_err(), ProfileError::SystemFolderProtected));
}

#[test]
fn crud_rename_folder_invalid_name() {
    let mut env = env_with_system_folder();
    let folder = env.create_folder("ValidName".to_string()).expect("create must succeed");
    let folder_id = folder.id;
    assert!(matches!(env.rename_folder(folder_id, "".to_string()).unwrap_err(), ProfileError::InvalidName));
    assert!(matches!(env.rename_folder(folder_id, "   ".to_string()).unwrap_err(), ProfileError::InvalidName));
    assert!(matches!(env.rename_folder(folder_id, "a".repeat(65)).unwrap_err(), ProfileError::InvalidName));
}

#[test]
fn crud_rename_folder_duplicate_name_and_own_name_allowed() {
    let mut env = env_with_system_folder();
    let fa = env.create_folder("FolderA".to_string()).expect("create A");
    let fb = env.create_folder("FolderB".to_string()).expect("create B");
    let err = env.rename_folder(fb.id, "FolderA".to_string()).unwrap_err();
    assert!(matches!(err, ProfileError::DuplicateName));
    let renamed = env.rename_folder(fa.id, "FOLDERA".to_string()).expect("renaming own name with case change must succeed");
    assert_eq!(renamed.name, "FOLDERA");
}

#[test]
fn crud_delete_folder_empty() {
    let mut env = env_with_system_folder();
    let folder = env.create_folder("EmptyFolder".to_string()).expect("create must succeed");
    let folder_id = folder.id;
    let result = env.delete_folder(folder_id).expect("delete must succeed");
    assert_eq!(result.moved_profile_count, 0);
    assert_eq!(env.folders.len(), 1, "only system folder remains");
    assert!(!env.folders.iter().any(|f| f.id == folder_id), "folder must be gone");
}

#[test]
fn crud_delete_folder_with_profiles_moves_to_system() {
    let mut env = env_with_system_folder();
    let sys_id = env.folders[0].id;
    let folder = env.create_folder("Target".to_string()).expect("create folder");
    let folder_id = folder.id;
    for i in 0..3 {
        let mut p = ConnectionProfile::default();
        p.folder_id = Some(folder_id);
        p.display_order = i;
        env.profiles.push(p);
    }
    let result = env.delete_folder(folder_id).expect("delete must succeed");
    assert_eq!(result.moved_profile_count, 3, "3 profiles must be moved");
    assert!(!env.folders.iter().any(|f| f.id == folder_id), "folder must be removed");
    for p in &env.profiles {
        assert_eq!(p.folder_id, Some(sys_id), "all profiles must move to system folder");
    }
    let orders: Vec<i32> = env.profiles.iter().map(|p| p.display_order).collect();
    assert_eq!(orders, vec![0, 1, 2], "relative order must be preserved");
}

#[test]
fn delete_folder_appends_after_system_profiles_in_order() {
    let mut env = env_with_system_folder();
    let sys_id = env.folders[0].id;
    let folder = env.create_folder("Target".to_string()).expect("create folder");
    let mut existing = ConnectionProfile::default();
    existing.folder_id = Some(sys_id);
    existing.display_order = 7;
    env.profiles.push(existing);
    // Listed out of order: orders 5 then 2.
    let mut late = ConnectionProfile::default();
    late.folder_id = Some(folder.id);
    late.display_order = 5;
    let late_id = late.id;
    let mut early = ConnectionProfile::default();
    early.folder_id = Some(folder.id);
    early.display_order = 2;
    let early_id = early.id;
    env.profiles.push(late);
    env.profiles.push(early);
    env.delete_folder(folder.id).expect("delete must succeed");
    let order_of = |id: u128| env.profiles.iter().find(|p| p.id == id).unwrap().display_order;
    assert_eq!(order_of(early_id), 8);
    assert_eq!(order_of(late_id), 9);
}

#[test]
fn crud_delete_folder_system_protected() {
    let mut env = env_with_system_folder();
    let sys_id = env.folders[0].id;
    let result = env.delete_folder(sys_id);
    assert!(matches!(result.unwrap_err(), ProfileError::SystemFolderProtected));
}

#[test]
fn crud_delete_folder_not_found() {
    let mut env = env_with_system_folder();
    let result = env.delete_folder(fresh_id());
    assert!(matches!(result.unwrap_err(), ProfileError::FolderNotFound));
}

#[test]
fn crud_reorder_folders_happy_path() {
    let mut env = env_with_system_folder();
    let f1 = env.create_folder("F1".to_string()).expect("F1");
    let f2 = env.create_folder("F2".to_string()).expect("F2");
    let f3 = env.create_folder("F3".to_string()).expect("F3");
    let sys_id = env.folders[0].id;
    let new_order = vec![f3.id, f1.id, sys_id, f2.id];
    env.reorder_folders(new_order.clone()).expect("reorder must succeed");
    for (idx, id) in new_order.iter().enumerate() {
        let folder = env.folders.iter().find(|f| f.id == *id).unwrap();
        assert_eq!(folder.display_order, idx as i32, "folder {id} must have display_order {idx}");
    }
}

#[test]
fn crud_reorder_folders_missing_id() {
    let mut env = env_with_system_folder();
    let f1 = env.create_folder("F1".to_string()).expect("F1");
    let _f2 = env.create_folder("F2".to_string()).expect("F2");
    let sys_id = env.folders[0].id;
    let result = env.reorder_folders(vec![f1.id, sys_id]);
    assert!(matches!(result.unwrap_err(), ProfileError::IncompleteReorder));
}

#[test]
fn crud_reorder_folders_unknown_id() {
    let mut env = env_with_system_folder();
    let f1 = env.create_folder("F1".to_string()).expect("F1");
    let sys_id = env.folders[0].id;
    let result = env.reorder_folders(vec![f1.id, sys_id, fresh_id()]);
    assert!(matches!(result.unwrap_err(), ProfileError::FolderNotFound));
}

#[test]
fn crud_move_profile_to_folder_shifts_siblings() {
    let mut env = env_with_system_folder();
    let sys_id = env.folders[0].id;
    let fb = env.create_folder("FolderB".to_string()).expect("FolderB");
    let fb_id = fb.id;
    let mut pa = ConnectionProfile::default();
    pa.folder_id = Some(sys_id);
    pa.display_order = 0;
    let pa_id = pa.id;
    env.profiles.push(pa);
    let mut pb1 = ConnectionProfile::default();
    pb1.folder_id = Some(fb_id);
    pb1.display_order = 0;
    env.profiles.push(pb1);
    let mut pb2 = ConnectionProfile::default();
    pb2.folder_id = Some(fb_id);
    pb2.display_order = 1;
    env.profiles.push(pb2);
    env.move_profile_to_folder(pa_id, fb_id, 0).expect("move must succeed");
    let moved = env.profiles.iter().find(|p| p.id == pa_id).unwrap();
    assert_eq!(moved.folder_id, Some(fb_id), "profile must be in FolderB");
    assert_eq!(moved.display_order, 0, "moved profile must be at order 0");
    let sibling_orders: Vec<i32> = env
        .profiles
        .iter()
        .filter(|p| p.id != pa_id && p.folder_id == Some(fb_id))
        .map(|p| p.display_order)
        .collect();
    assert!(sibling_orders.contains(&1), "first sibling must shift to 1");
    assert!(sibling_orders.contains(&2), "second sibling must shift to 2");
}

#[test]
fn crud_move_profile_to_folder_unknown_folder() {
    let mut env = env_with_system_folder();
    let sys_id = env.folders[0].id;
    let mut p = ConnectionProfile::default();
    p.folder_id = Some(sys_id);
    let p_id = p.id;
    env.profiles.push(p);
    let result = env.move_profile_to_folder(p_id, fresh_id(), 0);
    assert!(matches!(result.unwrap_err(), ProfileError::FolderNotFound));
    let still_there = env.profiles.iter().find(|x| x.id == p_id).unwrap();
    assert_eq!(still_there.folder_id, Some(sys_id));
}

#[test]
fn crud_move_profile_to_folder_unknown_profile() {
    let mut env = env_with_system_folder();
    let sys_id = env.folders[0].id;
    let result = env.move_profile_to_folder(fresh_id(), sys_id, 0);
    assert!(matches!(result.unwrap_err(), ProfileError::ProfileNotFound));
}

#[test]
fn crud_move_profile_same_folder_reorder() {
    let mut env = env_with_system_folder();
    let sys_id = env.folders[0].id;
    let mut p0 = ConnectionProfile::default();
    p0.folder_id = Some(sys_id);
    p0.display_order = 0;
    let p0_id = p0.id;
    let mut p1 = ConnectionProfile::default();
    p1.folder_id = Some(sys_id);
    p1.display_order = 1;
    let p1_id = p1.id;
    let mut p2 = ConnectionProfile::default();
    p2.folder_id = Some(sys_id);
    p2.display_order = 2;
    env.profiles.extend([p0, p1, p2]);
    env.move_profile_to_folder(p0_id, sys_id, 2).expect("same-folder move must succeed");
    let p0_now = env.profiles.iter().find(|p| p.id == p0_id).unwrap();
    assert_eq!(p0_now.display_order, 2);
    assert_eq!(p0_now.folder_id, Some(sys_id));
    let current_order = env.profiles.iter().find(|p| p.id == p1_id).unwrap().display_order;
    env.move_profile_to_folder(p1_id, sys_id, current_order).expect("same-position no-op must succeed");
}

#[test]
fn crud_reorder_profiles_in_folder_happy_path() {
    let mut env = env_with_system_folder();
    let sys_id = env.folders[0].id;
    let mut p0 = ConnectionProfile::default();
    p0.folder_id = Some(sys_id);
    p0.display_order = 0;
    let p0_id = p0.id;
    let mut p1 = ConnectionProfile::default();
    p1.folder_id = Some(sys_id);
    p1.display_order = 1;
    let p1_id = p1.id;
    let mut p2 = ConnectionProfile::default();
    p2.folder_id = Some(sys_id);
    p2.display_order = 2;
    let p2_id = p2.id;
    env.profiles.extend([p0, p1, p2]);
    env.reorder_profiles_in_folder(sys_id, vec![p2_id, p0_id, p1_id]).expect("reorder must succeed");
    let order_of = |id: u128| env.profiles.iter().find(|p| p.id == id).unwrap().display_order;
    assert_eq!(order_of(p2_id), 0);
    assert_eq!(order_of(p0_id), 1);
    assert_eq!(order_of(p1_id), 2);
}

#[test]
fn crud_reorder_profiles_in_folder_missing_id() {
    let mut env = env_with_system_folder();
    let sys_id = env.folders[0].id;
    let mut p0 = ConnectionProfile::default();
    p0.folder_id = Some(sys_id);
    p0.display_order = 0;
    let p0_id = p0.id;
    let mut p1 = ConnectionProfile::default();
    p1.folder_id = Some(sys_id);
    p1.display_order = 1;
    env.profiles.extend([p0, p1]);
    let result = env.reorder_profiles_in_folder(sys_id, vec![p0_id]);
    assert!(matches!(result.unwrap_err(), ProfileError::IncompleteReorder));
}

#[test]
fn crud_reorder_profiles_in_folder_unknown_id() {
    let mut env = env_with_system_folder();
    let sys_id = env.folders[0].id;
    let mut p0 = ConnectionProfile::default();
    p0.folder_id = Some(sys_id);
    p0.display_order = 0;
    let p0_id = p0.id;
    env.profiles.push(p0);
    let result = env.reorder_profiles_in_folder(sys_id, vec![p0_id, fresh_id()]);
    assert!(matches!(result.unwrap_err(), ProfileError::ProfileNotFound));
}

#[test]
fn crud_reorder_profiles_in_folder_cross_folder_profile() {
    let mut env = env_with_system_folder();
    let sys_id = env.folders[0].id;
    let fb = env.create_folder("FB".to_string()).expect("FB");
    let mut p0 = ConnectionProfile::default();
    p0.folder_id = Some(sys_id);
    p0.display_order = 0;
    let p0_id = p0.id;
    let mut p_other = ConnectionProfile::default();
    p_other.folder_id = Some(fb.id);
    p_other.display_order = 0;
    let p_other_id = p_other.id;
    env.profiles.extend([p0, p_other]);
    let result = env.reorder_profiles_in_folder(sys_id, vec![p0_id, p_other_id]);
    assert!(matches!(result.unwrap_err(), ProfileError::ProfileFolderMismatch));
}

#[test]
fn crud_set_folder_expanded_happy_path() {
    let mut env = env_with_system_folder();
    let sys_id = env.folders[0].id;
    env.set_folder_expanded(sys_id, false).expect("set_folder_expanded must succeed");
    assert!(!env.folders[0].is_expanded, "folder must be collapsed");
    env.set_folder_expanded(sys_id, false).expect("idempotent set_folder_expanded");
    assert!(!env.folders[0].is_expanded, "folder must still be collapsed");
    env.set_folder_expanded(sys_id, true).expect("expand must succeed");
    assert!(env.folders[0].is_expanded, "folder must be expanded again");
}

#[test]
fn crud_set_folder_expanded_not_found() {
    let mut env = env_with_system_folder();
    let result = env.set_folder_expanded(fresh_id(), true);
    assert!(matches!(result.unwrap_err(), ProfileError::FolderNotFound));
}

#[test]
fn crud_clone_before_op_proves_no_aliased_state() {
    let mut env = env_with_system_folder();
    let snapshot = env.clone();
    env.create_folder("NewFolder".to_string()).expect("create must succeed");
    assert_eq!(snapshot.folders.len(), 1, "snapshot must still have 1 folder");
    assert_eq!(env.folders.len(), 2, "live env must have 2 folders");
}

#[test]
fn crud_failed_create_folder_leaves_state_unchanged() {
    let mut env = env_with_system_folder();
    env.create_folder("FolderA".to_string()).expect("first create");
    let before_len = env.folders.len();
    let _ = env.create_folder("FolderA".to_string());
    assert_eq!(env.folders.len(), before_len, "failed create_folder must not mutate state");
}

#[test]
fn create_then_delete_folder_restores_envelope() {
    let mut env = env_with_system_folder();
    let mut p = ConnectionProfile::default();
    p.folder_id = Some(env.folders[0].id);
    env.profiles.push(p);
    let before_ids: Vec<u128> = env.folders.iter().map(|f| f.id).collect();
    let f = env.create_folder("Temp".to_string()).expect("create");
    let r = env.delete_folder(f.id).expect("delete");
    assert_eq!(r.moved_profile_count, 0);
    let after_ids: Vec<u128> = env.folders.iter().map(|f| f.id).collect();
    assert_eq!(before_ids, after_ids);
    assert_eq!(env.profiles.len(), 1);
}

#[test]
fn load_plan_follows_the_file() {
    use_plan(ProfilesFile::Missing, "fresh");
    use_plan(ProfilesFile::Bytes(vec![]), "fresh");
    use_plan(ProfilesFile::Bytes(b"[]".to_vec()), "legacy");
    use_plan(ProfilesFile::Bytes(br#"{"folders":[],"profiles":[]}"#.to_vec()), "envelope");
    match plan_profiles_load(&ProfilesFile::Unreadable("denied".to_string())) {
        Err(AppError::ProfileError(m)) => assert_eq!(m, "Failed to read profiles file: denied"),
        _ => panic!("an unreadable file is an error"),
    }
    match plan_profiles_load(&ProfilesFile::Bytes(b"{not valid json at all".to_vec())) {
        Err(AppError::ProfileError(m)) => assert!(m.starts_with("Invalid JSON in profiles file: ")),
        _ => panic!("corrupted JSON is an error"),
    }
}

fn use_plan(file: ProfilesFile, expected: &str) {
    let got = match plan_profiles_load(&file) {
        Ok(LoadPlan::Fresh(e)) => {
            assert_eq!(e.folders.len(), 1);
            assert!(e.folders[0].is_system);
            assert!(e.profiles.is_empty());
            "fresh"
        }
        Ok(LoadPlan::ParseLegacy) => "legacy",
        Ok(LoadPlan::ParseEnvelope) => "envelope",
        Err(e) => panic!("unexpected error {e:?}"),
    };
    assert_eq!(got, expected);
}

#[test]
fn load_from_nonexistent_returns_empty() {
    let envelope = match plan_profiles_load(&ProfilesFile::Missing) {
        Ok(LoadPlan::Fresh(e)) => e,
        _ => panic!("a missing file gives a fresh envelope"),
    };
    assert!(envelope.profiles.is_empty());
    assert_eq!(envelope.folders.len(), 1);
    assert!(envelope.folders[0].is_system);
}

#[test]
fn reorder_folders_with_a_repeated_id_is_incomplete() {
    let mut env = env_with_system_folder();
    let f1 = env.create_folder("F1".to_string()).expect("create");
    let orders: Vec<i32> = env.folders.iter().map(|f| f.display_order).collect();
    let result = env.reorder_folders(vec![f1.id, f1.id]);
    assert!(matches!(result, Err(ProfileError::IncompleteReorder)));
    let after: Vec<i32> = env.folders.iter().map(|f| f.display_order).collect();
    assert_eq!(after, orders, "the folders are unchanged");
}

#[test]
fn reorder_profiles_with_a_repeated_id_is_incomplete() {
    let mut env = env_with_system_folder();
    let sys_id = env.folders[0].id;
    let mut p0 = ConnectionProfile::default();
    p0.folder_id = Some(sys_id);
    p0.display_order = 0;
    let p0_id = p0.id;
    let mut p1 = ConnectionProfile::default();
    p1.folder_id = Some(sys_id);
    p1.display_order = 1;
    env.profiles.extend([p0, p1]);
    let result = env.reorder_profiles_in_folder(sys_id, vec![p0_id, p0_id]);
    assert!(matches!(result, Err(ProfileError::IncompleteReorder)));
    let orders: Vec<i32> = env.profiles.iter().map(|p| p.display_order).collect();
    assert_eq!(orders, vec![0, 1], "the profiles are unchanged");
}

#[test]
fn a_profile_without_a_folder_moves_into_one() {
    let mut env = env_with_system_folder();
    let f1 = env.create_folder("F1".to_string()).expect("create");
    let mut sibling = ConnectionProfile::default();
    sibling.folder_id = Some(f1.id);
    sibling.display_order = 0;
    let sibling_id = sibling.id;
    let loose = ConnectionProfile::default();
    let loose_id = loose.id;
    env.profiles.extend([sibling, loose]);
    env.move_profile_to_folder(loose_id, f1.id, 0).expect("move into a folder");
    let moved = env.profiles.iter().find(|p| p.id == loose_id).unwrap();
    assert_eq!(moved.folder_id, Some(f1.id));
    assert_eq!(moved.display_order, 0);
    let shifted = env.profiles.iter().find(|p| p.id == sibling_id).unwrap();
    assert_eq!(shifted.display_order, 1);
}

#[test]
fn fresh_folder_ids_are_version_4_uuids() {
    let mut env = env_with_system_folder();
    let f = env.create_folder("Proxmox".to_string()).expect("create");
    assert!(f.id != 0);
    assert_eq!(uuid::Uuid::from_u128(f.id).get_version_num(), 4);
    assert_eq!(uuid::Uuid::from_u128(env.folders[0].id).get_version_num(), 4);
    assert_eq!(uuid::Uuid::from_u128(ConnectionProfile::default().id).get_version_num(), 4);
}

#[test]
fn deleting_any_folder_keeps_the_one_system_folder() {
    let mut env = env_with_system_folder();
    let sys = (env.folders[0].id, env.folders[0].name.clone());
    let f1 = env.create_folder("F1".to_string()).expect("create");
    for id in [sys.0, f1.id, fresh_id()] {
        let _ = env.delete_folder(id);
        let systems: Vec<_> = env.folders.iter().filter(|f| f.is_system).collect();
        assert_eq!(systems.len(), 1);
        assert_eq!((systems[0].id, systems[0].name.clone()), sys);
    }
}

#[test]
fn backup_names_carry_a_time_stamp_when_the_plain_name_is_taken() {
    assert_eq!(nexterm::profile::backup_file_name_now(false), "profiles.backup.json");
    let name = nexterm::profile::backup_file_name_now(true);
    let stamp = name.strip_prefix("profiles.backup.").unwrap().strip_suffix(".json").unwrap();
    assert!(stamp.len() >= 15);
    assert_eq!(&stamp[stamp.len() - 7..stamp.len() - 6], "_");
    assert!(stamp[stamp.len() - 6..].chars().all(|c| c.is_ascii_digit()));
}
