use nexterm::error::AppError;
use nexterm::profile::{make_system_folder, AuthMethodConfig, ConnectionProfile, UserCredential};
use nexterm::profile_store::{check_no_active_session, remove_profile, reorder_profiles, save_profile_data, ProfileSession};
use nexterm::state::SessionState;

fn valid(id: u128, order: i32) -> ConnectionProfile {
    let mut p = ConnectionProfile::default();
    p.id = id;
    p.name = format!("p{id}");
    p.host = "h".to_string();
    p.display_order = order;
    p.users = vec![UserCredential { id: 100 + id, username: "u".to_string(), auth_method: AuthMethodConfig::Password, is_default: true }];
    p
}

#[test]
fn saving_a_new_profile_appends_it_after_the_largest_order_in_the_system_folder() {
    let sys = make_system_folder();
    let folders = vec![sys.clone()];
    let mut profiles = vec![valid(1, 4), valid(2, 9)];
    let id = save_profile_data(&mut profiles, &folders, valid(3, 0), 77).expect("save");
    assert_eq!(id, 3);
    assert_eq!(profiles.len(), 3);
    assert_eq!(profiles[2].display_order, 10);
    assert_eq!(profiles[2].folder_id, Some(sys.id));
    assert_eq!(profiles[2].created_at, 77);
    assert_eq!(profiles[2].updated_at, 77);
}

#[test]
fn saving_an_existing_profile_replaces_it_and_keeps_its_order() {
    let folders = vec![make_system_folder()];
    let mut profiles = vec![valid(1, 4)];
    let mut edited = valid(1, 0);
    edited.name = "renamed".to_string();
    save_profile_data(&mut profiles, &folders, edited, 5).expect("save");
    assert_eq!(profiles.len(), 1);
    assert_eq!(profiles[0].name, "renamed");
    assert_eq!(profiles[0].display_order, 4);
    let mut invalid = valid(2, 0);
    invalid.host = String::new();
    assert_eq!(
        save_profile_data(&mut profiles, &folders, invalid, 5),
        Err(AppError::ProfileError("hostname is required".to_string()))
    );
    assert_eq!(profiles.len(), 1);
}

#[test]
fn deleting_a_profile_with_an_open_session_is_refused() {
    let sessions = vec![
        ProfileSession { session_id: 5, profile_id: 1, state: SessionState::Disconnected },
        ProfileSession { session_id: 6, profile_id: 1, state: SessionState::Connected },
    ];
    assert_eq!(
        check_no_active_session(&sessions, 1),
        Err(AppError::ProfileError(
            "Cannot delete profile: it has an active session (00000000-0000-0000-0000-000000000006). Disconnect first."
                .to_string()
        ))
    );
    assert_eq!(check_no_active_session(&sessions, 2), Ok(()));
}

#[test]
fn removing_profiles_by_id() {
    let mut profiles = vec![valid(1, 0), valid(2, 1), valid(1, 2)];
    assert_eq!(remove_profile(&mut profiles, 1), Ok(()));
    assert_eq!(profiles.len(), 1);
    assert_eq!(profiles[0].id, 2);
    assert_eq!(
        remove_profile(&mut profiles, 9),
        Err(AppError::ProfileError("Profile not found: 00000000-0000-0000-0000-000000000009".to_string()))
    );
    assert_eq!(profiles.len(), 1);
}

#[test]
fn flat_reorder_assigns_positions_then_sorts() {
    let mut profiles = vec![valid(1, 0), valid(2, 1), valid(3, 2), valid(4, 1)];
    reorder_profiles(&mut profiles, &vec![3, 1, 2]);
    let ids: Vec<u128> = profiles.iter().map(|p| p.id).collect();
    let orders: Vec<i32> = profiles.iter().map(|p| p.display_order).collect();
    assert_eq!(ids, vec![3, 1, 4, 2], "unlisted profiles keep their order; ties stay in list order");
    assert_eq!(orders, vec![0, 1, 1, 2]);
}
