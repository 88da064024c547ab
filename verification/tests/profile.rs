use starpoint_service::profile::{
    profile_leader_id, route, saved_profile_settings, shown_profile_settings, ProfileEndpoint,
    ProfileSettings, StoredProfileSettings,
};

#[test]
fn profile_endpoints_route_by_post_path() {
    assert_eq!(route("POST", "/api/index.php/profile/get_my_profile"), Some(ProfileEndpoint::GetMyProfile));
    assert_eq!(route("POST", "/api/index.php/profile/rename"), Some(ProfileEndpoint::Rename));
    assert_eq!(route("GET", "/api/index.php/profile/rename"), None);
    assert_eq!(route("POST", "/api/index.php/profile/other"), None);
}

#[test]
fn profiles_show_owned_counts_unless_hidden() {
    let defaults = shown_profile_settings(None);
    assert_eq!(
        defaults,
        ProfileSettings {
            show_opened_mana_board_second_count: false,
            show_owned_character_count: true,
            show_owned_degree_count: true,
        }
    );
    let stored = StoredProfileSettings {
        show_opened_mana_board_second_count: Some(true),
        show_owned_character_count: None,
        show_owned_degree_count: Some(false),
    };
    let shown = shown_profile_settings(Some(stored));
    assert!(shown.show_opened_mana_board_second_count);
    assert!(shown.show_owned_character_count);
    assert!(!shown.show_owned_degree_count);
    let saved = saved_profile_settings(None);
    assert!(!saved.show_owned_character_count);
    assert_eq!(saved_profile_settings(Some(shown)), shown);
}

#[test]
fn a_profile_shows_the_owned_leader_or_the_first_character() {
    let keys = vec!["30".to_string(), "x".to_string(), "12".to_string()];
    assert_eq!(profile_leader_id(Some(30), &keys), Some(30));
    assert_eq!(profile_leader_id(Some(31), &keys), Some(12));
    assert_eq!(profile_leader_id(None, &keys), Some(12));
    assert_eq!(profile_leader_id(None, &vec!["x".to_string()]), None);
}
