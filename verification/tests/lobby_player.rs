use starpoint_service::multiplayer::lobby_player::{
    ai_mate_names, ai_mate_requests, entry_form, legacy_lobby_player, lobby_main_character_id,
    modern_lobby_player, next_player_id, party_leader_id, AiMateRequest, EntryForm,
    LegacyEntryFields, LobbyEntryFields, PartyHead, StoredUserInfo,
};

const CONNECTION: &str = "0123456789abcdef0123456789abcdef";

fn entry() -> LobbyEntryFields {
    LobbyEntryFields {
        viewer_id: Some(1001),
        connection_id: Some(CONNECTION.to_string()),
        current_party_id: Some(3),
        has_com_id: false,
        entry_time_finite: true,
        name: Some("Alice".to_string()),
        rank: Some(40),
        degree_id: Some(7),
        player_role_kind: Some(2),
        autoskill_mode: Some(0),
        auto_speed_level: Some(1),
        skill_ability_behavior_mode: Some(2),
        dash_behavior_mode: Some(0),
        is_newbie: Some(false),
        autoplay_mode: Some(true),
        auto_start: Some(false),
        allow_heal: Some(true),
        state: Some(vec![Some(1)]),
    }
}

#[test]
fn next_player_id_skips_numbers_in_use() {
    assert_eq!(next_player_id(&vec![]), 2);
    assert_eq!(next_player_id(&vec![2, 3, 5]), 4);
    assert_eq!(next_player_id(&vec![4, 3, 2]), 5);
    assert_eq!(next_player_id(&vec![1, 7]), 2);
}

#[test]
fn party_leader_is_first_positive_candidate() {
    assert_eq!(party_leader_id(&vec![None, Some(0), Some(111001), Some(5)]), Some(111001));
    assert_eq!(party_leader_id(&vec![Some(-1), None]), None);
    assert_eq!(party_leader_id(&vec![]), None);
}

#[test]
fn main_character_needs_slot_zero_pair() {
    let head = |len, slot, id| Some(PartyHead { len, slot, character_id: id });
    assert_eq!(lobby_main_character_id(&head(2, Some(0), Some(111001))), Some(111001));
    assert_eq!(lobby_main_character_id(&head(2, Some(1), Some(111001))), None);
    assert_eq!(lobby_main_character_id(&head(3, Some(0), Some(111001))), None);
    assert_eq!(lobby_main_character_id(&head(2, Some(0), Some(0))), None);
    assert_eq!(lobby_main_character_id(&head(2, Some(0), None)), None);
    assert_eq!(lobby_main_character_id(&None), None);
}

#[test]
fn entry_form_follows_command_length_and_member_party() {
    assert_eq!(entry_form(2, None, None), EntryForm::Legacy);
    assert_eq!(entry_form(3, Some(3), Some(3)), EntryForm::Modern(3));
    assert_eq!(entry_form(3, Some(3), Some(4)), EntryForm::Refused);
    assert_eq!(entry_form(3, None, Some(0)), EntryForm::Refused);
    assert_eq!(entry_form(3, Some(3), None), EntryForm::Refused);
    assert_eq!(entry_form(4, Some(3), Some(3)), EntryForm::Refused);
}

#[test]
fn modern_entry_copies_checked_values() {
    let player = modern_lobby_player(&entry(), 1001, CONNECTION, true, 3, Some(111001)).unwrap();
    assert_eq!(player.viewer_id, 1001);
    assert_eq!(player.name, "Alice");
    assert_eq!(player.rank, 40);
    assert_eq!(player.degree_id, 7);
    assert_eq!(player.main_character_id, 111001);
    assert_eq!(player.connection_id, CONNECTION);
    assert_eq!(player.player_role_kind, 2);
    assert!(player.is_host);
    assert_eq!(player.current_party_id, 3);
    assert!(player.autoplay_mode);
    assert_eq!(player.auto_speed_level, 1);
    assert_eq!(player.skill_ability_behavior_mode, 2);
    assert!(player.allow_heal);
    assert_eq!(player.state, 1);
}

#[test]
fn modern_entry_refuses_mismatches_and_bad_values() {
    let refused = |e: LobbyEntryFields| modern_lobby_player(&e, 1001, CONNECTION, false, 3, Some(111001)).is_none();
    assert!(modern_lobby_player(&entry(), 1002, CONNECTION, false, 3, Some(111001)).is_none());
    assert!(modern_lobby_player(&entry(), 1001, "ffffffffffffffffffffffffffffffff", false, 3, Some(111001)).is_none());
    assert!(modern_lobby_player(&entry(), 1001, CONNECTION, false, 4, Some(111001)).is_none());
    assert!(modern_lobby_player(&entry(), 1001, CONNECTION, false, 3, None).is_none());
    assert!(refused(LobbyEntryFields { has_com_id: true, ..entry() }));
    assert!(refused(LobbyEntryFields { entry_time_finite: false, ..entry() }));
    assert!(refused(LobbyEntryFields { name: Some(String::new()), ..entry() }));
    assert!(refused(LobbyEntryFields { rank: Some(0), ..entry() }));
    assert!(refused(LobbyEntryFields { autoskill_mode: Some(-1), ..entry() }));
    assert!(refused(LobbyEntryFields { allow_heal: None, ..entry() }));
    assert!(refused(LobbyEntryFields { state: Some(vec![Some(2)]), ..entry() }));
    assert!(refused(LobbyEntryFields { state: Some(vec![Some(0), Some(1)]), ..entry() }));
}

#[test]
fn legacy_entry_fills_defaults() {
    let blank = LegacyEntryFields {
        state: None,
        autoplay_mode: None,
        autoskill_mode: None,
        auto_speed_level: None,
        auto_start: None,
        skill_ability_behavior_mode: None,
        dash_behavior_mode: Some(-4),
        allow_heal: None,
    };
    let user = Some(StoredUserInfo {
        name: Some("Bob".to_string()),
        degree_id: Some(0),
        role: None,
        is_newbie: Some(true),
    });
    let player = legacy_lobby_player(&blank, &user, 7, CONNECTION, false, 2, 111001).unwrap();
    assert_eq!(player.name, "Bob");
    assert_eq!(player.degree_id, 1);
    assert_eq!(player.rank, 1);
    assert_eq!(player.player_role_kind, 1);
    assert!(player.is_newbie);
    assert!(!player.autoplay_mode);
    assert_eq!(player.autoskill_mode, 1);
    assert_eq!(player.auto_speed_level, 1);
    assert_eq!(player.dash_behavior_mode, 0);
    assert!(player.allow_heal);
    assert_eq!(player.state, 0);
    assert_eq!(player.current_party_id, 2);
    let nameless = Some(StoredUserInfo { name: Some(String::new()), degree_id: None, role: None, is_newbie: None });
    assert!(legacy_lobby_player(&blank, &nameless, 7, CONNECTION, false, 2, 111001).is_none());
    assert!(legacy_lobby_player(&blank, &None, 7, CONNECTION, false, 2, 111001).is_none());
}

#[test]
fn ai_mate_names_cover_each_mate() {
    let names = ai_mate_names(&Some(vec![Some("A".to_string()), Some("B".to_string()), None]), 2).unwrap();
    assert_eq!(names, vec!["A".to_string(), "B".to_string()]);
    assert!(ai_mate_names(&Some(vec![Some("A".to_string())]), 2).is_none());
    assert!(ai_mate_names(&Some(vec![Some(String::new()), Some("B".to_string())]), 2).is_none());
    assert!(ai_mate_names(&None, 0).is_none());
    assert_eq!(ai_mate_names(&Some(vec![]), 0), Some(vec![]));
}

#[test]
fn ai_mate_requests_keep_mate_values() {
    let ok = |name: &str| Some(AiMateRequest { key_count: 5, name: Some(name.to_string()), same_as_mate: true });
    assert_eq!(ai_mate_requests(&Some(vec![ok("A"), ok("B")]), 2), Some(vec!["A".to_string(), "B".to_string()]));
    let changed = Some(AiMateRequest { key_count: 5, name: Some("B".to_string()), same_as_mate: false });
    assert!(ai_mate_requests(&Some(vec![ok("A"), changed]), 2).is_none());
    let extra_key = Some(AiMateRequest { key_count: 6, name: Some("B".to_string()), same_as_mate: true });
    assert!(ai_mate_requests(&Some(vec![ok("A"), extra_key]), 2).is_none());
    assert!(ai_mate_requests(&Some(vec![ok("A"), None]), 2).is_none());
    assert_eq!(ai_mate_requests(&Some(vec![ok("A"), None]), 1), Some(vec!["A".to_string()]));
}
