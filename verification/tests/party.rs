use starpoint_service::party::{
    check_party_group_edits, check_word_request_valid, default_party_leader_id, edit_request_valid,
    filter_owned, group_edit_request_valid, main_party_id, normal_party_slots, order_by_numeric_id,
    party_info_valid, plan_party_edit, refer_request_valid, route, sort_by_id, PartyEndpoint,
    PartyInfo, PartyLocation, PUBLISHED_PARTY_CODE,
};

fn party(party_id: i64, characters: Vec<Option<i64>>) -> PartyInfo {
    PartyInfo {
        party_edited: true,
        party_category: 0,
        party_name: "Main".to_string(),
        party_id,
        current_battle_power: 1200,
        before_battle_power: 1100,
        unison_character_ids: vec![Some(3), None],
        equipment_ids: vec![Some(500), Some(501)],
        character_ids: characters,
        ability_soul_ids: vec![Some(9), None, Some(8)],
        allow_other_players_to_heal_me: false,
    }
}

#[test]
fn party_endpoints_route_by_post_path() {
    assert_eq!(route("POST", "/api/index.php/party/edit"), Some(PartyEndpoint::Edit));
    assert_eq!(route("POST", "/api/index.php/party/refer"), Some(PartyEndpoint::Refer));
    assert_eq!(route("POST", "/api/index.php/party_group/edit"), Some(PartyEndpoint::GroupEdit));
    assert_eq!(route("GET", "/api/index.php/party/edit"), None);
    assert_eq!(route("POST", "/api/index.php/party/other"), None);
}

#[test]
fn request_checks_follow_the_protocol_limits() {
    assert!(edit_request_valid(1, 1, 0));
    assert!(edit_request_valid(1, 120, 5));
    assert!(!edit_request_valid(1, 121, 0));
    assert!(!edit_request_valid(0, 1, 0));
    assert!(!edit_request_valid(1, 1, -1));
    assert!(refer_request_valid(4, PUBLISHED_PARTY_CODE));
    assert!(!refer_request_valid(4, "other"));
    assert!(check_word_request_valid(4, &"é".repeat(100)));
    assert!(!check_word_request_valid(4, &"a".repeat(101)));
    assert!(group_edit_request_valid(1, 0, 0, 100));
    assert!(!group_edit_request_valid(1, 0, 0, 101));
}

#[test]
fn main_party_defaults_to_the_first_slot() {
    assert_eq!(main_party_id(None), 1);
    assert_eq!(main_party_id(Some(0)), 1);
    assert_eq!(main_party_id(Some(-4)), 1);
    assert_eq!(main_party_id(Some(17)), 17);
}

#[test]
fn unowned_slots_are_emptied() {
    let kept = filter_owned(&vec![Some(1), Some(2), None, Some(3)], &vec![3, 1]);
    assert_eq!(kept, vec![Some(1), None, None, Some(3)]);
}

#[test]
fn party_edit_stores_each_party_in_its_slot() {
    let parties = vec![party(13, vec![Some(1), Some(2)]), party(1, vec![None])];
    let stored = plan_party_edit(&parties, &vec![1, 3], &vec![501]).ok().unwrap();
    assert_eq!(stored.len(), 2);
    assert_eq!(stored[0].location, PartyLocation { group_id: 2, slot: 3 });
    assert_eq!(stored[0].name, "Main");
    assert_eq!(stored[0].character_ids, vec![Some(1), None]);
    assert_eq!(stored[0].unison_character_ids, vec![Some(3), None]);
    assert_eq!(stored[0].equipment_ids, vec![None, Some(501)]);
    assert_eq!(stored[0].ability_soul_ids, vec![Some(9), None, Some(8)]);
    assert!(stored[0].edited);
    assert!(!stored[0].allow_other_players_to_heal_me);
    assert_eq!(stored[0].current_battle_power, 1200);
    assert_eq!(stored[1].location, PartyLocation { group_id: 1, slot: 1 });
}

#[test]
fn an_invalid_party_refuses_the_whole_edit() {
    let too_many = party(2, vec![Some(1), Some(1), Some(1), Some(1)]);
    assert!(!party_info_valid(&too_many));
    let err = plan_party_edit(&vec![party(1, vec![]), too_many], &vec![], &vec![])
        .err()
        .unwrap();
    assert_eq!(err.status, "400 Bad Request");
    assert_eq!(err.body, "{\"error\":\"invalid_party_info\"}");
    let out_of_range = party(121, vec![]);
    assert!(plan_party_edit(&vec![out_of_range], &vec![], &vec![]).is_err());
}

#[test]
fn group_color_edits_refuse_at_the_first_bad_edit() {
    let groups = vec!["1".to_string(), "2".to_string()];
    assert!(check_party_group_edits(&vec![(1, 4), (2, 0)], &groups).is_ok());
    let err = check_party_group_edits(&vec![(3, 4), (0, 1)], &groups).err().unwrap();
    assert_eq!(err.body, "{\"error\":\"party_group_not_found\"}");
    let err = check_party_group_edits(&vec![(2, -1), (3, 1)], &groups).err().unwrap();
    assert_eq!(err.body, "{\"error\":\"invalid_party_group\"}");
    assert!(check_party_group_edits(&vec![], &groups).is_ok());
}

#[test]
fn every_player_has_twelve_groups_of_ten_slots() {
    let slots = normal_party_slots();
    assert_eq!(slots.len(), 120);
    assert_eq!(slots[0].group_id, 1);
    assert_eq!(slots[0].party_id, 1);
    assert_eq!(slots[0].name, "Party A");
    assert_eq!(slots[19].group_id, 2);
    assert_eq!(slots[19].party_id, 20);
    assert_eq!(slots[19].name, "Party J");
    assert_eq!(slots[119].group_id, 12);
    assert_eq!(slots[119].party_id, 120);
}

#[test]
fn new_party_leader_prefers_an_owned_configured_leader() {
    let keys = vec!["30".to_string(), "12".to_string(), "40".to_string()];
    assert_eq!(default_party_leader_id(Some(40), &keys).ok(), Some(Some(40)));
    assert_eq!(default_party_leader_id(Some(99), &keys).ok(), Some(Some(12)));
    assert_eq!(default_party_leader_id(None, &keys).ok(), Some(Some(12)));
    assert_eq!(default_party_leader_id(None, &vec![]).ok(), Some(None));
    let bad = vec!["7".to_string(), "x".to_string()];
    let err = default_party_leader_id(None, &bad).err().unwrap();
    assert_eq!(err.message, "stored CN character id is invalid");
    assert_eq!(default_party_leader_id(Some(7), &bad).ok(), Some(Some(7)));
}

#[test]
fn stored_entries_come_in_numeric_order() {
    let entries = vec![
        ("10".to_string(), 'a'),
        ("2".to_string(), 'b'),
        ("1".to_string(), 'c'),
    ];
    let sorted = order_by_numeric_id(entries).unwrap();
    assert_eq!(sorted, vec![(1, 'c'), (2, 'b'), (10, 'a')]);
    assert!(order_by_numeric_id(vec![("1".to_string(), 0), ("one".to_string(), 1)]).is_none());
    assert_eq!(sort_by_id(vec![(3, 'x'), (1, 'y'), (3, 'z'), (2, 'w')]),
        vec![(1, 'y'), (2, 'w'), (3, 'x'), (3, 'z')]);
}
