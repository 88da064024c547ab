use starpoint_service::multi::{
    abort_decision, abort_request_valid, admit_to_battle, admit_to_lobby, bad_request,
    battle_character_ids, battle_handshake_fields, check_battle_start, connection_raising_state,
    elapsed_time_ms, finish_request_valid, lobby_handshake_fields, lounge_number,
    prepare_request_valid, resolve_room, select_room_lookup, select_room_request_valid,
    start_request_valid, zone_action_counts, AbortDecision, ActiveQuest, LobbyAdmission,
    LobbyHandshake, MemberFacts, RoomFacts, RoomLookup, StartRefusal, ZoneCounts,
};

fn room() -> RoomFacts {
    RoomFacts {
        category_id: 2,
        quest_id: 77,
        host_viewer_id: 10,
        host_party_id: 3,
        host_account_id: 100,
        raising_state: 3,
        battle_started: false,
        lobby_started: true,
    }
}

fn member(account_id: i64, viewer_id: i64, party_id: i64, entered: bool) -> MemberFacts {
    MemberFacts { account_id, viewer_id, party_id, entered }
}

#[test]
fn bad_request_body_is_json() {
    let r = bad_request("Invalid request body.");
    assert_eq!(r.status, "400 Bad Request");
    assert_eq!(r.body, "{\"error\":\"Bad Request\",\"message\":\"Invalid request body.\"}");
}

#[test]
fn rooms_are_found_by_number_then_token() {
    assert!(matches!(resolve_room(Some("123456".into()), Some("t".into())), RoomLookup::ByNumber(n) if n == "123456"));
    assert!(matches!(resolve_room(None, Some("t".into())), RoomLookup::ByToken(t) if t == "t"));
    assert!(matches!(resolve_room(None, None), RoomLookup::Nothing));
    assert!(select_room_lookup(Some("12".into()), None).is_none());
    assert!(matches!(select_room_lookup(Some("654321".into()), None), Some(RoomLookup::ByNumber(_))));
}

#[test]
fn request_checks() {
    assert!(select_room_request_valid(1, 1, 1, 1));
    assert!(!select_room_request_valid(1, 1, 1, 0));
    assert!(prepare_request_valid(1, 2, 3));
    assert!(!prepare_request_valid(0, 2, 3));
    assert!(start_request_valid(1, None, 1, 1, 1, "p", "000001"));
    assert!(!start_request_valid(1, Some(-1), 1, 1, 1, "p", "000001"));
    assert!(!start_request_valid(1, None, 1, 1, 1, "", "000001"));
    assert!(finish_request_valid(1, Some(0), 1, 1, "p"));
    assert!(!finish_request_valid(1, Some(0), 1, 0, "p"));
    assert!(abort_request_valid(1, None, None, None, "p"));
    assert!(!abort_request_valid(1, None, Some(0), None, "p"));
}

#[test]
fn lounge_numbers_have_six_digits() {
    assert_eq!(lounge_number(42), "000042");
    assert_eq!(lounge_number(1_234_567), "234567");
    assert_eq!(lounge_number(-1), "999999");
}

#[test]
fn battle_start_checks_membership() {
    assert_eq!(check_battle_start(room(), None, 100, 3, 2, 77), Err(StartRefusal::RoomAccessDenied));
    assert_eq!(
        check_battle_start(room(), Some(member(101, 10, 3, true)), 100, 3, 2, 77),
        Err(StartRefusal::RoomAccessDenied)
    );
    assert_eq!(
        check_battle_start(room(), Some(member(100, 10, 4, true)), 100, 3, 2, 77),
        Err(StartRefusal::PartyMismatch)
    );
    assert_eq!(
        check_battle_start(room(), Some(member(100, 10, 3, true)), 100, 3, 2, 78),
        Err(StartRefusal::RoomMismatch)
    );
    assert_eq!(check_battle_start(room(), Some(member(100, 10, 3, true)), 100, 3, 2, 77), Ok(()));
}

#[test]
fn raising_states() {
    let mut r = room();
    assert_eq!(connection_raising_state(r, 10, None), 1);
    assert_eq!(connection_raising_state(r, 11, None), 2);
    assert_eq!(connection_raising_state(r, 11, Some(member(100, 10, 3, true))), 3);
    r.battle_started = true;
    assert_eq!(connection_raising_state(r, 10, None), 4);
}

#[test]
fn aborts_follow_the_active_quest() {
    let a = ActiveQuest { category: 2, quest_id: 77 };
    assert_eq!(abort_decision(None, true, None, None), AbortDecision::NothingActive);
    assert_eq!(abort_decision(Some(a), true, Some(2), None), AbortDecision::Abort(a));
    assert_eq!(abort_decision(Some(a), false, None, None), AbortDecision::IdentityMismatch);
    assert_eq!(abort_decision(Some(a), true, None, Some(78)), AbortDecision::IdentityMismatch);
}

#[test]
fn finished_battles_report_characters_and_actions() {
    let ids = battle_character_ids(
        &vec![Some(111), None, Some(-2), Some(111), Some(222)],
        &vec![Some(222), Some(333), Some(0)],
    );
    assert_eq!(ids, vec![111, 222, 333]);
    let z = |p, d, s| ZoneCounts { use_power_flip_count: p, use_dash_count: d, use_skill_count: s };
    assert_eq!(zone_action_counts(&vec![z(1, 2, 3), z(-5, 1, 0)]), Some((1, 3, 3)));
    assert_eq!(zone_action_counts(&vec![]), Some((0, 0, 0)));
    assert_eq!(zone_action_counts(&vec![z(i64::MAX, 0, 0), z(1, 0, 0)]), None);
    assert_eq!(elapsed_time_ms(Some(5), Some(9)), 5);
    assert_eq!(elapsed_time_ms(None, Some(9)), 9_000);
    assert_eq!(elapsed_time_ms(Some(-5), None), 0);
    assert_eq!(elapsed_time_ms(None, Some(i64::MAX)), 0);
    assert_eq!(elapsed_time_ms(None, None), 0);
}

#[test]
fn lobby_handshakes() {
    let h = LobbyHandshake {
        viewer_id: Some(10),
        room_number: Some("000777".into()),
        reconnected: true,
        category_id: Some(2),
        quest_id: Some(77),
    };
    assert_eq!(lobby_handshake_fields(&h), Some((10, "000777".to_string(), 2, 77)));
    let bad = LobbyHandshake { reconnected: false, ..h };
    assert_eq!(lobby_handshake_fields(&bad), None);
    assert_eq!(
        admit_to_lobby(10, 2, 77, Some(room()), Some(member(100, 10, 3, false)), Some(100)),
        Some(LobbyAdmission { account_id: 100, is_host: true })
    );
    assert_eq!(admit_to_lobby(10, 2, 77, Some(room()), Some(member(100, 10, 4, false)), Some(100)), None);
    assert_eq!(admit_to_lobby(11, 2, 77, Some(room()), Some(member(101, 11, 4, false)), Some(102)), None);
    assert_eq!(admit_to_lobby(11, 2, 78, Some(room()), Some(member(101, 11, 4, false)), Some(101)), None);
    assert_eq!(admit_to_lobby(11, 2, 77, None, Some(member(101, 11, 4, false)), Some(101)), None);
}

#[test]
fn battle_handshakes() {
    let id = "0123456789abcdef0123456789abcdef".to_string();
    assert!(battle_handshake_fields(Some("000001".into()), Some(id.clone()), true).is_some());
    assert!(battle_handshake_fields(Some("000001".into()), Some(id.clone()), false).is_none());
    assert!(battle_handshake_fields(Some("000001".into()), Some("x".into()), true).is_none());
    let mut r = room();
    assert_eq!(admit_to_battle(Some(r), Some(member(1, 5, 1, true))), None);
    r.battle_started = true;
    assert_eq!(admit_to_battle(Some(r), Some(member(1, 5, 1, true))), Some(5));
    assert_eq!(admit_to_battle(Some(r), None), None);
}

#[test]
fn listed_mates_are_capped_by_room_size() {
    assert_eq!(starpoint_service::multi::listed_mate_count(2, 1, 4).unwrap(), 3);
    assert_eq!(starpoint_service::multi::listed_mate_count(3, 2, 4).unwrap(), 4);
    assert_eq!(starpoint_service::multi::listed_mate_count(1, 0, -2).unwrap(), 0);
    assert!(starpoint_service::multi::listed_mate_count(usize::MAX, 1, 4).is_err());
}

#[test]
fn continue_request_checks_counts() {
    assert!(starpoint_service::multi::continue_request_valid(5, None, None));
    assert!(starpoint_service::multi::continue_request_valid(5, Some(0), Some(2)));
    assert!(!starpoint_service::multi::continue_request_valid(0, None, None));
    assert!(!starpoint_service::multi::continue_request_valid(5, Some(-1), None));
    assert!(!starpoint_service::multi::continue_request_valid(5, None, Some(-1)));
}

#[test]
fn bad_request_escapes_its_message() {
    let message = "say \"hi\"\\ now\n\t\u{1}\u{8}\u{c}\r\u{1f}é\u{7f}";
    let response = bad_request(message);
    assert_eq!(response.status, "400 Bad Request");
    let quoted = serde_json::to_string(message).unwrap();
    assert_eq!(response.body, format!("{{\"error\":\"Bad Request\",\"message\":{quoted}}}"));
    assert_eq!(
        bad_request("a\"b\u{1}").body,
        "{\"error\":\"Bad Request\",\"message\":\"a\\\"b\\u0001\"}"
    );
}
