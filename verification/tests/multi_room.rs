use starpoint_service::multi::room::{
    ai_mate_identity, available_ai_seats, client_mana_node_ids, default_ai_template,
    restore_outcome, restore_request_valid, summon_refusal, summon_refusal_response,
    summon_request_valid, AiManaNode, RestoreOutcome, SummonRefusal, AI_ID_BASE,
};
use starpoint_service::multi::RoomFacts;

fn room() -> RoomFacts {
    RoomFacts {
        category_id: 1,
        quest_id: 1_001_002,
        host_viewer_id: 10,
        host_party_id: 1,
        host_account_id: 100,
        raising_state: 0,
        battle_started: false,
        lobby_started: false,
    }
}

#[test]
fn reads_canonical_mana_node_ids_for_client_party() {
    let nodes = vec![
        AiManaNode { as_integer: None, mana_node_multiplied_id: Some(2201), multiplied_id: None },
        AiManaNode { as_integer: None, mana_node_multiplied_id: None, multiplied_id: Some(2202) },
        AiManaNode { as_integer: Some(2203), mana_node_multiplied_id: None, multiplied_id: None },
    ];
    assert_eq!(client_mana_node_ids(&nodes), vec![2201, 2202, 2203]);
}

#[test]
fn only_the_host_summons_for_its_own_quest() {
    assert_eq!(summon_refusal(None, 100, 10, 1, 1_001_002), Some(SummonRefusal::NoRoom));
    assert_eq!(summon_refusal(Some(room()), 101, 10, 1, 1_001_002), Some(SummonRefusal::RoomAccessDenied));
    assert_eq!(summon_refusal(Some(room()), 100, 11, 1, 1_001_002), Some(SummonRefusal::RoomAccessDenied));
    assert_eq!(summon_refusal(Some(room()), 100, 10, 2, 1_001_002), Some(SummonRefusal::RoomMismatch));
    assert_eq!(summon_refusal(Some(room()), 100, 10, 1, 1_001_002), None);
    let denied = summon_refusal_response(SummonRefusal::RoomAccessDenied);
    assert_eq!(denied.status, "403 Forbidden");
    assert_eq!(denied.body, "{\"error\":\"room_access_denied\"}");
    let missing = summon_refusal_response(SummonRefusal::NoRoom);
    assert_eq!(missing.body, "{\"error\":\"Bad Request\",\"message\":\"Room doesn't exist.\"}");
    assert!(summon_request_valid(10, 1, 2, "123456"));
    assert!(!summon_request_valid(10, 1, 2, "12a456"));
}

#[test]
fn computer_players_fill_at_most_two_free_seats() {
    assert_eq!(available_ai_seats(0), 2);
    assert_eq!(available_ai_seats(1), 2);
    assert_eq!(available_ai_seats(2), 1);
    assert_eq!(available_ai_seats(3), 0);
    assert_eq!(available_ai_seats(5), 0);
}

#[test]
fn restored_rooms_report_where_the_viewer_stands() {
    assert_eq!(restore_outcome(None, 1, None, 100), RestoreOutcome::Missing);
    assert_eq!(restore_outcome(Some(2), 1, Some(100), 100), RestoreOutcome::OtherRound);
    assert_eq!(restore_outcome(Some(1), 1, Some(101), 100), RestoreOutcome::NotMember);
    assert_eq!(restore_outcome(Some(1), 1, None, 100), RestoreOutcome::NotMember);
    assert_eq!(restore_outcome(Some(1), 1, Some(100), 100), RestoreOutcome::SameRoom);
    assert!(restore_request_valid(1, 1, "000001"));
    assert!(!restore_request_valid(1, 0, "000001"));
}

#[test]
fn new_player_parties_use_the_reference_teams() {
    let characters = vec![Some(1), None, None];
    let empty = vec![None, None, None];
    let first = default_ai_template(0, &characters, &empty, &empty).unwrap();
    assert_eq!(first.com_id, 1);
    assert_eq!(first.degree_id, 1);
    let second = default_ai_template(1, &characters, &empty, &empty).unwrap();
    assert_eq!(second.com_id, 2);
    assert_eq!(second.degree_id, 2_000);
    assert_eq!(default_ai_template(2, &characters, &empty, &empty), None);
    assert_eq!(default_ai_template(0, &vec![Some(1), Some(2), None], &empty, &empty), None);
    assert_eq!(default_ai_template(0, &characters, &vec![Some(5), None, None], &empty), None);
}

#[test]
fn computer_players_show_under_their_own_ids() {
    let reference = default_ai_template(0, &vec![Some(1), None, None], &vec![], &vec![]);
    let mate = ai_mate_identity(reference, 0, 1, "123456");
    assert_eq!(mate.com_id, 1);
    assert_eq!(mate.rank, 80);
    assert_eq!(mate.viewer_id, AI_ID_BASE + 1);
    assert_eq!(mate.name, "COM 1");
    assert_eq!(mate.connection_id, "123456-npc-1");
    let other = ai_mate_identity(None, 7, 2, "000042");
    assert_eq!(other.com_id, 900_000_007);
    assert_eq!(other.rank, 1);
    assert_eq!(other.degree_id, 1);
    assert_eq!(other.connection_id, "000042-npc-2");
}

#[test]
fn restore_raising_states_name_the_refusal() {
    let state = starpoint_service::multi::room::restore_raising_state;
    assert_eq!(state(RestoreOutcome::OtherRound), Some(10));
    assert_eq!(state(RestoreOutcome::NotMember), Some(13));
    assert_eq!(state(RestoreOutcome::SameRoom), None);
    assert_eq!(state(RestoreOutcome::Missing), None);
}
