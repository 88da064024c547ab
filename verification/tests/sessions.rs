use starpoint_service::multiplayer::sessions::{
    battle_scene_ready, battle_seat_held, battle_start_recipients, dismissed_clients,
    expire_disconnects, host_lobby_active, lobby_readiness, plan_closing,
    remaining_time_recipients, start_countdown_tags, BattleDisconnect, ClientSession, ClientStatus,
    RoomMember, BATTLE_RECONNECT_GRACE_MS,
};

fn battle(room: &str, conn: &str, closed: bool, finalized: bool) -> ClientStatus {
    ClientStatus {
        peer_closed: closed,
        write_drained: true,
        session: ClientSession::Battle {
            room_number: room.to_string(),
            room_sequence: 3,
            viewer_id: 42,
            connection_id: conn.to_string(),
            scene_ready: true,
            finalized,
        },
        room_notices: vec![],
        battle_starts: vec![],
    }
}

fn lobby(room: &str, closed: bool, drained: bool) -> ClientStatus {
    ClientStatus {
        peer_closed: closed,
        write_drained: drained,
        session: ClientSession::Lobby {
            room_number: room.to_string(),
            room_sequence: 1,
            viewer_id: 7,
            connection_id: "c7".to_string(),
            is_host: false,
            legacy_protocol: false,
        },
        room_notices: vec![],
        battle_starts: vec![],
    }
}

fn waiting(room: &str, conn: &str, deadline_ms: i64) -> BattleDisconnect {
    BattleDisconnect {
        room_number: room.to_string(),
        room_sequence: 3,
        viewer_id: 42,
        connection_id: conn.to_string(),
        deadline_ms,
    }
}

#[test]
fn open_battle_clients_hold_their_seats() {
    let clients = vec![battle("100001", "a", false, false), battle("100002", "b", true, false)];
    assert!(battle_seat_held(&clients, "100001", "a"));
    assert!(!battle_seat_held(&clients, "100002", "b"));
    assert!(!battle_seat_held(&clients, "100001", "b"));
}

#[test]
fn gone_battle_clients_wait_for_a_reconnect_once() {
    assert_eq!(BATTLE_RECONNECT_GRACE_MS, 2000);
    let clients = vec![
        battle("100001", "a", true, false),
        battle("100001", "a", true, false),
        battle("100002", "b", true, true),
        battle("100003", "c", true, false),
        battle("100003", "c", false, false),
        ClientStatus {
            peer_closed: true,
            write_drained: true,
            session: ClientSession::Handshake,
            room_notices: vec![],
            battle_starts: vec![],
        },
    ];
    let plan = plan_closing(&clients, vec![], 5_000);
    assert_eq!(plan.disconnects.len(), 1);
    assert_eq!(plan.disconnects[0].room_number, "100001");
    assert_eq!(plan.disconnects[0].connection_id, "a");
    assert_eq!(plan.disconnects[0].deadline_ms, 7_000);
    assert_eq!(plan.keep, vec![false, false, false, false, true, false]);
    assert!(plan.lobby_leaves.is_empty());
    let again = plan_closing(&clients, plan.disconnects, 6_000);
    assert_eq!(again.disconnects.len(), 1);
    assert_eq!(again.disconnects[0].deadline_ms, 7_000);
}

#[test]
fn gone_lobby_clients_give_up_their_seats() {
    let clients = vec![lobby("200001", true, true), lobby("200002", true, false), lobby("200003", false, true)];
    let plan = plan_closing(&clients, vec![], 0);
    assert_eq!(plan.lobby_leaves.len(), 1);
    assert_eq!(plan.lobby_leaves[0].room_number, "200001");
    assert_eq!(plan.lobby_leaves[0].viewer_id, 7);
    assert_eq!(plan.keep, vec![false, true, true]);
}

#[test]
fn waiting_seats_expire_at_their_deadline_unless_held_again() {
    let clients = vec![battle("100001", "a", false, false)];
    let pending = vec![waiting("100001", "a", 0), waiting("100002", "b", 10), waiting("100003", "c", 5)];
    let (still, expired) = expire_disconnects(&clients, &pending, 5);
    assert_eq!(still.len(), 1);
    assert_eq!(still[0].room_number, "100002");
    assert_eq!(expired.len(), 1);
    assert_eq!(expired[0].room_number, "100003");
}

fn host_lobby(room: &str, is_host: bool, legacy: bool) -> ClientStatus {
    ClientStatus {
        peer_closed: false,
        write_drained: true,
        session: ClientSession::Lobby {
            room_number: room.to_string(),
            room_sequence: 1,
            viewer_id: 9,
            connection_id: "c9".to_string(),
            is_host,
            legacy_protocol: legacy,
        },
        room_notices: vec![],
        battle_starts: vec![],
    }
}

fn seated(viewer_id: i64, scene_ready: bool) -> ClientStatus {
    ClientStatus {
        peer_closed: false,
        write_drained: true,
        session: ClientSession::Battle {
            room_number: "300001".to_string(),
            room_sequence: 2,
            viewer_id,
            connection_id: format!("v{viewer_id}"),
            scene_ready,
            finalized: false,
        },
        room_notices: vec![],
        battle_starts: vec![],
    }
}

#[test]
fn lobby_notices_reach_open_clients_of_the_round_once() {
    let mut noticed = host_lobby("200001", false, true);
    noticed.room_notices = vec![("200001".to_string(), 1, 900)];
    let clients = vec![host_lobby("200001", true, false), noticed, host_lobby("200002", false, false), lobby("200001", true, true)];
    assert!(host_lobby_active(&clients, "200001", 1));
    assert!(!host_lobby_active(&clients, "200002", 1));
    assert!(!host_lobby_active(&clients, "200001", 2));
    assert_eq!(remaining_time_recipients(&clients, "200001", 1, 900), vec![true, false, false, false]);
    assert_eq!(remaining_time_recipients(&clients, "200001", 1, 800), vec![true, true, false, false]);
    assert_eq!(start_countdown_tags(&clients, "200001", 1), vec![Some(9), Some(10), None, None]);
    assert_eq!(dismissed_clients(&clients, "200001", 1), vec![true, true, false, true]);
}

#[test]
fn a_battle_starts_once_every_expected_scene_is_ready() {
    let clients = vec![seated(1, true), seated(2, false), seated(3, true)];
    assert!(battle_scene_ready(&clients, "300001", 2, &vec![1, 3]));
    assert!(!battle_scene_ready(&clients, "300001", 2, &vec![1, 2]));
    assert!(!battle_scene_ready(&clients, "300001", 2, &vec![]));
    assert!(!battle_scene_ready(&clients, "300001", 1, &vec![1]));
    let mut waiting = seated(3, true);
    waiting.battle_starts = vec![("300001".to_string(), 2, 3)];
    let clients = vec![seated(1, true), seated(2, true), waiting];
    assert_eq!(battle_start_recipients(&clients, "300001", 2, &vec![1, 3]), vec![true, false, false]);
}

fn member(viewer_id: i64, account_id: i64, ready: bool) -> RoomMember {
    RoomMember { viewer_id, account_id, entered: true, ready, connection_id: Some(format!("m{viewer_id}")) }
}

#[test]
fn the_host_follows_its_guests_and_a_full_ready_lobby_counts_down() {
    let members = vec![member(1, 10, false), member(2, 20, true), member(3, 30, true)];
    let decision = lobby_readiness(&members, 10, 3, false);
    assert_eq!(decision.host_update, Some((1, true)));
    assert_eq!(decision.host_connection, Some("m1".to_string()));
    assert!(decision.start_countdown);
    let running = lobby_readiness(&members, 10, 3, true);
    assert!(!running.start_countdown);
    let pair = lobby_readiness(&members, 10, 2, false);
    assert!(!pair.start_countdown);
    assert_eq!(pair.host_update, Some((1, true)));
    let alone = lobby_readiness(&members, 10, 1, false);
    assert_eq!(alone.host_update, None);
    let unready = vec![member(1, 10, true), member(2, 20, false)];
    let decision = lobby_readiness(&unready, 10, 3, false);
    assert_eq!(decision.host_update, Some((1, false)));
    assert!(!decision.start_countdown);
}
