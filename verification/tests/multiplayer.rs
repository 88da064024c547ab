use starpoint_service::multiplayer::{
    npc_room_active, partition_delivered, schedule_npc_lobby_sequence, sequence_step, LobbyPhase,
    SequenceStep,
};
use starpoint_service::multiplayer::{battle_action, BattleAction};
use starpoint_service::multiplayer::{lobby_command_effects, LobbyEffect, LobbyFacts};
use starpoint_service::multiplayer::{
    all_human_members_ready, command_action, is_connection_id, is_room_number, lobby_action,
    random_connection_id, split_frames, FrameValue, LobbyAction, MemberPresence, WriteQueue,
};

#[test]
fn frames_split_on_nul_and_skip_blank_ones() {
    let split = split_frames(b"{\"a\":1}\0 \t\0[2]\0{\"partial\"");
    assert_eq!(split.frames, vec![b"{\"a\":1}".to_vec(), b"[2]".to_vec()]);
    assert_eq!(split.rest, b"{\"partial\"".to_vec());
    let split = split_frames(b"");
    assert!(split.frames.is_empty() && split.rest.is_empty());
    let split = split_frames(b"\0\0");
    assert!(split.frames.is_empty() && split.rest.is_empty());
}

#[test]
fn queued_frames_split_back_into_themselves() {
    let mut queue = WriteQueue::new();
    queue.queue_frame(b"[0,\"abc\"]").unwrap();
    queue.queue_frame(b"[1,[]]").unwrap();
    assert_eq!(queue.queued_bytes, queue.pending.len() as u64);
    let mut wire = queue.pending.clone();
    wire.extend_from_slice(b"[3");
    let split = split_frames(&wire);
    assert_eq!(split.frames, vec![b"[0,\"abc\"]".to_vec(), b"[1,[]]".to_vec()]);
    assert_eq!(split.rest, b"[3".to_vec());
}

#[test]
fn write_queue_counts_flushed_and_discarded_bytes() {
    let mut queue = WriteQueue::new();
    queue.queue_frame(b"abcd").unwrap();
    assert_eq!(queue.pending, b"abcd\0".to_vec());
    assert_eq!(queue.queued_bytes, 5);
    queue.record_flushed(2);
    assert_eq!(queue.pending, b"cd\0".to_vec());
    assert_eq!((queue.flushed_bytes, queue.queued_bytes), (2, 5));
    queue.discard_pending();
    assert!(queue.pending.is_empty());
    assert_eq!((queue.flushed_bytes, queue.queued_bytes), (2, 2));
    let mut full = WriteQueue { pending: vec![], queued_bytes: u64::MAX - 2, flushed_bytes: u64::MAX - 2 };
    assert!(full.queue_frame(b"ab").is_err());
    assert!(full.pending.is_empty());
    assert!(full.queue_frame(b"a").is_ok());
}

#[test]
fn connection_ids_and_room_numbers() {
    assert!(is_connection_id("0123456789abcdef0123456789abcdef"));
    assert!(!is_connection_id("0123456789ABCDEF0123456789abcdef"));
    assert!(!is_connection_id("0123456789abcdef"));
    assert!(is_room_number("000123"));
    assert!(!is_room_number("12345"));
    assert!(!is_room_number("12345a"));
    assert!(!is_room_number("１２３４５６"));
}

#[test]
fn random_connection_ids_are_connection_ids() {
    let id = random_connection_id().ok().unwrap();
    assert_eq!(id.len(), 32);
    assert!(is_connection_id(&id));
    let other = random_connection_id().ok().unwrap();
    assert_ne!(id, other);
}

#[test]
fn readiness_needs_an_entered_member() {
    let m = |entered, ready| MemberPresence { entered, ready };
    assert!(!all_human_members_ready(&vec![]));
    assert!(!all_human_members_ready(&vec![m(false, true)]));
    assert!(all_human_members_ready(&vec![m(true, true), m(false, false)]));
    assert!(!all_human_members_ready(&vec![m(true, true), m(true, false)]));
}

fn num(n: i64) -> FrameValue {
    FrameValue::Int(n)
}

fn arr(items: Vec<FrameValue>) -> FrameValue {
    FrameValue::Array(items)
}

#[test]
fn lobby_frames_are_dispatched() {
    assert_eq!(lobby_action(&arr(vec![num(1), arr(vec![])]), false, false), LobbyAction::Broadcast);
    assert_eq!(lobby_action(&arr(vec![num(2), num(7), num(0)]), false, false), LobbyAction::SendTo(7));
    assert_eq!(lobby_action(&arr(vec![num(2), num(0), num(0)]), false, false), LobbyAction::Close);
    assert_eq!(lobby_action(&FrameValue::Other, false, false), LobbyAction::Close);
    assert_eq!(
        lobby_action(&arr(vec![num(0), arr(vec![num(4)])]), false, true),
        LobbyAction::Acknowledge(11)
    );
}

#[test]
fn lobby_commands_are_checked() {
    assert_eq!(command_action(&vec![num(0)], false, false), LobbyAction::Enter);
    assert_eq!(command_action(&vec![num(1)], false, false), LobbyAction::Roster);
    assert_eq!(command_action(&vec![num(1), num(1)], false, false), LobbyAction::Close);
    assert_eq!(
        command_action(&vec![num(2), FrameValue::Other, FrameValue::Bool(true), num(3)], false, false),
        LobbyAction::ChangeParty(3)
    );
    assert_eq!(command_action(&vec![num(3), arr(vec![num(1)])], false, false), LobbyAction::SetReady(true));
    assert_eq!(command_action(&vec![num(3), arr(vec![num(2)])], false, false), LobbyAction::Close);
    assert_eq!(command_action(&vec![num(4)], false, false), LobbyAction::Acknowledge(10));
    assert_eq!(command_action(&vec![num(5)], false, false), LobbyAction::Unready);
    assert_eq!(command_action(&vec![num(6)], false, false), LobbyAction::Close);
    assert_eq!(command_action(&vec![num(6)], true, false), LobbyAction::Start);
    assert_eq!(
        command_action(&vec![num(7), FrameValue::Bool(true), FrameValue::Bool(false)], false, false),
        LobbyAction::Autoplay(true, false)
    );
    assert_eq!(command_action(&vec![num(8), FrameValue::Bool(true)], false, false), LobbyAction::AutoStart(true));
    assert_eq!(command_action(&vec![num(9)], false, false), LobbyAction::Ignore);
    assert_eq!(command_action(&vec![num(10), arr(vec![])], true, false), LobbyAction::NameComputerPlayers);
    assert_eq!(command_action(&vec![], false, false), LobbyAction::Ignore);
}

#[test]
fn battle_frames_are_dispatched() {
    let text = |s: &str| FrameValue::Text(s.to_string());
    let notice = |items: Vec<FrameValue>| arr(vec![num(0), arr(items)]);
    assert!(matches!(battle_action(&notice(vec![num(0)])), BattleAction::SceneReady));
    assert!(matches!(battle_action(&notice(vec![num(2)])), BattleAction::Finalize));
    assert!(matches!(battle_action(&notice(vec![num(3), num(42), FrameValue::Other])), BattleAction::Measure(42)));
    assert!(matches!(battle_action(&notice(vec![num(3), text("x"), FrameValue::Other])), BattleAction::Measure(0)));
    assert!(matches!(battle_action(&notice(vec![num(5)])), BattleAction::Ignore));
    assert!(matches!(battle_action(&arr(vec![num(0), num(1)])), BattleAction::Close));
    let message = arr(vec![num(0), num(1), num(2), num(3), num(4), FrameValue::Null]);
    assert!(matches!(battle_action(&arr(vec![num(1), arr(vec![message])])), BattleAction::Broadcast));
    let bad = arr(vec![num(0), num(1), num(-2), num(3), num(4), FrameValue::Null]);
    assert!(matches!(battle_action(&arr(vec![num(1), arr(vec![bad])])), BattleAction::Close));
    let command = arr(vec![num(0), arr(vec![num(7)])]);
    match battle_action(&arr(vec![num(2), arr(vec![text("a"), text("b")]), command])) {
        BattleAction::SendTo(ids) => assert_eq!(ids, vec!["a".to_string(), "b".to_string()]),
        other => panic!("unexpected {:?}", other),
    }
    let command = arr(vec![num(0), arr(vec![num(7)])]);
    assert!(matches!(battle_action(&arr(vec![num(2), arr(vec![]), command])), BattleAction::Close));
    assert!(matches!(battle_action(&arr(vec![num(9)])), BattleAction::Ignore));
    assert!(matches!(battle_action(&arr(vec![text("x")])), BattleAction::Close));
    assert!(matches!(battle_action(&FrameValue::Null), BattleAction::Close));
}

#[test]
fn keeps_earliest_deadline_for_duplicate_npc_sequence() {
    let mut pending = Vec::new();
    let first_request = 1_000_i64;
    schedule_npc_lobby_sequence(&mut pending, "100001".to_owned(), 1, first_request);
    let first_deadline = pending[0].deadline_ms;
    schedule_npc_lobby_sequence(&mut pending, "100001".to_owned(), 1, first_request + 1_000);
    assert_eq!(pending.len(), 1);
    assert_eq!(pending[0].deadline_ms, first_deadline);
}

#[test]
fn a_new_round_replaces_the_rooms_old_sequence() {
    let mut pending = Vec::new();
    schedule_npc_lobby_sequence(&mut pending, "100001".to_owned(), 1, 0);
    schedule_npc_lobby_sequence(&mut pending, "100002".to_owned(), 1, 0);
    schedule_npc_lobby_sequence(&mut pending, "100001".to_owned(), 2, 10);
    assert_eq!(pending.len(), 2);
    assert_eq!((pending[0].room_number.as_str(), pending[0].room_sequence), ("100002", 1));
    assert_eq!((pending[1].room_number.as_str(), pending[1].room_sequence), ("100001", 2));
    assert_eq!(pending[1].deadline_ms, 2_010);
    assert_eq!(pending[1].phase, LobbyPhase::Join);
}

#[test]
fn lobby_sequences_step_at_their_deadline() {
    assert_eq!(sequence_step(LobbyPhase::Join, 10, 9, true), SequenceStep::Wait);
    assert_eq!(sequence_step(LobbyPhase::Join, 10, 10, false), SequenceStep::Drop);
    assert_eq!(sequence_step(LobbyPhase::Join, 10, 10, true), SequenceStep::Join);
    assert_eq!(sequence_step(LobbyPhase::Ready, 10, 11, true), SequenceStep::Ready);
    assert!(npc_room_active(Some(3), false, 2, true, true, 3));
    assert!(!npc_room_active(Some(3), false, 4, true, true, 3));
    assert!(!npc_room_active(None, false, 2, true, true, 3));
}

#[test]
fn deliveries_wait_for_their_bytes() {
    let (done, waiting) = partition_delivered(vec![(5_u64, 'a'), (12, 'b'), (10, 'c')], 10);
    assert_eq!(done, vec![(5, 'a'), (10, 'c')]);
    assert_eq!(waiting, vec![(12, 'b')]);
}

fn facts() -> LobbyFacts {
    LobbyFacts {
        room_current: true,
        accepted: true,
        had_existing_players: false,
        entering_ready: false,
        lobby_started: false,
        all_ready: false,
        names_empty: false,
    }
}

#[test]
fn entering_member_is_welcomed_and_announced() {
    let mut f = facts();
    assert_eq!(
        lobby_command_effects(LobbyAction::Enter, f, false),
        vec![LobbyEffect::Welcome { legacy: false }]
    );
    f.had_existing_players = true;
    f.entering_ready = true;
    f.lobby_started = true;
    assert_eq!(
        lobby_command_effects(LobbyAction::Enter, f, true),
        vec![
            LobbyEffect::Welcome { legacy: true },
            LobbyEffect::BroadcastRoster,
            LobbyEffect::BroadcastReady(true),
            LobbyEffect::SendStartedRoster,
        ]
    );
    f.accepted = false;
    assert_eq!(lobby_command_effects(LobbyAction::Enter, f, true), vec![LobbyEffect::Close]);
}

#[test]
fn stale_room_closes_every_command_but_ignored_ones() {
    let mut f = facts();
    f.room_current = false;
    assert_eq!(lobby_command_effects(LobbyAction::Broadcast, f, false), vec![LobbyEffect::Close]);
    assert_eq!(lobby_command_effects(LobbyAction::SetReady(true), f, false), vec![LobbyEffect::Close]);
    assert_eq!(lobby_command_effects(LobbyAction::Ignore, f, false), vec![]);
}

#[test]
fn host_start_waits_for_ready_members() {
    let mut f = facts();
    assert_eq!(lobby_command_effects(LobbyAction::Start, f, false), vec![LobbyEffect::CancelAutoStart]);
    f.all_ready = true;
    assert_eq!(
        lobby_command_effects(LobbyAction::Start, f, false),
        vec![LobbyEffect::CancelAutoStart, LobbyEffect::BroadcastStartedRoster]
    );
    f.accepted = false;
    assert_eq!(
        lobby_command_effects(LobbyAction::Start, f, false),
        vec![LobbyEffect::CancelAutoStart, LobbyEffect::Close]
    );
}

#[test]
fn ready_switches_and_naming_have_their_effects() {
    let mut f = facts();
    assert_eq!(
        lobby_command_effects(LobbyAction::SetReady(false), f, false),
        vec![LobbyEffect::BroadcastReady(false), LobbyEffect::EvaluateReadiness]
    );
    assert_eq!(lobby_command_effects(LobbyAction::Unready, f, false), vec![LobbyEffect::BroadcastReady(false)]);
    assert_eq!(lobby_command_effects(LobbyAction::Roster, f, false), vec![LobbyEffect::SendRosterThenClose]);
    assert_eq!(
        lobby_command_effects(LobbyAction::NameComputerPlayers, f, false),
        vec![LobbyEffect::ScheduleComputerPlayers]
    );
    f.names_empty = true;
    assert_eq!(
        lobby_command_effects(LobbyAction::NameComputerPlayers, f, false),
        vec![LobbyEffect::EvaluateReadiness]
    );
    assert_eq!(lobby_command_effects(LobbyAction::SendTo(7), f, false), vec![LobbyEffect::RelayTo(7)]);
    assert_eq!(
        lobby_command_effects(LobbyAction::Autoplay(true, false), f, false),
        vec![LobbyEffect::BroadcastAutoplay(true, false)]
    );
}
