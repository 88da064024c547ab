use starpoint_service::accounts::{
    decode_viewer_id, get_info, multi_draw_ticket, rename, requested_product_id,
    session_player, session_viewer_id_value, single_draw_ticket, start, truncate_chars,
    update_comment, viewer_id_only,
};
use starpoint_service::mail::ViewerSessionPlayer;
use starpoint_service::party::PartyLocation;

#[test]
fn viewer_ids_must_be_positive() {
    assert_eq!(viewer_id_only(Some(5)).ok(), Some(5));
    let e = viewer_id_only(Some(0)).err().unwrap();
    assert_eq!(e.body, "{\"error\":\"invalid_request_body\"}");
    assert!(viewer_id_only(None).is_err());
    assert_eq!(decode_viewer_id(None), 0);
    assert_eq!(decode_viewer_id(Some(-3)), -3);
}

#[test]
fn sessions_answer_by_state() {
    let invalid: ViewerSessionPlayer<u8> = ViewerSessionPlayer::InvalidSession;
    let e = session_viewer_id_value(7, &invalid).err().unwrap();
    assert_eq!(e.body, "{\"error\":\"invalid_viewer_session\"}");
    let missing: ViewerSessionPlayer<u8> = ViewerSessionPlayer::MissingPlayer;
    assert_eq!(session_viewer_id_value(7, &missing).ok(), Some(7));
    assert_eq!(session_player(ViewerSessionPlayer::Present(3u8)).ok(), Some(3));
    let e = session_player::<u8>(ViewerSessionPlayer::MissingPlayer).err().unwrap();
    assert_eq!(e.body, "{\"error\":\"no_player\"}");
    let e = session_player::<u8>(ViewerSessionPlayer::MissingPlayerData("x".into())).err().unwrap();
    assert_eq!(e.status, "500 Internal Server Error");
    assert_eq!(e.body, "{\"error\":\"no_player_data\"}");
}

#[test]
fn profile_texts_are_cut_by_characters() {
    assert_eq!(truncate_chars("héllo", 2), "hé");
    assert_eq!(truncate_chars("abc", 10), "abc");
    let long: String = std::iter::repeat('名').take(30).collect();
    let (viewer, name) = rename(Some((4, long.clone()))).ok().unwrap();
    assert_eq!(viewer, 4);
    assert_eq!(name.chars().count(), 20);
    let (_, comment) = update_comment(Some((4, long))).ok().unwrap();
    assert_eq!(comment.chars().count(), 30);
    assert!(rename(Some((0, "a".into()))).is_err());
    assert!(update_comment(None).is_err());
}

#[test]
fn news_store_and_exchange_requests() {
    assert_eq!(get_info(Some((1, 2))).ok(), Some((1, 2)));
    assert!(get_info(Some((1, 0))).is_err());
    assert_eq!(requested_product_id(Some("a".into()), Some(Some("b".into()))), Some("a".to_string()));
    assert_eq!(requested_product_id(None, Some(Some("b".into()))), Some("b".to_string()));
    assert_eq!(requested_product_id(None, Some(None)), None);
    assert_eq!(start(Some(Some(3))), Some(3));
    assert_eq!(start(Some(Some(-3))), None);
    assert_eq!(start(None), None);
    assert_eq!(single_draw_ticket(Some((1, 9, 0))).ok(), Some((1, 9)));
    assert!(single_draw_ticket(Some((1, 9, -1))).is_err());
    assert_eq!(multi_draw_ticket(Some((1, 9))).ok(), Some((1, 9)));
    assert!(multi_draw_ticket(Some((0, 9))).is_err());
}

#[test]
fn party_ids_name_group_slots() {
    let l = PartyLocation::from_global_id(1);
    assert_eq!((l.group_id, l.slot), (1, 1));
    let l = PartyLocation::from_global_id(10);
    assert_eq!((l.group_id, l.slot), (1, 10));
    let l = PartyLocation::from_global_id(11);
    assert_eq!((l.group_id, l.slot), (2, 1));
    assert_eq!(l.global_id(), 11);
    for id in [-25_i64, -1, 0, 1, 9, 10, 11, 99, 100, 101, 12345] {
        assert_eq!(PartyLocation::from_global_id(id).global_id(), id);
    }
    let l = PartyLocation::from_global_id(0);
    assert_eq!((l.group_id, l.slot), (1, 0));
}

#[test]
fn news_page_falls_back_to_first_page() {
    assert_eq!(starpoint_service::accounts::news_page(Some(3), Some(2)), 3);
    assert_eq!(starpoint_service::accounts::news_page(Some(0), Some(2)), 2);
    assert_eq!(starpoint_service::accounts::news_page(None, Some(-1)), 1);
    assert_eq!(starpoint_service::accounts::news_page(None, None), 1);
}

#[test]
fn how_to_get_names_one_thing() {
    let valid = starpoint_service::accounts::how_to_get_request_valid;
    assert!(valid(Some(5), None));
    assert!(valid(None, Some(7)));
    assert!(!valid(Some(5), Some(7)));
    assert!(!valid(Some(0), None));
    assert!(!valid(None, None));
}

#[test]
fn degree_list_holds_first_and_stored_degree() {
    assert_eq!(starpoint_service::accounts::degree_ids(Some(12)), [1, 12]);
    assert_eq!(starpoint_service::accounts::degree_ids(None), [1, 1]);
}
