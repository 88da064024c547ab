use starpoint_service::counts::Counts;
use starpoint_service::mail::{add_item_rewards, claim_counts, ClaimCounts};
use starpoint_service::mail::normalize_rewards;
use starpoint_service::mail::mail_texts;
use starpoint_service::mail::{add_currency_rewards, equipment_stack_after, Currencies};
use starpoint_service::mail::{
    catalog_reward_resource_id, is_positive_id, local_save_mail_slot_id, management_route,
    player_snapshot, positive_integer, receive, receive_all, resolve_mail_kind,
    reward_catalog_contains, reward_catalog_image_url, reward_favorite_key, reward_kind_name,
    route, CatalogReward, JsonScalar, MailEndpoint, MailReward, ManagementAction,
    ReceiveAllRequest, ReceiveRequest, ViewerSessionPlayer,
};

#[test]
fn management_paths() {
    assert_eq!(local_save_mail_slot_id("/v1/local-saves/slot-1/mails"), Some("slot-1"));
    assert_eq!(local_save_mail_slot_id("/v1/local-saves/a/b/mails"), None);
    assert_eq!(reward_favorite_key("/v1/mail-rewards/catalog/item.5/favorite"), Some("item.5"));
    assert_eq!(reward_favorite_key("/v1/mail-rewards/catalog//favorite"), None);
    assert_eq!(management_route("GET", "/other", true), None);
    assert_eq!(management_route("GET", "/v1/mails", false), Some(ManagementAction::Unauthorized));
    assert_eq!(
        management_route("GET", "/v1/mail-rewards/catalog", true),
        Some(ManagementAction::RewardCatalog)
    );
    assert_eq!(management_route("POST", "/v1/mails", true), Some(ManagementAction::CreateMail));
    assert_eq!(
        management_route("GET", "/v1/mails/42", true),
        Some(ManagementAction::ListMails("42".to_string()))
    );
    assert_eq!(
        management_route("DELETE", "/v1/mails/42", true),
        Some(ManagementAction::MethodNotAllowed)
    );
    assert_eq!(
        management_route("GET", "/v1/local-saves/s/mails", true),
        Some(ManagementAction::LocalSaveMails("s".to_string()))
    );
    assert_eq!(
        management_route("GET", "/v1/mail-rewards/other", true),
        Some(ManagementAction::RewardNotFound)
    );
    assert_eq!(
        management_route("PUT", "/v1/mail-rewards/catalog/k/favorite", true),
        Some(ManagementAction::RewardFavorite("k".to_string()))
    );
}

#[test]
fn reward_catalog() {
    assert_eq!(reward_kind_name("ticket"), "抽卡券");
    assert_eq!(reward_kind_name("unknown"), "其他");
    assert_eq!(catalog_reward_resource_id(CatalogReward::Item("999001")), Some("999001"));
    assert_eq!(catalog_reward_resource_id(CatalogReward::FreeMana), None);
    let items = vec!["7".to_string(), "100".to_string()];
    assert!(reward_catalog_contains("currency.free-mana", &items));
    assert!(reward_catalog_contains("item.7", &items));
    assert!(!reward_catalog_contains("item.100", &items));
    assert!(!reward_catalog_contains("item.8", &items));
    assert!(!reward_catalog_contains("other", &items));
    assert_eq!(reward_catalog_image_url("item.7"), "/manage/assets/item-icons/item.7.png");
}

fn rewards() -> MailReward {
    MailReward {
        item_list: vec![],
        equipment_list: vec![],
        character_list: vec![],
        free_vmoney: 0,
        vmoney: 0,
        free_mana: 0,
        paid_mana: 0,
        exp_pool: 0,
        star_crumb: 0,
        bond_token: 0,
        boss_boost_point: 0,
        boost_point: 0,
        rank_point: 0,
    }
}

#[test]
fn mail_kinds_follow_reward_priority() {
    let mut r = rewards();
    assert_eq!(resolve_mail_kind(&r), (8, None, 1));
    r.paid_mana = 5;
    assert_eq!(resolve_mail_kind(&r), (8, None, 5));
    r.exp_pool = 3;
    assert_eq!(resolve_mail_kind(&r), (9, None, 3));
    r.free_vmoney = 2;
    assert_eq!(resolve_mail_kind(&r), (4, None, 2));
    r.character_list = vec![111_001, 121_002];
    assert_eq!(resolve_mail_kind(&r), (5, Some(111_001), 2));
    r.equipment_list = vec![("300101".to_string(), 1)];
    assert_eq!(resolve_mail_kind(&r), (6, Some(300_101), 1));
    r.item_list = vec![("abc".to_string(), 4)];
    assert_eq!(resolve_mail_kind(&r), (1, None, 4));
}

#[test]
fn claims_need_positive_ids() {
    assert!(is_positive_id("12"));
    assert!(!is_positive_id("0"));
    assert!(!is_positive_id("-3"));
    assert!(!is_positive_id(""));
    assert_eq!(positive_integer(&JsonScalar::Number(Some(3))), Some(3));
    assert_eq!(positive_integer(&JsonScalar::Text("7".to_string())), Some(7));
    assert_eq!(positive_integer(&JsonScalar::Text("x".to_string())), None);
    assert_eq!(positive_integer(&JsonScalar::Number(None)), None);
    assert_eq!(positive_integer(&JsonScalar::Other), None);

    let claim = receive(&ReceiveRequest {
        viewer_id: JsonScalar::Number(Some(5)),
        mail_id: JsonScalar::Text("9".to_string()),
    })
    .ok()
    .unwrap();
    assert_eq!((claim.viewer_id, claim.mail_ids, claim.receive_all), (5, Some(vec![9]), false));
    let e = receive(&ReceiveRequest {
        viewer_id: JsonScalar::Number(Some(0)),
        mail_id: JsonScalar::Other,
    })
    .err()
    .unwrap();
    assert_eq!(e.body, "{\"error\":\"invalid_viewer_id\"}");
    let e = receive(&ReceiveRequest {
        viewer_id: JsonScalar::Number(Some(5)),
        mail_id: JsonScalar::Other,
    })
    .err()
    .unwrap();
    assert_eq!(e.body, "{\"error\":\"invalid_mail_id\"}");
}

#[test]
fn claim_all_limits_the_page() {
    let all = receive_all(&ReceiveAllRequest { viewer_id: JsonScalar::Number(Some(5)), mail_ids: None }, 2)
        .ok()
        .unwrap();
    assert_eq!((all.mail_ids, all.receive_all), (None, true));
    let some = receive_all(
        &ReceiveAllRequest {
            viewer_id: JsonScalar::Number(Some(5)),
            mail_ids: Some(vec![JsonScalar::Number(Some(1)), JsonScalar::Text("2".to_string())]),
        },
        2,
    )
    .ok()
    .unwrap();
    assert_eq!(some.mail_ids, Some(vec![1, 2]));
    let e = receive_all(
        &ReceiveAllRequest {
            viewer_id: JsonScalar::Number(Some(5)),
            mail_ids: Some(vec![
                JsonScalar::Number(Some(1)),
                JsonScalar::Number(Some(2)),
                JsonScalar::Number(Some(3)),
            ]),
        },
        2,
    )
    .err()
    .unwrap();
    assert_eq!(e.body, "{\"error\":\"mail_ids_too_many\"}");
    let e = receive_all(
        &ReceiveAllRequest {
            viewer_id: JsonScalar::Number(Some(5)),
            mail_ids: Some(vec![JsonScalar::Other]),
        },
        2,
    )
    .err()
    .unwrap();
    assert_eq!(e.body, "{\"error\":\"invalid_mail_id\"}");
}

#[test]
fn sessions_and_routes() {
    assert_eq!(player_snapshot(ViewerSessionPlayer::Present(4u8)), Some(4));
    assert_eq!(player_snapshot::<u8>(ViewerSessionPlayer::InvalidSession), None);
    assert!(matches!(route("POST", "/api/index.php/mail/receive_all"), Some(MailEndpoint::ReceiveAll)));
    assert!(route("GET", "/api/index.php/mail/index").is_none());
}

#[test]
fn new_mail_rewards_are_checked() {
    let mut r = rewards();
    let e = normalize_rewards(r, 10).err().unwrap();
    assert_eq!(e.body, "{\"error\":\"mail_rewards_empty\"}");
    r = rewards();
    r.item_list = vec![("7".to_string(), 0)];
    assert!(normalize_rewards(r, 10).is_err());
    r = rewards();
    r.item_list = vec![("7".to_string(), 2)];
    let kept = normalize_rewards(r, 10).ok().unwrap();
    assert_eq!(kept.item_list, vec![("7".to_string(), 2)]);
    r = rewards();
    r.item_list = vec![("x".to_string(), 2)];
    let e = normalize_rewards(r, 10).err().unwrap();
    assert_eq!(e.body, "{\"error\":\"invalid_mail_rewards\"}");
    r = rewards();
    r.character_list = vec![1, 2, 3];
    assert!(normalize_rewards(r, 2).is_err());
    r = rewards();
    r.rank_point = -1;
    r.free_mana = 5;
    assert!(normalize_rewards(r, 2).is_err());
}

#[test]
fn new_mail_texts_are_trimmed_and_checked() {
    let (t, b, s) = mail_texts("  Title ", " Body", "GM ", Some(11), 10).ok().unwrap();
    assert_eq!((t.as_str(), b.as_str(), s.as_str()), ("Title", "Body", "GM"));
    assert!(mail_texts("T", "B", "S", Some(10), 10).is_err());
    assert!(mail_texts("   ", "B", "S", None, 10).is_err());
    assert!(mail_texts("T\u{1}", "B", "S", None, 10).is_err());
    let long: String = std::iter::repeat('a').take(201).collect();
    let e = mail_texts(&long, "B", "S", None, 10).err().unwrap();
    assert_eq!(e.body, "{\"error\":\"invalid_mail\"}");
}

#[test]
fn claimed_currencies_add_up() {
    let zero = Currencies {
        free_mana: 0,
        paid_mana: 0,
        free_vmoney: 0,
        vmoney: 0,
        exp_pool: 0,
        star_crumb: 0,
        bond_token: 0,
        boss_boost_point: 0,
        boost_point: 0,
        rank_point: 0,
    };
    let mut r = rewards();
    r.free_mana = 5;
    r.rank_point = 2;
    let c = add_currency_rewards(Currencies { free_mana: 10, ..zero }, &r).ok().unwrap();
    assert_eq!((c.free_mana, c.rank_point, c.vmoney), (15, 2, 0));
    let e = add_currency_rewards(Currencies { free_mana: i64::MAX, ..zero }, &r).err().unwrap();
    assert_eq!(e.message, "mail currency exceeds the supported range");
    assert_eq!(equipment_stack_after(None, 3), Some(2));
    assert_eq!(equipment_stack_after(Some(4), 3), Some(7));
    assert_eq!(equipment_stack_after(Some(i64::MAX), 1), None);
}

#[test]
fn mailed_items_add_to_the_counts_and_list_the_granted_ones() {
    let mut items = Counts::new();
    items.insert("10".to_string(), 5);
    let rewards = vec![("10".to_string(), 3), ("11".to_string(), 0), ("12".to_string(), 2)];
    let granted = add_item_rewards(&mut items, &rewards).unwrap();
    assert_eq!(granted, vec![("10".to_string(), 3), ("12".to_string(), 2)]);
    assert_eq!(items.get("10"), Some(8));
    assert_eq!(items.get("11"), Some(0));
    assert_eq!(items.get("12"), Some(2));
    let mut full = Counts::new();
    full.insert("10".to_string(), i64::MAX);
    let err = add_item_rewards(&mut full, &vec![("10".to_string(), 1)]).unwrap_err();
    assert_eq!(err.message, "mail item count exceeds the supported range");
}

#[test]
fn claims_count_what_was_left_behind() {
    let err = claim_counts(false, Some(2), 0, 0).unwrap_err();
    assert_eq!(err.body, "{\"error\":\"mail_not_found\"}");
    let single = claim_counts(false, Some(2), 1, 3).unwrap();
    assert_eq!(single, ClaimCounts { already_mail_count: 0, mail_arrived: true });
    let all = claim_counts(true, Some(5), 3, 0).unwrap();
    assert_eq!(all, ClaimCounts { already_mail_count: 2, mail_arrived: false });
    assert_eq!(claim_counts(true, None, 0, 0).unwrap().already_mail_count, 0);
    assert_eq!(claim_counts(true, Some(1), 3, 0).unwrap().already_mail_count, 0);
}

#[test]
fn gacha_cost_needs_positive_multi_cost() {
    assert_eq!(starpoint_service::mail::cn_gacha_cost(Some(2500)).unwrap(), 2500);
    assert!(starpoint_service::mail::cn_gacha_cost(Some(0)).is_err());
    assert!(starpoint_service::mail::cn_gacha_cost(None).is_err());
}

#[test]
fn quick_pull_cost_pays_twenty_multi_draws() {
    assert_eq!(starpoint_service::mail::quick_pull_cost(2500).unwrap(), 50_000);
    assert!(starpoint_service::mail::quick_pull_cost(i64::MAX / 10).is_err());
}
