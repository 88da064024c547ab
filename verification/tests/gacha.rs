use starpoint_service::counts::Counts;
use starpoint_service::gacha::exchange::{GachaInfoRecord, StoredCount};
use starpoint_service::gacha::period::{lease_alias, lease_alias_info};
use starpoint_service::gacha::payment::{
    apply_payment, availability_after, history_event_key, payment_overflows,
    payment_refusal_response, ticket_payment, CatalogItemId, GachaPaymentTerms, PaymentRefusal,
    PaymentWallet,
};
use starpoint_service::gacha::region::{
    coverage_alias, kind_has_open_gacha, CoverageCandidate, CoverageGacha,
    normalize_gacha_info, resolve, temporary_alias_for, GachaInfo, GachaRegionPolicy,
};
use starpoint_service::gacha::{
    closed_gacha_code, gacha_activity_id, gacha_activity_status, gacha_count_increment,
    gacha_master_times, is_ten_pull_guaranteed_draw, route, ActivityWindowStatus, ExecuteRequest,
    GachaCatalog, GachaDefinition, GachaEndpoint,
};

fn counts(pairs: &[(&str, i64)]) -> Counts {
    let mut c = Counts::new();
    for (k, v) in pairs {
        c.insert(k.to_string(), *v);
    }
    c
}

fn policy() -> GachaRegionPolicy {
    GachaRegionPolicy {
        excluded_regional_aliases: counts(&[("10", 20)]),
        normalized_coverage_aliases: counts(&[("61", 1)]),
        temporary_aliases: counts(&[("800000", 1)]),
    }
}

fn catalog() -> GachaCatalog {
    GachaCatalog {
        entries: vec![
            (
                "1".to_string(),
                GachaDefinition { start_at_ms: Some(1_000), end_at_ms: Some(2_000) },
            ),
            ("20".to_string(), GachaDefinition { start_at_ms: Some(5), end_at_ms: None }),
            ("30".to_string(), GachaDefinition { start_at_ms: Some(10), end_at_ms: Some(20) }),
        ],
    }
}

fn info(id: i64, account_first: bool, daily_first: bool, points: i64) -> GachaInfo<()> {
    GachaInfo {
        gacha_id: Some(id),
        is_account_first: Some(account_first),
        is_daily_first: Some(daily_first),
        gacha_exchange_point: Some(points),
        other: (),
    }
}

#[test]
fn normalizes_alias_before_canonical_without_duplicate_state() {
    let policy = policy();
    let (alias_id, canonical_id) = (10_i64, 20_i64);
    let list = vec![info(alias_id, true, false, 10), info(canonical_id, false, true, 20)];
    let list = normalize_gacha_info(&policy, list).ok().unwrap();
    assert_eq!(list.len(), 1);
    assert_eq!(list[0].gacha_id, Some(canonical_id));
    assert_eq!(list[0].gacha_exchange_point, Some(30));
    assert_eq!(list[0].is_account_first, Some(false));
    assert_eq!(list[0].is_daily_first, Some(false));
}

#[test]
fn normalize_drops_temporary_alias_state_and_keeps_others() {
    let list = vec![info(800000, true, true, 5), info(30, true, true, 7)];
    let list = normalize_gacha_info(&policy(), list).ok().unwrap();
    assert_eq!(list.len(), 1);
    assert_eq!(list[0].gacha_id, Some(30));
    assert_eq!(list[0].gacha_exchange_point, Some(7));
}

#[test]
fn resolves_aliases_in_priority_order() {
    let p = policy();
    let c = catalog();
    let r = resolve(&p, &c, 800000).ok().unwrap();
    assert!(r.is_temporary && r.canonical == 1);
    let r = resolve(&p, &c, 61).ok().unwrap();
    assert!(r.is_coverage && r.canonical == 1);
    let r = resolve(&p, &c, 10).ok().unwrap();
    assert!(r.is_regional && r.canonical == 20);
    let r = resolve(&p, &c, 30).ok().unwrap();
    assert!(!r.is_regional && !r.is_coverage && !r.is_temporary && r.canonical == 30);
    assert!(resolve(&p, &c, 99).is_err());
    assert_eq!(temporary_alias_for(&p, 1), Some(800000));
    assert_eq!(temporary_alias_for(&p, 30), None);
}

#[test]
fn master_window_decides_unscheduled_gachas() {
    let p = policy();
    let c = catalog();
    let status = |now| gacha_activity_status(ActivityWindowStatus::Unscheduled, &p, &c, 1, now);
    assert_eq!(status(999).ok(), Some(ActivityWindowStatus::NotStarted));
    assert_eq!(status(1_000).ok(), Some(ActivityWindowStatus::Open));
    assert_eq!(status(2_000).ok(), Some(ActivityWindowStatus::Ended));
    assert_eq!(
        gacha_activity_status(ActivityWindowStatus::Disabled, &p, &c, 1, 1_500).ok(),
        Some(ActivityWindowStatus::Disabled)
    );
    assert!(gacha_activity_status(ActivityWindowStatus::Unscheduled, &p, &c, 20, 10).is_err());
    assert!(gacha_master_times(&GachaDefinition { start_at_ms: Some(3), end_at_ms: Some(3) }).is_err());
}

#[test]
fn tenth_draws_are_guaranteed() {
    assert!(is_ten_pull_guaranteed_draw(9));
    assert!(is_ten_pull_guaranteed_draw(19));
    assert!(!is_ten_pull_guaranteed_draw(10));
    assert!(!is_ten_pull_guaranteed_draw(-1));
}

#[test]
fn count_increments_follow_payment_and_draw_type() {
    let body = |payment_type, draw_type| ExecuteRequest {
        api_count: 0,
        payment_type,
        number_of_exec: 3,
        viewer_id: 1,
        gacha_id: 1,
        draw_type,
    };
    let i = gacha_count_increment(&body(1, 1));
    assert_eq!((i.daily_one, i.daily_ten, i.crazy_draw), (3, 0, 0));
    let i = gacha_count_increment(&body(1, 2));
    assert_eq!((i.daily_one, i.daily_ten, i.crazy_draw), (0, 3, 0));
    let i = gacha_count_increment(&body(3, 14));
    assert_eq!((i.daily_one, i.daily_ten, i.crazy_draw), (0, 0, 3));
    let i = gacha_count_increment(&body(2, 5));
    assert_eq!((i.daily_one, i.daily_ten, i.crazy_draw), (0, 0, 0));
}

#[test]
fn closed_gacha_codes() {
    let p = policy();
    let c = catalog();
    let temporary = resolve(&p, &c, 800000).ok().unwrap();
    assert_eq!(closed_gacha_code(temporary, true, false, ActivityWindowStatus::Ended), None);
    assert_eq!(
        closed_gacha_code(temporary, false, false, ActivityWindowStatus::Open),
        Some("activity_ended")
    );
    let coverage = resolve(&p, &c, 61).ok().unwrap();
    assert_eq!(closed_gacha_code(coverage, false, true, ActivityWindowStatus::Ended), None);
    assert_eq!(
        closed_gacha_code(coverage, false, false, ActivityWindowStatus::Open),
        Some("activity_ended")
    );
    let plain = resolve(&p, &c, 30).ok().unwrap();
    assert_eq!(closed_gacha_code(plain, false, false, ActivityWindowStatus::Unscheduled), None);
    assert_eq!(
        closed_gacha_code(plain, false, false, ActivityWindowStatus::Disabled),
        Some("activity_disabled")
    );
    assert_eq!(
        closed_gacha_code(plain, false, false, ActivityWindowStatus::NotStarted),
        Some("activity_not_started")
    );
    assert_eq!(gacha_activity_id(42), "gacha:42");
}

#[test]
fn gacha_routes() {
    assert!(route("GET", "/api/index.php/gacha/exec").is_none());
    assert!(matches!(route("POST", "/api/index.php/gacha/exec"), Some(GachaEndpoint::Execute)));
}

fn terms() -> GachaPaymentTerms {
    GachaPaymentTerms {
        page_kind: Some(0),
        gacha_type: Some(0),
        single_cost: Some(30),
        multi_cost: Some(300),
        discount_cost: Some(10),
        ten_times_per_account_cost: Some(100),
        once_ticket_item_id: CatalogItemId::Id(5001),
        ten_times_ticket_item_id: CatalogItemId::Null,
        crazy_ten_times_ticket_item_id: CatalogItemId::Missing,
        wildcard_character_ticket_available: Some(true),
        wildcard_equipment_ticket_available: Some(false),
        freemium_guarantee_available: None,
    }
}

fn wallet(free: i64, paid: i64) -> PaymentWallet {
    PaymentWallet {
        free_vmoney: Some(free),
        vmoney: Some(paid),
        items: vec![(5001, Some(4)), (999003, Some(2)), (999001, None)],
    }
}

#[test]
fn free_currency_is_spent_before_paid_currency() {
    let plan = apply_payment(&terms(), &wallet(50, 0), 1, 1, 1, false, false).unwrap();
    assert_eq!((plan.pull_count, plan.free_vmoney, plan.vmoney), (1, 20, 0));
    let plan = apply_payment(&terms(), &wallet(100, 250), 1, 2, 1, false, false).unwrap();
    assert_eq!((plan.pull_count, plan.free_vmoney, plan.vmoney), (10, 0, 50));
    assert_eq!(
        apply_payment(&terms(), &wallet(100, 150), 1, 2, 1, false, false).err(),
        Some(PaymentRefusal::NotEnoughVmoney)
    );
    assert_eq!(
        apply_payment(&terms(), &wallet(100, 150), 1, 2, 2, false, false).err(),
        Some(PaymentRefusal::InvalidRequest)
    );
}

#[test]
fn daily_and_account_first_prices() {
    let plan = apply_payment(&terms(), &wallet(0, 10), 2, 5, 1, true, false).unwrap();
    assert!(plan.is_daily_payment);
    assert_eq!((plan.pull_count, plan.vmoney), (1, 0));
    assert_eq!(
        apply_payment(&terms(), &wallet(0, 10), 2, 5, 1, false, false).err(),
        Some(PaymentRefusal::DailyUsed)
    );
    let mut t = terms();
    t.page_kind = Some(1);
    let plan = apply_payment(&t, &wallet(0, 100), 2, 7, 1, false, true).unwrap();
    assert!(plan.is_account_first_payment);
    assert_eq!((plan.pull_count, plan.vmoney), (10, 0));
    assert_eq!(
        apply_payment(&t, &wallet(0, 100), 2, 7, 1, false, false).err(),
        Some(PaymentRefusal::AccountFirstUsed)
    );
    assert_eq!(availability_after(true, true, &plan), (true, false));
}

#[test]
fn tickets_pay_for_draws() {
    let plan = apply_payment(&terms(), &wallet(0, 0), 3, 3, 3, false, false).unwrap();
    assert_eq!(plan.ticket, Some((5001, 1)));
    assert_eq!(plan.pull_count, 3);
    assert_eq!(
        apply_payment(&terms(), &wallet(0, 0), 3, 3, 5, false, false).err(),
        Some(PaymentRefusal::NotEnoughTickets)
    );
    assert_eq!(
        apply_payment(&terms(), &wallet(0, 0), 3, 3, 101, false, false).err(),
        Some(PaymentRefusal::InvalidRequest)
    );
    let plan = apply_payment(&terms(), &wallet(0, 0), 3, 10, 2, false, false).unwrap();
    assert_eq!(plan.ticket, Some((999003, 0)));
    assert_eq!(
        apply_payment(&terms(), &wallet(0, 0), 3, 9, 1, false, false).err(),
        Some(PaymentRefusal::TicketCountInvalid)
    );
    assert_eq!(ticket_payment(&terms(), 4), Err(PaymentRefusal::ItemIdRequired(
        starpoint_service::gacha::payment::CatalogKey::TenTimesTicketItemId
    )));
    assert_eq!(ticket_payment(&terms(), 12), Err(PaymentRefusal::UnsupportedType));
    assert_eq!(ticket_payment(&terms(), 20), Err(PaymentRefusal::FieldMissing(
        starpoint_service::gacha::payment::CatalogKey::FreemiumGuaranteeAvailable
    )));
    assert_eq!(ticket_payment(&terms(), 99), Err(PaymentRefusal::InvalidRequest));
}

#[test]
fn campaign_and_unknown_payments() {
    let plan = apply_payment(&terms(), &wallet(1, 2), 4, 8, 1, false, false).unwrap();
    assert!(plan.campaign);
    assert_eq!((plan.pull_count, plan.free_vmoney, plan.vmoney), (10, 1, 2));
    assert_eq!(
        apply_payment(&terms(), &wallet(1, 2), 9, 1, 1, false, false).err(),
        Some(PaymentRefusal::UnsupportedPayment)
    );
    let mut t = terms();
    t.page_kind = Some(7);
    assert_eq!(
        apply_payment(&t, &wallet(1, 2), 1, 1, 1, false, false).err(),
        Some(PaymentRefusal::PageKindInvalid)
    );
    let w = PaymentWallet { free_vmoney: None, vmoney: Some(1), items: vec![] };
    assert_eq!(
        apply_payment(&terms(), &w, 1, 1, 1, false, false).err(),
        Some(PaymentRefusal::FreeVmoneyMissing)
    );
}

#[test]
fn payment_refusals_answer_or_fail() {
    let r = payment_refusal_response(PaymentRefusal::NotEnoughTickets).ok().unwrap();
    assert_eq!(r.status, "400 Bad Request");
    assert_eq!(r.body, "{\"error\":\"not_enough_tickets\"}");
    let e = payment_refusal_response(PaymentRefusal::FieldMissing(
        starpoint_service::gacha::payment::CatalogKey::OnceTicketItemId,
    ))
    .err()
    .unwrap();
    assert_eq!(e.message, "CN gacha onceTicketItemId is missing");
    assert!(payment_overflows(&terms(), i64::MIN, 1, 1));
    assert!(!payment_overflows(&terms(), 0, 1, 1));
    assert_eq!(history_event_key(12, 1, 2, 1, -3), "gacha:exec:12:1:2:1:-3");
}

#[test]
fn activity_ids_name_their_gacha() {
    use_activity_ids();
}

fn use_activity_ids() {
    assert_eq!(starpoint_service::gacha::gacha_of_activity("gacha:42"), Some(42));
    assert_eq!(starpoint_service::gacha::gacha_of_activity("gacha:x"), None);
    assert_eq!(starpoint_service::gacha::gacha_of_activity("quest:1"), None);
    for id in [0_i64, 1, 800_000, -5, i64::MAX, i64::MIN] {
        assert_eq!(starpoint_service::gacha::gacha_of_activity(&gacha_activity_id(id)), Some(id));
    }
}

fn window(start: i64, end: i64) -> GachaDefinition {
    GachaDefinition { start_at_ms: Some(start), end_at_ms: Some(end) }
}

fn candidate(alias_id: i64, canonical_id: i64, start: i64, list_order: i64) -> CoverageCandidate {
    CoverageCandidate {
        alias_id,
        canonical_id,
        page_kind: 0,
        gacha_type: 0,
        definition: window(start, 1_000),
        list_order: Some(list_order),
    }
}

#[test]
fn the_master_covers_a_kind_with_an_open_gacha() {
    let gachas = vec![
        CoverageGacha { key: "10".to_string(), page_kind: 0, gacha_type: 0, definition: window(0, 100) },
        CoverageGacha { key: "3".to_string(), page_kind: 1, gacha_type: 0, definition: window(0, 100) },
        CoverageGacha { key: "4".to_string(), page_kind: 0, gacha_type: 0, definition: window(50, 100) },
    ];
    assert_eq!(kind_has_open_gacha(&policy(), &gachas, 0, 10).ok(), Some(false));
    assert_eq!(kind_has_open_gacha(&policy(), &gachas, 0, 60).ok(), Some(true));
    assert_eq!(kind_has_open_gacha(&policy(), &gachas, 1, 60).ok(), Some(false));
    let broken = vec![CoverageGacha {
        key: "5".to_string(),
        page_kind: 0,
        gacha_type: 0,
        definition: GachaDefinition { start_at_ms: None, end_at_ms: Some(9) },
    }];
    let err = kind_has_open_gacha(&policy(), &broken, 0, 1).err().unwrap();
    assert_eq!(err.message, "CN gacha start time is missing");
}

#[test]
fn selects_the_latest_open_coverage_alias_for_a_gap() {
    let candidates = vec![
        candidate(10, 20, 100, 5),
        candidate(61, 1, 200, 1),
        candidate(62, 1, 200, 0),
        candidate(63, 1, 900, 9),
    ];
    let picked = coverage_alias(&policy(), false, &candidates, 0, 300).unwrap().unwrap();
    assert_eq!(picked.requested, 61);
    assert_eq!(picked.canonical, 1);
    assert!(picked.is_coverage);
    assert!(!picked.is_regional);
    assert!(!picked.is_temporary);
    assert_eq!(coverage_alias(&policy(), true, &candidates, 0, 300).unwrap(), None);
    assert_eq!(coverage_alias(&policy(), false, &candidates, 1, 300).unwrap(), None);
    let early = coverage_alias(&policy(), false, &candidates, 0, 150).unwrap().unwrap();
    assert_eq!(early.requested, 10);
    assert!(early.is_regional);
    let mut unordered = candidate(70, 1, 0, 0);
    unordered.list_order = None;
    let err = coverage_alias(&policy(), false, &vec![unordered], 0, 10).unwrap_err();
    assert_eq!(err.message, "CN gacha list order is invalid");
}

#[test]
fn campaign_list_excludes_every_hidden_alias() {
    let mut entries = catalog().entries;
    for id in ["10", "61", "800000"] {
        entries.push((id.to_string(), GachaDefinition { start_at_ms: None, end_at_ms: None }));
    }
    let catalog = GachaCatalog { entries };
    let campaigns = vec![(1, 100), (10, 101), (20, 102), (61, 103), (800000, 104), (30, 105), (99, 106)];
    let available = vec![1, 10, 20, 61, 800000, 30, 99];
    let existing = vec![starpoint_service::gacha::campaign::StoredCampaign {
        is_object: true,
        gacha_id: Some(20),
        campaign_id: Some(102),
        count: Some(0),
    }];
    let list = starpoint_service::gacha::campaign::replace_available_for_load(
        &policy(),
        &catalog,
        &campaigns,
        &available,
        &existing,
    );
    assert!(list
        .iter()
        .all(|(gacha_id, _, _)| starpoint_service::gacha::region::is_enumerable(&policy(), &catalog, *gacha_id)));
    assert!(!list.iter().any(|(gacha_id, _, _)| *gacha_id == 61));
    assert_eq!(list, vec![(1, 100, 1), (20, 102, 0), (30, 105, 1)]);
    let none_available = starpoint_service::gacha::campaign::replace_available_for_load(
        &policy(),
        &catalog,
        &campaigns,
        &vec![20],
        &existing,
    );
    assert_eq!(none_available, vec![(20, 102, 0)]);
}

fn coverage_candidate(alias_id: i64, canonical_id: i64, kind: i64, start: i64, end: i64, order: i64) -> CoverageCandidate {
    CoverageCandidate {
        alias_id,
        canonical_id,
        page_kind: 0,
        gacha_type: kind,
        definition: window(start, end),
        list_order: Some(order),
    }
}

#[test]
fn selects_only_the_required_coverage_alias_per_gap() {
    // The master keeps its character (0) and equipment (1) gachas open only
    // until the end of 2019; the aliases cover the gaps after it.
    let policy = GachaRegionPolicy {
        excluded_regional_aliases: counts(&[("5001", 20), ("5006", 21), ("94", 22), ("93", 22)]),
        normalized_coverage_aliases: counts(&[("61", 1)]),
        temporary_aliases: counts(&[("800000", 1)]),
    };
    let master = vec![
        CoverageGacha { key: "1".to_string(), page_kind: 0, gacha_type: 0, definition: window(1_570_000_000_000, 1_577_000_000_000) },
        CoverageGacha { key: "2".to_string(), page_kind: 0, gacha_type: 1, definition: window(1_570_000_000_000, 1_577_000_000_000) },
        CoverageGacha { key: "3".to_string(), page_kind: 1, gacha_type: 0, definition: window(1_570_000_000_000, 1_700_000_000_000) },
    ];
    let candidates = vec![
        coverage_candidate(5001, 20, 0, 1_580_000_000_000, 1_590_000_000_000, 3),
        coverage_candidate(5006, 21, 1, 1_590_000_000_000, 1_600_000_000_000, 1),
        coverage_candidate(93, 22, 0, 1_630_000_000_000, 1_640_000_000_000, 1),
        coverage_candidate(94, 22, 0, 1_630_000_000_000, 1_634_000_000_000, 2),
        coverage_candidate(61, 1, 0, 1_634_000_000_000, 1_640_000_000_000, 1),
    ];
    let aliases = |now_ms: i64| {
        let mut bridges = Vec::new();
        for kind in [0, 1] {
            if kind_has_open_gacha(&policy, &master, kind, now_ms).unwrap() {
                continue;
            }
            if let Some(bridge) = coverage_alias(&policy, false, &candidates, kind, now_ms).unwrap() {
                bridges.push(bridge);
            }
        }
        bridges
    };
    let selected = |now_ms: i64| aliases(now_ms).into_iter().map(|bridge| bridge.requested).collect::<Vec<_>>();
    assert_eq!(selected(1_575_259_260_000), Vec::<i64>::new());
    assert_eq!(selected(1_581_303_600_000), vec![5_001]);
    assert_eq!(selected(1_593_054_000_000), vec![5_006]);
    assert_eq!(selected(1_633_057_200_000), vec![94]);
    let october_gap = aliases(1_635_562_800_000);
    assert_eq!(october_gap.len(), 1);
    assert_eq!(october_gap[0].requested, 61);
    assert_eq!(october_gap[0].canonical, 1);
    assert!(october_gap[0].is_coverage);
}

#[test]
fn temporary_alias_request_requires_the_canonical_lease() {
    let temporary_id = temporary_alias_for(&policy(), 1).unwrap();
    let resolution = resolve(&policy(), &catalog(), temporary_id).ok().unwrap();
    assert!(resolution.is_temporary);
    // No open lease on the canonical gacha: the alias stays closed.
    assert!(closed_gacha_code(resolution, false, false, ActivityWindowStatus::Unscheduled).is_some());
    // A lease on the canonical gacha opens it.
    assert!(closed_gacha_code(resolution, true, false, ActivityWindowStatus::Unscheduled).is_none());
}

#[test]
fn injects_lease_alias_only_for_closed_master_pool() {
    // Gacha 1 has its master open at 1500; gacha 30 ended at 20.
    let policy = GachaRegionPolicy {
        excluded_regional_aliases: counts(&[("10", 20)]),
        normalized_coverage_aliases: counts(&[("61", 1)]),
        temporary_aliases: counts(&[("800000", 1), ("800001", 30)]),
    };
    let now_ms = 1_500;
    assert_eq!(lease_alias(&policy, &catalog(), "gacha:1", now_ms).unwrap(), None);
    let (canonical, alias) = lease_alias(&policy, &catalog(), "gacha:30", now_ms).unwrap().unwrap();
    assert_eq!((canonical, alias), (30, 800_001));
    assert_eq!(lease_alias(&policy, &catalog(), "gacha:20", now_ms).unwrap(), None);
    assert_eq!(lease_alias(&policy, &catalog(), "shop:30", now_ms).unwrap(), None);
    let account_first = lease_alias_info(&vec![], canonical, alias, true, false);
    assert_eq!(account_first.gacha_id, Some(800_001));
    assert!(account_first.is_account_first);
    assert!(!account_first.is_daily_first);
    assert_eq!(account_first.exchange_point, 0);
    assert_eq!(account_first.daily_one_count, StoredCount::Count(0));
    let stored = GachaInfoRecord {
        gacha_id: Some(30),
        exchange_point: 12,
        is_account_first: false,
        is_daily_first: true,
        daily_one_count: StoredCount::Count(2),
        daily_ten_count: StoredCount::Missing,
        crazy_draw_count: StoredCount::Count(1),
    };
    let projected = lease_alias_info(&vec![stored], canonical, alias, true, false);
    assert_eq!(projected, GachaInfoRecord { gacha_id: Some(800_001), ..stored });
}
