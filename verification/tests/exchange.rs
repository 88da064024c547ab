use starpoint_service::gacha::exchange::{
    adjust_gacha_info, check_exchange_points, draws_guaranteed_rank, drawn_rank, encyclopedia_key,
    exchange_history_key, exchange_request_valid, gacha_exchange_points, granted_equipment,
    is_character_in_gacha, rank_rate_name, rank_rates_valid, EquipmentRecord, ExchangeKind,
    GachaAvailability, GachaInfoRecord, StoredCount, EXCHANGE_REQUIRED_POINTS,
};
use starpoint_service::gacha::GachaCountIncrement;

fn record(gacha_id: i64, points: i64) -> GachaInfoRecord {
    GachaInfoRecord {
        gacha_id: Some(gacha_id),
        exchange_point: points,
        is_account_first: true,
        is_daily_first: true,
        daily_one_count: StoredCount::Count(2),
        daily_ten_count: StoredCount::Missing,
        crazy_draw_count: StoredCount::Count(0),
    }
}

const NO_FIRST: GachaAvailability = GachaAvailability { is_daily_first: false, is_account_first: false };

fn increment(one: i64, ten: i64, crazy: i64) -> GachaCountIncrement {
    GachaCountIncrement { daily_one: one, daily_ten: ten, crazy_draw: crazy }
}

#[test]
fn exchange_points_come_from_the_first_record() {
    let list = vec![record(5, 10), record(7, 300), record(7, 1)];
    assert_eq!(gacha_exchange_points(&list, 7), Some(300));
    assert_eq!(gacha_exchange_points(&list, 8), None);
}

#[test]
fn an_exchange_needs_a_record_and_enough_points() {
    assert_eq!(EXCHANGE_REQUIRED_POINTS, 250);
    assert_eq!(check_exchange_points(None).err().unwrap().body, "{\"error\":\"no_gacha_info\"}");
    assert_eq!(
        check_exchange_points(Some(249)).err().unwrap().body,
        "{\"error\":\"not_enough_exchange_points\"}"
    );
    assert!(check_exchange_points(Some(250)).is_ok());
    assert!(exchange_request_valid(1, 2, 0));
    assert!(!exchange_request_valid(1, 0, 0));
}

#[test]
fn an_exchange_takes_its_cost_and_keeps_the_counters() {
    let mut list = vec![record(5, 10), record(7, 300)];
    let shown = adjust_gacha_info(&mut list, 7, -250, NO_FIRST, increment(0, 0, 0)).unwrap();
    assert_eq!(shown.exchange_point, 50);
    assert!(!shown.is_daily_first);
    assert_eq!(shown.daily_one_count, StoredCount::Count(2));
    assert_eq!(shown.daily_ten_count, StoredCount::Count(0));
    assert_eq!(list[1], shown);
    assert_eq!(list[0], record(5, 10));
}

#[test]
fn a_draw_on_a_new_gacha_adds_a_record() {
    let mut list = vec![record(5, 10)];
    let shown = adjust_gacha_info(&mut list, 9, 10, NO_FIRST, increment(1, 0, 0)).unwrap();
    assert_eq!(list.len(), 2);
    assert_eq!(shown.gacha_id, Some(9));
    assert_eq!(shown.exchange_point, 10);
    assert_eq!(shown.daily_one_count, StoredCount::Count(1));
    assert_eq!(list[1], shown);
}

#[test]
fn a_broken_counter_fails_without_changes() {
    let mut bad = record(5, 10);
    bad.daily_ten_count = StoredCount::Invalid;
    let mut list = vec![bad];
    let err = adjust_gacha_info(&mut list, 5, 10, NO_FIRST, increment(0, 1, 0)).unwrap_err();
    assert_eq!(err.message, "stored CN gacha draw count is invalid");
    assert_eq!(list, vec![bad]);
    let mut full = vec![record(5, i64::MAX)];
    let err = adjust_gacha_info(&mut full, 5, 1, NO_FIRST, increment(0, 0, 0)).unwrap_err();
    assert_eq!(err.message, "CN gacha exchange points overflow");
}

#[test]
fn exchanges_are_recorded_under_their_key() {
    assert_eq!(
        exchange_history_key(ExchangeKind::Character, 101, 2001, 4, 77),
        "gacha:exchange-character:101:2001:4:77"
    );
    assert_eq!(
        exchange_history_key(ExchangeKind::Equipment, 5, 6, 0, 8),
        "gacha:exchange-equipment:5:6:0:8"
    );
    assert_eq!(encyclopedia_key(104), "110401");
}

#[test]
fn characters_are_found_in_any_rank_pool() {
    let pools = vec![vec![Some(1), None], vec![], vec![Some(7), Some(8)]];
    assert!(is_character_in_gacha(&pools, 8));
    assert!(!is_character_in_gacha(&pools, 2));
}

#[test]
fn granted_equipment_stacks_duplicates() {
    let fresh = granted_equipment(None).unwrap();
    assert_eq!(fresh, EquipmentRecord { stack: 0, protection: false, level: 1, enhancement_level: 0 });
    let owned = EquipmentRecord { stack: 2, protection: true, level: 5, enhancement_level: 1 };
    assert_eq!(granted_equipment(Some(owned)).unwrap().stack, 3);
    let full = EquipmentRecord { stack: i64::MAX, ..owned };
    assert_eq!(granted_equipment(Some(full)).unwrap_err().message, "CN equipment stack exceeds range");
}

#[test]
fn guaranteed_draws_use_their_own_rank_rates() {
    assert!(draws_guaranteed_rank(9, false));
    assert!(draws_guaranteed_rank(19, false));
    assert!(!draws_guaranteed_rank(8, false));
    assert!(draws_guaranteed_rank(0, true));
    assert_eq!(rank_rate_name(true), "multiGuarantee");
    assert_eq!(rank_rate_name(false), "normal");
    assert!(rank_rates_valid(true, 2));
    assert!(!rank_rates_valid(true, 3));
    assert!(rank_rates_valid(false, 3));
    assert_eq!(drawn_rank(0), 1);
}
