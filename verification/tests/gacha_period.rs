use starpoint_service::gacha::exchange::{GachaInfoRecord, StoredCount};
use starpoint_service::gacha::period::{
    dynamic_campaign_field, gacha_supports_daily_discount, inject_account_first_gacha_info,
    master_period, period_of, projected_temporary_gacha_period, reset_daily_state,
    schedule_period, whole_seconds, CampaignField, ClientPeriod, MAX_CLIENT_PERIOD_SECONDS,
};
use starpoint_service::gacha::GachaDefinition;

fn record(gacha_id: i64) -> GachaInfoRecord {
    GachaInfoRecord {
        gacha_id: Some(gacha_id),
        exchange_point: 40,
        is_account_first: false,
        is_daily_first: false,
        daily_one_count: StoredCount::Count(3),
        daily_ten_count: StoredCount::Missing,
        crazy_draw_count: StoredCount::Count(2),
    }
}

#[test]
fn milliseconds_round_down_to_seconds() {
    assert_eq!(whole_seconds(1_999), 1);
    assert_eq!(whole_seconds(0), 0);
    assert_eq!(whole_seconds(-1), -1);
    assert_eq!(whole_seconds(-1_000), -1);
    assert_eq!(whole_seconds(-1_001), -2);
    assert_eq!(whole_seconds(i64::MIN), i64::MIN.div_euclid(1000));
    assert_eq!(period_of(1_500, 2_500), ClientPeriod { period_start_time: 1, period_end_time: 2 });
}

#[test]
fn temporary_leases_keep_their_length_on_the_virtual_clock() {
    let p = projected_temporary_gacha_period(10_000, 70_000, 40_000, 1_000_000).unwrap();
    assert_eq!(p, ClientPeriod { period_start_time: 970, period_end_time: 1_030 });
    let early = projected_temporary_gacha_period(50_000, 70_000, 40_000, 1_000_000).unwrap();
    assert_eq!(early.period_start_time, 1_000);
    let err = projected_temporary_gacha_period(0, 40_000, 40_000, 0).unwrap_err();
    assert_eq!(err.message, "CN gacha temporary lease expired during refresh");
    let err = projected_temporary_gacha_period(0, 40_000, 10_000, i64::MAX).unwrap_err();
    assert_eq!(err.message, "CN gacha temporary period exceeds range");
}

#[test]
fn scheduled_activities_show_their_window() {
    assert_eq!(schedule_period(false, Some(0), Some(1)).unwrap(), None);
    assert_eq!(
        schedule_period(true, Some(2_000), Some(9_000)).unwrap(),
        Some(ClientPeriod { period_start_time: 2, period_end_time: 9 })
    );
    assert_eq!(
        schedule_period(true, None, None).unwrap(),
        Some(ClientPeriod { period_start_time: 0, period_end_time: MAX_CLIENT_PERIOD_SECONDS })
    );
    assert_eq!(schedule_period(true, Some(5), None).unwrap_err().message, "CN gacha activity period is invalid");
    assert_eq!(schedule_period(true, Some(5), Some(5)).unwrap_err().message, "CN gacha activity period is invalid");
}

#[test]
fn master_windows_show_while_open() {
    let window = GachaDefinition { start_at_ms: Some(1_000), end_at_ms: Some(5_000) };
    assert_eq!(master_period(&window, 1_000).unwrap(), Some(ClientPeriod { period_start_time: 1, period_end_time: 5 }));
    assert_eq!(master_period(&window, 5_000).unwrap(), None);
    let broken = GachaDefinition { start_at_ms: None, end_at_ms: Some(5_000) };
    assert_eq!(master_period(&broken, 0).unwrap_err().message, "CN gacha start time is missing");
}

#[test]
fn campaign_fields_follow_the_gacha_kind() {
    assert_eq!(dynamic_campaign_field(Some(true), Some(false)).unwrap(), Some(CampaignField::Comeback));
    assert_eq!(dynamic_campaign_field(Some(false), Some(true)).unwrap(), Some(CampaignField::Stars));
    assert_eq!(dynamic_campaign_field(Some(false), Some(false)).unwrap(), None);
    assert_eq!(
        dynamic_campaign_field(Some(true), Some(true)).unwrap_err().message,
        "CN gacha dynamic campaign kind is ambiguous"
    );
    assert_eq!(dynamic_campaign_field(None, Some(true)).unwrap_err().message, "CN gacha isComeback is missing");
}

#[test]
fn daily_discounts_need_a_main_page_and_a_cost() {
    assert!(gacha_supports_daily_discount(Some(50), Some(0)).unwrap());
    assert!(!gacha_supports_daily_discount(Some(0), Some(0)).unwrap());
    assert!(!gacha_supports_daily_discount(Some(50), Some(1)).unwrap());
    assert_eq!(gacha_supports_daily_discount(Some(-1), Some(0)).unwrap_err().message, "CN gacha daily cost is invalid");
    assert_eq!(gacha_supports_daily_discount(Some(1), Some(6)).unwrap_err().message, "CN gacha page kind is invalid");
}

#[test]
fn account_first_gachas_get_a_fresh_record_once() {
    let mut list = vec![record(5)];
    inject_account_first_gacha_info(&mut list, &vec![5, 7, 7]);
    assert_eq!(list.len(), 2);
    assert_eq!(list[0], record(5));
    assert_eq!(list[1].gacha_id, Some(7));
    assert!(list[1].is_account_first);
    assert_eq!(list[1].daily_one_count, StoredCount::Count(0));
}

#[test]
fn a_new_day_resets_the_daily_counters() {
    let mut list = vec![record(5), record(6)];
    reset_daily_state(&mut list, &vec![(6, true)]).unwrap();
    assert_eq!(list[0].daily_one_count, StoredCount::Count(0));
    assert_eq!(list[0].daily_ten_count, StoredCount::Count(0));
    assert_eq!(list[0].crazy_draw_count, StoredCount::Count(2));
    assert!(!list[0].is_daily_first);
    assert!(list[1].is_daily_first);
    assert_eq!(list[1].exchange_point, 40);
    let mut broken = record(8);
    broken.daily_ten_count = StoredCount::Invalid;
    assert_eq!(
        reset_daily_state(&mut vec![broken], &vec![]).unwrap_err().message,
        "stored CN gacha draw count is invalid"
    );
    let mut no_id = record(9);
    no_id.gacha_id = None;
    assert_eq!(reset_daily_state(&mut vec![no_id], &vec![]).unwrap_err().message, "stored CN gacha id is invalid");
}
