use starpoint_service::player::{is_new_day, login_update, LoginUpdate};

#[test]
fn days_compare_by_their_date_part() {
    assert!(!is_new_day("2025-02-13 01:00:00", "2025-02-13 23:59:59"));
    assert!(is_new_day("2025-02-13 23:59:59", "2025-02-14 00:00:00"));
    assert!(!is_new_day("short", "tiny"));
    assert!(is_new_day("short", "2025-02-14 00:00:00"));
    assert!(!is_new_day("2025-02-13", "2025-02-13"));
}

#[test]
fn logins_refresh_stamina_days_and_pooled_experience() {
    let u = login_update(Some(10), 12, Some("2025-02-13 10:00:00"), Some(1_000), Some(5), 1_150, "2025-02-13 11:00:00")
        .unwrap();
    assert_eq!(u, LoginUpdate { stamina: Some(12), is_new_day: false, exp_pool: Some(7) });
    let u = login_update(Some(10), 10, Some("2025-02-13 10:00:00"), Some(1_000), None, 1_059, "2025-02-14 00:00:00")
        .unwrap();
    assert_eq!(u, LoginUpdate { stamina: None, is_new_day: true, exp_pool: None });
    let u = login_update(Some(0), 0, Some("x"), Some(0), Some(0), i64::MAX, "x").unwrap();
    assert_eq!(u.exp_pool, Some(100_000));
    assert_eq!(
        login_update(None, 0, Some("x"), Some(0), Some(0), 0, "x").unwrap_err().message,
        "stored CN stamina is missing"
    );
    assert_eq!(
        login_update(Some(0), 0, None, Some(0), Some(0), 0, "x").unwrap_err().message,
        "stored CN login time is missing"
    );
    assert_eq!(
        login_update(Some(0), 0, Some("x"), None, Some(0), 0, "x").unwrap_err().message,
        "stored CN pooled EXP time is missing"
    );
    assert_eq!(
        login_update(Some(0), 0, Some("x"), Some(0), None, 60, "x").unwrap_err().message,
        "stored CN pooled EXP is missing"
    );
    assert_eq!(
        login_update(Some(0), 0, Some("x"), Some(0), Some(i64::MAX), 60, "x").unwrap_err().message,
        "stored CN pooled EXP exceeds the supported range"
    );
}
