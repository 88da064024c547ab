use starpoint_service::purchase::{
    finish_purchase, product_on_sale, PurchaseResult, MAX_VMONEY,
};

#[test]
fn product_window_includes_both_ends() {
    assert!(product_on_sale(Some(100), Some(200), 100));
    assert!(product_on_sale(Some(100), Some(200), 200));
    assert!(!product_on_sale(Some(100), Some(200), 99));
    assert!(!product_on_sale(Some(100), Some(200), 201));
    assert!(product_on_sale(None, None, i64::MIN));
    assert!(product_on_sale(None, Some(5), 5));
}

#[test]
fn purchase_credits_and_counts() {
    let result = finish_purchase(Some(120), Some(10), Some(5), None, None).unwrap();
    assert_eq!(result, PurchaseResult { after_vmoney: 125, after_free_vmoney: 10, purchased_times: 1 });
    assert!(result.first_purchase());
    let again = finish_purchase(Some(-3), None, Some(7), Some(2), Some(1)).unwrap();
    assert_eq!(again, PurchaseResult { after_vmoney: 7, after_free_vmoney: 2, purchased_times: 2 });
    assert!(!again.first_purchase());
}

#[test]
fn purchase_caps_balances() {
    let result = finish_purchase(Some(i64::MAX), Some(50), Some(99_999_990), Some(i64::MAX), Some(0)).unwrap();
    assert_eq!(result.after_vmoney, MAX_VMONEY);
    assert_eq!(result.after_free_vmoney, MAX_VMONEY);
}

#[test]
fn purchase_count_overflow_fails() {
    assert!(finish_purchase(Some(1), Some(1), Some(0), Some(0), Some(i64::MAX)).is_err());
}
