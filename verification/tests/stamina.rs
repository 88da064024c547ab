use starpoint_service::stamina::{
    current_stamina, requested_stamina_items, use_stamina_items, ItemEffect, RequestedItems,
    StaminaUse, MAX_STAMINA_OVERFLOW,
};

fn effects() -> Vec<ItemEffect> {
    vec![
        ItemEffect { item_id: 1001, kind: 2, value: 30 },
        ItemEffect { item_id: 1002, kind: 3, value: 50 },
        ItemEffect { item_id: 2001, kind: 1, value: 100 },
    ]
}

fn totals(items: Vec<(i64, i64)>) -> Vec<(i64, i64)> {
    match requested_stamina_items(&items, &effects()) {
        Ok(RequestedItems::Items(list)) => list,
        _ => panic!("expected counted items"),
    }
}

#[test]
fn request_totals_are_summed_by_ascending_id() {
    assert_eq!(totals(vec![(1002, 1), (1001, 2), (1002, 3)]), vec![(1001, 2), (1002, 4)]);
    assert_eq!(totals(vec![(1001, 1), (2001, 5), (1001, 0), (-1, 3), (9999, 1)]), vec![(1001, 1)]);
}

#[test]
fn request_without_recovery_items_is_refused() {
    assert!(matches!(requested_stamina_items(&vec![], &effects()), Ok(RequestedItems::NoItems)));
    assert!(matches!(
        requested_stamina_items(&vec![(2001, 1), (1001, 0)], &effects()),
        Ok(RequestedItems::NoRecoveryItems)
    ));
}

#[test]
fn request_total_overflow_fails() {
    assert!(requested_stamina_items(&vec![(1001, i64::MAX), (1001, 1)], &effects()).is_err());
}

#[test]
fn current_stamina_counts_full_recovery_periods() {
    assert_eq!(current_stamina(10, 1000, 1000 + 299), 10);
    assert_eq!(current_stamina(10, 1000, 1000 + 300), 11);
    assert_eq!(current_stamina(10, 1000, 1000 + 3000), 20);
    assert_eq!(current_stamina(990, 0, 300 * 100), MAX_STAMINA_OVERFLOW);
    assert_eq!(current_stamina(10, 1000, 1000 - 299), 10);
    assert_eq!(current_stamina(10, 1000, 1000 - 300), 9);
}

#[test]
fn using_items_recovers_and_spends() {
    let owned = vec![(1001, 5), (1002, 1)];
    match use_stamina_items(&vec![(1001, 2), (1002, 1)], &effects(), &owned, 100, 1000, 1000).unwrap() {
        StaminaUse::Used { stamina, heal_time, item_counts } => {
            assert_eq!(stamina, 100 + 60 + 499);
            assert_eq!(heal_time, 1000);
            assert_eq!(item_counts, vec![(1001, 3), (1002, 0)]);
        }
        _ => panic!("items should be used"),
    }
}

#[test]
fn using_items_caps_stamina() {
    let owned = vec![(1002, 3)];
    match use_stamina_items(&vec![(1002, 3)], &effects(), &owned, 500, 0, 0).unwrap() {
        StaminaUse::Used { stamina, .. } => assert_eq!(stamina, MAX_STAMINA_OVERFLOW),
        _ => panic!("items should be used"),
    }
}

#[test]
fn using_items_refusals() {
    let owned = vec![(1001, 1)];
    assert!(matches!(
        use_stamina_items(&vec![(1001, 1)], &effects(), &owned, 999, 0, 0),
        Ok(StaminaUse::AlreadyFull)
    ));
    assert!(matches!(
        use_stamina_items(&vec![(1001, 2)], &effects(), &owned, 10, 0, 0),
        Ok(StaminaUse::InsufficientItems)
    ));
    let drain = vec![ItemEffect { item_id: 1001, kind: 2, value: -5 }];
    assert!(matches!(
        use_stamina_items(&vec![(1001, 1)], &drain, &owned, 10, 0, 0),
        Ok(StaminaUse::NoRecovery)
    ));
    assert!(use_stamina_items(&vec![(3003, 1)], &effects(), &owned, 10, 0, 0).is_err());
}
