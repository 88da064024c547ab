use starpoint_service::mana::cost::{awake_cost_items, awake_slot, parse_comma_values};

#[test]
fn node_kinds_pick_their_awakening_slot() {
    assert_eq!(awake_slot("1"), 1);
    assert_eq!(awake_slot("2"), 2);
    assert_eq!(awake_slot("3"), 3);
    assert_eq!(awake_slot(""), 4);
    assert_eq!(awake_slot("7"), 4);
}

#[test]
fn comma_lists_read_like_split_and_parse() {
    assert_eq!(parse_comma_values(""), vec![0]);
    assert_eq!(parse_comma_values("5"), vec![5]);
    assert_eq!(parse_comma_values("1,22,x,,-3"), vec![1, 22, 0, 0, -3]);
    assert_eq!(parse_comma_values("7,"), vec![7, 0]);
}

#[test]
fn awakening_items_sum_per_item_in_id_order() {
    assert_eq!(awake_cost_items("30,10,30", "2,5,4"), vec![(10, 5), (30, 6)]);
    assert_eq!(awake_cost_items("30,0,20,40", "1,9,0"), vec![(30, 1)]);
    assert_eq!(awake_cost_items("", ""), vec![]);
    assert_eq!(awake_cost_items("5,6", "1"), vec![(5, 1)]);
}
