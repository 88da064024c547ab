use starpoint_service::mana::{
    awake_mana_nodes, bond_grant, condition_timestamp_text, deduct_mana, in_open_window,
    learn_mana_nodes, parse_condition_timestamp, raise_board_awake_levels, refusal_response,
    route, visible_board_index, AwakeLocation, AwakeNode, AwakeRefusal, ManaEndpoint,
    ManaItemCost, ManaNodeCost, ManaRefusal,
};

fn item(id: i64, amount: i64) -> ManaItemCost {
    ManaItemCost { item_id: Some(id), amount: Some(amount) }
}

fn board() -> Vec<ManaNodeCost> {
    vec![
        ManaNodeCost { node_id: 1, mana_cost: Some(100), items: vec![item(7, 2)] },
        ManaNodeCost { node_id: 2, mana_cost: Some(50), items: vec![item(7, 1), item(8, 5)] },
        ManaNodeCost { node_id: 3, mana_cost: None, items: vec![] },
        ManaNodeCost {
            node_id: 4,
            mana_cost: Some(0),
            items: vec![ManaItemCost { item_id: None, amount: Some(1) }],
        },
    ]
}

#[test]
fn mana_is_paid_free_first() {
    assert_eq!(deduct_mana(100, 50, 30), Some((70, 50)));
    assert_eq!(deduct_mana(100, 50, 120), Some((0, 30)));
    assert_eq!(deduct_mana(100, 50, 150), Some((0, 0)));
    assert_eq!(deduct_mana(100, 50, 151), None);
    assert_eq!(deduct_mana(-1, i64::MAX, i64::MAX), None);
}

#[test]
fn learning_nodes_pays_mana_and_items() {
    let held = vec![(7, 10), (8, 5)];
    let plan = learn_mana_nodes(&board(), &vec![], &vec![1, 2, 1], Some(120), Some(100), &held)
        .unwrap();
    assert_eq!(plan.learned, vec![1, 2]);
    assert_eq!(plan.mana_cost, 150);
    assert_eq!((plan.free_mana, plan.paid_mana), (0, 70));
    assert_eq!(plan.items, vec![(7, 7), (8, 0)]);
    assert!(!plan.board_complete);
}

#[test]
fn learning_completes_a_board() {
    let small = vec![ManaNodeCost { node_id: 1, mana_cost: Some(1), items: vec![] }];
    let plan = learn_mana_nodes(&small, &vec![], &vec![1], Some(1), Some(0), &vec![]).unwrap();
    assert!(plan.board_complete);
    assert_eq!((plan.free_mana, plan.paid_mana), (0, 0));
}

#[test]
fn learning_refusals() {
    let held = vec![(7, 10), (8, 5)];
    let b = board();
    assert_eq!(
        learn_mana_nodes(&b, &vec![2], &vec![1, 2], Some(500), Some(0), &held).err(),
        Some(ManaRefusal::AlreadyUnlocked)
    );
    assert_eq!(
        learn_mana_nodes(&b, &vec![], &vec![9], Some(500), Some(0), &held).err(),
        Some(ManaRefusal::NodeNotFound)
    );
    assert_eq!(
        learn_mana_nodes(&b, &vec![], &vec![3], Some(500), Some(0), &held).err(),
        Some(ManaRefusal::CostMissing)
    );
    assert_eq!(
        learn_mana_nodes(&b, &vec![], &vec![4], Some(500), Some(0), &held).err(),
        Some(ManaRefusal::ItemIdInvalid)
    );
    assert_eq!(
        learn_mana_nodes(&b, &vec![], &vec![1], Some(50), Some(49), &held).err(),
        Some(ManaRefusal::NotEnoughMana)
    );
    assert_eq!(
        learn_mana_nodes(&b, &vec![], &vec![2], Some(500), Some(0), &vec![(7, 1)]).err(),
        Some(ManaRefusal::NotEnoughItem)
    );
    assert_eq!(
        learn_mana_nodes(&b, &vec![], &vec![1], None, Some(0), &held).err(),
        Some(ManaRefusal::FreeManaMissing)
    );
    let r = refusal_response(ManaRefusal::NotEnoughMana).ok().unwrap();
    assert_eq!(r.body, "{\"error\":\"not_enough_mana\"}");
    let e = refusal_response(ManaRefusal::CostOverflow).err().unwrap();
    assert_eq!(e.message, "CN Mana cost exceeds supported range");
}

#[test]
fn bond_token_of_a_completed_board() {
    let tokens = vec![Some(1), Some(0)];
    let g = bond_grant(true, 2, &tokens, 0);
    assert_eq!((g.token_index, g.evolution_level), (Some(1), 1));
    let g = bond_grant(true, 1, &tokens, 0);
    assert_eq!((g.token_index, g.evolution_level), (None, 0));
    let g = bond_grant(false, 2, &tokens, 0);
    assert_eq!(g.token_index, None);
    let g = bond_grant(true, 2, &tokens, 3);
    assert_eq!((g.token_index, g.evolution_level), (Some(1), 3));
    let g = bond_grant(true, 3, &tokens, 0);
    assert_eq!(g.token_index, None);
}

fn awake_catalog() -> Vec<AwakeNode> {
    vec![
        AwakeNode {
            node_id: 1,
            location: Some(AwakeLocation { board_index: 2, pedestal_size: 1 }),
            mana_amount: Some(40),
            items: vec![(7, 2)],
        },
        AwakeNode {
            node_id: 2,
            location: Some(AwakeLocation { board_index: 2, pedestal_size: 3 }),
            mana_amount: Some(60),
            items: vec![(7, 1), (9, 4)],
        },
        AwakeNode { node_id: 3, location: None, mana_amount: Some(1), items: vec![] },
    ]
}

#[test]
fn awakening_nodes() {
    let held = vec![(7, 5), (9, 4)];
    let plan = awake_mana_nodes(
        &awake_catalog(),
        &vec![1, 2, 3],
        &vec![(1, 2)],
        2,
        &vec![1, 2, 2],
        Some(10),
        Some(100),
        &held,
    )
    .unwrap();
    assert_eq!(plan.answered, vec![(1, 2), (2, 2)]);
    assert_eq!(plan.boards, vec![2]);
    assert_eq!(plan.mana_cost, 60);
    assert_eq!((plan.free_mana, plan.paid_mana), (0, 50));
    assert_eq!(plan.items, vec![(7, 4), (9, 0)]);
    assert_eq!(
        awake_mana_nodes(&awake_catalog(), &vec![1], &vec![], 1, &vec![2], Some(0), Some(0), &held)
            .err(),
        Some(AwakeRefusal::NotUnlocked)
    );
    assert_eq!(
        awake_mana_nodes(&awake_catalog(), &vec![3], &vec![], 1, &vec![3], Some(0), Some(0), &held)
            .err(),
        Some(AwakeRefusal::CostNotFound)
    );
}

#[test]
fn board_awake_levels_only_rise() {
    let stored = vec![(1, 3), (2, 1)];
    let raised = raise_board_awake_levels(&stored, &vec![2, 5], 2);
    assert!(raised.contains(&(1, 3)));
    assert!(raised.contains(&(2, 2)));
    assert!(raised.contains(&(5, 2)));
    let kept = raise_board_awake_levels(&stored, &vec![1], 2);
    assert!(kept.contains(&(1, 3)));
}

#[test]
fn condition_times_are_japan_local() {
    assert_eq!(condition_timestamp_text("(None)"), None);
    assert_eq!(
        condition_timestamp_text("2025-02-13 12:00:00"),
        Some("2025-02-13T12:00:00.000Z".to_string())
    );
    assert_eq!(parse_condition_timestamp("(None)", Some(5)).ok(), Some(None));
    assert_eq!(
        parse_condition_timestamp("2025-02-13 12:00:00", Some(32_400_000)).ok(),
        Some(Some(0))
    );
    assert!(parse_condition_timestamp("x", None).is_err());
    assert!(parse_condition_timestamp("x", Some(i64::MIN)).is_err());
}

#[test]
fn board_two_opens_in_its_window() {
    assert!(in_open_window(10, Some(10_000), Some(10_000)));
    assert!(!in_open_window(9, Some(10_000), None));
    assert!(!in_open_window(11, None, Some(10_999)));
    assert!(in_open_window(i64::MAX, None, None));
    assert_eq!(visible_board_index(3, true), 2);
    assert_eq!(visible_board_index(3, false), 1);
    assert_eq!(visible_board_index(0, true), 1);
    assert_eq!(visible_board_index(2, true), 2);
}

#[test]
fn mana_routes() {
    assert!(matches!(
        route("POST", "/api/index.php/character/learn_mana_node"),
        Some(ManaEndpoint::LearnManaNode)
    ));
    assert!(route("GET", "/api/index.php/character/learn_mana_node").is_none());
}

#[test]
fn negative_costs_are_planned_unless_the_deduction_overflows() {
    let refund = vec![ManaNodeCost { node_id: 4, mana_cost: Some(-30), items: vec![] }];
    let plan = learn_mana_nodes(&refund, &vec![], &vec![4], Some(10), Some(0), &vec![]).unwrap();
    assert_eq!((plan.free_mana, plan.paid_mana), (40, 0));
    assert!(!starpoint_service::mana::learn_cost_overflows(&refund, &vec![], &vec![4], Some(10), Some(0)));
    assert!(starpoint_service::mana::learn_cost_overflows(&refund, &vec![], &vec![4], Some(i64::MAX - 5), Some(0)));
    assert!(!starpoint_service::mana::learn_cost_overflows(&refund, &vec![], &vec![4], Some(i64::MAX - 5), None));
    assert!(!starpoint_service::mana::learn_cost_overflows(&board(), &vec![], &vec![1], Some(i64::MAX), Some(0)));
    let awake_refund = vec![AwakeNode {
        node_id: 5,
        location: Some(AwakeLocation { board_index: 1, pedestal_size: 1 }),
        mana_amount: Some(-1),
        items: vec![],
    }];
    let overflows = starpoint_service::mana::awake_cost_overflows;
    assert!(overflows(&awake_refund, &vec![5], &vec![], 1, &vec![5], Some(i64::MAX), Some(0)));
    assert!(!overflows(&awake_refund, &vec![5], &vec![], 1, &vec![5], Some(7), Some(0)));
    assert!(!overflows(&awake_refund, &vec![5], &vec![(5, 1)], 1, &vec![5], Some(i64::MAX), Some(0)));
}

#[test]
fn projects_character_specific_mana_board_time_window() {
    // Character 111147 has a second board that opens at noon Japan time on
    // 2025-02-13, that is 03:00 UTC; the condition reads as local time.
    let start = parse_condition_timestamp("2025-02-13 12:00:00", Some(1_739_448_000_000)).unwrap();
    assert_eq!(start, Some(1_739_415_600_000));
    let before_open = 1_739_415_599_000 / 1_000;
    let at_open = 1_739_415_600_000 / 1_000;
    assert_eq!(visible_board_index(2, in_open_window(before_open, start, None)), 1);
    assert_eq!(visible_board_index(2, in_open_window(at_open, start, None)), 2);
}
