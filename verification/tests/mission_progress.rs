use starpoint_service::counts::Counts;
use starpoint_service::mission::progress::{
    character_filter, load_awake_summary, plan_mission_progress, progress_request_valid, requested_categories,
    stage_receipt_text, stored_progress, MissionProgressEntry, RequestedCategory,
};
use starpoint_service::mission::{
    reward_effects, ComputeContext, MissionCatalog, MissionDefinition, MissionReward,
    MissionStage, RewardEffect,
};

fn context() -> ComputeContext {
    ComputeContext {
        finished_quests: vec![],
        quest_progress: vec![],
        character_clears: Counts::new(),
        leader_clears: Counts::new(),
        leader_multi_clears: Counts::new(),
        leader_powerflips: Counts::new(),
        co_clears: Counts::new(),
        race_clears: Counts::new(),
        ss_rank_count: 0,
        rank_degree: 1,
        total_powerflips: 0,
        total_quest_clears: 0,
        total_stamina_used: 25,
        total_stories: 0,
    }
}

fn reward(amount: i64) -> MissionReward {
    MissionReward { kind: 1, amount, item_id: Some(9), character_id: None, equipment_id: None }
}

fn mission(id: i64, pattern: &str, targets: &[(i64, i64)]) -> MissionDefinition {
    MissionDefinition {
        id,
        pattern: Some(pattern.to_string()),
        degree_target: None,
        quest_categories: vec![],
        battle_kind: None,
        statistics_kind: None,
        leader_character_id: None,
        required_character_ids: vec![],
        required_races: vec![],
        stages: targets
            .iter()
            .map(|(stage, target)| MissionStage {
                stage: *stage,
                reward_id: stage * 10,
                target: Some(*target),
                rewards: vec![reward(*stage)],
            })
            .collect(),
    }
}

fn catalog() -> MissionCatalog {
    MissionCatalog {
        categories: vec![
            (1, vec![mission(101, "used_stamina_count", &[(1, 10), (2, 20), (3, 30)])]),
            (2, vec![mission(201, "login_count", &[(1, 1), (2, 5)])]),
        ],
        character_stories: vec![],
        rank_thresholds: vec![],
    }
}

fn category(category: i64) -> RequestedCategory {
    RequestedCategory { category, character_id: None }
}

#[test]
fn progress_requests_default_to_the_first_category() {
    assert!(progress_request_valid(1, 0));
    assert!(!progress_request_valid(0, 0));
    assert!(!progress_request_valid(1, -1));
    let c = requested_categories(None).ok().unwrap();
    assert_eq!(c.len(), 1);
    assert_eq!(c[0].category, 1);
    let err = requested_categories(Some(vec![category(1), category(0)])).err().unwrap();
    assert_eq!(err.body, "{\"error\":\"invalid_request_body\"}");
}

#[test]
fn the_last_named_character_narrows_a_category() {
    let list = vec![
        RequestedCategory { category: 9, character_id: Some("100".to_string()) },
        category(1),
        RequestedCategory { category: 9, character_id: Some("200".to_string()) },
    ];
    assert_eq!(character_filter(&list, 9), Some("200"));
    assert_eq!(character_filter(&list, 1), None);
}

#[test]
fn stored_progress_defaults_to_zero() {
    let stored = vec![(1, 101, 7), (2, 201, 3)];
    assert_eq!(stored_progress(&stored, 2, 201), 3);
    assert_eq!(stored_progress(&stored, 1, 201), 0);
}

#[test]
fn receipts_name_category_mission_and_stage() {
    assert_eq!(stage_receipt_text(1, 101, 2), "1:101:2");
    assert_eq!(stage_receipt_text(9, -4, 0), "9:-4:0");
}

#[test]
fn progress_pays_each_reached_stage_once() {
    let mut counters = Counts::new();
    counters.insert("login_count".to_string(), 4);
    let requested = vec![category(1), category(2), category(1), category(7)];
    let held = vec!["1:101:1".to_string()];
    let plan = plan_mission_progress(&requested, &catalog(), &context(), &counters, &vec![], &held);
    assert_eq!(
        plan.progress_list,
        vec![
            MissionProgressEntry { category: 1, mission_id: 101, progress: 25, stage: 3 },
            MissionProgressEntry { category: 2, mission_id: 201, progress: 4, stage: 2 },
            MissionProgressEntry { category: 1, mission_id: 101, progress: 25, stage: 3 },
        ]
    );
    let receipts: Vec<&str> = plan.grants.iter().map(|g| g.receipt.as_str()).collect();
    assert_eq!(receipts, vec!["1:101:2", "2:201:1"]);
    assert_eq!(plan.grants[0].stage, 2);
    assert_eq!(plan.grants[0].progress, 25);
    assert_eq!(plan.grants[0].rewards, vec![reward(2)]);
    assert_eq!(plan.grants[1].category, 2);
}

#[test]
fn stored_progress_keeps_missions_from_falling() {
    let plan = plan_mission_progress(
        &vec![category(2)],
        &catalog(),
        &context(),
        &Counts::new(),
        &vec![(2, 201, 6)],
        &vec![],
    );
    assert_eq!(plan.progress_list[0].progress, 6);
    assert_eq!(plan.grants.len(), 2);
}

fn awake_mission(id: i64, targets: &[(i64, i64)]) -> MissionDefinition {
    let mut m = mission(id, "", targets);
    m.pattern = None;
    m
}

#[test]
fn awake_summary_marks_characters_with_every_stage_received() {
    let catalog = MissionCatalog {
        categories: vec![(
            9,
            vec![
                awake_mission(1002, &[(1, 3), (2, 5)]),
                awake_mission(1012, &[(1, 1)]),
                awake_mission(2002, &[(1, 10)]),
            ],
        )],
        character_stories: vec![],
        rank_thresholds: vec![],
    };
    let mut ctx = context();
    ctx.character_clears.insert("100".to_string(), 5);
    ctx.character_clears.insert("200".to_string(), 2);
    ctx.character_clears.insert("101".to_string(), 9);
    let owned = vec!["100".to_string(), "200".to_string(), "300".to_string()];
    let summary = load_awake_summary(&owned, &catalog, &ctx, &Counts::new(), &vec![]);
    assert_eq!(summary.active_missions.len(), 2);
    assert_eq!(summary.active_missions[0].mission_id, 1002);
    assert_eq!(summary.active_missions[0].progress, 5);
    assert_eq!(summary.active_missions[0].stages, vec![(1, true), (2, true)]);
    assert_eq!(summary.active_missions[1].mission_id, 2002);
    assert_eq!(summary.active_missions[1].stages, vec![(1, false)]);
    assert_eq!(summary.awakened, vec!["100".to_string()]);
}

#[test]
fn applies_mission_rewards_once_per_receipt() {
    // The rank mission and the stage of mission 11010 as the master has them.
    let mut rank_mission = mission(1_000, "rank_degree", &[]);
    rank_mission.pattern = None;
    rank_mission.degree_target = Some(50);
    let mut level_mission = mission(11_010, "user_level", &[(1, 1)]);
    level_mission.pattern = None;
    level_mission.stages[0].rewards = vec![MissionReward {
        kind: 1,
        amount: 5,
        item_id: Some(101),
        character_id: None,
        equipment_id: None,
    }];
    let catalog = MissionCatalog {
        categories: vec![(5, vec![rank_mission, level_mission])],
        character_stories: vec![],
        rank_thresholds: vec![],
    };
    assert_eq!(catalog.categories[0].1[0].degree_target, Some(50));
    let stage = &catalog.categories[0].1[1].stages[0];
    assert_eq!(stage.target, Some(1));

    let mut items = Counts::new();
    let mut free_mana: i64 = 10;
    let mut held: Vec<String> = Vec::new();
    for _ in 0..2 {
        let plan = plan_mission_progress(
            &vec![category(5)],
            &catalog,
            &context(),
            &Counts::new(),
            &vec![(5, 11_010, 1)],
            &held,
        );
        for grant in plan.grants {
            for effect in reward_effects(&grant.rewards) {
                match effect {
                    RewardEffect::AddItem { item_id, amount, .. } => {
                        let key = item_id.to_string();
                        let total = items.get_or_zero(&key) + amount;
                        items.insert(key, total);
                    }
                    RewardEffect::AddFreeMana(amount) => free_mana += amount,
                    _ => {}
                }
            }
            held.push(grant.receipt);
        }
    }
    assert_eq!(held, vec!["5:11010:1".to_owned()]);
    assert_eq!(items.get("101"), Some(5));
    assert_eq!(free_mana, 10);
}
