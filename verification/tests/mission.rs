use starpoint_service::mission::{
    completed_stages, latest_completed_stage, mission_in_scope, reported_pattern_progress,
};
use starpoint_service::mission::{reward_effect, reward_effects, MissionReward, RewardEffect};
use starpoint_service::mission::{battle_pattern_updates, PatternUpdate};
use starpoint_service::mission::{has_matching_scoped_mission, scoped_counter_value};
use starpoint_service::counts::Counts;
use starpoint_service::mission::{
    add_saturating, awake_progress, compute_progress, current_stage, is_scoped_battle_mission,
    minimum_co_clears, mission_character_id, mission_reward_event_key, quest_clear_progress,
    rank_degree, route, scoped_battle_counter_key, validated_pattern_values, ComputeContext,
    MissionCatalog, MissionDefinition, MissionEndpoint, MissionParameter, MissionStage,
    QuestProgressEntry, RankThreshold,
};

fn counts(pairs: &[(&str, i64)]) -> Counts {
    let mut c = Counts::new();
    for (k, v) in pairs {
        c.insert(k.to_string(), *v);
    }
    c
}

fn finished(quest_id: i64) -> QuestProgressEntry {
    QuestProgressEntry {
        quest_id,
        best_elapsed_time_ms: None,
        leader_character_id: None,
        multi_clear_count: None,
    }
}

fn context(quest_progress: Vec<(i64, Vec<QuestProgressEntry>)>) -> ComputeContext {
    ComputeContext {
        finished_quests: vec![],
        quest_progress,
        character_clears: Counts::new(),
        leader_clears: Counts::new(),
        leader_multi_clears: Counts::new(),
        leader_powerflips: Counts::new(),
        co_clears: Counts::new(),
        race_clears: Counts::new(),
        ss_rank_count: 0,
        rank_degree: 1,
        total_powerflips: 0,
        total_quest_clears: 0,
        total_stamina_used: 0,
        total_stories: 0,
    }
}

fn mission(id: i64, pattern: &str, quest_categories: Vec<i64>) -> MissionDefinition {
    MissionDefinition {
        id,
        pattern: Some(pattern.to_string()),
        degree_target: None,
        quest_categories,
        battle_kind: None,
        statistics_kind: None,
        leader_character_id: None,
        required_character_ids: vec![],
        required_races: vec![],
        stages: vec![],
    }
}

fn empty_catalog() -> MissionCatalog {
    MissionCatalog { categories: vec![], character_stories: vec![], rank_thresholds: vec![] }
}

#[test]
fn scopes_labyrinth_progress_to_matching_quest_categories() {
    let catalog = empty_catalog();
    let mission = mission(2, "single_battle_clear_count", vec![6, 14, 13, 20]);
    assert_eq!(mission.quest_categories, vec![6, 14, 13, 20]);

    let main_only = context(vec![(1, vec![finished(1_001_001)])]);
    assert_eq!(compute_progress(2, &mission, &main_only, &Counts::new(), 1, &catalog), 0);

    let labyrinth = context(vec![(1, vec![finished(1_001_001)]), (13, vec![finished(1_001)])]);
    let counters = counts(&[(&scoped_battle_counter_key("single_battle_clear_count", 13), 3)]);
    assert_eq!(compute_progress(2, &mission, &labyrinth, &counters, 1, &catalog), 3);
}

#[test]
fn scoped_battles_count_clears_without_counters() {
    let catalog = empty_catalog();
    let mission = mission(2, "single_battle_clear_count", vec![13, 14]);
    assert!(is_scoped_battle_mission(&mission));
    let ctx = context(vec![(13, vec![finished(1), finished(2)]), (14, vec![finished(3)])]);
    assert_eq!(compute_progress(2, &mission, &ctx, &Counts::new(), 0, &catalog), 3);
}

#[test]
fn plain_missions_never_fall_below_stored_progress() {
    let catalog = empty_catalog();
    let m = mission(7, "enhance_count", vec![]);
    let ctx = context(vec![]);
    assert_eq!(compute_progress(3, &m, &ctx, &counts(&[("enhance_count", 2)]), 5, &catalog), 5);
    assert_eq!(compute_progress(3, &m, &ctx, &counts(&[("enhance_count", 9)]), 5, &catalog), 9);
    assert_eq!(compute_progress(3, &m, &ctx, &Counts::new(), 4, &catalog), 4);
    let mut ctx = context(vec![]);
    ctx.total_quest_clears = 12;
    let m = mission(8, "single_battle_clear_count", vec![]);
    assert_eq!(compute_progress(1, &m, &ctx, &Counts::new(), 0, &catalog), 12);
}

#[test]
fn rank_degrees_and_stages() {
    let thresholds = vec![
        RankThreshold { degree: 2, threshold: 100 },
        RankThreshold { degree: 3, threshold: 300 },
    ];
    assert_eq!(rank_degree(99, &thresholds), 1);
    assert_eq!(rank_degree(100, &thresholds), 2);
    assert_eq!(rank_degree(1_000, &thresholds), 3);
    let stage = |stage, target| MissionStage { stage, reward_id: 0, target, rewards: vec![] };
    let mut m = mission(1, "x", vec![]);
    assert_eq!(current_stage(&m, 5), 1);
    m.stages = vec![stage(1, Some(10)), stage(2, Some(20))];
    assert_eq!(current_stage(&m, 5), 1);
    assert_eq!(current_stage(&m, 10), 2);
    assert_eq!(current_stage(&m, 25), 2);
}

#[test]
fn small_mission_rules() {
    assert_eq!(mission_character_id(1_110_013), "111001");
    assert_eq!(scoped_battle_counter_key("p", 13), "p:quest_category:13");
    assert_eq!(add_saturating(i64::MAX, 1), i64::MAX);
    assert_eq!(add_saturating(i64::MIN, -1), i64::MIN);
    assert_eq!(add_saturating(2, 3), 5);
    assert!(matches!(
        route("POST", "/api/index.php/mission/get_mission_progress"),
        Some(MissionEndpoint::GetProgress)
    ));
}

#[test]
fn quest_clear_missions_need_the_right_leader() {
    let mut entry = finished(1_028_004);
    entry.leader_character_id = Some(111_001);
    let ctx = context(vec![(2, vec![finished(1), entry])]);
    assert_eq!(quest_clear_progress(1_110_013, &ctx), Some(1));
    assert_eq!(quest_clear_progress(2_110_013, &ctx), Some(0));
    assert_eq!(quest_clear_progress(42, &ctx), None);
    let mut slow = finished(1_010_004);
    slow.leader_character_id = Some(231_001);
    slow.best_elapsed_time_ms = Some(90_001);
    assert_eq!(quest_clear_progress(2_310_013, &context(vec![(2, vec![slow])])), Some(0));
}

#[test]
fn co_clears_take_the_weakest_pair() {
    let co = counts(&[("151006_263002", 2), ("211001_231001", 4), ("151006_211001", 7)]);
    assert_eq!(minimum_co_clears(&vec![151_006, 263_002], &co), 2);
    assert_eq!(minimum_co_clears(&vec![231_001, 211_001], &co), 4);
    assert_eq!(minimum_co_clears(&vec![151_006, 211_001, 263_002], &co), 0);
    assert_eq!(minimum_co_clears(&vec![151_006], &co), 0);
}

#[test]
fn awake_progress_reads_the_catalog_mission() {
    let mut race = mission(2_310_012, "battle_clear_with_specific_races", vec![]);
    race.required_races = vec!["Human".to_string(), "Devil".to_string(), "Dragon".to_string()];
    let mut powerflip = mission(1_210_012, "battle_zone_statistics_count", vec![]);
    powerflip.statistics_kind = Some(1);
    powerflip.leader_character_id = Some(121_001);
    let quest = mission(1_110_013, "battle_clear_with_specific_characters", vec![]);
    let catalog = MissionCatalog {
        categories: vec![(9, vec![race, powerflip, quest])],
        character_stories: vec![],
        rank_thresholds: vec![],
    };
    let mut entry = finished(1_028_004);
    entry.leader_character_id = Some(111_001);
    let mut ctx = context(vec![(2, vec![entry])]);
    ctx.race_clears = counts(&[("Devil+Dragon+Human", 5)]);
    ctx.leader_powerflips = counts(&[("121001", 7)]);
    assert_eq!(awake_progress(2_310_012, &ctx, &catalog), 5);
    assert_eq!(awake_progress(1_210_012, &ctx, &catalog), 7);
    assert_eq!(awake_progress(1_110_013, &ctx, &catalog), 1);
    assert_eq!(awake_progress(9_999_999, &ctx, &catalog), 0);
}

#[test]
fn pattern_values_are_trimmed_and_checked() {
    let p = |progress_value, pattern: &str| MissionParameter {
        progress_value,
        mission_pattern: pattern.to_string(),
    };
    let values = validated_pattern_values(vec![p(3, "  a  "), p(4, "b")]).ok().unwrap();
    assert_eq!(values.get("a"), Some(3));
    assert_eq!(values.get("b"), Some(4));
    let e = validated_pattern_values(vec![p(3, "a"), p(-1, "b")]).err().unwrap();
    assert_eq!(e.body, "{\"error\":\"invalid_mission_parameter\"}");
    assert!(validated_pattern_values(vec![p(1, "   ")]).is_err());
    assert!(validated_pattern_values(vec![p(1, "a\u{7}b")]).is_err());
}

#[test]
fn reward_event_keys_hash_the_receipts() {
    assert_eq!(
        mission_reward_event_key(&vec![]),
        "mission:e3b0c44298fc1c149afbf4c8996fb92427ae41e4649b934ca495991b7852b855"
    );
    assert_eq!(
        mission_reward_event_key(&vec!["abc".to_string()]),
        "mission:ba7816bf8f01cfea414140de5dae2223b00361a396177a9cb410ff61f20015ad"
    );
    let a = mission_reward_event_key(&vec!["5:11010:1".to_string(), "5:11010:2".to_string()]);
    let b = mission_reward_event_key(&vec!["5:11010:2".to_string(), "5:11010:1".to_string()]);
    assert_ne!(a, b);
}

#[test]
fn mission_rewards_map_to_effects() {
    let r = |kind, amount, item_id, character_id, equipment_id| MissionReward {
        kind,
        amount,
        item_id,
        character_id,
        equipment_id,
    };
    assert_eq!(
        reward_effect(&r(1, 3, Some(10), None, None)),
        RewardEffect::AddItem { item_id: 10, amount: 3, history_kind: 1 }
    );
    assert_eq!(
        reward_effect(&r(2, 1, None, None, Some(300))),
        RewardEffect::AddItem { item_id: 300, amount: 1, history_kind: 6 }
    );
    assert_eq!(reward_effect(&r(1, 3, None, None, None)), RewardEffect::Nothing);
    assert_eq!(reward_effect(&r(3, 50, None, None, None)), RewardEffect::AddFreeMana(50));
    assert_eq!(
        reward_effect(&r(4, 1, None, Some(11010), None)),
        RewardEffect::GrantCharacter { character_id: 11010, amount: 1 }
    );
    assert_eq!(reward_effect(&r(5, 1000, None, None, None)), RewardEffect::AddExpPool(1000));
    assert_eq!(reward_effect(&r(9, 1, None, None, None)), RewardEffect::Nothing);
    assert_eq!(reward_effects(&vec![r(3, 1, None, None, None), r(5, 2, None, None, None)]).len(), 2);
}

#[test]
fn battles_update_mission_patterns() {
    assert!(battle_pattern_updates(true, false, 0, Some(3), None, Some(true), None).unwrap().is_empty());
    let u = battle_pattern_updates(true, true, 4, Some(3), Some(0), Some(true), Some(true)).unwrap();
    assert_eq!(
        u,
        vec![
            PatternUpdate::Record("multi_battle_clear_count", 5),
            PatternUpdate::Record("max_skill_chain_achievement", 3),
            PatternUpdate::Increment("multi_battle_host_count", 1),
            PatternUpdate::Increment("multi_battle_mvp_count", 1),
        ]
    );
    let u = battle_pattern_updates(false, true, 0, None, Some(9), Some(false), Some(true)).unwrap();
    assert_eq!(
        u,
        vec![
            PatternUpdate::Record("single_battle_clear_count", 1),
            PatternUpdate::Record("max_combo_achievement", 9),
        ]
    );
    assert!(battle_pattern_updates(false, true, i64::MAX, None, None, None, None).is_err());
}

#[test]
fn scoped_counters_start_from_recorded_clears() {
    assert_eq!(scoped_counter_value(Some(3), 0).unwrap(), 4);
    assert_eq!(scoped_counter_value(None, 5).unwrap(), 5);
    assert_eq!(scoped_counter_value(None, 0).unwrap(), 1);
    assert!(scoped_counter_value(Some(i64::MAX), 0).is_err());
    let missions = vec![
        mission(1, "single_battle_clear_count", vec![13]),
        mission(2, "multi_battle_clear_count", vec![14]),
    ];
    assert!(has_matching_scoped_mission(&missions, "single_battle_clear_count", 13));
    assert!(!has_matching_scoped_mission(&missions, "single_battle_clear_count", 14));
    assert!(has_matching_scoped_mission(&missions, "multi_battle_clear_count", 14));
    assert!(!has_matching_scoped_mission(&missions, "multi_battle_clear_count", 0));
}

fn staged(id: i64, targets: &[(i64, Option<i64>)]) -> MissionDefinition {
    let mut m = mission(id, "used_stamina_count", vec![]);
    m.stages = targets
        .iter()
        .map(|(stage, target)| MissionStage {
            stage: *stage,
            reward_id: stage * 100,
            target: *target,
            rewards: vec![],
        })
        .collect();
    m
}

#[test]
fn regular_missions_complete_stages_up_to_the_current_one() {
    let m = staged(7, &[(1, Some(10)), (2, Some(20)), (3, Some(30))]);
    // progress 25: current stage 3, stages 1 and 2 reached; stage 1 was cleared before
    let done = completed_stages(1, &m, 25, 0, 1);
    assert_eq!(done, vec![(2, 200)]);
    assert_eq!(latest_completed_stage(&done), 2);
    assert_eq!(completed_stages(1, &m, 25, 0, 0), vec![(1, 100), (2, 200)]);
    assert_eq!(completed_stages(1, &m, 35, 0, 0), vec![(1, 100), (2, 200), (3, 300)]);
    assert_eq!(completed_stages(1, &m, 5, 0, 0), vec![]);
    assert_eq!(latest_completed_stage(&vec![]), 0);
}

#[test]
fn other_missions_complete_the_stages_a_report_crosses() {
    let m = staged(8, &[(1, Some(10)), (2, None), (3, Some(30))]);
    assert_eq!(completed_stages(2, &m, 30, 10, 0), vec![(3, 300)]);
    assert_eq!(completed_stages(2, &m, 30, 9, 0), vec![(1, 100), (3, 300)]);
    assert_eq!(completed_stages(2, &m, 29, 10, 0), vec![]);
}

#[test]
fn scoped_missions_move_only_for_their_categories() {
    let scoped = mission(2, "single_battle_clear_count", vec![6, 13]);
    let plain = mission(3, "used_stamina_count", vec![]);
    assert!(mission_in_scope(&plain, None));
    assert!(mission_in_scope(&plain, Some(13)));
    assert!(is_scoped_battle_mission(&scoped));
    assert!(!mission_in_scope(&scoped, None));
    assert!(mission_in_scope(&scoped, Some(13)));
    assert!(!mission_in_scope(&scoped, Some(1)));
}

#[test]
fn reported_pattern_counters_never_fall() {
    assert_eq!(reported_pattern_progress(5, Some(3)), 5);
    assert_eq!(reported_pattern_progress(2, Some(3)), 3);
    assert_eq!(reported_pattern_progress(-2, None), 0);
    assert_eq!(reported_pattern_progress(4, None), 4);
}

#[test]
fn event_key_spells_the_digest_in_hex() {
    assert_eq!(
        starpoint_service::mission::event_key_of_digest(&[0x00, 0x0f, 0xa5, 0xff]),
        "mission:000fa5ff"
    );
    assert_eq!(starpoint_service::mission::event_key_of_digest(&[]), "mission:");
}
