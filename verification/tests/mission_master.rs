use starpoint_service::mission::master::{mission_catalog_from_master, sort_stages, MissionMaster};
use starpoint_service::mission::{MissionDefinition, MissionStage, RankThreshold};

fn stage(stage: i64, target: Option<i64>) -> MissionStage {
    MissionStage { stage, reward_id: stage, target, rewards: vec![] }
}

fn mission(id: i64, stages: Vec<MissionStage>) -> MissionDefinition {
    MissionDefinition {
        id,
        pattern: None,
        degree_target: None,
        quest_categories: vec![],
        battle_kind: None,
        statistics_kind: None,
        leader_character_id: None,
        required_character_ids: vec![],
        required_races: vec![],
        stages,
    }
}

fn master(keys: &[&str]) -> MissionMaster {
    MissionMaster {
        categories: keys
            .iter()
            .enumerate()
            .map(|(i, k)| (k.to_string(), vec![mission(i as i64 + 1, vec![stage(1, Some(1))])]))
            .collect(),
        character_stories: vec![("111001".to_owned(), vec![1, 2])],
        rank_thresholds: vec![RankThreshold { degree: 2, threshold: 100 }],
    }
}

fn error_of(keys: &[&str]) -> String {
    mission_catalog_from_master(master(keys)).err().unwrap().message
}

#[test]
fn stages_are_stably_sorted_by_target() {
    let sorted = sort_stages(vec![
        stage(3, Some(30)),
        stage(1, Some(10)),
        stage(4, Some(10)),
        stage(2, Some(20)),
    ]);
    let order: Vec<i64> = sorted.iter().map(|s| s.stage).collect();
    assert_eq!(order, vec![1, 4, 2, 3]);
}

#[test]
fn stages_without_targets_keep_their_order() {
    let sorted = sort_stages(vec![stage(2, None), stage(1, None), stage(3, None)]);
    let order: Vec<i64> = sorted.iter().map(|s| s.stage).collect();
    assert_eq!(order, vec![2, 1, 3]);
}

#[test]
fn catalog_reads_category_keys_and_sorts_stages() {
    let mut m = master(&["1", "9"]);
    m.categories[1].1[0].stages = vec![stage(2, Some(5)), stage(1, Some(1))];
    let catalog = mission_catalog_from_master(m).ok().unwrap();
    let keys: Vec<i64> = catalog.categories.iter().map(|(k, _)| *k).collect();
    assert_eq!(keys, vec![1, 9]);
    let stages: Vec<i64> = catalog.categories[1].1[0].stages.iter().map(|s| s.stage).collect();
    assert_eq!(stages, vec![1, 2]);
    assert_eq!(catalog.character_stories, vec![("111001".to_owned(), vec![1, 2])]);
    assert_eq!(catalog.rank_thresholds.len(), 1);
}

#[test]
fn a_later_key_for_the_same_category_replaces_the_earlier() {
    let catalog = mission_catalog_from_master(master(&["05", "5"])).ok().unwrap();
    assert_eq!(catalog.categories.len(), 1);
    assert_eq!(catalog.categories[0].0, 5);
    assert_eq!(catalog.categories[0].1[0].id, 2);
}

#[test]
fn unreadable_category_keys_fail_the_catalog() {
    assert_eq!(error_of(&["1", "x5", ""]), "invalid CN mission category x5: invalid digit found in string");
    assert_eq!(error_of(&[""]), "invalid CN mission category : cannot parse integer from empty string");
    assert_eq!(error_of(&["+"]), "invalid CN mission category +: invalid digit found in string");
    assert_eq!(
        error_of(&["99999999999999999999x"]),
        "invalid CN mission category 99999999999999999999x: number too large to fit in target type"
    );
    assert_eq!(
        error_of(&["-9223372036854775809"]),
        "invalid CN mission category -9223372036854775809: number too small to fit in target type"
    );
    for key in ["x5", "", "+", "99999999999999999999x", "-9223372036854775809", "1.5"] {
        let expected = key.parse::<i64>().err().unwrap().to_string();
        assert!(error_of(&[key]).ends_with(&expected));
    }
}
