use starpoint_service::counts::Counts;
use starpoint_service::mission::context::{
    build_context, StoredClearCounts, StoredQuestCategory, StoredQuestEntry, StoredUserInfo,
};
use starpoint_service::mission::{MissionCatalog, QuestProgressEntry, RankThreshold};

fn entry(quest_id: i64, finished: bool) -> StoredQuestEntry {
    StoredQuestEntry {
        finished: Some(finished),
        quest_id: Some(quest_id),
        best_elapsed_time_ms: None,
        leader_character_id: None,
        multi_clear_count: None,
        clear_rank: None,
    }
}

fn category(key: &str, entries: Vec<StoredQuestEntry>) -> StoredQuestCategory {
    StoredQuestCategory { category: key.to_owned(), entries: Some(entries) }
}

fn clear_counts() -> StoredClearCounts {
    let mut character_clears = Counts::new();
    character_clears.insert("151006".to_owned(), 3);
    StoredClearCounts {
        character_clears,
        leader_clears: Counts::new(),
        leader_multi_clears: Counts::new(),
        leader_powerflips: Counts::new(),
        co_clears: Counts::new(),
        race_clears: Counts::new(),
    }
}

fn catalog() -> MissionCatalog {
    MissionCatalog {
        categories: vec![],
        character_stories: vec![],
        rank_thresholds: vec![
            RankThreshold { degree: 2, threshold: 100 },
            RankThreshold { degree: 3, threshold: 300 },
        ],
    }
}

fn info(rank_point: Option<i64>) -> StoredUserInfo {
    StoredUserInfo { rank_point, stamina_used: None, powerflips: None }
}

#[test]
fn gathers_a_finished_battle_quest() {
    let mut quest = entry(1_028_004, true);
    quest.best_elapsed_time_ms = Some(80_000);
    quest.leader_character_id = Some(111_001);
    let stored = vec![category("2", vec![quest])];

    let ctx = build_context(&stored, Some(info(Some(0))), clear_counts(), &catalog(), &Counts::new())
        .ok()
        .unwrap();

    assert_eq!(ctx.finished_quests, vec![1_028_004]);
    assert_eq!(
        ctx.quest_progress,
        vec![(
            2,
            vec![QuestProgressEntry {
                quest_id: 1_028_004,
                best_elapsed_time_ms: Some(80_000),
                leader_character_id: Some(111_001),
                multi_clear_count: None,
            }]
        )]
    );
    assert_eq!(ctx.total_quest_clears, 1);
    assert_eq!(ctx.total_stories, 0);
    assert_eq!(ctx.ss_rank_count, 0);
    assert_eq!(ctx.rank_degree, 1);
    assert_eq!(ctx.total_stamina_used, 0);
    assert_eq!(ctx.total_powerflips, 0);
    assert_eq!(ctx.character_clears.get("151006"), Some(3));
}

#[test]
fn missing_user_info_is_an_error() {
    let err = build_context(&vec![], None, clear_counts(), &catalog(), &Counts::new())
        .err()
        .unwrap();
    assert_eq!(err.message, "stored CN user_info data is missing");
}

#[test]
fn counts_stories_ss_clears_and_skips_unfinished_entries() {
    let mut ss = entry(30_001, true);
    ss.clear_rank = Some(6);
    let mut no_id = entry(0, true);
    no_id.quest_id = None;
    let stored = vec![
        category("3", vec![ss, entry(30_002, false), no_id]),
        category("03", vec![entry(30_003, true)]),
        StoredQuestCategory { category: "4".to_owned(), entries: None },
        category("story", vec![entry(40_001, true)]),
    ];

    let ctx = build_context(&stored, Some(info(Some(300))), clear_counts(), &catalog(), &Counts::new())
        .ok()
        .unwrap();

    assert_eq!(ctx.total_quest_clears, 4);
    assert_eq!(ctx.total_stories, 2);
    assert_eq!(ctx.ss_rank_count, 1);
    assert_eq!(ctx.rank_degree, 3);
    let mut finished = ctx.finished_quests.clone();
    finished.sort();
    assert_eq!(finished, vec![30_001, 30_003, 40_001]);
    assert_eq!(ctx.quest_progress.len(), 1);
    assert_eq!(ctx.quest_progress[0].0, 3);
    let ids: Vec<i64> = ctx.quest_progress[0].1.iter().map(|e| e.quest_id).collect();
    assert_eq!(ids, vec![30_001, 30_003]);
}

#[test]
fn stamina_falls_back_to_the_counter() {
    let mut counters = Counts::new();
    counters.insert("used_stamina_count".to_owned(), 42);
    let from_counter = build_context(&vec![], Some(info(None)), clear_counts(), &catalog(), &counters)
        .ok()
        .unwrap();
    assert_eq!(from_counter.total_stamina_used, 42);

    let stored_info = StoredUserInfo { rank_point: None, stamina_used: Some(7), powerflips: Some(9) };
    let stored = build_context(&vec![], Some(stored_info), clear_counts(), &catalog(), &counters)
        .ok()
        .unwrap();
    assert_eq!(stored.total_stamina_used, 7);
    assert_eq!(stored.total_powerflips, 9);
}
