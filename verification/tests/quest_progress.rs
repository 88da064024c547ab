use starpoint_service::player::quest::{
    complete_tutorial_quests, finish_quest_progress_entry, is_tutorial_completed,
    normalize_quest_list, normalize_quest_progress_entry, ui_tutorial_triggered, StoredBool,
    StoredInt, StoredQuestProgress,
};

fn raw(quest_id: i64) -> StoredQuestProgress {
    StoredQuestProgress {
        is_object: true,
        quest_id: Some(quest_id),
        finished: StoredBool::Other,
        unlocked: StoredBool::Other,
        high_score: StoredInt::Other,
        clear_rank: StoredInt::Other,
        best_elapsed_time_ms: StoredInt::Other,
    }
}

#[test]
fn entries_are_brought_to_shape() {
    let n = normalize_quest_progress_entry(raw(7)).unwrap();
    assert_eq!(n.finished, StoredBool::Bool(false));
    assert_eq!(n.unlocked, StoredBool::Bool(false));
    assert_eq!(n.high_score, StoredInt::Int(0));
    assert_eq!(n.clear_rank, StoredInt::Null);
    assert_eq!(n.best_elapsed_time_ms, StoredInt::Null);
    let mut done = raw(8);
    done.finished = StoredBool::Bool(true);
    done.high_score = StoredInt::Null;
    assert_eq!(normalize_quest_progress_entry(done).unwrap().clear_rank, StoredInt::Int(5));
    assert_eq!(normalize_quest_progress_entry(done).unwrap().high_score, StoredInt::Int(0));
    let mut no_id = raw(0);
    no_id.quest_id = None;
    assert_eq!(normalize_quest_progress_entry(no_id).unwrap_err().message, "stored CN main quest id is invalid");
    let mut not_object = raw(1);
    not_object.is_object = false;
    assert_eq!(
        normalize_quest_list(&vec![raw(1), not_object, no_id]).unwrap_err().message,
        "stored CN main quest progress entry is invalid"
    );
    assert_eq!(normalize_quest_list(&vec![raw(1), raw(2)]).unwrap().len(), 2);
}

#[test]
fn finishing_a_quest_keeps_the_best_results() {
    let mut stored = raw(5);
    stored.high_score = StoredInt::Int(900);
    stored.clear_rank = StoredInt::Int(7);
    stored.best_elapsed_time_ms = StoredInt::Int(40_000);
    let mut list = vec![raw(4), stored];
    finish_quest_progress_entry(&mut list, 5, 500, Some(30_000));
    assert_eq!(list[1].finished, StoredBool::Bool(true));
    assert_eq!(list[1].high_score, StoredInt::Int(900));
    assert_eq!(list[1].clear_rank, StoredInt::Int(7));
    assert_eq!(list[1].best_elapsed_time_ms, StoredInt::Int(30_000));
    assert_eq!(list[0], raw(4));
    finish_quest_progress_entry(&mut list, 6, 10, None);
    assert_eq!(list.len(), 3);
    assert_eq!(list[2].quest_id, Some(6));
    assert_eq!(list[2].clear_rank, StoredInt::Int(5));
    assert_eq!(list[2].best_elapsed_time_ms, StoredInt::Null);
    let once = list.clone();
    finish_quest_progress_entry(&mut list, 6, 10, None);
    assert_eq!(list, once);
}

#[test]
fn a_finished_tutorial_clears_its_main_quests() {
    assert!(ui_tutorial_triggered(&vec![Some(3), None, Some(12)]));
    assert!(!ui_tutorial_triggered(&vec![Some(3)]));
    assert!(is_tutorial_completed(true, false));
    assert!(is_tutorial_completed(false, true));
    assert!(!is_tutorial_completed(false, false));
    let mut main = vec![raw(1_001_002)];
    complete_tutorial_quests(&mut main);
    assert_eq!(main.len(), 4);
    assert_eq!(main[0].quest_id, Some(1_001_002));
    assert_eq!(main[0].high_score, StoredInt::Int(57_076));
    assert_eq!(main[0].best_elapsed_time_ms, StoredInt::Int(30_124));
    assert_eq!(main[1].quest_id, Some(1_001_001));
    assert_eq!(main[3].quest_id, Some(1_002_001));
    assert_eq!(main[3].best_elapsed_time_ms, StoredInt::Int(35_700));
}
