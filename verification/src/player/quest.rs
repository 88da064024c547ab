//! The stored quest progress of a player: the shape every entry is brought
//! to, and what finishing a quest records.
use vstd::prelude::*;

verus! {

/// The id of the tutorial whose trigger marks the tutorial as done.
pub const TRIGGERED_UI_TUTORIAL_ID: i64 = 12;

/// A stored value read as an integer: an integer, null, or anything else
/// (absent included).
#[derive(Clone, Copy, Debug, PartialEq, Eq, Structural)]
pub enum StoredInt {
    Int(i64),
    Null,
    Other,
}

/// A stored value read as a flag: a boolean, or anything else (absent
/// included).
#[derive(Clone, Copy, Debug, PartialEq, Eq, Structural)]
pub enum StoredBool {
    Bool(bool),
    Other,
}

/// A stored quest progress entry: whether it is an object, its quest id
/// where that is an integer, and its fields.
#[derive(Clone, Copy, Debug, PartialEq, Eq, Structural)]
pub struct StoredQuestProgress {
    pub is_object: bool,
    pub quest_id: Option<i64>,
    pub finished: StoredBool,
    pub unlocked: StoredBool,
    pub high_score: StoredInt,
    pub clear_rank: StoredInt,
    pub best_elapsed_time_ms: StoredInt,
}

/// The flag a stored value stands for, `false` where it is no boolean.
pub open spec fn flag(b: StoredBool) -> bool {
    match b {
        StoredBool::Bool(v) => v,
        StoredBool::Other => false,
    }
}

/// An entry brought to shape: `finished` and `unlocked` become booleans
/// (false where they are not), `high_score` an integer (0 where it is
/// not), `clear_rank` an integer or null (5 where the quest is finished,
/// else null), `best_elapsed_time_ms` an integer or null (null where it is
/// neither); fails where the entry is not an object or has no integer
/// quest id.
pub open spec fn spec_normalize(p: StoredQuestProgress) -> Result<StoredQuestProgress, Seq<char>> {
    if !p.is_object {
        Err("stored CN main quest progress entry is invalid"@)
    } else if p.quest_id is None {
        Err("stored CN main quest id is invalid"@)
    } else {
        let finished = flag(p.finished);
        Ok(
            StoredQuestProgress {
                is_object: true,
                quest_id: p.quest_id,
                finished: StoredBool::Bool(finished),
                unlocked: StoredBool::Bool(flag(p.unlocked)),
                high_score: match p.high_score {
                    StoredInt::Int(v) => StoredInt::Int(v),
                    _ => StoredInt::Int(0),
                },
                clear_rank: match p.clear_rank {
                    StoredInt::Other => if finished {
                        StoredInt::Int(5)
                    } else {
                        StoredInt::Null
                    },
                    other => other,
                },
                best_elapsed_time_ms: match p.best_elapsed_time_ms {
                    StoredInt::Int(v) => StoredInt::Int(v),
                    _ => StoredInt::Null,
                },
            },
        )
    }
}

/// Brings a stored entry to shape.
pub fn normalize_quest_progress_entry(p: StoredQuestProgress) -> (r: Result<StoredQuestProgress, crate::error::ServiceError>)
    ensures
        match spec_normalize(p) {
            Ok(n) => r matches Ok(m) && m == n,
            Err(message) => r matches Err(e) && e.message@ == message,
        },
{
    if !p.is_object {
        return Err(crate::error::ServiceError::new("stored CN main quest progress entry is invalid"));
    }
    if p.quest_id.is_none() {
        return Err(crate::error::ServiceError::new("stored CN main quest id is invalid"));
    }
    let finished = match p.finished {
        StoredBool::Bool(v) => v,
        StoredBool::Other => false,
    };
    let unlocked = match p.unlocked {
        StoredBool::Bool(v) => v,
        StoredBool::Other => false,
    };
    Ok(
        StoredQuestProgress {
            is_object: true,
            quest_id: p.quest_id,
            finished: StoredBool::Bool(finished),
            unlocked: StoredBool::Bool(unlocked),
            high_score: match p.high_score {
                StoredInt::Int(v) => StoredInt::Int(v),
                _ => StoredInt::Int(0),
            },
            clear_rank: match p.clear_rank {
                StoredInt::Other => if finished {
                    StoredInt::Int(5)
                } else {
                    StoredInt::Null
                },
                other => other,
            },
            best_elapsed_time_ms: match p.best_elapsed_time_ms {
                StoredInt::Int(v) => StoredInt::Int(v),
                _ => StoredInt::Null,
            },
        },
    )
}

/// The integer a stored value stands for, 0 where it is none.
pub open spec fn int_or_zero(v: StoredInt) -> i64 {
    match v {
        StoredInt::Int(x) => x,
        _ => 0,
    }
}

/// The index of the first entry of a quest.
pub open spec fn quest_index(list: Seq<StoredQuestProgress>, quest_id: i64) -> Option<int>
    decreases list.len(),
{
    if list.len() == 0 {
        None
    } else if list[0].is_object && list[0].quest_id == Some(quest_id) {
        Some(0)
    } else {
        match quest_index(list.drop_first(), quest_id) {
            Some(i) => Some(i + 1),
            None => None,
        }
    }
}

proof fn lemma_quest_index(list: Seq<StoredQuestProgress>, quest_id: i64)
    ensures
        quest_index(list, quest_id) matches Some(i) ==> 0 <= i < list.len() && list[i].is_object
            && list[i].quest_id == Some(quest_id),
    decreases list.len(),
{
    if list.len() > 0 && !(list[0].is_object && list[0].quest_id == Some(quest_id)) {
        lemma_quest_index(list.drop_first(), quest_id);
    }
}

/// A finished entry: the entry brought to shape, finished, with the higher
/// of its high score and `high_score`, a clear rank of at least 5, and the
/// shorter of its best time and `best_elapsed_time_ms` where both exist.
pub open spec fn finished_entry(n: StoredQuestProgress, high_score: i64, best_elapsed_time_ms: Option<i64>) -> StoredQuestProgress {
    let hs = int_or_zero(n.high_score);
    let rank = int_or_zero(n.clear_rank);
    StoredQuestProgress {
        finished: StoredBool::Bool(true),
        high_score: StoredInt::Int(
            if hs > high_score {
                hs
            } else {
                high_score
            },
        ),
        clear_rank: StoredInt::Int(
            if rank > 5 {
                rank
            } else {
                5
            },
        ),
        best_elapsed_time_ms: match (n.best_elapsed_time_ms, best_elapsed_time_ms) {
            (StoredInt::Int(current), Some(default)) => StoredInt::Int(
                if current < default {
                    current
                } else {
                    default
                },
            ),
            (StoredInt::Int(current), None) => StoredInt::Int(current),
            (_, Some(default)) => StoredInt::Int(default),
            (_, None) => StoredInt::Null,
        },
        ..n
    }
}

/// The progress list after a quest is finished: its first entry is
/// brought to shape and finished, or a new finished entry is added.
pub open spec fn spec_finish_quest(
    list: Seq<StoredQuestProgress>,
    quest_id: i64,
    high_score: i64,
    best_elapsed_time_ms: Option<i64>,
) -> Seq<StoredQuestProgress> {
    match quest_index(list, quest_id) {
        Some(i) => list.update(
            i,
            finished_entry(spec_normalize(list[i])->Ok_0, high_score, best_elapsed_time_ms),
        ),
        None => list.push(
            StoredQuestProgress {
                is_object: true,
                quest_id: Some(quest_id),
                finished: StoredBool::Bool(true),
                unlocked: StoredBool::Bool(false),
                high_score: StoredInt::Int(high_score),
                clear_rank: StoredInt::Int(5),
                best_elapsed_time_ms: match best_elapsed_time_ms {
                    Some(t) => StoredInt::Int(t),
                    None => StoredInt::Null,
                },
            },
        ),
    }
}

/// Records that a quest is finished in its category's progress list.
pub fn finish_quest_progress_entry(
    list: &mut Vec<StoredQuestProgress>,
    quest_id: i64,
    high_score: i64,
    best_elapsed_time_ms: Option<i64>,
)
    ensures
        final(list)@ == spec_finish_quest(old(list)@, quest_id, high_score, best_elapsed_time_ms),
{
    proof {
        lemma_quest_index(list@, quest_id);
    }
    let mut i: usize = 0;
    assert(list@.subrange(0, list@.len() as int) =~= list@);
    while i < list.len()
        invariant
            i <= list@.len(),
            list@ == old(list)@,
            quest_index(list@, quest_id) == match quest_index(
                list@.subrange(i as int, list@.len() as int),
                quest_id,
            ) {
                Some(k) => Some(k + i),
                None => None::<int>,
            },
        decreases list@.len() - i,
    {
        let ghost rest = list@.subrange(i as int, list@.len() as int);
        assert(rest.drop_first() =~= list@.subrange(i + 1, list@.len() as int));
        let entry = list[i];
        if entry.is_object && entry.quest_id == Some(quest_id) {
            let n = match normalize_quest_progress_entry(entry) {
                Ok(n) => n,
                Err(_) => {
                    assert(false);
                    return;
                },
            };
            let hs = match n.high_score {
                StoredInt::Int(x) => x,
                _ => 0,
            };
            let rank = match n.clear_rank {
                StoredInt::Int(x) => x,
                _ => 0,
            };
            let best = match (n.best_elapsed_time_ms, best_elapsed_time_ms) {
                (StoredInt::Int(current), Some(default)) => StoredInt::Int(
                    if current < default {
                        current
                    } else {
                        default
                    },
                ),
                (StoredInt::Int(current), None) => StoredInt::Int(current),
                (_, Some(default)) => StoredInt::Int(default),
                (_, None) => StoredInt::Null,
            };
            let done = StoredQuestProgress {
                finished: StoredBool::Bool(true),
                high_score: StoredInt::Int(
                    if hs > high_score {
                        hs
                    } else {
                        high_score
                    },
                ),
                clear_rank: StoredInt::Int(
                    if rank > 5 {
                        rank
                    } else {
                        5
                    },
                ),
                best_elapsed_time_ms: best,
                ..n
            };
            list.set(i, done);
            return;
        }
        i = i + 1;
    }
    list.push(
        StoredQuestProgress {
            is_object: true,
            quest_id: Some(quest_id),
            finished: StoredBool::Bool(true),
            unlocked: StoredBool::Bool(false),
            high_score: StoredInt::Int(high_score),
            clear_rank: StoredInt::Int(5),
            best_elapsed_time_ms: match best_elapsed_time_ms {
                Some(t) => StoredInt::Int(t),
                None => StoredInt::Null,
            },
        },
    );
}

/// Whether the ui tutorial has been triggered.
pub open spec fn spec_ui_tutorial_triggered(triggered: Seq<Option<i64>>) -> bool {
    triggered.contains(Some(TRIGGERED_UI_TUTORIAL_ID))
}

/// Whether the ui tutorial has been triggered (the triggered tutorial ids,
/// `None` where an entry is no integer).
pub fn ui_tutorial_triggered(triggered: &Vec<Option<i64>>) -> (r: bool)
    ensures
        r == spec_ui_tutorial_triggered(triggered@),
{
    let mut i: usize = 0;
    while i < triggered.len()
        invariant
            i <= triggered@.len(),
            forall|j: int| 0 <= j < i ==> triggered@[j] != Some(TRIGGERED_UI_TUTORIAL_ID),
        decreases triggered@.len() - i,
    {
        if triggered[i] == Some(TRIGGERED_UI_TUTORIAL_ID) {
            assert(triggered@[i as int] == Some(TRIGGERED_UI_TUTORIAL_ID));
            return true;
        }
        i = i + 1;
    }
    false
}

/// Whether the tutorial is done: the ui tutorial was triggered, or the
/// stored tutorial is null.
pub fn is_tutorial_completed(ui_triggered: bool, tutorial_is_null: bool) -> (r: bool)
    ensures
        r == (ui_triggered || tutorial_is_null),
{
    ui_triggered || tutorial_is_null
}

/// The main quests a finished tutorial has cleared, as
/// `(quest, high score, best time)`.
pub open spec fn tutorial_quests() -> Seq<(i64, i64, Option<i64>)> {
    seq![
        (1_001_001i64, 0i64, None::<i64>),
        (1_001_002i64, 57_076i64, Some(30_124i64)),
        (1_001_003i64, 0i64, None::<i64>),
        (1_002_001i64, 61_350i64, Some(35_700i64)),
    ]
}

/// The main quest progress after a finished tutorial: its quests are
/// finished in order.
pub open spec fn spec_complete_tutorial_quests(list: Seq<StoredQuestProgress>) -> Seq<StoredQuestProgress> {
    let q = tutorial_quests();
    spec_finish_quest(
        spec_finish_quest(
            spec_finish_quest(spec_finish_quest(list, q[0].0, q[0].1, q[0].2), q[1].0, q[1].1, q[1].2),
            q[2].0,
            q[2].1,
            q[2].2,
        ),
        q[3].0,
        q[3].1,
        q[3].2,
    )
}

/// Records the main quests a finished tutorial has cleared.
pub fn complete_tutorial_quests(main: &mut Vec<StoredQuestProgress>)
    ensures
        final(main)@ == spec_complete_tutorial_quests(old(main)@),
{
    finish_quest_progress_entry(main, 1_001_001, 0, None);
    finish_quest_progress_entry(main, 1_001_002, 57_076, Some(30_124));
    finish_quest_progress_entry(main, 1_001_003, 0, None);
    finish_quest_progress_entry(main, 1_002_001, 61_350, Some(35_700));
}

/// The entries of a category after each is brought to shape, or the
/// failure of the first that cannot be.
pub open spec fn normalized_list(list: Seq<StoredQuestProgress>) -> Result<Seq<StoredQuestProgress>, Seq<char>>
    decreases list.len(),
{
    if list.len() == 0 {
        Ok(seq![])
    } else {
        match normalized_list(list.drop_last()) {
            Err(m) => Err(m),
            Ok(done) => match spec_normalize(list.last()) {
                Err(m) => Err(m),
                Ok(n) => Ok(done.push(n)),
            },
        }
    }
}

proof fn lemma_normalized_list_fail(list: Seq<StoredQuestProgress>, n: int)
    requires
        0 < n <= list.len(),
        normalized_list(list.subrange(0, n)) is Err,
    ensures
        normalized_list(list) == normalized_list(list.subrange(0, n)),
    decreases list.len() - n,
{
    if n == list.len() {
        assert(list.subrange(0, n) =~= list);
    } else {
        assert(list.subrange(0, n + 1).drop_last() =~= list.subrange(0, n));
        lemma_normalized_list_fail(list, n + 1);
    }
}

/// Brings every entry of a category to shape.
pub fn normalize_quest_list(list: &Vec<StoredQuestProgress>) -> (r: Result<Vec<StoredQuestProgress>, crate::error::ServiceError>)
    ensures
        match normalized_list(list@) {
            Ok(done) => r matches Ok(v) && v@ == done,
            Err(message) => r matches Err(e) && e.message@ == message,
        },
{
    let mut out: Vec<StoredQuestProgress> = Vec::new();
    let mut i: usize = 0;
    assert(list@.subrange(0, 0) =~= Seq::<StoredQuestProgress>::empty());
    while i < list.len()
        invariant
            i <= list@.len(),
            normalized_list(list@.subrange(0, i as int)) == Ok::<Seq<StoredQuestProgress>, Seq<char>>(out@),
        decreases list@.len() - i,
    {
        assert(list@.subrange(0, i + 1).drop_last() =~= list@.subrange(0, i as int));
        match normalize_quest_progress_entry(list[i]) {
            Ok(n) => out.push(n),
            Err(e) => {
                proof {
                    lemma_normalized_list_fail(list@, i + 1);
                }
                return Err(e);
            },
        }
        i = i + 1;
    }
    assert(list@.subrange(0, list@.len() as int) =~= list@);
    Ok(out)
}

/// Bringing entries to shape twice changes nothing the second time.
pub proof fn lemma_normalize_idempotent(p: StoredQuestProgress)
    ensures
        spec_normalize(p) matches Ok(n) ==> spec_normalize(n) == Ok::<StoredQuestProgress, Seq<char>>(n),
{
}


proof fn lemma_quest_index_update(list: Seq<StoredQuestProgress>, quest_id: i64, i: int, x: StoredQuestProgress)
    requires
        quest_index(list, quest_id) == Some(i),
        x.is_object && x.quest_id == Some(quest_id),
    ensures
        quest_index(list.update(i, x), quest_id) == Some(i),
    decreases list.len(),
{
    lemma_quest_index(list, quest_id);
    if i > 0 {
        assert(list.update(i, x).drop_first() =~= list.drop_first().update(i - 1, x));
        lemma_quest_index_update(list.drop_first(), quest_id, i - 1, x);
    }
}

proof fn lemma_quest_index_push(list: Seq<StoredQuestProgress>, quest_id: i64, x: StoredQuestProgress)
    requires
        quest_index(list, quest_id) is None,
        x.is_object && x.quest_id == Some(quest_id),
    ensures
        quest_index(list.push(x), quest_id) == Some(list.len() as int),
    decreases list.len(),
{
    if list.len() > 0 {
        assert(list.push(x).drop_first() =~= list.drop_first().push(x));
        lemma_quest_index_push(list.drop_first(), quest_id, x);
    }
}

/// Finishing a quest again with the same score and time changes nothing:
/// the progress list is the same as after finishing it once.
pub proof fn lemma_finish_quest_idempotent(
    list: Seq<StoredQuestProgress>,
    quest_id: i64,
    high_score: i64,
    best_elapsed_time_ms: Option<i64>,
)
    ensures
        spec_finish_quest(
            spec_finish_quest(list, quest_id, high_score, best_elapsed_time_ms),
            quest_id,
            high_score,
            best_elapsed_time_ms,
        ) == spec_finish_quest(list, quest_id, high_score, best_elapsed_time_ms),
{
    lemma_quest_index(list, quest_id);
    let once = spec_finish_quest(list, quest_id, high_score, best_elapsed_time_ms);
    match quest_index(list, quest_id) {
        Some(i) => {
            let done = finished_entry(spec_normalize(list[i])->Ok_0, high_score, best_elapsed_time_ms);
            lemma_quest_index_update(list, quest_id, i, done);
            assert(once[i] == done);
            assert(once.update(i, finished_entry(spec_normalize(done)->Ok_0, high_score, best_elapsed_time_ms)) =~= once);
        },
        None => {
            let fresh = once.last();
            lemma_quest_index_push(list, quest_id, fresh);
            assert(once.update(list.len() as int, finished_entry(spec_normalize(fresh)->Ok_0, high_score, best_elapsed_time_ms)) =~= once);
        },
    }
}

} // verus!
