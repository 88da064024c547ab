//! The statistics that missions count, gathered from the player's stored
//! quest progress, user info and clear counters.
use vstd::prelude::*;

use crate::counts::{value_or, Counts};
use crate::error::ServiceError;
use crate::mission::{
    contains_i64, find_key_index, key_index, keyed, lemma_key_index, rank_degree,
    spec_rank_degree, ComputeContext, MissionCatalog, QuestProgressEntry,
};
use crate::text::{parse_i64, spec_parse_i64, str_eq};

verus! {

/// A stored quest progress entry, each field as far as it holds a value of
/// its type.
#[derive(Clone, Copy, Debug, PartialEq, Eq, Structural)]
pub struct StoredQuestEntry {
    pub finished: Option<bool>,
    pub quest_id: Option<i64>,
    pub best_elapsed_time_ms: Option<i64>,
    pub leader_character_id: Option<i64>,
    pub multi_clear_count: Option<i64>,
    pub clear_rank: Option<i64>,
}

/// A stored quest category: its key, and its entries where it holds a list.
pub struct StoredQuestCategory {
    pub category: String,
    pub entries: Option<Vec<StoredQuestEntry>>,
}

/// The stored user info that missions read: the rank point, the stamina
/// used (from `total_stamina_used`, else `stamina_used`: the integer of the
/// first of them that is present) and the power flips (likewise from
/// `total_powerflips`, else `total_power_flips`).
#[derive(Clone, Copy, Debug, PartialEq, Eq, Structural)]
pub struct StoredUserInfo {
    pub rank_point: Option<i64>,
    pub stamina_used: Option<i64>,
    pub powerflips: Option<i64>,
}

/// The clear counters of the player, each from its stored object.
pub struct StoredClearCounts {
    pub character_clears: Counts,
    pub leader_clears: Counts,
    pub leader_multi_clears: Counts,
    pub leader_powerflips: Counts,
    pub co_clears: Counts,
    pub race_clears: Counts,
}

/// The entries of a category; none where it holds no list.
pub open spec fn category_entries(c: StoredQuestCategory) -> Seq<StoredQuestEntry> {
    match c.entries {
        Some(v) => v@,
        None => Seq::empty(),
    }
}

/// Whether an entry is a finished quest.
pub open spec fn is_finished(e: StoredQuestEntry) -> bool {
    e.finished == Some(true)
}

/// How many entries hold `pred`.
pub open spec fn count_where(s: Seq<StoredQuestEntry>, pred: spec_fn(StoredQuestEntry) -> bool) -> int
    decreases s.len(),
{
    if s.len() == 0 {
        0
    } else {
        count_where(s.drop_last(), pred) + if pred(s.last()) {
            1int
        } else {
            0
        }
    }
}

/// How many entries of the categories that `which` selects hold `pred`.
pub open spec fn total_where(
    cats: Seq<StoredQuestCategory>,
    which: spec_fn(StoredQuestCategory) -> bool,
    pred: spec_fn(StoredQuestEntry) -> bool,
) -> int
    decreases cats.len(),
{
    if cats.len() == 0 {
        0
    } else {
        total_where(cats.drop_last(), which, pred) + if which(cats.last()) {
            count_where(category_entries(cats.last()), pred)
        } else {
            0
        }
    }
}

/// Every category.
pub open spec fn any_category() -> spec_fn(StoredQuestCategory) -> bool {
    |c: StoredQuestCategory| true
}

/// The story category, keyed `3`.
pub open spec fn story_category() -> spec_fn(StoredQuestCategory) -> bool {
    |c: StoredQuestCategory| c.category@ == "3"@
}

/// A finished entry.
pub open spec fn finished_entry() -> spec_fn(StoredQuestEntry) -> bool {
    |e: StoredQuestEntry| is_finished(e)
}

/// A finished entry cleared at rank SS (rank 6).
pub open spec fn ss_entry() -> spec_fn(StoredQuestEntry) -> bool {
    |e: StoredQuestEntry| is_finished(e) && e.clear_rank == Some(6i64)
}

/// The ids of the finished quests among some entries.
pub open spec fn finished_ids(s: Seq<StoredQuestEntry>) -> Set<i64>
    decreases s.len(),
{
    if s.len() == 0 {
        Set::empty()
    } else {
        let rest = finished_ids(s.drop_last());
        match s.last().quest_id {
            Some(q) => if is_finished(s.last()) {
                rest.insert(q)
            } else {
                rest
            },
            None => rest,
        }
    }
}

/// The ids of the finished quests of all categories.
pub open spec fn all_finished_ids(cats: Seq<StoredQuestCategory>) -> Set<i64>
    decreases cats.len(),
{
    if cats.len() == 0 {
        Set::empty()
    } else {
        all_finished_ids(cats.drop_last()).union(finished_ids(category_entries(cats.last())))
    }
}

/// The progress record of a finished entry with a quest id.
pub open spec fn progress_record(e: StoredQuestEntry, q: i64) -> QuestProgressEntry {
    QuestProgressEntry {
        quest_id: q,
        best_elapsed_time_ms: e.best_elapsed_time_ms,
        leader_character_id: e.leader_character_id,
        multi_clear_count: e.multi_clear_count,
    }
}

/// The progress records of the finished entries with a quest id, in order.
pub open spec fn progress_records(s: Seq<StoredQuestEntry>) -> Seq<QuestProgressEntry>
    decreases s.len(),
{
    if s.len() == 0 {
        Seq::empty()
    } else {
        let rest = progress_records(s.drop_last());
        match s.last().quest_id {
            Some(q) => if is_finished(s.last()) {
                rest.push(progress_record(s.last(), q))
            } else {
                rest
            },
            None => rest,
        }
    }
}

/// The progress records of every category whose key reads as the integer
/// `c`, in the order of the categories.
pub open spec fn category_progress(cats: Seq<StoredQuestCategory>, c: i64) -> Seq<QuestProgressEntry>
    decreases cats.len(),
{
    if cats.len() == 0 {
        Seq::empty()
    } else {
        let rest = category_progress(cats.drop_last(), c);
        if spec_parse_i64(cats.last().category@) == Some(c) {
            rest + progress_records(category_entries(cats.last()))
        } else {
            rest
        }
    }
}

/// The progress list that `qp` holds for category `c`; empty where it has
/// none.
pub open spec fn progress_of(qp: Seq<(i64, Vec<QuestProgressEntry>)>, c: i64) -> Seq<QuestProgressEntry> {
    match keyed(qp, c) {
        Some(v) => v@,
        None => Seq::empty(),
    }
}

/// Every category of a progress list holds at least one record.
pub open spec fn lists_nonempty(qp: Seq<(i64, Vec<QuestProgressEntry>)>) -> bool {
    forall|i: int| 0 <= i < qp.len() ==> (#[trigger] qp[i]).1@.len() > 0
}

/// Appending an entry with a new key leaves the first entry of every other
/// key where it was.
pub(crate) proof fn lemma_key_index_push<V>(s: Seq<(i64, V)>, x: (i64, V), c: i64)
    ensures
        key_index(s.push(x), c) == match key_index(s, c) {
            Some(i) => Some(i),
            None => if x.0 == c {
                Some(s.len() as int)
            } else {
                None::<int>
            },
        },
    decreases s.len(),
{
    if s.len() > 0 {
        assert(s.push(x).drop_first() =~= s.drop_first().push(x));
        lemma_key_index_push(s.drop_first(), x, c);
        assert(s.push(x)[0] == s[0]);
    } else {
        assert(s.push(x).drop_first() =~= Seq::<(i64, V)>::empty());
        assert(s.push(x)[0] == x);
        assert(key_index(Seq::<(i64, V)>::empty(), c) is None);
        assert(key_index(s, c) is None);
    }
}

/// Replacing the value of an entry keeps every key's first entry.
pub(crate) proof fn lemma_key_index_update<V>(s: Seq<(i64, V)>, i: int, v: V, c: i64)
    requires
        0 <= i < s.len(),
    ensures
        key_index(s.update(i, (s[i].0, v)), c) == key_index(s, c),
    decreases s.len(),
{
    if i > 0 {
        assert(s.update(i, (s[i].0, v)).drop_first() =~= s.drop_first().update(i - 1, (s[i].0, v)));
        lemma_key_index_update(s.drop_first(), i - 1, v, c);
    } else {
        assert(s.update(i, (s[i].0, v)).drop_first() =~= s.drop_first());
    }
}

/// Writes the records of `other` after those of `records`.
fn append_records(records: &mut Vec<QuestProgressEntry>, other: Vec<QuestProgressEntry>)
    ensures
        final(records)@ == old(records)@ + other@,
{
    let mut other = other;
    records.append(&mut other);
}

/// Adds the records of one category to the progress list.
fn add_category_progress(
    qp: &mut Vec<(i64, Vec<QuestProgressEntry>)>,
    c: i64,
    found: Vec<QuestProgressEntry>,
)
    requires
        lists_nonempty(old(qp)@),
        found@.len() > 0,
    ensures
        lists_nonempty(final(qp)@),
        forall|k: i64| #[trigger]
            progress_of(final(qp)@, k) == if k == c {
                progress_of(old(qp)@, k) + found@
            } else {
                progress_of(old(qp)@, k)
            },
{
    let ghost before = qp@;
    match find_key_index(qp, c) {
        Some(i) => {
            let mut entry = qp.remove(i);
            append_records(&mut entry.1, found);
            qp.insert(i, entry);
            proof {
                lemma_key_index(before, c);
                assert(qp@ =~= before.update(i as int, (c, entry.1)));
                assert forall|k: i64| #[trigger]
                    progress_of(qp@, k) == if k == c {
                        progress_of(before, k) + found@
                    } else {
                        progress_of(before, k)
                    } by {
                    lemma_key_index_update(before, i as int, entry.1, k);
                    lemma_key_index(before, k);
                };
            }
        },
        None => {
            qp.push((c, found));
            proof {
                assert forall|k: i64| #[trigger]
                    progress_of(qp@, k) == if k == c {
                        progress_of(before, k) + found@
                    } else {
                        progress_of(before, k)
                    } by {
                    lemma_key_index_push(before, (c, found), k);
                    lemma_key_index(before, k);
                    assert(Seq::<QuestProgressEntry>::empty() + found@ =~= found@);
                };
            }
        },
    }
}

/// The number of stored entries of all categories.
pub open spec fn total_entries(cats: Seq<StoredQuestCategory>) -> int
    decreases cats.len(),
{
    if cats.len() == 0 {
        0
    } else {
        total_entries(cats.drop_last()) + category_entries(cats.last()).len()
    }
}

/// A prefix of the categories holds no more entries than all of them.
proof fn lemma_total_entries_prefix(cats: Seq<StoredQuestCategory>, i: int)
    requires
        0 <= i <= cats.len(),
    ensures
        total_entries(cats.take(i)) <= total_entries(cats),
    decreases cats.len() - i,
{
    if i < cats.len() {
        lemma_total_entries_prefix(cats, i + 1);
        assert(cats.take(i + 1).drop_last() =~= cats.take(i));
    } else {
        assert(cats.take(i) =~= cats);
    }
}

/// The statistics that missions count: the finished quests and their
/// progress records by category, the clears, stories and SS clears, the
/// rank degree of the rank point, the stamina used (the stored value, else
/// the `used_stamina_count` counter, else 0), the power flips (else 0) and
/// the clear counters. Without stored user info the player's data is
/// broken: `stored CN user_info data is missing`.
pub fn build_context(
    quest_progress: &Vec<StoredQuestCategory>,
    user_info: Option<StoredUserInfo>,
    clear_counts: StoredClearCounts,
    catalog: &MissionCatalog,
    counters: &Counts,
) -> (r: Result<ComputeContext, ServiceError>)
    requires
        total_entries(quest_progress@) <= i64::MAX,
    ensures
        user_info is None ==> (r matches Err(e) && e.message@
            == "stored CN user_info data is missing"@),
        user_info matches Some(info) ==> (r matches Ok(ctx) && {
            let cats = quest_progress@;
            &&& forall|q: i64| #[trigger]
                ctx.finished_quests@.contains(q) <==> all_finished_ids(cats).contains(q)
            &&& lists_nonempty(ctx.quest_progress@)
            &&& forall|c: i64| #[trigger]
                progress_of(ctx.quest_progress@, c) == category_progress(cats, c)
            &&& ctx.total_quest_clears == total_where(cats, any_category(), finished_entry())
            &&& ctx.total_stories == total_where(cats, story_category(), finished_entry())
            &&& ctx.ss_rank_count == total_where(cats, any_category(), ss_entry())
            &&& ctx.rank_degree == spec_rank_degree(
                match info.rank_point {
                    Some(p) => p,
                    None => 0,
                },
                catalog.rank_thresholds@,
                1,
            )
            &&& ctx.total_stamina_used == match info.stamina_used {
                Some(v) => v,
                None => value_or(counters@, "used_stamina_count"@, 0),
            }
            &&& ctx.total_powerflips == match info.powerflips {
                Some(v) => v,
                None => 0,
            }
            &&& ctx.character_clears == clear_counts.character_clears
            &&& ctx.leader_clears == clear_counts.leader_clears
            &&& ctx.leader_multi_clears == clear_counts.leader_multi_clears
            &&& ctx.leader_powerflips == clear_counts.leader_powerflips
            &&& ctx.co_clears == clear_counts.co_clears
            &&& ctx.race_clears == clear_counts.race_clears
        }),
{
    let ghost cats = quest_progress@;
    let mut finished: Vec<i64> = Vec::new();
    let mut qp: Vec<(i64, Vec<QuestProgressEntry>)> = Vec::new();
    let mut clears: i64 = 0;
    let mut stories: i64 = 0;
    let mut ss: i64 = 0;
    let mut i: usize = 0;
    while i < quest_progress.len()
        invariant
            cats == quest_progress@,
            i <= cats.len(),
            total_entries(cats) <= i64::MAX,
            clears == total_where(cats.take(i as int), any_category(), finished_entry()),
            stories == total_where(cats.take(i as int), story_category(), finished_entry()),
            ss == total_where(cats.take(i as int), any_category(), ss_entry()),
            0 <= clears <= total_entries(cats.take(i as int)),
            0 <= stories <= total_entries(cats.take(i as int)),
            0 <= ss <= total_entries(cats.take(i as int)),
            forall|q: i64| #[trigger]
                finished@.contains(q) <==> all_finished_ids(cats.take(i as int)).contains(q),
            lists_nonempty(qp@),
            forall|c: i64| #[trigger] progress_of(qp@, c) == category_progress(cats.take(i as int), c),
        decreases cats.len() - i,
    {
        let category = &quest_progress[i];
        let is_story = str_eq(category.category.as_str(), "3");
        let category_id = parse_i64(category.category.as_str());
        let ghost entries = category_entries(*category);
        let ghost base_ids = all_finished_ids(cats.take(i as int));
        let ghost base_total = total_entries(cats.take(i as int));
        let ghost base_clears = clears;
        let ghost base_stories = stories;
        let ghost base_ss = ss;
        proof {
            lemma_total_entries_prefix(cats, i + 1);
            assert(cats.take(i + 1).drop_last() =~= cats.take(i as int));
            assert(cats.take(i + 1).last() == *category);
        }
        let mut found: Vec<QuestProgressEntry> = Vec::new();
        match &category.entries {
            None => {
                assert(entries.take(0) =~= entries);
            },
            Some(list) => {
                let mut j: usize = 0;
                while j < list.len()
                    invariant
                        entries == list@,
                        j <= entries.len(),
                        base_total + entries.len() <= i64::MAX,
                        is_story == (category.category@ == "3"@),
                        clears == base_clears + count_where(entries.take(j as int), finished_entry()),
                        stories == base_stories + if is_story {
                            count_where(entries.take(j as int), finished_entry())
                        } else {
                            0
                        },
                        ss == base_ss + count_where(entries.take(j as int), ss_entry()),
                        0 <= clears <= base_total + j,
                        0 <= stories <= base_total + j,
                        0 <= ss <= base_total + j,
                        forall|q: i64| #[trigger]
                            finished@.contains(q) <==> base_ids.union(
                                finished_ids(entries.take(j as int)),
                            ).contains(q),
                        found@ == progress_records(entries.take(j as int)),
                    decreases entries.len() - j,
                {
                    let entry = list[j];
                    let ghost before = finished@;
                    proof {
                        assert(entries.take(j + 1).drop_last() =~= entries.take(j as int));
                        assert(entries.take(j + 1).last() == entry);
                    }
                    if entry.finished == Some(true) {
                        clears = clears + 1;
                        if is_story {
                            stories = stories + 1;
                        }
                        if let Some(quest_id) = entry.quest_id {
                            if !contains_i64(&finished, quest_id) {
                                finished.push(quest_id);
                            }
                            found.push(
                                QuestProgressEntry {
                                    quest_id,
                                    best_elapsed_time_ms: entry.best_elapsed_time_ms,
                                    leader_character_id: entry.leader_character_id,
                                    multi_clear_count: entry.multi_clear_count,
                                },
                            );
                        }
                        if entry.clear_rank == Some(6i64) {
                            ss = ss + 1;
                        }
                    }
                    proof {
                        assert forall|q: i64| #[trigger]
                            finished@.contains(q) <==> base_ids.union(
                                finished_ids(entries.take(j + 1)),
                            ).contains(q) by {
                            if before.contains(q) {
                                let k = choose|k: int| 0 <= k < before.len() && before[k] == q;
                                assert(finished@[k] == q);
                            }
                            if finished@.contains(q) && !before.contains(q) {
                                let k = choose|k: int| 0 <= k < finished@.len() && finished@[k] == q;
                                assert(k == before.len());
                            }
                            if entry.finished == Some(true) && entry.quest_id == Some(q)
                                && !before.contains(q) {
                                assert(finished@ == before.push(q));
                                assert(finished@[before.len() as int] == q);
                            }
                        };
                    }
                    j = j + 1;
                }
                assert(entries.take(j as int) =~= entries);
            },
        }
        if let Some(c) = category_id {
            if found.len() > 0 {
                add_category_progress(&mut qp, c, found);
            }
        }
        i = i + 1;
    }
    let info = match user_info {
        Some(info) => info,
        None => {
            return Err(ServiceError::new("stored CN user_info data is missing"));
        },
    };
    let rank_point = match info.rank_point {
        Some(p) => p,
        None => 0,
    };
    let total_stamina_used = match info.stamina_used {
        Some(v) => v,
        None => counters.get_or_zero("used_stamina_count"),
    };
    let total_powerflips = match info.powerflips {
        Some(v) => v,
        None => 0,
    };
    assert(cats.take(cats.len() as int) =~= cats);
    Ok(
        ComputeContext {
            finished_quests: finished,
            quest_progress: qp,
            character_clears: clear_counts.character_clears,
            leader_clears: clear_counts.leader_clears,
            leader_multi_clears: clear_counts.leader_multi_clears,
            leader_powerflips: clear_counts.leader_powerflips,
            co_clears: clear_counts.co_clears,
            race_clears: clear_counts.race_clears,
            ss_rank_count: ss,
            rank_degree: rank_degree(rank_point, &catalog.rank_thresholds),
            total_powerflips,
            total_quest_clears: clears,
            total_stamina_used,
            total_stories: stories,
        },
    )
}

} // verus!
