//! Mission progress: the value each mission of the master shows from the
//! player's battle statistics and counters, the stage that value reaches,
//! and the validation of reported pattern counters.
use sha2::Digest;
use vstd::prelude::*;
use vstd::utf8::encode_utf8;

use crate::counts::{value_or, Counts};
use crate::error::ServiceError;
use crate::http::{error_body, json_error, JsonResponse};
use crate::text::{
    append_decimal, decimal, decimal_string, is_control, is_control_char, joined, lex_lt, str_eq,
    str_lt, trim, trimmed, views, append_hex, hex_lower, join,
};

pub mod progress;
pub mod context;
pub mod master;

verus! {

/// A reward of a mission stage.
#[derive(Clone, Copy, Debug, PartialEq, Eq, Structural)]
pub struct MissionReward {
    pub kind: i64,
    pub amount: i64,
    pub item_id: Option<i64>,
    pub character_id: Option<i64>,
    pub equipment_id: Option<i64>,
}

/// A stage of a mission: reached once the progress is at its target.
pub struct MissionStage {
    pub stage: i64,
    pub reward_id: i64,
    pub target: Option<i64>,
    pub rewards: Vec<MissionReward>,
}

/// A mission of the master.
pub struct MissionDefinition {
    pub id: i64,
    pub pattern: Option<String>,
    pub degree_target: Option<i64>,
    pub quest_categories: Vec<i64>,
    pub battle_kind: Option<i64>,
    pub statistics_kind: Option<i64>,
    pub leader_character_id: Option<i64>,
    pub required_character_ids: Vec<i64>,
    pub required_races: Vec<String>,
    pub stages: Vec<MissionStage>,
}

/// A rank point threshold and the degree it gives.
#[derive(Clone, Copy, Debug, PartialEq, Eq, Structural)]
pub struct RankThreshold {
    pub degree: i64,
    pub threshold: i64,
}

/// The mission master: missions by category, the story quests of each
/// character, and the rank thresholds in ascending order.
pub struct MissionCatalog {
    pub categories: Vec<(i64, Vec<MissionDefinition>)>,
    pub character_stories: Vec<(String, Vec<i64>)>,
    pub rank_thresholds: Vec<RankThreshold>,
}

/// A finished quest of the player.
#[derive(Clone, Copy, Debug, PartialEq, Eq, Structural)]
pub struct QuestProgressEntry {
    pub quest_id: i64,
    pub best_elapsed_time_ms: Option<i64>,
    pub leader_character_id: Option<i64>,
    pub multi_clear_count: Option<i64>,
}

/// What the player's data says about the statistics missions count.
pub struct ComputeContext {
    pub finished_quests: Vec<i64>,
    pub quest_progress: Vec<(i64, Vec<QuestProgressEntry>)>,
    pub character_clears: Counts,
    pub leader_clears: Counts,
    pub leader_multi_clears: Counts,
    pub leader_powerflips: Counts,
    pub co_clears: Counts,
    pub race_clears: Counts,
    pub ss_rank_count: i64,
    pub rank_degree: i64,
    pub total_powerflips: i64,
    pub total_quest_clears: i64,
    pub total_stamina_used: i64,
    pub total_stories: i64,
}

/// A pattern counter that the client reports.
pub struct MissionParameter {
    pub progress_value: i64,
    pub mission_pattern: String,
}

/// The index of the first entry with key `k`.
pub open spec fn key_index<V>(s: Seq<(i64, V)>, k: i64) -> Option<int>
    decreases s.len(),
{
    if s.len() == 0 {
        None
    } else if s[0].0 == k {
        Some(0)
    } else {
        match key_index(s.drop_first(), k) {
            Some(i) => Some(i + 1),
            None => None,
        }
    }
}

/// The value of the first entry with key `k`.
pub open spec fn keyed<V>(s: Seq<(i64, V)>, k: i64) -> Option<V> {
    match key_index(s, k) {
        Some(i) => Some(s[i].1),
        None => None,
    }
}

/// `key_index` points at an entry with the key.
pub proof fn lemma_key_index<V>(s: Seq<(i64, V)>, k: i64)
    ensures
        key_index(s, k) matches Some(i) ==> 0 <= i < s.len() && s[i].0 == k,
    decreases s.len(),
{
    if s.len() > 0 && s[0].0 != k {
        lemma_key_index(s.drop_first(), k);
    }
}

/// The index of the first entry with key `k`.
pub fn find_key_index<V>(s: &Vec<(i64, V)>, k: i64) -> (r: Option<usize>)
    ensures
        match r {
            Some(i) => key_index(s@, k) == Some(i as int) && i < s@.len(),
            None => key_index(s@, k) is None,
        },
{
    let mut i: usize = 0;
    assert(s@.subrange(0, s@.len() as int) =~= s@);
    while i < s.len()
        invariant
            i <= s@.len(),
            key_index(s@, k) == match key_index(s@.subrange(i as int, s@.len() as int), k) {
                Some(j) => Some(j + i),
                None => None::<int>,
            },
        decreases s@.len() - i,
    {
        let ghost rest = s@.subrange(i as int, s@.len() as int);
        assert(rest.drop_first() =~= s@.subrange(i + 1, s@.len() as int));
        if s[i].0 == k {
            return Some(i);
        }
        i = i + 1;
    }
    None
}

/// The first entry with text key `k`.
pub open spec fn text_keyed<V>(s: Seq<(String, V)>, k: Seq<char>) -> Option<V>
    decreases s.len(),
{
    if s.len() == 0 {
        None
    } else if s[0].0@ == k {
        Some(s[0].1)
    } else {
        text_keyed(s.drop_first(), k)
    }
}

/// The index of the first entry with text key `k`.
fn find_text_key_index<V>(s: &Vec<(String, V)>, k: &str) -> (r: Option<usize>)
    ensures
        match r {
            Some(i) => i < s@.len() && text_keyed(s@, k@) == Some(s@[i as int].1),
            None => text_keyed(s@, k@) is None,
        },
{
    let mut i: usize = 0;
    assert(s@.subrange(0, s@.len() as int) =~= s@);
    while i < s.len()
        invariant
            i <= s@.len(),
            text_keyed(s@, k@) == text_keyed(s@.subrange(i as int, s@.len() as int), k@),
        decreases s@.len() - i,
    {
        let ghost rest = s@.subrange(i as int, s@.len() as int);
        assert(rest.drop_first() =~= s@.subrange(i + 1, s@.len() as int));
        if str_eq(s[i].0.as_str(), k) {
            return Some(i);
        }
        i = i + 1;
    }
    None
}

/// The degree of the highest threshold that `rank_point` reaches, walking
/// the thresholds in order; 1 below the first.
pub open spec fn spec_rank_degree(rank_point: i64, thresholds: Seq<RankThreshold>, degree: i64) -> i64
    decreases thresholds.len(),
{
    if thresholds.len() == 0 || rank_point < thresholds[0].threshold {
        degree
    } else {
        spec_rank_degree(rank_point, thresholds.drop_first(), thresholds[0].degree)
    }
}

/// The rank degree that `rank_point` gives.
pub fn rank_degree(rank_point: i64, thresholds: &Vec<RankThreshold>) -> (r: i64)
    ensures
        r == spec_rank_degree(rank_point, thresholds@, 1),
{
    let mut degree: i64 = 1;
    let mut i: usize = 0;
    assert(thresholds@.subrange(0, thresholds@.len() as int) =~= thresholds@);
    while i < thresholds.len()
        invariant
            i <= thresholds@.len(),
            spec_rank_degree(rank_point, thresholds@, 1) == spec_rank_degree(
                rank_point,
                thresholds@.subrange(i as int, thresholds@.len() as int),
                degree,
            ),
        decreases thresholds@.len() - i,
    {
        let ghost rest = thresholds@.subrange(i as int, thresholds@.len() as int);
        assert(rest.drop_first() =~= thresholds@.subrange(i + 1, thresholds@.len() as int));
        if rank_point < thresholds[i].threshold {
            return degree;
        }
        degree = thresholds[i].degree;
        i = i + 1;
    }
    degree
}

/// The first stage whose target the progress has not reached.
pub open spec fn first_unreached_stage(stages: Seq<MissionStage>, progress: i64) -> Option<i64>
    decreases stages.len(),
{
    if stages.len() == 0 {
        None
    } else if stages[0].target matches Some(target) && progress < target {
        Some(stages[0].stage)
    } else {
        first_unreached_stage(stages.drop_first(), progress)
    }
}

/// The stage a mission shows: the first stage not reached yet, or the last
/// stage once all are reached (1 for a mission without stages).
pub open spec fn spec_current_stage(mission: &MissionDefinition, progress: i64) -> i64 {
    match first_unreached_stage(mission.stages@, progress) {
        Some(stage) => stage,
        None => if mission.stages@.len() == 0 {
            1
        } else {
            mission.stages@.last().stage
        },
    }
}

/// The stage that `progress` puts a mission at.
pub fn current_stage(mission: &MissionDefinition, progress: i64) -> (r: i64)
    ensures
        r == spec_current_stage(mission, progress),
{
    let stages = &mission.stages;
    let mut i: usize = 0;
    assert(stages@.subrange(0, stages@.len() as int) =~= stages@);
    while i < stages.len()
        invariant
            i <= stages@.len(),
            stages@ == mission.stages@,
            first_unreached_stage(stages@, progress) == first_unreached_stage(
                stages@.subrange(i as int, stages@.len() as int),
                progress,
            ),
        decreases stages@.len() - i,
    {
        let ghost rest = stages@.subrange(i as int, stages@.len() as int);
        assert(rest.drop_first() =~= stages@.subrange(i + 1, stages@.len() as int));
        if let Some(target) = stages[i].target {
            if progress < target {
                return stages[i].stage;
            }
        }
        i = i + 1;
    }
    if stages.len() == 0 {
        1
    } else {
        stages[stages.len() - 1].stage
    }
}

/// The character id text of an awakening mission: its id without the last
/// digit.
pub open spec fn spec_mission_character_id(mission_id: i64) -> Seq<char> {
    decimal(mission_id as int).drop_last()
}

/// The decimal text of a number is never empty.
pub proof fn lemma_decimal_nonempty(n: int)
    ensures
        decimal(n).len() >= 1,
{
    let m: nat = if n < 0 {
        (-n) as nat
    } else {
        n as nat
    };
    reveal_with_fuel(crate::text::decimal_digits, 1);
    assert(crate::text::decimal_digits(m).len() >= 1);
}

/// The character that an awakening mission belongs to.
pub fn mission_character_id(mission_id: i64) -> (r: String)
    ensures
        r@ == spec_mission_character_id(mission_id),
{
    let text = decimal_string(mission_id);
    proof {
        lemma_decimal_nonempty(mission_id as int);
    }
    let len = text.as_str().unicode_len();
    let id = text.as_str().substring_char(0, len - 1);
    id.to_owned()
}

/// The counter key of a battle pattern scoped to a quest category.
pub open spec fn spec_scoped_battle_counter_key(pattern: Seq<char>, quest_category: i64) -> Seq<
    char,
> {
    pattern + ":quest_category:"@ + decimal(quest_category as int)
}

/// `"<pattern>:quest_category:<category>"`.
pub fn scoped_battle_counter_key(pattern: &str, quest_category: i64) -> (r: String)
    ensures
        r@ == spec_scoped_battle_counter_key(pattern@, quest_category),
{
    let mut key = pattern.to_owned();
    key.append(":quest_category:");
    append_decimal(&mut key, quest_category);
    key
}

/// Whether a mission's pattern is this text.
pub open spec fn pattern_is(mission: &MissionDefinition, text: Seq<char>) -> bool {
    mission.pattern matches Some(p) && p@ == text
}

/// A battle-clear mission limited to some quest categories.
pub open spec fn spec_is_scoped_battle_mission(mission: &MissionDefinition) -> bool {
    mission.quest_categories@.len() > 0 && (pattern_is(mission, "single_battle_clear_count"@)
        || pattern_is(mission, "multi_battle_clear_count"@))
}

/// Whether a mission counts battle clears of some quest categories only.
pub fn is_scoped_battle_mission(mission: &MissionDefinition) -> (r: bool)
    ensures
        r == spec_is_scoped_battle_mission(mission),
{
    if mission.quest_categories.len() == 0 {
        return false;
    }
    match &mission.pattern {
        Some(pattern) => str_eq(pattern.as_str(), "single_battle_clear_count") || str_eq(
            pattern.as_str(),
            "multi_battle_clear_count",
        ),
        None => false,
    }
}

/// `a + b` clamped into the range of `i64`.
pub open spec fn saturating_add(a: int, b: int) -> i64 {
    if a + b > i64::MAX {
        i64::MAX
    } else if a + b < i64::MIN {
        i64::MIN
    } else {
        (a + b) as i64
    }
}

/// `a + b`, clamped into the range of `i64` as `i64::saturating_add` does.
pub fn add_saturating(a: i64, b: i64) -> (r: i64)
    ensures
        r == saturating_add(a as int, b as int),
{
    let sum = a as i128 + b as i128;
    if sum > i64::MAX as i128 {
        i64::MAX
    } else if sum < i64::MIN as i128 {
        i64::MIN
    } else {
        sum as i64
    }
}

/// The clears an entry counts for a multi-battle mission (1 where the
/// entry does not say, never negative).
pub open spec fn multi_clears(entry: QuestProgressEntry) -> i64 {
    let count = entry.multi_clear_count.unwrap_or(1);
    if count < 0 {
        0
    } else {
        count
    }
}

/// The saturating sum of the multi-battle clears of the entries.
pub open spec fn multi_clear_sum(entries: Seq<QuestProgressEntry>) -> i64
    decreases entries.len(),
{
    if entries.len() == 0 {
        0
    } else {
        saturating_add(multi_clear_sum(entries.drop_last()) as int, multi_clears(entries.last()) as int)
    }
}

/// The battle clears of a quest category: the multi-battle clear count for
/// the multi pattern, else the number of finished quests.
pub open spec fn spec_battle_progress_for_category(
    context: &ComputeContext,
    pattern: Seq<char>,
    quest_category: i64,
) -> i64 {
    match keyed(context.quest_progress@, quest_category) {
        None => 0,
        Some(entries) => if pattern == "multi_battle_clear_count"@ {
            multi_clear_sum(entries@)
        } else if entries@.len() > i64::MAX {
            i64::MAX
        } else {
            entries@.len() as i64
        },
    }
}

/// The battle clears of one quest category.
pub fn battle_progress_for_category(context: &ComputeContext, pattern: &str, quest_category: i64) -> (r:
    i64)
    ensures
        r == spec_battle_progress_for_category(context, pattern@, quest_category),
{
    let index = match find_key_index(&context.quest_progress, quest_category) {
        Some(index) => index,
        None => return 0,
    };
    let entries = &context.quest_progress[index].1;
    if str_eq(pattern, "multi_battle_clear_count") {
        let mut total: i64 = 0;
        let mut i: usize = 0;
        while i < entries.len()
            invariant
                i <= entries@.len(),
                total == multi_clear_sum(entries@.subrange(0, i as int)),
            decreases entries@.len() - i,
        {
            let count: i64 = match entries[i].multi_clear_count {
                Some(count) => count,
                None => 1,
            };
            let count = if count < 0 {
                0
            } else {
                count
            };
            total = add_saturating(total, count);
            assert(entries@.subrange(0, i + 1).drop_last() =~= entries@.subrange(0, i as int));
            i = i + 1;
        }
        assert(entries@.subrange(0, entries@.len() as int) =~= entries@);
        total
    } else {
        if entries.len() as u64 > i64::MAX as u64 {
            i64::MAX
        } else {
            entries.len() as i64
        }
    }
}

/// The progress of one scoped category: the reported counter where there is
/// one, else the clears the player data shows.
pub open spec fn scoped_category_progress(
    context: &ComputeContext,
    counters: &Counts,
    pattern: Seq<char>,
    quest_category: i64,
) -> i64 {
    let key = spec_scoped_battle_counter_key(pattern, quest_category);
    if counters.view().contains_key(key) {
        counters.view()[key]
    } else {
        spec_battle_progress_for_category(context, pattern, quest_category)
    }
}

/// The saturating sum of the scoped progress over quest categories.
pub open spec fn scoped_sum(
    context: &ComputeContext,
    counters: &Counts,
    pattern: Seq<char>,
    categories: Seq<i64>,
) -> i64
    decreases categories.len(),
{
    if categories.len() == 0 {
        0
    } else {
        saturating_add(
            scoped_sum(context, counters, pattern, categories.drop_last()) as int,
            scoped_category_progress(context, counters, pattern, categories.last()) as int,
        )
    }
}

/// The pattern text of a mission (empty where it has none).
pub open spec fn pattern_text(mission: &MissionDefinition) -> Seq<char> {
    match mission.pattern {
        Some(p) => p@,
        None => seq![],
    }
}

/// The progress of a scoped battle mission summed over its categories.
pub fn scoped_battle_progress(mission: &MissionDefinition, context: &ComputeContext, counters: &Counts) -> (r:
    i64)
    ensures
        r == scoped_sum(context, counters, pattern_text(mission), mission.quest_categories@),
{
    let empty = String::new();
    let pattern: &str = match &mission.pattern {
        Some(p) => p.as_str(),
        None => empty.as_str(),
    };
    assert(pattern@ == pattern_text(mission));
    let categories = &mission.quest_categories;
    let mut total: i64 = 0;
    let mut i: usize = 0;
    while i < categories.len()
        invariant
            i <= categories@.len(),
            categories@ == mission.quest_categories@,
            pattern@ == pattern_text(mission),
            total == scoped_sum(context, counters, pattern@, categories@.subrange(0, i as int)),
        decreases categories@.len() - i,
    {
        let quest_category = categories[i];
        let key = scoped_battle_counter_key(pattern, quest_category);
        let progress = match counters.get(key.as_str()) {
            Some(value) => value,
            None => battle_progress_for_category(context, pattern, quest_category),
        };
        total = add_saturating(total, progress);
        assert(categories@.subrange(0, i + 1).drop_last() =~= categories@.subrange(0, i as int));
        i = i + 1;
    }
    assert(categories@.subrange(0, categories@.len() as int) =~= categories@);
    total
}

/// The quests, time limit and leader that a quest-clear awakening mission
/// asks for, by mission id, with the quest category they belong to.
pub open spec fn quest_clear_rule(mission_id: i64) -> Option<(i64, Seq<i64>, Option<i64>, Option<i64>)> {
    if mission_id == 1_110_013 {
        Some((2, seq![1_028_004], None, Some(111_001)))
    } else if mission_id == 1_310_052 {
        Some((15, seq![96], None, Some(131_005)))
    } else if mission_id == 1_410_032 {
        Some((2, seq![1_020_003], None, None))
    } else if mission_id == 2_110_013 {
        Some((2, seq![1_028_004], None, Some(211_001)))
    } else if mission_id == 2_310_013 {
        Some((2, seq![1_010_004], Some(90_000), Some(231_001)))
    } else if mission_id == 2_510_032 {
        Some((13, seq![1_020, 1_023, 1_026, 1_029, 1_032, 1_035, 1_038], None, Some(251_003)))
    } else if mission_id == 2_510_033 {
        Some((13, seq![1_020, 1_023, 1_026, 1_029, 1_032, 1_035, 1_038], Some(180_000), Some(251_003)))
    } else if mission_id == 2_630_023 {
        Some((19, seq![100_100_004, 100_401_004], None, Some(151_006)))
    } else {
        None
    }
}

/// Whether a finished quest meets a quest-clear rule.
pub open spec fn meets_rule(
    entry: QuestProgressEntry,
    quest_ids: Seq<i64>,
    limit: Option<i64>,
    leader: Option<i64>,
) -> bool {
    &&& quest_ids.contains(entry.quest_id)
    &&& (limit matches Some(l) ==> (entry.best_elapsed_time_ms matches Some(t) && t <= l))
    &&& (leader matches Some(c) ==> entry.leader_character_id == Some(c))
}

/// 1 where some finished quest of the rule's category meets it, else 0;
/// `None` for a mission without such a rule.
pub open spec fn spec_quest_clear_progress(mission_id: i64, context: &ComputeContext) -> Option<i64> {
    match quest_clear_rule(mission_id) {
        None => None,
        Some((category, quest_ids, limit, leader)) => Some(
            if keyed(context.quest_progress@, category) matches Some(entries) && exists|i: int|
                0 <= i < entries@.len() && meets_rule(entries@[i], quest_ids, limit, leader) {
                1
            } else {
                0
            },
        ),
    }
}

/// The progress of an awakening mission that asks for a specific quest
/// clear.
pub fn quest_clear_progress(mission_id: i64, context: &ComputeContext) -> (r: Option<i64>)
    ensures
        r == spec_quest_clear_progress(mission_id, context),
{
    let (category, quest_ids, limit, leader): (i64, Vec<i64>, Option<i64>, Option<i64>) =
        if mission_id == 1_110_013 {
        (2, vec![1_028_004], None, Some(111_001))
    } else if mission_id == 1_310_052 {
        (15, vec![96], None, Some(131_005))
    } else if mission_id == 1_410_032 {
        (2, vec![1_020_003], None, None)
    } else if mission_id == 2_110_013 {
        (2, vec![1_028_004], None, Some(211_001))
    } else if mission_id == 2_310_013 {
        (2, vec![1_010_004], Some(90_000), Some(231_001))
    } else if mission_id == 2_510_032 {
        (13, vec![1_020, 1_023, 1_026, 1_029, 1_032, 1_035, 1_038], None, Some(251_003))
    } else if mission_id == 2_510_033 {
        (13, vec![1_020, 1_023, 1_026, 1_029, 1_032, 1_035, 1_038], Some(180_000), Some(251_003))
    } else if mission_id == 2_630_023 {
        (19, vec![100_100_004, 100_401_004], None, Some(151_006))
    } else {
        return None;
    };
    proof {
        let rule = quest_clear_rule(mission_id)->0;
        assert(quest_ids@ =~= rule.1);
    }
    let index = match find_key_index(&context.quest_progress, category) {
        Some(index) => index,
        None => return Some(0),
    };
    proof {
        lemma_key_index(context.quest_progress@, category);
    }
    let entries = &context.quest_progress[index].1;
    let mut i: usize = 0;
    while i < entries.len()
        invariant
            i <= entries@.len(),
            keyed(context.quest_progress@, category) matches Some(e) && e@ == entries@,
            quest_clear_rule(mission_id) == Some((category, quest_ids@, limit, leader)),
            forall|j: int| 0 <= j < i ==> !meets_rule(entries@[j], quest_ids@, limit, leader),
        decreases entries@.len() - i,
    {
        let entry = entries[i];
        let mut quest_matches = false;
        let mut k: usize = 0;
        while k < quest_ids.len()
            invariant
                k <= quest_ids@.len(),
                quest_matches == (exists|q: int| 0 <= q < k && quest_ids@[q] == entry.quest_id),
            decreases quest_ids@.len() - k,
        {
            if quest_ids[k] == entry.quest_id {
                quest_matches = true;
            }
            k = k + 1;
        }
        let time_ok = match limit {
            Some(l) => match entry.best_elapsed_time_ms {
                Some(t) => t <= l,
                None => false,
            },
            None => true,
        };
        let leader_ok = match leader {
            Some(c) => entry.leader_character_id == Some(c),
            None => true,
        };
        proof {
            if quest_matches {
                let q = choose|q: int| 0 <= q < k && quest_ids@[q] == entry.quest_id;
                assert(quest_ids@.contains(entry.quest_id));
            } else {
                assert forall|q: int| 0 <= q < quest_ids@.len() implies quest_ids@[q]
                    != entry.quest_id by {}
            }
        }
        if quest_matches && time_ok && leader_ok {
            return Some(1);
        }
        i = i + 1;
    }
    Some(0)
}

/// The co-clear key of two characters: the smaller id first.
pub open spec fn co_clear_key(a: i64, b: i64) -> Seq<char> {
    if a < b {
        decimal(a as int) + "_"@ + decimal(b as int)
    } else {
        decimal(b as int) + "_"@ + decimal(a as int)
    }
}

/// The co-clears of the pair at `i` and `j`.
pub open spec fn pair_clears(ids: Seq<i64>, co_clears: Map<Seq<char>, i64>, i: int, j: int) -> i64 {
    value_or(co_clears, co_clear_key(ids[i], ids[j]), 0)
}

/// Whether `m` is the least co-clear count over all pairs of ids.
pub open spec fn is_pair_minimum(ids: Seq<i64>, co_clears: Map<Seq<char>, i64>, m: i64) -> bool {
    &&& exists|i: int, j: int| 0 <= i < j < ids.len() && pair_clears(ids, co_clears, i, j) == m
    &&& forall|i: int, j: int| 0 <= i < j < ids.len() ==> m <= pair_clears(ids, co_clears, i, j)
}

/// The least co-clear count over all pairs of the characters (0 where
/// there is no pair).
pub open spec fn spec_minimum_co_clears(ids: Seq<i64>, co_clears: Map<Seq<char>, i64>) -> i64 {
    if ids.len() < 2 {
        0
    } else {
        choose|m: i64| is_pair_minimum(ids, co_clears, m)
    }
}

/// The least co-clear count of character `b` with the characters before
/// position `t`.
spec fn row_minimum(ids: Seq<i64>, co_clears: Map<Seq<char>, i64>, b: int, t: int) -> i64
    decreases t,
{
    if t <= 1 {
        pair_clears(ids, co_clears, 0, b)
    } else {
        let rest = row_minimum(ids, co_clears, b, t - 1);
        let last = pair_clears(ids, co_clears, t - 1, b);
        if last < rest {
            last
        } else {
            rest
        }
    }
}

/// The least co-clear count over the pairs of the first `k` characters.
spec fn prefix_pair_minimum(ids: Seq<i64>, co_clears: Map<Seq<char>, i64>, k: int) -> i64
    decreases k,
{
    if k <= 2 {
        pair_clears(ids, co_clears, 0, 1)
    } else {
        let rest = prefix_pair_minimum(ids, co_clears, k - 1);
        let row = row_minimum(ids, co_clears, k - 1, k - 1);
        if row < rest {
            row
        } else {
            rest
        }
    }
}

proof fn lemma_row_minimum(ids: Seq<i64>, co_clears: Map<Seq<char>, i64>, b: int, t: int)
    requires
        1 <= t <= b < ids.len(),
    ensures
        exists|a: int| 0 <= a < t && pair_clears(ids, co_clears, a, b) == row_minimum(ids, co_clears, b, t),
        forall|a: int| 0 <= a < t ==> row_minimum(ids, co_clears, b, t) <= pair_clears(ids, co_clears, a, b),
    decreases t,
{
    if t <= 1 {
        assert(pair_clears(ids, co_clears, 0, b) == row_minimum(ids, co_clears, b, t));
    } else {
        lemma_row_minimum(ids, co_clears, b, t - 1);
        let rest = row_minimum(ids, co_clears, b, t - 1);
        let last = pair_clears(ids, co_clears, t - 1, b);
        if last < rest {
            assert(pair_clears(ids, co_clears, t - 1, b) == row_minimum(ids, co_clears, b, t));
        } else {
            let a = choose|a: int| 0 <= a < t - 1 && pair_clears(ids, co_clears, a, b) == rest;
            assert(pair_clears(ids, co_clears, a, b) == row_minimum(ids, co_clears, b, t));
        }
    }
}

proof fn lemma_prefix_pair_minimum(ids: Seq<i64>, co_clears: Map<Seq<char>, i64>, k: int)
    requires
        2 <= k <= ids.len(),
    ensures
        exists|a: int, b: int|
            0 <= a < b < k && pair_clears(ids, co_clears, a, b) == prefix_pair_minimum(ids, co_clears, k),
        forall|a: int, b: int|
            0 <= a < b < k ==> prefix_pair_minimum(ids, co_clears, k) <= pair_clears(ids, co_clears, a, b),
    decreases k,
{
    let m = prefix_pair_minimum(ids, co_clears, k);
    if k <= 2 {
        assert(pair_clears(ids, co_clears, 0, 1) == m);
    } else {
        lemma_prefix_pair_minimum(ids, co_clears, k - 1);
        lemma_row_minimum(ids, co_clears, k - 1, k - 1);
        let rest = prefix_pair_minimum(ids, co_clears, k - 1);
        let row = row_minimum(ids, co_clears, k - 1, k - 1);
        if row < rest {
            let a = choose|a: int| 0 <= a < k - 1 && #[trigger] pair_clears(ids, co_clears, a, k - 1) == row;
            assert(pair_clears(ids, co_clears, a, k - 1) == m);
        } else {
            let (a, b) = choose|a: int, b: int|
                0 <= a < b < k - 1 && pair_clears(ids, co_clears, a, b) == rest;
            assert(pair_clears(ids, co_clears, a, b) == m);
        }
        assert forall|a: int, b: int| 0 <= a < b < k implies m <= pair_clears(ids, co_clears, a, b) by {
            if b < k - 1 {
            } else {
                assert(row <= pair_clears(ids, co_clears, a, k - 1));
            }
        };
    }
}

/// Among at least two characters the least co-clear count over their
/// pairs exists, and `spec_minimum_co_clears` is that count: the count of
/// some pair, and no pair has fewer.
pub proof fn lemma_minimum_co_clears_exists(ids: Seq<i64>, co_clears: Map<Seq<char>, i64>)
    requires
        ids.len() >= 2,
    ensures
        is_pair_minimum(ids, co_clears, spec_minimum_co_clears(ids, co_clears)),
        forall|m: i64| is_pair_minimum(ids, co_clears, m) ==> m == spec_minimum_co_clears(ids, co_clears),
{
    lemma_prefix_pair_minimum(ids, co_clears, ids.len() as int);
    let m = prefix_pair_minimum(ids, co_clears, ids.len() as int);
    assert(is_pair_minimum(ids, co_clears, m));
    let chosen = spec_minimum_co_clears(ids, co_clears);
    assert(is_pair_minimum(ids, co_clears, chosen));
    assert forall|x: i64| is_pair_minimum(ids, co_clears, x) implies x == chosen by {
        let (a, b) = choose|a: int, b: int|
            0 <= a < b < ids.len() && pair_clears(ids, co_clears, a, b) == x;
        let (c, d) = choose|a: int, b: int|
            0 <= a < b < ids.len() && pair_clears(ids, co_clears, a, b) == chosen;
        assert(chosen <= pair_clears(ids, co_clears, a, b));
        assert(x <= pair_clears(ids, co_clears, c, d));
    };
}

/// The key of the pair, as `minimum_co_clears` builds it.
fn co_clear_key_string(a: i64, b: i64) -> (r: String)
    ensures
        r@ == co_clear_key(a, b),
{
    let (low, high) = if a < b {
        (a, b)
    } else {
        (b, a)
    };
    let mut key = decimal_string(low);
    key.append("_");
    append_decimal(&mut key, high);
    key
}

/// The number of battles that every pair of the characters cleared
/// together, at the least.
pub fn minimum_co_clears(character_ids: &Vec<i64>, co_clears: &Counts) -> (r: i64)
    ensures
        r == spec_minimum_co_clears(character_ids@, co_clears.view()),
{
    let ghost ids = character_ids@;
    let ghost co = co_clears.view();
    let n = character_ids.len();
    let mut minimum: Option<i64> = None;
    let mut i: usize = 0;
    while i < n
        invariant
            n == ids.len(),
            ids == character_ids@,
            co == co_clears.view(),
            i <= n,
            minimum is None <==> (i == 0 || (i == 1 && n == 1) || n < 2),
            minimum matches Some(m) ==> (exists|a: int, b: int|
                0 <= a < b < n && a < i && pair_clears(ids, co, a, b) == m),
            minimum matches Some(m) ==> (forall|a: int, b: int|
                0 <= a < b < n && a < i ==> m <= pair_clears(ids, co, a, b)),
        decreases n - i,
    {
        let mut j = i + 1;
        let ghost start_minimum = minimum;
        while j < n
            invariant
                n == ids.len(),
                ids == character_ids@,
                co == co_clears.view(),
                i < n,
                i + 1 <= j <= n,
                minimum is None ==> (start_minimum is None && j == i + 1),
                minimum is Some ==> (start_minimum is Some || j > i + 1),
                start_minimum matches Some(m) ==> (exists|a: int, b: int|
                    0 <= a < b < n && a < i && pair_clears(ids, co, a, b) == m),
                start_minimum matches Some(m) ==> (forall|a: int, b: int|
                    0 <= a < b < n && a < i ==> m <= pair_clears(ids, co, a, b)),
                minimum matches Some(m) ==> (exists|a: int, b: int|
                    0 <= a < b < n && (a < i || (a == i && b < j)) && pair_clears(ids, co, a, b)
                        == m),
                minimum matches Some(m) ==> (forall|a: int, b: int|
                    0 <= a < b < n && (a < i || (a == i && b < j)) ==> m <= pair_clears(
                        ids,
                        co,
                        a,
                        b,
                    )),
                start_minimum is None ==> (i == 0 || n < 2 || (i == 1 && n == 1)),
                start_minimum is Some ==> i > 0,
            decreases n - j,
        {
            let key = co_clear_key_string(character_ids[i], character_ids[j]);
            let count = co_clears.get_or_zero(key.as_str());
            assert(count == pair_clears(ids, co, i as int, j as int));
            minimum = match minimum {
                Some(current) => Some(if count < current {
                    count
                } else {
                    current
                }),
                None => Some(count),
            };
            j = j + 1;
        }
        proof {
            if i + 1 < n {
                assert(minimum is Some);
            }
        }
        i = i + 1;
    }
    match minimum {
        Some(m) => {
            proof {
                assert(is_pair_minimum(ids, co, m));
                let c = choose|x: i64| is_pair_minimum(ids, co, x);
                let (a, b) = choose|a: int, b: int|
                    0 <= a < b < ids.len() && pair_clears(ids, co, a, b) == c;
                let (a2, b2) = choose|a: int, b: int|
                    0 <= a < b < ids.len() && pair_clears(ids, co, a, b) == m;
                assert(m <= pair_clears(ids, co, a, b));
                assert(c <= pair_clears(ids, co, a2, b2));
            }
            m
        },
        None => 0,
    }
}

/// Inserts `x` into a strictly ascending list, keeping it so.
pub open spec fn insert_sorted(sorted: Seq<Seq<char>>, x: Seq<char>) -> Seq<Seq<char>>
    decreases sorted.len(),
{
    if sorted.len() == 0 {
        seq![x]
    } else if sorted[0] == x {
        sorted
    } else if lex_lt(x, sorted[0]) {
        seq![x] + sorted
    } else {
        seq![sorted[0]] + insert_sorted(sorted.drop_first(), x)
    }
}

/// The races in ascending order without repetition.
pub open spec fn sorted_races(races: Seq<Seq<char>>) -> Seq<Seq<char>>
    decreases races.len(),
{
    if races.len() == 0 {
        seq![]
    } else {
        insert_sorted(sorted_races(races.drop_last()), races.last())
    }
}

/// The race-clear key of a set of races: distinct races in ascending
/// order, joined by `+`.
pub open spec fn spec_race_key(races: Seq<Seq<char>>) -> Seq<char> {
    joined(sorted_races(races), "+"@)
}

/// Inserts `x` into the sorted list `sorted`.
fn insert_race(sorted: &mut Vec<String>, x: &String)
    ensures
        views(final(sorted)@) == insert_sorted(views(old(sorted)@), x@),
{
    let mut i: usize = 0;
    let ghost whole = views(sorted@);
    assert(whole.subrange(0, whole.len() as int) =~= whole);
    while i < sorted.len()
        invariant
            i <= sorted@.len(),
            whole == views(sorted@),
            sorted@ == old(sorted)@,
            forall|k: int| 0 <= k < i ==> whole[k] != x@ && !lex_lt(x@, whole[k]),
            insert_sorted(whole, x@) == whole.subrange(0, i as int) + insert_sorted(
                whole.subrange(i as int, whole.len() as int),
                x@,
            ),
        decreases sorted@.len() - i,
    {
        let ghost rest = whole.subrange(i as int, whole.len() as int);
        assert(rest[0] == sorted@[i as int]@);
        if str_eq(sorted[i].as_str(), x.as_str()) {
            assert(insert_sorted(rest, x@) == rest);
            assert(whole.subrange(0, i as int) + rest =~= whole);
            return;
        }
        if str_lt(x.as_str(), sorted[i].as_str()) {
            let ghost before = sorted@;
            sorted.insert(i, x.clone());
            proof {
                assert(insert_sorted(rest, x@) == seq![x@] + rest);
                assert(views(sorted@) =~= whole.subrange(0, i as int) + (seq![x@] + rest));
            }
            return;
        }
        proof {
            assert(rest.drop_first() =~= whole.subrange(i + 1, whole.len() as int));
            assert(whole.subrange(0, i as int) + (seq![rest[0]] + insert_sorted(rest.drop_first(), x@))
                =~= whole.subrange(0, i + 1) + insert_sorted(rest.drop_first(), x@));
        }
        i = i + 1;
    }
    let ghost before = sorted@;
    sorted.push(x.clone());
    proof {
        assert(whole.subrange(i as int, whole.len() as int) =~= Seq::<Seq<char>>::empty());
        assert(views(sorted@) =~= whole.subrange(0, i as int) + seq![x@]);
    }
}

/// The race-clear key of a mission's races.
fn race_key(races: &Vec<String>) -> (r: String)
    ensures
        r@ == spec_race_key(views(races@)),
{
    let mut sorted: Vec<String> = Vec::new();
    let mut i: usize = 0;
    while i < races.len()
        invariant
            i <= races@.len(),
            views(sorted@) == sorted_races(views(races@.subrange(0, i as int))),
        decreases races@.len() - i,
    {
        insert_race(&mut sorted, &races[i]);
        proof {
            let next = views(races@.subrange(0, i + 1));
            assert(next.drop_last() =~= views(races@.subrange(0, i as int)));
            assert(next.last() == races@[i as int]@);
        }
        i = i + 1;
    }
    assert(races@.subrange(0, races@.len() as int) =~= races@);
    crate::text::join(&sorted, "+")
}

/// The character ids a specific-characters mission needs: the required
/// ids, and the leader where it is not among them.
pub open spec fn required_characters(mission: &MissionDefinition) -> Seq<i64> {
    match mission.leader_character_id {
        Some(leader) => if mission.required_character_ids@.contains(leader) {
            mission.required_character_ids@
        } else {
            mission.required_character_ids@.push(leader)
        },
        None => mission.required_character_ids@,
    }
}

/// The leader clears a mission counts: multi-battle clears for battle kind
/// 2, else single-battle clears.
pub open spec fn leader_counts(mission: &MissionDefinition, context: &ComputeContext) -> Map<
    Seq<char>,
    i64,
> {
    if mission.battle_kind == Some(2i64) {
        context.leader_multi_clears.view()
    } else {
        context.leader_clears.view()
    }
}

/// How many of the story quests are finished.
pub open spec fn finished_count(stories: Seq<i64>, finished: Seq<i64>) -> int
    decreases stories.len(),
{
    if stories.len() == 0 {
        0
    } else {
        finished_count(stories.drop_last(), finished) + if finished.contains(stories.last()) {
            1int
        } else {
            0int
        }
    }
}

/// The first mission with this id.
pub open spec fn find_mission(missions: Seq<MissionDefinition>, mission_id: i64) -> Option<
    MissionDefinition,
>
    decreases missions.len(),
{
    if missions.len() == 0 {
        None
    } else if missions[0].id == mission_id {
        Some(missions[0])
    } else {
        find_mission(missions.drop_first(), mission_id)
    }
}

/// The awakening mission (category 9) with this id.
pub open spec fn awake_mission(catalog: &MissionCatalog, mission_id: i64) -> Option<MissionDefinition> {
    match keyed(catalog.categories@, 9) {
        Some(missions) => find_mission(missions@, mission_id),
        None => None,
    }
}

/// Progress of an awakening mission by its last digit, where no pattern or
/// leader decides it.
pub open spec fn awake_progress_by_digit(
    mission_id: i64,
    context: &ComputeContext,
    catalog: &MissionCatalog,
) -> i64
    decreases (if mission_id % 10 == 4 {
        1int
    } else {
        0int
    }), 0int,
{
    let character_id = spec_mission_character_id(mission_id);
    let clear_count = value_or(context.character_clears.view(), character_id, 0);
    let digit = mission_id % 10;
    if digit == 1 {
        match text_keyed(catalog.character_stories@, character_id) {
            Some(stories) => if stories@.len() > 0 {
                finished_count(stories@, context.finished_quests@) as i64
            } else {
                clear_count
            },
            None => clear_count,
        }
    } else if digit == 2 {
        if character_id == "1"@ {
            context.total_stories
        } else {
            clear_count
        }
    } else if digit == 3 {
        if character_id == "1"@ {
            context.total_powerflips
        } else {
            clear_count
        }
    } else if digit == 4 && mission_id > i64::MIN + 3 {
        ((if spec_awake_progress((mission_id - 3) as i64, context, catalog) >= 1 {
            1i64
        } else {
            0i64
        }) + (if spec_awake_progress((mission_id - 2) as i64, context, catalog) >= 1 {
            1i64
        } else {
            0i64
        }) + (if spec_awake_progress((mission_id - 1) as i64, context, catalog) >= 1 {
            1i64
        } else {
            0i64
        })) as i64
    } else {
        0
    }
}

/// The progress of an awakening mission: a quest-clear rule where it has
/// one, then its pattern (race clears, clears with specific characters,
/// power flips), then the clears led by its leader, then its last digit
/// (stories, story or power-flip totals, or the three missions before it).
pub open spec fn spec_awake_progress(mission_id: i64, context: &ComputeContext, catalog: &MissionCatalog) -> i64
    decreases (if mission_id % 10 == 4 {
        1int
    } else {
        0int
    }), 1int,
{
    match awake_mission(catalog, mission_id) {
        None => 0,
        Some(mission) => match spec_quest_clear_progress(mission_id, context) {
            Some(progress) => progress,
            None => {
                let required = required_characters(&mission);
                if pattern_is(&mission, "battle_clear_with_specific_races"@)
                    && mission.required_races@.len() > 0 {
                    value_or(
                        context.race_clears.view(),
                        spec_race_key(views(mission.required_races@)),
                        0,
                    )
                } else if pattern_is(&mission, "battle_clear_with_specific_characters"@)
                    && required.len() >= 2 {
                    let co = spec_minimum_co_clears(required, context.co_clears.view());
                    match mission.leader_character_id {
                        Some(leader) => {
                            let led = value_or(context.leader_clears.view(), decimal(leader as int), 0);
                            if led < co {
                                led
                            } else {
                                co
                            }
                        },
                        None => co,
                    }
                } else if pattern_is(&mission, "battle_clear_with_specific_characters"@)
                    && mission.leader_character_id is None && required.len() > 0 {
                    value_or(context.character_clears.view(), decimal(required[0] as int), 0)
                } else if pattern_is(&mission, "battle_zone_statistics_count"@)
                    && mission.statistics_kind == Some(1i64) && mission.leader_character_id is Some {
                    value_or(
                        context.leader_powerflips.view(),
                        decimal(mission.leader_character_id->0 as int),
                        0,
                    )
                } else if mission.leader_character_id is Some {
                    value_or(
                        leader_counts(&mission, context),
                        decimal(mission.leader_character_id->0 as int),
                        0,
                    )
                } else {
                    awake_progress_by_digit(mission_id, context, catalog)
                }
            },
        },
    }
}

/// An awakening mission with a leader that none of the race, character
/// group or power-flip rules decides counts the clears its leader led: the
/// multiplayer clears for a multiplayer mission (battle kind 2), the
/// other clears otherwise.
pub proof fn lemma_awake_leader_progress(
    mission_id: i64,
    context: &ComputeContext,
    catalog: &MissionCatalog,
    mission: MissionDefinition,
    leader: i64,
)
    requires
        awake_mission(catalog, mission_id) == Some(mission),
        spec_quest_clear_progress(mission_id, context) is None,
        mission.leader_character_id == Some(leader),
        !(pattern_is(&mission, "battle_clear_with_specific_races"@)
            && mission.required_races@.len() > 0),
        !(pattern_is(&mission, "battle_clear_with_specific_characters"@) && required_characters(
            &mission,
        ).len() >= 2),
        !(pattern_is(&mission, "battle_zone_statistics_count"@) && mission.statistics_kind == Some(
            1i64,
        )),
    ensures
        mission.battle_kind == Some(2i64) ==> spec_awake_progress(mission_id, context, catalog)
            == value_or(context.leader_multi_clears.view(), decimal(leader as int), 0),
        mission.battle_kind != Some(2i64) ==> spec_awake_progress(mission_id, context, catalog)
            == value_or(context.leader_clears.view(), decimal(leader as int), 0),
{
}

/// The battle-statistics rules of awakening missions: a power-flip mission
/// with a leader counts the power flips its leader made; a mission for a
/// group of at least two characters counts the clears the whole group made
/// together (the least count over its pairs), no more than its leader led
/// where it has one.
pub proof fn lemma_awake_statistics_progress(
    mission_id: i64,
    context: &ComputeContext,
    catalog: &MissionCatalog,
    mission: MissionDefinition,
)
    requires
        awake_mission(catalog, mission_id) == Some(mission),
        spec_quest_clear_progress(mission_id, context) is None,
    ensures
        pattern_is(&mission, "battle_zone_statistics_count"@) && mission.statistics_kind == Some(
            1i64,
        ) && mission.leader_character_id is Some ==> spec_awake_progress(mission_id, context, catalog)
            == value_or(
            context.leader_powerflips.view(),
            decimal(mission.leader_character_id->0 as int),
            0,
        ),
        pattern_is(&mission, "battle_clear_with_specific_characters"@) && required_characters(
            &mission,
        ).len() >= 2 ==> {
            let co = spec_minimum_co_clears(required_characters(&mission), context.co_clears.view());
            let r = spec_awake_progress(mission_id, context, catalog);
            &&& r <= co
            &&& mission.leader_character_id is Some ==> {
                let led = value_or(
                    context.leader_clears.view(),
                    decimal(mission.leader_character_id->0 as int),
                    0,
                );
                r <= led && (r == co || r == led)
            }
            &&& mission.leader_character_id is None ==> r == co
        },
{
    reveal_strlit("battle_zone_statistics_count");
    reveal_strlit("battle_clear_with_specific_races");
    reveal_strlit("battle_clear_with_specific_characters");
    assert("battle_zone_statistics_count"@.len() == 28);
    assert("battle_clear_with_specific_races"@.len() == 32);
    assert("battle_clear_with_specific_characters"@.len() == 37);
}

/// The awakening mission with this id, if the catalog has one.
fn find_awake_mission<'a>(catalog: &'a MissionCatalog, mission_id: i64) -> (r: Option<
    &'a MissionDefinition,
>)
    ensures
        match r {
            Some(m) => awake_mission(catalog, mission_id) == Some(*m),
            None => awake_mission(catalog, mission_id) is None,
        },
{
    let index = find_key_index(&catalog.categories, 9)?;
    proof {
        lemma_key_index(catalog.categories@, 9);
    }
    let missions = &catalog.categories[index].1;
    let mut i: usize = 0;
    assert(missions@.subrange(0, missions@.len() as int) =~= missions@);
    while i < missions.len()
        invariant
            i <= missions@.len(),
            keyed(catalog.categories@, 9) matches Some(m) && m@ == missions@,
            find_mission(missions@, mission_id) == find_mission(
                missions@.subrange(i as int, missions@.len() as int),
                mission_id,
            ),
        decreases missions@.len() - i,
    {
        let ghost rest = missions@.subrange(i as int, missions@.len() as int);
        assert(rest.drop_first() =~= missions@.subrange(i + 1, missions@.len() as int));
        if missions[i].id == mission_id {
            return Some(&missions[i]);
        }
        i = i + 1;
    }
    None
}

/// The required characters of a mission as a vector.
fn required_character_list(mission: &MissionDefinition) -> (r: Vec<i64>)
    ensures
        r@ == required_characters(mission),
{
    let mut required = mission.required_character_ids.clone();
    assert(required@ == mission.required_character_ids@);
    if let Some(leader) = mission.leader_character_id {
        let mut contained = false;
        let mut i: usize = 0;
        while i < required.len()
            invariant
                i <= required@.len(),
                required@ == mission.required_character_ids@,
                contained == (exists|k: int| 0 <= k < i && required@[k] == leader),
            decreases required@.len() - i,
        {
            if required[i] == leader {
                contained = true;
            }
            i = i + 1;
        }
        proof {
            if contained {
                let k = choose|k: int| 0 <= k < i && required@[k] == leader;
                assert(mission.required_character_ids@.contains(leader));
            } else {
                assert(!mission.required_character_ids@.contains(leader));
            }
        }
        if !contained {
            required.push(leader);
        }
    }
    required
}

/// The value of `key` in `counts` where the key is a character id.
fn count_by_id(counts: &Counts, id: i64) -> (r: i64)
    ensures
        r == value_or(counts.view(), decimal(id as int), 0),
{
    let key = decimal_string(id);
    counts.get_or_zero(key.as_str())
}

/// The progress of an awakening mission.
pub fn awake_progress(mission_id: i64, context: &ComputeContext, catalog: &MissionCatalog) -> (r: i64)
    ensures
        r == spec_awake_progress(mission_id, context, catalog),
    decreases (if mission_id % 10 == 4 {
        1int
    } else {
        0int
    }), 1int,
{
    let mission = match find_awake_mission(catalog, mission_id) {
        Some(mission) => mission,
        None => return 0,
    };
    if let Some(progress) = quest_clear_progress(mission_id, context) {
        return progress;
    }
    let required = required_character_list(mission);
    let races_pattern = match &mission.pattern {
        Some(p) => str_eq(p.as_str(), "battle_clear_with_specific_races"),
        None => false,
    };
    let characters_pattern = match &mission.pattern {
        Some(p) => str_eq(p.as_str(), "battle_clear_with_specific_characters"),
        None => false,
    };
    let statistics_pattern = match &mission.pattern {
        Some(p) => str_eq(p.as_str(), "battle_zone_statistics_count"),
        None => false,
    };
    if races_pattern && mission.required_races.len() > 0 {
        let key = race_key(&mission.required_races);
        return context.race_clears.get_or_zero(key.as_str());
    }
    if characters_pattern && required.len() >= 2 {
        let co = minimum_co_clears(&required, &context.co_clears);
        return match mission.leader_character_id {
            Some(leader) => {
                let led = count_by_id(&context.leader_clears, leader);
                if led < co {
                    led
                } else {
                    co
                }
            },
            None => co,
        };
    }
    if characters_pattern && mission.leader_character_id.is_none() && required.len() > 0 {
        return count_by_id(&context.character_clears, required[0]);
    }
    if statistics_pattern && mission.statistics_kind == Some(1) {
        if let Some(leader) = mission.leader_character_id {
            return count_by_id(&context.leader_powerflips, leader);
        }
    }
    if let Some(leader) = mission.leader_character_id {
        return if mission.battle_kind == Some(2) {
            count_by_id(&context.leader_multi_clears, leader)
        } else {
            count_by_id(&context.leader_clears, leader)
        };
    }
    awake_progress_by_last_digit(mission_id, context, catalog)
}

/// The non-negative remainder of `n` divided by 10.
fn last_digit(n: i64) -> (r: i64)
    ensures
        r == n % 10,
{
    if n >= 0 {
        n % 10
    } else {
        let m: i64 = -(n + 1);
        9 - m % 10
    }
}

/// The progress of an awakening mission that only its last digit decides.
fn awake_progress_by_last_digit(mission_id: i64, context: &ComputeContext, catalog: &MissionCatalog) -> (r:
    i64)
    ensures
        r == awake_progress_by_digit(mission_id, context, catalog),
    decreases (if mission_id % 10 == 4 {
        1int
    } else {
        0int
    }), 0int,
{
    let character_id = mission_character_id(mission_id);
    let clear_count = context.character_clears.get_or_zero(character_id.as_str());
    let digit = last_digit(mission_id);
    if digit == 1 {
        match find_text_key_index(&catalog.character_stories, character_id.as_str()) {
            Some(index) => {
                let stories = &catalog.character_stories[index].1;
                if stories.len() == 0 {
                    return clear_count;
                }
                let mut count: usize = 0;
                let mut i: usize = 0;
                while i < stories.len()
                    invariant
                        i <= stories@.len(),
                        count == finished_count(stories@.subrange(0, i as int), context.finished_quests@),
                        count <= i,
                    decreases stories@.len() - i,
                {
                    let quest = stories[i];
                    let mut finished = false;
                    let mut k: usize = 0;
                    while k < context.finished_quests.len()
                        invariant
                            k <= context.finished_quests@.len(),
                            finished == (exists|q: int|
                                0 <= q < k && context.finished_quests@[q] == quest),
                        decreases context.finished_quests@.len() - k,
                    {
                        if context.finished_quests[k] == quest {
                            finished = true;
                        }
                        k = k + 1;
                    }
                    proof {
                        assert(stories@.subrange(0, i + 1).drop_last() =~= stories@.subrange(
                            0,
                            i as int,
                        ));
                        if finished {
                            let q = choose|q: int|
                                0 <= q < k && context.finished_quests@[q] == quest;
                            assert(context.finished_quests@.contains(quest));
                        }
                    }
                    if finished {
                        count = count + 1;
                    }
                    i = i + 1;
                }
                assert(stories@.subrange(0, stories@.len() as int) =~= stories@);
                count as i64
            },
            None => clear_count,
        }
    } else if digit == 2 {
        if str_eq(character_id.as_str(), "1") {
            context.total_stories
        } else {
            clear_count
        }
    } else if digit == 3 {
        if str_eq(character_id.as_str(), "1") {
            context.total_powerflips
        } else {
            clear_count
        }
    } else if digit == 4 && mission_id > i64::MIN + 3 {
        let first = if awake_progress(mission_id - 3, context, catalog) >= 1 {
            1i64
        } else {
            0i64
        };
        let second = if awake_progress(mission_id - 2, context, catalog) >= 1 {
            1i64
        } else {
            0i64
        };
        let third = if awake_progress(mission_id - 1, context, catalog) >= 1 {
            1i64
        } else {
            0i64
        };
        first + second + third
    } else {
        0
    }
}

/// The progress that a mission shows.
pub open spec fn spec_compute_progress(
    category: i64,
    mission: &MissionDefinition,
    context: &ComputeContext,
    counters: &Counts,
    database_progress: i64,
    catalog: &MissionCatalog,
) -> i64 {
    if category == 5 && mission.degree_target is Some {
        context.rank_degree
    } else if category == 9 {
        spec_awake_progress(mission.id, context, catalog)
    } else if spec_is_scoped_battle_mission(mission) {
        scoped_sum(context, counters, pattern_text(mission), mission.quest_categories@)
    } else if (category == 1 || category == 2) && pattern_is(mission, "single_battle_clear_count"@) {
        context.total_quest_clears
    } else if (category == 1 || category == 2) && pattern_is(mission, "used_stamina_count"@) {
        context.total_stamina_used
    } else if (category == 1 || category == 2) && pattern_is(mission, "ss_rank_count"@) {
        context.ss_rank_count
    } else {
        let counted = if mission.pattern is Some && counters.view().contains_key(
            pattern_text(mission),
        ) {
            counters.view()[pattern_text(mission)]
        } else {
            database_progress
        };
        if counted < database_progress {
            database_progress
        } else {
            counted
        }
    }
}

/// A daily or weekly mission counting SS-rank clears shows the player's
/// SS-rank clear count, whatever the other totals of the player are.
pub proof fn lemma_ss_rank_missions_count_ss_clears(
    category: i64,
    mission: &MissionDefinition,
    context: &ComputeContext,
    counters: &Counts,
    database_progress: i64,
    catalog: &MissionCatalog,
)
    requires
        category == 1 || category == 2,
        mission.pattern matches Some(p) && p@ == "ss_rank_count"@,
    ensures
        spec_compute_progress(category, mission, context, counters, database_progress, catalog)
            == context.ss_rank_count,
{
    reveal_strlit("ss_rank_count");
    reveal_strlit("single_battle_clear_count");
    reveal_strlit("multi_battle_clear_count");
    reveal_strlit("used_stamina_count");
    assert("ss_rank_count"@.len() == 13);
    assert("single_battle_clear_count"@.len() == 25);
    assert("multi_battle_clear_count"@.len() == 24);
    assert("used_stamina_count"@.len() == 18);
}

/// The player totals that daily and weekly missions show: total clears for
/// a battle-clear mission not limited to quest categories, the stamina used
/// for a stamina mission; and a rank mission with a degree target shows the
/// rank degree.
pub proof fn lemma_player_total_missions(
    category: i64,
    mission: &MissionDefinition,
    context: &ComputeContext,
    counters: &Counts,
    database_progress: i64,
    catalog: &MissionCatalog,
)
    ensures
        (category == 1 || category == 2) && mission.quest_categories@.len() == 0 && (
        mission.pattern matches Some(p) && p@ == "single_battle_clear_count"@) ==> spec_compute_progress(
            category,
            mission,
            context,
            counters,
            database_progress,
            catalog,
        ) == context.total_quest_clears,
        (category == 1 || category == 2) && (mission.pattern matches Some(p) && p@
            == "used_stamina_count"@) ==> spec_compute_progress(
            category,
            mission,
            context,
            counters,
            database_progress,
            catalog,
        ) == context.total_stamina_used,
        category == 5 && mission.degree_target is Some ==> spec_compute_progress(
            category,
            mission,
            context,
            counters,
            database_progress,
            catalog,
        ) == context.rank_degree,
{
    reveal_strlit("single_battle_clear_count");
    reveal_strlit("multi_battle_clear_count");
    reveal_strlit("used_stamina_count");
    assert("single_battle_clear_count"@.len() == 25);
    assert("multi_battle_clear_count"@.len() == 24);
    assert("used_stamina_count"@.len() == 18);
}

/// A mission counted from a reported pattern counter never falls below the
/// stored progress: it shows the larger of the counter and the stored
/// progress, or the stored progress where nothing is reported.
pub proof fn lemma_counted_missions_never_fall(
    category: i64,
    mission: &MissionDefinition,
    context: &ComputeContext,
    counters: &Counts,
    database_progress: i64,
    catalog: &MissionCatalog,
)
    requires
        !(category == 5 && mission.degree_target is Some),
        category != 9,
        mission.quest_categories@.len() == 0,
        mission.pattern matches Some(p) ==> !((category == 1 || category == 2) && (p@
            == "single_battle_clear_count"@ || p@ == "used_stamina_count"@ || p@
            == "ss_rank_count"@)),
    ensures
        ({
            let r = spec_compute_progress(category, mission, context, counters, database_progress, catalog);
            &&& r >= database_progress
            &&& (mission.pattern is Some && counters.view().contains_key(pattern_text(mission)))
                ==> r == if counters.view()[pattern_text(mission)] < database_progress {
                database_progress
            } else {
                counters.view()[pattern_text(mission)]
            }
            &&& !(mission.pattern is Some && counters.view().contains_key(pattern_text(mission)))
                ==> r == database_progress
        }),
{
}

/// The progress of a mission: the rank degree, awakening progress or scoped
/// battle clears where the mission is of such a kind, the player totals of
/// some patterns, and else the reported counter of its pattern, never below
/// the stored progress.
pub fn compute_progress(
    category: i64,
    mission: &MissionDefinition,
    context: &ComputeContext,
    counters: &Counts,
    database_progress: i64,
    catalog: &MissionCatalog,
) -> (r: i64)
    ensures
        r == spec_compute_progress(category, mission, context, counters, database_progress, catalog),
{
    if category == 5 && mission.degree_target.is_some() {
        return context.rank_degree;
    }
    if category == 9 {
        return awake_progress(mission.id, context, catalog);
    }
    if is_scoped_battle_mission(mission) {
        return scoped_battle_progress(mission, context, counters);
    }
    if category == 1 || category == 2 {
        if let Some(pattern) = &mission.pattern {
            if str_eq(pattern.as_str(), "single_battle_clear_count") {
                return context.total_quest_clears;
            }
            if str_eq(pattern.as_str(), "used_stamina_count") {
                return context.total_stamina_used;
            }
            if str_eq(pattern.as_str(), "ss_rank_count") {
                return context.ss_rank_count;
            }
        }
    }
    let counted = match &mission.pattern {
        Some(pattern) => match counters.get(pattern.as_str()) {
            Some(value) => value,
            None => database_progress,
        },
        None => database_progress,
    };
    if counted < database_progress {
        database_progress
    } else {
        counted
    }
}

/// The rewards of a stage of an awakening mission (none where the mission
/// or the stage does not exist).
pub open spec fn spec_awake_stage_rewards(catalog: &MissionCatalog, mission_id: i64, stage: i64) -> Seq<
    MissionReward,
> {
    match awake_mission(catalog, mission_id) {
        Some(mission) => match first_stage(mission.stages@, stage) {
            Some(entry) => entry.rewards@,
            None => seq![],
        },
        None => seq![],
    }
}

/// The first stage entry with this stage number.
pub open spec fn first_stage(stages: Seq<MissionStage>, stage: i64) -> Option<MissionStage>
    decreases stages.len(),
{
    if stages.len() == 0 {
        None
    } else if stages[0].stage == stage {
        Some(stages[0])
    } else {
        first_stage(stages.drop_first(), stage)
    }
}

/// The rewards of a stage of an awakening mission.
pub fn awake_mission_stage_rewards(catalog: &MissionCatalog, mission_id: i64, stage: i64) -> (r: Vec<
    MissionReward,
>)
    ensures
        r@ == spec_awake_stage_rewards(catalog, mission_id, stage),
{
    let mission = match find_awake_mission(catalog, mission_id) {
        Some(mission) => mission,
        None => return Vec::new(),
    };
    let stages = &mission.stages;
    let mut i: usize = 0;
    assert(stages@.subrange(0, stages@.len() as int) =~= stages@);
    while i < stages.len()
        invariant
            i <= stages@.len(),
            stages@ == mission.stages@,
            awake_mission(catalog, mission_id) == Some(*mission),
            first_stage(stages@, stage) == first_stage(
                stages@.subrange(i as int, stages@.len() as int),
                stage,
            ),
        decreases stages@.len() - i,
    {
        let ghost rest = stages@.subrange(i as int, stages@.len() as int);
        assert(rest.drop_first() =~= stages@.subrange(i + 1, stages@.len() as int));
        if stages[i].stage == stage {
            let rewards = stages[i].rewards.clone();
            assert(rewards@ =~= stages@[i as int].rewards@);
            return rewards;
        }
        i = i + 1;
    }
    Vec::new()
}

/// Whether a reported pattern is acceptable: not empty after trimming, at
/// most 128 characters, no control character, and a non-negative value.
pub open spec fn valid_parameter(pattern: Seq<char>, value: i64) -> bool {
    let p = trimmed(pattern);
    &&& p.len() > 0
    &&& p.len() <= 128
    &&& forall|i: int| 0 <= i < p.len() ==> !is_control_char(#[trigger] p[i])
    &&& value >= 0
}

/// The counters that the reported parameters set, later ones winning;
/// `None` where one of them is not acceptable.
pub open spec fn spec_validated_pattern_values(parameters: Seq<MissionParameter>) -> Option<
    Map<Seq<char>, i64>,
>
    decreases parameters.len(),
{
    if parameters.len() == 0 {
        Some(Map::empty())
    } else {
        match spec_validated_pattern_values(parameters.drop_last()) {
            Some(values) => {
                let last = parameters.last();
                if valid_parameter(last.mission_pattern@, last.progress_value) {
                    Some(values.insert(trimmed(last.mission_pattern@), last.progress_value))
                } else {
                    None
                }
            },
            None => None,
        }
    }
}

/// Once a prefix of the parameters is refused, all of them are.
proof fn lemma_validation_refused(parameters: Seq<MissionParameter>, k: int)
    requires
        0 <= k <= parameters.len(),
        spec_validated_pattern_values(parameters.subrange(0, k)) is None,
    ensures
        spec_validated_pattern_values(parameters) is None,
    decreases parameters.len() - k,
{
    if k < parameters.len() {
        assert(parameters.subrange(0, k + 1).drop_last() =~= parameters.subrange(0, k));
        lemma_validation_refused(parameters, k + 1);
    } else {
        assert(parameters.subrange(0, k) =~= parameters);
    }
}

/// The reported pattern counters, trimmed; the `invalid_mission_parameter`
/// answer where one of them is not acceptable.
pub fn validated_pattern_values(parameters: Vec<MissionParameter>) -> (r: Result<Counts, JsonResponse>)
    ensures
        match r {
            Ok(values) => spec_validated_pattern_values(parameters@) == Some(values.view()),
            Err(response) => spec_validated_pattern_values(parameters@) is None
                && response.status@ == "400 Bad Request"@ && response.body@ == error_body(
                "invalid_mission_parameter"@,
            ),
        },
{
    let mut values = Counts::new();
    let mut i: usize = 0;
    while i < parameters.len()
        invariant
            i <= parameters@.len(),
            spec_validated_pattern_values(parameters@.subrange(0, i as int)) == Some(values.view()),
        decreases parameters@.len() - i,
    {
        let parameter = &parameters[i];
        let pattern = trim(parameter.mission_pattern.as_str());
        let len = pattern.unicode_len();
        let mut has_control = false;
        let mut k: usize = 0;
        while k < len
            invariant
                len == pattern@.len(),
                k <= len,
                has_control == (exists|j: int| 0 <= j < k && is_control_char(pattern@[j])),
            decreases len - k,
        {
            if is_control(pattern.get_char(k)) {
                has_control = true;
            }
            k = k + 1;
        }
        proof {
            assert(parameters@.subrange(0, i + 1).drop_last() =~= parameters@.subrange(0, i as int));
            if has_control {
                let j = choose|j: int| 0 <= j < k && is_control_char(pattern@[j]);
                assert(!valid_parameter(parameter.mission_pattern@, parameter.progress_value));
            }
        }
        if len == 0 || len > 128 || has_control || parameter.progress_value < 0 {
            proof {
                assert(!valid_parameter(parameter.mission_pattern@, parameter.progress_value));
                lemma_validation_refused(parameters@, i + 1);
            }
            return Err(error_response("400 Bad Request", "invalid_mission_parameter"));
        }
        values.insert(pattern.to_owned(), parameter.progress_value);
        i = i + 1;
    }
    assert(parameters@.subrange(0, parameters@.len() as int) =~= parameters@);
    Ok(values)
}

/// The SHA-256 digest of a byte sequence.
pub uninterp spec fn sha256_digest(data: Seq<u8>) -> Seq<u8>;

/// Calls `sha2::Sha256::digest`, which hashes the bytes with SHA-256; the
/// digest is named by `sha256_digest` and is 32 bytes long (the output size
/// of `Sha256`). Nothing more of the hash is stated.
#[verifier::external_body]
fn sha256(data: &[u8]) -> (r: Vec<u8>)
    ensures
        r@ == sha256_digest(data@),
        r@.len() == 32,
{
    sha2::Sha256::digest(data).to_vec()
}

/// The event key of a set of stage receipts: `mission:` and the lowercase
/// hexadecimal SHA-256 digest of the receipts joined by commas.
pub open spec fn spec_mission_reward_event_key(receipts: Seq<String>) -> Seq<char> {
    "mission:"@ + hex_lower(sha256_digest(encode_utf8(joined(views(receipts), ","@))))
}

/// The event key for a receipt digest: `mission:` and the digest in
/// lowercase hexadecimal.
pub fn event_key_of_digest(digest: &[u8]) -> (r: String)
    ensures
        r@ == "mission:"@ + hex_lower(digest@),
{
    let mut key = String::from_str("mission:");
    append_hex(&mut key, digest);
    key
}

/// The key under which the rewards of these receipts are recorded.
pub fn mission_reward_event_key(receipts: &Vec<String>) -> (r: String)
    ensures
        r@ == spec_mission_reward_event_key(receipts@),
{
    let text = join(receipts, ",");
    let digest = sha256(text.as_str().as_bytes());
    event_key_of_digest(digest.as_slice())
}

/// What a mission reward does to the player: add items (shown in the
/// receive history under kind 6 where it is equipment, else 1), add free
/// mana (kind 8), grant a character (kind 5) or add pooled experience
/// (kind 9); other rewards do nothing.
#[derive(Clone, Copy, Debug, PartialEq, Eq, Structural)]
pub enum RewardEffect {
    AddItem { item_id: i64, amount: i64, history_kind: i64 },
    AddFreeMana(i64),
    GrantCharacter { character_id: i64, amount: i64 },
    AddExpPool(i64),
    Nothing,
}

/// What a mission reward does.
pub open spec fn spec_reward_effect(reward: &MissionReward) -> RewardEffect {
    if reward.kind == 1 || reward.kind == 2 {
        let id = match reward.item_id {
            Some(i) => Some(i),
            None => reward.equipment_id,
        };
        match id {
            Some(item_id) => RewardEffect::AddItem {
                item_id,
                amount: reward.amount,
                history_kind: if reward.equipment_id is Some {
                    6
                } else {
                    1
                },
            },
            None => RewardEffect::Nothing,
        }
    } else if reward.kind == 3 {
        RewardEffect::AddFreeMana(reward.amount)
    } else if reward.kind == 4 {
        match reward.character_id {
            Some(character_id) => RewardEffect::GrantCharacter { character_id, amount: reward.amount },
            None => RewardEffect::Nothing,
        }
    } else if reward.kind == 5 {
        RewardEffect::AddExpPool(reward.amount)
    } else {
        RewardEffect::Nothing
    }
}

/// What a mission reward does.
pub fn reward_effect(reward: &MissionReward) -> (r: RewardEffect)
    ensures
        r == spec_reward_effect(reward),
{
    if reward.kind == 1 || reward.kind == 2 {
        let id = match reward.item_id {
            Some(i) => Some(i),
            None => reward.equipment_id,
        };
        match id {
            Some(item_id) => RewardEffect::AddItem {
                item_id,
                amount: reward.amount,
                history_kind: if reward.equipment_id.is_some() {
                    6
                } else {
                    1
                },
            },
            None => RewardEffect::Nothing,
        }
    } else if reward.kind == 3 {
        RewardEffect::AddFreeMana(reward.amount)
    } else if reward.kind == 4 {
        match reward.character_id {
            Some(character_id) => RewardEffect::GrantCharacter { character_id, amount: reward.amount },
            None => RewardEffect::Nothing,
        }
    } else if reward.kind == 5 {
        RewardEffect::AddExpPool(reward.amount)
    } else {
        RewardEffect::Nothing
    }
}

/// The effects of a list of mission rewards, in order.
pub fn reward_effects(rewards: &Vec<MissionReward>) -> (r: Vec<RewardEffect>)
    ensures
        r@.len() == rewards@.len(),
        forall|i: int| 0 <= i < rewards@.len() ==> r@[i] == spec_reward_effect(&#[trigger] rewards@[i]),
{
    let mut out: Vec<RewardEffect> = Vec::new();
    let mut i: usize = 0;
    while i < rewards.len()
        invariant
            i <= rewards@.len(),
            out@.len() == i,
            forall|j: int| 0 <= j < i ==> out@[j] == spec_reward_effect(&#[trigger] rewards@[j]),
        decreases rewards@.len() - i,
    {
        out.push(reward_effect(&rewards[i]));
        i = i + 1;
    }
    out
}

/// A change that a battle makes to a mission pattern counter.
#[derive(Clone, Copy, Debug, PartialEq, Eq)]
pub enum PatternUpdate {
    /// The counter becomes this value (where it is larger).
    Record(&'static str, i64),
    /// The counter rises by this much.
    Increment(&'static str, i64),
}

/// The pattern updates of an accomplished battle whose clear count becomes
/// `progress`.
pub open spec fn spec_battle_updates(
    is_multi: bool,
    progress: i64,
    max_skill_chain_count: Option<i64>,
    max_combo_count: Option<i64>,
    is_host: Option<bool>,
    is_mvp: Option<bool>,
) -> Seq<PatternUpdate> {
    seq![
        PatternUpdate::Record(
            if is_multi {
                "multi_battle_clear_count"
            } else {
                "single_battle_clear_count"
            },
            progress,
        ),
    ] + (if max_skill_chain_count matches Some(c) && c > 0 {
        seq![PatternUpdate::Record("max_skill_chain_achievement", max_skill_chain_count->0)]
    } else {
        seq![]
    }) + (if max_combo_count matches Some(c) && c > 0 {
        seq![PatternUpdate::Record("max_combo_achievement", max_combo_count->0)]
    } else {
        seq![]
    }) + (if is_multi && is_host == Some(true) {
        seq![PatternUpdate::Increment("multi_battle_host_count", 1)]
    } else {
        seq![]
    }) + (if is_multi && is_host == Some(false) {
        seq![PatternUpdate::Increment("multi_battle_guest_count", 1)]
    } else {
        seq![]
    }) + (if is_multi && is_mvp == Some(true) {
        seq![PatternUpdate::Increment("multi_battle_mvp_count", 1)]
    } else {
        seq![]
    })
}

/// The pattern updates of an accomplished battle, in order: the clear
/// count (one more than before), the best skill chain and combo where
/// positive, and for a multi battle the host or guest count and the MVP
/// count. A battle not accomplished changes nothing. Fails where the
/// clear count would leave `i64`.
pub fn battle_pattern_updates(
    is_multi: bool,
    is_accomplished: bool,
    clear_count_before: i64,
    max_skill_chain_count: Option<i64>,
    max_combo_count: Option<i64>,
    is_host: Option<bool>,
    is_mvp: Option<bool>,
) -> (r: Result<Vec<PatternUpdate>, ServiceError>)
    ensures
        !is_accomplished ==> (r matches Ok(v) && v@.len() == 0),
        is_accomplished && clear_count_before == i64::MAX ==> r is Err,
        is_accomplished && clear_count_before < i64::MAX ==> (r matches Ok(v) && v@
            == spec_battle_updates(
            is_multi,
            (clear_count_before + 1) as i64,
            max_skill_chain_count,
            max_combo_count,
            is_host,
            is_mvp,
        )),
{
    let mut updates: Vec<PatternUpdate> = Vec::new();
    if !is_accomplished {
        return Ok(updates);
    }
    let pattern: &'static str = if is_multi {
        "multi_battle_clear_count"
    } else {
        "single_battle_clear_count"
    };
    let progress = match clear_count_before.checked_add(1) {
        Some(v) => v,
        None => return Err(ServiceError::new("CN mission progress exceeds supported range")),
    };
    updates.push(PatternUpdate::Record(pattern, progress));
    let ghost a = updates@;
    match max_skill_chain_count {
        Some(c) => if c > 0 {
            updates.push(PatternUpdate::Record("max_skill_chain_achievement", c));
        },
        None => {},
    }
    let ghost b = updates@;
    match max_combo_count {
        Some(c) => if c > 0 {
            updates.push(PatternUpdate::Record("max_combo_achievement", c));
        },
        None => {},
    }
    let ghost c = updates@;
    if is_multi && is_host == Some(true) {
        updates.push(PatternUpdate::Increment("multi_battle_host_count", 1));
    }
    let ghost d = updates@;
    if is_multi && is_host == Some(false) {
        updates.push(PatternUpdate::Increment("multi_battle_guest_count", 1));
    }
    let ghost e = updates@;
    if is_multi && is_mvp == Some(true) {
        updates.push(PatternUpdate::Increment("multi_battle_mvp_count", 1));
    }
    proof {
        let expected = spec_battle_updates(
            is_multi,
            progress,
            max_skill_chain_count,
            max_combo_count,
            is_host,
            is_mvp,
        );
        assert(updates@ =~= expected);
    }
    Ok(updates)
}

/// The new value of a battle counter scoped to a quest category: one more
/// than the stored counter, or, where none is stored, the clears recorded
/// for the category and at least 1. Fails where the counter would leave
/// `i64`.
pub fn scoped_counter_value(stored: Option<i64>, category_progress: i64) -> (r: Result<i64, ServiceError>)
    ensures
        match stored {
            Some(v) => if v < i64::MAX {
                r matches Ok(n) && n == v + 1
            } else {
                r matches Err(e) && e.message@ == "CN scoped battle progress exceeds supported range"@
            },
            None => r matches Ok(n) && n == (if category_progress > 1 {
                category_progress
            } else {
                1
            }),
        },
{
    match stored {
        Some(v) => match v.checked_add(1) {
            Some(n) => Ok(n),
            None => Err(ServiceError::new("CN scoped battle progress exceeds supported range")),
        },
        None => Ok(if category_progress > 1 {
            category_progress
        } else {
            1
        }),
    }
}

/// Whether some mission of the list counts battles of this pattern in this
/// quest category.
pub fn has_matching_scoped_mission(missions: &Vec<MissionDefinition>, pattern: &str, quest_category: i64) -> (r:
    bool)
    ensures
        r == (quest_category > 0 && exists|i: int|
            0 <= i < missions@.len() && pattern_text(&#[trigger] missions@[i]) == pattern@
                && spec_is_scoped_battle_mission(&missions@[i])
                && missions@[i].quest_categories@.contains(quest_category)),
{
    if quest_category <= 0 {
        return false;
    }
    let mut i: usize = 0;
    while i < missions.len()
        invariant
            i <= missions@.len(),
            quest_category > 0,
            forall|j: int|
                0 <= j < i ==> !(pattern_text(&#[trigger] missions@[j]) == pattern@
                    && spec_is_scoped_battle_mission(&missions@[j])
                    && missions@[j].quest_categories@.contains(quest_category)),
        decreases missions@.len() - i,
    {
        let m = &missions[i];
        let same_pattern = match &m.pattern {
            Some(p) => str_eq(p.as_str(), pattern),
            None => str_eq("", pattern),
        };
        proof {
            if m.pattern is None {
                assert(pattern_text(m) == Seq::<char>::empty());
                reveal_strlit("");
            }
        }
        if same_pattern && is_scoped_battle_mission(m) {
            let mut k: usize = 0;
            let mut found = false;
            while k < m.quest_categories.len()
                invariant
                    k <= m.quest_categories@.len(),
                    found == exists|q: int| 0 <= q < k && m.quest_categories@[q] == quest_category,
                decreases m.quest_categories@.len() - k,
            {
                if m.quest_categories[k] == quest_category {
                    found = true;
                }
                k = k + 1;
            }
            if found {
                proof {
                    let q = choose|q: int| 0 <= q < k && m.quest_categories@[q] == quest_category;
                    assert(m.quest_categories@.contains(quest_category));
                    assert(missions@[i as int] == *m);
                }
                return true;
            }
            proof {
                assert(!m.quest_categories@.contains(quest_category));
            }
        }
        i = i + 1;
    }
    false
}

/// Whether `progress` reaches a stage's target.
pub open spec fn stage_reached(stage: MissionStage, progress: i64) -> bool {
    stage.target matches Some(target) && progress >= target
}

/// The stages of a regular mission (category 1) that a report completes,
/// as `(stage, reward id)`: of the stages up to the one the mission now
/// shows, those past the last stage cleared before and reached now.
pub open spec fn regular_completed(stages: Seq<MissionStage>, current: i64, previous: i64, progress: i64) -> Seq<
    (i64, i64),
>
    decreases stages.len(),
{
    if stages.len() == 0 || stages[0].stage > current {
        seq![]
    } else {
        let rest = regular_completed(stages.drop_first(), current, previous, progress);
        if stages[0].stage > previous && stage_reached(stages[0], progress) {
            seq![(stages[0].stage, stages[0].reward_id)] + rest
        } else {
            rest
        }
    }
}

/// The stages whose target lies above the stored progress and within the
/// new progress, as `(stage, reward id)`.
pub open spec fn crossed_stages(stages: Seq<MissionStage>, before: i64, after: i64) -> Seq<(i64, i64)>
    decreases stages.len(),
{
    if stages.len() == 0 {
        seq![]
    } else {
        let rest = crossed_stages(stages.drop_first(), before, after);
        if stages[0].target matches Some(target) && before < target && after >= target {
            seq![(stages[0].stage, stages[0].reward_id)] + rest
        } else {
            rest
        }
    }
}

/// The stages a progress report completes: for a regular mission those
/// `regular_completed` gives, for the others those whose target the new
/// progress crosses.
pub open spec fn spec_completed_stages(
    category: i64,
    mission: &MissionDefinition,
    progress: i64,
    database_progress: i64,
    previous_stage: i64,
) -> Seq<(i64, i64)> {
    if category == 1 {
        regular_completed(
            mission.stages@,
            spec_current_stage(mission, progress),
            previous_stage,
            progress,
        )
    } else {
        crossed_stages(mission.stages@, database_progress, progress)
    }
}

/// The stages, as `(stage, reward id)` in the master's order, that a
/// progress report completes. `previous_stage` is the last regular stage
/// cleared before.
pub fn completed_stages(
    category: i64,
    mission: &MissionDefinition,
    progress: i64,
    database_progress: i64,
    previous_stage: i64,
) -> (r: Vec<(i64, i64)>)
    ensures
        r@ == spec_completed_stages(category, mission, progress, database_progress, previous_stage),
{
    let stages = &mission.stages;
    let mut out: Vec<(i64, i64)> = Vec::new();
    let mut i: usize = 0;
    assert(stages@.subrange(0, stages@.len() as int) =~= stages@);
    if category == 1 {
        let current = current_stage(mission, progress);
        while i < stages.len()
            invariant
                i <= stages@.len(),
                stages@ == mission.stages@,
                category == 1,
                current == spec_current_stage(mission, progress),
                regular_completed(stages@, current, previous_stage, progress) == out@
                    + regular_completed(
                    stages@.subrange(i as int, stages@.len() as int),
                    current,
                    previous_stage,
                    progress,
                ),
            decreases stages@.len() - i,
        {
            let ghost rest = stages@.subrange(i as int, stages@.len() as int);
            assert(rest.drop_first() =~= stages@.subrange(i + 1, stages@.len() as int));
            let stage = &stages[i];
            if stage.stage > current {
                assert(out@ + seq![] =~= out@);
                return out;
            }
            let reached = match stage.target {
                Some(target) => progress >= target,
                None => false,
            };
            if stage.stage > previous_stage && reached {
                let ghost before = out@;
                out.push((stage.stage, stage.reward_id));
                assert(before + (seq![(stage.stage, stage.reward_id)] + regular_completed(
                    rest.drop_first(),
                    current,
                    previous_stage,
                    progress,
                )) =~= out@ + regular_completed(
                    rest.drop_first(),
                    current,
                    previous_stage,
                    progress,
                ));
            }
            i = i + 1;
        }
    } else {
        while i < stages.len()
            invariant
                i <= stages@.len(),
                stages@ == mission.stages@,
                crossed_stages(stages@, database_progress, progress) == out@ + crossed_stages(
                    stages@.subrange(i as int, stages@.len() as int),
                    database_progress,
                    progress,
                ),
            decreases stages@.len() - i,
        {
            let ghost rest = stages@.subrange(i as int, stages@.len() as int);
            assert(rest.drop_first() =~= stages@.subrange(i + 1, stages@.len() as int));
            let stage = &stages[i];
            let crossed = match stage.target {
                Some(target) => database_progress < target && progress >= target,
                None => false,
            };
            if crossed {
                let ghost before = out@;
                out.push((stage.stage, stage.reward_id));
                assert(before + (seq![(stage.stage, stage.reward_id)] + crossed_stages(
                    rest.drop_first(),
                    database_progress,
                    progress,
                )) =~= out@ + crossed_stages(rest.drop_first(), database_progress, progress));
            }
            i = i + 1;
        }
    }
    assert(out@ + seq![] =~= out@);
    out
}

/// The stage a report leaves a mission's regular record at: the last of
/// the stages it completes.
pub fn latest_completed_stage(stages: &Vec<(i64, i64)>) -> (r: i64)
    ensures
        r == if stages@.len() == 0 {
            0
        } else {
            stages@.last().0
        },
{
    if stages.len() == 0 {
        0
    } else {
        stages[stages.len() - 1].0
    }
}

/// Whether a report of a pattern moves a mission: a mission scoped to
/// quest categories moves only for a report from one of its categories.
pub open spec fn spec_mission_in_scope(mission: &MissionDefinition, scope_category: Option<i64>) -> bool {
    match scope_category {
        Some(quest_category) => !spec_is_scoped_battle_mission(mission)
            || mission.quest_categories@.contains(quest_category),
        None => !spec_is_scoped_battle_mission(mission),
    }
}

/// Whether `values` holds `value`.
pub fn contains_i64(values: &Vec<i64>, value: i64) -> (r: bool)
    ensures
        r == values@.contains(value),
{
    let mut i: usize = 0;
    while i < values.len()
        invariant
            i <= values@.len(),
            forall|j: int| 0 <= j < i ==> values@[j] != value,
        decreases values@.len() - i,
    {
        if values[i] == value {
            assert(values@[i as int] == value);
            return true;
        }
        i = i + 1;
    }
    false
}

/// Whether a report of a pattern moves a mission.
pub fn mission_in_scope(mission: &MissionDefinition, scope_category: Option<i64>) -> (r: bool)
    ensures
        r == spec_mission_in_scope(mission, scope_category),
{
    let scoped = is_scoped_battle_mission(mission);
    match scope_category {
        Some(quest_category) => !scoped || contains_i64(&mission.quest_categories, quest_category),
        None => !scoped,
    }
}

/// The counter a pattern report stores: the reported value, never below
/// the stored counter nor below zero.
pub fn reported_pattern_progress(reported: i64, stored: Option<i64>) -> (r: i64)
    ensures
        r == {
            let s = match stored {
                Some(v) => v,
                None => 0,
            };
            let m = if reported > s {
                reported
            } else {
                s
            };
            if m > 0 {
                m
            } else {
                0
            }
        },
{
    let s = match stored {
        Some(v) => v,
        None => 0,
    };
    let m = if reported > s {
        reported
    } else {
        s
    };
    if m > 0 {
        m
    } else {
        0
    }
}

/// The endpoints of the mission service.
#[derive(Clone, Copy, Debug, PartialEq, Eq, Structural)]
pub enum MissionEndpoint {
    GetProgress,
    UpdateProgress,
}

/// Which endpoint a request is for; `None` where it is not one of them.
pub fn route(method: &str, path: &str) -> (r: Option<MissionEndpoint>)
    ensures
        r == (if method@ != "POST"@ {
            None
        } else if path@ == "/api/index.php/mission/get_mission_progress"@ {
            Some(MissionEndpoint::GetProgress)
        } else if path@ == "/api/index.php/mission/update_mission_progress"@ {
            Some(MissionEndpoint::UpdateProgress)
        } else {
            None
        }),
{
    if !str_eq(method, "POST") {
        None
    } else if str_eq(path, "/api/index.php/mission/get_mission_progress") {
        Some(MissionEndpoint::GetProgress)
    } else if str_eq(path, "/api/index.php/mission/update_mission_progress") {
        Some(MissionEndpoint::UpdateProgress)
    } else {
        None
    }
}

/// The JSON error answer of this service.
pub fn error_response(status: &str, code: &str) -> (r: JsonResponse)
    ensures
        r.status@ == status@,
        r.body@ == error_body(code@),
{
    json_error(status, code)
}

} // verus!
