//! Building the mission catalog from the mission master: category keys read
//! as integers, and each mission's stages ordered by their targets.
use vstd::prelude::*;

use crate::error::ServiceError;
use crate::mission::context::{lemma_key_index_push, lemma_key_index_update};
use crate::mission::{
    find_key_index, key_index, keyed, lemma_key_index, MissionCatalog, MissionDefinition,
    MissionStage, RankThreshold,
};
use crate::text::{parse_i64, spec_parse_i64};

verus! {

/// The mission master as read: missions by category key (in key order),
/// the story quests of each character, and the rank thresholds.
pub struct MissionMaster {
    pub categories: Vec<(String, Vec<MissionDefinition>)>,
    pub character_stories: Vec<(String, Vec<i64>)>,
    pub rank_thresholds: Vec<RankThreshold>,
}

/// Whether stage `a` goes before stage `b`: both have targets and `a`'s is
/// smaller. Stages without a target are not ordered against any other.
pub open spec fn goes_before(a: MissionStage, b: MissionStage) -> bool {
    match (a.target, b.target) {
        (Some(x), Some(y)) => x < y,
        _ => false,
    }
}

/// Inserts `x` into `s` behind every stage that it does not go before.
pub open spec fn spec_insert_stage(x: MissionStage, s: Seq<MissionStage>) -> Seq<MissionStage>
    decreases s.len(),
{
    if s.len() == 0 {
        seq![x]
    } else if goes_before(x, s.last()) {
        spec_insert_stage(x, s.drop_last()).push(s.last())
    } else {
        s.push(x)
    }
}

/// The stages stably sorted by target: each stage in turn is inserted
/// behind the earlier ones that it does not go before.
pub open spec fn spec_sort_stages(s: Seq<MissionStage>) -> Seq<MissionStage>
    decreases s.len(),
{
    if s.len() == 0 {
        seq![]
    } else {
        spec_insert_stage(s.last(), spec_sort_stages(s.drop_last()))
    }
}

/// Every stage has a target, and the targets never fall.
pub open spec fn targets_ascending(s: Seq<MissionStage>) -> bool {
    &&& forall|i: int| 0 <= i < s.len() ==> (#[trigger] s[i]).target is Some
    &&& forall|i: int, j: int|
        0 <= i < j < s.len() ==> (#[trigger] s[i]).target->0 <= (#[trigger] s[j]).target->0
}

/// Inserting a stage adds exactly that stage, and keeps ascending targets
/// ascending.
pub proof fn lemma_insert_stage(x: MissionStage, s: Seq<MissionStage>)
    ensures
        spec_insert_stage(x, s).len() == s.len() + 1,
        spec_insert_stage(x, s).to_multiset() == s.to_multiset().insert(x),
        forall|k: int|
            0 <= k < s.len() + 1 ==> #[trigger] spec_insert_stage(x, s)[k] == x || exists|m: int|
                0 <= m < s.len() && spec_insert_stage(x, s)[k] == s[m],
        x.target is Some && targets_ascending(s) ==> targets_ascending(spec_insert_stage(x, s)),
    decreases s.len(),
{
    broadcast use vstd::seq_lib::group_to_multiset_ensures;

    let r = spec_insert_stage(x, s);
    if s.len() == 0 {
        assert(r =~= Seq::<MissionStage>::empty().push(x));
    } else {
        let rest = s.drop_last();
        let last = s.last();
        assert(s =~= rest.push(last));
        if goes_before(x, last) {
            lemma_insert_stage(x, rest);
            let r2 = spec_insert_stage(x, rest);
            assert(r == r2.push(last));
            assert forall|k: int| 0 <= k < s.len() + 1 implies #[trigger] r[k] == x || exists|m: int|
                0 <= m < s.len() && r[k] == s[m] by {
                if k < s.len() {
                    assert(r[k] == r2[k]);
                    if r2[k] != x {
                        let m = choose|m: int| 0 <= m < rest.len() && r2[k] == rest[m];
                        assert(r[k] == s[m]);
                    }
                } else {
                    assert(r[k] == s[s.len() - 1]);
                }
            };
            if x.target is Some && targets_ascending(s) {
                assert(targets_ascending(rest));
                assert forall|i: int, j: int| 0 <= i < j < r.len() implies (#[trigger] r[i]).target->0
                    <= (#[trigger] r[j]).target->0 by {
                    if j == r.len() - 1 {
                        assert(r[j] == last);
                        assert(r[i] == r2[i]);
                        if r2[i] != x {
                            let m = choose|m: int| 0 <= m < rest.len() && r2[i] == rest[m];
                            assert(s[m] == rest[m]);
                        }
                    } else {
                        assert(r[i] == r2[i] && r[j] == r2[j]);
                    }
                };
                assert forall|i: int| 0 <= i < r.len() implies (#[trigger] r[i]).target is Some by {
                    if i < r.len() - 1 {
                        assert(r[i] == r2[i]);
                    }
                };
            }
        } else {
            assert(r == s.push(x));
            assert forall|k: int| 0 <= k < s.len() + 1 implies #[trigger] r[k] == x || exists|m: int|
                0 <= m < s.len() && r[k] == s[m] by {
                if k < s.len() {
                    assert(r[k] == s[k]);
                }
            };
            if x.target is Some && targets_ascending(s) {
                assert forall|i: int, j: int| 0 <= i < j < r.len() implies (#[trigger] r[i]).target->0
                    <= (#[trigger] r[j]).target->0 by {
                    if j == r.len() - 1 {
                        assert(r[i] == s[i]);
                        assert(s[i].target->0 <= last.target->0 || i == s.len() - 1);
                    }
                };
            }
        }
    }
}

/// Sorting the stages keeps exactly the same stages, and where every stage
/// has a target it leaves their targets ascending.
pub proof fn lemma_sort_stages(s: Seq<MissionStage>)
    ensures
        spec_sort_stages(s).len() == s.len(),
        spec_sort_stages(s).to_multiset() == s.to_multiset(),
        (forall|i: int| 0 <= i < s.len() ==> (#[trigger] s[i]).target is Some) ==> targets_ascending(
            spec_sort_stages(s),
        ),
    decreases s.len(),
{
    broadcast use vstd::seq_lib::group_to_multiset_ensures;

    if s.len() == 0 {
        assert(spec_sort_stages(s) =~= s);
    } else {
        let rest = s.drop_last();
        lemma_sort_stages(rest);
        lemma_insert_stage(s.last(), spec_sort_stages(rest));
        assert(s =~= rest.push(s.last()));
        if forall|i: int| 0 <= i < s.len() ==> (#[trigger] s[i]).target is Some {
            assert forall|i: int| 0 <= i < rest.len() implies (#[trigger] rest[i]).target is Some by {
                assert(rest[i] == s[i]);
            };
            assert(s[s.len() - 1].target is Some);
        }
    }
}

fn stage_goes_before(a: &MissionStage, b: &MissionStage) -> (r: bool)
    ensures
        r == goes_before(*a, *b),
{
    match (a.target, b.target) {
        (Some(x), Some(y)) => x < y,
        _ => false,
    }
}

fn insert_stage(sorted: &mut Vec<MissionStage>, x: MissionStage)
    ensures
        final(sorted)@ == spec_insert_stage(x, old(sorted)@),
{
    let ghost s = sorted@;
    let mut pos = sorted.len();
    assert(s.take(pos as int) =~= s);
    assert(s.skip(pos as int) =~= Seq::<MissionStage>::empty());
    while pos > 0 && stage_goes_before(&x, &sorted[pos - 1])
        invariant
            sorted@ == s,
            pos <= s.len(),
            spec_insert_stage(x, s) == spec_insert_stage(x, s.take(pos as int)) + s.skip(pos as int),
        decreases pos,
    {
        let ghost t = s.take(pos as int);
        assert(t.drop_last() =~= s.take(pos - 1));
        assert(t.last() == s[pos - 1]);
        assert(s.skip(pos - 1) =~= seq![s[pos - 1]] + s.skip(pos as int));
        assert(spec_insert_stage(x, s.take(pos - 1)).push(s[pos - 1]) + s.skip(pos as int)
            =~= spec_insert_stage(x, s.take(pos - 1)) + s.skip(pos - 1));
        pos = pos - 1;
    }
    proof {
        let t = s.take(pos as int);
        if pos > 0 {
            assert(t.last() == s[pos - 1]);
        }
        assert(spec_insert_stage(x, t) == t.push(x));
        assert(t.push(x) + s.skip(pos as int) =~= s.insert(pos as int, x));
    }
    sorted.insert(pos, x);
}

/// The stages of a mission, stably sorted by target.
pub fn sort_stages(stages: Vec<MissionStage>) -> (r: Vec<MissionStage>)
    ensures
        r@ == spec_sort_stages(stages@),
{
    let ghost all = stages@;
    let mut pending = stages;
    let n = pending.len();
    let mut sorted: Vec<MissionStage> = Vec::new();
    let mut i: usize = 0;
    assert(all.take(0) =~= Seq::<MissionStage>::empty());
    assert(all.skip(0) =~= all);
    while pending.len() > 0
        invariant
            i <= all.len(),
            all.len() == n,
            pending@ == all.skip(i as int),
            sorted@ == spec_sort_stages(all.take(i as int)),
        decreases pending@.len(),
    {
        let x = pending.remove(0);
        proof {
            assert(x == all[i as int]);
            assert(all.take(i + 1).drop_last() =~= all.take(i as int));
            assert(all.take(i + 1).last() == x);
            assert(pending@ =~= all.skip(i + 1));
        }
        insert_stage(&mut sorted, x);
        i = i + 1;
    }
    assert(all.take(i as int) =~= all);
    sorted
}

/// The largest magnitude an `i64` of this sign holds.
pub open spec fn parse_limit(negative: bool) -> nat {
    if negative {
        0x8000_0000_0000_0000
    } else {
        0x7fff_ffff_ffff_ffff
    }
}

/// Why the digits from position `k` on fail to read, given the value `v`
/// read so far: the first character that is no digit, or the first digit
/// that takes the value out of range, whichever comes first.
pub open spec fn digit_scan_reason(d: Seq<char>, k: int, v: nat, negative: bool) -> Seq<char>
    decreases d.len() - k,
{
    if k < 0 || k >= d.len() {
        seq![]
    } else if !('0' <= d[k] <= '9') {
        "invalid digit found in string"@
    } else {
        let next = v * 10 + (d[k] as int - '0' as int) as nat;
        if next > parse_limit(negative) {
            if negative {
                "number too small to fit in target type"@
            } else {
                "number too large to fit in target type"@
            }
        } else {
            digit_scan_reason(d, k + 1, next, negative)
        }
    }
}

/// The reason `str::parse::<i64>` gives for a text it does not read: an
/// empty text, a lone sign or a character that is no digit, or a value out
/// of range.
pub open spec fn spec_parse_failure_reason(s: Seq<char>) -> Seq<char> {
    if s.len() == 0 {
        "cannot parse integer from empty string"@
    } else if (s[0] == '+' || s[0] == '-') && s.len() == 1 {
        "invalid digit found in string"@
    } else {
        let digits = if s[0] == '+' || s[0] == '-' {
            s.drop_first()
        } else {
            s
        };
        digit_scan_reason(digits, 0, 0, s[0] == '-')
    }
}

/// The reason a text does not read as an integer.
fn parse_failure_reason(s: &str) -> (r: String)
    ensures
        r@ == spec_parse_failure_reason(s@),
{
    let len = s.unicode_len();
    if len == 0 {
        return String::from_str("cannot parse integer from empty string");
    }
    let first = s.get_char(0);
    let signed = first == '+' || first == '-';
    if signed && len == 1 {
        return String::from_str("invalid digit found in string");
    }
    let negative = first == '-';
    let start: usize = if signed {
        1
    } else {
        0
    };
    let ghost digits = if signed {
        s@.drop_first()
    } else {
        s@
    };
    assert(digits =~= s@.subrange(start as int, len as int));
    let limit: u128 = if negative {
        0x8000_0000_0000_0000
    } else {
        0x7fff_ffff_ffff_ffff
    };
    let mut value: u128 = 0;
    let mut k = start;
    while k < len
        invariant
            len == s@.len(),
            start <= k <= len,
            digits == s@.subrange(start as int, len as int),
            limit == parse_limit(negative),
            value <= limit,
            spec_parse_failure_reason(s@) == digit_scan_reason(digits, k - start, value as nat, negative),
            negative == (s@[0] == '-'),
            signed == (s@[0] == '+' || s@[0] == '-'),
            !(signed && len == 1),
        decreases len - k,
    {
        let c = s.get_char(k);
        assert(c == digits[k - start]);
        if !('0' <= c && c <= '9') {
            return String::from_str("invalid digit found in string");
        }
        let next: u128 = value * 10 + (c as u32 - '0' as u32) as u128;
        if next > limit {
            if negative {
                return String::from_str("number too small to fit in target type");
            } else {
                return String::from_str("number too large to fit in target type");
            }
        }
        value = next;
        k = k + 1;
    }
    String::new()
}

/// A mission of the catalog read from a mission of the master: the same
/// mission, its stages stably sorted by target.
pub open spec fn mission_from_master(out: MissionDefinition, m: MissionDefinition) -> bool {
    &&& out.id == m.id
    &&& out.pattern == m.pattern
    &&& out.degree_target == m.degree_target
    &&& out.quest_categories == m.quest_categories
    &&& out.battle_kind == m.battle_kind
    &&& out.statistics_kind == m.statistics_kind
    &&& out.leader_character_id == m.leader_character_id
    &&& out.required_character_ids == m.required_character_ids
    &&& out.required_races == m.required_races
    &&& out.stages@ == spec_sort_stages(m.stages@)
}

/// The missions of a category read from those of the master, one for one.
pub open spec fn missions_from_master(out: Seq<MissionDefinition>, m: Seq<MissionDefinition>) -> bool {
    &&& out.len() == m.len()
    &&& forall|i: int| 0 <= i < m.len() ==> mission_from_master(#[trigger] out[i], m[i])
}

/// The last master category whose key reads as `c`: a later key that
/// reads as the same integer replaces an earlier one.
pub open spec fn last_category_index(cats: Seq<(String, Vec<MissionDefinition>)>, c: i64) -> Option<int>
    decreases cats.len(),
{
    if cats.len() == 0 {
        None
    } else if spec_parse_i64(cats.last().0@) == Some(c) {
        Some(cats.len() - 1)
    } else {
        last_category_index(cats.drop_last(), c)
    }
}

/// Whether some category key of the master does not read as an integer.
pub open spec fn has_unreadable_key(cats: Seq<(String, Vec<MissionDefinition>)>) -> bool {
    exists|i: int| 0 <= i < cats.len() && spec_parse_i64(#[trigger] cats[i].0@) is None
}

/// The error of an unreadable category key.
pub open spec fn category_key_error(key: Seq<char>) -> Seq<char> {
    "invalid CN mission category "@ + key + ": "@ + spec_parse_failure_reason(key)
}

fn sorted_mission(m: MissionDefinition) -> (r: MissionDefinition)
    ensures
        mission_from_master(r, m),
{
    let MissionDefinition {
        id,
        pattern,
        degree_target,
        quest_categories,
        battle_kind,
        statistics_kind,
        leader_character_id,
        required_character_ids,
        required_races,
        stages,
    } = m;
    MissionDefinition {
        id,
        pattern,
        degree_target,
        quest_categories,
        battle_kind,
        statistics_kind,
        leader_character_id,
        required_character_ids,
        required_races,
        stages: sort_stages(stages),
    }
}

fn sorted_missions(missions: Vec<MissionDefinition>) -> (r: Vec<MissionDefinition>)
    ensures
        missions_from_master(r@, missions@),
{
    let ghost all = missions@;
    let mut pending = missions;
    let n = pending.len();
    let mut out: Vec<MissionDefinition> = Vec::new();
    let mut i: usize = 0;
    assert(all.skip(0) =~= all);
    while pending.len() > 0
        invariant
            i <= all.len(),
            all.len() == n,
            pending@ == all.skip(i as int),
            out@.len() == i,
            forall|j: int| 0 <= j < i ==> mission_from_master(#[trigger] out@[j], all[j]),
        decreases pending@.len(),
    {
        let m = pending.remove(0);
        assert(m == all[i as int]);
        assert(pending@ =~= all.skip(i + 1));
        out.push(sorted_mission(m));
        i = i + 1;
    }
    out
}

/// The mission catalog read from the master: each category under the
/// integer its key reads as (a later key that reads as the same integer
/// replacing an earlier one), each mission with its stages stably sorted by
/// target, the story quests and rank thresholds as the master has them. A
/// category key that does not read as an integer fails the whole catalog,
/// naming the first such key and why it does not read.
pub fn mission_catalog_from_master(master: MissionMaster) -> (r: Result<MissionCatalog, ServiceError>)
    ensures
        r is Err <==> has_unreadable_key(master.categories@),
        r matches Err(e) ==> exists|i: int|
            0 <= i < master.categories@.len() && spec_parse_i64(#[trigger] master.categories@[i].0@)
                is None && (forall|j: int|
                0 <= j < i ==> spec_parse_i64(master.categories@[j].0@) is Some) && e.message@
                == category_key_error(master.categories@[i].0@),
        r matches Ok(catalog) ==> {
            &&& catalog.character_stories == master.character_stories
            &&& catalog.rank_thresholds == master.rank_thresholds
            &&& forall|c: i64| #[trigger]
                keyed(catalog.categories@, c) == None::<Vec<MissionDefinition>> <==> last_category_index(
                    master.categories@,
                    c,
                ) is None
            &&& forall|c: i64| #[trigger]
                keyed(catalog.categories@, c) matches Some(v) ==> (last_category_index(
                    master.categories@,
                    c,
                ) matches Some(i) && missions_from_master(v@, master.categories@[i].1@))
        },
{
    let ghost cats = master.categories@;
    let MissionMaster { categories, character_stories, rank_thresholds } = master;
    let mut pending = categories;
    let n = pending.len();
    let mut out: Vec<(i64, Vec<MissionDefinition>)> = Vec::new();
    let mut i: usize = 0;
    assert(cats.skip(0) =~= cats);
    while pending.len() > 0
        invariant
            i <= cats.len(),
            cats == master.categories@,
            cats.len() == n,
            pending@ == cats.skip(i as int),
            forall|j: int| 0 <= j < i ==> spec_parse_i64(#[trigger] cats[j].0@) is Some,
            forall|c: i64| #[trigger]
                keyed(out@, c) == None::<Vec<MissionDefinition>> <==> last_category_index(
                    cats.take(i as int),
                    c,
                ) is None,
            forall|c: i64| #[trigger]
                keyed(out@, c) matches Some(v) ==> (last_category_index(cats.take(i as int), c) matches Some(
                    j,
                ) && 0 <= j < i && missions_from_master(v@, cats[j].1@)),
        decreases pending@.len(),
    {
        let (key, missions) = pending.remove(0);
        assert(key == cats[i as int].0 && missions == cats[i as int].1);
        assert(pending@ =~= cats.skip(i + 1));
        let c = match parse_i64(key.as_str()) {
            Some(c) => c,
            None => {
                let reason = parse_failure_reason(key.as_str());
                let mut message = String::from_str("invalid CN mission category ");
                message.append(key.as_str());
                message.append(": ");
                message.append(reason.as_str());
                assert(message@ =~= category_key_error(cats[i as int].0@));
                assert(spec_parse_i64(cats[i as int].0@) is None);
                assert(has_unreadable_key(cats));
                return Err(ServiceError { message });
            },
        };
        let ghost before = out@;
        let sorted = sorted_missions(missions);
        let ghost sorted_view = sorted@;
        match find_key_index(&out, c) {
            Some(idx) => {
                proof {
                    lemma_key_index(before, c);
                }
                out.set(idx, (c, sorted));
                proof {
                    let vec = out@[idx as int].1;
                    assert(out@ =~= before.update(idx as int, (before[idx as int].0, vec)));
                    assert forall|k: i64| k != c implies #[trigger] keyed(out@, k) == keyed(before, k) by {
                        lemma_key_index_update(before, idx as int, vec, k);
                        lemma_key_index(before, k);
                    };
                    lemma_key_index_update(before, idx as int, vec, c);
                    assert(keyed(out@, c) == Some(vec));
                }
            },
            None => {
                out.push((c, sorted));
                proof {
                    let vec = out@[before.len() as int].1;
                    assert(out@ =~= before.push((c, vec)));
                    assert forall|k: i64| k != c implies #[trigger] keyed(out@, k) == keyed(before, k) by {
                        lemma_key_index_push(before, (c, vec), k);
                        lemma_key_index(before, k);
                    };
                    lemma_key_index_push(before, (c, vec), c);
                    assert(keyed(out@, c) == Some(vec));
                }
            },
        }
        proof {
            let t = cats.take(i + 1);
            assert(t.drop_last() =~= cats.take(i as int));
            assert(t.last() == cats[i as int]);
            assert(spec_parse_i64(cats[i as int].0@) == Some(c));
            assert(keyed(out@, c) matches Some(v) && v@ == sorted_view);
            assert forall|k: i64| #[trigger]
                keyed(out@, k) == None::<Vec<MissionDefinition>> <==> last_category_index(t, k) is None by {
                if k != c {
                    assert(keyed(out@, k) == keyed(before, k));
                }
            };
            assert forall|k: i64| #[trigger]
                keyed(out@, k) is Some implies (last_category_index(t, k) matches Some(j) && 0 <= j
                    < i + 1 && missions_from_master(keyed(out@, k)->0@, cats[j].1@)) by {
                if k != c {
                    assert(keyed(out@, k) == keyed(before, k));
                }
            };
        }
        i = i + 1;
    }
    assert(cats.take(i as int) =~= cats);
    proof {
        assert forall|j: int| 0 <= j < cats.len() implies spec_parse_i64(#[trigger] cats[j].0@) is Some by {};
    }
    Ok(MissionCatalog { categories: out, character_stories, rank_thresholds })
}

} // verus!
