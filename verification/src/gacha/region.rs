//! The regional gacha policy: hidden regional aliases, coverage aliases
//! and temporary aliases of the canonical gachas, and the normalization of
//! the stored per-gacha state onto the canonical gachas.
use vstd::prelude::*;

use super::{catalog_lookup, GachaCatalog, GachaDefinition};
use crate::counts::{entries_map, lemma_entries_prefix, Counts};
use crate::error::ServiceError;
use crate::text::{decimal, decimal_string, parse_i64, spec_parse_i64, str_eq};

verus! {

/// The three alias tables, keyed by the alias id text and giving the
/// canonical gacha id.
pub struct GachaRegionPolicy {
    pub excluded_regional_aliases: Counts,
    pub normalized_coverage_aliases: Counts,
    pub temporary_aliases: Counts,
}

/// A requested gacha id with the canonical id it stands for and the kind
/// of alias it is.
#[derive(Clone, Copy, Debug, PartialEq, Eq, Structural)]
pub struct ResolvedGachaId {
    pub requested: i64,
    pub canonical: i64,
    pub is_coverage: bool,
    pub is_regional: bool,
    pub is_temporary: bool,
}

/// How a gacha id resolves: temporary aliases first, then coverage, then
/// regional aliases; an id that is no alias stands for itself.
pub open spec fn spec_resolution(policy: &GachaRegionPolicy, gacha_id: i64) -> ResolvedGachaId {
    let key = decimal(gacha_id as int);
    let temporary = policy.temporary_aliases.view();
    let coverage = policy.normalized_coverage_aliases.view();
    let regional = policy.excluded_regional_aliases.view();
    if temporary.contains_key(key) {
        ResolvedGachaId {
            requested: gacha_id,
            canonical: temporary[key],
            is_coverage: false,
            is_regional: false,
            is_temporary: true,
        }
    } else if coverage.contains_key(key) {
        ResolvedGachaId {
            requested: gacha_id,
            canonical: coverage[key],
            is_coverage: true,
            is_regional: false,
            is_temporary: false,
        }
    } else if regional.contains_key(key) {
        ResolvedGachaId {
            requested: gacha_id,
            canonical: regional[key],
            is_coverage: false,
            is_regional: true,
            is_temporary: false,
        }
    } else {
        ResolvedGachaId {
            requested: gacha_id,
            canonical: gacha_id,
            is_coverage: false,
            is_regional: false,
            is_temporary: false,
        }
    }
}

/// The canonical gacha that `gacha_id` stands for.
pub open spec fn spec_canonical(policy: &GachaRegionPolicy, gacha_id: i64) -> i64 {
    spec_resolution(policy, gacha_id).canonical
}

/// Resolves `gacha_id`; an error where its canonical gacha is not in the
/// catalog.
pub fn resolve(policy: &GachaRegionPolicy, catalog: &GachaCatalog, gacha_id: i64) -> (r: Result<
    ResolvedGachaId,
    ServiceError,
>)
    ensures
        match r {
            Ok(resolution) => resolution == spec_resolution(policy, gacha_id) && catalog_lookup(
                catalog.entries@,
                decimal(resolution.canonical as int),
            ) is Some,
            Err(_) => catalog_lookup(
                catalog.entries@,
                decimal(spec_canonical(policy, gacha_id) as int),
            ) is None,
        },
{
    let key = decimal_string(gacha_id);
    let resolution = if let Some(canonical) = policy.temporary_aliases.get(key.as_str()) {
        ResolvedGachaId {
            requested: gacha_id,
            canonical,
            is_coverage: false,
            is_regional: false,
            is_temporary: true,
        }
    } else if let Some(canonical) = policy.normalized_coverage_aliases.get(key.as_str()) {
        ResolvedGachaId {
            requested: gacha_id,
            canonical,
            is_coverage: true,
            is_regional: false,
            is_temporary: false,
        }
    } else if let Some(canonical) = policy.excluded_regional_aliases.get(key.as_str()) {
        ResolvedGachaId {
            requested: gacha_id,
            canonical,
            is_coverage: false,
            is_regional: true,
            is_temporary: false,
        }
    } else {
        ResolvedGachaId {
            requested: gacha_id,
            canonical: gacha_id,
            is_coverage: false,
            is_regional: false,
            is_temporary: false,
        }
    };
    catalog.direct_gacha_definition(resolution.canonical)?;
    Ok(resolution)
}

/// Whether a gacha id is a hidden regional or coverage alias.
pub fn is_hidden(policy: &GachaRegionPolicy, gacha_id: &str) -> (r: bool)
    ensures
        r == (policy.excluded_regional_aliases.view().contains_key(gacha_id@)
            || policy.normalized_coverage_aliases.view().contains_key(gacha_id@)),
{
    policy.excluded_regional_aliases.contains_key(gacha_id)
        || policy.normalized_coverage_aliases.contains_key(gacha_id)
}

/// Whether a gacha may be listed to the client: it is no alias of any kind
/// and it is in the catalog.
pub open spec fn spec_is_enumerable(policy: &GachaRegionPolicy, catalog: &GachaCatalog, gacha_id: i64) -> bool {
    &&& !policy.excluded_regional_aliases.view().contains_key(decimal(gacha_id as int))
    &&& !policy.normalized_coverage_aliases.view().contains_key(decimal(gacha_id as int))
    &&& !policy.temporary_aliases.view().contains_key(decimal(gacha_id as int))
    &&& catalog_lookup(catalog.entries@, decimal(gacha_id as int)) is Some
}

/// Whether a gacha may be listed to the client; see `spec_is_enumerable`.
pub fn is_enumerable(policy: &GachaRegionPolicy, catalog: &GachaCatalog, gacha_id: i64) -> (r:
    bool)
    ensures
        r == spec_is_enumerable(policy, catalog, gacha_id),
{
    let key = decimal_string(gacha_id);
    !policy.excluded_regional_aliases.contains_key(key.as_str())
        && !policy.normalized_coverage_aliases.contains_key(key.as_str())
        && !policy.temporary_aliases.contains_key(key.as_str())
        && catalog.direct_gacha_definition(gacha_id).is_ok()
}

/// Whether no key occurs twice among the entries.
pub open spec fn keys_distinct(s: Seq<(String, i64)>) -> bool {
    forall|i: int, j: int| 0 <= i < j < s.len() ==> s[i].0@ != s[j].0@
}

/// Whether no key of the entries occurs twice.
pub fn has_distinct_keys(entries: &Vec<(String, i64)>) -> (r: bool)
    ensures
        r == keys_distinct(entries@),
{
    let n = entries.len();
    let mut i: usize = 0;
    while i < n
        invariant
            n == entries@.len(),
            i <= n,
            forall|a: int, b: int| 0 <= a < b < n && a < i ==> entries@[a].0@ != entries@[b].0@,
        decreases n - i,
    {
        let mut j: usize = i + 1;
        while j < n
            invariant
                n == entries@.len(),
                i < n,
                i + 1 <= j <= n,
                forall|a: int, b: int| 0 <= a < b < n && a < i ==> entries@[a].0@ != entries@[b].0@,
                forall|b: int| i < b < j ==> entries@[i as int].0@ != entries@[b].0@,
            decreases n - j,
        {
            if str_eq(entries[i].0.as_str(), entries[j].0.as_str()) {
                return false;
            }
            j = j + 1;
        }
        i = i + 1;
    }
    true
}

/// With distinct keys, every entry is what the map holds for its key.
pub proof fn lemma_distinct_entry(s: Seq<(String, i64)>, i: int)
    requires
        keys_distinct(s),
        0 <= i < s.len(),
    ensures
        entries_map(s).contains_key(s[i].0@),
        entries_map(s)[s[i].0@] == s[i].1,
{
    lemma_entries_prefix(s, i + 1, s[i].0@);
    assert(s.subrange(0, i + 1).drop_last() =~= s.subrange(0, i));
}

/// Every key of the map comes from some entry.
pub proof fn lemma_map_key_has_entry(s: Seq<(String, i64)>, key: Seq<char>)
    requires
        entries_map(s).contains_key(key),
    ensures
        exists|i: int| 0 <= i < s.len() && s[i].0@ == key,
    decreases s.len(),
{
    if s.last().0@ != key {
        lemma_map_key_has_entry(s.drop_last(), key);
        let i = choose|i: int| 0 <= i < s.drop_last().len() && s.drop_last()[i].0@ == key;
        assert(s[i].0@ == key);
    } else {
        assert(s[s.len() - 1].0@ == key);
    }
}

/// A temporary alias of `canonical_id` whose id is a number, if there is one.
pub fn temporary_alias_for(policy: &GachaRegionPolicy, canonical_id: i64) -> (r: Option<i64>)
    requires
        keys_distinct(policy.temporary_aliases.entries@),
    ensures
        match r {
            Some(alias) => exists|key: Seq<char>|
                policy.temporary_aliases.view().contains_key(key)
                    && policy.temporary_aliases.view()[key] == canonical_id && spec_parse_i64(key)
                    == Some(alias),
            None => forall|key: Seq<char>|
                policy.temporary_aliases.view().contains_key(key)
                    && policy.temporary_aliases.view()[key] == canonical_id ==> spec_parse_i64(
                    key,
                ) is None,
        },
{
    let entries = &policy.temporary_aliases.entries;
    let mut i: usize = 0;
    while i < entries.len()
        invariant
            i <= entries@.len(),
            entries@ == policy.temporary_aliases.entries@,
            keys_distinct(entries@),
            forall|j: int|
                0 <= j < i && entries@[j].1 == canonical_id ==> spec_parse_i64(entries@[j].0@) is None,
        decreases entries@.len() - i,
    {
        if entries[i].1 == canonical_id {
            if let Some(alias) = parse_i64(entries[i].0.as_str()) {
                proof {
                    lemma_distinct_entry(entries@, i as int);
                }
                return Some(alias);
            }
        }
        i = i + 1;
    }
    proof {
        assert forall|key: Seq<char>|
            policy.temporary_aliases.view().contains_key(key)
                && policy.temporary_aliases.view()[key] == canonical_id implies spec_parse_i64(
            key,
        ) is None by {
            lemma_map_key_has_entry(entries@, key);
            let j = choose|j: int| 0 <= j < entries@.len() && entries@[j].0@ == key;
            lemma_distinct_entry(entries@, j);
        }
    }
    None
}

/// The stored state of one gacha; `other` is the rest of the entry, which
/// the normalization keeps as it is.
pub struct GachaInfo<T> {
    pub gacha_id: Option<i64>,
    pub is_account_first: Option<bool>,
    pub is_daily_first: Option<bool>,
    pub gacha_exchange_point: Option<i64>,
    pub other: T,
}

/// The canonical entry after taking in an alias entry: exchange points add
/// up, and a first-draw bonus stays available only where both still have
/// it (a missing flag counts as available).
pub open spec fn spec_merge<T>(canonical: GachaInfo<T>, alias: GachaInfo<T>) -> Option<GachaInfo<T>> {
    let points = canonical.gacha_exchange_point.unwrap_or(0) as int
        + alias.gacha_exchange_point.unwrap_or(0) as int;
    if points < i64::MIN || points > i64::MAX {
        None
    } else {
        Some(
            GachaInfo {
                gacha_id: canonical.gacha_id,
                is_account_first: Some(
                    canonical.is_account_first.unwrap_or(true) && alias.is_account_first.unwrap_or(
                        true,
                    ),
                ),
                is_daily_first: Some(
                    canonical.is_daily_first.unwrap_or(true) && alias.is_daily_first.unwrap_or(
                        true,
                    ),
                ),
                gacha_exchange_point: Some(points as i64),
                other: canonical.other,
            },
        )
    }
}

/// Merges the state of an alias entry into its canonical entry.
pub fn merge_gacha_info<T>(canonical: &mut GachaInfo<T>, alias: &GachaInfo<T>) -> (r: Result<
    (),
    ServiceError,
>)
    ensures
        match r {
            Ok(_) => spec_merge(*old(canonical), *alias) == Some(*final(canonical)),
            Err(_) => spec_merge(*old(canonical), *alias) is None,
        },
{
    let current: i64 = match canonical.gacha_exchange_point {
        Some(points) => points,
        None => 0,
    };
    let added: i64 = match alias.gacha_exchange_point {
        Some(points) => points,
        None => 0,
    };
    let points = match current.checked_add(added) {
        Some(points) => points,
        None => return Err(ServiceError::new("CN gacha exchange points overflow")),
    };
    let account_first = match canonical.is_account_first {
        Some(flag) => flag,
        None => true,
    } && match alias.is_account_first {
        Some(flag) => flag,
        None => true,
    };
    let daily_first = match canonical.is_daily_first {
        Some(flag) => flag,
        None => true,
    } && match alias.is_daily_first {
        Some(flag) => flag,
        None => true,
    };
    canonical.gacha_exchange_point = Some(points);
    canonical.is_account_first = Some(account_first);
    canonical.is_daily_first = Some(daily_first);
    Ok(())
}

/// The first entry that already holds `gacha_id`.
pub open spec fn find_gacha<T>(entries: Seq<GachaInfo<T>>, gacha_id: i64) -> Option<int>
    decreases entries.len(),
{
    if entries.len() == 0 {
        None
    } else {
        match find_gacha(entries.drop_last(), gacha_id) {
            Some(i) => Some(i),
            None => if entries.last().gacha_id == Some(gacha_id) {
                Some(entries.len() - 1)
            } else {
                None
            },
        }
    }
}

/// The id that a stored gacha id is kept under: hidden regional and
/// coverage aliases move to their canonical gacha.
pub open spec fn spec_canonical_for_state(policy: &GachaRegionPolicy, gacha_id: i64) -> i64 {
    let key = decimal(gacha_id as int);
    if policy.excluded_regional_aliases.view().contains_key(key) {
        policy.excluded_regional_aliases.view()[key]
    } else if policy.normalized_coverage_aliases.view().contains_key(key) {
        policy.normalized_coverage_aliases.view()[key]
    } else {
        gacha_id
    }
}

/// One entry taken into the normalized list: entries without an id stay as
/// they are, temporary aliases are dropped, and other entries move to their
/// canonical id and merge into an entry that already holds it.
pub open spec fn spec_normalize_step<T>(
    policy: &GachaRegionPolicy,
    entries: Seq<GachaInfo<T>>,
    info: GachaInfo<T>,
) -> Option<Seq<GachaInfo<T>>> {
    match info.gacha_id {
        None => Some(entries.push(info)),
        Some(gacha_id) => if policy.temporary_aliases.view().contains_key(decimal(gacha_id as int)) {
            Some(entries)
        } else {
            let canonical = spec_canonical_for_state(policy, gacha_id);
            let moved = GachaInfo { gacha_id: Some(canonical), ..info };
            match find_gacha(entries, canonical) {
                Some(j) => match spec_merge(entries[j], moved) {
                    Some(merged) => Some(entries.update(j, merged)),
                    None => None,
                },
                None => Some(entries.push(moved)),
            }
        },
    }
}

/// The normalized list of stored gacha states.
pub open spec fn spec_normalize_gacha_info<T>(policy: &GachaRegionPolicy, list: Seq<GachaInfo<T>>) -> Option<
    Seq<GachaInfo<T>>,
>
    decreases list.len(),
{
    if list.len() == 0 {
        Some(seq![])
    } else {
        match spec_normalize_gacha_info(policy, list.drop_last()) {
            Some(entries) => spec_normalize_step(policy, entries, list.last()),
            None => None,
        }
    }
}

/// `find_gacha` finds the first entry with the id, and no earlier one.
pub proof fn lemma_find_gacha<T>(entries: Seq<GachaInfo<T>>, gacha_id: i64)
    ensures
        match find_gacha(entries, gacha_id) {
            Some(j) => 0 <= j < entries.len() && entries[j].gacha_id == Some(gacha_id) && forall|
                i: int,
            | 0 <= i < j ==> entries[i].gacha_id != Some(gacha_id),
            None => forall|i: int| 0 <= i < entries.len() ==> entries[i].gacha_id != Some(gacha_id),
        },
    decreases entries.len(),
{
    if entries.len() > 0 {
        let prefix = entries.drop_last();
        lemma_find_gacha(prefix, gacha_id);
        assert forall|i: int| 0 <= i < prefix.len() implies entries[i] == prefix[i] by {}
    }
}

/// The entry index of `gacha_id` in `entries`, if there is one.
fn find_gacha_index<T>(entries: &Vec<GachaInfo<T>>, gacha_id: i64) -> (r: Option<usize>)
    ensures
        match r {
            Some(j) => find_gacha(entries@, gacha_id) == Some(j as int),
            None => find_gacha(entries@, gacha_id) is None,
        },
{
    proof {
        lemma_find_gacha(entries@, gacha_id);
    }
    let mut i: usize = 0;
    while i < entries.len()
        invariant
            i <= entries@.len(),
            forall|k: int| 0 <= k < i ==> entries@[k].gacha_id != Some(gacha_id),
        decreases entries@.len() - i,
    {
        if entries[i].gacha_id == Some(gacha_id) {
            proof {
                lemma_find_gacha(entries@, gacha_id);
                match find_gacha(entries@, gacha_id) {
                    Some(j) => {
                        if j < i {
                            assert(entries@[j].gacha_id != Some(gacha_id));
                        }
                        if j > i {
                            assert(entries@[i as int].gacha_id != Some(gacha_id));
                        }
                    },
                    None => {
                        assert(entries@[i as int].gacha_id != Some(gacha_id));
                    },
                }
            }
            return Some(i);
        }
        i = i + 1;
    }
    None
}

/// Moves the stored state of hidden aliases onto their canonical gachas,
/// merging entries that end up under the same id, and drops the state of
/// temporary aliases.
pub fn normalize_gacha_info<T>(policy: &GachaRegionPolicy, list: Vec<GachaInfo<T>>) -> (r: Result<
    Vec<GachaInfo<T>>,
    ServiceError,
>)
    ensures
        match r {
            Ok(entries) => spec_normalize_gacha_info(policy, list@) == Some(entries@),
            Err(_) => spec_normalize_gacha_info(policy, list@) is None,
        },
{
    let ghost initial = list@;
    let total = list.len();
    let mut pending = list;
    let mut reversed: Vec<GachaInfo<T>> = Vec::new();
    while pending.len() > 0
        invariant
            initial == pending@ + reversed@.reverse(),
        decreases pending@.len(),
    {
        let ghost before = reversed@;
        let ghost rest = pending@;
        let info = pending.pop().unwrap();
        reversed.push(info);
        assert(reversed@.reverse() =~= seq![info] + before.reverse());
        assert(rest =~= pending@.push(info));
        assert(initial == rest + before.reverse());
        assert(rest + before.reverse() =~= pending@ + (seq![info] + before.reverse()));
    }
    assert(reversed@.reverse() =~= initial);
    assert(initial.subrange(0, initial.len() as int) =~= initial);
    let mut normalized: Vec<GachaInfo<T>> = Vec::new();
    let mut taken: usize = 0;
    while reversed.len() > 0
        invariant
            initial == list@,
            initial.subrange(taken as int, initial.len() as int) == reversed@.reverse(),
            taken + reversed@.len() == initial.len(),
            initial.len() == total,
            spec_normalize_gacha_info(policy, initial.subrange(0, taken as int)) == Some(
                normalized@,
            ),
        decreases reversed@.len(),
    {
        let ghost done = initial.subrange(0, taken as int);
        let ghost remaining = reversed@;
        let info = reversed.pop().unwrap();
        proof {
            assert(initial.subrange(0, taken + 1).drop_last() =~= done);
            assert(remaining.reverse()[0] == info);
            assert(initial.subrange(taken as int, initial.len() as int)[0] == initial[taken as int]);
            assert(initial[taken as int] == info);
            assert(remaining.reverse().drop_first() =~= reversed@.reverse());
            assert(initial.subrange(taken as int, initial.len() as int).drop_first()
                =~= initial.subrange(taken + 1, initial.len() as int));
        }
        let ghost before = normalized@;
        match info.gacha_id {
            None => {
                normalized.push(info);
            },
            Some(gacha_id) => {
                let key = decimal_string(gacha_id);
                if policy.temporary_aliases.contains_key(key.as_str()) {
                } else {
                    let canonical_id = match policy.excluded_regional_aliases.get(key.as_str()) {
                        Some(canonical) => canonical,
                        None => match policy.normalized_coverage_aliases.get(key.as_str()) {
                            Some(canonical) => canonical,
                            None => gacha_id,
                        },
                    };
                    let moved = GachaInfo { gacha_id: Some(canonical_id), ..info };
                    match find_gacha_index(&normalized, canonical_id) {
                        Some(j) => {
                            proof {
                                lemma_find_gacha(normalized@, canonical_id);
                            }
                            let mut entry = normalized.remove(j);
                            let ghost old_entry = entry;
                            let merged = merge_gacha_info(&mut entry, &moved);
                            match merged {
                                Ok(_) => {
                                    normalized.insert(j, entry);
                                    assert(normalized@ =~= before.update(j as int, entry));
                                },
                                Err(error) => {
                                    proof {
                                        assert(old_entry == before[j as int]);
                                        assert(spec_normalize_step(policy, before, info) is None);
                                        assert(initial.subrange(0, taken + 1).drop_last() =~= done);
                                        lemma_normalize_none_extends(policy, initial, taken + 1);
                                        assert(spec_normalize_gacha_info(policy, initial) is None);
                                    }
                                    return Err(error);
                                },
                            }
                        },
                        None => {
                            normalized.push(moved);
                        },
                    }
                }
            },
        }
        taken = taken + 1;
        proof {
            assert(initial.subrange(0, taken as int).drop_last() =~= done);
        }
    }
    assert(initial.subrange(0, taken as int) =~= initial);
    Ok(normalized)
}

/// Once a prefix fails to normalize, the whole list does.
pub proof fn lemma_normalize_none_extends<T>(policy: &GachaRegionPolicy, list: Seq<GachaInfo<T>>, k: int)
    requires
        0 <= k <= list.len(),
        spec_normalize_gacha_info(policy, list.subrange(0, k)) is None,
    ensures
        spec_normalize_gacha_info(policy, list) is None,
    decreases list.len() - k,
{
    if k < list.len() {
        assert(list.subrange(0, k + 1).drop_last() =~= list.subrange(0, k));
        lemma_normalize_none_extends(policy, list, k + 1);
    } else {
        assert(list.subrange(0, k) =~= list);
    }
}

/// After normalization no two entries hold the same gacha id.
pub proof fn lemma_normalized_ids_distinct<T>(policy: &GachaRegionPolicy, list: Seq<GachaInfo<T>>)
    requires
        spec_normalize_gacha_info(policy, list) is Some,
    ensures
        forall|i: int, j: int|
            0 <= i < j < spec_normalize_gacha_info(policy, list)->0.len() ==> (
            spec_normalize_gacha_info(policy, list)->0[i].gacha_id is None
                || spec_normalize_gacha_info(policy, list)->0[i].gacha_id
                != spec_normalize_gacha_info(policy, list)->0[j].gacha_id),
    decreases list.len(),
{
    if list.len() > 0 {
        lemma_normalized_ids_distinct(policy, list.drop_last());
        let entries = spec_normalize_gacha_info(policy, list.drop_last())->0;
        let info = list.last();
        if let Some(gacha_id) = info.gacha_id {
            let canonical = spec_canonical_for_state(policy, gacha_id);
            lemma_find_gacha(entries, canonical);
        }
    }
}


/// A gacha of the master as the coverage rule reads it: its id text, page
/// kind, type and window.
pub struct CoverageGacha {
    pub key: String,
    pub page_kind: i64,
    pub gacha_type: i64,
    pub definition: GachaDefinition,
}

/// Whether the coverage rule looks at a gacha of the master for a kind: no
/// alias, on the main page, of that kind.
pub open spec fn counts_for_kind(policy: &GachaRegionPolicy, g: CoverageGacha, kind: i64) -> bool {
    !policy.excluded_regional_aliases.view().contains_key(g.key@)
        && !policy.normalized_coverage_aliases.view().contains_key(g.key@) && g.page_kind == 0
        && g.gacha_type == kind
}

/// Whether the master keeps a gacha of the kind open at `now_ms`, in the
/// master's order: `Err` with the failure of the first counted gacha
/// without a valid window met before an open one.
pub open spec fn spec_kind_open(
    policy: &GachaRegionPolicy,
    gachas: Seq<CoverageGacha>,
    kind: i64,
    now_ms: i64,
) -> Result<bool, Seq<char>>
    decreases gachas.len(),
{
    if gachas.len() == 0 {
        Ok(false)
    } else if !counts_for_kind(policy, gachas[0], kind) {
        spec_kind_open(policy, gachas.drop_first(), kind, now_ms)
    } else {
        match crate::gacha::spec_master_times(gachas[0].definition) {
            None => Err(crate::gacha::master_times_failure(gachas[0].definition)),
            Some((start, end)) => if start <= now_ms && now_ms < end {
                Ok(true)
            } else {
                spec_kind_open(policy, gachas.drop_first(), kind, now_ms)
            },
        }
    }
}

/// Whether the master keeps a gacha of the kind open at `now_ms`.
pub fn kind_has_open_gacha(policy: &GachaRegionPolicy, gachas: &Vec<CoverageGacha>, kind: i64, now_ms: i64) -> (r:
    Result<bool, ServiceError>)
    ensures
        match spec_kind_open(policy, gachas@, kind, now_ms) {
            Ok(open) => r matches Ok(o) && o == open,
            Err(message) => r matches Err(e) && e.message@ == message,
        },
{
    let mut i: usize = 0;
    assert(gachas@.subrange(0, gachas@.len() as int) =~= gachas@);
    while i < gachas.len()
        invariant
            i <= gachas@.len(),
            spec_kind_open(policy, gachas@, kind, now_ms) == spec_kind_open(
                policy,
                gachas@.subrange(i as int, gachas@.len() as int),
                kind,
                now_ms,
            ),
        decreases gachas@.len() - i,
    {
        let ghost rest = gachas@.subrange(i as int, gachas@.len() as int);
        assert(rest.drop_first() =~= gachas@.subrange(i + 1, gachas@.len() as int));
        let g = &gachas[i];
        let counted = !policy.excluded_regional_aliases.contains_key(g.key.as_str())
            && !policy.normalized_coverage_aliases.contains_key(g.key.as_str()) && g.page_kind == 0
            && g.gacha_type == kind;
        if counted {
            let (start, end) = match crate::gacha::gacha_master_times(&g.definition) {
                Ok(times) => times,
                Err(e) => return Err(e),
            };
            if start <= now_ms && now_ms < end {
                return Ok(true);
            }
        }
        i = i + 1;
    }
    Ok(false)
}

/// An alias that may bridge a gap: its id, canonical gacha, page kind,
/// type, window and list order.
#[derive(Clone, Copy, Debug, PartialEq, Eq, Structural)]
pub struct CoverageCandidate {
    pub alias_id: i64,
    pub canonical_id: i64,
    pub page_kind: i64,
    pub gacha_type: i64,
    pub definition: GachaDefinition,
    pub list_order: Option<i64>,
}

/// The order in which candidates are preferred: later start, then higher
/// list order, then higher alias id, then higher canonical id.
pub open spec fn key_lt(a: (i64, i64, i64, i64), b: (i64, i64, i64, i64)) -> bool {
    a.0 < b.0 || (a.0 == b.0 && (a.1 < b.1 || (a.1 == b.1 && (a.2 < b.2 || (a.2 == b.2
        && a.3 < b.3)))))
}

/// The preferred alias among the candidates of a kind that are open at
/// `now_ms`, kept in `best` as `(start, list order, alias, canonical)`, or
/// the failure of the first candidate of the kind without a valid window or,
/// open, without a list order.
pub open spec fn spec_coverage_pick(
    candidates: Seq<CoverageCandidate>,
    kind: i64,
    now_ms: i64,
    best: Option<(i64, i64, i64, i64)>,
) -> Result<Option<(i64, i64, i64, i64)>, Seq<char>>
    decreases candidates.len(),
{
    if candidates.len() == 0 {
        Ok(best)
    } else {
        let c = candidates[0];
        if c.page_kind != 0 || c.gacha_type != kind {
            spec_coverage_pick(candidates.drop_first(), kind, now_ms, best)
        } else {
            match crate::gacha::spec_master_times(c.definition) {
                None => Err(crate::gacha::master_times_failure(c.definition)),
                Some((start, end)) => if !(start <= now_ms && now_ms < end) {
                    spec_coverage_pick(candidates.drop_first(), kind, now_ms, best)
                } else {
                    match c.list_order {
                        None => Err("CN gacha list order is invalid"@),
                        Some(order) => {
                            let key = (start, order, c.alias_id, c.canonical_id);
                            let next = match best {
                                Some(b) => if key_lt(b, key) {
                                    Some(key)
                                } else {
                                    Some(b)
                                },
                                None => Some(key),
                            };
                            spec_coverage_pick(candidates.drop_first(), kind, now_ms, next)
                        },
                    }
                },
            }
        }
    }
}

/// Whether `a` comes before `b` in the order of preference.
fn tuple_lt(a: (i64, i64, i64, i64), b: (i64, i64, i64, i64)) -> (r: bool)
    ensures
        r == key_lt(a, b),
{
    a.0 < b.0 || (a.0 == b.0 && (a.1 < b.1 || (a.1 == b.1 && (a.2 < b.2 || (a.2 == b.2
        && a.3 < b.3)))))
}

/// The alias that bridges a kind of gacha at `now_ms`: none where the
/// master keeps one of the kind open, else the preferred open candidate of
/// the kind (latest start, then highest list order, alias and canonical
/// id), marked as a coverage or regional alias by the policy.
pub fn coverage_alias(
    policy: &GachaRegionPolicy,
    master_open: bool,
    candidates: &Vec<CoverageCandidate>,
    kind: i64,
    now_ms: i64,
) -> (r: Result<Option<ResolvedGachaId>, ServiceError>)
    ensures
        master_open ==> (r matches Ok(None)),
        !master_open ==> match spec_coverage_pick(candidates@, kind, now_ms, None) {
            Err(message) => r matches Err(e) && e.message@ == message,
            Ok(None) => r matches Ok(None),
            Ok(Some((_, _, alias, canonical))) => r matches Ok(Some(id)) && id.requested == alias
                && id.canonical == canonical && id.is_coverage
                == policy.normalized_coverage_aliases.view().contains_key(decimal(alias as int))
                && id.is_regional == policy.excluded_regional_aliases.view().contains_key(
                decimal(alias as int),
            ) && !id.is_temporary,
        },
{
    if master_open {
        return Ok(None);
    }
    let mut best: Option<(i64, i64, i64, i64)> = None;
    let mut i: usize = 0;
    assert(candidates@.subrange(0, candidates@.len() as int) =~= candidates@);
    while i < candidates.len()
        invariant
            i <= candidates@.len(),
            !master_open,
            spec_coverage_pick(candidates@, kind, now_ms, None) == spec_coverage_pick(
                candidates@.subrange(i as int, candidates@.len() as int),
                kind,
                now_ms,
                best,
            ),
        decreases candidates@.len() - i,
    {
        let ghost rest = candidates@.subrange(i as int, candidates@.len() as int);
        assert(rest.drop_first() =~= candidates@.subrange(i + 1, candidates@.len() as int));
        let c = candidates[i];
        if c.page_kind == 0 && c.gacha_type == kind {
            let (start, end) = match crate::gacha::gacha_master_times(&c.definition) {
                Ok(times) => times,
                Err(e) => return Err(e),
            };
            if start <= now_ms && now_ms < end {
                let order = match c.list_order {
                    Some(order) => order,
                    None => return Err(ServiceError::new("CN gacha list order is invalid")),
                };
                let key = (start, order, c.alias_id, c.canonical_id);
                best = match best {
                    Some(b) => if tuple_lt(b, key) {
                        Some(key)
                    } else {
                        Some(b)
                    },
                    None => Some(key),
                };
            }
        }
        i = i + 1;
    }
    match best {
        None => Ok(None),
        Some((_, _, alias, canonical)) => {
            let key = decimal_string(alias);
            Ok(
                Some(
                    ResolvedGachaId {
                        requested: alias,
                        canonical,
                        is_coverage: policy.normalized_coverage_aliases.contains_key(key.as_str()),
                        is_regional: policy.excluded_regional_aliases.contains_key(key.as_str()),
                        is_temporary: false,
                    },
                ),
            )
        },
    }
}


/// The preference key of a candidate that may bridge the kind at `now_ms`
/// (of the kind, on the main page, open, with a list order).
pub open spec fn eligible_key(c: CoverageCandidate, kind: i64, now_ms: i64) -> Option<(i64, i64, i64, i64)> {
    if c.page_kind != 0 || c.gacha_type != kind {
        None
    } else {
        match crate::gacha::spec_master_times(c.definition) {
            Some((start, end)) => if start <= now_ms && now_ms < end {
                match c.list_order {
                    Some(order) => Some((start, order, c.alias_id, c.canonical_id)),
                    None => None,
                }
            } else {
                None
            },
            None => None,
        }
    }
}

proof fn lemma_pick_maximal(
    candidates: Seq<CoverageCandidate>,
    kind: i64,
    now_ms: i64,
    best: Option<(i64, i64, i64, i64)>,
)
    ensures
        spec_coverage_pick(candidates, kind, now_ms, best) matches Ok(Some(b)) ==> {
            &&& forall|i: int|
                0 <= i < candidates.len() && eligible_key(#[trigger] candidates[i], kind, now_ms)
                    is Some ==> !key_lt(b, eligible_key(candidates[i], kind, now_ms)->0)
            &&& best matches Some(b0) ==> !key_lt(b, b0)
        },
    decreases candidates.len(),
{
    if candidates.len() > 0 {
        let c = candidates[0];
        let rest = candidates.drop_first();
        let next = match eligible_key(c, kind, now_ms) {
            Some(key) => match best {
                Some(b) => if key_lt(b, key) {
                    Some(key)
                } else {
                    Some(b)
                },
                None => Some(key),
            },
            None => best,
        };
        lemma_pick_maximal(rest, kind, now_ms, next);
        if let Ok(Some(b)) = spec_coverage_pick(candidates, kind, now_ms, best) {
            assert(spec_coverage_pick(rest, kind, now_ms, next) == spec_coverage_pick(
                candidates,
                kind,
                now_ms,
                best,
            ));
            assert forall|i: int|
                0 <= i < candidates.len() && eligible_key(#[trigger] candidates[i], kind, now_ms)
                    is Some implies !key_lt(b, eligible_key(candidates[i], kind, now_ms)->0) by {
                if i > 0 {
                    assert(candidates[i] == rest[i - 1]);
                }
            }
        }
    }
}

/// The alias chosen to bridge a gap is preferred over every other
/// candidate that could: none of them has a later start, or the same start
/// and a higher list order, alias id or canonical id.
pub proof fn lemma_coverage_alias_is_preferred(candidates: Seq<CoverageCandidate>, kind: i64, now_ms: i64)
    ensures
        spec_coverage_pick(candidates, kind, now_ms, None) matches Ok(Some(b)) ==> forall|i: int|
            0 <= i < candidates.len() && eligible_key(#[trigger] candidates[i], kind, now_ms) is Some
                ==> !key_lt(b, eligible_key(candidates[i], kind, now_ms)->0),
{
    lemma_pick_maximal(candidates, kind, now_ms, None);
}

} // verus!
