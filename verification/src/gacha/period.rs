//! The periods a load answer shows for gachas the client asks for under
//! another id, the daily state of the player's gacha records, and the
//! account-first gachas a new record is made for.
use vstd::prelude::*;

use crate::error::ServiceError;
use crate::gacha::exchange::{find_info, info_index, GachaInfoRecord, StoredCount};
use crate::gacha::region::{keys_distinct, temporary_alias_for, GachaRegionPolicy};
use crate::gacha::{
    gacha_master_window_status, gacha_of_activity, master_times_failure, spec_gacha_of_activity,
    spec_master_status, spec_master_times, ActivityWindowStatus, GachaCatalog, GachaDefinition,
};
use crate::text::spec_parse_i64;

verus! {

/// The last second a client period may end at.
pub const MAX_CLIENT_PERIOD_SECONDS: i64 = 253_402_300_799;

/// A period as the client shows it, in whole seconds.
#[derive(Clone, Copy, Debug, PartialEq, Eq, Structural)]
pub struct ClientPeriod {
    pub period_start_time: i64,
    pub period_end_time: i64,
}

/// Milliseconds as whole seconds, rounded down (toward negative infinity).
pub fn whole_seconds(ms: i64) -> (r: i64)
    ensures
        r == ms / 1000,
{
    if ms >= 0 {
        ms / 1000
    } else {
        let p = -(ms + 1);
        let q = p / 1000;
        proof {
            assert(p == (p / 1000) * 1000 + p % 1000) by (nonlinear_arith);
            assert(ms == -(p / 1000) * 1000 - 1 - p % 1000);
            assert(ms / 1000 == -(p / 1000) - 1) by (nonlinear_arith)
                requires
                    ms == -(p / 1000) * 1000 - 1 - p % 1000,
                    0 <= p % 1000 < 1000,
            ;
        }
        -q - 1
    }
}

/// The period of a window given in milliseconds.
pub fn period_of(start_at_ms: i64, end_at_ms: i64) -> (r: ClientPeriod)
    ensures
        r.period_start_time == start_at_ms / 1000,
        r.period_end_time == end_at_ms / 1000,
{
    ClientPeriod { period_start_time: whole_seconds(start_at_ms), period_end_time: whole_seconds(end_at_ms) }
}

/// The period a temporary lease shows on the service's virtual clock: as
/// long ago as the lease opened on the wall clock (not before now), and as
/// far ahead as it has left; fails where the lease has run out or a bound
/// leaves `i64`.
pub open spec fn spec_temporary_period(
    opened_wall_ms: i64,
    expires_wall_ms: i64,
    wall_now_ms: i64,
    virtual_now_ms: i64,
) -> Result<(int, int), Seq<char>> {
    let diff = wall_now_ms - opened_wall_ms;
    let elapsed = if diff > i64::MAX {
        i64::MAX as int
    } else if diff < 0 {
        0
    } else {
        diff
    };
    let rdiff = expires_wall_ms - wall_now_ms;
    let remaining = if rdiff > i64::MAX {
        i64::MAX as int
    } else if rdiff < i64::MIN {
        i64::MIN as int
    } else {
        rdiff
    };
    if remaining <= 0 {
        Err("CN gacha temporary lease expired during refresh"@)
    } else if virtual_now_ms - elapsed < i64::MIN || virtual_now_ms + remaining > i64::MAX {
        Err("CN gacha temporary period exceeds range"@)
    } else {
        Ok((virtual_now_ms - elapsed, virtual_now_ms + remaining))
    }
}

/// `a - b`, held within `i64`.
fn sub_saturating(a: i64, b: i64) -> (r: i64)
    ensures
        r == if a - b > i64::MAX {
            i64::MAX as int
        } else if a - b < i64::MIN {
            i64::MIN as int
        } else {
            a - b
        },
{
    match a.checked_sub(b) {
        Some(v) => v,
        None => if b < 0 {
            i64::MAX
        } else {
            i64::MIN
        },
    }
}

/// The period a temporary lease shows.
pub fn projected_temporary_gacha_period(
    opened_wall_ms: i64,
    expires_wall_ms: i64,
    wall_now_ms: i64,
    virtual_now_ms: i64,
) -> (r: Result<ClientPeriod, ServiceError>)
    ensures
        match spec_temporary_period(opened_wall_ms, expires_wall_ms, wall_now_ms, virtual_now_ms) {
            Ok((start, end)) => r matches Ok(p) && p.period_start_time == start / 1000
                && p.period_end_time == end / 1000,
            Err(message) => r matches Err(e) && e.message@ == message,
        },
{
    let elapsed = {
        let e = sub_saturating(wall_now_ms, opened_wall_ms);
        if e < 0 {
            0
        } else {
            e
        }
    };
    let remaining = sub_saturating(expires_wall_ms, wall_now_ms);
    if remaining <= 0 {
        return Err(ServiceError::new("CN gacha temporary lease expired during refresh"));
    }
    let start = match virtual_now_ms.checked_sub(elapsed) {
        Some(s) => s,
        None => return Err(ServiceError::new("CN gacha temporary period exceeds range")),
    };
    let end = match virtual_now_ms.checked_add(remaining) {
        Some(e) => e,
        None => return Err(ServiceError::new("CN gacha temporary period exceeds range")),
    };
    Ok(period_of(start, end))
}

/// The period a scheduled activity shows: none where it is not open, its
/// active window where it has one, the widest period where it has no bounds
/// at all; fails where only one bound is set or the window is empty.
pub fn schedule_period(is_open: bool, active_start_ms: Option<i64>, active_end_ms: Option<i64>) -> (r: Result<
    Option<ClientPeriod>,
    ServiceError,
>)
    ensures
        !is_open ==> (r matches Ok(None)),
        is_open ==> match (active_start_ms, active_end_ms) {
            (Some(s), Some(e)) => if e > s {
                r matches Ok(Some(p)) && p.period_start_time == s / 1000 && p.period_end_time
                    == e / 1000
            } else {
                r matches Err(err) && err.message@ == "CN gacha activity period is invalid"@
            },
            (None, None) => r == Ok::<Option<ClientPeriod>, ServiceError>(
                Some(ClientPeriod { period_start_time: 0, period_end_time: MAX_CLIENT_PERIOD_SECONDS }),
            ),
            _ => r matches Err(err) && err.message@ == "CN gacha activity period is invalid"@,
        },
{
    if !is_open {
        return Ok(None);
    }
    match (active_start_ms, active_end_ms) {
        (Some(s), Some(e)) => if e > s {
            Ok(Some(period_of(s, e)))
        } else {
            Err(ServiceError::new("CN gacha activity period is invalid"))
        },
        (None, None) => Ok(
            Some(ClientPeriod { period_start_time: 0, period_end_time: MAX_CLIENT_PERIOD_SECONDS }),
        ),
        _ => Err(ServiceError::new("CN gacha activity period is invalid")),
    }
}

/// The period a gacha's master window shows at `now_ms`: none where it is
/// not open; fails where the window is not valid.
pub fn master_period(definition: &GachaDefinition, now_ms: i64) -> (r: Result<Option<ClientPeriod>, ServiceError>)
    ensures
        match spec_master_times(*definition) {
            None => r matches Err(e) && e.message@ == master_times_failure(*definition),
            Some((start, end)) => if start <= now_ms && now_ms < end {
                r matches Ok(Some(p)) && p.period_start_time == start / 1000 && p.period_end_time
                    == end / 1000
            } else {
                r matches Ok(None)
            },
        },
{
    let (start, end) = match crate::gacha::gacha_master_times(definition) {
        Ok(times) => times,
        Err(e) => return Err(e),
    };
    if start <= now_ms && now_ms < end {
        Ok(Some(period_of(start, end)))
    } else {
        Ok(None)
    }
}

/// The campaign field a gacha's period goes under.
#[derive(Clone, Copy, Debug, PartialEq, Eq, Structural)]
pub enum CampaignField {
    Comeback,
    Stars,
}

/// The campaign field of a gacha: a comeback gacha's or a stars gacha's
/// period, or none; fails where a flag is missing or both are set.
pub fn dynamic_campaign_field(is_comeback: Option<bool>, is_stars: Option<bool>) -> (r: Result<
    Option<CampaignField>,
    ServiceError,
>)
    ensures
        match (is_comeback, is_stars) {
            (None, _) => r matches Err(e) && e.message@ == "CN gacha isComeback is missing"@,
            (Some(_), None) => r matches Err(e) && e.message@ == "CN gacha isStarsGacha is missing"@,
            (Some(true), Some(false)) => r matches Ok(Some(CampaignField::Comeback)),
            (Some(false), Some(true)) => r matches Ok(Some(CampaignField::Stars)),
            (Some(false), Some(false)) => r matches Ok(None),
            (Some(true), Some(true)) => r matches Err(e) && e.message@
                == "CN gacha dynamic campaign kind is ambiguous"@,
        },
{
    let comeback = match is_comeback {
        Some(b) => b,
        None => return Err(ServiceError::new("CN gacha isComeback is missing")),
    };
    let stars = match is_stars {
        Some(b) => b,
        None => return Err(ServiceError::new("CN gacha isStarsGacha is missing")),
    };
    if comeback && !stars {
        Ok(Some(CampaignField::Comeback))
    } else if !comeback && stars {
        Ok(Some(CampaignField::Stars))
    } else if !comeback && !stars {
        Ok(None)
    } else {
        Err(ServiceError::new("CN gacha dynamic campaign kind is ambiguous"))
    }
}

/// Whether a gacha's page kind is one the master may hold.
pub open spec fn valid_page_kind(kind: i64) -> bool {
    kind == 0 || kind == 1 || kind == 2 || kind == 3 || kind == 4 || kind == 5 || kind == 8
}

/// Whether a gacha has a daily discount: a main-page gacha with a positive
/// discount cost; fails where the cost is missing or negative, or the page
/// kind is not one the master may hold.
pub fn gacha_supports_daily_discount(discount_cost: Option<i64>, page_kind: Option<i64>) -> (r: Result<
    bool,
    ServiceError,
>)
    ensures
        match discount_cost {
            None => r matches Err(e) && e.message@ == "CN gacha daily cost is invalid"@,
            Some(cost) => if cost < 0 {
                r matches Err(e) && e.message@ == "CN gacha daily cost is invalid"@
            } else {
                match page_kind {
                    Some(kind) => if valid_page_kind(kind) {
                        r matches Ok(b) && b == (kind == 0 && cost > 0)
                    } else {
                        r matches Err(e) && e.message@ == "CN gacha page kind is invalid"@
                    },
                    None => r matches Err(e) && e.message@ == "CN gacha page kind is invalid"@,
                }
            },
        },
{
    let cost = match discount_cost {
        Some(c) => if c >= 0 {
            c
        } else {
            return Err(ServiceError::new("CN gacha daily cost is invalid"));
        },
        None => return Err(ServiceError::new("CN gacha daily cost is invalid")),
    };
    let kind = match page_kind {
        Some(k) => if k == 0 || k == 1 || k == 2 || k == 3 || k == 4 || k == 5 || k == 8 {
            k
        } else {
            return Err(ServiceError::new("CN gacha page kind is invalid"));
        },
        None => return Err(ServiceError::new("CN gacha page kind is invalid")),
    };
    Ok(kind == 0 && cost > 0)
}

/// A gacha's record the first time the player meets an account-first
/// gacha: account-first available, no daily discount, nothing drawn.
pub open spec fn account_first_record(gacha_id: i64) -> GachaInfoRecord {
    GachaInfoRecord {
        gacha_id: Some(gacha_id),
        exchange_point: 0,
        is_account_first: true,
        is_daily_first: false,
        daily_one_count: StoredCount::Count(0),
        daily_ten_count: StoredCount::Count(0),
        crazy_draw_count: StoredCount::Count(0),
    }
}

/// The records after every account-first gacha, in order, gets a fresh
/// record where the player has none.
pub open spec fn with_account_first(list: Seq<GachaInfoRecord>, ids: Seq<i64>) -> Seq<GachaInfoRecord>
    decreases ids.len(),
{
    if ids.len() == 0 {
        list
    } else {
        let before = with_account_first(list, ids.drop_last());
        if info_index(before, ids.last()) is Some {
            before
        } else {
            before.push(account_first_record(ids.last()))
        }
    }
}

/// Whether the player keeps a record of a gacha.
fn has_record(list: &Vec<GachaInfoRecord>, gacha_id: i64) -> (r: bool)
    ensures
        r == info_index(list@, gacha_id) is Some,
{
    let mut i: usize = 0;
    assert(list@.subrange(0, list@.len() as int) =~= list@);
    while i < list.len()
        invariant
            i <= list@.len(),
            (info_index(list@, gacha_id) is Some) == (info_index(
                list@.subrange(i as int, list@.len() as int),
                gacha_id,
            ) is Some),
        decreases list@.len() - i,
    {
        let ghost rest = list@.subrange(i as int, list@.len() as int);
        assert(rest.drop_first() =~= list@.subrange(i + 1, list@.len() as int));
        if list[i].gacha_id == Some(gacha_id) {
            return true;
        }
        i = i + 1;
    }
    false
}

/// Gives every account-first gacha (of the master, in order) a fresh record
/// where the player has none.
pub fn inject_account_first_gacha_info(list: &mut Vec<GachaInfoRecord>, account_first_ids: &Vec<i64>)
    ensures
        final(list)@ == with_account_first(old(list)@, account_first_ids@),
{
    let ghost start = list@;
    let mut k: usize = 0;
    assert(account_first_ids@.subrange(0, 0) =~= Seq::<i64>::empty());
    while k < account_first_ids.len()
        invariant
            k <= account_first_ids@.len(),
            start == old(list)@,
            list@ == with_account_first(start, account_first_ids@.subrange(0, k as int)),
        decreases account_first_ids@.len() - k,
    {
        assert(account_first_ids@.subrange(0, k + 1).drop_last() =~= account_first_ids@.subrange(
            0,
            k as int,
        ));
        let id = account_first_ids[k];
        if !has_record(list, id) {
            list.push(
                GachaInfoRecord {
                    gacha_id: Some(id),
                    exchange_point: 0,
                    is_account_first: true,
                    is_daily_first: false,
                    daily_one_count: StoredCount::Count(0),
                    daily_ten_count: StoredCount::Count(0),
                    crazy_draw_count: StoredCount::Count(0),
                },
            );
        }
        k = k + 1;
    }
    assert(account_first_ids@.subrange(0, account_first_ids@.len() as int) =~= account_first_ids@);
}

/// A counter kept as an integer (0 where absent); `None` where it is not an
/// integer.
pub open spec fn kept_count(c: StoredCount) -> Option<i64> {
    match c {
        StoredCount::Missing => Some(0),
        StoredCount::Count(v) => Some(v),
        StoredCount::Invalid => None,
    }
}

/// A record after a new day: the daily counters back to 0, the crazy draw
/// counter kept, and the daily discount as the gacha offers it; `None`
/// where the record has no gacha id or a counter is not an integer.
pub open spec fn daily_reset_record(r: GachaInfoRecord, discount: bool) -> Option<GachaInfoRecord> {
    if r.gacha_id is None || kept_count(r.daily_one_count) is None || kept_count(r.daily_ten_count)
        is None || kept_count(r.crazy_draw_count) is None {
        None
    } else {
        Some(
            GachaInfoRecord {
                daily_one_count: StoredCount::Count(0),
                daily_ten_count: StoredCount::Count(0),
                crazy_draw_count: StoredCount::Count(kept_count(r.crazy_draw_count)->0),
                is_daily_first: discount,
                ..r
            },
        )
    }
}

/// Whether a gacha has a daily discount, by the table of discounts (a gacha
/// not in the table has none).
pub open spec fn discount_for(discounts: Seq<(i64, bool)>, gacha_id: i64) -> bool
    decreases discounts.len(),
{
    if discounts.len() == 0 {
        false
    } else if discounts[0].0 == gacha_id {
        discounts[0].1
    } else {
        discount_for(discounts.drop_first(), gacha_id)
    }
}

/// Whether a gacha has a daily discount, by the table of discounts.
fn lookup_discount(discounts: &Vec<(i64, bool)>, gacha_id: i64) -> (r: bool)
    ensures
        r == discount_for(discounts@, gacha_id),
{
    let mut i: usize = 0;
    assert(discounts@.subrange(0, discounts@.len() as int) =~= discounts@);
    while i < discounts.len()
        invariant
            i <= discounts@.len(),
            discount_for(discounts@, gacha_id) == discount_for(
                discounts@.subrange(i as int, discounts@.len() as int),
                gacha_id,
            ),
        decreases discounts@.len() - i,
    {
        let ghost rest = discounts@.subrange(i as int, discounts@.len() as int);
        assert(rest.drop_first() =~= discounts@.subrange(i + 1, discounts@.len() as int));
        if discounts[i].0 == gacha_id {
            return discounts[i].1;
        }
        i = i + 1;
    }
    false
}

/// Resets the daily state of the player's gacha records for a new day;
/// `discounts` tells which gachas offer a daily discount. Fails at the
/// first record that cannot be reset, and the caller keeps nothing then.
pub fn reset_daily_state(list: &mut Vec<GachaInfoRecord>, discounts: &Vec<(i64, bool)>) -> (r: Result<
    (),
    ServiceError,
>)
    ensures
        (forall|i: int|
            0 <= i < old(list)@.len() ==> daily_reset_record(
                #[trigger] old(list)@[i],
                discount_for(discounts@, old(list)@[i].gacha_id->0),
            ) is Some) ==> (r is Ok && final(list)@.len() == old(list)@.len() && forall|i: int|
            0 <= i < old(list)@.len() ==> Some(#[trigger] final(list)@[i]) == daily_reset_record(
                old(list)@[i],
                discount_for(discounts@, old(list)@[i].gacha_id->0),
            )),
        r is Err ==> exists|i: int|
            0 <= i < old(list)@.len() && daily_reset_record(
                #[trigger] old(list)@[i],
                discount_for(discounts@, old(list)@[i].gacha_id->0),
            ) is None,
{
    let ghost before = list@;
    let mut i: usize = 0;
    while i < list.len()
        invariant
            i <= list@.len(),
            list@.len() == before.len(),
            before == old(list)@,
            forall|j: int|
                0 <= j < i ==> Some(#[trigger] list@[j]) == daily_reset_record(
                    before[j],
                    discount_for(discounts@, before[j].gacha_id->0),
                ),
            forall|j: int| i <= j < list@.len() ==> #[trigger] list@[j] == before[j],
        decreases list@.len() - i,
    {
        let entry = list[i];
        let gacha_id = match entry.gacha_id {
            Some(id) => id,
            None => return Err(ServiceError::new("stored CN gacha id is invalid")),
        };
        let one_ok = !matches!(entry.daily_one_count, StoredCount::Invalid);
        let ten_ok = !matches!(entry.daily_ten_count, StoredCount::Invalid);
        let crazy = match entry.crazy_draw_count {
            StoredCount::Missing => 0,
            StoredCount::Count(v) => v,
            StoredCount::Invalid => return Err(ServiceError::new("stored CN gacha draw count is invalid")),
        };
        if !one_ok || !ten_ok {
            return Err(ServiceError::new("stored CN gacha draw count is invalid"));
        }
        let discount = lookup_discount(discounts, gacha_id);
        list.set(
            i,
            GachaInfoRecord {
                daily_one_count: StoredCount::Count(0),
                daily_ten_count: StoredCount::Count(0),
                crazy_draw_count: StoredCount::Count(crazy),
                is_daily_first: discount,
                ..entry
            },
        );
        i = i + 1;
    }
    Ok(())
}


/// Whether `alias` is a temporary alias of the gacha `canonical_id`.
pub open spec fn is_temporary_alias_of(policy: &GachaRegionPolicy, alias: i64, canonical_id: i64) -> bool {
    exists|key: Seq<char>|
        policy.temporary_aliases.view().contains_key(key) && policy.temporary_aliases.view()[key]
            == canonical_id && spec_parse_i64(key) == Some(alias)
}

/// The temporary alias that an open lease on `activity_id` shows at
/// `now_ms`, with the gacha it stands for: where the activity names a gacha
/// that has a temporary alias and whose master does not keep it open. The
/// master status of such a gacha fails where it cannot be read.
pub fn lease_alias(policy: &GachaRegionPolicy, catalog: &GachaCatalog, activity_id: &str, now_ms: i64) -> (r:
    Result<Option<(i64, i64)>, ServiceError>)
    requires
        keys_distinct(policy.temporary_aliases.entries@),
    ensures
        spec_gacha_of_activity(activity_id@) is None ==> r matches Ok(None),
        r matches Ok(Some((canonical, alias))) ==> {
            &&& spec_gacha_of_activity(activity_id@) == Some(canonical)
            &&& is_temporary_alias_of(policy, alias, canonical)
            &&& spec_master_status(policy, catalog, canonical, now_ms) matches Some(status)
            &&& status != ActivityWindowStatus::Open
        },
        r matches Ok(None) ==> match spec_gacha_of_activity(activity_id@) {
            Some(canonical) => (forall|alias: i64| !is_temporary_alias_of(policy, alias, canonical))
                || spec_master_status(policy, catalog, canonical, now_ms) == Some(
                ActivityWindowStatus::Open,
            ),
            None => true,
        },
        r is Err ==> match spec_gacha_of_activity(activity_id@) {
            Some(canonical) => spec_master_status(policy, catalog, canonical, now_ms) is None,
            None => false,
        },
{
    let canonical = match gacha_of_activity(activity_id) {
        Some(c) => c,
        None => return Ok(None),
    };
    let alias = match temporary_alias_for(policy, canonical) {
        Some(a) => a,
        None => {
            proof {
                assert forall|alias: i64| !is_temporary_alias_of(policy, alias, canonical) by {
                    if is_temporary_alias_of(policy, alias, canonical) {
                        let key = choose|key: Seq<char>|
                            policy.temporary_aliases.view().contains_key(key)
                                && policy.temporary_aliases.view()[key] == canonical
                                && spec_parse_i64(key) == Some(alias);
                    }
                }
            }
            return Ok(None);
        },
    };
    let status = match gacha_master_window_status(policy, catalog, canonical, now_ms) {
        Ok(s) => s,
        Err(e) => return Err(e),
    };
    if status == ActivityWindowStatus::Open {
        return Ok(None);
    }
    Ok(Some((canonical, alias)))
}

/// The record a lease adds for a temporary alias: the player's record of
/// the canonical gacha (the first one) under the alias id, else a fresh
/// record with the given first-draw flags, no exchange points and no
/// draws.
pub fn lease_alias_info(
    list: &Vec<GachaInfoRecord>,
    canonical_id: i64,
    alias_id: i64,
    is_account_first: bool,
    is_daily_first: bool,
) -> (r: GachaInfoRecord)
    ensures
        r == match info_index(list@, canonical_id) {
            Some(i) => GachaInfoRecord { gacha_id: Some(alias_id), ..list@[i] },
            None => GachaInfoRecord {
                gacha_id: Some(alias_id),
                exchange_point: 0,
                is_account_first,
                is_daily_first,
                daily_one_count: StoredCount::Count(0),
                daily_ten_count: StoredCount::Count(0),
                crazy_draw_count: StoredCount::Count(0),
            },
        },
{
    match find_info(list, canonical_id) {
        Some(i) => {
            let existing = list[i];
            GachaInfoRecord { gacha_id: Some(alias_id), ..existing }
        },
        None => GachaInfoRecord {
            gacha_id: Some(alias_id),
            exchange_point: 0,
            is_account_first,
            is_daily_first,
            daily_one_count: StoredCount::Count(0),
            daily_ten_count: StoredCount::Count(0),
            crazy_draw_count: StoredCount::Count(0),
        },
    }
}

} // verus!
