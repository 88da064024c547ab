//! Exchange points, the per-gacha record a player keeps, and what an
//! exchange or a draw grants.
use vstd::prelude::*;

use crate::error::ServiceError;
use crate::gacha::{error_response, is_ten_pull_guaranteed_draw, GachaCountIncrement};
use crate::http::{error_body, JsonResponse};
use crate::text::{append_decimal, decimal};

verus! {

/// The points an exchange costs.
pub const EXCHANGE_REQUIRED_POINTS: i64 = 250;

/// A draw counter as stored: absent, an integer, or something else.
#[derive(Clone, Copy, Debug, PartialEq, Eq, Structural)]
pub enum StoredCount {
    Missing,
    Count(i64),
    Invalid,
}

/// The record a player keeps of a gacha: its id where it has an integer
/// one, its exchange points (0 where none are stored), its flags and its
/// draw counters.
#[derive(Clone, Copy, Debug, PartialEq, Eq, Structural)]
pub struct GachaInfoRecord {
    pub gacha_id: Option<i64>,
    pub exchange_point: i64,
    pub is_account_first: bool,
    pub is_daily_first: bool,
    pub daily_one_count: StoredCount,
    pub daily_ten_count: StoredCount,
    pub crazy_draw_count: StoredCount,
}

/// Whether a gacha can be drawn at its first-draw prices.
#[derive(Clone, Copy, Debug, PartialEq, Eq, Structural)]
pub struct GachaAvailability {
    pub is_daily_first: bool,
    pub is_account_first: bool,
}

/// The index of the first record of a gacha.
pub open spec fn info_index(list: Seq<GachaInfoRecord>, gacha_id: i64) -> Option<int>
    decreases list.len(),
{
    if list.len() == 0 {
        None
    } else if list[0].gacha_id == Some(gacha_id) {
        Some(0)
    } else {
        match info_index(list.drop_first(), gacha_id) {
            Some(i) => Some(i + 1),
            None => None,
        }
    }
}

/// `info_index` points at a record of the gacha.
proof fn lemma_info_index(list: Seq<GachaInfoRecord>, gacha_id: i64)
    ensures
        info_index(list, gacha_id) matches Some(i) ==> 0 <= i < list.len() && list[i].gacha_id
            == Some(gacha_id),
    decreases list.len(),
{
    if list.len() > 0 && list[0].gacha_id != Some(gacha_id) {
        lemma_info_index(list.drop_first(), gacha_id);
    }
}

/// The index of the first record of a gacha.
pub fn find_info(list: &Vec<GachaInfoRecord>, gacha_id: i64) -> (r: Option<usize>)
    ensures
        match r {
            Some(i) => info_index(list@, gacha_id) == Some(i as int) && i < list@.len(),
            None => info_index(list@, gacha_id) is None,
        },
{
    let mut i: usize = 0;
    assert(list@.subrange(0, list@.len() as int) =~= list@);
    while i < list.len()
        invariant
            i <= list@.len(),
            info_index(list@, gacha_id) == match info_index(
                list@.subrange(i as int, list@.len() as int),
                gacha_id,
            ) {
                Some(j) => Some(j + i),
                None => None::<int>,
            },
        decreases list@.len() - i,
    {
        let ghost rest = list@.subrange(i as int, list@.len() as int);
        assert(rest.drop_first() =~= list@.subrange(i + 1, list@.len() as int));
        if list[i].gacha_id == Some(gacha_id) {
            return Some(i);
        }
        i = i + 1;
    }
    None
}

/// The exchange points a player has on a gacha, or `None` where the player
/// keeps no record of it.
pub fn gacha_exchange_points(list: &Vec<GachaInfoRecord>, gacha_id: i64) -> (r: Option<i64>)
    ensures
        r == match info_index(list@, gacha_id) {
            Some(i) => Some(list@[i].exchange_point),
            None => None::<i64>,
        },
{
    match find_info(list, gacha_id) {
        Some(i) => Some(list[i].exchange_point),
        None => None,
    }
}

/// A draw counter after a draw adds `delta`: `None` where the stored
/// counter is not an integer or the sum leaves `i64`.
pub open spec fn count_after(stored: StoredCount, delta: i64) -> Option<i64> {
    match stored {
        StoredCount::Missing => Some(delta),
        StoredCount::Count(v) => if i64::MIN <= v + delta <= i64::MAX {
            Some((v + delta) as i64)
        } else {
            None
        },
        StoredCount::Invalid => None,
    }
}

/// The failure of a counter update.
pub open spec fn count_failure(stored: StoredCount) -> Seq<char> {
    match stored {
        StoredCount::Invalid => "stored CN gacha draw count is invalid"@,
        _ => "CN gacha draw count exceeds range"@,
    }
}

/// What adjusting a gacha's record does: the updated list and the record
/// shown, or the failure. An existing record gets the points added, the
/// flags replaced and the draw counters advanced; a gacha without a record
/// gets a new one at the end.
pub open spec fn adjust_outcome(
    list: Seq<GachaInfoRecord>,
    gacha_id: i64,
    point_delta: i64,
    availability: GachaAvailability,
    increment: GachaCountIncrement,
) -> Result<(Seq<GachaInfoRecord>, GachaInfoRecord), Seq<char>> {
    match info_index(list, gacha_id) {
        Some(i) => {
            let old = list[i];
            if !(i64::MIN <= old.exchange_point + point_delta <= i64::MAX) {
                Err("CN gacha exchange points overflow"@)
            } else if count_after(old.daily_one_count, increment.daily_one) is None {
                Err(count_failure(old.daily_one_count))
            } else if count_after(old.daily_ten_count, increment.daily_ten) is None {
                Err(count_failure(old.daily_ten_count))
            } else if count_after(old.crazy_draw_count, increment.crazy_draw) is None {
                Err(count_failure(old.crazy_draw_count))
            } else {
                let new = GachaInfoRecord {
                    gacha_id: old.gacha_id,
                    exchange_point: (old.exchange_point + point_delta) as i64,
                    is_account_first: availability.is_account_first,
                    is_daily_first: availability.is_daily_first,
                    daily_one_count: StoredCount::Count(
                        count_after(old.daily_one_count, increment.daily_one)->0,
                    ),
                    daily_ten_count: StoredCount::Count(
                        count_after(old.daily_ten_count, increment.daily_ten)->0,
                    ),
                    crazy_draw_count: StoredCount::Count(
                        count_after(old.crazy_draw_count, increment.crazy_draw)->0,
                    ),
                };
                Ok((list.update(i, new), new))
            }
        },
        None => {
            let new = GachaInfoRecord {
                gacha_id: Some(gacha_id),
                exchange_point: point_delta,
                is_account_first: availability.is_account_first,
                is_daily_first: availability.is_daily_first,
                daily_one_count: StoredCount::Count(increment.daily_one),
                daily_ten_count: StoredCount::Count(increment.daily_ten),
                crazy_draw_count: StoredCount::Count(increment.crazy_draw),
            };
            Ok((list.push(new), new))
        },
    }
}

/// A draw counter after a draw adds `delta`.
fn advance_count(stored: StoredCount, delta: i64) -> (r: Result<i64, ServiceError>)
    ensures
        match count_after(stored, delta) {
            Some(v) => r matches Ok(n) && n == v,
            None => r matches Err(e) && e.message@ == count_failure(stored),
        },
{
    match stored {
        StoredCount::Missing => Ok(delta),
        StoredCount::Count(v) => match v.checked_add(delta) {
            Some(n) => Ok(n),
            None => Err(ServiceError::new("CN gacha draw count exceeds range")),
        },
        StoredCount::Invalid => Err(ServiceError::new("stored CN gacha draw count is invalid")),
    }
}

/// Adjusts the player's record of a gacha after a draw or an exchange and
/// returns the record the answer shows; on failure the list is left as it
/// was.
pub fn adjust_gacha_info(
    list: &mut Vec<GachaInfoRecord>,
    gacha_id: i64,
    point_delta: i64,
    availability: GachaAvailability,
    increment: GachaCountIncrement,
) -> (r: Result<GachaInfoRecord, ServiceError>)
    ensures
        match adjust_outcome(old(list)@, gacha_id, point_delta, availability, increment) {
            Ok((new_list, shown)) => final(list)@ == new_list && (r matches Ok(s) && s == shown),
            Err(message) => final(list)@ == old(list)@ && (r matches Err(e) && e.message@ == message),
        },
{
    proof {
        lemma_info_index(list@, gacha_id);
    }
    match find_info(list, gacha_id) {
        Some(i) => {
            let old_record = list[i];
            let points = match old_record.exchange_point.checked_add(point_delta) {
                Some(p) => p,
                None => return Err(ServiceError::new("CN gacha exchange points overflow")),
            };
            let one = match advance_count(old_record.daily_one_count, increment.daily_one) {
                Ok(n) => n,
                Err(e) => return Err(e),
            };
            let ten = match advance_count(old_record.daily_ten_count, increment.daily_ten) {
                Ok(n) => n,
                Err(e) => return Err(e),
            };
            let crazy = match advance_count(old_record.crazy_draw_count, increment.crazy_draw) {
                Ok(n) => n,
                Err(e) => return Err(e),
            };
            let record = GachaInfoRecord {
                gacha_id: old_record.gacha_id,
                exchange_point: points,
                is_account_first: availability.is_account_first,
                is_daily_first: availability.is_daily_first,
                daily_one_count: StoredCount::Count(one),
                daily_ten_count: StoredCount::Count(ten),
                crazy_draw_count: StoredCount::Count(crazy),
            };
            list.set(i, record);
            Ok(record)
        },
        None => {
            let record = GachaInfoRecord {
                gacha_id: Some(gacha_id),
                exchange_point: point_delta,
                is_account_first: availability.is_account_first,
                is_daily_first: availability.is_daily_first,
                daily_one_count: StoredCount::Count(increment.daily_one),
                daily_ten_count: StoredCount::Count(increment.daily_ten),
                crazy_draw_count: StoredCount::Count(increment.crazy_draw),
            };
            list.push(record);
            Ok(record)
        },
    }
}

/// Whether an exchange request names a viewer, a positive item and a call
/// count.
pub fn exchange_request_valid(viewer_id: i64, item_id: i64, api_count: i64) -> (r: bool)
    ensures
        r == (viewer_id > 0 && item_id > 0 && api_count >= 0),
{
    viewer_id > 0 && item_id > 0 && api_count >= 0
}

/// Whether the player's points allow an exchange: refused with
/// `no_gacha_info` where the player keeps no record of the gacha and with
/// `not_enough_exchange_points` below the cost.
pub fn check_exchange_points(points: Option<i64>) -> (r: Result<(), JsonResponse>)
    ensures
        match points {
            None => r matches Err(e) && e.status@ == "400 Bad Request"@ && e.body@ == error_body(
                "no_gacha_info"@,
            ),
            Some(p) => if p < EXCHANGE_REQUIRED_POINTS {
                r matches Err(e) && e.status@ == "400 Bad Request"@ && e.body@ == error_body(
                    "not_enough_exchange_points"@,
                )
            } else {
                r is Ok
            },
        },
{
    match points {
        None => Err(error_response("400 Bad Request", "no_gacha_info")),
        Some(p) => if p < EXCHANGE_REQUIRED_POINTS {
            Err(error_response("400 Bad Request", "not_enough_exchange_points"))
        } else {
            Ok(())
        },
    }
}

/// What an exchange takes.
#[derive(Clone, Copy, Debug, PartialEq, Eq, Structural)]
pub enum ExchangeKind {
    Character,
    Equipment,
}

/// The key an exchange is recorded under in the receive history.
pub open spec fn spec_exchange_history_key(
    kind: ExchangeKind,
    canonical_gacha_id: i64,
    item_id: i64,
    api_count: i64,
    viewer_id: i64,
) -> Seq<char> {
    (match kind {
        ExchangeKind::Character => "gacha:exchange-character:"@,
        ExchangeKind::Equipment => "gacha:exchange-equipment:"@,
    }) + decimal(canonical_gacha_id as int) + ":"@ + decimal(item_id as int) + ":"@ + decimal(
        api_count as int,
    ) + ":"@ + decimal(viewer_id as int)
}

/// The key an exchange is recorded under in the receive history.
pub fn exchange_history_key(
    kind: ExchangeKind,
    canonical_gacha_id: i64,
    item_id: i64,
    api_count: i64,
    viewer_id: i64,
) -> (r: String)
    ensures
        r@ == spec_exchange_history_key(kind, canonical_gacha_id, item_id, api_count, viewer_id),
{
    let mut key = match kind {
        ExchangeKind::Character => String::from_str("gacha:exchange-character:"),
        ExchangeKind::Equipment => String::from_str("gacha:exchange-equipment:"),
    };
    append_decimal(&mut key, canonical_gacha_id);
    key.append(":");
    append_decimal(&mut key, item_id);
    key.append(":");
    append_decimal(&mut key, api_count);
    key.append(":");
    append_decimal(&mut key, viewer_id);
    proof {
        reveal_strlit(":");
    }
    assert(key@ =~= spec_exchange_history_key(kind, canonical_gacha_id, item_id, api_count, viewer_id));
    key
}

/// The encyclopedia entry of a character: `1`, its id, `01`.
pub open spec fn spec_encyclopedia_key(character_id: i64) -> Seq<char> {
    "1"@ + decimal(character_id as int) + "01"@
}

/// The encyclopedia entry of a character.
pub fn encyclopedia_key(character_id: i64) -> (r: String)
    ensures
        r@ == spec_encyclopedia_key(character_id),
{
    let mut key = String::from_str("1");
    append_decimal(&mut key, character_id);
    key.append("01");
    assert(key@ =~= spec_encyclopedia_key(character_id));
    key
}

/// Whether a character is in some rank pool of a gacha (the ids of each
/// pool's items, `None` where an item has no integer id).
pub fn is_character_in_gacha(pools: &Vec<Vec<Option<i64>>>, character_id: i64) -> (r: bool)
    ensures
        r == exists|p: int, k: int|
            0 <= p < pools@.len() && 0 <= k < pools@[p]@.len() && #[trigger] pools@[p]@[k]
                == Some(character_id),
{
    let mut p: usize = 0;
    while p < pools.len()
        invariant
            p <= pools@.len(),
            forall|q: int, k: int|
                0 <= q < p && 0 <= k < pools@[q]@.len() ==> #[trigger] pools@[q]@[k] != Some(
                    character_id,
                ),
        decreases pools@.len() - p,
    {
        let pool = &pools[p];
        let mut k: usize = 0;
        while k < pool.len()
            invariant
                k <= pool@.len(),
                p < pools@.len(),
                *pool == pools@[p as int],
                forall|q: int, j: int|
                    0 <= q < p && 0 <= j < pools@[q]@.len() ==> #[trigger] pools@[q]@[j] != Some(
                        character_id,
                    ),
                forall|j: int| 0 <= j < k ==> pool@[j] != Some(character_id),
            decreases pool@.len() - k,
        {
            if pool[k] == Some(character_id) {
                assert(pools@[p as int]@[k as int] == Some(character_id));
                return true;
            }
            k = k + 1;
        }
        p = p + 1;
    }
    false
}

/// A piece of equipment as stored: its duplicates (`stack`), protection,
/// level and enhancement.
#[derive(Clone, Copy, Debug, PartialEq, Eq, Structural)]
pub struct EquipmentRecord {
    pub stack: i64,
    pub protection: bool,
    pub level: i64,
    pub enhancement_level: i64,
}

/// A piece of equipment a player gets for the first time.
pub open spec fn new_equipment() -> EquipmentRecord {
    EquipmentRecord { stack: 0, protection: false, level: 1, enhancement_level: 0 }
}

/// A piece of equipment after a draw or exchange grants one more: an owned
/// piece gains a duplicate, a new piece starts without any. Fails where the
/// duplicates would leave `i64`.
pub fn granted_equipment(existing: Option<EquipmentRecord>) -> (r: Result<EquipmentRecord, ServiceError>)
    ensures
        match existing {
            None => r matches Ok(e) && e == new_equipment(),
            Some(e) => if e.stack < i64::MAX {
                r matches Ok(n) && n == (EquipmentRecord { stack: (e.stack + 1) as i64, ..e })
            } else {
                r matches Err(err) && err.message@ == "CN equipment stack exceeds range"@
            },
        },
{
    match existing {
        None => Ok(EquipmentRecord { stack: 0, protection: false, level: 1, enhancement_level: 0 }),
        Some(e) => match e.stack.checked_add(1) {
            Some(stack) => Ok(EquipmentRecord { stack, ..e }),
            None => Err(ServiceError::new("CN equipment stack exceeds range")),
        },
    }
}

/// Whether a draw uses the guaranteed rank rates: a guaranteed-rank draw,
/// or every tenth draw of a multi draw.
pub fn draws_guaranteed_rank(draw_index: i64, guarantee_rank_four_or_higher: bool) -> (r: bool)
    ensures
        r == (guarantee_rank_four_or_higher || (draw_index >= 0 && draw_index % 10 == 9)),
{
    guarantee_rank_four_or_higher || is_ten_pull_guaranteed_draw(draw_index)
}

/// The rank rates a draw uses: `multiGuarantee` for a guaranteed draw,
/// else `normal`.
pub fn rank_rate_name(guaranteed: bool) -> (r: &'static str)
    ensures
        r@ == if guaranteed {
            "multiGuarantee"@
        } else {
            "normal"@
        },
{
    proof {
        reveal_strlit("multiGuarantee");
        reveal_strlit("normal");
    }
    if guaranteed {
        "multiGuarantee"
    } else {
        "normal"
    }
}

/// Whether a gacha's rank rates have a usable length: one or two ranks for
/// a guaranteed draw, three otherwise.
pub fn rank_rates_valid(guaranteed: bool, count: usize) -> (r: bool)
    ensures
        r == if guaranteed {
            count == 1 || count == 2
        } else {
            count == 3
        },
{
    if guaranteed {
        count == 1 || count == 2
    } else {
        count == 3
    }
}

/// The rank a draw gives from the index the weighted roll picked among
/// the rank rates: ranks count from 1.
pub fn drawn_rank(rate_index: usize) -> (r: usize)
    requires
        rate_index < usize::MAX,
    ensures
        r == rate_index + 1,
{
    rate_index + 1
}


/// An exchange that the point check lets through leaves the player at
/// least zero points: the record shown after taking the cost holds the
/// points less the cost, and those are not negative.
pub proof fn lemma_exchange_leaves_points_non_negative(
    list: Seq<GachaInfoRecord>,
    gacha_id: i64,
    availability: GachaAvailability,
)
    requires
        info_index(list, gacha_id) matches Some(i) && list[i].exchange_point
            >= EXCHANGE_REQUIRED_POINTS,
    ensures
        adjust_outcome(
            list,
            gacha_id,
            (0 - EXCHANGE_REQUIRED_POINTS) as i64,
            availability,
            GachaCountIncrement { daily_one: 0, daily_ten: 0, crazy_draw: 0 },
        ) matches Ok((_, shown)) ==> shown.exchange_point == list[info_index(list, gacha_id)->0].exchange_point
            - EXCHANGE_REQUIRED_POINTS && shown.exchange_point >= 0,
{
    lemma_info_index(list, gacha_id);
}

} // verus!
