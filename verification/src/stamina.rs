//! Using stamina items: which items of a request count, how much stamina
//! the player has regained since the last heal, and what a use recovers
//! and spends.
use vstd::prelude::*;

use crate::error::ServiceError;

verus! {

/// Seconds that one point of stamina takes to recover.
pub const STAMINA_RECOVERY_SECONDS: i64 = 300;

/// The most stamina a player can hold through recovery and items.
pub const MAX_STAMINA_OVERFLOW: i64 = 999;

/// The effect of an item: its kind (2 recovers a fixed amount of stamina,
/// 3 a percentage of the maximum) and its value.
#[derive(Clone, Copy, Debug, PartialEq, Eq, Structural)]
pub struct ItemEffect {
    pub item_id: i64,
    pub kind: i64,
    pub value: i64,
}

/// The effect listed for an item: the first entry with its id.
pub open spec fn effect_of(effects: Seq<ItemEffect>, item_id: i64) -> Option<ItemEffect>
    decreases effects.len(),
{
    if effects.len() == 0 {
        None
    } else if effects[0].item_id == item_id {
        Some(effects[0])
    } else {
        effect_of(effects.drop_first(), item_id)
    }
}

/// Whether an item recovers stamina.
pub open spec fn recovers_stamina(effects: Seq<ItemEffect>, item_id: i64) -> bool {
    effect_of(effects, item_id) matches Some(e) && (e.kind == 2 || e.kind == 3)
}

/// Whether a requested `(item id, number)` counts toward a use: a positive
/// id and number of an item that recovers stamina. Others are ignored.
pub open spec fn counts_toward_use(effects: Seq<ItemEffect>, item: (i64, i64)) -> bool {
    item.0 > 0 && item.1 > 0 && recovers_stamina(effects, item.0)
}

/// How many of the item `item_id` a request asks for in all.
pub open spec fn requested_total(items: Seq<(i64, i64)>, effects: Seq<ItemEffect>, item_id: i64) -> int
    decreases items.len(),
{
    if items.len() == 0 {
        0
    } else {
        let last = items.last();
        requested_total(items.drop_last(), effects, item_id) + if counts_toward_use(effects, last)
            && last.0 == item_id {
            last.1 as int
        } else {
            0
        }
    }
}

/// A total over a prefix of a request is no more than the whole.
pub proof fn lemma_requested_total_grows(items: Seq<(i64, i64)>, effects: Seq<ItemEffect>, item_id: i64, k: int)
    requires
        0 <= k <= items.len(),
    ensures
        0 <= requested_total(items.take(k), effects, item_id) <= requested_total(items, effects, item_id),
    decreases items.len() - k,
{
    if k == items.len() {
        assert(items.take(k) =~= items);
        lemma_requested_total_non_negative(items, effects, item_id);
    } else {
        lemma_requested_total_grows(items, effects, item_id, k + 1);
        assert(items.take(k + 1).drop_last() =~= items.take(k));
        lemma_requested_total_non_negative(items.take(k), effects, item_id);
    }
}

proof fn lemma_requested_total_non_negative(items: Seq<(i64, i64)>, effects: Seq<ItemEffect>, item_id: i64)
    ensures
        requested_total(items, effects, item_id) >= 0,
    decreases items.len(),
{
    if items.len() > 0 {
        lemma_requested_total_non_negative(items.drop_last(), effects, item_id);
    }
}

/// A positive total comes from some counted item with that id.
proof fn lemma_positive_total_has_item(items: Seq<(i64, i64)>, effects: Seq<ItemEffect>, item_id: i64)
    requires
        requested_total(items, effects, item_id) > 0,
    ensures
        exists|m: int| 0 <= m < items.len() && #[trigger] counts_toward_use(effects, items[m]) && items[m].0 == item_id,
    decreases items.len(),
{
    let last = items.last();
    if counts_toward_use(effects, last) && last.0 == item_id {
        assert(counts_toward_use(effects, items[items.len() - 1]));
    } else {
        lemma_positive_total_has_item(items.drop_last(), effects, item_id);
        let m = choose|m: int| 0 <= m < items.drop_last().len() && #[trigger] counts_toward_use(effects, items.drop_last()[m])
            && items.drop_last()[m].0 == item_id;
        assert(items[m] == items.drop_last()[m]);
    }
}

/// What a use request comes to before the player's state is read.
pub enum RequestedItems {
    /// The request lists no items at all.
    NoItems,
    /// No listed item counts toward a use.
    NoRecoveryItems,
    /// The total of each counted item, by ascending item id.
    Items(Vec<(i64, i64)>),
}

/// Whether the ids of a list of `(item id, count)` strictly ascend.
pub open spec fn ids_ascend(list: Seq<(i64, i64)>) -> bool {
    forall|i: int, j: int| 0 <= i < j < list.len() ==> #[trigger] list[i].0 < #[trigger] list[j].0
}

/// Whether an item id is listed.
pub open spec fn lists_id(list: Seq<(i64, i64)>, item_id: i64) -> bool {
    exists|j: int| 0 <= j < list.len() && #[trigger] list[j].0 == item_id
}

fn effect_lookup(effects: &Vec<ItemEffect>, item_id: i64) -> (r: Option<ItemEffect>)
    ensures
        r == effect_of(effects@, item_id),
{
    let mut i: usize = 0;
    assert(effects@.subrange(0, effects@.len() as int) =~= effects@);
    while i < effects.len()
        invariant
            i <= effects@.len(),
            effect_of(effects@, item_id) == effect_of(effects@.subrange(i as int, effects@.len() as int), item_id),
        decreases effects@.len() - i,
    {
        let ghost rest = effects@.subrange(i as int, effects@.len() as int);
        assert(rest.drop_first() =~= effects@.subrange(i + 1, effects@.len() as int));
        if effects[i].item_id == item_id {
            return Some(effects[i]);
        }
        i = i + 1;
    }
    None
}

/// The totals of a use request `items` of `(item id, number)`: the items
/// that count toward a use are summed by id, ascending. The request fails
/// where a total does not fit in `i64`.
pub fn requested_stamina_items(items: &Vec<(i64, i64)>, effects: &Vec<ItemEffect>) -> (r: Result<RequestedItems, ServiceError>)
    ensures
        (r matches Ok(RequestedItems::NoItems)) <==> items@.len() == 0,
        (r matches Ok(RequestedItems::NoRecoveryItems)) <==> (items@.len() > 0
            && forall|m: int| 0 <= m < items@.len() ==> !#[trigger] counts_toward_use(effects@, items@[m])),
        r is Err <==> (items@.len() > 0
            && exists|id: i64| #[trigger] requested_total(items@, effects@, id) > i64::MAX),
        r matches Ok(RequestedItems::Items(list)) ==> {
            &&& list@.len() > 0
            &&& ids_ascend(list@)
            &&& forall|j: int| 0 <= j < list@.len() ==> #[trigger] list@[j].1
                == requested_total(items@, effects@, list@[j].0) && list@[j].1 > 0
            &&& forall|m: int| 0 <= m < items@.len() && #[trigger] counts_toward_use(effects@, items@[m])
                ==> lists_id(list@, items@[m].0)
        },
{
    if items.len() == 0 {
        return Ok(RequestedItems::NoItems);
    }
    let mut list: Vec<(i64, i64)> = Vec::new();
    let mut k: usize = 0;
    while k < items.len()
        invariant
            k <= items@.len(),
            ids_ascend(list@),
            forall|j: int| 0 <= j < list@.len() ==> #[trigger] list@[j].1
                == requested_total(items@.take(k as int), effects@, list@[j].0) && list@[j].1 > 0,
            forall|id: i64| #[trigger] requested_total(items@.take(k as int), effects@, id) > 0 ==> lists_id(list@, id),
            forall|m: int| 0 <= m < k && #[trigger] counts_toward_use(effects@, items@[m])
                ==> lists_id(list@, items@[m].0),
        decreases items@.len() - k,
    {
        let (item_id, number) = items[k];
        let ghost before = items@.take(k as int);
        let ghost after = items@.take(k + 1);
        assert(after.drop_last() =~= before);
        assert(after.last() == items@[k as int]);
        let counted = if item_id > 0 && number > 0 {
            match effect_lookup(effects, item_id) {
                Some(e) => e.kind == 2 || e.kind == 3,
                None => false,
            }
        } else {
            false
        };
        assert(counted == counts_toward_use(effects@, items@[k as int]));
        if counted {
            // The first entry whose id is not below the item's.
            let mut pos: usize = 0;
            while pos < list.len() && list[pos].0 < item_id
                invariant
                    pos <= list@.len(),
                    forall|j: int| 0 <= j < pos ==> #[trigger] list@[j].0 < item_id,
                decreases list@.len() - pos,
            {
                pos = pos + 1;
            }
            if pos < list.len() && list[pos].0 == item_id {
                let old_total = list[pos].1;
                let total = match old_total.checked_add(number) {
                    Some(t) => t,
                    None => {
                        proof {
                            assert(requested_total(after, effects@, item_id) > i64::MAX);
                            lemma_requested_total_grows(items@, effects@, item_id, k + 1);
                        }
                        return Err(ServiceError::new("item count exceeds the supported range"));
                    },
                };
                let ghost old_list = list@;
                list.set(pos, (item_id, total));
                proof {
                    assert forall|j: int| 0 <= j < list@.len() implies #[trigger] list@[j].1
                        == requested_total(after, effects@, list@[j].0) && list@[j].1 > 0 by {
                        if j != pos {
                            assert(old_list[j].0 != item_id);
                        }
                    }
                    assert forall|id: i64| #[trigger] requested_total(after, effects@, id) > 0 implies lists_id(list@, id) by {
                        if id == item_id {
                            assert(list@[pos as int].0 == id);
                        } else {
                            assert(requested_total(before, effects@, id) > 0);
                            let j = choose|j: int| 0 <= j < old_list.len() && #[trigger] old_list[j].0 == id;
                            assert(list@[j].0 == id);
                        }
                    }
                    assert forall|m: int| 0 <= m < k + 1 && #[trigger] counts_toward_use(effects@, items@[m])
                        implies lists_id(list@, items@[m].0) by {
                        if m < k {
                            let j = choose|j: int| 0 <= j < old_list.len() && #[trigger] old_list[j].0 == items@[m].0;
                            assert(list@[j].0 == items@[m].0);
                        } else {
                            assert(list@[pos as int].0 == items@[m].0);
                        }
                    }
                }
            } else {
                proof {
                    assert forall|j: int| 0 <= j < list@.len() implies #[trigger] list@[j].0 != item_id by {
                        if j >= pos {
                            if pos < list@.len() && j > pos {
                                assert(list@[pos as int].0 < list@[j].0);
                            }
                        }
                    }
                    if requested_total(before, effects@, item_id) > 0 {
                        let j = choose|j: int| 0 <= j < list@.len() && #[trigger] list@[j].0 == item_id;
                        assert(false);
                    }
                    lemma_requested_total_non_negative(before, effects@, item_id);
                }
                let ghost old_list = list@;
                list.insert(pos, (item_id, number));
                proof {
                    assert(list@ =~= old_list.insert(pos as int, (item_id, number)));
                    assert forall|i: int, j: int| 0 <= i < j < list@.len() implies #[trigger] list@[i].0
                        < #[trigger] list@[j].0 by {
                        if j < pos {
                        } else if j == pos {
                            assert(list@[i].0 == old_list[i].0);
                        } else if i < pos {
                            assert(old_list[i].0 < item_id);
                            if pos < old_list.len() {
                                assert(old_list[pos as int].0 >= item_id);
                                if j - 1 > pos {
                                    assert(old_list[pos as int].0 < old_list[j - 1].0);
                                }
                            }
                        } else if i == pos {
                            assert(old_list[pos as int].0 >= item_id);
                            if j - 1 > pos {
                                assert(old_list[pos as int].0 < old_list[j - 1].0);
                            }
                        } else {
                            assert(old_list[i - 1].0 < old_list[j - 1].0);
                        }
                    }
                    assert forall|j: int| 0 <= j < list@.len() implies #[trigger] list@[j].1
                        == requested_total(after, effects@, list@[j].0) && list@[j].1 > 0 by {
                        if j < pos {
                            assert(list@[j] == old_list[j]);
                        } else if j > pos {
                            assert(list@[j] == old_list[j - 1]);
                        }
                    }
                    assert forall|id: i64| #[trigger] requested_total(after, effects@, id) > 0 implies lists_id(list@, id) by {
                        if id == item_id {
                            assert(list@[pos as int].0 == id);
                        } else {
                            assert(requested_total(before, effects@, id) > 0);
                            let j = choose|j: int| 0 <= j < old_list.len() && #[trigger] old_list[j].0 == id;
                            if j < pos {
                                assert(list@[j].0 == id);
                            } else {
                                assert(list@[j + 1].0 == id);
                            }
                        }
                    }
                    assert forall|m: int| 0 <= m < k + 1 && #[trigger] counts_toward_use(effects@, items@[m])
                        implies lists_id(list@, items@[m].0) by {
                        if m < k {
                            let j = choose|j: int| 0 <= j < old_list.len() && #[trigger] old_list[j].0 == items@[m].0;
                            if j < pos {
                                assert(list@[j].0 == items@[m].0);
                            } else {
                                assert(list@[j + 1].0 == items@[m].0);
                            }
                        } else {
                            assert(list@[pos as int].0 == items@[m].0);
                        }
                    }
                }
            }
        } else {
            proof {
                assert forall|id: i64| requested_total(after, effects@, id) == requested_total(before, effects@, id) by {}
                assert forall|m: int| 0 <= m < k + 1 && #[trigger] counts_toward_use(effects@, items@[m])
                    implies lists_id(list@, items@[m].0) by {}
            }
        }
        k = k + 1;
    }
    proof {
        assert(items@.take(items@.len() as int) =~= items@);
    }
    if list.len() == 0 {
        proof {
            assert forall|m: int| 0 <= m < items@.len() implies !#[trigger] counts_toward_use(effects@, items@[m]) by {
                if counts_toward_use(effects@, items@[m]) {
                    let j = choose|j: int| 0 <= j < list@.len() && #[trigger] list@[j].0 == items@[m].0;
                }
            }
        }
        return Ok(RequestedItems::NoRecoveryItems);
    }
    proof {
        assert forall|id: i64| #[trigger] requested_total(items@, effects@, id) <= i64::MAX by {
            if requested_total(items@, effects@, id) > 0 {
                let j = choose|j: int| 0 <= j < list@.len() && #[trigger] list@[j].0 == id;
                assert(list@[j].1 == requested_total(items@, effects@, id));
            }
        }
        assert(list@[0].1 > 0);
        lemma_positive_total_has_item(items@, effects@, list@[0].0);
    }
    Ok(RequestedItems::Items(list))
}

/// An integer clamped to the range of `i64`, as saturating arithmetic
/// gives it.
pub open spec fn clamp_i64(x: int) -> int {
    if x > i64::MAX {
        i64::MAX as int
    } else if x < i64::MIN {
        i64::MIN as int
    } else {
        x
    }
}

/// Division that rounds toward zero, as `/` on integers does.
pub open spec fn div_toward_zero(a: int, b: int) -> int {
    if a >= 0 {
        a / b
    } else {
        -((-a) / b)
    }
}

/// The smaller of two integers.
pub open spec fn min_int(a: int, b: int) -> int {
    if a < b { a } else { b }
}

/// The stamina a player has at `now`: the stored stamina plus one point
/// for every full recovery period since the last heal, at most the maximum.
pub open spec fn spec_current_stamina(stamina: i64, heal_time: i64, now: i64) -> int {
    let recovered = div_toward_zero(clamp_i64(now - heal_time), STAMINA_RECOVERY_SECONDS as int);
    min_int(clamp_i64(stamina + recovered), MAX_STAMINA_OVERFLOW as int)
}

/// How many of an item the player owns: the first entry with its id, else
/// none.
pub open spec fn owned_count(owned: Seq<(i64, i64)>, item_id: i64) -> i64
    decreases owned.len(),
{
    if owned.len() == 0 {
        0
    } else if owned[0].0 == item_id {
        owned[0].1
    } else {
        owned_count(owned.drop_first(), item_id)
    }
}

/// The stamina one item recovers: the value of a fixed item, or the value
/// as a percentage of the maximum (negative percentages count as none).
pub open spec fn per_item_recovery(effect: ItemEffect) -> int {
    if effect.kind == 2 {
        effect.value as int
    } else {
        let percent: int = if effect.value < 0 { 0 } else { effect.value as int };
        clamp_i64(MAX_STAMINA_OVERFLOW * percent) / 100
    }
}

/// Where a walk over the requested items, in order, ends.
pub enum RecoveryWalk {
    /// An item has no effect listed.
    MissingEffect,
    /// The player owns fewer of an item than requested.
    Short,
    /// The running recovery leaves the range of `i64`.
    Overflow,
    /// Every item is owned; the total recovery.
    Done(int),
}

/// The walk over the requested `(item id, count)` in order, with the
/// recovery so far `acc`: each item must have an effect and be owned in
/// its count, and adds its recovery times its count (saturated) to the
/// running total, which must stay within `i64`.
pub open spec fn recovery_walk(
    requested: Seq<(i64, i64)>,
    effects: Seq<ItemEffect>,
    owned: Seq<(i64, i64)>,
    acc: int,
) -> RecoveryWalk
    decreases requested.len(),
{
    if requested.len() == 0 {
        RecoveryWalk::Done(acc)
    } else {
        let (item_id, count) = requested[0];
        match effect_of(effects, item_id) {
            None => RecoveryWalk::MissingEffect,
            Some(e) => if owned_count(owned, item_id) < count {
                RecoveryWalk::Short
            } else {
                let next = acc + clamp_i64(per_item_recovery(e) * count);
                if next > i64::MAX || next < i64::MIN {
                    RecoveryWalk::Overflow
                } else {
                    recovery_walk(requested.drop_first(), effects, owned, next)
                }
            },
        }
    }
}

/// What a use of stamina items comes to.
pub enum StaminaUse {
    /// The player's stamina is already at the maximum.
    AlreadyFull,
    /// The player owns fewer of an item than requested.
    InsufficientItems,
    /// The items together recover nothing.
    NoRecovery,
    /// The items are used: the new stamina, the new heal time, and the new
    /// count of each used item.
    Used { stamina: i64, heal_time: i64, item_counts: Vec<(i64, i64)> },
}

fn clamp_to_i64(x: i128) -> (r: i64)
    ensures
        r == clamp_i64(x as int),
{
    if x > i64::MAX as i128 {
        i64::MAX
    } else if x < i64::MIN as i128 {
        i64::MIN
    } else {
        x as i64
    }
}

/// The stamina of the player at `now`; see `spec_current_stamina`.
pub fn current_stamina(stamina: i64, heal_time: i64, now: i64) -> (r: i64)
    ensures
        r == spec_current_stamina(stamina, heal_time, now),
{
    let elapsed: i128 = clamp_to_i64(now as i128 - heal_time as i128) as i128;
    let recovered: i128 = if elapsed >= 0 {
        elapsed / 300
    } else {
        -((-elapsed) / 300)
    };
    let total = clamp_to_i64(stamina as i128 + recovered);
    if total < MAX_STAMINA_OVERFLOW { total } else { MAX_STAMINA_OVERFLOW }
}

fn owned_lookup(owned: &Vec<(i64, i64)>, item_id: i64) -> (r: i64)
    ensures
        r == owned_count(owned@, item_id),
{
    let mut i: usize = 0;
    assert(owned@.subrange(0, owned@.len() as int) =~= owned@);
    while i < owned.len()
        invariant
            i <= owned@.len(),
            owned_count(owned@, item_id) == owned_count(owned@.subrange(i as int, owned@.len() as int), item_id),
        decreases owned@.len() - i,
    {
        let ghost rest = owned@.subrange(i as int, owned@.len() as int);
        assert(rest.drop_first() =~= owned@.subrange(i + 1, owned@.len() as int));
        if owned[i].0 == item_id {
            return owned[i].1;
        }
        i = i + 1;
    }
    0
}

fn recovery_of(effect: ItemEffect) -> (r: i64)
    ensures
        r == per_item_recovery(effect),
{
    if effect.kind == 2 {
        effect.value
    } else {
        let percent: i128 = if effect.value < 0 { 0 } else { effect.value as i128 };
        let scaled = clamp_to_i64(MAX_STAMINA_OVERFLOW as i128 * percent);
        scaled / 100
    }
}

/// Uses the requested stamina items (as `requested_stamina_items` gives
/// them) at `now`, for a player with `stamina` last healed at `heal_time`
/// who owns `owned`. A player at the maximum is refused first; then the
/// items are walked in order, and the use fails where an item has no
/// effect or the running recovery leaves `i64`. Used items make the
/// stamina at most the maximum and restart its recovery at `now`.
pub fn use_stamina_items(
    requested: &Vec<(i64, i64)>,
    effects: &Vec<ItemEffect>,
    owned: &Vec<(i64, i64)>,
    stamina: i64,
    heal_time: i64,
    now: i64,
) -> (r: Result<StaminaUse, ServiceError>)
    requires
        forall|i: int| 0 <= i < requested@.len() ==> #[trigger] requested@[i].1 > 0,
    ensures
        ({
            let current = spec_current_stamina(stamina, heal_time, now);
            &&& current >= MAX_STAMINA_OVERFLOW ==> (r matches Ok(StaminaUse::AlreadyFull))
            &&& current < MAX_STAMINA_OVERFLOW ==> match recovery_walk(requested@, effects@, owned@, 0) {
                RecoveryWalk::MissingEffect => r is Err,
                RecoveryWalk::Overflow => r is Err,
                RecoveryWalk::Short => r matches Ok(StaminaUse::InsufficientItems),
                RecoveryWalk::Done(total) => if total <= 0 {
                    r matches Ok(StaminaUse::NoRecovery)
                } else {
                    r matches Ok(StaminaUse::Used { stamina: s, heal_time: h, item_counts }) && {
                        &&& s == min_int(clamp_i64(current + total), MAX_STAMINA_OVERFLOW as int)
                        &&& h == now
                        &&& item_counts@.len() == requested@.len()
                        &&& forall|i: int| 0 <= i < requested@.len() ==> #[trigger] item_counts@[i]
                            == (requested@[i].0, (owned_count(owned@, requested@[i].0) - requested@[i].1) as i64)
                    }
                },
            }
        }),
        r matches Ok(StaminaUse::Used { stamina: s, item_counts, .. }) ==> {
            &&& spec_current_stamina(stamina, heal_time, now) < s <= MAX_STAMINA_OVERFLOW
            &&& forall|i: int| 0 <= i < item_counts@.len() ==> #[trigger] item_counts@[i].1 >= 0
        },
{
    let current = current_stamina(stamina, heal_time, now);
    if current >= MAX_STAMINA_OVERFLOW {
        return Ok(StaminaUse::AlreadyFull);
    }
    let mut recovery: i64 = 0;
    let mut item_counts: Vec<(i64, i64)> = Vec::new();
    let mut i: usize = 0;
    assert(requested@.subrange(0, requested@.len() as int) =~= requested@);
    while i < requested.len()
        invariant
            i <= requested@.len(),
            current == spec_current_stamina(stamina, heal_time, now),
            current < MAX_STAMINA_OVERFLOW,
            forall|j: int| 0 <= j < requested@.len() ==> #[trigger] requested@[j].1 > 0,
            recovery_walk(requested@, effects@, owned@, 0) == recovery_walk(
                requested@.subrange(i as int, requested@.len() as int),
                effects@,
                owned@,
                recovery as int,
            ),
            item_counts@.len() == i,
            forall|j: int| 0 <= j < i ==> #[trigger] item_counts@[j].1 >= 0,
            forall|j: int| 0 <= j < i ==> #[trigger] item_counts@[j]
                == (requested@[j].0, (owned_count(owned@, requested@[j].0) - requested@[j].1) as i64),
        decreases requested@.len() - i,
    {
        let ghost rest = requested@.subrange(i as int, requested@.len() as int);
        assert(rest.drop_first() =~= requested@.subrange(i + 1, requested@.len() as int));
        assert(rest[0] == requested@[i as int]);
        let (item_id, count) = requested[i];
        let effect = match effect_lookup(effects, item_id) {
            Some(e) => e,
            None => return Err(ServiceError::new("item effect disappeared")),
        };
        let have = owned_lookup(owned, item_id);
        if have < count {
            return Ok(StaminaUse::InsufficientItems);
        }
        let per: i64 = recovery_of(effect);
        proof {
            let a = per as int;
            let b = count as int;
            assert(-0x4000_0000_0000_0000_0000_0000_0000_0000 <= a * b <= 0x4000_0000_0000_0000_0000_0000_0000_0000) by (nonlinear_arith)
                requires
                    -0x8000_0000_0000_0000 <= a <= 0x7fff_ffff_ffff_ffff,
                    0 < b <= 0x7fff_ffff_ffff_ffff,
            {
                if a >= 0 {
                    assert(a * b <= 0x7fff_ffff_ffff_ffff * b);
                } else {
                    assert(a * b >= -0x8000_0000_0000_0000 * b);
                }
            }
        }
        let term = clamp_to_i64(per as i128 * count as i128);
        let next: i128 = recovery as i128 + term as i128;
        if next > i64::MAX as i128 || next < i64::MIN as i128 {
            return Err(ServiceError::new("stamina recovery exceeds the supported range"));
        }
        recovery = next as i64;
        item_counts.push((item_id, have - count));
        i = i + 1;
    }
    if recovery <= 0 {
        return Ok(StaminaUse::NoRecovery);
    }
    let raised = clamp_to_i64(current as i128 + recovery as i128);
    let next_stamina = if raised < MAX_STAMINA_OVERFLOW { raised } else { MAX_STAMINA_OVERFLOW };
    Ok(StaminaUse::Used { stamina: next_stamina, heal_time: now, item_counts })
}

} // verus!
