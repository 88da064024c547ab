//! The shape of the experience table: experience never falls as the level
//! rises, and every level cap needs exactly the experience cap of its
//! over-limit step.
use vstd::prelude::*;

use crate::expod::{
    div_toward_zero, exp_caps_table, first_level_cap, level_experience_table, spec_exp_cap,
    spec_experience_for_level, spec_interpolate, spec_level_cap,
};

verus! {

/// Whether a sequence rises strictly from index `i` to its end.
pub open spec fn rises_from(s: Seq<i64>, i: int) -> bool
    decreases s.len() - i,
{
    if i + 1 >= s.len() {
        true
    } else {
        s[i] < s[i + 1] && rises_from(s, i + 1)
    }
}

/// A sequence that rises from its start rises from every later index.
proof fn lemma_rises_from_later(s: Seq<i64>, i: int)
    requires
        rises_from(s, 0),
        0 <= i,
    ensures
        rises_from(s, i),
    decreases i,
{
    if i > 0 {
        lemma_rises_from_later(s, i - 1);
    }
}

/// In a sequence that rises from its start, a later entry is larger.
pub proof fn lemma_rises_order(s: Seq<i64>, i: int, j: int)
    requires
        rises_from(s, 0),
        0 <= i < j < s.len(),
    ensures
        s[i] < s[j],
    decreases j - i,
{
    lemma_rises_from_later(s, j - 1);
    if i < j - 1 {
        lemma_rises_order(s, i, j - 1);
    }
}

/// The base table rises strictly, from 0 at level 1 to 308043 at level 100.
proof fn lemma_table_facts()
    ensures
        level_experience_table().len() == 100,
        level_experience_table()[0] == 0,
        level_experience_table()[99] == 308_043,
        forall|i: int, j: int|
            0 <= i < j < 100 ==> #[trigger] level_experience_table()[i]
                < #[trigger] level_experience_table()[j],
{
    let t = level_experience_table();
    reveal_with_fuel(rises_from, 6);
    assert(rises_from(t, 95));
    assert(rises_from(t, 90));
    assert(rises_from(t, 85));
    assert(rises_from(t, 80));
    assert(rises_from(t, 75));
    assert(rises_from(t, 70));
    assert(rises_from(t, 65));
    assert(rises_from(t, 60));
    assert(rises_from(t, 55));
    assert(rises_from(t, 50));
    assert(rises_from(t, 45));
    assert(rises_from(t, 40));
    assert(rises_from(t, 35));
    assert(rises_from(t, 30));
    assert(rises_from(t, 25));
    assert(rises_from(t, 20));
    assert(rises_from(t, 15));
    assert(rises_from(t, 10));
    assert(rises_from(t, 5));
    assert(rises_from(t, 0));
    assert forall|i: int, j: int| 0 <= i < j < 100 implies #[trigger] t[i] < #[trigger] t[j] by {
        lemma_rises_order(t, i, j);
    }
}


/// Whether, from step `i` on, the level cap of each over-limit step of a
/// rarity needs in the base table exactly the experience cap of that step.
pub open spec fn caps_on_table_from(rarity: int, i: int) -> bool
    decreases exp_caps_table(rarity).len() - i,
{
    if i >= exp_caps_table(rarity).len() {
        true
    } else {
        level_experience_table()[first_level_cap(rarity) + 5 * i - 1] == exp_caps_table(rarity)[i]
            && caps_on_table_from(rarity, i + 1)
    }
}

proof fn lemma_caps_on_table_later(rarity: int, i: int)
    requires
        caps_on_table_from(rarity, 0),
        0 <= i,
    ensures
        caps_on_table_from(rarity, i),
    decreases i,
{
    if i > 0 {
        lemma_caps_on_table_later(rarity, i - 1);
    }
}

/// The experience caps of a rarity rise strictly, are positive and at most
/// 400000; the last level cap is 100; and for rarities 1 to 3 each level
/// cap needs exactly its experience cap in the base table.
proof fn lemma_caps_facts(rarity: int)
    requires
        1 <= rarity <= 5,
    ensures
        exp_caps_table(rarity).len() > 0,
        first_level_cap(rarity) + 5 * (exp_caps_table(rarity).len() - 1) == 100,
        0 < exp_caps_table(rarity)[0],
        exp_caps_table(rarity)[exp_caps_table(rarity).len() - 1] <= 400_000,
        forall|i: int, j: int|
            0 <= i < j < exp_caps_table(rarity).len() ==> #[trigger] exp_caps_table(rarity)[i]
                < #[trigger] exp_caps_table(rarity)[j],
        rarity <= 3 ==> forall|i: int|
            0 <= i < exp_caps_table(rarity).len() ==> #[trigger] exp_caps_table(rarity)[i]
                == level_experience_table()[first_level_cap(rarity) + 5 * i - 1],
{
    let caps = exp_caps_table(rarity);
    reveal_with_fuel(rises_from, 4);
    reveal_with_fuel(caps_on_table_from, 4);
    if rarity == 1 {
        assert(rises_from(caps, 9));
        assert(rises_from(caps, 6));
        assert(rises_from(caps, 3));
        assert(caps_on_table_from(1, 12));
        assert(caps_on_table_from(1, 9));
        assert(caps_on_table_from(1, 6));
        assert(caps_on_table_from(1, 3));
    } else if rarity == 2 {
        assert(rises_from(caps, 8));
        assert(rises_from(caps, 5));
        assert(rises_from(caps, 2));
        assert(caps_on_table_from(2, 9));
        assert(caps_on_table_from(2, 6));
        assert(caps_on_table_from(2, 3));
    } else if rarity == 3 {
        assert(rises_from(caps, 6));
        assert(rises_from(caps, 3));
        assert(caps_on_table_from(3, 6));
        assert(caps_on_table_from(3, 3));
    } else if rarity == 4 {
        assert(rises_from(caps, 3));
    } else {
        assert(rises_from(caps, 2));
    }
    assert(rises_from(caps, 0));
    assert forall|i: int, j: int| 0 <= i < j < caps.len() implies #[trigger] caps[i] < #[trigger] caps[j] by {
        lemma_rises_order(caps, i, j);
    }
    if rarity <= 3 {
        assert(caps_on_table_from(rarity, 0));
        assert forall|i: int| 0 <= i < caps.len() implies #[trigger] caps[i]
            == level_experience_table()[first_level_cap(rarity) + 5 * i - 1] by {
            lemma_caps_on_table_later(rarity, i);
        }
    }
}


/// A value inside the source range maps inside the target range, and the
/// end of the source range maps onto the end of the target range.
proof fn lemma_interpolate_bounds(value: int, source_start: int, source_end: int, target_start: int, target_end: int)
    requires
        0 <= source_start < source_end <= 1_000_000,
        source_start <= value <= source_end,
        0 <= target_start <= target_end <= 1_000_000,
    ensures
        spec_interpolate(value, source_start, source_end, target_start, target_end) is Some,
        target_start <= spec_interpolate(value, source_start, source_end, target_start, target_end)->0
            <= target_end,
        value == source_end ==> spec_interpolate(value, source_start, source_end, target_start, target_end)->0
            == target_end,
        value == source_start ==> spec_interpolate(value, source_start, source_end, target_start, target_end)->0
            == target_start,
{
    let offset = value - source_start;
    let source_span = source_end - source_start;
    let target_span = target_end - target_start;
    let product = offset * target_span;
    vstd::arithmetic::mul::lemma_mul_nonnegative(offset, target_span);
    vstd::arithmetic::mul::lemma_mul_inequality(offset, source_span, target_span);
    vstd::arithmetic::mul::lemma_mul_is_commutative(source_span, target_span);
    vstd::arithmetic::div_mod::lemma_div_by_multiple(target_span, source_span);
    vstd::arithmetic::div_mod::lemma_div_is_ordered(product, source_span * target_span, source_span);
    vstd::arithmetic::div_mod::lemma_div_pos_is_pos(product, source_span);
    assert(div_toward_zero(product, source_span) == product / source_span);
    if value == source_start {
        assert(product == 0) by (nonlinear_arith)
            requires
                offset == 0,
                product == offset * target_span,
        ;
    }
}

/// Interpolation keeps the order of the values it maps.
proof fn lemma_interpolate_monotone(
    low: int,
    high: int,
    source_start: int,
    source_end: int,
    target_start: int,
    target_end: int,
)
    requires
        0 <= source_start < source_end <= 1_000_000,
        source_start <= low <= high <= source_end,
        0 <= target_start <= target_end <= 1_000_000,
    ensures
        spec_interpolate(low, source_start, source_end, target_start, target_end) is Some,
        spec_interpolate(high, source_start, source_end, target_start, target_end) is Some,
        spec_interpolate(low, source_start, source_end, target_start, target_end)->0
            <= spec_interpolate(high, source_start, source_end, target_start, target_end)->0,
{
    lemma_interpolate_bounds(low, source_start, source_end, target_start, target_end);
    lemma_interpolate_bounds(high, source_start, source_end, target_start, target_end);
    let source_span = source_end - source_start;
    let target_span = target_end - target_start;
    vstd::arithmetic::mul::lemma_mul_nonnegative(low - source_start, target_span);
    vstd::arithmetic::mul::lemma_mul_inequality(low - source_start, high - source_start, target_span);
    vstd::arithmetic::div_mod::lemma_div_is_ordered(
        (low - source_start) * target_span,
        (high - source_start) * target_span,
        source_span,
    );
    assert(div_toward_zero((low - source_start) * target_span, source_span) == (low - source_start)
        * target_span / source_span);
}


/// The segment of the experience table that a level above the first level
/// cap falls in: the over-limit step whose level cap ends it.
pub open spec fn segment_of(rarity: int, level: int) -> int {
    (level - first_level_cap(rarity) + 4) / 5
}

/// The experience of a level, unfolded: the base table for rarities 1 to
/// 3; for rarities 4 and 5 the base table mapped, up to the first level
/// cap, from its start onto the first experience cap, and above it, segment
/// by segment, from one level cap to the next onto their experience caps.
proof fn lemma_experience_form(rarity: int, level: int)
    requires
        1 <= rarity <= 5,
        1 <= level <= 100,
    ensures
        rarity <= 3 ==> spec_experience_for_level(rarity, level) == Some(level_experience_table()[level - 1]),
        rarity >= 4 && level <= first_level_cap(rarity) ==> spec_experience_for_level(rarity, level)
            == spec_interpolate(
            level_experience_table()[level - 1] as int,
            0,
            level_experience_table()[first_level_cap(rarity) - 1] as int,
            0,
            exp_caps_table(rarity)[0] as int,
        ),
        rarity >= 4 && level > first_level_cap(rarity) ==> {
            let u = segment_of(rarity, level);
            &&& 1 <= u < exp_caps_table(rarity).len()
            &&& first_level_cap(rarity) + 5 * (u - 1) < level <= first_level_cap(rarity) + 5 * u
            &&& spec_experience_for_level(rarity, level) == spec_interpolate(
                level_experience_table()[level - 1] as int,
                level_experience_table()[first_level_cap(rarity) + 5 * (u - 1) - 1] as int,
                level_experience_table()[first_level_cap(rarity) + 5 * u - 1] as int,
                exp_caps_table(rarity)[u - 1] as int,
                exp_caps_table(rarity)[u] as int,
            )
        },
{
    reveal(spec_experience_for_level);
    lemma_caps_facts(rarity);
}

/// The table entries of two levels keep their order.
proof fn lemma_table_le(i: int, j: int)
    requires
        0 <= i <= j < 100,
    ensures
        level_experience_table()[i] <= level_experience_table()[j],
        i < j ==> level_experience_table()[i] < level_experience_table()[j],
        0 <= level_experience_table()[i],
        level_experience_table()[j] <= 308_043,
{
    lemma_table_facts();
    if i < j {
        assert(level_experience_table()[i] < level_experience_table()[j]);
    }
    if 0 < i {
        assert(level_experience_table()[0] < level_experience_table()[i]);
    }
    if j < 99 {
        assert(level_experience_table()[j] < level_experience_table()[99]);
    }
}

/// The experience caps of two steps keep their order.
proof fn lemma_caps_le(rarity: int, i: int, j: int)
    requires
        1 <= rarity <= 5,
        0 <= i <= j < exp_caps_table(rarity).len(),
    ensures
        exp_caps_table(rarity)[i] <= exp_caps_table(rarity)[j],
        i < j ==> exp_caps_table(rarity)[i] < exp_caps_table(rarity)[j],
        0 < exp_caps_table(rarity)[i],
        exp_caps_table(rarity)[j] <= 400_000,
{
    lemma_caps_facts(rarity);
    let caps = exp_caps_table(rarity);
    if i < j {
        assert(caps[i] < caps[j]);
    }
    if 0 < i {
        assert(caps[0] < caps[i]);
    }
    if j < caps.len() - 1 {
        assert(caps[j] < caps[caps.len() - 1]);
    }
}

/// A step below the first level cap of rarities 4 and 5.
proof fn lemma_step_below_first_cap(rarity: int, level: int)
    requires
        4 <= rarity <= 5,
        1 <= level,
        level + 1 <= first_level_cap(rarity),
    ensures
        spec_experience_for_level(rarity, level) is Some,
        spec_experience_for_level(rarity, level + 1) is Some,
        spec_experience_for_level(rarity, level)->0 <= spec_experience_for_level(rarity, level + 1)->0,
{
    let t = level_experience_table();
    let caps = exp_caps_table(rarity);
    let first = first_level_cap(rarity);
    lemma_experience_form(rarity, level);
    lemma_experience_form(rarity, level + 1);
    lemma_table_le(level - 1, level);
    lemma_table_le(0, first - 1);
    lemma_table_le(level, first - 1);
    lemma_caps_le(rarity, 0, 0);
    lemma_interpolate_monotone(t[level - 1] as int, t[level] as int, 0, t[first - 1] as int, 0, caps[0] as int);
}

/// The step from the first level cap of rarities 4 and 5 to the next level.
proof fn lemma_step_at_first_cap(rarity: int)
    requires
        4 <= rarity <= 5,
    ensures
        spec_experience_for_level(rarity, first_level_cap(rarity)) is Some,
        spec_experience_for_level(rarity, first_level_cap(rarity) + 1) is Some,
        spec_experience_for_level(rarity, first_level_cap(rarity))->0 <= spec_experience_for_level(
            rarity,
            first_level_cap(rarity) + 1,
        )->0,
{
    let t = level_experience_table();
    let caps = exp_caps_table(rarity);
    let first = first_level_cap(rarity);
    lemma_experience_form(rarity, first);
    lemma_experience_form(rarity, first + 1);
    assert(segment_of(rarity, first + 1) == 1);
    lemma_table_le(0, first - 1);
    lemma_table_le(first - 1, first);
    lemma_table_le(first, first + 4);
    lemma_caps_le(rarity, 0, 1);
    lemma_interpolate_bounds(t[first - 1] as int, 0, t[first - 1] as int, 0, caps[0] as int);
    lemma_interpolate_bounds(t[first] as int, t[first - 1] as int, t[first + 4] as int, caps[0] as int, caps[1] as int);
}

/// A step above the first level cap of rarities 4 and 5.
proof fn lemma_step_above_first_cap(rarity: int, level: int)
    requires
        4 <= rarity <= 5,
        first_level_cap(rarity) < level < 100,
    ensures
        spec_experience_for_level(rarity, level) is Some,
        spec_experience_for_level(rarity, level + 1) is Some,
        spec_experience_for_level(rarity, level)->0 <= spec_experience_for_level(rarity, level + 1)->0,
{
    let t = level_experience_table();
    let caps = exp_caps_table(rarity);
    let first = first_level_cap(rarity);
    lemma_experience_form(rarity, level);
    lemma_experience_form(rarity, level + 1);
    let u1 = segment_of(rarity, level);
    let u2 = segment_of(rarity, level + 1);
    let lo1 = first + 5 * (u1 - 1);
    let hi1 = first + 5 * u1;
    lemma_table_le(lo1 - 1, level - 1);
    lemma_table_le(level - 1, level);
    lemma_caps_le(rarity, u1 - 1, u1);
    if u1 == u2 {
        lemma_table_le(lo1 - 1, hi1 - 1);
        lemma_table_le(level, hi1 - 1);
        lemma_interpolate_monotone(
            t[level - 1] as int,
            t[level] as int,
            t[lo1 - 1] as int,
            t[hi1 - 1] as int,
            caps[u1 - 1] as int,
            caps[u1] as int,
        );
    } else {
        let hi2 = first + 5 * u2;
        assert(u2 == u1 + 1 && level == hi1);
        lemma_table_le(lo1 - 1, hi1 - 1);
        lemma_table_le(hi1 - 1, hi2 - 1);
        lemma_table_le(level, hi2 - 1);
        lemma_caps_le(rarity, u1, u2);
        lemma_interpolate_bounds(
            t[level - 1] as int,
            t[lo1 - 1] as int,
            t[hi1 - 1] as int,
            caps[u1 - 1] as int,
            caps[u1] as int,
        );
        lemma_interpolate_bounds(
            t[level] as int,
            t[hi1 - 1] as int,
            t[hi2 - 1] as int,
            caps[u1] as int,
            caps[u2] as int,
        );
    }
}

/// From one level to the next the experience is defined and does not fall.
proof fn lemma_experience_step(rarity: int, level: int)
    requires
        1 <= rarity <= 5,
        1 <= level < 100,
    ensures
        spec_experience_for_level(rarity, level) is Some,
        spec_experience_for_level(rarity, level + 1) is Some,
        spec_experience_for_level(rarity, level)->0 <= spec_experience_for_level(rarity, level + 1)->0,
{
    if rarity <= 3 {
        lemma_experience_form(rarity, level);
        lemma_experience_form(rarity, level + 1);
        lemma_table_le(level - 1, level);
    } else if level + 1 <= first_level_cap(rarity) {
        lemma_step_below_first_cap(rarity, level);
    } else if level == first_level_cap(rarity) {
        lemma_step_at_first_cap(rarity);
    } else {
        lemma_step_above_first_cap(rarity, level);
    }
}


/// Every level cap needs exactly the experience cap of its over-limit step.
proof fn lemma_cap_level_experience(rarity: int, over_limit_step: int)
    requires
        1 <= rarity <= 5,
    ensures
        spec_level_cap(rarity, over_limit_step) is Some,
        spec_experience_for_level(rarity, spec_level_cap(rarity, over_limit_step)->0) == spec_exp_cap(
            rarity,
            over_limit_step,
        ),
{
    lemma_caps_facts(rarity);
    let caps = exp_caps_table(rarity);
    let first = first_level_cap(rarity);
    let step: int = if over_limit_step < 0 { 0 } else { over_limit_step };
    let index: int = if step < caps.len() - 1 { step } else { caps.len() - 1 };
    let level = first + index * 5;
    assert(spec_level_cap(rarity, over_limit_step) == Some(level));
    assert(spec_exp_cap(rarity, over_limit_step) == Some(caps[index]));
    lemma_experience_form(rarity, level);
    let t = level_experience_table();
    if rarity >= 4 {
        lemma_caps_le(rarity, 0, index);
        if index == 0 {
            lemma_table_le(0, first - 1);
            lemma_interpolate_bounds(t[first - 1] as int, 0, t[first - 1] as int, 0, caps[0] as int);
        } else {
            assert(segment_of(rarity, level) == index);
            lemma_table_le(first + 5 * (index - 1) - 1, level - 1);
            lemma_caps_le(rarity, index - 1, index);
            lemma_interpolate_bounds(
                t[level - 1] as int,
                t[first + 5 * (index - 1) - 1] as int,
                t[level - 1] as int,
                caps[index - 1] as int,
                caps[index] as int,
            );
        }
    }
}

/// Experience does not fall from `low` to `high`.
proof fn lemma_experience_rises(rarity: int, low: int, high: int)
    requires
        1 <= rarity <= 5,
        1 <= low <= high <= 100,
    ensures
        spec_experience_for_level(rarity, low) is Some,
        spec_experience_for_level(rarity, high) is Some,
        spec_experience_for_level(rarity, low)->0 <= spec_experience_for_level(rarity, high)->0,
    decreases high - low,
{
    if low < high {
        lemma_experience_rises(rarity, low, high - 1);
        lemma_experience_step(rarity, high - 1);
    } else if low < 100 {
        lemma_experience_step(rarity, low);
    } else {
        lemma_experience_step(rarity, 99);
    }
}

/// The experience a level needs is defined exactly on rarities 1 to 5 and
/// levels 1 to 100; level 1 needs none; it never falls as the level rises;
/// and at every over-limit step the level cap needs exactly the experience
/// cap of that step.
pub proof fn lemma_experience_law(rarity: int, low: int, high: int, over_limit_step: int)
    ensures
        spec_experience_for_level(rarity, low) is Some <==> (1 <= rarity <= 5 && 1 <= low <= 100),
        1 <= rarity <= 5 ==> spec_experience_for_level(rarity, 1) == Some(0i64),
        1 <= rarity <= 5 && 1 <= low <= high <= 100 ==> spec_experience_for_level(rarity, low)->0
            <= spec_experience_for_level(rarity, high)->0,
        1 <= rarity <= 5 ==> (spec_level_cap(rarity, over_limit_step) matches Some(cap)
            && spec_experience_for_level(rarity, cap) == spec_exp_cap(rarity, over_limit_step)),
{
    if 1 <= rarity <= 5 {
        lemma_cap_level_experience(rarity, over_limit_step);
    }
    if !(1 <= rarity <= 5 && 1 <= low <= 100) {
        reveal(spec_experience_for_level);
    } else {
        lemma_experience_rises(rarity, low, low);
        if low <= high <= 100 {
            lemma_experience_rises(rarity, low, high);
        }
        lemma_experience_form(rarity, 1);
        lemma_table_facts();
        if rarity >= 4 {
            lemma_caps_le(rarity, 0, 0);
            lemma_table_le(0, first_level_cap(rarity) - 1);
            lemma_interpolate_bounds(
                0,
                0,
                level_experience_table()[first_level_cap(rarity) - 1] as int,
                0,
                exp_caps_table(rarity)[0] as int,
            );
        }
    }
}

} // verus!
