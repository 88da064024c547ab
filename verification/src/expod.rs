//! Character experience: the cumulative experience each level needs, the
//! experience cap of every over-limit step, the level that an amount of
//! experience reaches, and the conversion of duplicate characters into
//! pooled experience.
use vstd::prelude::*;

use crate::error::ServiceError;
use crate::http::{json_error, JsonResponse, error_body};
use crate::text::str_eq;

pub mod levels;

verus! {

/// Cumulative experience of levels 1 to 100 (index `level - 1`).
pub open spec fn level_experience_table() -> Seq<i64> {
    seq![
        0, 10, 20, 38, 64, 100, 146, 202, 269, 348, 440, 545, 663, 796, 944, 1_108, 1_288, 1_485,
        1_699, 1_932, 2_184, 2_455, 2_746, 3_058, 3_392, 3_748, 4_126, 4_528, 4_954, 5_404, 5_880,
        6_382, 6_910, 7_465, 8_048, 8_660, 9_301, 9_971, 10_672, 11_416, 12_204, 13_037, 13_917,
        14_844, 15_820, 16_846, 17_924, 19_054, 20_238, 21_477, 22_772, 24_124, 25_535, 27_006,
        28_538, 30_132, 31_789, 33_511, 35_299, 37_241, 39_343, 41_612, 44_054, 46_675, 49_481,
        52_479, 55_675, 59_075, 62_685, 66_600, 70_832, 75_394, 80_298, 85_556, 91_180, 97_183,
        103_576, 110_372, 117_584, 125_223, 134_364, 143_505, 152_646, 161_787, 170_928, 180_069,
        189_210, 198_351, 207_492, 216_633, 225_774, 234_915, 244_056, 253_197, 262_338, 271_479,
        280_620, 289_761, 298_902, 308_043,
    ]
}

/// Experience caps of a rarity, one per over-limit step (empty for a
/// rarity that does not exist).
pub open spec fn exp_caps_table(rarity: int) -> Seq<i64> {
    if rarity == 1 {
        seq![
            11_416, 15_820, 21_477, 28_538, 37_241, 49_481, 66_600, 91_180, 125_223, 170_928,
            216_633, 262_338, 308_043,
        ]
    } else if rarity == 2 {
        seq![
            21_477, 28_538, 37_241, 49_481, 66_600, 91_180, 125_223, 170_928, 216_633, 262_338,
            308_043,
        ]
    } else if rarity == 3 {
        seq![37_241, 49_481, 66_600, 91_180, 125_223, 170_928, 216_633, 262_338, 308_043]
    } else if rarity == 4 {
        seq![76_272, 102_829, 139_190, 189_995, 240_800, 291_605, 342_410]
    } else if rarity == 5 {
        seq![153_988, 210_488, 266_988, 323_488, 379_988]
    } else {
        seq![]
    }
}

/// The caps of a rarity and the over-limit step clamped into them.
pub open spec fn spec_progression(rarity: int, over_limit_step: int) -> Option<(Seq<i64>, int)> {
    let caps = exp_caps_table(rarity);
    if caps.len() == 0 {
        None
    } else {
        let step = if over_limit_step < 0 {
            0
        } else {
            over_limit_step
        };
        Some((caps, if step < caps.len() - 1 {
            step
        } else {
            caps.len() - 1
        }))
    }
}

/// The level cap before any over-limit step.
pub open spec fn first_level_cap(rarity: int) -> int {
    if rarity == 1 {
        40
    } else if rarity == 2 {
        50
    } else if rarity == 3 {
        60
    } else if rarity == 4 {
        70
    } else {
        80
    }
}

/// The experience cap of a character of `rarity` at `over_limit_step`.
pub open spec fn spec_exp_cap(rarity: int, over_limit_step: int) -> Option<i64> {
    match spec_progression(rarity, over_limit_step) {
        Some((caps, index)) => Some(caps[index]),
        None => None,
    }
}

/// The level cap: five levels more per over-limit step.
pub open spec fn spec_level_cap(rarity: int, over_limit_step: int) -> Option<int> {
    match spec_progression(rarity, over_limit_step) {
        Some((_, index)) => Some(first_level_cap(rarity) + index * 5),
        None => None,
    }
}

/// Integer division that rounds toward zero.
pub open spec fn div_toward_zero(a: int, b: int) -> int {
    if (a >= 0) == (b > 0) {
        if a >= 0 {
            a / b
        } else {
            (-a) / (-b)
        }
    } else {
        if a >= 0 {
            -(a / (-b))
        } else {
            -((-a) / b)
        }
    }
}

/// Linear map of `value` from the source range onto the target range,
/// rounded toward zero; `None` where a span or the result does not fit.
pub open spec fn spec_interpolate(
    value: int,
    source_start: int,
    source_end: int,
    target_start: int,
    target_end: int,
) -> Option<i64> {
    let source_span = source_end - source_start;
    let target_span = target_end - target_start;
    let offset = value - source_start;
    if source_span < i64::MIN || source_span > i64::MAX || target_span < i64::MIN || target_span
        > i64::MAX || offset < i64::MIN || offset > i64::MAX {
        None
    } else {
        let result = target_start + div_toward_zero(offset * target_span, source_span);
        if i64::MIN <= result <= i64::MAX {
            Some(result as i64)
        } else {
            None
        }
    }
}

/// The experience that a character of `rarity` needs for `level`. Rarities
/// 1 to 3 use the base table; rarities 4 and 5 stretch it so that each
/// level cap needs exactly the experience cap of its over-limit step.
#[verifier::opaque]
pub open spec fn spec_experience_for_level(rarity: int, level: int) -> Option<i64> {
    if level < 1 || level > 100 {
        None
    } else {
        let table = level_experience_table();
        let base = table[level - 1];
        if rarity <= 3 {
            if 1 <= rarity {
                Some(base)
            } else {
                None
            }
        } else if rarity > 5 {
            None
        } else {
            let caps = exp_caps_table(rarity);
            let first_cap = first_level_cap(rarity);
            if level <= first_cap {
                spec_interpolate(base as int, 0, table[first_cap - 1] as int, 0, caps[0] as int)
            } else {
                let upper = (level - first_cap + 4) / 5;
                let lower = upper - 1;
                let lower_level = first_cap + lower * 5;
                let upper_level = first_cap + upper * 5;
                if upper >= caps.len() {
                    None
                } else {
                    spec_interpolate(
                        base as int,
                        table[lower_level - 1] as int,
                        table[upper_level - 1] as int,
                        caps[lower] as int,
                        caps[upper] as int,
                    )
                }
            }
        }
    }
}

/// Whether `level` needs at most `experience`.
pub open spec fn reaches_level(rarity: int, level: int, experience: int) -> bool {
    match spec_experience_for_level(rarity, level) {
        Some(required) => required <= experience,
        None => false,
    }
}

/// The highest level from `top` down that `experience` reaches, else 1.
pub open spec fn highest_reached_level(rarity: int, experience: int, top: int) -> int
    decreases top,
{
    if top < 1 {
        1
    } else if reaches_level(rarity, top, experience) {
        top
    } else {
        highest_reached_level(rarity, experience, top - 1)
    }
}

/// The level of a character with `experience`, capped by its rarity and
/// over-limit step.
pub open spec fn spec_level_from_experience(rarity: int, experience: int, over_limit_step: int) -> Option<
    int,
> {
    match spec_level_cap(rarity, over_limit_step) {
        Some(cap) => Some(
            highest_reached_level(
                rarity,
                if experience < 0 {
                    0
                } else {
                    experience
                },
                cap,
            ),
        ),
        None => None,
    }
}

/// The cumulative experience table as a vector.
fn level_experience() -> (v: Vec<i64>)
    ensures
        v@ == level_experience_table(),
{
    let v: Vec<i64> = vec![
        0, 10, 20, 38, 64, 100, 146, 202, 269, 348, 440, 545, 663, 796, 944, 1_108, 1_288, 1_485,
        1_699, 1_932, 2_184, 2_455, 2_746, 3_058, 3_392, 3_748, 4_126, 4_528, 4_954, 5_404, 5_880,
        6_382, 6_910, 7_465, 8_048, 8_660, 9_301, 9_971, 10_672, 11_416, 12_204, 13_037, 13_917,
        14_844, 15_820, 16_846, 17_924, 19_054, 20_238, 21_477, 22_772, 24_124, 25_535, 27_006,
        28_538, 30_132, 31_789, 33_511, 35_299, 37_241, 39_343, 41_612, 44_054, 46_675, 49_481,
        52_479, 55_675, 59_075, 62_685, 66_600, 70_832, 75_394, 80_298, 85_556, 91_180, 97_183,
        103_576, 110_372, 117_584, 125_223, 134_364, 143_505, 152_646, 161_787, 170_928, 180_069,
        189_210, 198_351, 207_492, 216_633, 225_774, 234_915, 244_056, 253_197, 262_338, 271_479,
        280_620, 289_761, 298_902, 308_043,
    ];
    assert(v@ =~= level_experience_table());
    v
}

/// The experience caps of a rarity as a vector.
fn exp_caps(rarity: i64) -> (v: Vec<i64>)
    ensures
        v@ == exp_caps_table(rarity as int),
{
    let v: Vec<i64> = if rarity == 1 {
        vec![
            11_416, 15_820, 21_477, 28_538, 37_241, 49_481, 66_600, 91_180, 125_223, 170_928,
            216_633, 262_338, 308_043,
        ]
    } else if rarity == 2 {
        vec![
            21_477, 28_538, 37_241, 49_481, 66_600, 91_180, 125_223, 170_928, 216_633, 262_338,
            308_043,
        ]
    } else if rarity == 3 {
        vec![37_241, 49_481, 66_600, 91_180, 125_223, 170_928, 216_633, 262_338, 308_043]
    } else if rarity == 4 {
        vec![76_272, 102_829, 139_190, 189_995, 240_800, 291_605, 342_410]
    } else if rarity == 5 {
        vec![153_988, 210_488, 266_988, 323_488, 379_988]
    } else {
        Vec::new()
    };
    assert(v@ =~= exp_caps_table(rarity as int));
    v
}

/// The level reached by `experience`, or `None` for a rarity that does not
/// exist.
pub fn character_level_from_experience(rarity: i64, experience: i64, over_limit_step: i64) -> (r:
    Option<i64>)
    ensures
        match r {
            Some(level) => spec_level_from_experience(
                rarity as int,
                experience as int,
                over_limit_step as int,
            ) == Some(level as int),
            None => spec_level_from_experience(
                rarity as int,
                experience as int,
                over_limit_step as int,
            ) is None,
        },
{
    let level_cap = character_level_cap(rarity, over_limit_step)?;
    let clamped = if experience < 0 {
        0
    } else {
        experience
    };
    let mut level = level_cap;
    while level >= 1
        invariant
            level <= level_cap,
            spec_level_from_experience(rarity as int, experience as int, over_limit_step as int) == Some(
                highest_reached_level(rarity as int, clamped as int, level as int),
            ),
        decreases level,
    {
        match character_experience_for_level(rarity, level) {
            Some(required) => {
                if required <= clamped {
                    assert(reaches_level(rarity as int, level as int, clamped as int));
                    return Some(level);
                }
            },
            None => {},
        }
        level = level - 1;
    }
    Some(1)
}

/// The experience cap of a character at `over_limit_step` (clamped into
/// the steps of its rarity).
pub fn character_exp_cap(rarity: i64, over_limit_step: i64) -> (r: Option<i64>)
    ensures
        r == spec_exp_cap(rarity as int, over_limit_step as int),
{
    let (levels, over_limit_index) = character_progression(rarity, over_limit_step)?;
    Some(levels[over_limit_index])
}

/// The level cap of a character at `over_limit_step`.
pub fn character_level_cap(rarity: i64, over_limit_step: i64) -> (r: Option<i64>)
    ensures
        match r {
            Some(cap) => spec_level_cap(rarity as int, over_limit_step as int) == Some(cap as int),
            None => spec_level_cap(rarity as int, over_limit_step as int) is None,
        },
        r matches Some(cap) ==> 40 <= cap <= 100,
{
    let (_, over_limit_index) = character_progression(rarity, over_limit_step)?;
    let first_cap: i64 = if rarity == 1 {
        40
    } else if rarity == 2 {
        50
    } else if rarity == 3 {
        60
    } else if rarity == 4 {
        70
    } else if rarity == 5 {
        80
    } else {
        return None;
    };
    Some(first_cap + over_limit_index as i64 * 5)
}

/// The experience caps of a rarity and the over-limit step clamped into
/// them.
pub fn character_progression(rarity: i64, over_limit_step: i64) -> (r: Option<(Vec<i64>, usize)>)
    ensures
        match r {
            Some((caps, index)) => spec_progression(rarity as int, over_limit_step as int) == Some(
                (caps@, index as int),
            ),
            None => spec_progression(rarity as int, over_limit_step as int) is None,
        },
        r matches Some((caps, index)) ==> index < caps@.len() <= 13,
{
    let levels = exp_caps(rarity);
    if levels.len() == 0 {
        return None;
    }
    let step: i64 = if over_limit_step < 0 {
        0
    } else {
        over_limit_step
    };
    let last = levels.len() - 1;
    let over_limit_index: usize = if step < last as i64 {
        step as usize
    } else {
        last
    };
    Some((levels, over_limit_index))
}

/// The cumulative experience that `level` needs for a character of
/// `rarity`.
pub fn character_experience_for_level(rarity: i64, level: i64) -> (r: Option<i64>)
    ensures
        r == spec_experience_for_level(rarity as int, level as int),
{
    proof { reveal(spec_experience_for_level); }
    if level < 1 || level > 100 {
        return None;
    }
    let table = level_experience();
    let base_experience = table[(level - 1) as usize];
    if rarity <= 3 {
        return if 1 <= rarity {
            Some(base_experience)
        } else {
            None
        };
    }
    if rarity > 5 {
        return None;
    }
    let caps = exp_caps(rarity);
    let first_cap: i64 = if rarity == 4 {
        70
    } else {
        80
    };
    let first_cap_experience = table[(first_cap - 1) as usize];
    if level <= first_cap {
        return interpolate_character_experience(base_experience, 0, first_cap_experience, 0, caps[0]);
    }
    let upper_cap_index = ((level - first_cap + 4) / 5) as usize;
    let lower_cap_index = upper_cap_index - 1;
    let lower_level = first_cap + lower_cap_index as i64 * 5;
    let upper_level = first_cap + upper_cap_index as i64 * 5;
    if upper_cap_index >= caps.len() {
        return None;
    }
    interpolate_character_experience(
        base_experience,
        table[(lower_level - 1) as usize],
        table[(upper_level - 1) as usize],
        caps[lower_cap_index],
        caps[upper_cap_index],
    )
}

/// Maps `value` linearly from `[source_start, source_end]` onto
/// `[target_start, target_end]`, rounding toward zero.
pub fn interpolate_character_experience(
    value: i64,
    source_start: i64,
    source_end: i64,
    target_start: i64,
    target_end: i64,
) -> (r: Option<i64>)
    requires
        source_end != source_start,
    ensures
        r == spec_interpolate(
            value as int,
            source_start as int,
            source_end as int,
            target_start as int,
            target_end as int,
        ),
{
    let source_span = source_end.checked_sub(source_start)?;
    let target_span = target_end.checked_sub(target_start)?;
    let source_offset = value.checked_sub(source_start)?;
    assert(-0x4000_0000_0000_0000_0000_0000_0000_0000 <= source_offset as int * target_span as int
        <= 0x4000_0000_0000_0000_0000_0000_0000_0000) by (nonlinear_arith)
        requires
            i64::MIN <= source_offset <= i64::MAX,
            i64::MIN <= target_span <= i64::MAX,
    ;
    let product: i128 = source_offset as i128 * target_span as i128;
    let negative_product = product < 0;
    let negative_span = source_span < 0;
    let product_magnitude: u128 = if negative_product {
        (-product) as u128
    } else {
        product as u128
    };
    let span_magnitude: u128 = if negative_span {
        (-(source_span as i128)) as u128
    } else {
        source_span as u128
    };
    let quotient: u128 = product_magnitude / span_magnitude;
    assert(quotient <= product_magnitude) by (nonlinear_arith)
        requires
            span_magnitude >= 1,
            quotient == product_magnitude / span_magnitude,
    ;
    assert(product_magnitude <= 0x4000_0000_0000_0000_0000_0000_0000_0000) by (nonlinear_arith)
        requires
            product == source_offset as int * target_span as int,
            product_magnitude == (if product < 0 {
                -product
            } else {
                product as int
            }),
    ;
    let scaled: i128 = if negative_product != negative_span {
        -(quotient as i128)
    } else {
        quotient as i128
    };
    let result: i128 = target_start as i128 + scaled;
    if result < i64::MIN as i128 || result > i64::MAX as i128 {
        None
    } else {
        Some(result as i64)
    }
}

/// Pooled experience and reward items that one duplicate of a character
/// of `rarity` converts into.
pub open spec fn spec_stack_conversion(rarity: int) -> Option<(i64, i64)> {
    if 1 <= rarity <= 3 {
        Some((500, 2))
    } else if rarity == 4 {
        Some((2_000, 10))
    } else if rarity == 5 {
        Some((10_000, 30))
    } else {
        None
    }
}

/// The experience and items that one duplicate of a character converts
/// into; an error for a rarity that does not exist.
pub fn stack_conversion(rarity: i64) -> (r: Result<(i64, i64), ServiceError>)
    ensures
        match r {
            Ok(pair) => spec_stack_conversion(rarity as int) == Some(pair),
            Err(e) => spec_stack_conversion(rarity as int) is None && e.message@
                == "CN character rarity is invalid"@,
        },
{
    if 1 <= rarity && rarity <= 3 {
        Ok((500, 2))
    } else if rarity == 4 {
        Ok((2_000, 10))
    } else if rarity == 5 {
        Ok((10_000, 30))
    } else {
        Err(ServiceError::new("CN character rarity is invalid"))
    }
}

/// Why an experience request is refused: the first three are answers to
/// the client, the rest internal failures, each with its own message.
#[derive(Clone, Copy, Debug, PartialEq, Eq, Structural)]
pub enum ExpRefusal {
    NotEnoughStack,
    NotEnoughExp,
    InvalidExp,
    StackRange,
    RarityInvalid,
    ConvertedExpRange,
    ConvertedItemRange,
    PoolRange,
    ItemCountRange,
    BulkExpRange,
    BulkItemRange,
    BulkPoolRange,
    BulkItemCountRange,
    CharacterExpRange,
}

/// Whether an integer fits in `i64`.
pub open spec fn fits(v: int) -> bool {
    i64::MIN <= v <= i64::MAX
}

/// What converting `number` duplicates of a character does.
#[derive(Clone, Copy, Debug, PartialEq, Eq, Structural)]
pub struct StackPlan {
    pub after_stack: i64,
    pub increase_exp: i64,
    pub after_exp_pool: i64,
    pub after_items: i64,
}

/// Converts `number` of a character's `stack` duplicates into pooled
/// experience and reward items.
pub open spec fn spec_stack_to_exp(
    rarity: i64,
    stack: i64,
    number: i64,
    exp_pool: i64,
    items: i64,
) -> Result<StackPlan, ExpRefusal> {
    if !fits(stack - number) {
        Err(ExpRefusal::StackRange)
    } else if stack - number < 0 {
        Err(ExpRefusal::NotEnoughStack)
    } else {
        match spec_stack_conversion(rarity as int) {
            None => Err(ExpRefusal::RarityInvalid),
            Some((exp_per, items_per)) => if !fits(exp_per * number) {
                Err(ExpRefusal::ConvertedExpRange)
            } else if !fits(items_per * number) {
                Err(ExpRefusal::ConvertedItemRange)
            } else if !fits(exp_pool + exp_per * number) {
                Err(ExpRefusal::PoolRange)
            } else if !fits(items + items_per * number) {
                Err(ExpRefusal::ItemCountRange)
            } else {
                Ok(
                    StackPlan {
                        after_stack: (stack - number) as i64,
                        increase_exp: (exp_per * number) as i64,
                        after_exp_pool: (exp_pool + exp_per * number) as i64,
                        after_items: (items + items_per * number) as i64,
                    },
                )
            },
        }
    }
}

/// Converts duplicates of a character into pooled experience and items.
pub fn stack_to_exp(rarity: i64, stack: i64, number: i64, exp_pool: i64, items: i64) -> (r: Result<
    StackPlan,
    ExpRefusal,
>)
    ensures
        r == spec_stack_to_exp(rarity, stack, number, exp_pool, items),
{
    let after_stack = match stack.checked_sub(number) {
        Some(v) => v,
        None => return Err(ExpRefusal::StackRange),
    };
    if after_stack < 0 {
        return Err(ExpRefusal::NotEnoughStack);
    }
    let (exp_per, items_per) = match stack_conversion(rarity) {
        Ok(pair) => pair,
        Err(_) => return Err(ExpRefusal::RarityInvalid),
    };
    let increase_exp = match exp_per.checked_mul(number) {
        Some(v) => v,
        None => return Err(ExpRefusal::ConvertedExpRange),
    };
    let increase_items = match items_per.checked_mul(number) {
        Some(v) => v,
        None => return Err(ExpRefusal::ConvertedItemRange),
    };
    let after_exp_pool = match exp_pool.checked_add(increase_exp) {
        Some(v) => v,
        None => return Err(ExpRefusal::PoolRange),
    };
    let after_items = match items.checked_add(increase_items) {
        Some(v) => v,
        None => return Err(ExpRefusal::ItemCountRange),
    };
    Ok(StackPlan { after_stack, increase_exp, after_exp_pool, after_items })
}

/// The highest over-limit step of a rarity (0 for a rarity without
/// steps).
pub open spec fn max_over_limit(rarity: int) -> int {
    if exp_caps_table(rarity).len() == 0 {
        0
    } else {
        exp_caps_table(rarity).len() - 1
    }
}

fn max_over_limit_step(rarity: i64) -> (r: i64)
    ensures
        r == max_over_limit(rarity as int),
{
    if rarity == 1 {
        12
    } else if rarity == 2 {
        10
    } else if rarity == 3 {
        8
    } else if rarity == 4 {
        6
    } else if rarity == 5 {
        4
    } else {
        0
    }
}

/// An owned character as the bulk conversion reads it: its id, its
/// duplicates, its over-limit step and its rarity (`None` where the
/// character catalog does not know it).
#[derive(Clone, Copy, Debug, PartialEq, Eq, Structural)]
pub struct BulkCandidate {
    pub character_id: i64,
    pub stack: i64,
    pub over_limit_step: i64,
    pub rarity: Option<i64>,
}

/// Whether a character's duplicates are converted in bulk: it has some,
/// its rarity is known and it has passed every over-limit step.
pub open spec fn bulk_converts(c: BulkCandidate) -> bool {
    c.stack > 0 && c.rarity is Some && c.over_limit_step >= max_over_limit(c.rarity->0 as int)
}

/// The totals of a bulk conversion so far: the characters converted and
/// the experience and items gained.
pub open spec fn bulk_totals(cs: Seq<BulkCandidate>) -> Result<(Seq<i64>, i64, i64), ExpRefusal>
    decreases cs.len(),
{
    if cs.len() == 0 {
        Ok((seq![], 0, 0))
    } else {
        match bulk_totals(cs.drop_last()) {
            Err(e) => Err(e),
            Ok((ids, exp, items)) => {
                let c = cs.last();
                if !bulk_converts(c) {
                    Ok((ids, exp, items))
                } else {
                    match spec_stack_conversion(c.rarity->0 as int) {
                        None => Err(ExpRefusal::RarityInvalid),
                        Some((exp_per, items_per)) => if !fits(exp_per * c.stack) || !fits(
                            exp + exp_per * c.stack,
                        ) {
                            Err(ExpRefusal::BulkExpRange)
                        } else if !fits(items_per * c.stack) || !fits(items + items_per * c.stack) {
                            Err(ExpRefusal::BulkItemRange)
                        } else {
                            Ok(
                                (
                                    ids.push(c.character_id),
                                    (exp + exp_per * c.stack) as i64,
                                    (items + items_per * c.stack) as i64,
                                ),
                            )
                        },
                    }
                }
            },
        }
    }
}

/// The characters among `cs` whose duplicates a bulk conversion converts,
/// in order.
pub open spec fn converting_ids(cs: Seq<BulkCandidate>) -> Seq<i64>
    decreases cs.len(),
{
    if cs.len() == 0 {
        seq![]
    } else if bulk_converts(cs.last()) {
        converting_ids(cs.drop_last()).push(cs.last().character_id)
    } else {
        converting_ids(cs.drop_last())
    }
}

/// The experience one candidate's duplicates give (none where they are not
/// converted).
pub open spec fn candidate_exp(c: BulkCandidate) -> int {
    if bulk_converts(c) {
        match spec_stack_conversion(c.rarity->0 as int) {
            Some((exp_per, _)) => exp_per * c.stack,
            None => 0,
        }
    } else {
        0
    }
}

/// The items one candidate's duplicates give (none where they are not
/// converted).
pub open spec fn candidate_items(c: BulkCandidate) -> int {
    if bulk_converts(c) {
        match spec_stack_conversion(c.rarity->0 as int) {
            Some((_, items_per)) => items_per * c.stack,
            None => 0,
        }
    } else {
        0
    }
}

/// The sum of a per-candidate amount over the candidates.
pub open spec fn candidates_sum(cs: Seq<BulkCandidate>, amount: spec_fn(BulkCandidate) -> int) -> int
    decreases cs.len(),
{
    if cs.len() == 0 {
        0
    } else {
        candidates_sum(cs.drop_last(), amount) + amount(cs.last())
    }
}

/// A bulk conversion that goes through converts exactly the characters
/// that have duplicates, a known rarity and every over-limit step, in
/// order; its experience is the sum of each one's duplicates times the
/// experience per duplicate of its rarity, and its items likewise with the
/// items per duplicate.
pub proof fn lemma_bulk_totals_sum_each_character(cs: Seq<BulkCandidate>)
    ensures
        bulk_totals(cs) matches Ok((ids, exp, items)) ==> ids == converting_ids(cs) && exp
            == candidates_sum(cs, |c: BulkCandidate| candidate_exp(c)) && items == candidates_sum(
            cs,
            |c: BulkCandidate| candidate_items(c),
        ),
    decreases cs.len(),
{
    if cs.len() > 0 {
        lemma_bulk_totals_sum_each_character(cs.drop_last());
    }
}

proof fn lemma_bulk_error_stays(cs: Seq<BulkCandidate>, n: int)
    requires
        0 <= n <= cs.len(),
        bulk_totals(cs.subrange(0, n)) is Err,
    ensures
        bulk_totals(cs) == bulk_totals(cs.subrange(0, n)),
    decreases cs.len() - n,
{
    if n < cs.len() {
        assert(cs.subrange(0, n + 1).drop_last() =~= cs.subrange(0, n));
        lemma_bulk_error_stays(cs, n + 1);
    } else {
        assert(cs.subrange(0, n) =~= cs);
    }
}

/// What a bulk conversion does.
pub struct BulkPlan {
    pub converted: Vec<i64>,
    pub total_exp: i64,
    pub total_items: i64,
    pub new_exp_pool: i64,
    pub new_items: i64,
}

/// Converts the duplicates of every character that has passed all its
/// over-limit steps.
pub fn bulk_stack_to_exp(candidates: &Vec<BulkCandidate>, exp_pool: i64, items: i64) -> (r: Result<
    BulkPlan,
    ExpRefusal,
>)
    ensures
        match bulk_totals(candidates@) {
            Err(e) => r matches Err(f) && f == e,
            Ok((ids, exp, gained)) => if !fits(exp_pool + exp) {
                r matches Err(f) && f == ExpRefusal::BulkPoolRange
            } else if !fits(items + gained) {
                r matches Err(f) && f == ExpRefusal::BulkItemCountRange
            } else {
                r matches Ok(plan) && plan.converted@ == ids && plan.total_exp == exp
                    && plan.total_items == gained && plan.new_exp_pool == exp_pool + exp
                    && plan.new_items == items + gained
            },
        },
{
    let mut converted: Vec<i64> = Vec::new();
    let mut total_exp: i64 = 0;
    let mut total_items: i64 = 0;
    let mut i: usize = 0;
    while i < candidates.len()
        invariant
            i <= candidates@.len(),
            bulk_totals(candidates@.subrange(0, i as int)) == Ok::<(Seq<i64>, i64, i64), ExpRefusal>(
                (converted@, total_exp, total_items),
            ),
        decreases candidates@.len() - i,
    {
        let c = candidates[i];
        proof {
            assert(candidates@.subrange(0, i + 1).drop_last() =~= candidates@.subrange(0, i as int));
            assert(candidates@.subrange(0, i + 1).last() == c);
        }
        if c.stack > 0 {
            match c.rarity {
                Some(rarity) => {
                    if c.over_limit_step >= max_over_limit_step(rarity) {
                        let (exp_per, items_per) = match stack_conversion(rarity) {
                            Ok(pair) => pair,
                            Err(_) => {
                                proof { lemma_bulk_error_stays(candidates@, i + 1); }
                                return Err(ExpRefusal::RarityInvalid);
                            },
                        };
                        let add_exp = match exp_per.checked_mul(c.stack) {
                            Some(v) => v,
                            None => {
                                proof { lemma_bulk_error_stays(candidates@, i + 1); }
                                return Err(ExpRefusal::BulkExpRange);
                            },
                        };
                        let new_exp = match total_exp.checked_add(add_exp) {
                            Some(v) => v,
                            None => {
                                proof { lemma_bulk_error_stays(candidates@, i + 1); }
                                return Err(ExpRefusal::BulkExpRange);
                            },
                        };
                        let add_items = match items_per.checked_mul(c.stack) {
                            Some(v) => v,
                            None => {
                                proof { lemma_bulk_error_stays(candidates@, i + 1); }
                                return Err(ExpRefusal::BulkItemRange);
                            },
                        };
                        let new_items = match total_items.checked_add(add_items) {
                            Some(v) => v,
                            None => {
                                proof { lemma_bulk_error_stays(candidates@, i + 1); }
                                return Err(ExpRefusal::BulkItemRange);
                            },
                        };
                        total_exp = new_exp;
                        total_items = new_items;
                        converted.push(c.character_id);
                    }
                },
                None => {},
            }
        }
        i = i + 1;
    }
    assert(candidates@.subrange(0, candidates@.len() as int) =~= candidates@);
    let new_exp_pool = match exp_pool.checked_add(total_exp) {
        Some(v) => v,
        None => return Err(ExpRefusal::BulkPoolRange),
    };
    let new_items = match items.checked_add(total_items) {
        Some(v) => v,
        None => return Err(ExpRefusal::BulkItemCountRange),
    };
    Ok(BulkPlan { converted, total_exp, total_items, new_exp_pool, new_items })
}

/// The experience that an injection moves: the size of the requested
/// amount (refused as `InvalidExp` for `i64::MIN`, which has no size in
/// `i64`).
pub fn inject_exp_amount(exp: i64) -> (r: Result<i64, ExpRefusal>)
    ensures
        r == (if exp == i64::MIN {
            Err(ExpRefusal::InvalidExp)
        } else if exp < 0 {
            Ok::<i64, ExpRefusal>(-exp as i64)
        } else {
            Ok(exp)
        }),
{
    if exp == i64::MIN {
        Err(ExpRefusal::InvalidExp)
    } else if exp < 0 {
        Ok(-exp)
    } else {
        Ok(exp)
    }
}

/// What injecting experience does: the character's experience rises by
/// `add_exp` up to its cap, and what passes the cap returns to the pool.
#[derive(Clone, Copy, Debug, PartialEq, Eq, Structural)]
pub struct InjectPlan {
    pub after_exp: i64,
    pub overflow_exp: i64,
    pub after_exp_pool: i64,
    /// The experience the character gained (what the answer reports).
    pub gained: i64,
}

/// Moves `add_exp` from the pool into a character's experience, up to the
/// cap; refused where the pool holds less than `add_exp`.
pub fn inject_exp(add_exp: i64, exp_pool: i64, current_exp: i64, exp_cap: i64) -> (r: Result<
    InjectPlan,
    ExpRefusal,
>)
    requires
        add_exp >= 0,
        exp_cap >= 0,
    ensures
        ({
            let total = current_exp + add_exp;
            let after = if total <= exp_cap {
                total
            } else {
                exp_cap as int
            };
            let over = total - after;
            if add_exp > exp_pool {
                r == Err::<InjectPlan, ExpRefusal>(ExpRefusal::NotEnoughExp)
            } else if !fits(total) {
                r == Err::<InjectPlan, ExpRefusal>(ExpRefusal::CharacterExpRange)
            } else if !fits(exp_pool - add_exp + over) {
                r == Err::<InjectPlan, ExpRefusal>(ExpRefusal::PoolRange)
            } else {
                r matches Ok(plan) && plan.after_exp == after && plan.overflow_exp == over
                    && plan.after_exp_pool == exp_pool - add_exp + over && plan.gained == (if fits(
                    after - current_exp,
                ) {
                    after - current_exp
                } else if after - current_exp > i64::MAX {
                    i64::MAX as int
                } else {
                    i64::MIN as int
                })
            }
        }),
        r matches Ok(plan) ==> plan.after_exp + plan.after_exp_pool == current_exp + exp_pool
            && (plan.after_exp <= exp_cap || plan.after_exp == current_exp + add_exp),
{
    if add_exp > exp_pool {
        return Err(ExpRefusal::NotEnoughExp);
    }
    let total = match current_exp.checked_add(add_exp) {
        Some(v) => v,
        None => return Err(ExpRefusal::CharacterExpRange),
    };
    let after = if total <= exp_cap {
        total
    } else {
        exp_cap
    };
    let over = total - after;
    let after_pool = exp_pool - add_exp;
    let after_exp_pool = match after_pool.checked_add(over) {
        Some(v) => v,
        None => return Err(ExpRefusal::PoolRange),
    };
    let gained = if current_exp >= 0 {
        after - current_exp
    } else if after > i64::MAX + current_exp {
        i64::MAX
    } else {
        after - current_exp
    };
    Ok(InjectPlan { after_exp: after, overflow_exp: over, after_exp_pool, gained })
}

/// The error code of a refusal answered to the client.
pub open spec fn exp_refusal_code(r: ExpRefusal) -> Option<Seq<char>> {
    match r {
        ExpRefusal::NotEnoughStack => Some("not_enough_stack"@),
        ExpRefusal::NotEnoughExp => Some("not_enough_exp"@),
        ExpRefusal::InvalidExp => Some("invalid_exp"@),
        _ => None,
    }
}

/// The message of an internal failure.
pub open spec fn exp_failure_message(r: ExpRefusal) -> Seq<char> {
    match r {
        ExpRefusal::StackRange => "CN character stack exceeds the supported range"@,
        ExpRefusal::RarityInvalid => "CN character rarity is invalid"@,
        ExpRefusal::ConvertedExpRange => "CN converted EXP exceeds the supported range"@,
        ExpRefusal::ConvertedItemRange => "CN converted item count exceeds the supported range"@,
        ExpRefusal::PoolRange => "CN EXP pool exceeds the supported range"@,
        ExpRefusal::ItemCountRange => "CN EXP item count exceeds the supported range"@,
        ExpRefusal::BulkExpRange => "CN bulk converted EXP exceeds range"@,
        ExpRefusal::BulkItemRange => "CN bulk converted item count exceeds range"@,
        ExpRefusal::BulkPoolRange => "CN EXP pool exceeds range"@,
        ExpRefusal::BulkItemCountRange => "CN EXP item count exceeds range"@,
        _ => "CN character EXP exceeds the supported range"@,
    }
}

/// A refusal as an answer (`Ok`) or an internal failure (`Err`).
pub fn exp_refusal_response(r: ExpRefusal) -> (out: Result<JsonResponse, ServiceError>)
    ensures
        match exp_refusal_code(r) {
            Some(code) => out matches Ok(resp) && resp.status@ == "400 Bad Request"@
                && resp.body@ == error_body(code),
            None => out matches Err(e) && e.message@ == exp_failure_message(r),
        },
{
    match r {
        ExpRefusal::NotEnoughStack => Ok(json_error("400 Bad Request", "not_enough_stack")),
        ExpRefusal::NotEnoughExp => Ok(json_error("400 Bad Request", "not_enough_exp")),
        ExpRefusal::InvalidExp => Ok(json_error("400 Bad Request", "invalid_exp")),
        ExpRefusal::StackRange => Err(ServiceError::new("CN character stack exceeds the supported range")),
        ExpRefusal::RarityInvalid => Err(ServiceError::new("CN character rarity is invalid")),
        ExpRefusal::ConvertedExpRange => Err(ServiceError::new("CN converted EXP exceeds the supported range")),
        ExpRefusal::ConvertedItemRange => Err(
            ServiceError::new("CN converted item count exceeds the supported range"),
        ),
        ExpRefusal::PoolRange => Err(ServiceError::new("CN EXP pool exceeds the supported range")),
        ExpRefusal::ItemCountRange => Err(ServiceError::new("CN EXP item count exceeds the supported range")),
        ExpRefusal::BulkExpRange => Err(ServiceError::new("CN bulk converted EXP exceeds range")),
        ExpRefusal::BulkItemRange => Err(ServiceError::new("CN bulk converted item count exceeds range")),
        ExpRefusal::BulkPoolRange => Err(ServiceError::new("CN EXP pool exceeds range")),
        ExpRefusal::BulkItemCountRange => Err(ServiceError::new("CN EXP item count exceeds range")),
        ExpRefusal::CharacterExpRange => Err(
            ServiceError::new("CN character EXP exceeds the supported range"),
        ),
    }
}

/// Whether a conversion request names a positive viewer, character and
/// number of duplicates and a non-negative api count.
pub fn stack_request_valid(viewer_id: i64, character_id: i64, api_count: i64, number: i64) -> (r: bool)
    ensures
        r == (viewer_id > 0 && character_id > 0 && api_count >= 0 && number > 0),
{
    viewer_id > 0 && character_id > 0 && api_count >= 0 && number > 0
}

/// Whether a bulk conversion or an injection names a positive viewer (and
/// character, where one is named) and a non-negative api count.
pub fn viewer_request_valid(viewer_id: i64, character_id: Option<i64>, api_count: i64) -> (r: bool)
    ensures
        r == (viewer_id > 0 && (character_id matches Some(c) ==> c > 0) && api_count >= 0),
{
    let character_ok = match character_id {
        Some(c) => c > 0,
        None => true,
    };
    viewer_id > 0 && character_ok && api_count >= 0
}

/// The endpoints of the experience service.
#[derive(Clone, Copy, Debug, PartialEq, Eq, Structural)]
pub enum ExpodEndpoint {
    StackToExp,
    BulkStackToExp,
    InjectExp,
}

/// Which endpoint a request is for; `None` where it is not one of them.
pub fn route(method: &str, path: &str) -> (r: Option<ExpodEndpoint>)
    ensures
        r == (if method@ != "POST"@ {
            None
        } else if path@ == "/api/index.php/expod/stack_to_exp"@ {
            Some(ExpodEndpoint::StackToExp)
        } else if path@ == "/api/index.php/expod/bulk_stack_to_exp"@ {
            Some(ExpodEndpoint::BulkStackToExp)
        } else if path@ == "/api/index.php/expod/inject_exp"@ {
            Some(ExpodEndpoint::InjectExp)
        } else {
            None
        }),
{
    if !str_eq(method, "POST") {
        None
    } else if str_eq(path, "/api/index.php/expod/stack_to_exp") {
        Some(ExpodEndpoint::StackToExp)
    } else if str_eq(path, "/api/index.php/expod/bulk_stack_to_exp") {
        Some(ExpodEndpoint::BulkStackToExp)
    } else if str_eq(path, "/api/index.php/expod/inject_exp") {
        Some(ExpodEndpoint::InjectExp)
    } else {
        None
    }
}

/// The JSON error answer of this service.
pub fn error_response(status: &str, code: &str) -> (r: JsonResponse)
    ensures
        r.status@ == status@,
        r.body@ == error_body(code@),
{
    json_error(status, code)
}

} // verus!
