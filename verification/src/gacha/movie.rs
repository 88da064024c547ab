//! Which draw animation a character plays and which seed the client
//! replays it with.
use vstd::prelude::*;

use crate::error::ServiceError;
use crate::random::random_bytes;
use crate::text::{decimal, decimal_string, str_eq};

verus! {

/// The seed pools, one per kind of animation.
#[derive(Clone, Copy, Debug, PartialEq, Eq, Structural)]
pub enum MoviePool {
    Normal,
    Fes,
    NormalGuarantee,
    FesGuarantee,
    Fallback,
}

/// The pool that holds the seeds of the animation `movie_id`.
pub open spec fn spec_movie_pool(movie_id: Seq<char>) -> MoviePool {
    if movie_id == "normal"@ {
        MoviePool::Normal
    } else if movie_id == "fes"@ {
        MoviePool::Fes
    } else if movie_id == "normal_guarantee"@ {
        MoviePool::NormalGuarantee
    } else if movie_id == "fes_guarantee"@ {
        MoviePool::FesGuarantee
    } else {
        MoviePool::Fallback
    }
}

/// The pool that holds the seeds of the animation `movie_id`.
pub fn movie_pool(movie_id: &str) -> (pool: MoviePool)
    ensures
        pool == spec_movie_pool(movie_id@),
{
    if str_eq(movie_id, "normal") {
        MoviePool::Normal
    } else if str_eq(movie_id, "fes") {
        MoviePool::Fes
    } else if str_eq(movie_id, "normal_guarantee") {
        MoviePool::NormalGuarantee
    } else if str_eq(movie_id, "fes_guarantee") {
        MoviePool::FesGuarantee
    } else {
        MoviePool::Fallback
    }
}

/// The key under which a pool files the seeds of characters of `rarity`:
/// rarity 5 is filed under "1", rarity 1 under "5".
pub fn rarity_key(rarity: i64) -> (key: String)
    requires
        6 - rarity <= i64::MAX,
    ensures
        key@ == decimal(6 - rarity),
{
    decimal_string(6 - rarity)
}

/// Whether a character of `rarity` may play the guarantee animation, which
/// a weighted roll then decides.
pub open spec fn spec_rolls_for_guarantee_movie(rarity: i64) -> bool {
    rarity == 4 || rarity == 5
}

/// Whether a character of `rarity` may play the guarantee animation.
pub fn rolls_for_guarantee_movie(rarity: i64) -> (r: bool)
    ensures
        r == spec_rolls_for_guarantee_movie(rarity),
{
    rarity == 4 || rarity == 5
}

/// The animation a drawn character plays: the gacha's guarantee animation
/// where the character may play it and the roll chose it, else the gacha's
/// usual one; each falls back to its standard name where the gacha names
/// none.
pub open spec fn spec_draw_movie_id(
    rarity: i64,
    guarantee_rolled: bool,
    movie_name: Option<Seq<char>>,
    guarantee_movie_name: Option<Seq<char>>,
) -> Seq<char> {
    if spec_rolls_for_guarantee_movie(rarity) && guarantee_rolled {
        match guarantee_movie_name {
            Some(name) => name,
            None => "normal_guarantee"@,
        }
    } else {
        match movie_name {
            Some(name) => name,
            None => "normal"@,
        }
    }
}

/// Only a 4- or 5-star character whose roll chose it plays the guarantee
/// animation; every other character plays the gacha's usual animation,
/// whatever the roll; and a named animation is always the one played.
pub proof fn lemma_guarantee_movie_only_for_high_rarity(
    rarity: i64,
    guarantee_rolled: bool,
    movie_name: Option<Seq<char>>,
    guarantee_movie_name: Option<Seq<char>>,
)
    ensures
        !(rarity == 4 || rarity == 5) || !guarantee_rolled ==> spec_draw_movie_id(
            rarity,
            guarantee_rolled,
            movie_name,
            guarantee_movie_name,
        ) == match movie_name {
            Some(name) => name,
            None => "normal"@,
        },
        (rarity == 4 || rarity == 5) && guarantee_rolled ==> spec_draw_movie_id(
            rarity,
            guarantee_rolled,
            movie_name,
            guarantee_movie_name,
        ) == match guarantee_movie_name {
            Some(name) => name,
            None => "normal_guarantee"@,
        },
{
}

/// The view of an optional name.
pub open spec fn opt_view(name: Option<&str>) -> Option<Seq<char>> {
    match name {
        Some(s) => Some(s@),
        None => None,
    }
}

/// The animation a drawn character of `rarity` plays. `guarantee_rolled`
/// is the outcome of the weighted roll, which only counts where
/// `rolls_for_guarantee_movie(rarity)` holds.
pub fn draw_movie_id(
    rarity: i64,
    guarantee_rolled: bool,
    movie_name: Option<&str>,
    guarantee_movie_name: Option<&str>,
) -> (movie_id: String)
    ensures
        movie_id@ == spec_draw_movie_id(
            rarity,
            guarantee_rolled,
            opt_view(movie_name),
            opt_view(guarantee_movie_name),
        ),
{
    if rolls_for_guarantee_movie(rarity) && guarantee_rolled {
        match guarantee_movie_name {
            Some(name) => name.to_owned(),
            None => "normal_guarantee".to_owned(),
        }
    } else {
        match movie_name {
            Some(name) => name.to_owned(),
            None => "normal".to_owned(),
        }
    }
}

/// The little-endian value of a byte string.
pub open spec fn le_value(bytes: Seq<u8>) -> nat
    decreases bytes.len(),
{
    if bytes.len() == 0 {
        0
    } else {
        (bytes[0] as nat) + 256 * le_value(bytes.subrange(1, bytes.len() as int))
    }
}

/// `256` to the power `k`.
pub open spec fn pow256(k: nat) -> nat
    decreases k,
{
    if k == 0 {
        1
    } else {
        256 * pow256((k - 1) as nat)
    }
}

/// The little-endian `u64` of eight bytes.
pub fn u64_from_le_bytes(bytes: &[u8]) -> (r: u64)
    requires
        bytes@.len() == 8,
    ensures
        r == le_value(bytes@),
{
    let mut r: u64 = 0;
    let mut i: usize = 8;
    proof {
        assert(bytes@.subrange(8, 8) =~= Seq::<u8>::empty());
        reveal_with_fuel(pow256, 9);
        assert(pow256(8) == 0x1_0000_0000_0000_0000);
    }
    while i > 0
        invariant
            i <= 8,
            bytes@.len() == 8,
            r == le_value(bytes@.subrange(i as int, 8)),
            r < pow256((8 - i) as nat),
            pow256(8) == 0x1_0000_0000_0000_0000,
        decreases i,
    {
        let ghost k: nat = (8 - i) as nat;
        proof {
            let tail = bytes@.subrange(i - 1, 8);
            assert(tail.subrange(1, tail.len() as int) =~= bytes@.subrange(i as int, 8));
            lemma_pow256_monotonic((k + 1) as nat, 8);
            let b = bytes@[i - 1] as int;
            let p = pow256(k) as int;
            assert(r * 256 + b < p * 256) by (nonlinear_arith)
                requires
                    r < p,
                    0 <= b < 256,
            ;
        }
        r = r * 256 + bytes[i - 1] as u64;
        i = i - 1;
    }
    assert(bytes@.subrange(0, 8) =~= bytes@);
    r
}

/// A larger exponent gives a power no smaller.
proof fn lemma_pow256_monotonic(a: nat, b: nat)
    requires
        a <= b,
    ensures
        pow256(a) <= pow256(b),
    decreases b,
{
    if a < b {
        lemma_pow256_monotonic(a, (b - 1) as nat);
    }
}

/// The seed a draw of `draw` picks from a non-empty pool: the entry at
/// `draw` modulo the pool's size, which must be an integer.
pub fn seed_at_draw(seeds: &Vec<Option<i64>>, draw: u64) -> (r: Result<i64, ServiceError>)
    requires
        seeds@.len() > 0,
    ensures
        match seeds@[(draw % (seeds@.len() as u64)) as int] {
            Some(seed) => r matches Ok(s) && s == seed,
            None => r matches Err(e) && e.message@ == "CN gacha movie seed is invalid"@,
        },
{
    let index = (draw % (seeds.len() as u64)) as usize;
    match seeds[index] {
        Some(seed) => Ok(seed),
        None => Err(ServiceError::new("CN gacha movie seed is invalid")),
    }
}

/// The seed a character replays where its animation has no pool of its own
/// or its pool is empty.
pub open spec fn default_seed(character_id: i64) -> int {
    character_id * 1000
}

/// The seed the client replays the animation `movie_id` of `character_id`
/// with. `seeds` is the pool of that animation for the character's rarity
/// (`movie_pool`, `rarity_key`). The guarantee animation of rarity 5 and an
/// empty pool give the character's own seed; otherwise a random entry of
/// the pool is taken.
pub fn movie_seed(character_id: i64, movie_id: &str, seeds: &Vec<Option<i64>>) -> (r: Result<
    i64,
    ServiceError,
>)
    requires
        i64::MIN <= default_seed(character_id) <= i64::MAX,
    ensures
        movie_id@ == "rarity_5_guarantee"@ || seeds@.len() == 0 ==> (r matches Ok(seed)
            && seed == default_seed(character_id)),
        !(movie_id@ == "rarity_5_guarantee"@ || seeds@.len() == 0) ==> match r {
            Ok(seed) => exists|i: int| 0 <= i < seeds@.len() && seeds@[i] == Some(seed),
            Err(e) => e.message@ == "failed to select CN gacha movie seed"@ || (e.message@
                == "CN gacha movie seed is invalid"@ && exists|i: int|
                0 <= i < seeds@.len() && seeds@[i] is None),
        },
{
    if str_eq(movie_id, "rarity_5_guarantee") || seeds.len() == 0 {
        return Ok(character_id * 1000);
    }
    match random_bytes(8) {
        Ok(bytes) => {
            let draw = u64_from_le_bytes(bytes.as_slice());
            let r = seed_at_draw(seeds, draw);
            proof {
                let i = (draw % (seeds@.len() as u64)) as int;
                assert(0 <= i < seeds@.len());
            }
            r
        },
        Err(_) => Err(ServiceError::new("failed to select CN gacha movie seed")),
    }
}

} // verus!
