//! What a login does to the stored player: stamina catches up, a new day
//! refills the boost points, and pooled experience grows with the time
//! since it was last pooled.
use vstd::prelude::*;
use vstd::utf8::{encode_utf8, encode_utf8_valid_utf8, is_char_boundary};
use crate::error::ServiceError;

pub mod challenge;
pub mod quest;

verus! {

/// The most pooled experience one login adds.
pub const EXP_POOL_INCREMENT_LIMIT: i64 = 100_000;

/// The boost points a new day refills.
pub const DAILY_BOOST_POINTS: i64 = 3;

/// The date part of a time text: its first ten bytes, where they end on a
/// character boundary (`None` otherwise, as `str::get(..10)` gives).
pub open spec fn date_prefix(s: Seq<char>) -> Option<Seq<u8>> {
    if is_char_boundary(encode_utf8(s), 10) {
        Some(encode_utf8(s).subrange(0, 10))
    } else {
        None
    }
}

/// Whether two time texts fall on different days.
pub open spec fn spec_is_new_day(last_login_time: Seq<char>, client_time: Seq<char>) -> bool {
    date_prefix(last_login_time) != date_prefix(client_time)
}

/// A character boundary past the start lies within the text.
proof fn lemma_boundary_within(s: Seq<char>)
    ensures
        is_char_boundary(encode_utf8(s), 10) ==> 10 <= encode_utf8(s).len(),
{
    encode_utf8_valid_utf8(s);
}

/// The date part of a time text.
fn date_part(s: &str) -> (r: Option<&[u8]>)
    ensures
        match date_prefix(s@) {
            Some(p) => r matches Some(b) && b@ == p,
            None => r is None,
        },
{
    proof {
        lemma_boundary_within(s@);
    }
    if s.is_char_boundary(10) {
        let bytes = s.as_bytes();
        let (head, _) = bytes.split_at(10);
        assert(head@ =~= encode_utf8(s@).subrange(0, 10));
        Some(head)
    } else {
        None
    }
}

/// Whether two byte sequences are equal.
fn bytes_eq(a: &[u8], b: &[u8]) -> (r: bool)
    ensures
        r == (a@ == b@),
{
    if a.len() != b.len() {
        return false;
    }
    let mut i: usize = 0;
    while i < a.len()
        invariant
            a@.len() == b@.len(),
            i <= a@.len(),
            forall|j: int| 0 <= j < i ==> a@[j] == b@[j],
        decreases a@.len() - i,
    {
        if a[i] != b[i] {
            return false;
        }
        i = i + 1;
    }
    assert(a@ =~= b@);
    true
}

/// Whether a login at `client_time` starts a new day after the last one.
pub fn is_new_day(last_login_time: &str, client_time: &str) -> (r: bool)
    ensures
        r == spec_is_new_day(last_login_time@, client_time@),
{
    match (date_part(last_login_time), date_part(client_time)) {
        (Some(a), Some(b)) => !bytes_eq(a, b),
        (None, None) => false,
        _ => true,
    }
}

/// What a login changes: the stamina where the projection differs from the
/// stored value (healed at the server time), whether a new day began (the
/// boost points refill), and the pooled experience where a minute or more
/// has passed since it was last pooled (pooled again at the server time).
#[derive(Clone, Copy, Debug, PartialEq, Eq, Structural)]
pub struct LoginUpdate {
    pub stamina: Option<i64>,
    pub is_new_day: bool,
    pub exp_pool: Option<i64>,
}

/// The experience pooled since the last pooling: one per full minute,
/// at most `EXP_POOL_INCREMENT_LIMIT`.
pub open spec fn pool_increment(server_time: i64, pooled_time: i64) -> int {
    let diff = server_time - pooled_time;
    let elapsed = if diff > i64::MAX {
        i64::MAX as int
    } else if diff < 0 {
        0
    } else {
        diff
    };
    if elapsed / 60 < EXP_POOL_INCREMENT_LIMIT {
        elapsed / 60
    } else {
        EXP_POOL_INCREMENT_LIMIT as int
    }
}

/// What logging in changes, or the message of the stored value that is
/// missing or out of range.
pub open spec fn spec_login_update(
    stored_stamina: Option<i64>,
    projected_stamina: i64,
    last_login_time: Option<Seq<char>>,
    exp_pooled_time: Option<i64>,
    exp_pool: Option<i64>,
    server_time: i64,
    client_time: Seq<char>,
) -> Result<LoginUpdate, Seq<char>> {
    match stored_stamina {
        None => Err("stored CN stamina is missing"@),
        Some(stamina) => match last_login_time {
            None => Err("stored CN login time is missing"@),
            Some(last) => match exp_pooled_time {
                None => Err("stored CN pooled EXP time is missing"@),
                Some(pooled) => {
                    let stamina_update = if projected_stamina != stamina {
                        Some(projected_stamina)
                    } else {
                        None
                    };
                    let new_day = spec_is_new_day(last, client_time);
                    if server_time - pooled >= 60 {
                        match exp_pool {
                            None => Err("stored CN pooled EXP is missing"@),
                            Some(pool) => if pool + pool_increment(server_time, pooled) > i64::MAX {
                                Err("stored CN pooled EXP exceeds the supported range"@)
                            } else {
                                Ok(
                                    LoginUpdate {
                                        stamina: stamina_update,
                                        is_new_day: new_day,
                                        exp_pool: Some(
                                            (pool + pool_increment(server_time, pooled)) as i64,
                                        ),
                                    },
                                )
                            },
                        }
                    } else {
                        Ok(LoginUpdate { stamina: stamina_update, is_new_day: new_day, exp_pool: None })
                    }
                },
            },
        },
    }
}

/// What logging in changes, from the stored stamina, login time, pooling
/// time and pooled experience, the stamina projected for now, and the
/// server and client times. Each stored value is required where it is
/// read; pooled experience is read only when a minute has passed.
pub fn login_update(
    stored_stamina: Option<i64>,
    projected_stamina: i64,
    last_login_time: Option<&str>,
    exp_pooled_time: Option<i64>,
    exp_pool: Option<i64>,
    server_time: i64,
    client_time: &str,
) -> (r: Result<LoginUpdate, ServiceError>)
    ensures
        match spec_login_update(
            stored_stamina,
            projected_stamina,
            match last_login_time {
                Some(t) => Some(t@),
                None => None,
            },
            exp_pooled_time,
            exp_pool,
            server_time,
            client_time@,
        ) {
            Ok(u) => r matches Ok(v) && v == u,
            Err(m) => r matches Err(e) && e.message@ == m,
        },
{
    let stamina = match stored_stamina {
        Some(s) => s,
        None => return Err(ServiceError::new("stored CN stamina is missing")),
    };
    let stamina_update = if projected_stamina != stamina {
        Some(projected_stamina)
    } else {
        None
    };
    let last = match last_login_time {
        Some(t) => t,
        None => return Err(ServiceError::new("stored CN login time is missing")),
    };
    let new_day = is_new_day(last, client_time);
    let pooled_time = match exp_pooled_time {
        Some(p) => p,
        None => return Err(ServiceError::new("stored CN pooled EXP time is missing")),
    };
    let elapsed: i64 = if pooled_time < 0 && server_time > i64::MAX + pooled_time {
        i64::MAX
    } else if pooled_time > 0 && server_time < i64::MIN + pooled_time {
        0
    } else if server_time - pooled_time < 0 {
        0
    } else {
        server_time - pooled_time
    };
    let exp_update = if elapsed >= 60 {
        let pool = match exp_pool {
            Some(e) => e,
            None => return Err(ServiceError::new("stored CN pooled EXP is missing")),
        };
        let increment = if elapsed / 60 < EXP_POOL_INCREMENT_LIMIT {
            elapsed / 60
        } else {
            EXP_POOL_INCREMENT_LIMIT
        };
        match pool.checked_add(increment) {
            Some(v) => Some(v),
            None => return Err(ServiceError::new("stored CN pooled EXP exceeds the supported range")),
        }
    } else {
        None
    };
    Ok(LoginUpdate { stamina: stamina_update, is_new_day: new_day, exp_pool: exp_update })
}

} // verus!
