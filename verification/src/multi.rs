//! The rules of multiplayer rooms: which requests are well formed, which
//! room a request names, who may enter a lobby or a battle, and what a
//! finished battle reports.
use vstd::prelude::*;
use crate::error::ServiceError;
use crate::http::JsonResponse;
use crate::multiplayer::{
    is_connection_id, is_room_number, spec_is_connection_id, spec_is_room_number,
};
use crate::text::{append_json_string, digit_char, json_escaped, str_eq};

pub mod room;

verus! {

/// The body `{"error":"Bad Request","message":"<message>"}`, the message
/// escaped as a JSON string.
pub open spec fn bad_request_body(message: Seq<char>) -> Seq<char> {
    "{\"error\":\"Bad Request\",\"message\":\""@ + json_escaped(message) + "\"}"@
}

/// The answer to a malformed request.
pub fn bad_request(message: &str) -> (r: JsonResponse)
    ensures
        r.status@ == "400 Bad Request"@,
        r.body@ == bad_request_body(message@),
{
    let mut body = String::from_str("{\"error\":\"Bad Request\",\"message\":\"");
    append_json_string(&mut body, message);
    body.append("\"}");
    JsonResponse { status: "400 Bad Request".to_owned(), body }
}

/// Which room a request names: a room number comes first, then an access
/// token.
#[derive(Debug)]
pub enum RoomLookup {
    ByNumber(String),
    ByToken(String),
    Nothing,
}

/// The room lookup that a request's room number and access token ask for.
pub fn resolve_room(room_number: Option<String>, access_token: Option<String>) -> (r: RoomLookup)
    ensures
        match room_number {
            Some(n) => r matches RoomLookup::ByNumber(m) && m@ == n@,
            None => match access_token {
                Some(t) => r matches RoomLookup::ByToken(u) && u@ == t@,
                None => r is Nothing,
            },
        },
{
    match room_number {
        Some(n) => RoomLookup::ByNumber(n),
        None => match access_token {
            Some(t) => RoomLookup::ByToken(t),
            None => RoomLookup::Nothing,
        },
    }
}

/// The room lookup of a room selection; a room number that is not six
/// digits is refused.
pub fn select_room_lookup(room_number: Option<String>, access_token: Option<String>) -> (r: Option<
    RoomLookup,
>)
    ensures
        match room_number {
            Some(n) => if spec_is_room_number(n@) {
                r matches Some(RoomLookup::ByNumber(m)) && m@ == n@
            } else {
                r is None
            },
            None => match access_token {
                Some(t) => r matches Some(RoomLookup::ByToken(u)) && u@ == t@,
                None => r matches Some(RoomLookup::Nothing),
            },
        },
{
    match room_number {
        Some(n) => if is_room_number(n.as_str()) {
            Some(RoomLookup::ByNumber(n))
        } else {
            None
        },
        None => match access_token {
            Some(t) => Some(RoomLookup::ByToken(t)),
            None => Some(RoomLookup::Nothing),
        },
    }
}

/// Whether a room selection names a positive viewer, category, quest and
/// party.
pub fn select_room_request_valid(viewer_id: i64, category: i64, quest_id: i64, party_id: i64) -> (r:
    bool)
    ensures
        r == (viewer_id > 0 && category > 0 && quest_id > 0 && party_id > 0),
{
    viewer_id > 0 && category > 0 && quest_id > 0 && party_id > 0
}

/// Whether a room preparation names a positive viewer, category and quest.
pub fn prepare_request_valid(viewer_id: i64, category: i64, quest_id: i64) -> (r: bool)
    ensures
        r == (viewer_id > 0 && category > 0 && quest_id > 0),
{
    viewer_id > 0 && category > 0 && quest_id > 0
}

/// The six-digit decimal form of `n`, with leading zeros.
pub open spec fn six_digits(n: int) -> Seq<char> {
    seq![
        digit_char(n / 100000 % 10),
        digit_char(n / 10000 % 10),
        digit_char(n / 1000 % 10),
        digit_char(n / 100 % 10),
        digit_char(n / 10 % 10),
        digit_char(n % 10),
    ]
}

/// The lounge number of a viewer: the viewer id modulo one million, as six
/// digits.
pub fn lounge_number(viewer_id: i64) -> (r: String)
    ensures
        r@ == six_digits(viewer_id as int % 1_000_000),
        spec_is_room_number(r@),
{
    let m = viewer_id % 1_000_000;
    let n: i64 = if m < 0 { m + 1_000_000 } else { m };
    assert(n == viewer_id as int % 1_000_000);
    let mut out = String::new();
    let mut divisor: i64 = 100_000;
    let mut k: usize = 0;
    while k < 6
        invariant
            0 <= n < 1_000_000,
            k <= 6,
            divisor as int == (if k == 0 {
                100000int
            } else if k == 1 {
                10000int
            } else if k == 2 {
                1000int
            } else if k == 3 {
                100int
            } else if k == 4 {
                10int
            } else if k == 5 {
                1int
            } else {
                0int
            }),
            out@ == six_digits(n as int).subrange(0, k as int),
        decreases 6 - k,
    {
        let d = (n / divisor) % 10;
        out.append(crate::text::digit_str(d as u64));
        proof {
            assert(six_digits(n as int).subrange(0, k + 1) =~= six_digits(n as int).subrange(
                0,
                k as int,
            ).push(digit_char(d as int)));
        }
        divisor = divisor / 10;
        k = k + 1;
    }
    assert(six_digits(n as int).subrange(0, 6) =~= six_digits(n as int));
    assert forall|i: int| 0 <= i < 6 implies '0' <= #[trigger] out@[i] <= '9' by {
        lemma_digit_char_range(n as int / 100000 % 10);
        lemma_digit_char_range(n as int / 10000 % 10);
        lemma_digit_char_range(n as int / 1000 % 10);
        lemma_digit_char_range(n as int / 100 % 10);
        lemma_digit_char_range(n as int / 10 % 10);
        lemma_digit_char_range(n as int % 10);
    }
    out
}

proof fn lemma_digit_char_range(d: int)
    requires
        0 <= d < 10,
    ensures
        '0' <= digit_char(d) <= '9',
{
}

/// Whether a battle start names a positive viewer, category, quest and
/// party, a non-negative api count where given, a play id and a room
/// number.
pub fn start_request_valid(
    viewer_id: i64,
    api_count: Option<i64>,
    category: i64,
    quest_id: i64,
    party_id: i64,
    play_id: &str,
    room_number: &str,
) -> (r: bool)
    ensures
        r == (viewer_id > 0 && (api_count matches Some(a) ==> a >= 0) && category > 0 && quest_id
            > 0 && party_id > 0 && play_id@.len() > 0 && spec_is_room_number(room_number@)),
{
    let api_ok = match api_count {
        Some(a) => a >= 0,
        None => true,
    };
    viewer_id > 0 && api_ok && category > 0 && quest_id > 0 && party_id > 0
        && play_id.unicode_len() > 0 && is_room_number(room_number)
}

/// Whether a battle finish names a positive viewer, category and quest, a
/// non-negative api count where given, and a play id.
pub fn finish_request_valid(
    viewer_id: i64,
    api_count: Option<i64>,
    category: i64,
    quest_id: i64,
    play_id: &str,
) -> (r: bool)
    ensures
        r == (viewer_id > 0 && (api_count matches Some(a) ==> a >= 0) && category > 0 && quest_id
            > 0 && play_id@.len() > 0),
{
    let api_ok = match api_count {
        Some(a) => a >= 0,
        None => true,
    };
    viewer_id > 0 && api_ok && category > 0 && quest_id > 0 && play_id.unicode_len() > 0
}

/// Whether a continue request names a positive viewer, and a non-negative
/// api count and retry count where given.
pub fn continue_request_valid(viewer_id: i64, api_count: Option<i64>, retry_count: Option<i64>) -> (r: bool)
    ensures
        r == (viewer_id > 0 && (api_count matches Some(a) ==> a >= 0) && (retry_count matches Some(c)
            ==> c >= 0)),
{
    let api_ok = match api_count {
        Some(a) => a >= 0,
        None => true,
    };
    let retry_ok = match retry_count {
        Some(c) => c >= 0,
        None => true,
    };
    viewer_id > 0 && api_ok && retry_ok
}

/// Whether a battle abort names a positive viewer, a non-negative api
/// count, category and quest where given (the last two positive), and a
/// play id.
pub fn abort_request_valid(
    viewer_id: i64,
    api_count: Option<i64>,
    category: Option<i64>,
    quest_id: Option<i64>,
    play_id: &str,
) -> (r: bool)
    ensures
        r == (viewer_id > 0 && (api_count matches Some(a) ==> a >= 0) && (category matches Some(c)
            ==> c > 0) && (quest_id matches Some(q) ==> q > 0) && play_id@.len() > 0),
{
    let api_ok = match api_count {
        Some(a) => a >= 0,
        None => true,
    };
    let category_ok = match category {
        Some(c) => c > 0,
        None => true,
    };
    let quest_ok = match quest_id {
        Some(q) => q > 0,
        None => true,
    };
    viewer_id > 0 && api_ok && category_ok && quest_ok && play_id.unicode_len() > 0
}

/// What a room holds that the rules read.
#[derive(Clone, Copy, Debug, PartialEq, Eq, Structural)]
pub struct RoomFacts {
    pub category_id: i64,
    pub quest_id: i64,
    pub host_viewer_id: i64,
    pub host_party_id: i64,
    pub host_account_id: i64,
    pub raising_state: i64,
    pub battle_started: bool,
    pub lobby_started: bool,
}

/// What a room member holds that the rules read.
#[derive(Clone, Copy, Debug, PartialEq, Eq, Structural)]
pub struct MemberFacts {
    pub account_id: i64,
    pub viewer_id: i64,
    pub party_id: i64,
    pub entered: bool,
}

/// Why a battle cannot start for a member.
#[derive(Clone, Copy, Debug, PartialEq, Eq, Structural)]
pub enum StartRefusal {
    /// 403: the viewer is not this account's member of the room.
    RoomAccessDenied,
    /// 409: the member entered with another party.
    PartyMismatch,
    /// 409: the room is for another quest.
    RoomMismatch,
}

/// Checks that the viewer's account is a member of the room with the
/// party and for the quest of the request.
pub fn check_battle_start(
    room: RoomFacts,
    member: Option<MemberFacts>,
    account_id: i64,
    party_id: i64,
    category: i64,
    quest_id: i64,
) -> (r: Result<(), StartRefusal>)
    ensures
        r == (if !(member matches Some(m) && m.account_id == account_id) {
            Err(StartRefusal::RoomAccessDenied)
        } else if member->0.party_id != party_id {
            Err(StartRefusal::PartyMismatch)
        } else if room.category_id != category || room.quest_id != quest_id {
            Err(StartRefusal::RoomMismatch)
        } else {
            Ok(())
        }),
{
    match member {
        Some(m) => {
            if m.account_id != account_id {
                Err(StartRefusal::RoomAccessDenied)
            } else if m.party_id != party_id {
                Err(StartRefusal::PartyMismatch)
            } else if room.category_id != category || room.quest_id != quest_id {
                Err(StartRefusal::RoomMismatch)
            } else {
                Ok(())
            }
        },
        None => Err(StartRefusal::RoomAccessDenied),
    }
}

/// The raising state that a room shows to a viewer: 4 once the battle has
/// started, 1 for the host, else the room's state where the host has
/// entered and 2 where not.
pub fn connection_raising_state(room: RoomFacts, viewer_id: i64, host_member: Option<MemberFacts>) -> (r:
    i64)
    ensures
        r == (if room.battle_started || room.raising_state == 4 {
            4
        } else if viewer_id == room.host_viewer_id {
            1
        } else if host_member matches Some(m) && m.entered {
            room.raising_state
        } else {
            2
        }),
{
    if room.battle_started || room.raising_state == 4 {
        4
    } else if viewer_id == room.host_viewer_id {
        1
    } else {
        match host_member {
            Some(m) => if m.entered {
                room.raising_state
            } else {
                2
            },
            None => 2,
        }
    }
}

/// The quest a player is playing alone or in a room.
#[derive(Clone, Copy, Debug, PartialEq, Eq, Structural)]
pub struct ActiveQuest {
    pub category: i64,
    pub quest_id: i64,
}

/// What an abort does with the active quest: answer at once where there
/// is none, refuse where it is another play, or abort it.
#[derive(Clone, Copy, Debug, PartialEq, Eq, Structural)]
pub enum AbortDecision {
    NothingActive,
    IdentityMismatch,
    Abort(ActiveQuest),
}

/// Decides an abort from the active quest (with whether its play id is the
/// one aborted) and the category and quest that the request names.
pub fn abort_decision(
    active: Option<ActiveQuest>,
    same_play: bool,
    category: Option<i64>,
    quest_id: Option<i64>,
) -> (r: AbortDecision)
    ensures
        r == match active {
            None => AbortDecision::NothingActive,
            Some(a) => if same_play && (category matches Some(c) ==> c == a.category) && (
            quest_id matches Some(q) ==> q == a.quest_id) {
                AbortDecision::Abort(a)
            } else {
                AbortDecision::IdentityMismatch
            },
        },
{
    match active {
        None => AbortDecision::NothingActive,
        Some(a) => {
            let category_ok = match category {
                Some(c) => c == a.category,
                None => true,
            };
            let quest_ok = match quest_id {
                Some(q) => q == a.quest_id,
                None => true,
            };
            if same_play && category_ok && quest_ok {
                AbortDecision::Abort(a)
            } else {
                AbortDecision::IdentityMismatch
            }
        },
    }
}

/// The characters of a finished battle: the positive ids of the main and
/// then the unison characters, each once, in order.
pub open spec fn collect_ids(acc: Seq<i64>, ids: Seq<Option<i64>>) -> Seq<i64>
    decreases ids.len(),
{
    if ids.len() == 0 {
        acc
    } else {
        let before = collect_ids(acc, ids.drop_last());
        match ids.last() {
            Some(id) => if id > 0 && !before.contains(id) {
                before.push(id)
            } else {
                before
            },
            None => before,
        }
    }
}

/// Whether no id occurs twice.
pub open spec fn distinct_ids(s: Seq<i64>) -> bool {
    forall|i: int, j: int| 0 <= i < j < s.len() ==> s[i] != s[j]
}

fn append_new_ids(acc: &mut Vec<i64>, ids: &Vec<Option<i64>>)
    ensures
        final(acc)@ == collect_ids(old(acc)@, ids@),
{
    let ghost start = acc@;
    let mut i: usize = 0;
    while i < ids.len()
        invariant
            start == old(acc)@,
            i <= ids@.len(),
            acc@ == collect_ids(start, ids@.subrange(0, i as int)),
        decreases ids@.len() - i,
    {
        proof {
            assert(ids@.subrange(0, i + 1).drop_last() =~= ids@.subrange(0, i as int));
            assert(ids@.subrange(0, i + 1).last() == ids@[i as int]);
        }
        match ids[i] {
            Some(id) => {
                if id > 0 {
                    let mut found = false;
                    let mut k: usize = 0;
                    while k < acc.len()
                        invariant
                            k <= acc@.len(),
                            found == exists|m: int| 0 <= m < k && acc@[m] == id,
                        decreases acc@.len() - k,
                    {
                        if acc[k] == id {
                            found = true;
                        }
                        k = k + 1;
                    }
                    if !found {
                        acc.push(id);
                    }
                }
            },
            None => {},
        }
        i = i + 1;
    }
    assert(ids@.subrange(0, ids@.len() as int) =~= ids@);
}

/// The characters of a finished battle.
pub fn battle_character_ids(main: &Vec<Option<i64>>, unison: &Vec<Option<i64>>) -> (r: Vec<i64>)
    ensures
        r@ == collect_ids(collect_ids(seq![], main@), unison@),
{
    let mut out: Vec<i64> = Vec::new();
    append_new_ids(&mut out, main);
    append_new_ids(&mut out, unison);
    out
}

/// Collecting keeps ids distinct and positive where they were.
pub proof fn lemma_collect_ids_distinct(acc: Seq<i64>, ids: Seq<Option<i64>>)
    requires
        distinct_ids(acc),
        forall|i: int| 0 <= i < acc.len() ==> #[trigger] acc[i] > 0,
    ensures
        distinct_ids(collect_ids(acc, ids)),
        forall|i: int| 0 <= i < collect_ids(acc, ids).len() ==> #[trigger] collect_ids(acc, ids)[i] > 0,
    decreases ids.len(),
{
    if ids.len() > 0 {
        lemma_collect_ids_distinct(acc, ids.drop_last());
    }
}

/// The characters of a finished battle are positive and each listed once.
pub proof fn lemma_battle_character_ids_distinct(main: Seq<Option<i64>>, unison: Seq<Option<i64>>)
    ensures
        distinct_ids(collect_ids(collect_ids(seq![], main), unison)),
        forall|i: int|
            0 <= i < collect_ids(collect_ids(seq![], main), unison).len() ==> #[trigger] collect_ids(
                collect_ids(seq![], main),
                unison,
            )[i] > 0,
{
    lemma_collect_ids_distinct(seq![], main);
    lemma_collect_ids_distinct(collect_ids(seq![], main), unison);
}

/// The actions counted in one zone of a battle.
#[derive(Clone, Copy, Debug, PartialEq, Eq, Structural)]
pub struct ZoneCounts {
    pub use_power_flip_count: i64,
    pub use_dash_count: i64,
    pub use_skill_count: i64,
}

/// A count, negative ones taken as zero.
pub open spec fn non_negative(n: i64) -> int {
    if n > 0 {
        n as int
    } else {
        0
    }
}

/// The power flips, dashes and skills of all zones, negative counts taken
/// as zero; `None` where a sum leaves `i64`.
pub open spec fn zone_totals(zones: Seq<ZoneCounts>) -> Option<(i64, i64, i64)>
    decreases zones.len(),
{
    if zones.len() == 0 {
        Some((0, 0, 0))
    } else {
        match zone_totals(zones.drop_last()) {
            None => None,
            Some((p, d, s)) => {
                let z = zones.last();
                let p2 = p + non_negative(z.use_power_flip_count);
                let d2 = d + non_negative(z.use_dash_count);
                let s2 = s + non_negative(z.use_skill_count);
                if p2 > i64::MAX || d2 > i64::MAX || s2 > i64::MAX {
                    None
                } else {
                    Some((p2 as i64, d2 as i64, s2 as i64))
                }
            },
        }
    }
}

/// The sum over the zones of one count, negative counts taken as zero.
pub open spec fn field_total(zones: Seq<ZoneCounts>, field: spec_fn(ZoneCounts) -> i64) -> int
    decreases zones.len(),
{
    if zones.len() == 0 {
        0
    } else {
        field_total(zones.drop_last(), field) + non_negative(field(zones.last()))
    }
}

/// The power flips of a zone.
pub open spec fn power_flips() -> spec_fn(ZoneCounts) -> i64 {
    |z: ZoneCounts| z.use_power_flip_count
}

/// The dashes of a zone.
pub open spec fn dashes() -> spec_fn(ZoneCounts) -> i64 {
    |z: ZoneCounts| z.use_dash_count
}

/// The skills of a zone.
pub open spec fn skills() -> spec_fn(ZoneCounts) -> i64 {
    |z: ZoneCounts| z.use_skill_count
}

/// A sum of counts taken as non-negative never falls as zones are added.
proof fn lemma_field_total_grows(zones: Seq<ZoneCounts>, field: spec_fn(ZoneCounts) -> i64)
    ensures
        0 <= field_total(zones, field),
        zones.len() > 0 ==> field_total(zones.drop_last(), field) <= field_total(zones, field),
    decreases zones.len(),
{
    if zones.len() > 0 {
        lemma_field_total_grows(zones.drop_last(), field);
    }
}

/// Each total of a battle is the sum of its own count over the zones
/// (power flips from power flips, dashes from dashes, skills from skills,
/// negative counts taken as zero), and the totals are given exactly when
/// all three sums fit in `i64`.
pub proof fn lemma_zone_totals_sum_each_count(zones: Seq<ZoneCounts>)
    ensures
        zone_totals(zones) == if field_total(zones, power_flips()) <= i64::MAX && field_total(
            zones,
            dashes(),
        ) <= i64::MAX && field_total(zones, skills()) <= i64::MAX {
            Some(
                (
                    field_total(zones, power_flips()) as i64,
                    field_total(zones, dashes()) as i64,
                    field_total(zones, skills()) as i64,
                ),
            )
        } else {
            None
        },
    decreases zones.len(),
{
    lemma_field_total_grows(zones, power_flips());
    lemma_field_total_grows(zones, dashes());
    lemma_field_total_grows(zones, skills());
    if zones.len() > 0 {
        lemma_zone_totals_sum_each_count(zones.drop_last());
    }
}

/// Totals the actions of a battle's zones.
pub fn zone_action_counts(zones: &Vec<ZoneCounts>) -> (r: Option<(i64, i64, i64)>)
    ensures
        r == zone_totals(zones@),
{
    let mut p: i64 = 0;
    let mut d: i64 = 0;
    let mut s: i64 = 0;
    let mut i: usize = 0;
    while i < zones.len()
        invariant
            i <= zones@.len(),
            zone_totals(zones@.subrange(0, i as int)) == Some((p, d, s)),
            p >= 0 && d >= 0 && s >= 0,
        decreases zones@.len() - i,
    {
        let z = zones[i];
        proof {
            assert(zones@.subrange(0, i + 1).drop_last() =~= zones@.subrange(0, i as int));
            assert(zones@.subrange(0, i + 1).last() == z);
        }
        let dp = if z.use_power_flip_count > 0 { z.use_power_flip_count } else { 0 };
        let dd = if z.use_dash_count > 0 { z.use_dash_count } else { 0 };
        let ds = if z.use_skill_count > 0 { z.use_skill_count } else { 0 };
        if p > i64::MAX - dp || d > i64::MAX - dd || s > i64::MAX - ds {
            proof { lemma_zone_totals_none_stays(zones@, i as int + 1); }
            return None;
        }
        p = p + dp;
        d = d + dd;
        s = s + ds;
        i = i + 1;
    }
    assert(zones@.subrange(0, zones@.len() as int) =~= zones@);
    Some((p, d, s))
}

proof fn lemma_zone_totals_none_stays(zones: Seq<ZoneCounts>, n: int)
    requires
        0 <= n <= zones.len(),
        zone_totals(zones.subrange(0, n)) is None,
    ensures
        zone_totals(zones) is None,
    decreases zones.len() - n,
{
    if n < zones.len() {
        assert(zones.subrange(0, n + 1).drop_last() =~= zones.subrange(0, n));
        lemma_zone_totals_none_stays(zones, n + 1);
    } else {
        assert(zones.subrange(0, n) =~= zones);
    }
}

/// The battle's length in milliseconds: the elapsed time where given,
/// else the battle time in seconds times 1000 where that fits, else 0; a
/// negative length counts as 0.
pub fn elapsed_time_ms(elapsed: Option<i64>, battle_time: Option<i64>) -> (r: i64)
    ensures
        r == ({
            let t: int = match elapsed {
                Some(e) => e as int,
                None => match battle_time {
                    Some(b) => if i64::MIN <= b * 1000 <= i64::MAX {
                        b * 1000
                    } else {
                        0
                    },
                    None => 0,
                },
            };
            if t > 0 {
                t
            } else {
                0
            }
        }),
{
    let t: i64 = match elapsed {
        Some(e) => e,
        None => match battle_time {
            Some(b) => match b.checked_mul(1000) {
                Some(v) => v,
                None => 0,
            },
            None => 0,
        },
    };
    if t > 0 {
        t
    } else {
        0
    }
}

/// The fields of a lobby handshake, as the frame gives them: the first
/// integer (or text) under each of the field's names, and whether the
/// frame says whether it reconnects.
pub struct LobbyHandshake {
    pub viewer_id: Option<i64>,
    pub room_number: Option<String>,
    pub reconnected: bool,
    pub category_id: Option<i64>,
    pub quest_id: Option<i64>,
}

/// A positive value of a handshake field.
pub open spec fn positive_field(v: Option<i64>) -> Option<i64> {
    match v {
        Some(x) => if x > 0 {
            Some(x)
        } else {
            None
        },
        None => None,
    }
}

/// Whether a lobby handshake names a positive viewer, category and quest,
/// a room number, and whether it reconnects.
pub open spec fn lobby_handshake_ok(h: &LobbyHandshake) -> bool {
    &&& positive_field(h.viewer_id) is Some
    &&& h.room_number matches Some(n) && spec_is_room_number(n@)
    &&& h.reconnected
    &&& positive_field(h.category_id) is Some
    &&& positive_field(h.quest_id) is Some
}

/// The viewer, room number, category and quest of a well-formed lobby
/// handshake.
pub fn lobby_handshake_fields(h: &LobbyHandshake) -> (r: Option<(i64, String, i64, i64)>)
    ensures
        r is Some == lobby_handshake_ok(h),
        r matches Some((viewer, room, category, quest)) ==> {
            &&& positive_field(h.viewer_id) == Some(viewer)
            &&& h.room_number matches Some(n) && n@ == room@
            &&& positive_field(h.category_id) == Some(category)
            &&& positive_field(h.quest_id) == Some(quest)
        },
{
    let viewer = match h.viewer_id {
        Some(v) => if v > 0 {
            v
        } else {
            return None;
        },
        None => return None,
    };
    let room = match &h.room_number {
        Some(n) => n,
        None => return None,
    };
    if !is_room_number(room.as_str()) || !h.reconnected {
        return None;
    }
    let category = match h.category_id {
        Some(c) => if c > 0 {
            c
        } else {
            return None;
        },
        None => return None,
    };
    let quest = match h.quest_id {
        Some(q) => if q > 0 {
            q
        } else {
            return None;
        },
        None => return None,
    };
    Some((viewer, room.clone(), category, quest))
}

/// Who enters a lobby: the account of the member, and whether it hosts.
#[derive(Clone, Copy, Debug, PartialEq, Eq, Structural)]
pub struct LobbyAdmission {
    pub account_id: i64,
    pub is_host: bool,
}

/// Admits a viewer to a room's lobby: the room and the viewer's membership
/// must exist, the room must be for the handshake's quest, a host must
/// come with the room's party, and the viewer's session must belong to the
/// member's account.
pub fn admit_to_lobby(
    viewer_id: i64,
    category_id: i64,
    quest_id: i64,
    room: Option<RoomFacts>,
    member: Option<MemberFacts>,
    session_account: Option<i64>,
) -> (r: Option<LobbyAdmission>)
    ensures
        r == (match (room, member) {
            (Some(room), Some(member)) => if room.category_id != category_id || room.quest_id
                != quest_id {
                None
            } else if room.host_viewer_id == viewer_id && member.party_id != room.host_party_id {
                None
            } else {
                match session_account {
                    Some(a) => if a == member.account_id {
                        Some(LobbyAdmission { account_id: a, is_host: room.host_account_id == a })
                    } else {
                        None
                    },
                    None => None,
                }
            },
            _ => None,
        }),
{
    match (room, member) {
        (Some(room), Some(member)) => {
            if room.category_id != category_id || room.quest_id != quest_id {
                None
            } else if room.host_viewer_id == viewer_id && member.party_id != room.host_party_id {
                None
            } else {
                match session_account {
                    Some(a) => if a == member.account_id {
                        Some(LobbyAdmission { account_id: a, is_host: room.host_account_id == a })
                    } else {
                        None
                    },
                    None => None,
                }
            }
        },
        _ => None,
    }
}

/// The room number and connection id of a well-formed battle handshake.
pub fn battle_handshake_fields(
    room_number: Option<String>,
    connection_id: Option<String>,
    reconnected: bool,
) -> (r: Option<(String, String)>)
    ensures
        r is Some == ({
            &&& room_number matches Some(n) && spec_is_room_number(n@)
            &&& connection_id matches Some(c) && spec_is_connection_id(c@)
            &&& reconnected
        }),
        r matches Some((room, connection)) ==> {
            &&& room_number matches Some(n) && n@ == room@
            &&& connection_id matches Some(c) && c@ == connection@
        },
{
    match (room_number, connection_id) {
        (Some(n), Some(c)) => {
            if is_room_number(n.as_str()) && is_connection_id(c.as_str()) && reconnected {
                Some((n, c))
            } else {
                None
            }
        },
        _ => None,
    }
}

/// Admits a connection to a battle: the room and the member of the
/// connection must exist and the room's lobby and battle must have
/// started; the member's viewer enters.
pub fn admit_to_battle(room: Option<RoomFacts>, member: Option<MemberFacts>) -> (r: Option<i64>)
    ensures
        r == (match (room, member) {
            (Some(room), Some(member)) => if room.battle_started && room.lobby_started {
                Some(member.viewer_id)
            } else {
                None
            },
            _ => None,
        }),
{
    match (room, member) {
        (Some(room), Some(member)) => if room.battle_started && room.lobby_started {
            Some(member.viewer_id)
        } else {
            None
        },
        _ => None,
    }
}


/// The mates shown for a room in the room list: the entered members and
/// the computer-controlled mates together, at most the room's member count
/// (none where that is negative). The count fails where it does not fit in
/// `i64`.
pub fn listed_mate_count(entered_members: usize, ai_mates: usize, member_count: i64) -> (r: Result<i64, ServiceError>)
    ensures
        ({
            let total = entered_members + ai_mates;
            let saturated = if total > usize::MAX { usize::MAX as int } else { total };
            let cap = if member_count < 0 { 0 } else { member_count as int };
            &&& r is Err <==> saturated > i64::MAX
            &&& r matches Ok(n) ==> n == (if saturated < cap { saturated } else { cap })
        }),
{
    let total: usize = match entered_members.checked_add(ai_mates) {
        Some(t) => t,
        None => usize::MAX,
    };
    if total as u128 > i64::MAX as u128 {
        return Err(ServiceError::new("multiplayer mate count exceeds range"));
    }
    let count = total as i64;
    let cap: i64 = if member_count < 0 { 0 } else { member_count };
    Ok(if count < cap { count } else { cap })
}

} // verus!
