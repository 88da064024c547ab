//! Admission of a player to a multiplayer lobby: which entry commands are
//! accepted, what the lobby record of the player holds, and which player
//! number it gets.
use vstd::prelude::*;

use crate::mission::contains_i64;
use crate::text::str_eq;

verus! {

/// The values of a sequence of `i64`, read as integers.
pub open spec fn as_ints(s: Seq<i64>) -> Seq<int> {
    s.map_values(|v: i64| v as int)
}

/// Whether the player number `k` is among `used`.
pub open spec fn number_taken(used: Seq<i64>, k: int) -> bool {
    used.contains(k as i64)
}

/// Where every number from 2 up to `p` is taken, no fewer than `p - 2`
/// numbers are listed.
proof fn lemma_taken_prefix_fits(used: Seq<i64>, p: int)
    requires
        2 <= p,
        forall|k: int| 2 <= k < p ==> #[trigger] number_taken(used, k),
        p <= i64::MAX,
    ensures
        p - 2 <= used.len(),
{
    let ints = as_ints(used);
    let range = vstd::set_lib::set_int_range(2, p);
    vstd::set_lib::lemma_int_range(2, p);
    assert forall|k: int| range.contains(k) implies ints.to_set().contains(k) by {
        assert(number_taken(used, k));
        let j = choose|j: int| 0 <= j < used.len() && used[j] == k as i64;
        assert(ints[j] == k);
    }
    ints.lemma_cardinality_of_set();
    vstd::set_lib::lemma_len_subset(range, ints.to_set());
}

/// The player number that a new lobby member gets: the smallest number from
/// 2 up that no other entered member holds (1 stands for the host's slot in
/// the battle).
pub fn next_player_id(used: &Vec<i64>) -> (r: i64)
    requires
        used@.len() < i64::MAX - 2,
    ensures
        r >= 2,
        !used@.contains(r),
        forall|k: int| 2 <= k < r ==> #[trigger] number_taken(used@, k),
{
    let mut player_id: i64 = 2;
    while contains_i64(used, player_id)
        invariant
            2 <= player_id <= used@.len() + 2,
            used@.len() < i64::MAX - 2,
            forall|k: int| 2 <= k < player_id ==> #[trigger] number_taken(used@, k),
        decreases used@.len() + 2 - player_id,
    {
        proof {
            assert forall|k: int| 2 <= k < player_id + 1 implies #[trigger] number_taken(used@, k) by {
                if k == player_id as int {
                    assert(used@.contains(player_id));
                }
            }
            lemma_taken_prefix_fits(used@, player_id + 1);
        }
        player_id = player_id + 1;
    }
    player_id
}

/// The first positive value among the candidates, in order.
pub open spec fn first_positive(candidates: Seq<Option<i64>>) -> Option<i64>
    decreases candidates.len(),
{
    if candidates.len() == 0 {
        None
    } else if candidates[0] matches Some(v) && v > 0 {
        Some(candidates[0]->0)
    } else {
        first_positive(candidates.drop_first())
    }
}

/// The leader of a stored party: `candidates` holds, for each party group
/// of the player in the order of the groups, the first character id of the
/// party with the requested id where that group has one and it is an
/// integer. The leader is the first of those that is positive.
pub fn party_leader_id(candidates: &Vec<Option<i64>>) -> (r: Option<i64>)
    ensures
        r == first_positive(candidates@),
{
    let mut i: usize = candidates.len();
    let mut found: Option<i64> = None;
    while i > 0
        invariant
            i <= candidates@.len(),
            found == first_positive(candidates@.subrange(i as int, candidates@.len() as int)),
        decreases i,
    {
        let ghost rest = candidates@.subrange(i as int, candidates@.len() as int);
        i = i - 1;
        let ghost here = candidates@.subrange(i as int, candidates@.len() as int);
        assert(here.drop_first() =~= rest);
        assert(here[0] == candidates@[i as int]);
        match candidates[i] {
            Some(v) => {
                if v > 0 {
                    found = Some(v);
                }
            },
            None => {},
        }
    }
    assert(candidates@.subrange(0, candidates@.len() as int) =~= candidates@);
    found
}

/// The first slot of the party that a client enters with: the length of
/// the slot pair, its slot number where that is an integer, and the `id` of
/// the character in it where that is an integer.
pub struct PartyHead {
    pub len: usize,
    pub slot: Option<i64>,
    pub character_id: Option<i64>,
}

/// The main character of an entering party: the character in slot 0 at the
/// head of the party, where the head is a pair and the id is positive.
pub open spec fn spec_main_character_id(head: Option<PartyHead>) -> Option<i64> {
    match head {
        Some(h) => if h.len == 2 && h.slot == Some(0i64) && (h.character_id matches Some(c) && c > 0) {
            h.character_id
        } else {
            None
        },
        None => None,
    }
}

/// The main character of an entering party (`None` where the party has no
/// head, or the head is not a valid slot pair).
pub fn lobby_main_character_id(head: &Option<PartyHead>) -> (r: Option<i64>)
    ensures
        r == spec_main_character_id(*head),
{
    match head {
        Some(h) => {
            if h.len == 2 && h.slot == Some(0i64) {
                match h.character_id {
                    Some(c) => if c > 0 { Some(c) } else { None },
                    None => None,
                }
            } else {
                None
            }
        },
        None => None,
    }
}

/// How an entry command is read.
#[derive(Clone, Copy, Debug, PartialEq, Eq, Structural)]
pub enum EntryForm {
    /// The older form: the command and the entry data alone.
    Legacy,
    /// The current form, for the given party.
    Modern(i64),
    /// Not an entry the lobby accepts.
    Refused,
}

/// The form of an entry command of `command_len` items. In the current
/// form the third item names the party (`party_argument`, 0 where it is
/// not an integer), which must be positive and the party that the member
/// joined the room with (`member_party`, where the member is known).
pub open spec fn spec_entry_form(command_len: usize, party_argument: Option<i64>, member_party: Option<i64>) -> EntryForm {
    if command_len == 2 {
        EntryForm::Legacy
    } else if command_len != 3 {
        EntryForm::Refused
    } else {
        let party_id = match party_argument {
            Some(p) => p,
            None => 0,
        };
        if party_id > 0 && member_party == Some(party_id) {
            EntryForm::Modern(party_id)
        } else {
            EntryForm::Refused
        }
    }
}

/// The form of an entry command; see `spec_entry_form`.
pub fn entry_form(command_len: usize, party_argument: Option<i64>, member_party: Option<i64>) -> (r: EntryForm)
    ensures
        r == spec_entry_form(command_len, party_argument, member_party),
{
    if command_len == 2 {
        return EntryForm::Legacy;
    }
    if command_len != 3 {
        return EntryForm::Refused;
    }
    let party_id: i64 = match party_argument {
        Some(p) => p,
        None => 0,
    };
    if party_id > 0 && member_party == Some(party_id) {
        EntryForm::Modern(party_id)
    } else {
        EntryForm::Refused
    }
}

/// The fields of a current-form lobby entry that the lobby checks, as the
/// client sent them: each integer, text and flag where it is present with
/// that type.
pub struct LobbyEntryFields {
    pub viewer_id: Option<i64>,
    pub connection_id: Option<String>,
    pub current_party_id: Option<i64>,
    /// `comId` is present and not null: a computer-controlled member.
    pub has_com_id: bool,
    /// `entryTime` is present as a finite number.
    pub entry_time_finite: bool,
    pub name: Option<String>,
    pub rank: Option<i64>,
    pub degree_id: Option<i64>,
    pub player_role_kind: Option<i64>,
    pub autoskill_mode: Option<i64>,
    pub auto_speed_level: Option<i64>,
    pub skill_ability_behavior_mode: Option<i64>,
    pub dash_behavior_mode: Option<i64>,
    pub is_newbie: Option<bool>,
    pub autoplay_mode: Option<bool>,
    pub auto_start: Option<bool>,
    pub allow_heal: Option<bool>,
    /// `state` where it is an array, each item where it is an integer.
    pub state: Option<Vec<Option<i64>>>,
}

/// The lobby record of a player. The service adds the party, the player
/// number and the entry time when it stores it.
pub struct LobbyPlayer {
    pub viewer_id: i64,
    pub name: String,
    pub rank: i64,
    pub degree_id: i64,
    pub main_character_id: i64,
    pub connection_id: String,
    pub player_role_kind: i64,
    pub is_newbie: bool,
    pub is_host: bool,
    pub current_party_id: i64,
    pub autoplay_mode: bool,
    pub autoskill_mode: i64,
    pub auto_speed_level: i64,
    pub auto_start: bool,
    pub skill_ability_behavior_mode: i64,
    pub dash_behavior_mode: i64,
    pub allow_heal: bool,
    /// The one item of the member state: 0 or 1.
    pub state: i64,
}

/// A present, positive integer.
pub open spec fn is_positive(v: Option<i64>) -> bool {
    v matches Some(x) && x > 0
}

/// A present, non-negative integer.
pub open spec fn is_non_negative(v: Option<i64>) -> bool {
    v matches Some(x) && x >= 0
}

/// The state of a member: a single item that is 0 or 1.
pub open spec fn spec_member_state(state: Option<Vec<Option<i64>>>) -> Option<i64> {
    match state {
        Some(items) => if items@.len() == 1 && (items@[0] == Some(0i64) || items@[0] == Some(1i64)) {
            items@[0]
        } else {
            None
        },
        None => None,
    }
}

/// Whether the lobby accepts a current-form entry of `viewer_id` over
/// `connection_id` for `party_id`, whose party has the main character
/// `main_character_id`.
pub open spec fn modern_entry_accepted(
    entry: LobbyEntryFields,
    viewer_id: i64,
    connection_id: Seq<char>,
    party_id: i64,
    main_character_id: Option<i64>,
) -> bool {
    &&& entry.viewer_id == Some(viewer_id)
    &&& (entry.connection_id matches Some(c) && c@ == connection_id)
    &&& entry.current_party_id == Some(party_id)
    &&& !entry.has_com_id
    &&& entry.entry_time_finite
    &&& (entry.name matches Some(n) && n@.len() > 0)
    &&& is_positive(entry.rank)
    &&& is_positive(entry.degree_id)
    &&& is_positive(entry.player_role_kind)
    &&& is_non_negative(entry.autoskill_mode)
    &&& is_non_negative(entry.auto_speed_level)
    &&& is_non_negative(entry.skill_ability_behavior_mode)
    &&& is_non_negative(entry.dash_behavior_mode)
    &&& entry.is_newbie is Some
    &&& entry.autoplay_mode is Some
    &&& entry.auto_start is Some
    &&& entry.allow_heal is Some
    &&& spec_member_state(entry.state) is Some
    &&& main_character_id is Some
}

fn member_state(state: &Option<Vec<Option<i64>>>) -> (r: Option<i64>)
    ensures
        r == spec_member_state(*state),
{
    match state {
        Some(items) => {
            if items.len() == 1 {
                match items[0] {
                    Some(v) => if v == 0 || v == 1 { Some(v) } else { None },
                    None => None,
                }
            } else {
                None
            }
        },
        None => None,
    }
}

fn positive_value(v: Option<i64>) -> (r: Option<i64>)
    ensures
        r is Some <==> is_positive(v),
        r is Some ==> r == v,
{
    match v {
        Some(x) => if x > 0 { Some(x) } else { None },
        None => None,
    }
}

fn non_negative_value(v: Option<i64>) -> (r: Option<i64>)
    ensures
        r is Some <==> is_non_negative(v),
        r is Some ==> r == v,
{
    match v {
        Some(x) => if x >= 0 { Some(x) } else { None },
        None => None,
    }
}

/// The lobby record for a current-form entry: `Some` exactly where the
/// entry is accepted, and then the record holds the entry's values, the
/// host flag and the party.
pub fn modern_lobby_player(
    entry: &LobbyEntryFields,
    viewer_id: i64,
    connection_id: &str,
    is_host: bool,
    party_id: i64,
    main_character_id: Option<i64>,
) -> (r: Option<LobbyPlayer>)
    ensures
        r is Some <==> modern_entry_accepted(*entry, viewer_id, connection_id@, party_id, main_character_id),
        r matches Some(p) ==> {
            &&& p.viewer_id == viewer_id
            &&& p.name@ == entry.name->0@
            &&& p.rank == entry.rank->0
            &&& p.degree_id == entry.degree_id->0
            &&& p.main_character_id == main_character_id->0
            &&& p.connection_id@ == connection_id@
            &&& p.player_role_kind == entry.player_role_kind->0
            &&& p.is_newbie == entry.is_newbie->0
            &&& p.is_host == is_host
            &&& p.current_party_id == party_id
            &&& p.autoplay_mode == entry.autoplay_mode->0
            &&& p.autoskill_mode == entry.autoskill_mode->0
            &&& p.auto_speed_level == entry.auto_speed_level->0
            &&& p.auto_start == entry.auto_start->0
            &&& p.skill_ability_behavior_mode == entry.skill_ability_behavior_mode->0
            &&& p.dash_behavior_mode == entry.dash_behavior_mode->0
            &&& p.allow_heal == entry.allow_heal->0
            &&& p.state == spec_member_state(entry.state)->0
        },
{
    if entry.viewer_id != Some(viewer_id) {
        return None;
    }
    let same_connection = match &entry.connection_id {
        Some(c) => str_eq(c.as_str(), connection_id),
        None => false,
    };
    if !same_connection || entry.current_party_id != Some(party_id) || entry.has_com_id
        || !entry.entry_time_finite {
        return None;
    }
    let name = match &entry.name {
        Some(n) => if n.as_str().unicode_len() > 0 { n.clone() } else { return None },
        None => return None,
    };
    let rank = match positive_value(entry.rank) { Some(v) => v, None => return None };
    let degree_id = match positive_value(entry.degree_id) { Some(v) => v, None => return None };
    let role = match positive_value(entry.player_role_kind) { Some(v) => v, None => return None };
    let autoskill = match non_negative_value(entry.autoskill_mode) { Some(v) => v, None => return None };
    let speed = match non_negative_value(entry.auto_speed_level) { Some(v) => v, None => return None };
    let ability = match non_negative_value(entry.skill_ability_behavior_mode) {
        Some(v) => v,
        None => return None,
    };
    let dash = match non_negative_value(entry.dash_behavior_mode) { Some(v) => v, None => return None };
    let (is_newbie, autoplay, auto_start, allow_heal) = match (
        entry.is_newbie,
        entry.autoplay_mode,
        entry.auto_start,
        entry.allow_heal,
    ) {
        (Some(a), Some(b), Some(c), Some(d)) => (a, b, c, d),
        _ => return None,
    };
    let state = match member_state(&entry.state) { Some(v) => v, None => return None };
    let main = match main_character_id { Some(m) => m, None => return None };
    Some(LobbyPlayer {
        viewer_id,
        name,
        rank,
        degree_id,
        main_character_id: main,
        connection_id: connection_id.to_string(),
        player_role_kind: role,
        is_newbie,
        is_host,
        current_party_id: party_id,
        autoplay_mode: autoplay,
        autoskill_mode: autoskill,
        auto_speed_level: speed,
        auto_start,
        skill_ability_behavior_mode: ability,
        dash_behavior_mode: dash,
        allow_heal,
        state,
    })
}

/// The entry data of an older-form entry: each value where it is present
/// with its type.
pub struct LegacyEntryFields {
    pub state: Option<Vec<Option<i64>>>,
    pub autoplay_mode: Option<bool>,
    pub autoskill_mode: Option<i64>,
    pub auto_speed_level: Option<i64>,
    pub auto_start: Option<bool>,
    pub skill_ability_behavior_mode: Option<i64>,
    pub dash_behavior_mode: Option<i64>,
    pub allow_heal: Option<bool>,
}

/// The stored user info of the entering player.
pub struct StoredUserInfo {
    pub name: Option<String>,
    pub degree_id: Option<i64>,
    pub role: Option<i64>,
    pub is_newbie: Option<bool>,
}

/// A value, or `default` where it is absent.
pub open spec fn or_default<T>(v: Option<T>, default: T) -> T {
    match v {
        Some(x) => x,
        None => default,
    }
}

/// The larger of two integers.
pub open spec fn at_least(v: i64, floor: i64) -> i64 {
    if v < floor { floor } else { v }
}

fn i64_or(v: Option<i64>, default: i64) -> (r: i64)
    ensures
        r == or_default(v, default),
{
    match v {
        Some(x) => x,
        None => default,
    }
}

fn bool_or(v: Option<bool>, default: bool) -> (r: bool)
    ensures
        r == or_default(v, default),
{
    match v {
        Some(x) => x,
        None => default,
    }
}

fn raise_to(v: i64, floor: i64) -> (r: i64)
    ensures
        r == at_least(v, floor),
{
    if v < floor { floor } else { v }
}

/// The lobby record for an older-form entry, whose party, with the main
/// character `main_character_id`, is the one the member joined with
/// (`party_id`). Only the user info and its name are required; every other
/// value has a default: degree, role, skill modes and speed 1 (degree and
/// role at least 1, modes and speed at least 0), no newbie, no autoplay, no
/// auto start, healing from others allowed, state 0. The rank is the degree.
pub fn legacy_lobby_player(
    entry: &LegacyEntryFields,
    user_info: &Option<StoredUserInfo>,
    viewer_id: i64,
    connection_id: &str,
    is_host: bool,
    party_id: i64,
    main_character_id: i64,
) -> (r: Option<LobbyPlayer>)
    ensures
        r is Some <==> (user_info matches Some(u) && (u.name matches Some(n) && n@.len() > 0)),
        r matches Some(p) ==> {
            let u = user_info->0;
            let degree = at_least(or_default(u.degree_id, 1), 1);
            &&& p.viewer_id == viewer_id
            &&& p.name@ == u.name->0@
            &&& p.rank == degree
            &&& p.degree_id == degree
            &&& p.main_character_id == main_character_id
            &&& p.connection_id@ == connection_id@
            &&& p.player_role_kind == at_least(or_default(u.role, 1), 1)
            &&& p.is_newbie == or_default(u.is_newbie, false)
            &&& p.is_host == is_host
            &&& p.current_party_id == party_id
            &&& p.autoplay_mode == or_default(entry.autoplay_mode, false)
            &&& p.autoskill_mode == at_least(or_default(entry.autoskill_mode, 1), 0)
            &&& p.auto_speed_level == at_least(or_default(entry.auto_speed_level, 1), 0)
            &&& p.auto_start == or_default(entry.auto_start, false)
            &&& p.skill_ability_behavior_mode == at_least(
                or_default(entry.skill_ability_behavior_mode, 1),
                0,
            )
            &&& p.dash_behavior_mode == at_least(or_default(entry.dash_behavior_mode, 1), 0)
            &&& p.allow_heal == or_default(entry.allow_heal, true)
            &&& p.state == or_default(spec_member_state(entry.state), 0)
        },
{
    let user = match user_info {
        Some(u) => u,
        None => return None,
    };
    let name = match &user.name {
        Some(n) => if n.as_str().unicode_len() > 0 { n.clone() } else { return None },
        None => return None,
    };
    let degree = raise_to(i64_or(user.degree_id, 1), 1);
    let state = i64_or(member_state(&entry.state), 0);
    Some(LobbyPlayer {
        viewer_id,
        name,
        rank: degree,
        degree_id: degree,
        main_character_id,
        connection_id: connection_id.to_string(),
        player_role_kind: raise_to(i64_or(user.role, 1), 1),
        is_newbie: bool_or(user.is_newbie, false),
        is_host,
        current_party_id: party_id,
        autoplay_mode: bool_or(entry.autoplay_mode, false),
        autoskill_mode: raise_to(i64_or(entry.autoskill_mode, 1), 0),
        auto_speed_level: raise_to(i64_or(entry.auto_speed_level, 1), 0),
        auto_start: bool_or(entry.auto_start, false),
        skill_ability_behavior_mode: raise_to(i64_or(entry.skill_ability_behavior_mode, 1), 0),
        dash_behavior_mode: raise_to(i64_or(entry.dash_behavior_mode, 1), 0),
        allow_heal: bool_or(entry.allow_heal, true),
        state,
    })
}

/// A present, non-empty name.
pub open spec fn names_someone(name: Option<String>) -> bool {
    name matches Some(n) && n@.len() > 0
}

/// The names that a host gives the computer-controlled mates of a room:
/// `requests` holds the `name` of each request where it is text, and
/// `mate_count` is the number of mates. Each of the first `mate_count`
/// requests must name its mate; the rest are ignored.
pub fn ai_mate_names(requests: &Option<Vec<Option<String>>>, mate_count: usize) -> (r: Option<Vec<String>>)
    ensures
        r is Some <==> (requests matches Some(q) && q@.len() >= mate_count
            && forall|i: int| 0 <= i < mate_count ==> #[trigger] names_someone(q@[i])),
        r matches Some(names) ==> names@.len() == mate_count
            && forall|i: int| 0 <= i < mate_count ==> #[trigger] names@[i]@ == requests->0@[i]->0@,
{
    let q = match requests {
        Some(q) => q,
        None => return None,
    };
    if q.len() < mate_count {
        return None;
    }
    let mut names: Vec<String> = Vec::new();
    let mut i: usize = 0;
    while i < mate_count
        invariant
            i <= mate_count <= q@.len(),
            *requests == Some(*q),
            names@.len() == i,
            forall|j: int| 0 <= j < i ==> #[trigger] names_someone(q@[j]),
            forall|j: int| 0 <= j < i ==> #[trigger] names@[j]@ == q@[j]->0@,
        decreases mate_count - i,
    {
        match &q[i] {
            Some(n) => {
                if n.as_str().unicode_len() == 0 {
                    assert(!names_someone(q@[i as int]));
                    return None;
                }
                names.push(n.clone());
            },
            None => {
                assert(!names_someone(q@[i as int]));
                return None;
            },
        }
        i = i + 1;
    }
    Some(names)
}

/// A request for one computer-controlled mate: how many keys it has, its
/// `name` where that is text, and whether its degree, rank, `comId` and
/// party are those of the mate it stands for.
pub struct AiMateRequest {
    pub key_count: usize,
    pub name: Option<String>,
    pub same_as_mate: bool,
}

/// Whether a request for a mate is accepted: an object of exactly five
/// keys that names the mate and leaves its other values unchanged.
pub open spec fn ai_request_accepted(request: Option<AiMateRequest>) -> bool {
    request matches Some(q) && q.key_count == 5 && names_someone(q.name) && q.same_as_mate
}

/// The names in the requests for the computer-controlled mates of a room,
/// where each of the first `mate_count` requests (`None` where it is not an
/// object) is accepted; the rest are ignored.
pub fn ai_mate_requests(requests: &Option<Vec<Option<AiMateRequest>>>, mate_count: usize) -> (r: Option<Vec<String>>)
    ensures
        r is Some <==> (requests matches Some(q) && q@.len() >= mate_count
            && forall|i: int| 0 <= i < mate_count ==> #[trigger] ai_request_accepted(q@[i])),
        r matches Some(names) ==> names@.len() == mate_count
            && forall|i: int| 0 <= i < mate_count ==> #[trigger] names@[i]@ == requests->0@[i]->0.name->0@,
{
    let q = match requests {
        Some(q) => q,
        None => return None,
    };
    if q.len() < mate_count {
        return None;
    }
    let mut names: Vec<String> = Vec::new();
    let mut i: usize = 0;
    while i < mate_count
        invariant
            i <= mate_count <= q@.len(),
            *requests == Some(*q),
            names@.len() == i,
            forall|j: int| 0 <= j < i ==> #[trigger] ai_request_accepted(q@[j]),
            forall|j: int| 0 <= j < i ==> #[trigger] names@[j]@ == q@[j]->0.name->0@,
        decreases mate_count - i,
    {
        match &q[i] {
            Some(request) => {
                if request.key_count != 5 || !request.same_as_mate {
                    assert(!ai_request_accepted(q@[i as int]));
                    return None;
                }
                match &request.name {
                    Some(n) => {
                        if n.as_str().unicode_len() == 0 {
                            assert(!ai_request_accepted(q@[i as int]));
                            return None;
                        }
                        names.push(n.clone());
                    },
                    None => {
                        assert(!ai_request_accepted(q@[i as int]));
                        return None;
                    },
                }
            },
            None => {
                assert(!ai_request_accepted(q@[i as int]));
                return None;
            },
        }
        i = i + 1;
    }
    Some(names)
}

} // verus!
