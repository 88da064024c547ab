//! Party slots: a global party id stands for a slot of a party group, ten
//! slots to a group.
use vstd::prelude::*;

use crate::error::ServiceError;
use crate::http::{error_body, json_error, JsonResponse};
use crate::text::{decimal, decimal_string, parse_i64, spec_parse_i64, str_eq};

verus! {

/// The largest global party id.
pub const MAX_PARTY_ID: i64 = 120;

/// The number of party groups every player has.
pub const NORMAL_PARTY_GROUP_COUNT: i64 = 12;

/// The number of party slots in a group.
pub const PARTY_SLOTS_PER_GROUP: i64 = 10;

/// The color of a party group that was never recolored.
pub const DEFAULT_PARTY_GROUP_COLOR_ID: i64 = 15;

/// The most slots of each kind a party holds.
pub const PARTY_SIZE: usize = 3;

/// Division that rounds toward zero, as Rust's `/` on integers.
pub open spec fn trunc_div(a: int, b: int) -> int {
    if a >= 0 {
        a / b
    } else {
        -((-a) / b)
    }
}

/// The remainder of `trunc_div`, as Rust's `%` on integers.
pub open spec fn trunc_rem(a: int, b: int) -> int {
    a - b * trunc_div(a, b)
}

/// A party slot: its group and its place in the group (1 to 10 for party
/// ids from 1 up).
#[derive(Clone, Copy, Debug, PartialEq, Eq, Structural)]
pub struct PartyLocation {
    pub group_id: i64,
    pub slot: i64,
}

impl PartyLocation {
    /// The slot of a global party id: group `(id - 1) / 10 + 1` and slot
    /// `(id - 1) % 10 + 1`.
    pub fn from_global_id(party_id: i64) -> (r: PartyLocation)
        requires
            party_id > i64::MIN,
        ensures
            r.group_id == trunc_div(party_id - 1, 10) + 1,
            r.slot == trunc_rem(party_id - 1, 10) + 1,
    {
        let a = party_id - 1;
        let (q, m): (i64, i64) = if a >= 0 {
            (a / 10, a % 10)
        } else {
            let p = -(a + 1);
            let q0 = p / 10;
            let m0 = p % 10;
            if m0 == 9 {
                (-(q0 + 1), 0)
            } else {
                (-q0, -(m0 + 1))
            }
        };
        proof {
            if a < 0 {
                let p = -(a + 1);
                assert(p == -a - 1);
                assert(p == (p / 10) * 10 + p % 10) by (nonlinear_arith);
                assert((-a) == ((-a) / 10) * 10 + (-a) % 10) by (nonlinear_arith);
                if p % 10 == 9 {
                    assert(-a == (p / 10 + 1) * 10);
                    assert((-a) / 10 == p / 10 + 1) by (nonlinear_arith)
                        requires
                            -a == (p / 10 + 1) * 10,
                    ;
                } else {
                    assert(-a == (p / 10) * 10 + (p % 10 + 1));
                    assert((-a) / 10 == p / 10) by (nonlinear_arith)
                        requires
                            -a == (p / 10) * 10 + (p % 10 + 1),
                            0 <= p % 10 + 1 < 10,
                    ;
                }
            }
        }
        PartyLocation { group_id: q + 1, slot: m + 1 }
    }

    /// The global party id of a slot: `(group - 1) * 10 + slot`.
    pub fn global_id(self) -> (r: i64)
        requires
            self.group_id > i64::MIN,
            i64::MIN <= (self.group_id - 1) * 10 <= i64::MAX,
            i64::MIN <= (self.group_id - 1) * 10 + self.slot <= i64::MAX,
        ensures
            r == (self.group_id - 1) * 10 + self.slot,
    {
        (self.group_id - 1) * 10 + self.slot
    }
}

/// A global party id names its slot exactly: the slot's global id is the
/// party id again, and party ids from 1 up fall in slots 1 to 10 of
/// groups from 1 up.
pub proof fn lemma_party_location_roundtrip(party_id: i64)
    requires
        party_id > i64::MIN,
    ensures
        (trunc_div(party_id - 1, 10) + 1 - 1) * 10 + (trunc_rem(party_id - 1, 10) + 1) == party_id,
        party_id >= 1 ==> 1 <= trunc_rem(party_id - 1, 10) + 1 <= 10 && trunc_div(party_id - 1, 10)
            + 1 >= 1,
{
    let a = party_id - 1;
    if a >= 0 {
        assert(a == (a / 10) * 10 + a % 10) by (nonlinear_arith);
    }
}


/// The endpoints of party editing.
#[derive(Clone, Copy, Debug, PartialEq, Eq, Structural)]
pub enum PartyEndpoint {
    Edit,
    Publish,
    Refer,
    CheckWord,
    GroupEdit,
}

/// The endpoint a request names, where it is one of party editing.
pub open spec fn spec_route(method: Seq<char>, path: Seq<char>) -> Option<PartyEndpoint> {
    if method != "POST"@ {
        None
    } else if path == "/api/index.php/party/edit"@ {
        Some(PartyEndpoint::Edit)
    } else if path == "/api/index.php/party/publish"@ {
        Some(PartyEndpoint::Publish)
    } else if path == "/api/index.php/party/refer"@ {
        Some(PartyEndpoint::Refer)
    } else if path == "/api/index.php/party/check_word"@ {
        Some(PartyEndpoint::CheckWord)
    } else if path == "/api/index.php/party_group/edit"@ {
        Some(PartyEndpoint::GroupEdit)
    } else {
        None
    }
}

/// The endpoint a request names, where it is one of party editing.
pub fn route(method: &str, path: &str) -> (r: Option<PartyEndpoint>)
    ensures
        r == spec_route(method@, path@),
{
    if !str_eq(method, "POST") {
        None
    } else if str_eq(path, "/api/index.php/party/edit") {
        Some(PartyEndpoint::Edit)
    } else if str_eq(path, "/api/index.php/party/publish") {
        Some(PartyEndpoint::Publish)
    } else if str_eq(path, "/api/index.php/party/refer") {
        Some(PartyEndpoint::Refer)
    } else if str_eq(path, "/api/index.php/party/check_word") {
        Some(PartyEndpoint::CheckWord)
    } else if str_eq(path, "/api/index.php/party_group/edit") {
        Some(PartyEndpoint::GroupEdit)
    } else {
        None
    }
}

/// The JSON error answer of party editing.
pub fn error_response(status: &str, code: &str) -> (r: JsonResponse)
    ensures
        r.status@ == status@,
        r.body@ == error_body(code@),
{
    json_error(status, code)
}

/// The share code that every party is published under.
pub const PUBLISHED_PARTY_CODE: &'static str = "https://www.howLongCanThisBe?=+-.comhttps://www.howLongCanThisBe?=+-.comhttps://www.howLongCanThisBe?=+-.com";

/// Whether a refer request names a viewer and the published share code.
pub fn refer_request_valid(viewer_id: i64, party_code: &str) -> (r: bool)
    ensures
        r == (viewer_id > 0 && party_code@ == PUBLISHED_PARTY_CODE@),
{
    viewer_id > 0 && str_eq(party_code, PUBLISHED_PARTY_CODE)
}

/// Whether a word check names a viewer and a word of at most 100
/// characters.
pub fn check_word_request_valid(viewer_id: i64, word: &str) -> (r: bool)
    ensures
        r == (viewer_id > 0 && word@.len() <= 100),
{
    viewer_id > 0 && word.unicode_len() <= 100
}

/// The global id of the player's main party: the stored slot, at least 1,
/// and 1 where none is stored.
pub fn main_party_id(stored_slot: Option<i64>) -> (r: i64)
    ensures
        r == match stored_slot {
            Some(slot) => if slot >= 1 {
                slot
            } else {
                1
            },
            None => 1,
        },
{
    match stored_slot {
        Some(slot) => if slot >= 1 {
            slot
        } else {
            1
        },
        None => 1,
    }
}

/// One party of an edit request.
pub struct PartyInfo {
    pub party_edited: bool,
    pub party_category: i64,
    pub party_name: String,
    pub party_id: i64,
    pub current_battle_power: i64,
    pub before_battle_power: i64,
    pub unison_character_ids: Vec<Option<i64>>,
    pub equipment_ids: Vec<Option<i64>>,
    pub character_ids: Vec<Option<i64>>,
    pub ability_soul_ids: Vec<Option<i64>>,
    pub allow_other_players_to_heal_me: bool,
}

/// Whether an edit request names a viewer, a main party in range and a
/// call count.
pub open spec fn spec_edit_request_valid(viewer_id: i64, main_party_id: i64, api_count: i64) -> bool {
    viewer_id > 0 && 1 <= main_party_id <= MAX_PARTY_ID && api_count >= 0
}

/// Whether an edit request names a viewer, a main party in range and a
/// call count.
pub fn edit_request_valid(viewer_id: i64, main_party_id: i64, api_count: i64) -> (r: bool)
    ensures
        r == spec_edit_request_valid(viewer_id, main_party_id, api_count),
{
    viewer_id > 0 && 1 <= main_party_id && main_party_id <= MAX_PARTY_ID && api_count >= 0
}

/// Whether a party of an edit request may be stored: its id is in range,
/// its category is not negative and no slot list is longer than a party.
pub open spec fn spec_party_info_valid(p: &PartyInfo) -> bool {
    &&& 1 <= p.party_id <= MAX_PARTY_ID
    &&& p.party_category >= 0
    &&& p.unison_character_ids@.len() <= PARTY_SIZE
    &&& p.equipment_ids@.len() <= PARTY_SIZE
    &&& p.character_ids@.len() <= PARTY_SIZE
    &&& p.ability_soul_ids@.len() <= PARTY_SIZE
}

/// Whether a party of an edit request may be stored.
pub fn party_info_valid(p: &PartyInfo) -> (r: bool)
    ensures
        r == spec_party_info_valid(p),
{
    1 <= p.party_id && p.party_id <= MAX_PARTY_ID && p.party_category >= 0
        && p.unison_character_ids.len() <= PARTY_SIZE && p.equipment_ids.len() <= PARTY_SIZE
        && p.character_ids.len() <= PARTY_SIZE && p.ability_soul_ids.len() <= PARTY_SIZE
}

/// A slot keeps its id only where the player owns what it names.
pub open spec fn owned_slot(value: Option<i64>, owned: Seq<i64>) -> Option<i64> {
    match value {
        Some(id) => if owned.contains(id) {
            Some(id)
        } else {
            None
        },
        None => None,
    }
}

/// The slots with every id the player does not own emptied.
pub open spec fn spec_filter_owned(values: Seq<Option<i64>>, owned: Seq<i64>) -> Seq<Option<i64>> {
    Seq::new(values.len(), |i: int| owned_slot(values[i], owned))
}

/// Whether `owned` holds `id`.
fn owns(owned: &Vec<i64>, id: i64) -> (r: bool)
    ensures
        r == owned@.contains(id),
{
    let mut i: usize = 0;
    while i < owned.len()
        invariant
            i <= owned@.len(),
            forall|j: int| 0 <= j < i ==> owned@[j] != id,
        decreases owned@.len() - i,
    {
        if owned[i] == id {
            assert(owned@[i as int] == id);
            return true;
        }
        i = i + 1;
    }
    false
}

/// The slots with every id the player does not own emptied.
pub fn filter_owned(values: &Vec<Option<i64>>, owned: &Vec<i64>) -> (r: Vec<Option<i64>>)
    ensures
        r@ == spec_filter_owned(values@, owned@),
{
    let mut out: Vec<Option<i64>> = Vec::new();
    let mut i: usize = 0;
    while i < values.len()
        invariant
            i <= values@.len(),
            out@ == spec_filter_owned(values@.subrange(0, i as int), owned@),
        decreases values@.len() - i,
    {
        let kept = match values[i] {
            Some(id) => if owns(owned, id) {
                Some(id)
            } else {
                None
            },
            None => None,
        };
        out.push(kept);
        i = i + 1;
        assert(out@ =~= spec_filter_owned(values@.subrange(0, i as int), owned@));
    }
    assert(values@.subrange(0, values@.len() as int) =~= values@);
    out
}

/// A party as it is stored after an edit.
pub struct StoredParty {
    pub location: PartyLocation,
    pub edited: bool,
    pub name: String,
    pub current_battle_power: i64,
    pub before_battle_power: i64,
    pub character_ids: Vec<Option<i64>>,
    pub unison_character_ids: Vec<Option<i64>>,
    pub equipment_ids: Vec<Option<i64>>,
    pub ability_soul_ids: Vec<Option<i64>>,
    pub allow_other_players_to_heal_me: bool,
}

/// Whether `s` is what an edit stores for the requested party `p`: its
/// slot, its fields as sent, and character and equipment slots kept only
/// where the player owns them.
pub open spec fn stores_party(p: &PartyInfo, characters: Seq<i64>, equipment: Seq<i64>, s: &StoredParty) -> bool {
    &&& s.location.group_id == trunc_div(p.party_id - 1, 10) + 1
    &&& s.location.slot == trunc_rem(p.party_id - 1, 10) + 1
    &&& s.edited == p.party_edited
    &&& s.name@ == p.party_name@
    &&& s.current_battle_power == p.current_battle_power
    &&& s.before_battle_power == p.before_battle_power
    &&& s.character_ids@ == spec_filter_owned(p.character_ids@, characters)
    &&& s.unison_character_ids@ == spec_filter_owned(p.unison_character_ids@, characters)
    &&& s.equipment_ids@ == spec_filter_owned(p.equipment_ids@, equipment)
    &&& s.ability_soul_ids@ == p.ability_soul_ids@
    &&& s.allow_other_players_to_heal_me == p.allow_other_players_to_heal_me
}

/// The parties an edit stores, in the order they were sent, or the
/// refusal `invalid_party_info` where any of them may not be stored (and
/// then nothing is stored).
pub fn plan_party_edit(
    parties: &Vec<PartyInfo>,
    owned_characters: &Vec<i64>,
    owned_equipment: &Vec<i64>,
) -> (r: Result<Vec<StoredParty>, JsonResponse>)
    ensures
        (exists|i: int| 0 <= i < parties@.len() && !spec_party_info_valid(&parties@[i])) <==> r is Err,
        r matches Err(e) ==> e.status@ == "400 Bad Request"@ && e.body@ == error_body(
            "invalid_party_info"@,
        ),
        r matches Ok(stored) ==> stored@.len() == parties@.len() && forall|i: int|
            0 <= i < parties@.len() ==> stores_party(
                &parties@[i],
                owned_characters@,
                owned_equipment@,
                &#[trigger] stored@[i],
            ),
{
    let mut stored: Vec<StoredParty> = Vec::new();
    let mut i: usize = 0;
    while i < parties.len()
        invariant
            i <= parties@.len(),
            stored@.len() == i,
            forall|j: int| 0 <= j < i ==> spec_party_info_valid(&parties@[j]),
            forall|j: int|
                0 <= j < i ==> stores_party(
                    &parties@[j],
                    owned_characters@,
                    owned_equipment@,
                    &#[trigger] stored@[j],
                ),
        decreases parties@.len() - i,
    {
        let p = &parties[i];
        if !party_info_valid(p) {
            return Err(error_response("400 Bad Request", "invalid_party_info"));
        }
        let location = PartyLocation::from_global_id(p.party_id);
        let party = StoredParty {
            location,
            edited: p.party_edited,
            name: p.party_name.clone(),
            current_battle_power: p.current_battle_power,
            before_battle_power: p.before_battle_power,
            character_ids: filter_owned(&p.character_ids, owned_characters),
            unison_character_ids: filter_owned(&p.unison_character_ids, owned_characters),
            equipment_ids: filter_owned(&p.equipment_ids, owned_equipment),
            ability_soul_ids: p.ability_soul_ids.clone(),
            allow_other_players_to_heal_me: p.allow_other_players_to_heal_me,
        };
        stored.push(party);
        i = i + 1;
    }
    Ok(stored)
}

/// Whether a party group edit request names a viewer, counts that are not
/// negative and at most 100 edits.
pub fn group_edit_request_valid(viewer_id: i64, api_count: i64, retry_count: i64, edit_count: usize) -> (r: bool)
    ensures
        r == (viewer_id > 0 && api_count >= 0 && retry_count >= 0 && edit_count <= 100),
{
    viewer_id > 0 && api_count >= 0 && retry_count >= 0 && edit_count <= 100
}

/// The views of a list of keys.
pub open spec fn key_views(keys: Seq<String>) -> Seq<Seq<char>> {
    keys.map_values(|k: String| k@)
}

/// The refusal of the first edit, in order, that names no group or a
/// negative color (`invalid_party_group`) or a group the player does not
/// have (`party_group_not_found`); `None` where every edit applies.
pub open spec fn group_edit_refusal(edits: Seq<(i64, i64)>, groups: Seq<Seq<char>>) -> Option<Seq<char>>
    decreases edits.len(),
{
    if edits.len() == 0 {
        None
    } else if edits[0].0 <= 0 || edits[0].1 < 0 {
        Some("invalid_party_group"@)
    } else if !groups.contains(decimal(edits[0].0 as int)) {
        Some("party_group_not_found"@)
    } else {
        group_edit_refusal(edits.drop_first(), groups)
    }
}

/// Whether `keys` holds `key`.
fn has_key(keys: &Vec<String>, key: &str) -> (r: bool)
    ensures
        r == key_views(keys@).contains(key@),
{
    let mut i: usize = 0;
    while i < keys.len()
        invariant
            i <= keys@.len(),
            forall|j: int| 0 <= j < i ==> keys@[j]@ != key@,
        decreases keys@.len() - i,
    {
        if str_eq(keys[i].as_str(), key) {
            assert(key_views(keys@)[i as int] == key@);
            return true;
        }
        i = i + 1;
    }
    proof {
        if key_views(keys@).contains(key@) {
            let j = choose|j: int| 0 <= j < key_views(keys@).len() && key_views(keys@)[j] == key@;
            assert(keys@[j]@ == key@);
        }
    }
    false
}

/// Checks the color edits of party groups, `(group id, color id)` in the
/// order sent, against the player's group keys: the refusal of the first
/// edit that cannot apply, or success, after which every color is stored.
pub fn check_party_group_edits(edits: &Vec<(i64, i64)>, group_keys: &Vec<String>) -> (r: Result<(), JsonResponse>)
    ensures
        match group_edit_refusal(edits@, key_views(group_keys@)) {
            Some(code) => r matches Err(e) && e.status@ == "400 Bad Request"@ && e.body@
                == error_body(code),
            None => r is Ok,
        },
{
    let mut i: usize = 0;
    assert(edits@.subrange(0, edits@.len() as int) =~= edits@);
    while i < edits.len()
        invariant
            i <= edits@.len(),
            group_edit_refusal(edits@, key_views(group_keys@)) == group_edit_refusal(
                edits@.subrange(i as int, edits@.len() as int),
                key_views(group_keys@),
            ),
        decreases edits@.len() - i,
    {
        let ghost rest = edits@.subrange(i as int, edits@.len() as int);
        assert(rest.drop_first() =~= edits@.subrange(i + 1, edits@.len() as int));
        let (group_id, color_id) = edits[i];
        if group_id <= 0 || color_id < 0 {
            return Err(error_response("400 Bad Request", "invalid_party_group"));
        }
        let key = decimal_string(group_id);
        if !has_key(group_keys, key.as_str()) {
            return Err(error_response("400 Bad Request", "party_group_not_found"));
        }
        i = i + 1;
    }
    assert(edits@.subrange(edits@.len() as int, edits@.len() as int).len() == 0);
    Ok(())
}

/// The default name of a party slot: "Party A" for slot 1 to "Party J" for
/// slot 10.
pub open spec fn spec_default_party_name(slot: int) -> Seq<char> {
    if slot == 1 {
        "Party A"@
    } else if slot == 2 {
        "Party B"@
    } else if slot == 3 {
        "Party C"@
    } else if slot == 4 {
        "Party D"@
    } else if slot == 5 {
        "Party E"@
    } else if slot == 6 {
        "Party F"@
    } else if slot == 7 {
        "Party G"@
    } else if slot == 8 {
        "Party H"@
    } else if slot == 9 {
        "Party I"@
    } else {
        "Party J"@
    }
}

/// The default name of a party slot from 1 to 10.
pub fn default_party_name(slot: i64) -> (r: &'static str)
    requires
        1 <= slot <= PARTY_SLOTS_PER_GROUP,
    ensures
        r@ == spec_default_party_name(slot as int),
{
    if slot == 1 {
        "Party A"
    } else if slot == 2 {
        "Party B"
    } else if slot == 3 {
        "Party C"
    } else if slot == 4 {
        "Party D"
    } else if slot == 5 {
        "Party E"
    } else if slot == 6 {
        "Party F"
    } else if slot == 7 {
        "Party G"
    } else if slot == 8 {
        "Party H"
    } else if slot == 9 {
        "Party I"
    } else {
        "Party J"
    }
}

/// A party slot that every player has: its group, its global id and the
/// name a new party there gets.
pub struct DefaultPartySlot {
    pub group_id: i64,
    pub party_id: i64,
    pub name: &'static str,
}

/// The slots every player has, group by group and slot by slot: groups 1
/// to 12, slots 1 to 10, global ids 1 to 120.
pub fn normal_party_slots() -> (r: Vec<DefaultPartySlot>)
    ensures
        r@.len() == NORMAL_PARTY_GROUP_COUNT * PARTY_SLOTS_PER_GROUP,
        forall|k: int|
            0 <= k < r@.len() ==> {
                &&& (#[trigger] r@[k]).group_id == k / 10 + 1
                &&& r@[k].party_id == k + 1
                &&& r@[k].name@ == spec_default_party_name(k % 10 + 1)
            },
{
    let mut out: Vec<DefaultPartySlot> = Vec::new();
    let mut group_id: i64 = 1;
    while group_id <= NORMAL_PARTY_GROUP_COUNT
        invariant
            1 <= group_id <= NORMAL_PARTY_GROUP_COUNT + 1,
            out@.len() == (group_id - 1) * 10,
            forall|k: int|
                0 <= k < out@.len() ==> {
                    &&& (#[trigger] out@[k]).group_id == k / 10 + 1
                    &&& out@[k].party_id == k + 1
                    &&& out@[k].name@ == spec_default_party_name(k % 10 + 1)
                },
        decreases NORMAL_PARTY_GROUP_COUNT + 1 - group_id,
    {
        let mut slot: i64 = 1;
        while slot <= PARTY_SLOTS_PER_GROUP
            invariant
                1 <= group_id <= NORMAL_PARTY_GROUP_COUNT,
                1 <= slot <= PARTY_SLOTS_PER_GROUP + 1,
                out@.len() == (group_id - 1) * 10 + slot - 1,
                forall|k: int|
                    0 <= k < out@.len() ==> {
                        &&& (#[trigger] out@[k]).group_id == k / 10 + 1
                        &&& out@[k].party_id == k + 1
                        &&& out@[k].name@ == spec_default_party_name(k % 10 + 1)
                    },
            decreases PARTY_SLOTS_PER_GROUP + 1 - slot,
        {
            let party_id = (group_id - 1) * PARTY_SLOTS_PER_GROUP + slot;
            let ghost k = out@.len() as int;
            assert(k / 10 == group_id - 1 && k % 10 == slot - 1) by (nonlinear_arith)
                requires
                    k == (group_id - 1) * 10 + slot - 1,
                    1 <= slot <= 10,
                    group_id >= 1,
            ;
            out.push(DefaultPartySlot { group_id, party_id, name: default_party_name(slot) });
            slot = slot + 1;
        }
        group_id = group_id + 1;
    }
    out
}

/// The smallest of a list of ids.
pub open spec fn min_id(ids: Seq<i64>) -> Option<i64>
    decreases ids.len(),
{
    if ids.len() == 0 {
        None
    } else {
        match min_id(ids.drop_last()) {
            Some(m) => if ids.last() < m {
                Some(ids.last())
            } else {
                Some(m)
            },
            None => Some(ids.last()),
        }
    }
}

/// Whether every key is an integer.
pub open spec fn all_keys_parse(keys: Seq<Seq<char>>) -> bool {
    forall|i: int| 0 <= i < keys.len() ==> #[trigger] spec_parse_i64(keys[i]) is Some
}

/// The integers that keys that all parse stand for.
pub open spec fn parsed_keys(keys: Seq<Seq<char>>) -> Seq<i64> {
    Seq::new(keys.len(), |i: int| spec_parse_i64(keys[i])->0)
}

/// The character that leads a new party: the configured leader where the
/// player owns it, else the character of the smallest id, else none. A
/// character key that is no integer is an error where the smallest id is
/// needed.
pub open spec fn spec_default_party_leader_id(configured: Option<i64>, character_keys: Seq<Seq<char>>) -> Option<Option<i64>> {
    if configured is Some && character_keys.contains(decimal(configured->0 as int)) {
        Some(configured)
    } else if all_keys_parse(character_keys) {
        Some(min_id(parsed_keys(character_keys)))
    } else {
        None
    }
}

/// The character that leads a new party.
pub fn default_party_leader_id(configured: Option<i64>, character_keys: &Vec<String>) -> (r: Result<
    Option<i64>,
    ServiceError,
>)
    ensures
        match spec_default_party_leader_id(configured, key_views(character_keys@)) {
            Some(leader) => r matches Ok(l) && l == leader,
            None => r matches Err(e) && e.message@ == "stored CN character id is invalid"@,
        },
{
    if let Some(leader) = configured {
        let key = decimal_string(leader);
        if has_key(character_keys, key.as_str()) {
            return Ok(Some(leader));
        }
    }
    let ghost keys = key_views(character_keys@);
    let mut smallest: Option<i64> = None;
    let mut i: usize = 0;
    while i < character_keys.len()
        invariant
            i <= character_keys@.len(),
            keys == key_views(character_keys@),
            !(configured is Some && keys.contains(decimal(configured->0 as int))),
            all_keys_parse(keys.subrange(0, i as int)),
            smallest == min_id(parsed_keys(keys.subrange(0, i as int))),
        decreases character_keys@.len() - i,
    {
        match parse_i64(character_keys[i].as_str()) {
            Some(id) => {
                let ghost before = keys.subrange(0, i as int);
                let ghost after = keys.subrange(0, i + 1);
                assert(after.drop_last() =~= before);
                assert(parsed_keys(after).drop_last() =~= parsed_keys(before));
                assert(parsed_keys(after).last() == id);
                smallest = match smallest {
                    Some(m) => if id < m {
                        Some(id)
                    } else {
                        Some(m)
                    },
                    None => Some(id),
                };
                i = i + 1;
                assert(all_keys_parse(after)) by {
                    assert forall|j: int| 0 <= j < after.len() implies #[trigger] spec_parse_i64(
                        after[j],
                    ) is Some by {
                        if j < i - 1 {
                            assert(after[j] == before[j]);
                        }
                    }
                }
            },
            None => {
                proof {
                    assert(keys[i as int] == character_keys@[i as int]@);
                    assert(spec_parse_i64(keys[i as int]) is None);
                    assert(!all_keys_parse(keys));
                }
                return Err(ServiceError::new("stored CN character id is invalid"));
            },
        }
    }
    assert(keys.subrange(0, keys.len() as int) =~= keys);
    Ok(smallest)
}


/// Whether entries come in ascending order of their ids.
pub open spec fn sorted_by_id<T>(s: Seq<(i64, T)>) -> bool {
    forall|i: int, j: int| 0 <= i < j < s.len() ==> s[i].0 <= s[j].0
}

/// Whether an entry has the id `k`.
pub open spec fn has_id<T>(k: i64) -> spec_fn((i64, T)) -> bool {
    |x: (i64, T)| x.0 == k
}

/// The entries with the id `k`, in their order.
pub open spec fn with_id<T>(s: Seq<(i64, T)>, k: i64) -> Seq<(i64, T)> {
    s.filter(has_id::<T>(k))
}

/// Inserting an entry before every entry of a larger id, and taking it
/// from the front of the rest, keeps the entries of each id in order.
proof fn lemma_insert_keeps_id_order<T>(out: Seq<(i64, T)>, pos: int, e: (i64, T), rest: Seq<(i64, T)>, k: i64)
    requires
        0 <= pos <= out.len(),
        forall|j: int| pos <= j < out.len() ==> #[trigger] out[j].0 > e.0,
    ensures
        with_id(out.insert(pos, e), k) + with_id(rest, k) == with_id(out, k) + with_id(seq![e] + rest, k),
{
    let f = has_id::<T>(k);
    let front = out.take(pos);
    let back = out.skip(pos);
    assert(out =~= front + back);
    assert(out.insert(pos, e) =~= front + (seq![e] + back));
    Seq::filter_distributes_over_add(front, back, f);
    Seq::filter_distributes_over_add(front, seq![e] + back, f);
    back.lemma_filter_prepend(e, f);
    rest.lemma_filter_prepend(e, f);
    if e.0 == k {
        assert(back.all(|x: (i64, T)| !f(x))) by {
            assert forall|j: int| 0 <= j < back.len() implies !f(back[j]) by {
                assert(back[j] == out[pos + j]);
            }
        }
        back.lemma_all_neg_filter_empty(f);
        assert(back.filter(f) =~= Seq::<(i64, T)>::empty());
    }
    assert(with_id(out.insert(pos, e), k) + with_id(rest, k) =~= with_id(out, k) + with_id(seq![e] + rest, k));
}

/// The entries in ascending order of their ids; entries of equal ids keep
/// the order they came in.
pub fn sort_by_id<T>(entries: Vec<(i64, T)>) -> (r: Vec<(i64, T)>)
    ensures
        sorted_by_id(r@),
        r@.to_multiset() == entries@.to_multiset(),
        forall|k: i64| #[trigger] with_id(r@, k) == with_id(entries@, k),
{
    broadcast use vstd::seq_lib::group_to_multiset_ensures;

    let ghost initial = entries@;
    let mut rest = entries;
    let mut out: Vec<(i64, T)> = Vec::new();
    proof {
        assert(out@.to_multiset() =~= vstd::multiset::Multiset::<(i64, T)>::empty());
    }
    while rest.len() > 0
        invariant
            initial == entries@,
            sorted_by_id(out@),
            out@.to_multiset().add(rest@.to_multiset()) == initial.to_multiset(),
            forall|k: i64| #[trigger] with_id(out@, k) + with_id(rest@, k) == with_id(initial, k),
        decreases rest@.len(),
    {
        let ghost before = rest@;
        let ghost before_out = out@;
        let entry = rest.remove(0);
        proof {
            broadcast use vstd::multiset::group_multiset_axioms;

            vstd::seq_lib::to_multiset_remove(before, 0);
            before.to_multiset_ensures();
            assert(before.contains(entry));
            assert(before.to_multiset().count(entry) > 0);
        }
        let id = entry.0;
        let mut pos: usize = 0;
        while pos < out.len() && out[pos].0 <= id
            invariant
                pos <= out@.len(),
                sorted_by_id(out@),
                forall|k: int| 0 <= k < pos ==> out@[k].0 <= id,
            decreases out@.len() - pos,
        {
            pos = pos + 1;
        }
        let ghost old_out = out@;
        out.insert(pos, entry);
        proof {
            vstd::seq_lib::to_multiset_insert(old_out, pos as int, entry);
            assert forall|i: int, j: int| 0 <= i < j < out@.len() implies out@[i].0 <= out@[j].0 by {
                if pos < old_out.len() {
                    assert(old_out[pos as int].0 > id);
                }
                if i < pos && j == pos {
                } else if i < pos && j > pos {
                    assert(out@[j] == old_out[j - 1]);
                } else if i == pos && j > pos {
                    assert(out@[j] == old_out[j - 1]);
                    assert(old_out[pos as int].0 <= old_out[j - 1].0);
                } else if i > pos {
                    assert(out@[i] == old_out[i - 1] && out@[j] == old_out[j - 1]);
                } else {
                    assert(out@[i] == old_out[i] && out@[j] == old_out[j]);
                }
            }
            broadcast use vstd::multiset::group_multiset_axioms;

            assert(out@.to_multiset().add(rest@.to_multiset()) =~= initial.to_multiset());
            assert(before =~= seq![entry] + rest@);
            assert forall|k: i64| #[trigger] with_id(out@, k) + with_id(rest@, k) == with_id(initial, k) by {
                assert forall|j: int| pos <= j < old_out.len() implies #[trigger] old_out[j].0 > entry.0 by {
                    if j > pos {
                        assert(old_out[pos as int].0 <= old_out[j].0);
                    }
                }
                lemma_insert_keeps_id_order(old_out, pos as int, entry, rest@, k);
                assert(with_id(before_out, k) + with_id(before, k) == with_id(initial, k));
            }
        }
    }
    proof {
        assert(rest@.to_multiset() =~= vstd::multiset::Multiset::<(i64, T)>::empty());
        assert(out@.to_multiset().add(rest@.to_multiset()) =~= out@.to_multiset());
        assert forall|k: i64| #[trigger] with_id(out@, k) == with_id(entries@, k) by {
            reveal(Seq::filter);
            assert(with_id(rest@, k) =~= Seq::<(i64, T)>::empty());
            assert(with_id(out@, k) + with_id(rest@, k) =~= with_id(out@, k));
        }
    }
    out
}

/// Entries keyed by text with every key read as an integer; meaningful
/// where every key is one.
pub open spec fn parse_keys<T>(entries: Seq<(String, T)>) -> Seq<(i64, T)> {
    Seq::new(entries.len(), |i: int| (spec_parse_i64(entries[i].0@)->0, entries[i].1))
}

/// Whether every key of the entries is an integer.
pub open spec fn keys_parse<T>(entries: Seq<(String, T)>) -> bool {
    forall|i: int| 0 <= i < entries.len() ==> spec_parse_i64(#[trigger] entries[i].0@) is Some
}

/// Stored entries keyed by integer text (party groups, parties), in
/// ascending order of their ids as the favorite party list shows them;
/// `None` where a key is not an integer.
pub fn order_by_numeric_id<T>(entries: Vec<(String, T)>) -> (r: Option<Vec<(i64, T)>>)
    ensures
        r is None <==> !keys_parse(entries@),
        r matches Some(sorted) ==> sorted_by_id(sorted@) && sorted@.to_multiset() == parse_keys(
            entries@,
        ).to_multiset() && forall|k: i64| #[trigger] with_id(sorted@, k) == with_id(parse_keys(entries@), k),
{
    let ghost initial = entries@;
    let mut rest = entries;
    let mut parsed: Vec<(i64, T)> = Vec::new();
    let ghost mut taken: int = 0;
    while rest.len() > 0
        invariant
            0 <= taken <= initial.len(),
            initial == entries@,
            rest@ == initial.subrange(taken, initial.len() as int),
            parsed@ == parse_keys(initial.subrange(0, taken)),
            keys_parse(initial.subrange(0, taken)),
        decreases rest@.len(),
    {
        let (key, value) = rest.remove(0);
        assert(key@ == initial[taken].0@);
        match parse_i64(key.as_str()) {
            Some(id) => {
                parsed.push((id, value));
                proof {
                    taken = taken + 1;
                    assert(rest@ =~= initial.subrange(taken, initial.len() as int));
                    assert(parsed@ =~= parse_keys(initial.subrange(0, taken)));
                    assert forall|i: int| 0 <= i < taken implies spec_parse_i64(
                        #[trigger] initial.subrange(0, taken)[i].0@,
                    ) is Some by {
                        if i < taken - 1 {
                            assert(initial.subrange(0, taken)[i] == initial.subrange(
                                0,
                                taken - 1,
                            )[i]);
                        }
                    }
                }
            },
            None => {
                proof {
                    assert(0 <= taken < initial.len());
                    assert(spec_parse_i64(initial[taken].0@) is None);
                    assert(!keys_parse(initial));
                }
                return None;
            },
        }
    }
    assert(initial.subrange(0, taken) =~= initial);
    Some(sort_by_id(parsed))
}

} // verus!
