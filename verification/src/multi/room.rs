//! Rooms with computer players: who may summon them, how many seats they
//! take, what a restored room reports, and how a computer player shows.
use vstd::prelude::*;

use crate::http::{error_body, json_error, JsonResponse};
use crate::multi::{bad_request, bad_request_body, RoomFacts};
use crate::text::{append_decimal, decimal};

verus! {

/// Why a summon is refused.
#[derive(Clone, Copy, Debug, PartialEq, Eq, Structural)]
pub enum SummonRefusal {
    /// 400: the room does not exist.
    NoRoom,
    /// 403: the viewer is not the room's host.
    RoomAccessDenied,
    /// 409: the room is for another quest.
    RoomMismatch,
}

/// Whether the viewer of this account may summon computer players for
/// this quest into the room.
pub open spec fn spec_summon_refusal(
    room: Option<RoomFacts>,
    account_id: i64,
    viewer_id: i64,
    category_id: i64,
    quest_id: i64,
) -> Option<SummonRefusal> {
    match room {
        None => Some(SummonRefusal::NoRoom),
        Some(r) => if r.host_account_id != account_id || r.host_viewer_id != viewer_id {
            Some(SummonRefusal::RoomAccessDenied)
        } else if r.category_id != category_id || r.quest_id != quest_id {
            Some(SummonRefusal::RoomMismatch)
        } else {
            None
        },
    }
}

/// Whether the viewer of this account may summon computer players for
/// this quest into the room.
pub fn summon_refusal(
    room: Option<RoomFacts>,
    account_id: i64,
    viewer_id: i64,
    category_id: i64,
    quest_id: i64,
) -> (r: Option<SummonRefusal>)
    ensures
        r == spec_summon_refusal(room, account_id, viewer_id, category_id, quest_id),
{
    match room {
        None => Some(SummonRefusal::NoRoom),
        Some(r) => if r.host_account_id != account_id || r.host_viewer_id != viewer_id {
            Some(SummonRefusal::RoomAccessDenied)
        } else if r.category_id != category_id || r.quest_id != quest_id {
            Some(SummonRefusal::RoomMismatch)
        } else {
            None
        },
    }
}

/// The answer to a refused summon.
pub fn summon_refusal_response(refusal: SummonRefusal) -> (r: JsonResponse)
    ensures
        match refusal {
            SummonRefusal::NoRoom => r.status@ == "400 Bad Request"@ && r.body@ == bad_request_body(
                "Room doesn't exist."@,
            ),
            SummonRefusal::RoomAccessDenied => r.status@ == "403 Forbidden"@ && r.body@ == error_body(
                "room_access_denied"@,
            ),
            SummonRefusal::RoomMismatch => r.status@ == "409 Conflict"@ && r.body@ == error_body(
                "room_mismatch"@,
            ),
        },
{
    match refusal {
        SummonRefusal::NoRoom => {
            proof {
                reveal_strlit("Room doesn't exist.");
            }
            bad_request("Room doesn't exist.")
        },
        SummonRefusal::RoomAccessDenied => json_error("403 Forbidden", "room_access_denied"),
        SummonRefusal::RoomMismatch => json_error("409 Conflict", "room_mismatch"),
    }
}

/// The seats computer players may take in a room of three: those the
/// prepared members leave, at most two.
pub fn available_ai_seats(prepared_members: usize) -> (r: usize)
    ensures
        r == (if prepared_members >= 3 {
            0
        } else if 3 - prepared_members > 2 {
            2
        } else {
            3 - prepared_members
        }),
{
    if prepared_members >= 3 {
        0
    } else if 3 - prepared_members > 2 {
        2
    } else {
        3 - prepared_members
    }
}

/// What restoring a room answers.
#[derive(Clone, Copy, Debug, PartialEq, Eq, Structural)]
pub enum RestoreOutcome {
    /// The room is gone: the answer for a missing room, as the same room.
    Missing,
    /// The room has moved on to another round (raising state 10).
    OtherRound,
    /// The viewer's account is no member of the round (raising state 13).
    NotMember,
    /// The viewer may return to the room.
    SameRoom,
}

/// The raising state an answer reports for a room the viewer cannot
/// return to: 10 for another round, 13 for a viewer who is no member.
pub fn restore_raising_state(outcome: RestoreOutcome) -> (r: Option<i64>)
    ensures
        r == match outcome {
            RestoreOutcome::OtherRound => Some(10i64),
            RestoreOutcome::NotMember => Some(13i64),
            _ => None,
        },
{
    match outcome {
        RestoreOutcome::OtherRound => Some(10),
        RestoreOutcome::NotMember => Some(13),
        _ => None,
    }
}

/// What restoring a room answers, from the room's current round (none
/// where the room is gone) and the account of the viewer's membership.
pub fn restore_outcome(
    room_sequence: Option<i64>,
    requested_sequence: i64,
    member_account_id: Option<i64>,
    account_id: i64,
) -> (r: RestoreOutcome)
    ensures
        r == (match room_sequence {
            None => RestoreOutcome::Missing,
            Some(s) => if s != requested_sequence {
                RestoreOutcome::OtherRound
            } else if member_account_id != Some(account_id) {
                RestoreOutcome::NotMember
            } else {
                RestoreOutcome::SameRoom
            },
        }),
{
    match room_sequence {
        None => RestoreOutcome::Missing,
        Some(s) => if s != requested_sequence {
            RestoreOutcome::OtherRound
        } else if member_account_id != Some(account_id) {
            RestoreOutcome::NotMember
        } else {
            RestoreOutcome::SameRoom
        },
    }
}

/// Whether a restore request names a viewer, a round and a room number.
pub fn restore_request_valid(viewer_id: i64, room_sequence: i64, room_number: &str) -> (r: bool)
    ensures
        r == (viewer_id > 0 && room_sequence > 0 && crate::multiplayer::spec_is_room_number(
            room_number@,
        )),
{
    viewer_id > 0 && room_sequence > 0 && crate::multiplayer::is_room_number(room_number)
}

/// Whether a summon request names a viewer, a quest and a room number.
pub fn summon_request_valid(viewer_id: i64, category_id: i64, quest_id: i64, room_number: &str) -> (r:
    bool)
    ensures
        r == (viewer_id > 0 && category_id > 0 && quest_id > 0
            && crate::multiplayer::spec_is_room_number(room_number@)),
{
    viewer_id > 0 && category_id > 0 && quest_id > 0 && crate::multiplayer::is_room_number(
        room_number,
    )
}

/// A computer player of the reference teams.
#[derive(Clone, Copy, Debug, PartialEq, Eq)]
pub struct DefaultAiTemplate {
    pub com_id: i64,
    pub character_ids: (i64, i64, i64),
    pub equipment_ids: (i64, i64, i64),
    pub rank: i64,
    pub degree_id: i64,
}

/// The reference team of a team index, where there is one.
pub open spec fn spec_default_ai_template(team_index: i64) -> Option<DefaultAiTemplate> {
    if team_index == 0 {
        Some(
            DefaultAiTemplate {
                com_id: 1,
                character_ids: (131_012, 141_007, 151_001),
                equipment_ids: (300_101, 300_201, 300_301),
                rank: 80,
                degree_id: 1,
            },
        )
    } else if team_index == 1 {
        Some(
            DefaultAiTemplate {
                com_id: 2,
                character_ids: (141_004, 121_002, 161_001),
                equipment_ids: (300_101, 300_201, 300_301),
                rank: 80,
                degree_id: 2_000,
            },
        )
    } else {
        None
    }
}

/// Whether a team is a new player's default party: the first character
/// slot holds character 1, the other two are empty, and so is every
/// equipment and unison slot.
pub open spec fn spec_is_new_player_party(
    characters: Seq<Option<i64>>,
    equipment: Seq<Option<i64>>,
    unison: Seq<Option<i64>>,
) -> bool {
    &&& characters == seq![Some(1i64), None::<i64>, None::<i64>]
    &&& forall|i: int| 0 <= i < equipment.len() ==> #[trigger] equipment[i] is None
    &&& forall|i: int| 0 <= i < unison.len() ==> #[trigger] unison[i] is None
}

/// Whether every slot is empty.
fn all_empty(slots: &Vec<Option<i64>>) -> (r: bool)
    ensures
        r == forall|i: int| 0 <= i < slots@.len() ==> #[trigger] slots@[i] is None,
{
    let mut i: usize = 0;
    while i < slots.len()
        invariant
            i <= slots@.len(),
            forall|j: int| 0 <= j < i ==> #[trigger] slots@[j] is None,
        decreases slots@.len() - i,
    {
        if slots[i].is_some() {
            return false;
        }
        i = i + 1;
    }
    true
}

/// The reference team a computer player of this team uses: for a new
/// player's default party, the reference team of its index.
pub fn default_ai_template(
    team_index: i64,
    characters: &Vec<Option<i64>>,
    equipment: &Vec<Option<i64>>,
    unison: &Vec<Option<i64>>,
) -> (r: Option<DefaultAiTemplate>)
    ensures
        r == if spec_is_new_player_party(characters@, equipment@, unison@) {
            spec_default_ai_template(team_index)
        } else {
            None
        },
{
    let first_is_one = characters.len() == 3 && characters[0] == Some(1i64) && characters[1].is_none()
        && characters[2].is_none();
    proof {
        if characters@.len() == 3 {
            assert(first_is_one == (characters@ =~= seq![Some(1i64), None::<i64>, None::<i64>]));
        }
    }
    if !(first_is_one && all_empty(equipment) && all_empty(unison)) {
        return None;
    }
    if team_index == 0 {
        Some(
            DefaultAiTemplate {
                com_id: 1,
                character_ids: (131_012, 141_007, 151_001),
                equipment_ids: (300_101, 300_201, 300_301),
                rank: 80,
                degree_id: 1,
            },
        )
    } else if team_index == 1 {
        Some(
            DefaultAiTemplate {
                com_id: 2,
                character_ids: (141_004, 121_002, 161_001),
                equipment_ids: (300_101, 300_201, 300_301),
                rank: 80,
                degree_id: 2_000,
            },
        )
    } else {
        None
    }
}

/// The ids a computer player shows under: its computer id, rank and
/// degree, its viewer id, its name and its connection id.
pub struct AiMateIdentity {
    pub com_id: i64,
    pub rank: i64,
    pub degree_id: i64,
    pub viewer_id: i64,
    pub name: String,
    pub connection_id: String,
}

/// The base of the ids computer players get.
pub const AI_ID_BASE: i64 = 900_000_000;

/// The ids a computer player at `position` of a room shows under: those of
/// its reference team, where it has one, else computer id `AI_ID_BASE`
/// plus its team index, rank 1 and degree 1; viewer id `AI_ID_BASE` plus
/// its position, name `COM <position>`, connection `<room>-npc-<position>`.
pub fn ai_mate_identity(template: Option<DefaultAiTemplate>, team_index: i64, position: i64, room_number: &str) -> (r:
    AiMateIdentity)
    requires
        AI_ID_BASE + team_index <= i64::MAX,
        AI_ID_BASE + position <= i64::MAX,
    ensures
        r.com_id == match template {
            Some(t) => t.com_id,
            None => (AI_ID_BASE + team_index) as i64,
        },
        r.rank == match template {
            Some(t) => t.rank,
            None => 1,
        },
        r.degree_id == match template {
            Some(t) => t.degree_id,
            None => 1,
        },
        r.viewer_id == AI_ID_BASE + position,
        r.name@ == "COM "@ + decimal(position as int),
        r.connection_id@ == room_number@ + "-npc-"@ + decimal(position as int),
{
    let (com_id, rank, degree_id) = match template {
        Some(t) => (t.com_id, t.rank, t.degree_id),
        None => (AI_ID_BASE + team_index, 1, 1),
    };
    let mut name = String::from_str("COM ");
    append_decimal(&mut name, position);
    let mut connection_id = room_number.to_owned();
    connection_id.append("-npc-");
    append_decimal(&mut connection_id, position);
    AiMateIdentity { com_id, rank, degree_id, viewer_id: AI_ID_BASE + position, name, connection_id }
}

/// A stored mana node entry of a computer player's character: the entry
/// itself where it is an integer, else its `mana_node_multiplied_id`, else
/// its `multiplied_id`, each where it is an integer.
#[derive(Clone, Copy, Debug, PartialEq, Eq, Structural)]
pub struct AiManaNode {
    pub as_integer: Option<i64>,
    pub mana_node_multiplied_id: Option<i64>,
    pub multiplied_id: Option<i64>,
}

/// The id a mana node entry stands for.
pub open spec fn ai_node_id(n: AiManaNode) -> Option<i64> {
    match n.as_integer {
        Some(id) => Some(id),
        None => match n.mana_node_multiplied_id {
            Some(id) => Some(id),
            None => n.multiplied_id,
        },
    }
}

/// The ids of the entries that stand for one, in order.
pub open spec fn ai_node_ids(nodes: Seq<AiManaNode>) -> Seq<i64>
    decreases nodes.len(),
{
    if nodes.len() == 0 {
        seq![]
    } else {
        match ai_node_id(nodes.last()) {
            Some(id) => ai_node_ids(nodes.drop_last()).push(id),
            None => ai_node_ids(nodes.drop_last()),
        }
    }
}

/// The mana node ids a computer player's character shows: those its
/// stored entries stand for, in any of the stored forms.
pub fn client_mana_node_ids(nodes: &Vec<AiManaNode>) -> (r: Vec<i64>)
    ensures
        r@ == ai_node_ids(nodes@),
{
    let mut out: Vec<i64> = Vec::new();
    let mut i: usize = 0;
    assert(nodes@.subrange(0, 0) =~= Seq::<AiManaNode>::empty());
    while i < nodes.len()
        invariant
            i <= nodes@.len(),
            out@ == ai_node_ids(nodes@.subrange(0, i as int)),
        decreases nodes@.len() - i,
    {
        assert(nodes@.subrange(0, i + 1).drop_last() =~= nodes@.subrange(0, i as int));
        let n = nodes[i];
        let id = match n.as_integer {
            Some(id) => Some(id),
            None => match n.mana_node_multiplied_id {
                Some(id) => Some(id),
                None => n.multiplied_id,
            },
        };
        if let Some(id) = id {
            out.push(id);
        }
        i = i + 1;
    }
    assert(nodes@.subrange(0, nodes@.len() as int) =~= nodes@);
    out
}

} // verus!
