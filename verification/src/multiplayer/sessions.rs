//! What the session listener decides about clients that went away: which
//! battle seats wait for a reconnect, which of those have waited long
//! enough, and which lobby seats are given up.
use vstd::prelude::*;

use crate::text::str_eq;

verus! {

/// How long a battle seat waits for its player to reconnect, in
/// milliseconds.
pub const BATTLE_RECONNECT_GRACE_MS: i64 = 2000;

/// The protocol state of a client.
pub enum ClientSession {
    Handshake,
    Lobby {
        room_number: String,
        room_sequence: i64,
        viewer_id: i64,
        connection_id: String,
        is_host: bool,
        legacy_protocol: bool,
    },
    Battle {
        room_number: String,
        room_sequence: i64,
        viewer_id: i64,
        connection_id: String,
        scene_ready: bool,
        finalized: bool,
    },
}

/// A client as the listener sees it: whether the peer closed, whether all
/// its queued bytes are written, its state, and the deliveries it still
/// waits to write: room notices as `(room, sequence, deadline)` and battle
/// starts as `(room, sequence, viewer)`.
pub struct ClientStatus {
    pub peer_closed: bool,
    pub write_drained: bool,
    pub session: ClientSession,
    pub room_notices: Vec<(String, i64, i64)>,
    pub battle_starts: Vec<(String, i64, i64)>,
}

/// A battle seat whose client went away, waiting until `deadline_ms` for a
/// reconnect.
pub struct BattleDisconnect {
    pub room_number: String,
    pub room_sequence: i64,
    pub viewer_id: i64,
    pub connection_id: String,
    pub deadline_ms: i64,
}

/// A lobby seat whose client went away.
pub struct LobbyLeave {
    pub room_number: String,
    pub room_sequence: i64,
    pub viewer_id: i64,
    pub connection_id: String,
}

/// A disconnect as plain values: room, sequence, viewer, connection,
/// deadline.
pub type DisconnectView = (Seq<char>, i64, i64, Seq<char>, i64);

/// The plain values of a disconnect.
pub open spec fn disconnect_view(d: BattleDisconnect) -> DisconnectView {
    (d.room_number@, d.room_sequence, d.viewer_id, d.connection_id@, d.deadline_ms)
}

/// The plain values of a list of disconnects.
pub open spec fn disconnect_views(ds: Seq<BattleDisconnect>) -> Seq<DisconnectView> {
    ds.map_values(|d: BattleDisconnect| disconnect_view(d))
}

/// A lobby leave as plain values: room, sequence, viewer, connection.
pub type LeaveView = (Seq<char>, i64, i64, Seq<char>);

/// The plain values of a list of lobby leaves.
pub open spec fn leave_views(ls: Seq<LobbyLeave>) -> Seq<LeaveView> {
    ls.map_values(|l: LobbyLeave| (l.room_number@, l.room_sequence, l.viewer_id, l.connection_id@))
}

/// Whether a client is gone: its peer closed and nothing is left to write.
pub open spec fn is_gone(c: ClientStatus) -> bool {
    c.peer_closed && c.write_drained
}

/// Whether a client is open and in the battle of this room under this
/// connection.
pub open spec fn holds_battle_seat(c: ClientStatus, room: Seq<char>, connection: Seq<char>) -> bool {
    !c.peer_closed && match c.session {
        ClientSession::Battle { room_number, connection_id, .. } => room_number@ == room
            && connection_id@ == connection,
        _ => false,
    }
}

/// Whether some open client holds the battle seat.
pub open spec fn seat_held(clients: Seq<ClientStatus>, room: Seq<char>, connection: Seq<char>) -> bool {
    exists|i: int| 0 <= i < clients.len() && holds_battle_seat(#[trigger] clients[i], room, connection)
}

/// Whether some open client holds the battle seat.
pub fn battle_seat_held(clients: &Vec<ClientStatus>, room: &str, connection: &str) -> (r: bool)
    ensures
        r == seat_held(clients@, room@, connection@),
{
    let mut i: usize = 0;
    while i < clients.len()
        invariant
            i <= clients@.len(),
            forall|j: int| 0 <= j < i ==> !holds_battle_seat(#[trigger] clients@[j], room@, connection@),
        decreases clients@.len() - i,
    {
        let c = &clients[i];
        if !c.peer_closed {
            if let ClientSession::Battle { room_number, connection_id, .. } = &c.session {
                if str_eq(room_number.as_str(), room) && str_eq(connection_id.as_str(), connection) {
                    assert(holds_battle_seat(clients@[i as int], room@, connection@));
                    return true;
                }
            }
        }
        i = i + 1;
    }
    false
}

/// Whether a disconnect for this seat is already waiting.
pub open spec fn already_waiting(pending: Seq<DisconnectView>, room: Seq<char>, sequence: i64, connection: Seq<char>) -> bool {
    exists|i: int|
        0 <= i < pending.len() && (#[trigger] pending[i]).0 == room && pending[i].1 == sequence
            && pending[i].3 == connection
}

/// The disconnects after the gone clients are seen, in client order: each
/// gone client in an unfinished battle whose seat no open client holds
/// adds a disconnect with the deadline, unless one for the seat waits
/// already.
pub open spec fn disconnects_after(
    clients: Seq<ClientStatus>,
    all: Seq<ClientStatus>,
    pending: Seq<DisconnectView>,
    deadline_ms: i64,
) -> Seq<DisconnectView>
    decreases clients.len(),
{
    if clients.len() == 0 {
        pending
    } else {
        let c = clients[0];
        let next = match c.session {
            ClientSession::Battle { room_number, room_sequence, viewer_id, connection_id, finalized, .. } => {
                if is_gone(c) && !finalized && !seat_held(all, room_number@, connection_id@)
                    && !already_waiting(pending, room_number@, room_sequence, connection_id@) {
                    pending.push(
                        (room_number@, room_sequence, viewer_id, connection_id@, deadline_ms),
                    )
                } else {
                    pending
                }
            },
            _ => pending,
        };
        disconnects_after(clients.drop_first(), all, next, deadline_ms)
    }
}

/// The lobby seats of the gone clients, in client order.
pub open spec fn lobby_leaves(clients: Seq<ClientStatus>) -> Seq<LeaveView>
    decreases clients.len(),
{
    if clients.len() == 0 {
        seq![]
    } else {
        let c = clients.last();
        let rest = lobby_leaves(clients.drop_last());
        match c.session {
            ClientSession::Lobby { room_number, room_sequence, viewer_id, connection_id, .. } => if is_gone(
                c,
            ) {
                rest.push((room_number@, room_sequence, viewer_id, connection_id@))
            } else {
                rest
            },
            _ => rest,
        }
    }
}

/// What the listener does with the gone clients.
pub struct ClosingPlan {
    pub disconnects: Vec<BattleDisconnect>,
    pub lobby_leaves: Vec<LobbyLeave>,
    pub keep: Vec<bool>,
}

/// Whether a disconnect for this seat is already waiting.
fn disconnect_waiting(pending: &Vec<BattleDisconnect>, room: &str, sequence: i64, connection: &str) -> (r: bool)
    ensures
        r == already_waiting(disconnect_views(pending@), room@, sequence, connection@),
{
    let ghost views = disconnect_views(pending@);
    let mut i: usize = 0;
    while i < pending.len()
        invariant
            i <= pending@.len(),
            views == disconnect_views(pending@),
            forall|j: int|
                0 <= j < i ==> !((#[trigger] views[j]).0 == room@ && views[j].1 == sequence
                    && views[j].3 == connection@),
        decreases pending@.len() - i,
    {
        let d = &pending[i];
        if str_eq(d.room_number.as_str(), room) && d.room_sequence == sequence && str_eq(
            d.connection_id.as_str(),
            connection,
        ) {
            assert(views[i as int].0 == room@);
            return true;
        }
        i = i + 1;
    }
    false
}

/// The listener's decisions about gone clients at `now_ms`: the battle
/// seats that now wait for a reconnect (added after those waiting
/// already), the lobby seats given up, and, per client, whether it stays.
pub fn plan_closing(clients: &Vec<ClientStatus>, pending: Vec<BattleDisconnect>, now_ms: i64) -> (r:
    ClosingPlan)
    requires
        now_ms + BATTLE_RECONNECT_GRACE_MS <= i64::MAX,
    ensures
        disconnect_views(r.disconnects@) == disconnects_after(
            clients@,
            clients@,
            disconnect_views(pending@),
            (now_ms + BATTLE_RECONNECT_GRACE_MS) as i64,
        ),
        leave_views(r.lobby_leaves@) == lobby_leaves(clients@),
        r.keep@.len() == clients@.len(),
        forall|i: int| 0 <= i < clients@.len() ==> r.keep@[i] == !is_gone(#[trigger] clients@[i]),
{
    let deadline = now_ms + BATTLE_RECONNECT_GRACE_MS;
    let ghost target = disconnects_after(clients@, clients@, disconnect_views(pending@), deadline);
    let mut disconnects = pending;
    let mut leaves: Vec<LobbyLeave> = Vec::new();
    let mut keep: Vec<bool> = Vec::new();
    let mut i: usize = 0;
    assert(clients@.subrange(0, clients@.len() as int) =~= clients@);
    assert(leave_views(leaves@) =~= lobby_leaves(clients@.subrange(0, 0)));
    while i < clients.len()
        invariant
            i <= clients@.len(),
            target == disconnects_after(
                clients@.subrange(i as int, clients@.len() as int),
                clients@,
                disconnect_views(disconnects@),
                deadline,
            ),
            leave_views(leaves@) == lobby_leaves(clients@.subrange(0, i as int)),
            keep@.len() == i,
            forall|j: int| 0 <= j < i ==> keep@[j] == !is_gone(#[trigger] clients@[j]),
        decreases clients@.len() - i,
    {
        let ghost rest = clients@.subrange(i as int, clients@.len() as int);
        assert(rest.drop_first() =~= clients@.subrange(i + 1, clients@.len() as int));
        assert(clients@.subrange(0, i + 1).drop_last() =~= clients@.subrange(0, i as int));
        let c = &clients[i];
        let gone = c.peer_closed && c.write_drained;
        match &c.session {
            ClientSession::Battle { room_number, room_sequence, viewer_id, connection_id, finalized, .. } => {
                if gone && !*finalized && !battle_seat_held(
                    clients,
                    room_number.as_str(),
                    connection_id.as_str(),
                ) && !disconnect_waiting(
                    &disconnects,
                    room_number.as_str(),
                    *room_sequence,
                    connection_id.as_str(),
                ) {
                    let ghost before = disconnect_views(disconnects@);
                    disconnects.push(
                        BattleDisconnect {
                            room_number: room_number.clone(),
                            room_sequence: *room_sequence,
                            viewer_id: *viewer_id,
                            connection_id: connection_id.clone(),
                            deadline_ms: deadline,
                        },
                    );
                    assert(disconnect_views(disconnects@) =~= before.push(
                        (room_number@, *room_sequence, *viewer_id, connection_id@, deadline),
                    ));
                }
                assert(leave_views(leaves@) =~= lobby_leaves(clients@.subrange(0, i + 1)));
            },
            ClientSession::Lobby { room_number, room_sequence, viewer_id, connection_id, .. } => {
                if gone {
                    let ghost before = leave_views(leaves@);
                    leaves.push(
                        LobbyLeave {
                            room_number: room_number.clone(),
                            room_sequence: *room_sequence,
                            viewer_id: *viewer_id,
                            connection_id: connection_id.clone(),
                        },
                    );
                    assert(leave_views(leaves@) =~= before.push(
                        (room_number@, *room_sequence, *viewer_id, connection_id@),
                    ));
                }
                assert(leave_views(leaves@) =~= lobby_leaves(clients@.subrange(0, i + 1)));
            },
            ClientSession::Handshake => {
                assert(leave_views(leaves@) =~= lobby_leaves(clients@.subrange(0, i + 1)));
            },
        }
        keep.push(!gone);
        i = i + 1;
    }
    assert(clients@.subrange(i as int, clients@.len() as int).len() == 0);
    ClosingPlan { disconnects, lobby_leaves: leaves, keep }
}

/// What becomes of a waiting disconnect at `now_ms`: dropped where its
/// seat is held again, kept waiting before its deadline, expired after.
#[derive(Clone, Copy, Debug, PartialEq, Eq, Structural)]
pub enum DisconnectFate {
    Reconnected,
    Waiting,
    Expired,
}

/// What becomes of a waiting disconnect at `now_ms`.
pub open spec fn disconnect_fate(clients: Seq<ClientStatus>, d: DisconnectView, now_ms: i64) -> DisconnectFate {
    if seat_held(clients, d.0, d.3) {
        DisconnectFate::Reconnected
    } else if d.4 > now_ms {
        DisconnectFate::Waiting
    } else {
        DisconnectFate::Expired
    }
}

/// The disconnects of a list that meet a fate, in order.
pub open spec fn with_fate(
    clients: Seq<ClientStatus>,
    ds: Seq<DisconnectView>,
    now_ms: i64,
    fate: DisconnectFate,
) -> Seq<DisconnectView>
    decreases ds.len(),
{
    if ds.len() == 0 {
        seq![]
    } else {
        let rest = with_fate(clients, ds.drop_last(), now_ms, fate);
        if disconnect_fate(clients, ds.last(), now_ms) == fate {
            rest.push(ds.last())
        } else {
            rest
        }
    }
}

/// Sorts the waiting disconnects at `now_ms` into those still waiting and
/// those whose seats are now given up, each in order; the rest, whose
/// seats are held again, are dropped.
pub fn expire_disconnects(clients: &Vec<ClientStatus>, pending: &Vec<BattleDisconnect>, now_ms: i64) -> (r: (
    Vec<BattleDisconnect>,
    Vec<BattleDisconnect>,
))
    ensures
        disconnect_views(r.0@) == with_fate(
            clients@,
            disconnect_views(pending@),
            now_ms,
            DisconnectFate::Waiting,
        ),
        disconnect_views(r.1@) == with_fate(
            clients@,
            disconnect_views(pending@),
            now_ms,
            DisconnectFate::Expired,
        ),
{
    let ghost all = disconnect_views(pending@);
    let mut waiting: Vec<BattleDisconnect> = Vec::new();
    let mut expired: Vec<BattleDisconnect> = Vec::new();
    let mut i: usize = 0;
    assert(disconnect_views(waiting@) =~= with_fate(clients@, all.subrange(0, 0), now_ms, DisconnectFate::Waiting));
    assert(disconnect_views(expired@) =~= with_fate(clients@, all.subrange(0, 0), now_ms, DisconnectFate::Expired));
    while i < pending.len()
        invariant
            i <= pending@.len(),
            all == disconnect_views(pending@),
            disconnect_views(waiting@) == with_fate(
                clients@,
                all.subrange(0, i as int),
                now_ms,
                DisconnectFate::Waiting,
            ),
            disconnect_views(expired@) == with_fate(
                clients@,
                all.subrange(0, i as int),
                now_ms,
                DisconnectFate::Expired,
            ),
        decreases pending@.len() - i,
    {
        assert(all.subrange(0, i + 1).drop_last() =~= all.subrange(0, i as int));
        assert(all.subrange(0, i + 1).last() == all[i as int]);
        let d = &pending[i];
        let copy = BattleDisconnect {
            room_number: d.room_number.clone(),
            room_sequence: d.room_sequence,
            viewer_id: d.viewer_id,
            connection_id: d.connection_id.clone(),
            deadline_ms: d.deadline_ms,
        };
        if battle_seat_held(clients, d.room_number.as_str(), d.connection_id.as_str()) {
        } else if d.deadline_ms > now_ms {
            let ghost before = disconnect_views(waiting@);
            waiting.push(copy);
            assert(disconnect_views(waiting@) =~= before.push(all[i as int]));
        } else {
            let ghost before = disconnect_views(expired@);
            expired.push(copy);
            assert(disconnect_views(expired@) =~= before.push(all[i as int]));
        }
        i = i + 1;
    }
    assert(all.subrange(0, all.len() as int) =~= all);
    (waiting, expired)
}


/// Whether no two disconnects are for the same seat (room, sequence and
/// connection).
pub open spec fn seats_unique(ds: Seq<DisconnectView>) -> bool {
    forall|i: int, j: int|
        0 <= i < j < ds.len() ==> !((#[trigger] ds[i]).0 == (#[trigger] ds[j]).0 && ds[i].1 == ds[j].1
            && ds[i].3 == ds[j].3)
}

/// A seat waits for its player at most once: where the waiting
/// disconnects are for different seats, they still are after gone clients
/// are seen.
pub proof fn lemma_disconnect_seats_stay_unique(
    clients: Seq<ClientStatus>,
    all: Seq<ClientStatus>,
    pending: Seq<DisconnectView>,
    deadline_ms: i64,
)
    requires
        seats_unique(pending),
    ensures
        seats_unique(disconnects_after(clients, all, pending, deadline_ms)),
    decreases clients.len(),
{
    if clients.len() > 0 {
        let c = clients[0];
        let next = match c.session {
            ClientSession::Battle { room_number, room_sequence, viewer_id, connection_id, finalized, .. } => {
                if is_gone(c) && !finalized && !seat_held(all, room_number@, connection_id@)
                    && !already_waiting(pending, room_number@, room_sequence, connection_id@) {
                    let d = (room_number@, room_sequence, viewer_id, connection_id@, deadline_ms);
                    let n = pending.push(d);
                    assert forall|i: int, j: int| 0 <= i < j < n.len() implies !((#[trigger] n[i]).0
                        == (#[trigger] n[j]).0 && n[i].1 == n[j].1 && n[i].3 == n[j].3) by {
                        if j == pending.len() {
                            assert(n[i] == pending[i]);
                        } else {
                            assert(n[i] == pending[i] && n[j] == pending[j]);
                        }
                    }
                    n
                } else {
                    pending
                }
            },
            _ => pending,
        };
        lemma_disconnect_seats_stay_unique(clients.drop_first(), all, next, deadline_ms);
    }
}


/// Whether a client is open and in the lobby of this room round.
pub open spec fn in_room_lobby(c: ClientStatus, room: Seq<char>, sequence: i64) -> bool {
    !c.peer_closed && match c.session {
        ClientSession::Lobby { room_number, room_sequence, .. } => room_number@ == room
            && room_sequence == sequence,
        _ => false,
    }
}

/// Whether a client is open and in the battle of this room round.
pub open spec fn in_room_battle(c: ClientStatus, room: Seq<char>, sequence: i64) -> bool {
    !c.peer_closed && match c.session {
        ClientSession::Battle { room_number, room_sequence, .. } => room_number@ == room
            && room_sequence == sequence,
        _ => false,
    }
}

/// Whether a client is open and in the lobby of this room round.
fn client_in_room_lobby(c: &ClientStatus, room: &str, sequence: i64) -> (r: bool)
    ensures
        r == in_room_lobby(*c, room@, sequence),
{
    if c.peer_closed {
        return false;
    }
    match &c.session {
        ClientSession::Lobby { room_number, room_sequence, .. } => *room_sequence == sequence
            && str_eq(room_number.as_str(), room),
        _ => false,
    }
}

/// Whether a client is open and in the battle of this room round.
fn client_in_room_battle(c: &ClientStatus, room: &str, sequence: i64) -> (r: bool)
    ensures
        r == in_room_battle(*c, room@, sequence),
{
    if c.peer_closed {
        return false;
    }
    match &c.session {
        ClientSession::Battle { room_number, room_sequence, .. } => *room_sequence == sequence
            && str_eq(room_number.as_str(), room),
        _ => false,
    }
}

/// Whether the host of this room round is open in its lobby.
pub open spec fn spec_host_lobby_active(clients: Seq<ClientStatus>, room: Seq<char>, sequence: i64) -> bool {
    exists|i: int|
        0 <= i < clients.len() && in_room_lobby(#[trigger] clients[i], room, sequence) && match clients[i].session {
            ClientSession::Lobby { is_host, .. } => is_host,
            _ => false,
        }
}

/// Whether the host of this room round is open in its lobby.
pub fn host_lobby_active(clients: &Vec<ClientStatus>, room: &str, sequence: i64) -> (r: bool)
    ensures
        r == spec_host_lobby_active(clients@, room@, sequence),
{
    let mut i: usize = 0;
    while i < clients.len()
        invariant
            i <= clients@.len(),
            forall|j: int|
                0 <= j < i ==> !(in_room_lobby(#[trigger] clients@[j], room@, sequence) && match clients@[j].session {
                    ClientSession::Lobby { is_host, .. } => is_host,
                    _ => false,
                }),
        decreases clients@.len() - i,
    {
        let c = &clients[i];
        if client_in_room_lobby(c, room, sequence) {
            if let ClientSession::Lobby { is_host, .. } = &c.session {
                if *is_host {
                    return true;
                }
            }
        }
        i = i + 1;
    }
    false
}

/// Whether a list of notice keys holds this one.
pub open spec fn has_notice(notices: Seq<(String, i64, i64)>, room: Seq<char>, sequence: i64, value: i64) -> bool {
    exists|i: int|
        0 <= i < notices.len() && (#[trigger] notices[i]).0@ == room && notices[i].1 == sequence
            && notices[i].2 == value
}

/// Whether a list of notice keys holds this one.
fn notice_pending(notices: &Vec<(String, i64, i64)>, room: &str, sequence: i64, value: i64) -> (r: bool)
    ensures
        r == has_notice(notices@, room@, sequence, value),
{
    let mut i: usize = 0;
    while i < notices.len()
        invariant
            i <= notices@.len(),
            forall|j: int|
                0 <= j < i ==> !((#[trigger] notices@[j]).0@ == room@ && notices@[j].1 == sequence
                    && notices@[j].2 == value),
        decreases notices@.len() - i,
    {
        let n = &notices[i];
        if n.1 == sequence && n.2 == value && str_eq(n.0.as_str(), room) {
            return true;
        }
        i = i + 1;
    }
    false
}

/// Which clients get a remaining-time notice of a room round: those open
/// in its lobby that do not wait to write the notice of this deadline
/// already.
pub fn remaining_time_recipients(clients: &Vec<ClientStatus>, room: &str, sequence: i64, deadline_ms: i64) -> (r:
    Vec<bool>)
    ensures
        r@.len() == clients@.len(),
        forall|i: int|
            0 <= i < clients@.len() ==> r@[i] == (in_room_lobby(#[trigger] clients@[i], room@, sequence)
                && !has_notice(clients@[i].room_notices@, room@, sequence, deadline_ms)),
{
    let mut out: Vec<bool> = Vec::new();
    let mut i: usize = 0;
    while i < clients.len()
        invariant
            i <= clients@.len(),
            out@.len() == i,
            forall|j: int|
                0 <= j < i ==> out@[j] == (in_room_lobby(#[trigger] clients@[j], room@, sequence)
                    && !has_notice(clients@[j].room_notices@, room@, sequence, deadline_ms)),
        decreases clients@.len() - i,
    {
        let c = &clients[i];
        let send = client_in_room_lobby(c, room, sequence) && !notice_pending(
            &c.room_notices,
            room,
            sequence,
            deadline_ms,
        );
        out.push(send);
        i = i + 1;
    }
    out
}

/// The tag of the start countdown frame a client gets: 10 for the legacy
/// protocol, 9 otherwise, and none for a client not open in the room
/// round's lobby.
pub open spec fn countdown_tag(c: ClientStatus, room: Seq<char>, sequence: i64) -> Option<i64> {
    if in_room_lobby(c, room, sequence) {
        match c.session {
            ClientSession::Lobby { legacy_protocol, .. } => Some(
                if legacy_protocol {
                    10
                } else {
                    9
                },
            ),
            _ => None,
        }
    } else {
        None
    }
}

/// The tag of the start countdown frame each client gets.
pub fn start_countdown_tags(clients: &Vec<ClientStatus>, room: &str, sequence: i64) -> (r: Vec<Option<i64>>)
    ensures
        r@.len() == clients@.len(),
        forall|i: int| 0 <= i < clients@.len() ==> r@[i] == countdown_tag(#[trigger] clients@[i], room@, sequence),
{
    let mut out: Vec<Option<i64>> = Vec::new();
    let mut i: usize = 0;
    while i < clients.len()
        invariant
            i <= clients@.len(),
            out@.len() == i,
            forall|j: int| 0 <= j < i ==> out@[j] == countdown_tag(#[trigger] clients@[j], room@, sequence),
        decreases clients@.len() - i,
    {
        let c = &clients[i];
        let tag = if client_in_room_lobby(c, room, sequence) {
            match &c.session {
                ClientSession::Lobby { legacy_protocol, .. } => Some(
                    if *legacy_protocol {
                        10i64
                    } else {
                        9i64
                    },
                ),
                _ => None,
            }
        } else {
            None
        };
        out.push(tag);
        i = i + 1;
    }
    out
}

/// Whether a client of the room round's battle has its scene ready for
/// this viewer.
pub open spec fn scene_ready_for(c: ClientStatus, room: Seq<char>, sequence: i64, viewer: i64) -> bool {
    in_room_battle(c, room, sequence) && match c.session {
        ClientSession::Battle { viewer_id, scene_ready, .. } => viewer_id == viewer && scene_ready,
        _ => false,
    }
}

/// Whether some open client of the room round's battle has its scene
/// ready for this viewer.
pub open spec fn viewer_ready(clients: Seq<ClientStatus>, room: Seq<char>, sequence: i64, viewer: i64) -> bool {
    exists|i: int| 0 <= i < clients.len() && scene_ready_for(#[trigger] clients[i], room, sequence, viewer)
}

/// Whether a battle can start: some viewers are expected and each of them
/// has an open client in the room round's battle with its scene ready.
pub open spec fn spec_battle_scene_ready(clients: Seq<ClientStatus>, room: Seq<char>, sequence: i64, expected: Seq<i64>) -> bool {
    &&& expected.len() > 0
    &&& forall|k: int| 0 <= k < expected.len() ==> viewer_ready(clients, room, sequence, #[trigger] expected[k])
}

/// Whether some client has its scene ready for this viewer.
fn viewer_scene_ready(clients: &Vec<ClientStatus>, room: &str, sequence: i64, viewer: i64) -> (r: bool)
    ensures
        r == viewer_ready(clients@, room@, sequence, viewer),
{
    let mut i: usize = 0;
    while i < clients.len()
        invariant
            i <= clients@.len(),
            forall|j: int| 0 <= j < i ==> !scene_ready_for(#[trigger] clients@[j], room@, sequence, viewer),
        decreases clients@.len() - i,
    {
        let c = &clients[i];
        if client_in_room_battle(c, room, sequence) {
            if let ClientSession::Battle { viewer_id, scene_ready, .. } = &c.session {
                if *viewer_id == viewer && *scene_ready {
                    assert(scene_ready_for(clients@[i as int], room@, sequence, viewer));
                    return true;
                }
            }
        }
        i = i + 1;
    }
    false
}

/// Whether a battle can start.
pub fn battle_scene_ready(clients: &Vec<ClientStatus>, room: &str, sequence: i64, expected: &Vec<i64>) -> (r: bool)
    ensures
        r == spec_battle_scene_ready(clients@, room@, sequence, expected@),
{
    if expected.len() == 0 {
        return false;
    }
    let mut k: usize = 0;
    while k < expected.len()
        invariant
            k <= expected@.len(),
            expected@.len() > 0,
            forall|q: int| 0 <= q < k ==> viewer_ready(clients@, room@, sequence, #[trigger] expected@[q]),
        decreases expected@.len() - k,
    {
        if !viewer_scene_ready(clients, room, sequence, expected[k]) {
            assert(!viewer_ready(clients@, room@, sequence, expected@[k as int]));
            return false;
        }
        k = k + 1;
    }
    true
}

/// Whether a client gets the battle start frame: it is open in the room
/// round's battle, its viewer has not been sent the start yet, and it does
/// not wait to write that start already.
pub open spec fn gets_battle_start(c: ClientStatus, room: Seq<char>, sequence: i64, undelivered: Seq<i64>) -> bool {
    in_room_battle(c, room, sequence) && match c.session {
        ClientSession::Battle { viewer_id, .. } => undelivered.contains(viewer_id) && !has_notice(
            c.battle_starts@,
            room,
            sequence,
            viewer_id,
        ),
        _ => false,
    }
}

/// Whether a list holds a viewer.
fn holds_viewer(viewers: &Vec<i64>, viewer: i64) -> (r: bool)
    ensures
        r == viewers@.contains(viewer),
{
    let mut i: usize = 0;
    while i < viewers.len()
        invariant
            i <= viewers@.len(),
            forall|j: int| 0 <= j < i ==> viewers@[j] != viewer,
        decreases viewers@.len() - i,
    {
        if viewers[i] == viewer {
            assert(viewers@[i as int] == viewer);
            return true;
        }
        i = i + 1;
    }
    false
}

/// Which clients get the battle start frame.
pub fn battle_start_recipients(clients: &Vec<ClientStatus>, room: &str, sequence: i64, undelivered: &Vec<i64>) -> (r:
    Vec<bool>)
    ensures
        r@.len() == clients@.len(),
        forall|i: int|
            0 <= i < clients@.len() ==> r@[i] == gets_battle_start(#[trigger] clients@[i], room@, sequence, undelivered@),
{
    let mut out: Vec<bool> = Vec::new();
    let mut i: usize = 0;
    while i < clients.len()
        invariant
            i <= clients@.len(),
            out@.len() == i,
            forall|j: int|
                0 <= j < i ==> out@[j] == gets_battle_start(#[trigger] clients@[j], room@, sequence, undelivered@),
        decreases clients@.len() - i,
    {
        let c = &clients[i];
        let send = if client_in_room_battle(c, room, sequence) {
            match &c.session {
                ClientSession::Battle { viewer_id, .. } => holds_viewer(undelivered, *viewer_id)
                    && !notice_pending(&c.battle_starts, room, sequence, *viewer_id),
                _ => false,
            }
        } else {
            false
        };
        out.push(send);
        i = i + 1;
    }
    out
}

/// Whether a client belongs to a room round (in its lobby or its battle,
/// open or not), so that the round's dismissal closes it.
pub open spec fn belongs_to_round(c: ClientStatus, room: Seq<char>, sequence: i64) -> bool {
    match c.session {
        ClientSession::Lobby { room_number, room_sequence, .. } => room_number@ == room
            && room_sequence == sequence,
        ClientSession::Battle { room_number, room_sequence, .. } => room_number@ == room
            && room_sequence == sequence,
        ClientSession::Handshake => false,
    }
}

/// Which clients a room round's dismissal closes.
pub fn dismissed_clients(clients: &Vec<ClientStatus>, room: &str, sequence: i64) -> (r: Vec<bool>)
    ensures
        r@.len() == clients@.len(),
        forall|i: int| 0 <= i < clients@.len() ==> r@[i] == belongs_to_round(#[trigger] clients@[i], room@, sequence),
{
    let mut out: Vec<bool> = Vec::new();
    let mut i: usize = 0;
    while i < clients.len()
        invariant
            i <= clients@.len(),
            out@.len() == i,
            forall|j: int| 0 <= j < i ==> out@[j] == belongs_to_round(#[trigger] clients@[j], room@, sequence),
        decreases clients@.len() - i,
    {
        let belongs = match &clients[i].session {
            ClientSession::Lobby { room_number, room_sequence, .. } => *room_sequence == sequence
                && str_eq(room_number.as_str(), room),
            ClientSession::Battle { room_number, room_sequence, .. } => *room_sequence == sequence
                && str_eq(room_number.as_str(), room),
            ClientSession::Handshake => false,
        };
        out.push(belongs);
        i = i + 1;
    }
    out
}


/// A member of a room as the lobby readiness rules read it.
pub struct RoomMember {
    pub viewer_id: i64,
    pub account_id: i64,
    pub entered: bool,
    pub ready: bool,
    pub connection_id: Option<String>,
}

/// Whether every entered member other than the host is ready.
pub open spec fn guests_ready(members: Seq<RoomMember>, host_account_id: i64) -> bool {
    forall|i: int|
        0 <= i < members.len() && (#[trigger] members[i]).entered && members[i].account_id
            != host_account_id ==> members[i].ready
}

/// The first entered member that is the host.
pub open spec fn host_index(members: Seq<RoomMember>, host_account_id: i64) -> Option<int>
    decreases members.len(),
{
    if members.len() == 0 {
        None
    } else if members[0].entered && members[0].account_id == host_account_id {
        Some(0)
    } else {
        match host_index(members.drop_first(), host_account_id) {
            Some(i) => Some(i + 1),
            None => None,
        }
    }
}

proof fn lemma_host_index(members: Seq<RoomMember>, host_account_id: i64)
    ensures
        host_index(members, host_account_id) matches Some(i) ==> 0 <= i < members.len()
            && members[i].entered && members[i].account_id == host_account_id,
    decreases members.len(),
{
    if members.len() > 0 && !(members[0].entered && members[0].account_id == host_account_id) {
        lemma_host_index(members.drop_first(), host_account_id);
    }
}

/// The members' presence once the host follows its guests: the host is
/// ready exactly when every guest is.
pub open spec fn presence_after(members: Seq<RoomMember>, host_account_id: i64) -> Seq<crate::multiplayer::MemberPresence> {
    Seq::new(
        members.len(),
        |i: int|
            crate::multiplayer::MemberPresence {
                entered: members[i].entered,
                ready: if host_index(members, host_account_id) == Some(i) {
                    guests_ready(members, host_account_id)
                } else {
                    members[i].ready
                },
            },
    )
}

/// What the lobby readiness rules do: set the host's readiness (with the
/// connection the change is shown under), and start the countdown.
pub struct ReadinessDecision {
    pub host_update: Option<(i64, bool)>,
    pub host_connection: Option<String>,
    pub start_countdown: bool,
}

/// The view of an optional text.
pub open spec fn opt_text(s: Option<String>) -> Option<Seq<char>> {
    match s {
        Some(t) => Some(t@),
        None => None,
    }
}

/// The lobby readiness rules, for a lobby of `roster_len` players (humans
/// and shown computer players): with fewer than two nothing happens; else
/// the host's readiness follows its guests, and with three or more players,
/// every entered human ready (after that change) and no countdown running
/// yet, the start countdown begins.
pub fn lobby_readiness(members: &Vec<RoomMember>, host_account_id: i64, roster_len: usize, countdown_running: bool) -> (r:
    ReadinessDecision)
    ensures
        roster_len < 2 ==> r.host_update is None && !r.start_countdown,
        roster_len >= 2 ==> match host_index(members@, host_account_id) {
            Some(h) => if members@[h].ready != guests_ready(members@, host_account_id) {
                r.host_update == Some((members@[h].viewer_id, guests_ready(members@, host_account_id)))
                    && opt_text(r.host_connection) == opt_text(members@[h].connection_id)
            } else {
                r.host_update is None
            },
            None => r.host_update is None,
        },
        roster_len >= 2 ==> r.start_countdown == (roster_len >= 3 && crate::multiplayer::spec_all_ready(
            presence_after(members@, host_account_id),
        ) && !countdown_running),
{
    if roster_len < 2 {
        return ReadinessDecision { host_update: None, host_connection: None, start_countdown: false };
    }
    proof {
        lemma_host_index(members@, host_account_id);
    }
    let mut guests = true;
    let mut host: Option<usize> = None;
    let mut i: usize = 0;
    assert(members@.subrange(0, members@.len() as int) =~= members@);
    while i < members.len()
        invariant
            i <= members@.len(),
            guests == forall|j: int|
                0 <= j < i && (#[trigger] members@[j]).entered && members@[j].account_id
                    != host_account_id ==> members@[j].ready,
            match host {
                Some(h) => host_index(members@, host_account_id) == Some(h as int) && h < i,
                None => host_index(members@, host_account_id) == match host_index(
                    members@.subrange(i as int, members@.len() as int),
                    host_account_id,
                ) {
                    Some(k) => Some(k + i),
                    None => None::<int>,
                },
            },
        decreases members@.len() - i,
    {
        let ghost rest = members@.subrange(i as int, members@.len() as int);
        assert(rest.drop_first() =~= members@.subrange(i + 1, members@.len() as int));
        let m = &members[i];
        if m.entered && m.account_id != host_account_id && !m.ready {
            guests = false;
        }
        if host.is_none() && m.entered && m.account_id == host_account_id {
            host = Some(i);
        }
        i = i + 1;
    }
    assert(guests == guests_ready(members@, host_account_id));
    let mut host_update: Option<(i64, bool)> = None;
    let mut host_connection: Option<String> = None;
    if let Some(h) = host {
        if members[h].ready != guests {
            host_update = Some((members[h].viewer_id, guests));
            host_connection = members[h].connection_id.clone();
        }
    }
    let ghost after = presence_after(members@, host_account_id);
    let mut any_entered = false;
    let mut all_ready = true;
    let mut k: usize = 0;
    while k < members.len()
        invariant
            k <= members@.len(),
            after == presence_after(members@, host_account_id),
            guests == guests_ready(members@, host_account_id),
            match host {
                Some(h) => host_index(members@, host_account_id) == Some(h as int),
                None => host_index(members@, host_account_id) is None,
            },
            any_entered == exists|j: int| 0 <= j < k && (#[trigger] after[j]).entered,
            all_ready == forall|j: int| 0 <= j < k && (#[trigger] after[j]).entered ==> after[j].ready,
        decreases members@.len() - k,
    {
        let m = &members[k];
        let ready = match host {
            Some(h) => if h == k {
                guests
            } else {
                m.ready
            },
            None => m.ready,
        };
        assert(after[k as int].ready == ready && after[k as int].entered == m.entered);
        if m.entered {
            any_entered = true;
            if !ready {
                all_ready = false;
            }
        }
        k = k + 1;
    }
    let everyone = any_entered && all_ready;
    ReadinessDecision {
        host_update,
        host_connection,
        start_countdown: roster_len >= 3 && everyone && !countdown_running,
    }
}

} // verus!
