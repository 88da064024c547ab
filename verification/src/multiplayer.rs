//! The multiplayer session transport: NUL-separated frames, the write queue
//! of a client, connection ids and room numbers.
use vstd::prelude::*;
use crate::error::ServiceError;
use crate::random::random_bytes;
use crate::text::{append_hex, hex_lower};
use vstd::utf8::encode_utf8;

pub mod sessions;
pub mod lobby_player;

verus! {

/// Whether a byte is ASCII whitespace (space, tab, line feed, form feed or
/// carriage return).
pub open spec fn is_ascii_whitespace(b: u8) -> bool {
    b == 0x20 || b == 0x09 || b == 0x0a || b == 0x0c || b == 0x0d
}

/// Whether a frame holds only whitespace; such frames are skipped.
pub open spec fn is_blank(frame: Seq<u8>) -> bool {
    forall|i: int| 0 <= i < frame.len() ==> is_ascii_whitespace(#[trigger] frame[i])
}

/// Whether a byte sequence holds no NUL separator.
pub open spec fn has_no_nul(s: Seq<u8>) -> bool {
    forall|i: int| 0 <= i < s.len() ==> #[trigger] s[i] != 0
}

/// The position of the first NUL byte, if any.
pub open spec fn nul_position(s: Seq<u8>) -> Option<nat>
    decreases s.len(),
{
    if s.len() == 0 {
        None
    } else if s[0] == 0 {
        Some(0)
    } else {
        match nul_position(s.drop_first()) {
            Some(k) => Some(k + 1),
            None => None,
        }
    }
}

/// The frames that a buffer holds before its last NUL, blank ones left out,
/// and the bytes after that NUL, which wait for more input.
pub open spec fn split_frames_spec(s: Seq<u8>) -> (Seq<Seq<u8>>, Seq<u8>)
    decreases s.len(),
{
    match nul_position(s) {
        None => (seq![], s),
        Some(k) => {
            if k < s.len() {
                let raw = s.subrange(0, k as int);
                let tail = split_frames_spec(s.subrange(k + 1int, s.len() as int));
                if is_blank(raw) {
                    tail
                } else {
                    (seq![raw] + tail.0, tail.1)
                }
            } else {
                (seq![], s)
            }
        },
    }
}

proof fn lemma_nul_position_bound(s: Seq<u8>)
    ensures
        nul_position(s) matches Some(k) ==> k < s.len() && s[k as int] == 0 && has_no_nul(
            s.subrange(0, k as int),
        ),
        nul_position(s) is None ==> has_no_nul(s),
    decreases s.len(),
{
    if s.len() > 0 && s[0] != 0 {
        lemma_nul_position_bound(s.drop_first());
        match nul_position(s.drop_first()) {
            Some(k) => {
                assert forall|i: int| 0 <= i < k + 1 implies #[trigger] s.subrange(
                    0,
                    k + 1int,
                )[i] != 0 by {
                    if i > 0 {
                        assert(s.subrange(0, k + 1int)[i] == s.drop_first().subrange(0, k as int)[i
                            - 1]);
                    }
                }
            },
            None => {
                assert forall|i: int| 0 <= i < s.len() implies #[trigger] s[i] != 0 by {
                    if i > 0 {
                        assert(s[i] == s.drop_first()[i - 1]);
                    }
                }
            },
        }
    }
}

/// The first NUL of `s` is at `k` when `s[k]` is NUL and no earlier byte is.
proof fn lemma_nul_position_at(s: Seq<u8>, k: int)
    requires
        0 <= k < s.len(),
        s[k] == 0,
        has_no_nul(s.subrange(0, k)),
    ensures
        nul_position(s) == Some(k as nat),
    decreases k,
{
    if k > 0 {
        assert(s.subrange(0, k)[0] == s[0]);
        assert(s.drop_first().subrange(0, k - 1) =~= s.subrange(0, k).drop_first());
        assert forall|i: int| 0 <= i < k - 1 implies #[trigger] s.drop_first().subrange(
            0,
            k - 1,
        )[i] != 0 by {
            assert(s.drop_first().subrange(0, k - 1)[i] == s.subrange(0, k)[i + 1]);
        }
        lemma_nul_position_at(s.drop_first(), k - 1);
    }
}

/// A buffer without NUL is not split.
proof fn lemma_nul_position_none(s: Seq<u8>)
    requires
        has_no_nul(s),
    ensures
        nul_position(s) is None,
    decreases s.len(),
{
    if s.len() > 0 {
        assert forall|i: int| 0 <= i < s.len() - 1 implies #[trigger] s.drop_first()[i] != 0 by {
            assert(s.drop_first()[i] == s[i + 1]);
        }
        lemma_nul_position_none(s.drop_first());
    }
}

/// The complete frames of a buffer, blank ones skipped, and what is left
/// after the last NUL.
pub struct FrameSplit {
    pub frames: Vec<Vec<u8>>,
    pub rest: Vec<u8>,
}

/// The view of a list of frames.
pub open spec fn frame_views(frames: Seq<Vec<u8>>) -> Seq<Seq<u8>> {
    frames.map_values(|f: Vec<u8>| f@)
}

/// Whether a slice of bytes holds only whitespace.
fn blank(buffer: &[u8], start: usize, end: usize) -> (r: bool)
    requires
        start <= end <= buffer@.len(),
    ensures
        r == is_blank(buffer@.subrange(start as int, end as int)),
{
    let mut i = start;
    while i < end
        invariant
            start <= i <= end <= buffer@.len(),
            forall|j: int| start <= j < i ==> is_ascii_whitespace(#[trigger] buffer@[j]),
        decreases end - i,
    {
        let b = buffer[i];
        if !(b == 0x20 || b == 0x09 || b == 0x0a || b == 0x0c || b == 0x0d) {
            assert(buffer@.subrange(start as int, end as int)[i - start] == b);
            return false;
        }
        i = i + 1;
    }
    assert forall|j: int| 0 <= j < end - start implies is_ascii_whitespace(
        #[trigger] buffer@.subrange(start as int, end as int)[j],
    ) by {
        assert(buffer@.subrange(start as int, end as int)[j] == buffer@[start + j]);
    }
    true
}

/// A copy of `buffer[start..end]`.
fn copy_range(buffer: &[u8], start: usize, end: usize) -> (r: Vec<u8>)
    requires
        start <= end <= buffer@.len(),
    ensures
        r@ == buffer@.subrange(start as int, end as int),
{
    let mut out: Vec<u8> = Vec::new();
    let mut i = start;
    while i < end
        invariant
            start <= i <= end <= buffer@.len(),
            out@ == buffer@.subrange(start as int, i as int),
        decreases end - i,
    {
        out.push(buffer[i]);
        i = i + 1;
        assert(out@ =~= buffer@.subrange(start as int, i as int));
    }
    out
}

/// Splits received bytes into the frames they complete.
pub fn split_frames(buffer: &[u8]) -> (r: FrameSplit)
    ensures
        frame_views(r.frames@) == split_frames_spec(buffer@).0,
        r.rest@ == split_frames_spec(buffer@).1,
{
    let ghost whole = buffer@;
    let mut frames: Vec<Vec<u8>> = Vec::new();
    let mut start: usize = 0;
    let mut i: usize = 0;
    proof {
        assert(whole.subrange(0, whole.len() as int) =~= whole);
        assert(frame_views(frames@) + split_frames_spec(whole).0 =~= split_frames_spec(whole).0);
    }
    while i < buffer.len()
        invariant
            whole == buffer@,
            start <= i <= buffer@.len(),
            has_no_nul(buffer@.subrange(start as int, i as int)),
            split_frames_spec(whole) == (
                frame_views(frames@) + split_frames_spec(
                    whole.subrange(start as int, whole.len() as int),
                ).0,
                split_frames_spec(whole.subrange(start as int, whole.len() as int)).1,
            ),
        decreases buffer@.len() - i,
    {
        if buffer[i] == 0 {
            let ghost s = whole.subrange(start as int, whole.len() as int);
            proof {
                assert(s.subrange(0, i - start) =~= whole.subrange(start as int, i as int));
                lemma_nul_position_at(s, i - start);
                assert(s.subrange(i - start + 1, s.len() as int) =~= whole.subrange(
                    i + 1,
                    whole.len() as int,
                ));
            }
            let is_blank_frame = blank(buffer, start, i);
            if !is_blank_frame {
                let frame = copy_range(buffer, start, i);
                let ghost old_frames = frames@;
                frames.push(frame);
                proof {
                    assert(frame_views(frames@) =~= frame_views(old_frames) + seq![
                        whole.subrange(start as int, i as int),
                    ]);
                }
            }
            start = i + 1;
            i = i + 1;
            assert(buffer@.subrange(start as int, i as int) =~= Seq::<u8>::empty());
        } else {
            i = i + 1;
            assert forall|j: int| 0 <= j < i - start implies #[trigger] buffer@.subrange(
                start as int,
                i as int,
            )[j] != 0 by {
                if j < i - 1 - start {
                    assert(buffer@.subrange(start as int, i as int)[j] == buffer@.subrange(
                        start as int,
                        i - 1,
                    )[j]);
                }
            }
        }
    }
    proof {
        assert(buffer@.subrange(start as int, i as int) =~= whole.subrange(
            start as int,
            whole.len() as int,
        ));
        lemma_nul_position_none(whole.subrange(start as int, whole.len() as int));
        assert(frame_views(frames@) + Seq::<Seq<u8>>::empty() =~= frame_views(frames@));
    }
    let rest = copy_range(buffer, start, buffer.len());
    FrameSplit { frames, rest }
}

/// A frame on the wire: its bytes and a NUL.
pub open spec fn encoded_frame(payload: Seq<u8>) -> Seq<u8> {
    payload.push(0)
}

/// The frames one after another, each followed by its NUL.
pub open spec fn encoded_frames(frames: Seq<Seq<u8>>) -> Seq<u8>
    decreases frames.len(),
{
    if frames.len() == 0 {
        seq![]
    } else {
        encoded_frame(frames[0]) + encoded_frames(frames.drop_first())
    }
}

/// Splitting undoes framing: frames that hold no NUL and are not blank,
/// written one after another and followed by a partial frame without NUL,
/// are read back as the same frames, with the partial frame left over.
pub proof fn lemma_split_undoes_framing(frames: Seq<Seq<u8>>, partial: Seq<u8>)
    requires
        forall|i: int| 0 <= i < frames.len() ==> has_no_nul(#[trigger] frames[i]),
        forall|i: int| 0 <= i < frames.len() ==> !is_blank(#[trigger] frames[i]),
        has_no_nul(partial),
    ensures
        split_frames_spec(encoded_frames(frames) + partial) == (frames, partial),
    decreases frames.len(),
{
    if frames.len() == 0 {
        assert(encoded_frames(frames) + partial =~= partial);
        lemma_nul_position_none(partial);
        assert(split_frames_spec(partial) == (Seq::<Seq<u8>>::empty(), partial));
        assert(frames =~= Seq::<Seq<u8>>::empty());
    } else {
        let f = frames[0];
        let tail = frames.drop_first();
        let s = encoded_frames(frames) + partial;
        assert(s =~= f.push(0) + (encoded_frames(tail) + partial));
        assert(s.subrange(0, f.len() as int) =~= f);
        lemma_nul_position_at(s, f.len() as int);
        assert(s.subrange(f.len() + 1int, s.len() as int) =~= encoded_frames(tail) + partial);
        assert forall|i: int| 0 <= i < tail.len() implies has_no_nul(#[trigger] tail[i]) by {
            assert(tail[i] == frames[i + 1]);
        }
        assert forall|i: int| 0 <= i < tail.len() implies !is_blank(#[trigger] tail[i]) by {
            assert(tail[i] == frames[i + 1]);
        }
        lemma_split_undoes_framing(tail, partial);
        assert(seq![f] + tail =~= frames);
    }
}

/// The bytes a client has queued and written: `queued_bytes` counts every
/// byte ever queued, `flushed_bytes` every byte written, and `pending` the
/// bytes between them.
pub struct WriteQueue {
    pub pending: Vec<u8>,
    pub queued_bytes: u64,
    pub flushed_bytes: u64,
}

impl WriteQueue {
    /// The counters agree with what is pending.
    pub open spec fn wf(&self) -> bool {
        self.queued_bytes == self.flushed_bytes + self.pending@.len()
    }

    /// An empty queue.
    pub fn new() -> (r: WriteQueue)
        ensures
            r.wf(),
            r.pending@ == Seq::<u8>::empty(),
            r.queued_bytes == 0,
            r.flushed_bytes == 0,
    {
        WriteQueue { pending: Vec::new(), queued_bytes: 0, flushed_bytes: 0 }
    }

    /// Queues a frame; fails, changing nothing, where the count of queued
    /// bytes would leave the range of `u64`.
    pub fn queue_frame(&mut self, payload: &[u8]) -> (r: Result<(), ServiceError>)
        requires
            old(self).wf(),
        ensures
            final(self).wf(),
            r is Ok <==> old(self).queued_bytes + payload@.len() + 1 <= u64::MAX,
            r is Ok ==> final(self).pending@ == old(self).pending@ + encoded_frame(payload@)
                && final(self).queued_bytes == old(self).queued_bytes + payload@.len() + 1
                && final(self).flushed_bytes == old(self).flushed_bytes,
            r is Err ==> *final(self) == *old(self),
    {
        let len = payload.len() as u64;
        if len == u64::MAX || self.queued_bytes > u64::MAX - (len + 1) {
            return Err(ServiceError::new("multiplayer queued byte count overflow"));
        }
        let mut i: usize = 0;
        let ghost before = self.pending@;
        while i < payload.len()
            invariant
                i <= payload@.len(),
                self.pending@ == before + payload@.subrange(0, i as int),
                self.queued_bytes == old(self).queued_bytes,
                self.flushed_bytes == old(self).flushed_bytes,
            decreases payload@.len() - i,
        {
            self.pending.push(payload[i]);
            i = i + 1;
            assert(self.pending@ =~= before + payload@.subrange(0, i as int));
        }
        self.pending.push(0);
        assert(self.pending@ =~= before + encoded_frame(payload@));
        self.queued_bytes = self.queued_bytes + len + 1;
        Ok(())
    }

    /// Records that the first `count` pending bytes were written.
    pub fn record_flushed(&mut self, count: usize)
        requires
            old(self).wf(),
            count <= old(self).pending@.len(),
        ensures
            final(self).wf(),
            final(self).pending@ == old(self).pending@.subrange(
                count as int,
                old(self).pending@.len() as int,
            ),
            final(self).flushed_bytes == old(self).flushed_bytes + count,
            final(self).queued_bytes == old(self).queued_bytes,
    {
        let mut kept: Vec<u8> = Vec::new();
        let mut i = count;
        while i < self.pending.len()
            invariant
                count <= i <= self.pending@.len(),
                kept@ == self.pending@.subrange(count as int, i as int),
            decreases self.pending@.len() - i,
        {
            kept.push(self.pending[i]);
            i = i + 1;
            assert(kept@ =~= self.pending@.subrange(count as int, i as int));
        }
        self.pending = kept;
        self.flushed_bytes = self.flushed_bytes + count as u64;
    }

    /// Drops what is pending, as after the peer has gone.
    pub fn discard_pending(&mut self)
        requires
            old(self).wf(),
        ensures
            final(self).wf(),
            final(self).pending@ == Seq::<u8>::empty(),
            final(self).queued_bytes == old(self).flushed_bytes,
            final(self).flushed_bytes == old(self).flushed_bytes,
    {
        self.pending = Vec::new();
        self.queued_bytes = self.flushed_bytes;
    }
}


/// A JSON value of a lobby frame, as far as the lobby reads it.
pub enum FrameValue {
    Int(i64),
    Bool(bool),
    Text(String),
    Null,
    Array(Vec<FrameValue>),
    Other,
}

/// What the lobby does with a frame from a member.
#[derive(Clone, Copy, Debug, PartialEq, Eq, Structural)]
pub enum LobbyAction {
    /// Relay the frame to the whole lobby.
    Broadcast,
    /// Relay the frame to one viewer.
    SendTo(i64),
    /// Close the connection: the frame is malformed or not allowed.
    Close,
    /// Enter the lobby with the player that the command describes.
    Enter,
    /// Answer with the roster and close after writing.
    Roster,
    /// Change to the party with this id.
    ChangeParty(i64),
    SetReady(bool),
    /// Answer with this acknowledgement code.
    Acknowledge(i64),
    Unready,
    /// The host starts the lobby.
    Start,
    /// Switch autoplay, and speed up where asked.
    Autoplay(bool, bool),
    AutoStart(bool),
    /// The host names the computer players.
    NameComputerPlayers,
    Ignore,
}

/// The integer of a frame value.
pub open spec fn int_of(v: FrameValue) -> Option<i64> {
    match v {
        FrameValue::Int(n) => Some(n),
        _ => None,
    }
}

/// The boolean of a frame value.
pub open spec fn bool_of(v: FrameValue) -> Option<bool> {
    match v {
        FrameValue::Bool(b) => Some(b),
        _ => None,
    }
}

/// Whether a frame value is a positive integer.
pub open spec fn positive_int(v: FrameValue) -> bool {
    int_of(v) matches Some(p) && p > 0
}

/// Whether a frame value is a ready state: `[0]` or `[1]`.
pub open spec fn ready_state(v: FrameValue) -> bool {
    v matches FrameValue::Array(state) && state@.len() == 1 && (int_of(state@[0]) == Some(0i64)
        || int_of(state@[0]) == Some(1i64))
}

/// What a lobby command asks for.
pub open spec fn spec_command_action(cmd: Seq<FrameValue>, is_host: bool, legacy_protocol: bool) -> LobbyAction {
    let kind = if cmd.len() > 0 {
        int_of(cmd[0])
    } else {
        None
    };
    match kind {
        Some(0) => LobbyAction::Enter,
        Some(1) => if cmd.len() == 1 {
            LobbyAction::Roster
        } else {
            LobbyAction::Close
        },
        Some(2) => if cmd.len() == 4 && bool_of(cmd[2]) is Some && positive_int(cmd[3]) {
            LobbyAction::ChangeParty(int_of(cmd[3])->0)
        } else {
            LobbyAction::Close
        },
        Some(3) => if cmd.len() == 2 && ready_state(cmd[1]) {
            LobbyAction::SetReady(cmd[1]->Array_0@[0] == FrameValue::Int(1))
        } else {
            LobbyAction::Close
        },
        Some(4) => if cmd.len() == 1 {
            LobbyAction::Acknowledge(if legacy_protocol { 11 } else { 10 })
        } else {
            LobbyAction::Close
        },
        Some(5) => if cmd.len() == 1 {
            LobbyAction::Unready
        } else {
            LobbyAction::Close
        },
        Some(6) => if cmd.len() == 1 && is_host {
            LobbyAction::Start
        } else {
            LobbyAction::Close
        },
        Some(7) => if cmd.len() == 3 && bool_of(cmd[1]) is Some && bool_of(cmd[2]) is Some {
            LobbyAction::Autoplay(bool_of(cmd[1])->0, bool_of(cmd[2])->0)
        } else {
            LobbyAction::Close
        },
        Some(8) => if cmd.len() == 2 && bool_of(cmd[1]) is Some {
            LobbyAction::AutoStart(bool_of(cmd[1])->0)
        } else {
            LobbyAction::Close
        },
        Some(10) => if cmd.len() == 2 && is_host {
            LobbyAction::NameComputerPlayers
        } else {
            LobbyAction::Close
        },
        _ => LobbyAction::Ignore,
    }
}

/// What a lobby frame asks for: `[1, [..]]` is relayed to the lobby,
/// `[2, viewer, ..]` to one viewer, `[0, [command..]]` is a command, and
/// anything else closes the connection.
pub open spec fn spec_lobby_action(frame: FrameValue, is_host: bool, legacy_protocol: bool) -> LobbyAction {
    match frame {
        FrameValue::Array(items) => {
            let s = items@;
            if s.len() == 2 && int_of(s[0]) == Some(1i64) && s[1] is Array {
                LobbyAction::Broadcast
            } else if s.len() == 3 && int_of(s[0]) == Some(2i64) && positive_int(s[1]) {
                LobbyAction::SendTo(int_of(s[1])->0)
            } else if s.len() == 2 && int_of(s[0]) == Some(0i64) && s[1] is Array {
                spec_command_action(s[1]->Array_0@, is_host, legacy_protocol)
            } else {
                LobbyAction::Close
            }
        },
        _ => LobbyAction::Close,
    }
}

fn frame_int(v: &FrameValue) -> (r: Option<i64>)
    ensures
        r == int_of(*v),
{
    match v {
        FrameValue::Int(n) => Some(*n),
        _ => None,
    }
}

fn frame_bool(v: &FrameValue) -> (r: Option<bool>)
    ensures
        r == bool_of(*v),
{
    match v {
        FrameValue::Bool(b) => Some(*b),
        _ => None,
    }
}

/// What a lobby command asks for.
pub fn command_action(cmd: &Vec<FrameValue>, is_host: bool, legacy_protocol: bool) -> (r: LobbyAction)
    ensures
        r == spec_command_action(cmd@, is_host, legacy_protocol),
{
    let kind = if cmd.len() > 0 {
        frame_int(&cmd[0])
    } else {
        None
    };
    match kind {
        Some(0) => LobbyAction::Enter,
        Some(1) => if cmd.len() == 1 {
            LobbyAction::Roster
        } else {
            LobbyAction::Close
        },
        Some(2) => {
            if cmd.len() == 4 && frame_bool(&cmd[2]).is_some() {
                match frame_int(&cmd[3]) {
                    Some(p) => if p > 0 {
                        LobbyAction::ChangeParty(p)
                    } else {
                        LobbyAction::Close
                    },
                    None => LobbyAction::Close,
                }
            } else {
                LobbyAction::Close
            }
        },
        Some(3) => {
            if cmd.len() == 2 {
                match &cmd[1] {
                    FrameValue::Array(state) => {
                        if state.len() == 1 {
                            match frame_int(&state[0]) {
                                Some(0) => LobbyAction::SetReady(false),
                                Some(1) => LobbyAction::SetReady(true),
                                _ => LobbyAction::Close,
                            }
                        } else {
                            LobbyAction::Close
                        }
                    },
                    _ => LobbyAction::Close,
                }
            } else {
                LobbyAction::Close
            }
        },
        Some(4) => if cmd.len() == 1 {
            LobbyAction::Acknowledge(if legacy_protocol { 11 } else { 10 })
        } else {
            LobbyAction::Close
        },
        Some(5) => if cmd.len() == 1 {
            LobbyAction::Unready
        } else {
            LobbyAction::Close
        },
        Some(6) => if cmd.len() == 1 && is_host {
            LobbyAction::Start
        } else {
            LobbyAction::Close
        },
        Some(7) => {
            if cmd.len() == 3 {
                match (frame_bool(&cmd[1]), frame_bool(&cmd[2])) {
                    (Some(autoplay), Some(speed_up)) => LobbyAction::Autoplay(autoplay, speed_up),
                    _ => LobbyAction::Close,
                }
            } else {
                LobbyAction::Close
            }
        },
        Some(8) => {
            if cmd.len() == 2 {
                match frame_bool(&cmd[1]) {
                    Some(b) => LobbyAction::AutoStart(b),
                    None => LobbyAction::Close,
                }
            } else {
                LobbyAction::Close
            }
        },
        Some(10) => if cmd.len() == 2 && is_host {
            LobbyAction::NameComputerPlayers
        } else {
            LobbyAction::Close
        },
        _ => LobbyAction::Ignore,
    }
}

/// What a lobby frame asks for.
pub fn lobby_action(frame: &FrameValue, is_host: bool, legacy_protocol: bool) -> (r: LobbyAction)
    ensures
        r == spec_lobby_action(*frame, is_host, legacy_protocol),
{
    match frame {
        FrameValue::Array(items) => {
            if items.len() == 2 && frame_int(&items[0]) == Some(1i64) {
                if let FrameValue::Array(_) = &items[1] {
                    return LobbyAction::Broadcast;
                }
            }
            if items.len() == 3 && frame_int(&items[0]) == Some(2i64) {
                match frame_int(&items[1]) {
                    Some(v) => if v > 0 {
                        return LobbyAction::SendTo(v);
                    },
                    None => {},
                }
            }
            if items.len() == 2 && frame_int(&items[0]) == Some(0i64) {
                if let FrameValue::Array(cmd) = &items[1] {
                    return command_action(cmd, is_host, legacy_protocol);
                }
            }
            LobbyAction::Close
        },
        _ => LobbyAction::Close,
    }
}

/// What the lobby learned while carrying out a command: whether the room
/// is still the member's room, whether the database accepted the command's
/// write (the entered player, the changed party, the staged start or the
/// named computer players), whether other players had entered before this
/// one, whether the entering player is ready, whether the lobby has
/// started, whether every human member is ready, and whether the host named
/// no computer player.
#[derive(Clone, Copy, Debug, PartialEq, Eq, Structural)]
pub struct LobbyFacts {
    pub room_current: bool,
    pub accepted: bool,
    pub had_existing_players: bool,
    pub entering_ready: bool,
    pub lobby_started: bool,
    pub all_ready: bool,
    pub names_empty: bool,
}

/// What the lobby sends or does after a command.
#[derive(Clone, Copy, Debug, PartialEq, Eq, Structural)]
pub enum LobbyEffect {
    /// Relay the frame to the whole lobby.
    RelayToLobby,
    /// Relay the frame to one viewer.
    RelayTo(i64),
    /// Close the member's connection.
    Close,
    /// Welcome the entering member: with its own player in the legacy
    /// protocol, else with the room and the roster.
    Welcome { legacy: bool },
    /// Send everyone the roster of the waiting lobby.
    BroadcastRoster,
    /// Send everyone that a member is (or is no longer) ready.
    BroadcastReady(bool),
    /// Send the member the roster of the started lobby.
    SendStartedRoster,
    /// Send everyone the roster of the started lobby.
    BroadcastStartedRoster,
    /// Send the member the roster (of the started lobby, else empty) and
    /// close after writing.
    SendRosterThenClose,
    /// Answer with this acknowledgement code.
    Acknowledge(i64),
    /// Send everyone a member's autoplay and speed-up switches.
    BroadcastAutoplay(bool, bool),
    /// Send everyone a member's auto-start switch.
    BroadcastAutoStart(bool),
    /// Check whether the lobby is ready to count down.
    EvaluateReadiness,
    /// Forget a pending automatic start of the room.
    CancelAutoStart,
    /// Schedule the computer players' lobby sequence.
    ScheduleComputerPlayers,
}

/// The effects of a lobby action, given what the lobby learned while
/// carrying it out. A member whose room has moved on is closed.
pub open spec fn spec_lobby_effects(action: LobbyAction, facts: LobbyFacts, legacy_protocol: bool) -> Seq<
    LobbyEffect,
> {
    match action {
        LobbyAction::Close => seq![LobbyEffect::Close],
        LobbyAction::Ignore => seq![],
        _ => if !facts.room_current {
            seq![LobbyEffect::Close]
        } else {
            match action {
                LobbyAction::Broadcast => seq![LobbyEffect::RelayToLobby],
                LobbyAction::SendTo(v) => seq![LobbyEffect::RelayTo(v)],
                LobbyAction::Enter => if !facts.accepted {
                    seq![LobbyEffect::Close]
                } else {
                    seq![LobbyEffect::Welcome { legacy: legacy_protocol }] + (if facts.had_existing_players {
                        seq![LobbyEffect::BroadcastRoster]
                    } else {
                        seq![]
                    }) + (if facts.entering_ready {
                        seq![LobbyEffect::BroadcastReady(true)]
                    } else {
                        seq![]
                    }) + (if facts.lobby_started {
                        seq![LobbyEffect::SendStartedRoster]
                    } else {
                        seq![]
                    })
                },
                LobbyAction::Roster => seq![LobbyEffect::SendRosterThenClose],
                LobbyAction::ChangeParty(_) => if facts.accepted {
                    seq![LobbyEffect::BroadcastRoster]
                } else {
                    seq![LobbyEffect::Close]
                },
                LobbyAction::SetReady(ready) => seq![
                    LobbyEffect::BroadcastReady(ready),
                    LobbyEffect::EvaluateReadiness,
                ],
                LobbyAction::Acknowledge(code) => seq![LobbyEffect::Acknowledge(code)],
                LobbyAction::Unready => seq![LobbyEffect::BroadcastReady(false)],
                LobbyAction::Start => if facts.lobby_started {
                    seq![LobbyEffect::CancelAutoStart, LobbyEffect::BroadcastStartedRoster]
                } else if !facts.all_ready {
                    seq![LobbyEffect::CancelAutoStart]
                } else if !facts.accepted {
                    seq![LobbyEffect::CancelAutoStart, LobbyEffect::Close]
                } else {
                    seq![LobbyEffect::CancelAutoStart, LobbyEffect::BroadcastStartedRoster]
                },
                LobbyAction::Autoplay(a, s) => seq![LobbyEffect::BroadcastAutoplay(a, s)],
                LobbyAction::AutoStart(b) => seq![LobbyEffect::BroadcastAutoStart(b)],
                LobbyAction::NameComputerPlayers => if !facts.accepted {
                    seq![LobbyEffect::Close]
                } else if facts.names_empty {
                    seq![LobbyEffect::EvaluateReadiness]
                } else {
                    seq![LobbyEffect::ScheduleComputerPlayers]
                },
                _ => seq![],
            }
        },
    }
}

/// What a lobby command leads to, whatever else holds: a member whose room
/// has moved on is only closed; a member marking itself ready or not tells
/// the whole lobby exactly that and then has readiness checked; leaving the
/// ready state tells the lobby it is not ready; an accepted entry welcomes
/// the member first, in its own protocol, and tells the others of its
/// readiness only when it is ready; a start that the database refused
/// closes the host.
pub proof fn lemma_lobby_effects_follow_the_command(
    action: LobbyAction,
    facts: LobbyFacts,
    legacy_protocol: bool,
)
    ensures
        action != LobbyAction::Ignore && !facts.room_current ==> spec_lobby_effects(
            action,
            facts,
            legacy_protocol,
        ) == seq![LobbyEffect::Close],
        facts.room_current && action is SetReady ==> spec_lobby_effects(
            action,
            facts,
            legacy_protocol,
        ) == seq![LobbyEffect::BroadcastReady(action->SetReady_0), LobbyEffect::EvaluateReadiness],
        facts.room_current && action == LobbyAction::Unready ==> spec_lobby_effects(
            action,
            facts,
            legacy_protocol,
        ) == seq![LobbyEffect::BroadcastReady(false)],
        facts.room_current && facts.accepted && action == LobbyAction::Enter ==> {
            let e = spec_lobby_effects(action, facts, legacy_protocol);
            &&& e[0] == LobbyEffect::Welcome { legacy: legacy_protocol }
            &&& e.contains(LobbyEffect::BroadcastReady(true)) <==> facts.entering_ready
            &&& !e.contains(LobbyEffect::BroadcastReady(false))
            &&& !e.contains(LobbyEffect::Close)
        },
        facts.room_current && !facts.lobby_started && facts.all_ready && !facts.accepted && action
            == LobbyAction::Start ==> spec_lobby_effects(action, facts, legacy_protocol).contains(
            LobbyEffect::Close,
        ),
{
    if facts.room_current && facts.accepted && action == LobbyAction::Enter {
        let e = spec_lobby_effects(action, facts, legacy_protocol);
        let a = seq![LobbyEffect::Welcome { legacy: legacy_protocol }];
        let b: Seq<LobbyEffect> = if facts.had_existing_players {
            seq![LobbyEffect::BroadcastRoster]
        } else {
            seq![]
        };
        let c: Seq<LobbyEffect> = if facts.entering_ready {
            seq![LobbyEffect::BroadcastReady(true)]
        } else {
            seq![]
        };
        let d: Seq<LobbyEffect> = if facts.lobby_started {
            seq![LobbyEffect::SendStartedRoster]
        } else {
            seq![]
        };
        assert(e == a + b + c + d);
        if facts.entering_ready {
            assert(e[(a.len() + b.len()) as int] == LobbyEffect::BroadcastReady(true));
        }
        assert forall|x: LobbyEffect| #[trigger] e.contains(x) implies x == LobbyEffect::Welcome {
            legacy: legacy_protocol,
        } || x == LobbyEffect::BroadcastRoster || (x == LobbyEffect::BroadcastReady(true)
            && facts.entering_ready) || x == LobbyEffect::SendStartedRoster by {
            let i = choose|i: int| 0 <= i < e.len() && e[i] == x;
            if i < 1 {
            } else if i < 1 + b.len() {
                assert(e[i] == b[i - 1]);
            } else if i < 1 + b.len() + c.len() {
                assert(e[i] == c[i - 1 - b.len()]);
            } else {
                assert(e[i] == d[i - 1 - b.len() - c.len()]);
            }
        };
    }
    if facts.room_current && !facts.lobby_started && facts.all_ready && !facts.accepted && action
        == LobbyAction::Start {
        let e = spec_lobby_effects(action, facts, legacy_protocol);
        assert(e[1] == LobbyEffect::Close);
    }
}

/// The effects of a lobby action, in the order the lobby carries them out.
pub fn lobby_command_effects(action: LobbyAction, facts: LobbyFacts, legacy_protocol: bool) -> (r: Vec<
    LobbyEffect,
>)
    ensures
        r@ == spec_lobby_effects(action, facts, legacy_protocol),
{
    let mut r: Vec<LobbyEffect> = Vec::new();
    match action {
        LobbyAction::Close => {
            r.push(LobbyEffect::Close);
            assert(r@ =~= seq![LobbyEffect::Close]);
            return r;
        },
        LobbyAction::Ignore => {
            assert(r@ =~= Seq::<LobbyEffect>::empty());
            return r;
        },
        _ => {},
    }
    if !facts.room_current {
        r.push(LobbyEffect::Close);
        assert(r@ =~= seq![LobbyEffect::Close]);
        return r;
    }
    match action {
        LobbyAction::Broadcast => r.push(LobbyEffect::RelayToLobby),
        LobbyAction::SendTo(v) => r.push(LobbyEffect::RelayTo(v)),
        LobbyAction::Enter => {
            if !facts.accepted {
                r.push(LobbyEffect::Close);
            } else {
                r.push(LobbyEffect::Welcome { legacy: legacy_protocol });
                if facts.had_existing_players {
                    r.push(LobbyEffect::BroadcastRoster);
                }
                if facts.entering_ready {
                    r.push(LobbyEffect::BroadcastReady(true));
                }
                if facts.lobby_started {
                    r.push(LobbyEffect::SendStartedRoster);
                }
                assert(r@ =~= spec_lobby_effects(action, facts, legacy_protocol));
            }
        },
        LobbyAction::Roster => r.push(LobbyEffect::SendRosterThenClose),
        LobbyAction::ChangeParty(_) => {
            if facts.accepted {
                r.push(LobbyEffect::BroadcastRoster);
            } else {
                r.push(LobbyEffect::Close);
            }
        },
        LobbyAction::SetReady(ready) => {
            r.push(LobbyEffect::BroadcastReady(ready));
            r.push(LobbyEffect::EvaluateReadiness);
        },
        LobbyAction::Acknowledge(code) => r.push(LobbyEffect::Acknowledge(code)),
        LobbyAction::Unready => r.push(LobbyEffect::BroadcastReady(false)),
        LobbyAction::Start => {
            r.push(LobbyEffect::CancelAutoStart);
            if facts.lobby_started {
                r.push(LobbyEffect::BroadcastStartedRoster);
            } else if !facts.all_ready {
            } else if !facts.accepted {
                r.push(LobbyEffect::Close);
            } else {
                r.push(LobbyEffect::BroadcastStartedRoster);
            }
        },
        LobbyAction::Autoplay(a, s) => r.push(LobbyEffect::BroadcastAutoplay(a, s)),
        LobbyAction::AutoStart(b) => r.push(LobbyEffect::BroadcastAutoStart(b)),
        LobbyAction::NameComputerPlayers => {
            if !facts.accepted {
                r.push(LobbyEffect::Close);
            } else if facts.names_empty {
                r.push(LobbyEffect::EvaluateReadiness);
            } else {
                r.push(LobbyEffect::ScheduleComputerPlayers);
            }
        },
        _ => {},
    }
    assert(r@ =~= spec_lobby_effects(action, facts, legacy_protocol));
    r
}

/// What the battle relay does with a frame from a player.
#[derive(Debug)]
pub enum BattleAction {
    /// Close the connection: the frame is malformed.
    Close,
    /// The player's scene is ready.
    SceneReady,
    /// The player has finished; acknowledge with `[1, [2]]`.
    Finalize,
    /// A timing measurement with this frame count (0 where it is not an
    /// integer); it is acknowledged.
    Measure(i64),
    /// Relay the messages to the whole battle.
    Broadcast,
    /// Relay the message to the listed connections.
    SendTo(Vec<String>),
    Ignore,
}

/// Whether a value is a non-negative integer.
pub open spec fn non_negative_int(v: FrameValue) -> bool {
    int_of(v) matches Some(n) && n >= 0
}

/// Whether a battle message is `[0, a, b, c, d, text or null]` with four
/// non-negative integers.
pub open spec fn valid_broadcast_message(v: FrameValue) -> bool {
    v matches FrameValue::Array(m) && m@.len() == 6 && int_of(m@[0]) == Some(0i64) && non_negative_int(
        m@[1],
    ) && non_negative_int(m@[2]) && non_negative_int(m@[3]) && non_negative_int(m@[4]) && (
    m@[5] is Null || m@[5] is Text)
}

/// Whether every message of a list is a valid battle message.
pub open spec fn all_broadcast_messages(ms: Seq<FrameValue>) -> bool {
    forall|i: int| 0 <= i < ms.len() ==> valid_broadcast_message(#[trigger] ms[i])
}

/// Whether a value is a list of valid battle messages.
pub open spec fn valid_broadcast_messages(v: FrameValue) -> bool {
    match v {
        FrameValue::Array(ms) => all_broadcast_messages(ms@),
        _ => false,
    }
}

/// Whether a value is a list whose first item is an integer.
pub open spec fn command_like(v: FrameValue) -> bool {
    v matches FrameValue::Array(c) && c@.len() > 0 && int_of(c@[0]) is Some
}

/// Whether a value is a command `[0, [kind, ..]]` with an integer kind.
pub open spec fn valid_send_message(v: FrameValue) -> bool {
    v matches FrameValue::Array(m) && m@.len() == 2 && int_of(m@[0]) == Some(0i64) && command_like(
        m@[1],
    )
}

/// Whether a value is a target connection id: text of 1 to 128 bytes.
pub open spec fn valid_target(v: FrameValue) -> bool {
    v matches FrameValue::Text(t) && t@.len() > 0 && encode_utf8(t@).len() <= 128
}

/// Whether a value is a list of 1 to 32 targets.
pub open spec fn valid_targets(v: FrameValue) -> bool {
    v matches FrameValue::Array(ts) && 0 < ts@.len() <= 32 && forall|i: int|
        0 <= i < ts@.len() ==> valid_target(#[trigger] ts@[i])
}

/// The texts of a list of targets.
pub open spec fn target_texts(ts: Seq<FrameValue>) -> Seq<Seq<char>> {
    ts.map_values(|t: FrameValue| match t {
        FrameValue::Text(s) => s@,
        _ => seq![],
    })
}

fn is_non_negative_int(v: &FrameValue) -> (r: bool)
    ensures
        r == non_negative_int(*v),
{
    match v {
        FrameValue::Int(n) => *n >= 0,
        _ => false,
    }
}

fn check_broadcast_message(v: &FrameValue) -> (r: bool)
    ensures
        r == valid_broadcast_message(*v),
{
    match v {
        FrameValue::Array(m) => {
            if m.len() != 6 || frame_int(&m[0]) != Some(0i64) {
                return false;
            }
            if !is_non_negative_int(&m[1]) || !is_non_negative_int(&m[2]) || !is_non_negative_int(
                &m[3],
            ) || !is_non_negative_int(&m[4]) {
                return false;
            }
            match &m[5] {
                FrameValue::Null | FrameValue::Text(_) => true,
                _ => false,
            }
        },
        _ => false,
    }
}

fn check_broadcast_messages(v: &FrameValue) -> (r: bool)
    ensures
        r == valid_broadcast_messages(*v),
{
    match v {
        FrameValue::Array(ms) => {
            let mut i: usize = 0;
            while i < ms.len()
                invariant
                    *v == FrameValue::Array(*ms),
                    i <= ms@.len(),
                    forall|j: int| 0 <= j < i ==> valid_broadcast_message(#[trigger] ms@[j]),
                decreases ms@.len() - i,
            {
                if !check_broadcast_message(&ms[i]) {
                    assert(!valid_broadcast_message(ms@[i as int]));
                    assert(!all_broadcast_messages(ms@));
                    return false;
                }
                i = i + 1;
            }
            true
        },
        _ => false,
    }
}

fn check_send_message(v: &FrameValue) -> (r: bool)
    ensures
        r == valid_send_message(*v),
{
    match v {
        FrameValue::Array(m) => {
            if m.len() != 2 || frame_int(&m[0]) != Some(0i64) {
                return false;
            }
            match &m[1] {
                FrameValue::Array(c) => c.len() > 0 && frame_int(&c[0]).is_some(),
                _ => false,
            }
        },
        _ => false,
    }
}

fn check_targets(v: &FrameValue) -> (r: Option<Vec<String>>)
    ensures
        match r {
            Some(ids) => valid_targets(*v) && (v matches FrameValue::Array(ts) && ids@.map_values(
                |s: String| s@,
            ) == target_texts(ts@)),
            None => !valid_targets(*v),
        },
{
    match v {
        FrameValue::Array(ts) => {
            if ts.len() == 0 || ts.len() > 32 {
                return None;
            }
            let mut ids: Vec<String> = Vec::new();
            let mut i: usize = 0;
            while i < ts.len()
                invariant
                    *v == FrameValue::Array(*ts),
                    0 < ts@.len() <= 32,
                    i <= ts@.len(),
                    forall|j: int| 0 <= j < i ==> valid_target(#[trigger] ts@[j]),
                    ids@.map_values(|s: String| s@) == target_texts(ts@.subrange(0, i as int)),
                decreases ts@.len() - i,
            {
                match &ts[i] {
                    FrameValue::Text(t) => {
                        assert(ts@[i as int] == FrameValue::Text(*t));
                        if t.as_str().unicode_len() == 0 || t.as_str().as_bytes().len() > 128 {
                            assert(!valid_target(ts@[i as int]));
                            return None;
                        }
                        assert(valid_target(ts@[i as int]));
                        let ghost before = ids@;
                        let copy = t.clone();
                        assert(copy@ == t@);
                        ids.push(copy);
                        proof {
                            let old_ts = ts@.subrange(0, i as int);
                            let new_ts = ts@.subrange(0, i + 1);
                            assert(new_ts =~= old_ts.push(ts@[i as int]));
                            assert(target_texts(new_ts) =~= target_texts(old_ts).push(t@));
                            assert(ids@ =~= before.push(copy));
                            assert(ids@.map_values(|s: String| s@) =~= before.map_values(
                                |s: String| s@,
                            ).push(t@));
                        }
                    },
                    _ => {
                        assert(!valid_target(ts@[i as int]));
                        return None;
                    },
                }
                i = i + 1;
            }
            assert(ts@.subrange(0, ts@.len() as int) =~= ts@);
            Some(ids)
        },
        _ => None,
    }
}

/// What a battle frame asks for.
pub open spec fn spec_battle_action_kind(frame: FrameValue) -> int {
    match frame {
        FrameValue::Array(data) => {
            let d = data@;
            match if d.len() > 0 {
                int_of(d[0])
            } else {
                None
            } {
                None => 0,
                Some(0) => if d.len() != 2 {
                    0
                } else {
                    match d[1] {
                        FrameValue::Array(notify) => {
                            let n = notify@;
                            let kind = if n.len() > 0 {
                                int_of(n[0])
                            } else {
                                None
                            };
                            if kind == Some(0i64) && n.len() == 1 {
                                1
                            } else if kind == Some(2i64) && n.len() == 1 {
                                2
                            } else if kind == Some(3i64) && n.len() == 3 {
                                3
                            } else {
                                6
                            }
                        },
                        _ => 0,
                    }
                },
                Some(1) => if d.len() == 2 && valid_broadcast_messages(d[1]) {
                    4
                } else {
                    0
                },
                Some(2) => if d.len() == 3 && valid_send_message(d[2]) && valid_targets(d[1]) {
                    5
                } else {
                    0
                },
                Some(_) => 6,
            }
        },
        _ => 0,
    }
}

/// The kind of an action: 0 close, 1 scene ready, 2 finalize, 3 measure,
/// 4 broadcast, 5 send, 6 ignore.
pub open spec fn action_kind(a: BattleAction) -> int {
    match a {
        BattleAction::Close => 0,
        BattleAction::SceneReady => 1,
        BattleAction::Finalize => 2,
        BattleAction::Measure(_) => 3,
        BattleAction::Broadcast => 4,
        BattleAction::SendTo(_) => 5,
        BattleAction::Ignore => 6,
    }
}

/// What a battle frame asks for: `[0, [notice..]]` notices (scene ready,
/// finished, measurement), `[1, messages]` a broadcast of well-formed
/// messages, `[2, targets, message]` a message to up to 32 connections;
/// a malformed frame closes the connection.
pub fn battle_action(frame: &FrameValue) -> (r: BattleAction)
    ensures
        action_kind(r) == spec_battle_action_kind(*frame),
        r matches BattleAction::Measure(count) ==> (frame matches FrameValue::Array(d)
            && d@[1] matches FrameValue::Array(n) && count == (match int_of(n@[1]) {
            Some(c) => c,
            None => 0,
        })),
        r matches BattleAction::SendTo(ids) ==> (frame matches FrameValue::Array(d)
            && d@[1] matches FrameValue::Array(ts) && ids@.map_values(|s: String| s@)
            == target_texts(ts@)),
{
    let data = match frame {
        FrameValue::Array(data) => data,
        _ => return BattleAction::Close,
    };
    let kind = if data.len() > 0 {
        frame_int(&data[0])
    } else {
        None
    };
    match kind {
        None => BattleAction::Close,
        Some(0) => {
            if data.len() != 2 {
                return BattleAction::Close;
            }
            match &data[1] {
                FrameValue::Array(notify) => {
                    let notice = if notify.len() > 0 {
                        frame_int(&notify[0])
                    } else {
                        None
                    };
                    if notice == Some(0i64) && notify.len() == 1 {
                        BattleAction::SceneReady
                    } else if notice == Some(2i64) && notify.len() == 1 {
                        BattleAction::Finalize
                    } else if notice == Some(3i64) && notify.len() == 3 {
                        let count = match frame_int(&notify[1]) {
                            Some(c) => c,
                            None => 0,
                        };
                        BattleAction::Measure(count)
                    } else {
                        BattleAction::Ignore
                    }
                },
                _ => BattleAction::Close,
            }
        },
        Some(1) => {
            if data.len() == 2 && check_broadcast_messages(&data[1]) {
                BattleAction::Broadcast
            } else {
                BattleAction::Close
            }
        },
        Some(2) => {
            if data.len() != 3 || !check_send_message(&data[2]) {
                return BattleAction::Close;
            }
            match check_targets(&data[1]) {
                Some(ids) => BattleAction::SendTo(ids),
                None => BattleAction::Close,
            }
        },
        Some(_) => BattleAction::Ignore,
    }
}

/// The wait before computer players join a lobby, in milliseconds.
pub const NPC_JOIN_DELAY_MS: i64 = 2_000;

/// The wait before joined computer players are ready, in milliseconds.
pub const NPC_READY_DELAY_MS: i64 = 500;

/// What a scheduled lobby sequence does next.
#[derive(Clone, Copy, Debug, PartialEq, Eq, Structural)]
pub enum LobbyPhase {
    Join,
    Ready,
}

/// Computer players scheduled to join a room's lobby and get ready.
#[derive(Debug)]
pub struct PendingLobbySequence {
    pub room_number: String,
    pub room_sequence: i64,
    pub deadline_ms: i64,
    pub phase: LobbyPhase,
}

/// The sequences of other rooms.
pub open spec fn without_room(s: Seq<PendingLobbySequence>, room: Seq<char>) -> Seq<PendingLobbySequence>
    decreases s.len(),
{
    if s.len() == 0 {
        seq![]
    } else if s.last().room_number@ == room {
        without_room(s.drop_last(), room)
    } else {
        without_room(s.drop_last(), room).push(s.last())
    }
}

/// Whether a sequence is scheduled for this room and sequence number.
pub open spec fn is_scheduled(s: Seq<PendingLobbySequence>, room: Seq<char>, sequence: i64) -> bool {
    exists|i: int|
        0 <= i < s.len() && (#[trigger] s[i]).room_number@ == room && s[i].room_sequence == sequence
}

/// Schedules computer players to join a room's lobby: a sequence already
/// scheduled for the room and sequence number keeps its deadline; else any
/// sequence of an earlier round of the room is dropped and a new one joins
/// after `NPC_JOIN_DELAY_MS`.
pub fn schedule_npc_lobby_sequence(
    pending: &mut Vec<PendingLobbySequence>,
    room_number: String,
    room_sequence: i64,
    now_ms: i64,
)
    requires
        now_ms <= i64::MAX - NPC_JOIN_DELAY_MS,
    ensures
        is_scheduled(old(pending)@, room_number@, room_sequence) ==> final(pending)@ == old(
            pending,
        )@,
        !is_scheduled(old(pending)@, room_number@, room_sequence) ==> final(pending)@.len() > 0
            && final(pending)@.drop_last() == without_room(old(pending)@, room_number@)
            && final(pending)@.last().room_number@ == room_number@
            && final(pending)@.last().room_sequence == room_sequence
            && final(pending)@.last().deadline_ms == now_ms + NPC_JOIN_DELAY_MS
            && final(pending)@.last().phase == LobbyPhase::Join,
{
    let mut i: usize = 0;
    while i < pending.len()
        invariant
            i <= pending@.len(),
            forall|j: int|
                0 <= j < i ==> !((#[trigger] pending@[j]).room_number@ == room_number@
                    && pending@[j].room_sequence == room_sequence),
        decreases pending@.len() - i,
    {
        if pending[i].room_sequence == room_sequence && crate::text::str_eq(
            pending[i].room_number.as_str(),
            room_number.as_str(),
        ) {
            return;
        }
        i = i + 1;
    }
    let ghost before = pending@;
    let total = pending.len();
    let mut kept: Vec<PendingLobbySequence> = Vec::new();
    let mut taken: Vec<PendingLobbySequence> = Vec::new();
    // Move the entries out, last first, so that they can be kept in order.
    while pending.len() > 0
        invariant
            before == pending@ + taken@.reverse(),
        decreases pending@.len(),
    {
        let ghost prior = taken@;
        let ghost all = pending@;
        let entry = pending.pop().unwrap();
        taken.push(entry);
        proof {
            assert(all =~= pending@.push(entry));
            assert(taken@.reverse() =~= seq![entry] + prior.reverse());
            assert(before =~= pending@ + taken@.reverse());
        }
    }
    assert(taken@.reverse() =~= before);
    let mut done: usize = 0;
    assert(before.subrange(0, 0) =~= Seq::<PendingLobbySequence>::empty());
    while taken.len() > 0
        invariant
            before.len() == total,
            done + taken@.len() == before.len(),
            before.subrange(done as int, before.len() as int) == taken@.reverse(),
            kept@ == without_room(before.subrange(0, done as int), room_number@),
        decreases taken@.len(),
    {
        let ghost remaining = taken@;
        let entry = taken.pop().unwrap();
        proof {
            assert(remaining.reverse()[0] == entry);
            assert(before.subrange(done as int, before.len() as int)[0] == before[done as int]);
            assert(remaining.reverse().drop_first() =~= taken@.reverse());
            assert(before.subrange(done as int, before.len() as int).drop_first()
                =~= before.subrange(done + 1, before.len() as int));
            assert(before.subrange(0, done + 1).drop_last() =~= before.subrange(0, done as int));
            assert(before.subrange(0, done + 1).last() == entry);
        }
        if !crate::text::str_eq(entry.room_number.as_str(), room_number.as_str()) {
            kept.push(entry);
        }
        done = done + 1;
    }
    assert(before.subrange(0, before.len() as int) =~= before);
    let ghost filtered = kept@;
    kept.push(PendingLobbySequence {
        room_number,
        room_sequence,
        deadline_ms: now_ms + NPC_JOIN_DELAY_MS,
        phase: LobbyPhase::Join,
    });
    assert(kept@.drop_last() =~= filtered);
    *pending = kept;
}

/// What a due lobby sequence does.
#[derive(Clone, Copy, Debug, PartialEq, Eq, Structural)]
pub enum SequenceStep {
    /// Not due yet: keep it.
    Wait,
    /// The room has moved on: drop it.
    Drop,
    /// Show the computer players in the lobby, then get them ready after
    /// `NPC_READY_DELAY_MS`.
    Join,
    /// Mark the computer players ready and finish.
    Ready,
}

/// Whether a room still wants its computer players: it is the same round,
/// its battle has not started, it is not being raised to battle, it plays
/// with computer players, and its host is in the lobby.
pub open spec fn spec_npc_room_active(
    room_sequence: Option<i64>,
    battle_started: bool,
    raising_state: i64,
    is_npc_mode: bool,
    host_in_lobby: bool,
    sequence: i64,
) -> bool {
    room_sequence == Some(sequence) && !battle_started && raising_state != 4 && is_npc_mode
        && host_in_lobby
}

/// The next step of a lobby sequence at `now_ms`; `room_active` says
/// whether the room still wants its computer players.
pub fn sequence_step(phase: LobbyPhase, deadline_ms: i64, now_ms: i64, room_active: bool) -> (r:
    SequenceStep)
    ensures
        r == (if deadline_ms > now_ms {
            SequenceStep::Wait
        } else if !room_active {
            SequenceStep::Drop
        } else if phase == LobbyPhase::Join {
            SequenceStep::Join
        } else {
            SequenceStep::Ready
        }),
{
    if deadline_ms > now_ms {
        SequenceStep::Wait
    } else if !room_active {
        SequenceStep::Drop
    } else {
        match phase {
            LobbyPhase::Join => SequenceStep::Join,
            LobbyPhase::Ready => SequenceStep::Ready,
        }
    }
}

/// Whether a room still wants its computer players.
pub fn npc_room_active(
    room_sequence: Option<i64>,
    battle_started: bool,
    raising_state: i64,
    is_npc_mode: bool,
    host_in_lobby: bool,
    sequence: i64,
) -> (r: bool)
    ensures
        r == spec_npc_room_active(
            room_sequence,
            battle_started,
            raising_state,
            is_npc_mode,
            host_in_lobby,
            sequence,
        ),
{
    room_sequence == Some(sequence) && !battle_started && raising_state != 4 && is_npc_mode
        && host_in_lobby
}

/// Deliveries waiting for bytes to be written: each with the count of
/// written bytes after which it is delivered.
pub open spec fn split_delivered<T>(s: Seq<(u64, T)>, flushed: u64) -> (Seq<(u64, T)>, Seq<(u64, T)>)
    decreases s.len(),
{
    if s.len() == 0 {
        (seq![], seq![])
    } else {
        let (done, waiting) = split_delivered(s.drop_last(), flushed);
        if s.last().0 <= flushed {
            (done.push(s.last()), waiting)
        } else {
            (done, waiting.push(s.last()))
        }
    }
}

/// Splits deliveries into those whose bytes are all written and those
/// still waiting, each in order.
pub fn partition_delivered<T>(deliveries: Vec<(u64, T)>, flushed: u64) -> (r: (Vec<(u64, T)>, Vec<(u64, T)>))
    ensures
        (r.0@, r.1@) == split_delivered(deliveries@, flushed),
{
    let ghost all = deliveries@;
    let total = deliveries.len();
    let mut pending = deliveries;
    let mut reversed: Vec<(u64, T)> = Vec::new();
    while pending.len() > 0
        invariant
            all == pending@ + reversed@.reverse(),
        decreases pending@.len(),
    {
        let ghost prior = reversed@;
        let ghost rest = pending@;
        let entry = pending.pop().unwrap();
        reversed.push(entry);
        proof {
            assert(rest =~= pending@.push(entry));
            assert(reversed@.reverse() =~= seq![entry] + prior.reverse());
            assert(all =~= pending@ + reversed@.reverse());
        }
    }
    assert(reversed@.reverse() =~= all);
    let mut done: Vec<(u64, T)> = Vec::new();
    let mut waiting: Vec<(u64, T)> = Vec::new();
    let mut count: usize = 0;
    assert(all.subrange(0, 0) =~= Seq::<(u64, T)>::empty());
    while reversed.len() > 0
        invariant
            all.len() == total,
            count + reversed@.len() == all.len(),
            all.subrange(count as int, all.len() as int) == reversed@.reverse(),
            (done@, waiting@) == split_delivered(all.subrange(0, count as int), flushed),
        decreases reversed@.len(),
    {
        let ghost remaining = reversed@;
        let entry = reversed.pop().unwrap();
        proof {
            assert(remaining.reverse()[0] == entry);
            assert(all.subrange(count as int, all.len() as int)[0] == all[count as int]);
            assert(remaining.reverse().drop_first() =~= reversed@.reverse());
            assert(all.subrange(count as int, all.len() as int).drop_first() =~= all.subrange(
                count + 1,
                all.len() as int,
            ));
            assert(all.subrange(0, count + 1).drop_last() =~= all.subrange(0, count as int));
            assert(all.subrange(0, count + 1).last() == entry);
        }
        if entry.0 <= flushed {
            done.push(entry);
        } else {
            waiting.push(entry);
        }
        count = count + 1;
    }
    assert(all.subrange(0, all.len() as int) =~= all);
    (done, waiting)
}

/// Whether a character is a lowercase hexadecimal digit.
pub open spec fn is_hex_lower_digit(c: char) -> bool {
    ('0' <= c <= '9') || ('a' <= c <= 'f')
}

/// A connection id: 32 lowercase hexadecimal digits.
pub open spec fn spec_is_connection_id(s: Seq<char>) -> bool {
    s.len() == 32 && forall|i: int| 0 <= i < s.len() ==> is_hex_lower_digit(#[trigger] s[i])
}

/// Whether a text is a connection id.
pub fn is_connection_id(value: &str) -> (r: bool)
    ensures
        r == spec_is_connection_id(value@),
{
    let len = value.unicode_len();
    if len != 32 {
        return false;
    }
    let mut i: usize = 0;
    while i < len
        invariant
            len == value@.len(),
            i <= len,
            forall|j: int| 0 <= j < i ==> is_hex_lower_digit(#[trigger] value@[j]),
        decreases len - i,
    {
        let c = value.get_char(i);
        if !(('0' <= c && c <= '9') || ('a' <= c && c <= 'f')) {
            return false;
        }
        i = i + 1;
    }
    true
}

/// A room number: six decimal digits.
pub open spec fn spec_is_room_number(s: Seq<char>) -> bool {
    s.len() == 6 && forall|i: int| 0 <= i < s.len() ==> '0' <= #[trigger] s[i] <= '9'
}

/// Whether a text is a room number.
pub fn is_room_number(value: &str) -> (r: bool)
    ensures
        r == spec_is_room_number(value@),
{
    let len = value.unicode_len();
    if len != 6 {
        return false;
    }
    let mut i: usize = 0;
    while i < len
        invariant
            len == value@.len(),
            i <= len,
            forall|j: int| 0 <= j < i ==> '0' <= #[trigger] value@[j] <= '9',
        decreases len - i,
    {
        let c = value.get_char(i);
        if c < '0' || c > '9' {
            return false;
        }
        i = i + 1;
    }
    true
}

/// Whether a member of a room has entered its lobby and is ready.
#[derive(Clone, Copy, Debug, PartialEq, Eq, Structural)]
pub struct MemberPresence {
    pub entered: bool,
    pub ready: bool,
}

/// Whether some human member has entered the room and every entered member
/// is ready.
pub open spec fn spec_all_ready(members: Seq<MemberPresence>) -> bool {
    &&& exists|i: int| 0 <= i < members.len() && (#[trigger] members[i]).entered
    &&& forall|i: int| 0 <= i < members.len() && (#[trigger] members[i]).entered ==> members[i].ready
}

/// Whether the human members of a room are ready to start.
pub fn all_human_members_ready(members: &Vec<MemberPresence>) -> (r: bool)
    ensures
        r == spec_all_ready(members@),
{
    let mut any_entered = false;
    let mut i: usize = 0;
    while i < members.len()
        invariant
            i <= members@.len(),
            any_entered == exists|j: int| 0 <= j < i && (#[trigger] members@[j]).entered,
            forall|j: int| 0 <= j < i && (#[trigger] members@[j]).entered ==> members@[j].ready,
        decreases members@.len() - i,
    {
        let member = members[i];
        if member.entered {
            if !member.ready {
                return false;
            }
            any_entered = true;
        }
        i = i + 1;
    }
    any_entered
}

/// Whether a text is the lowercase hexadecimal form of some sixteen bytes.
pub open spec fn is_hex_of_sixteen_bytes(s: Seq<char>) -> bool {
    exists|bytes: Seq<u8>| bytes.len() == 16 && s == hex_lower(bytes)
}

/// The hexadecimal form of bytes is a run of lowercase hexadecimal digits,
/// two for each byte.
pub proof fn lemma_hex_lower_shape(bytes: Seq<u8>)
    ensures
        hex_lower(bytes).len() == 2 * bytes.len(),
        forall|i: int| 0 <= i < hex_lower(bytes).len() ==> is_hex_lower_digit(
            #[trigger] hex_lower(bytes)[i],
        ),
    decreases bytes.len(),
{
    if bytes.len() > 0 {
        lemma_hex_lower_shape(bytes.drop_last());
        let last = bytes.last() as int;
        assert(0 <= last / 16 < 16 && 0 <= last % 16 < 16);
        let h = hex_lower(bytes);
        let p = hex_lower(bytes.drop_last());
        assert forall|i: int| 0 <= i < h.len() implies is_hex_lower_digit(#[trigger] h[i]) by {
            if i < p.len() {
                assert(h[i] == p[i]);
            }
        }
    }
}

/// A fresh connection id from the random source.
pub fn random_connection_id() -> (r: Result<String, ServiceError>)
    ensures
        r matches Ok(id) ==> is_hex_of_sixteen_bytes(id@) && spec_is_connection_id(id@),
{
    match random_bytes(16) {
        Ok(bytes) => {
            let mut id = String::new();
            append_hex(&mut id, bytes.as_slice());
            proof {
                assert(id@ =~= hex_lower(bytes@));
                lemma_hex_lower_shape(bytes@);
            }
            Ok(id)
        },
        Err(_) => Err(ServiceError::new("failed to create multiplayer connection id")),
    }
}

} // verus!
