//! The membership of one chat room: hello/state handshake, checkpoint precision, cursor-based row
//! backfill, push/ack with a queue of unacked batches, presence relay, probe liveness, and
//! reconnect with exponential backoff.
//!
//! The client owns no document semantics and no socket. Its methods take what happened — a frame, a
//! timer, the end of a session — and say what to do: what to send, what to hand to the
//! [`ChatDocSink`], which event to announce.

use vstd::prelude::*;

use crate::ids::{fresh_id, is_uuid_v4};
use crate::text::same_str;

verus! {

// Durations and instants are in milliseconds.
pub const PING_INTERVAL: u64 = 15_000;

pub const SILENCE_LEASE: u64 = 45_000;

pub const CONNECT_TIMEOUT: u64 = 20_000;

pub const HELLO_DEADLINE: u64 = 15_000;

/// Backfill after hello must complete within this deadline.
pub const BACKFILL_DEADLINE: u64 = 120_000;

pub const PROBE_DEADLINE: u64 = 10_000;

pub const BACKOFF_BASE: u64 = 250;

pub const BACKOFF_CAP: u64 = 30_000;

/// Quiet-room probe cadence.
pub const PROBE_QUIET_DEFAULT: u64 = 900_000;

/// A checkpoint fetch that has not finished by now is treated as a dead link.
pub const CHECKPOINT_FETCH_DEADLINE: u64 = 120_000;

/// Re-push cadence after a `quota` rejection.
pub const QUOTA_RETRY: u64 = 5_000;

/// How far off a timer stands that is not armed.
pub const UNARMED: u64 = 86_400_000;

/// The cap of one push: the room's cap of a row, less the room that a frame's header takes.
pub const MAX_PUSH_BYTES: usize = 1024 * 1024 - 4096;

/// Per-client tuning.
#[derive(Clone, Copy, Debug, PartialEq, Eq, Structural)]
pub struct ChatTuning {
    pub probe_quiet: u64,
}

impl Default for ChatTuning {
    fn default() -> (r: Self)
        ensures
            r.probe_quiet == PROBE_QUIET_DEFAULT,
    {
        ChatTuning { probe_quiet: PROBE_QUIET_DEFAULT }
    }
}

/// Connection and sync notifications.
#[derive(Debug, Clone, Copy, PartialEq, Eq, Structural)]
pub enum ChatEvent {
    /// Joined (or re-joined); the hello state has been received.
    Connected,
    /// Backfill finished — the doc is converged with the room at this head.
    CaughtUp { head_seq: u64 },
    /// Remote rows or acks were applied through the sink — republish.
    Applied,
    /// The connection dropped; the client is backing off before redialing.
    Disconnected,
    /// A remote device's presence beat arrived.
    Presence,
    /// The server's head is behind our persisted cursor — the room was reset. The catch-up treats
    /// the cursor as fresh; the host should re-seed the room with a checkpoint.
    ServerReset,
    /// A queued batch was permanently rejected (or refused at enqueue) and dropped from the replay
    /// queue. Its ops reach peers only with the next checkpoint of this device.
    PushRejected,
}

/// Where remote bytes land. Every method persists doc content and the room cursor in one
/// transaction, so that they can never diverge.
pub trait ChatDocSink {
    /// Import one remote update row; `cursor` is the row's seq.
    fn apply_row(&self, bytes: &[u8], cursor: u64);

    /// Replace or merge from a checkpoint blob; `cursor` is its checkpoint seq.
    fn apply_checkpoint(&self, bytes: &[u8], cursor: u64) -> Result<(), String>;

    /// Is the server checkpoint's frontier already contained in the local doc?
    fn contains_frontier(&self, frontier: &[u8]) -> bool;

    /// An own-write ack advanced the cursor with no content change.
    fn advance_cursor(&self, cursor: u64);
}

/// The server's view of its log.
#[derive(Debug, Clone, Copy, PartialEq, Eq, Structural)]
pub struct StateHeader {
    pub head_seq: u64,
    pub seq_floor: u64,
    pub checkpoint_seq: u64,
    pub checkpoint_size: u64,
    pub row_count: u64,
    pub row_bytes: u64,
}

// ---------------------------------------------------------------------------
// Catch-up planning
// ---------------------------------------------------------------------------

#[derive(Debug, Clone, Copy, PartialEq, Eq, Structural)]
pub enum CatchUpPlan {
    /// Local doc already contains the checkpoint frontier (or there is no checkpoint): stream rows
    /// only.
    RowsOnly { after: u64 },
    /// Fetch and import the checkpoint first, then rows after it.
    CheckpointThenRows { after: u64 },
}

/// The cursor as far as it means anything to the room: one ahead of the server's head means that
/// the server lost state, and counts as fresh.
pub open spec fn honest_cursor(cursor: u64, head_seq: u64) -> u64 {
    if cursor > head_seq {
        0
    } else {
        cursor
    }
}

pub open spec fn larger(a: u64, b: u64) -> u64 {
    if a >= b {
        a
    } else {
        b
    }
}

/// The catch-up path. Whether there is a checkpoint is told by its size, not its seq: a freshly
/// seeded room's checkpoint covers seq 0.
pub open spec fn catch_up(cursor: u64, state: StateHeader, contained: bool) -> CatchUpPlan {
    let cursor = honest_cursor(cursor, state.head_seq);
    if state.checkpoint_size == 0 {
        CatchUpPlan::RowsOnly { after: cursor }
    } else if contained {
        CatchUpPlan::RowsOnly { after: larger(cursor, state.checkpoint_seq) }
    } else {
        CatchUpPlan::CheckpointThenRows { after: state.checkpoint_seq }
    }
}

fn max_of(a: u64, b: u64) -> (r: u64)
    ensures
        r == larger(a, b),
{
    if a >= b {
        a
    } else {
        b
    }
}

/// Decide the catch-up path from the hello state. `frontier_contained` is the sink's verdict on the
/// checkpoint frontier.
pub fn plan_catch_up(cursor: u64, state: &StateHeader, frontier_contained: bool) -> (r: CatchUpPlan)
    ensures
        r == catch_up(cursor, *state, frontier_contained),
{
    let cursor: u64 = if cursor > state.head_seq {
        0
    } else {
        cursor
    };
    if state.checkpoint_size == 0 {
        return CatchUpPlan::RowsOnly { after: cursor };
    }
    if frontier_contained {
        CatchUpPlan::RowsOnly { after: max_of(cursor, state.checkpoint_seq) }
    } else {
        CatchUpPlan::CheckpointThenRows { after: state.checkpoint_seq }
    }
}

/// Where the rows of a plan start.
pub open spec fn rows_after(plan: CatchUpPlan) -> u64 {
    match plan {
        CatchUpPlan::RowsOnly { after } => after,
        CatchUpPlan::CheckpointThenRows { after } => after,
    }
}

/// Catching up skips no row that the doc lacks: a row that is neither behind the honest cursor nor
/// covered by the checkpoint — one that the doc contains, or that is fetched first — is asked for.
pub proof fn law_catch_up_skips_nothing(
    cursor: u64,
    state: StateHeader,
    contained: bool,
    row: u64,
)
    requires
        row > honest_cursor(cursor, state.head_seq),
        state.checkpoint_size > 0 ==> row > state.checkpoint_seq,
    ensures
        row > rows_after(catch_up(cursor, state, contained)),
{
}

/// A row that the cursor has not reached, and that no checkpoint covers, is always asked for. A
/// cursor beyond the server's head has reached none.
pub proof fn law_unread_rows_are_asked_for(
    cursor: u64,
    state: StateHeader,
    contained: bool,
    row: u64,
)
    requires
        row > 0,
        cursor <= state.head_seq ==> row > cursor,
        state.checkpoint_size > 0 ==> row > state.checkpoint_seq,
    ensures
        match catch_up(cursor, state, contained) {
            CatchUpPlan::RowsOnly { after } => after < row,
            CatchUpPlan::CheckpointThenRows { after } => after < row,
        },
{
}

/// Without a checkpoint the rows start where the cursor stands, and from the beginning where it
/// stands beyond the server's head.
pub proof fn law_rows_go_on_from_the_cursor(cursor: u64, state: StateHeader, contained: bool)
    requires
        state.checkpoint_size == 0,
    ensures
        cursor <= state.head_seq ==> catch_up(cursor, state, contained) == (CatchUpPlan::RowsOnly {
            after: cursor,
        }),
        cursor > state.head_seq ==> catch_up(cursor, state, contained) == (CatchUpPlan::RowsOnly {
            after: 0,
        }),
{
}

/// What is known is not asked for again: no row that a checkpoint covers, and, unless a checkpoint
/// replaces the doc, no row behind a cursor that the server's head has reached. With a checkpoint
/// that the doc contains, the rows start at the cursor or at the checkpoint; with one that it lacks,
/// right after the checkpoint.
pub proof fn law_known_rows_are_not_asked_for(
    cursor: u64,
    state: StateHeader,
    contained: bool,
    row: u64,
)
    ensures
        state.checkpoint_size > 0 && row <= state.checkpoint_seq ==> match catch_up(
            cursor,
            state,
            contained,
        ) {
            CatchUpPlan::RowsOnly { after } => contained && row <= after,
            CatchUpPlan::CheckpointThenRows { after } => !contained && row <= after,
        },
        (state.checkpoint_size == 0 || contained) && row <= cursor <= state.head_seq
            ==> match catch_up(cursor, state, contained) {
            CatchUpPlan::RowsOnly { after } => row <= after,
            CatchUpPlan::CheckpointThenRows { .. } => false,
        },
        state.checkpoint_size > 0 && !contained ==> catch_up(cursor, state, contained) == (
        CatchUpPlan::CheckpointThenRows { after: state.checkpoint_seq }),
{
}

/// A checkpoint is fetched exactly where there is one that the doc does not contain.
pub proof fn law_checkpoint_only_when_missing(cursor: u64, state: StateHeader, contained: bool)
    ensures
        catch_up(cursor, state, contained) is CheckpointThenRows <==> state.checkpoint_size > 0
            && !contained,
{
}

// ---------------------------------------------------------------------------
// Frames
// ---------------------------------------------------------------------------

/// An inbound frame. A header that could not be read is `None`.
pub enum InFrame {
    State { state: Option<StateHeader>, frontier: Vec<u8> },
    Row { seq: Option<u64>, payload: Vec<u8> },
    RowsDone { head_seq: Option<u64> },
    Ack { header: Option<AckHeader> },
    Presence,
    ProbeOk { head_seq: Option<u64> },
    Error { code: String, batch_id: String },
    /// A frame type that this client does not know.
    Unknown,
}

pub struct AckHeader {
    pub batch_id: String,
    pub seq: u64,
}

/// An outbound frame.
pub enum OutFrame {
    Hello { cursor: u64, device: String },
    RowsReq { after: u64, exclude_own: bool },
    Push { batch_id: String, bytes: Vec<u8> },
    Presence { at: i64, payload: Vec<u8> },
    Probe,
}

/// An outbound frame as a value.
pub enum OutModel {
    Hello { cursor: u64, device: Seq<char> },
    RowsReq { after: u64, exclude_own: bool },
    Push { batch_id: Seq<char>, bytes: Seq<u8> },
    Presence { at: i64, payload: Seq<u8> },
    Probe,
}

impl View for OutFrame {
    type V = OutModel;

    open spec fn view(&self) -> OutModel {
        match *self {
            OutFrame::Hello { cursor, device } => OutModel::Hello { cursor, device: device@ },
            OutFrame::RowsReq { after, exclude_own } => OutModel::RowsReq { after, exclude_own },
            OutFrame::Push { batch_id, bytes } => OutModel::Push {
                batch_id: batch_id@,
                bytes: bytes@,
            },
            OutFrame::Presence { at, payload } => OutModel::Presence { at, payload: payload@ },
            OutFrame::Probe => OutModel::Probe,
        }
    }
}

pub open spec fn out_models(frames: Seq<OutFrame>) -> Seq<OutModel> {
    frames.map_values(|frame: OutFrame| frame@)
}

/// What the sink is asked to do.
pub enum SinkCall {
    Row { bytes: Vec<u8>, cursor: u64 },
    Checkpoint { bytes: Vec<u8>, cursor: u64 },
    Advance { cursor: u64 },
}

/// Perform a call on the sink. Only a checkpoint can fail, and only by the sink's verdict.
pub fn perform<S: ChatDocSink>(sink: &S, call: &SinkCall) -> (r: Result<(), String>)
    ensures
        match *call {
            SinkCall::Row { bytes, cursor } => r is Ok && exists|s: &[u8]|
                s@ == bytes@ && #[trigger] call_ensures(S::apply_row, (sink, s, cursor), ()),
            SinkCall::Checkpoint { bytes, cursor } => exists|s: &[u8]|
                s@ == bytes@ && #[trigger] call_ensures(S::apply_checkpoint, (sink, s, cursor), r),
            SinkCall::Advance { cursor } => r is Ok && call_ensures(
                S::advance_cursor,
                (sink, cursor),
                (),
            ),
        },
{
    match call {
        SinkCall::Row { bytes, cursor } => {
            sink.apply_row(bytes.as_slice(), *cursor);
            Ok(())
        },
        SinkCall::Checkpoint { bytes, cursor } => sink.apply_checkpoint(bytes.as_slice(), *cursor),
        SinkCall::Advance { cursor } => {
            sink.advance_cursor(*cursor);
            Ok(())
        },
    }
}

// ---------------------------------------------------------------------------
// The client
// ---------------------------------------------------------------------------

/// A batch that waits for its ack.
pub struct PendingPush {
    pub batch_id: String,
    pub bytes: Vec<u8>,
}

/// A live membership of one room.
pub struct ChatClient {
    pub device_id: String,
    pub tuning: ChatTuning,
    pub cursor: u64,
    pub pending: Vec<PendingPush>,
    /// Last hello or probe view of the server log.
    pub server: Option<StateHeader>,
    /// Set by a transient rejection: re-push at this instant.
    pub retry_at: Option<u64>,
    /// True while a quota-rejected queue is drained. Retries then probe with the head batch only,
    /// and each ack re-arms the clock until the queue is empty.
    pub quota_blocked: bool,
    pub connected: bool,
    pub rejoins: u64,
    pub disconnects: u64,
    pub rejected: u64,
    pub server_resets: u64,
    /// False until the first backfill of this client completes. The first backfill must not
    /// exclude own rows: a restored doc may lack its own later writes.
    pub resumed: bool,
    /// True until the first join succeeded or failed.
    pub joining: bool,
    pub backoff: u64,
    /// When the session last heard a frame.
    pub last_frame: u64,
    pub probe_deadline: Option<u64>,
}

/// `zeron sync` surface.
#[derive(Debug, Clone, Copy, PartialEq, Eq, Structural)]
pub struct ChatStatsSnapshot {
    pub connected: bool,
    pub cursor: u64,
    pub head_seq: u64,
    pub seq_floor: u64,
    pub checkpoint_seq: u64,
    /// Byte size of the room's stored checkpoint (0 = none).
    pub checkpoint_size: u64,
    pub row_count: u64,
    pub row_bytes: u64,
    pub pending_pushes: u64,
    pub rejoins: u64,
    pub disconnects: u64,
    pub rejected: u64,
    /// Times a hello found the server behind our cursor.
    pub server_resets: u64,
}

impl Default for ChatStatsSnapshot {
    fn default() -> (r: Self)
        ensures
            r == (ChatStatsSnapshot {
                connected: false,
                cursor: 0,
                head_seq: 0,
                seq_floor: 0,
                checkpoint_seq: 0,
                checkpoint_size: 0,
                row_count: 0,
                row_bytes: 0,
                pending_pushes: 0,
                rejoins: 0,
                disconnects: 0,
                rejected: 0,
                server_resets: 0,
            }),
    {
        ChatStatsSnapshot {
            connected: false,
            cursor: 0,
            head_seq: 0,
            seq_floor: 0,
            checkpoint_seq: 0,
            checkpoint_size: 0,
            row_count: 0,
            row_bytes: 0,
            pending_pushes: 0,
            rejoins: 0,
            disconnects: 0,
            rejected: 0,
            server_resets: 0,
        }
    }
}

/// A counter, one up.
pub open spec fn bumped(n: u64) -> u64 {
    ((n + 1) % 0x1_0000_0000_0000_0000) as u64
}

/// An instant `d` after `at`, as far as the clock goes.
pub open spec fn later(at: u64, d: u64) -> u64 {
    if at + d > u64::MAX {
        u64::MAX
    } else {
        (at + d) as u64
    }
}

/// The batches but those of the id that is gone, in their order.
pub open spec fn without(pending: Seq<PendingPush>, gone: Option<Seq<char>>) -> Seq<PendingPush>
    decreases pending.len(),
{
    if pending.len() == 0 {
        pending
    } else {
        let front = without(pending.drop_last(), gone);
        if gone == Some(pending.last().batch_id@) {
            front
        } else {
            front.push(pending.last())
        }
    }
}

/// Verdicts that no replay of the batch can change.
pub open spec fn permanent(code: Seq<char>) -> bool {
    code == "too_large"@ || code == "empty"@ || code == "bad_push"@
}

/// The batch that a frame ends the wait of: an acked one, or one that was rejected for good.
pub open spec fn retired_by(frame: InFrame) -> Option<Seq<char>> {
    match frame {
        InFrame::Ack { header: Some(ack) } => Some(ack.batch_id@),
        InFrame::Error { code, batch_id } => if permanent(code@) && batch_id@.len() > 0 {
            Some(batch_id@)
        } else {
            None
        },
        _ => None,
    }
}

/// The queue after a frame.
pub open spec fn pending_after(pending: Seq<PendingPush>, frame: InFrame) -> Seq<PendingPush> {
    without(pending, retired_by(frame))
}

/// The cursor after a frame: rows and acks only ever advance it.
pub open spec fn cursor_after(cursor: u64, frame: InFrame) -> u64 {
    match frame {
        InFrame::Row { seq: Some(seq), .. } => larger(cursor, seq),
        InFrame::Ack { header: Some(ack) } => larger(cursor, ack.seq),
        _ => cursor,
    }
}

/// The server view after a frame.
pub open spec fn server_after(server: Option<StateHeader>, frame: InFrame) -> Option<StateHeader> {
    match frame {
        InFrame::ProbeOk { head_seq: Some(head) } => match server {
            Some(view) => Some(StateHeader { head_seq: larger(view.head_seq, head), ..view }),
            None => None,
        },
        InFrame::State { state: Some(state), .. } => Some(state),
        _ => server,
    }
}

/// A frame whose header must be readable, and is not, breaks the session.
pub open spec fn breaks_session(frame: InFrame) -> bool {
    match frame {
        InFrame::Row { seq: None, .. } => true,
        InFrame::Ack { header: None } => true,
        _ => false,
    }
}

pub open spec fn is_quota(frame: InFrame) -> bool {
    frame matches InFrame::Error { code, .. } && code@ == "quota"@
}

/// Whether the drain of a quota-blocked queue goes on after a frame.
pub open spec fn blocked_after(blocked: bool, pending: Seq<PendingPush>, frame: InFrame) -> bool {
    if is_quota(frame) {
        true
    } else if retired_by(frame) is Some && frame is Ack {
        blocked && pending_after(pending, frame).len() > 0
    } else {
        blocked
    }
}

/// The retry clock after a frame: a quota rejection sets it, and each grant re-arms it while
/// batches remain.
pub open spec fn retry_after(
    retry_at: Option<u64>,
    blocked: bool,
    pending: Seq<PendingPush>,
    frame: InFrame,
    now: u64,
) -> Option<u64> {
    if is_quota(frame) {
        Some(later(now, QUOTA_RETRY))
    } else if retired_by(frame) is Some && frame is Ack && blocked && pending_after(
        pending,
        frame,
    ).len() > 0 {
        Some(now)
    } else {
        retry_at
    }
}

/// What a frame announces.
pub open spec fn event_of(pending: Seq<PendingPush>, frame: InFrame) -> Option<ChatEvent> {
    match frame {
        InFrame::Row { seq: Some(_), .. } => Some(ChatEvent::Applied),
        InFrame::Ack { header: Some(_) } => Some(ChatEvent::Applied),
        InFrame::Presence => Some(ChatEvent::Presence),
        InFrame::Error { .. } => if pending_after(pending, frame).len() != pending.len() {
            Some(ChatEvent::PushRejected)
        } else {
            None
        },
        _ => None,
    }
}

proof fn lemma_without(pending: Seq<PendingPush>, gone: Option<Seq<char>>)
    ensures
        without(pending, gone).len() <= pending.len(),
        gone is None ==> without(pending, gone) == pending,
        forall|i: int|
            0 <= i < pending.len() && gone != Some((#[trigger] pending[i]).batch_id@) ==> without(
                pending,
                gone,
            ).contains(pending[i]),
        forall|j: int|
            0 <= j < without(pending, gone).len() ==> {
                &&& gone != Some((#[trigger] without(pending, gone)[j]).batch_id@)
                &&& pending.contains(without(pending, gone)[j])
            },
    decreases pending.len(),
{
    if pending.len() > 0 {
        let front = pending.drop_last();
        let kept = without(front, gone);
        lemma_without(front, gone);
        let all = without(pending, gone);
        assert forall|i: int|
            0 <= i < pending.len() && gone != Some(
                (#[trigger] pending[i]).batch_id@,
            ) implies all.contains(pending[i]) by {
            if i < front.len() {
                assert(front[i] == pending[i]);
                let j = choose|j: int| 0 <= j < kept.len() && kept[j] == pending[i];
                assert(all[j] == pending[i]);
            } else {
                assert(all[kept.len() as int] == pending[i]);
            }
        }
        assert forall|j: int| 0 <= j < all.len() implies {
            &&& gone != Some((#[trigger] all[j]).batch_id@)
            &&& pending.contains(all[j])
        } by {
            if j < kept.len() {
                assert(all[j] == kept[j]);
                let i = choose|i: int| 0 <= i < front.len() && front[i] == kept[j];
                assert(pending[i] == all[j]);
            } else {
                assert(all[j] == pending[pending.len() - 1]);
            }
        }
        if gone is None {
            assert(all =~= pending);
        }
    }
}

/// A queued batch stays queued, and nothing enters the queue, whatever frame comes — unless it acks
/// that batch or rejects it for good.
pub proof fn law_unacked_batches_survive(pending: Seq<PendingPush>, frame: InFrame)
    ensures
        forall|i: int|
            0 <= i < pending.len() && retired_by(frame) != Some(
                (#[trigger] pending[i]).batch_id@,
            ) ==> pending_after(pending, frame).contains(pending[i]),
        forall|j: int|
            0 <= j < pending_after(pending, frame).len() ==> pending.contains(
                #[trigger] pending_after(pending, frame)[j],
            ),
{
    lemma_without(pending, retired_by(frame));
    let after = pending_after(pending, frame);
    assert forall|j: int| 0 <= j < after.len() implies pending.contains(#[trigger] after[j]) by {
        assert(after[j] == without(pending, retired_by(frame))[j]);
    }
}

/// The queue after a run of frames.
pub open spec fn pending_after_all(
    pending: Seq<PendingPush>,
    frames: Seq<InFrame>,
) -> Seq<PendingPush>
    decreases frames.len(),
{
    if frames.len() == 0 {
        pending
    } else {
        pending_after(pending_after_all(pending, frames.drop_last()), frames.last())
    }
}

/// However many frames and sessions go by, a queued batch is replayed until a frame acks it or
/// rejects it for good.
pub proof fn law_batches_wait_for_their_ack(
    pending: Seq<PendingPush>,
    frames: Seq<InFrame>,
    push: PendingPush,
)
    requires
        pending.contains(push),
        forall|i: int|
            0 <= i < frames.len() ==> retired_by(#[trigger] frames[i]) != Some(push.batch_id@),
    ensures
        pending_after_all(pending, frames).contains(push),
    decreases frames.len(),
{
    if frames.len() > 0 {
        let front = frames.drop_last();
        assert forall|i: int| 0 <= i < front.len() implies retired_by(#[trigger] front[i]) != Some(
            push.batch_id@,
        ) by {
            assert(front[i] == frames[i]);
        }
        law_batches_wait_for_their_ack(pending, front, push);
        let before = pending_after_all(pending, front);
        law_unacked_batches_survive(before, frames.last());
        let i = choose|i: int| 0 <= i < before.len() && before[i] == push;
        assert(before[i].batch_id@ == push.batch_id@);
    }
}

/// An acked batch, or one that was rejected for good, is never pushed again.
pub proof fn law_retired_batches_are_gone(pending: Seq<PendingPush>, frame: InFrame, j: int)
    requires
        0 <= j < pending_after(pending, frame).len(),
    ensures
        retired_by(frame) != Some(pending_after(pending, frame)[j].batch_id@),
{
    lemma_without(pending, retired_by(frame));
}

/// An ack ends the wait of the batch that it names, and of no other: that batch is gone from the
/// queue and the rest is there.
pub proof fn law_acks_end_the_wait_of_their_batch(
    pending: Seq<PendingPush>,
    ack: AckHeader,
    push: PendingPush,
)
    requires
        pending.contains(push),
    ensures
        pending_after(pending, InFrame::Ack { header: Some(ack) }).contains(push) <==> push.batch_id@
            != ack.batch_id@,
{
    let frame = InFrame::Ack { header: Some(ack) };
    lemma_without(pending, retired_by(frame));
    let i = choose|i: int| 0 <= i < pending.len() && pending[i] == push;
    assert(pending[i].batch_id@ == push.batch_id@);
    let after = pending_after(pending, frame);
    if after.contains(push) {
        let j = choose|j: int| 0 <= j < after.len() && after[j] == push;
        assert(after[j] == without(pending, retired_by(frame))[j]);
    }
}

/// A rejection ends the wait of the batch that it names where the batch is too large, empty or
/// malformed, which no replay changes. Any other rejection leaves the queue as it is, and so does
/// every frame that is neither an ack nor a rejection.
pub proof fn law_only_final_verdicts_end_a_wait(
    pending: Seq<PendingPush>,
    frame: InFrame,
    push: PendingPush,
)
    requires
        pending.contains(push),
    ensures
        match frame {
            InFrame::Error { code, batch_id } => if code@ != "too_large"@ && code@ != "empty"@
                && code@ != "bad_push"@ {
                pending_after(pending, frame) == pending
            } else {
                batch_id@.len() > 0 ==> (pending_after(pending, frame).contains(push)
                    <==> push.batch_id@ != batch_id@)
            },
            InFrame::Ack { header: Some(_) } => true,
            _ => pending_after(pending, frame) == pending,
        },
{
    lemma_without(pending, retired_by(frame));
    let i = choose|i: int| 0 <= i < pending.len() && pending[i] == push;
    assert(pending[i].batch_id@ == push.batch_id@);
    let after = pending_after(pending, frame);
    if after.contains(push) {
        let j = choose|j: int| 0 <= j < after.len() && after[j] == push;
        assert(after[j] == without(pending, retired_by(frame))[j]);
    }
}

/// The place of a queued batch among those that stay.
proof fn lemma_without_order(pending: Seq<PendingPush>, gone: Option<Seq<char>>, i: int)
    requires
        0 <= i < pending.len(),
        gone != Some(pending[i].batch_id@),
    ensures
        without(pending.take(i), gone).len() < without(pending, gone).len(),
        without(pending, gone)[without(pending.take(i), gone).len() as int] == pending[i],
    decreases pending.len(),
{
    let front = pending.drop_last();
    if i < front.len() {
        assert(front[i] == pending[i]);
        assert(front.take(i) =~= pending.take(i));
        lemma_without_order(front, gone, i);
    } else {
        assert(pending.take(i) =~= front);
    }
}

/// Batches are pushed in the order in which they were queued: whatever frame comes, two of them
/// that stay queued keep their order.
pub proof fn law_queued_batches_keep_their_order(
    pending: Seq<PendingPush>,
    frame: InFrame,
    i: int,
    j: int,
)
    requires
        0 <= i < j < pending.len(),
        retired_by(frame) != Some(pending[i].batch_id@),
        retired_by(frame) != Some(pending[j].batch_id@),
    ensures
        ({
            let after = pending_after(pending, frame);
            exists|x: int, y: int|
                0 <= x < y < after.len() && #[trigger] after[x] == pending[i] && #[trigger] after[y]
                    == pending[j]
        }),
{
    let gone = retired_by(frame);
    let after = pending_after(pending, frame);
    lemma_without_order(pending, gone, i);
    lemma_without_order(pending, gone, j);
    assert(pending.take(j)[i] == pending[i]);
    lemma_without_order(pending.take(j), gone, i);
    assert(pending.take(j).take(i) =~= pending.take(i));
    let x = without(pending.take(i), gone).len() as int;
    let y = without(pending.take(j), gone).len() as int;
    assert(after[x] == pending[i] && after[y] == pending[j]);
}

/// A row or an ack takes the cursor to its seq and never behind it; no other frame moves it.
pub proof fn law_the_cursor_follows_the_log(cursor: u64, frame: InFrame)
    ensures
        match frame {
            InFrame::Row { seq: Some(seq), .. } => seq <= cursor_after(cursor, frame) && (
            cursor_after(cursor, frame) == seq || cursor_after(cursor, frame) == cursor),
            InFrame::Ack { header: Some(ack) } => ack.seq <= cursor_after(cursor, frame) && (
            cursor_after(cursor, frame) == ack.seq || cursor_after(cursor, frame) == cursor),
            _ => cursor_after(cursor, frame) == cursor,
        },
        cursor <= cursor_after(cursor, frame),
{
}

/// No frame sets the cursor back.
pub proof fn law_frames_advance_the_cursor(cursor: u64, frame: InFrame)
    ensures
        cursor_after(cursor, frame) >= cursor,
{
}

/// While a quota-blocked queue is drained, each grant probes the next batch at once.
pub proof fn law_grants_rearm_the_clock(
    retry_at: Option<u64>,
    pending: Seq<PendingPush>,
    ack: AckHeader,
    now: u64,
)
    ensures
        ({
            let frame = InFrame::Ack { header: Some(ack) };
            let left = pending_after(pending, frame).len();
            &&& blocked_after(true, pending, frame) == (left > 0)
            &&& left > 0 ==> retry_after(retry_at, true, pending, frame, now) == Some(now)
        }),
{
}

fn drop_batch(pending: &mut Vec<PendingPush>, id: &str)
    ensures
        final(pending)@ == without(old(pending)@, Some(id@)),
{
    let ghost all = pending@;
    let mut from: Vec<PendingPush> = Vec::new();
    std::mem::swap(&mut from, pending);
    for push in it: from
        invariant
            it.seq() == all,
            pending@ == without(all.take(it.index() as int), Some(id@)),
    {
        proof {
            let upto = all.take(it.index() as int + 1);
            assert(upto.drop_last() =~= all.take(it.index() as int));
            assert(upto.last() == all[it.index() as int]);
        }
        if !same_str(push.batch_id.as_str(), id) {
            pending.push(push);
        }
    }
    assert(all.take(all.len() as int) =~= all);
}

/// What came of a frame. Where it is not `ok` the session is torn down.
pub struct FrameOutcome {
    pub ok: bool,
    pub sink: Option<SinkCall>,
    pub event: Option<ChatEvent>,
}

/// What the sink is asked after a frame.
pub open spec fn asks_sink(call: Option<SinkCall>, cursor: u64, frame: InFrame) -> bool {
    match frame {
        InFrame::Row { seq: Some(seq), payload } => call matches Some(
            SinkCall::Row { bytes, cursor: at },
        ) && bytes@ == payload@ && at == seq,
        InFrame::Ack { header: Some(_) } => call matches Some(SinkCall::Advance { cursor: at })
            && at == cursor_after(cursor, frame),
        _ => call is None,
    }
}

impl ChatClient {
    pub fn new(device_id: &str, initial_cursor: u64, tuning: ChatTuning) -> (r: Self)
        ensures
            r.device_id@ == device_id@,
            r.tuning == tuning,
            r.cursor == initial_cursor,
            r.pending@.len() == 0,
            r.server is None,
            r.retry_at is None,
            !r.quota_blocked,
            !r.connected,
            r.rejoins == 0,
            r.disconnects == 0,
            r.rejected == 0,
            r.server_resets == 0,
            !r.resumed,
            r.joining,
            r.backoff == BACKOFF_BASE,
            r.probe_deadline is None,
    {
        ChatClient {
            device_id: device_id.to_owned(),
            tuning,
            cursor: initial_cursor,
            pending: Vec::new(),
            server: None,
            retry_at: None,
            quota_blocked: false,
            connected: false,
            rejoins: 0,
            disconnects: 0,
            rejected: 0,
            server_resets: 0,
            resumed: false,
            joining: true,
            backoff: BACKOFF_BASE,
            last_frame: 0,
            probe_deadline: None,
        }
    }

    /// Queue one local update batch for push; a fresh batch id is minted, and the batch survives
    /// reconnects until it is acked. Batches over [`MAX_PUSH_BYTES`] are refused: the server can
    /// never accept them, and a batch queued forever would replay on every reconnect. A queued
    /// batch is worth a nudge, a refused one an event.
    pub fn enqueue_update(&mut self, bytes: Vec<u8>) -> (r: Option<ChatEvent>)
        ensures
            bytes@.len() > MAX_PUSH_BYTES ==> {
                &&& r == Some(ChatEvent::PushRejected)
                &&& *final(self) == (ChatClient { rejected: bumped(old(self).rejected), ..*old(self) })
            },
            bytes@.len() <= MAX_PUSH_BYTES ==> {
                &&& r is None
                &&& final(self).pending@.len() == old(self).pending@.len() + 1
                &&& final(self).pending@.drop_last() == old(self).pending@
                &&& final(self).pending@.last().bytes == bytes
                &&& is_uuid_v4(final(self).pending@.last().batch_id@)
                &&& *final(self) == (ChatClient { pending: final(self).pending, ..*old(self) })
            },
    {
        if bytes.len() > MAX_PUSH_BYTES {
            self.rejected = self.rejected.wrapping_add(1);
            return Some(ChatEvent::PushRejected);
        }
        self.pending.push(PendingPush { batch_id: fresh_id(), bytes });
        assert(self.pending@.drop_last() =~= old(self).pending@);
        None
    }

    /// The host posted a checkpoint covering `seq_covered`: fold it into the cached server view, so
    /// that thresholds do not trip again on numbers of the last hello.
    pub fn note_checkpoint(&mut self, seq_covered: u64, size: u64)
        ensures
            *final(self) == (ChatClient {
                server: match old(self).server {
                    Some(server) => Some(
                        StateHeader {
                            head_seq: server.head_seq,
                            seq_floor: seq_covered,
                            checkpoint_seq: seq_covered,
                            checkpoint_size: size,
                            row_count: 0,
                            row_bytes: 0,
                        },
                    ),
                    None => None,
                },
                ..*old(self)
            }),
    {
        if let Some(server) = self.server {
            self.server =
            Some(
                StateHeader {
                    head_seq: server.head_seq,
                    seq_floor: seq_covered,
                    checkpoint_seq: seq_covered,
                    checkpoint_size: size,
                    row_count: 0,
                    row_bytes: 0,
                },
            );
        }
    }

    /// The server view, or zeros before the first hello.
    pub open spec fn server_view(self) -> StateHeader {
        match self.server {
            Some(server) => server,
            None => StateHeader {
                head_seq: 0,
                seq_floor: 0,
                checkpoint_seq: 0,
                checkpoint_size: 0,
                row_count: 0,
                row_bytes: 0,
            },
        }
    }

    /// The counters and the server's honest view — a cursor ahead of its head is the reset signal
    /// and stays visible.
    pub fn stats(&self) -> (r: ChatStatsSnapshot)
        ensures
            r == (ChatStatsSnapshot {
                connected: self.connected,
                cursor: self.cursor,
                head_seq: self.server_view().head_seq,
                seq_floor: self.server_view().seq_floor,
                checkpoint_seq: self.server_view().checkpoint_seq,
                checkpoint_size: self.server_view().checkpoint_size,
                row_count: self.server_view().row_count,
                row_bytes: self.server_view().row_bytes,
                pending_pushes: self.pending@.len() as u64,
                rejoins: self.rejoins,
                disconnects: self.disconnects,
                rejected: self.rejected,
                server_resets: self.server_resets,
            }),
    {
        let server = match self.server {
            Some(server) => server,
            None => StateHeader {
                head_seq: 0,
                seq_floor: 0,
                checkpoint_seq: 0,
                checkpoint_size: 0,
                row_count: 0,
                row_bytes: 0,
            },
        };
        ChatStatsSnapshot {
            connected: self.connected,
            cursor: self.cursor,
            head_seq: server.head_seq,
            seq_floor: server.seq_floor,
            checkpoint_seq: server.checkpoint_seq,
            checkpoint_size: server.checkpoint_size,
            row_count: server.row_count,
            row_bytes: server.row_bytes,
            pending_pushes: self.pending.len() as u64,
            rejoins: self.rejoins,
            disconnects: self.disconnects,
            rejected: self.rejected,
            server_resets: self.server_resets,
        }
    }

    /// What a frame makes of the client.
    pub open spec fn becomes(self, next: Self, frame: InFrame, now: u64) -> bool {
        &&& next.pending@ == pending_after(self.pending@, frame)
        &&& next == (ChatClient {
            pending: next.pending,
            cursor: cursor_after(self.cursor, frame),
            server: server_after(self.server, frame),
            rejected: if frame is Error {
                bumped(self.rejected)
            } else {
                self.rejected
            },
            quota_blocked: blocked_after(self.quota_blocked, self.pending@, frame),
            retry_at: retry_after(self.retry_at, self.quota_blocked, self.pending@, frame, now),
            ..self
        })
    }

    /// Apply one inbound frame. Where the outcome is not ok the protocol broke down: redial.
    pub fn handle_frame(&mut self, frame: InFrame, now: u64) -> (r: FrameOutcome)
        ensures
            r.ok == !breaks_session(frame),
            r.event == event_of(old(self).pending@, frame),
            asks_sink(r.sink, old(self).cursor, frame),
            old(self).becomes(*final(self), frame, now),
    {
        proof {
            lemma_without(self.pending@, retired_by(frame));
            reveal_strlit("too_large");
            reveal_strlit("empty");
            reveal_strlit("bad_push");
            reveal_strlit("quota");
            assert("empty"@[0] != "quota"@[0]);
        }
        match frame {
            InFrame::Row { seq: None, .. } => FrameOutcome { ok: false, sink: None, event: None },
            InFrame::Row { seq: Some(seq), payload } => {
                self.cursor = max_of(self.cursor, seq);
                FrameOutcome {
                    ok: true,
                    sink: Some(SinkCall::Row { bytes: payload, cursor: seq }),
                    event: Some(ChatEvent::Applied),
                }
            },
            InFrame::Ack { header: None } => FrameOutcome { ok: false, sink: None, event: None },
            InFrame::Ack { header: Some(ack) } => {
                drop_batch(&mut self.pending, ack.batch_id.as_str());
                self.cursor = max_of(self.cursor, ack.seq);
                if self.quota_blocked {
                    if self.pending.len() == 0 {
                        self.quota_blocked = false;
                    } else {
                        self.retry_at = Some(now);
                    }
                }
                FrameOutcome {
                    ok: true,
                    sink: Some(SinkCall::Advance { cursor: self.cursor }),
                    event: Some(ChatEvent::Applied),
                }
            },
            InFrame::Presence => FrameOutcome {
                ok: true,
                sink: None,
                event: Some(ChatEvent::Presence),
            },
            InFrame::ProbeOk { head_seq } => {
                if let (Some(head), Some(server)) = (head_seq, self.server) {
                    self.server =
                    Some(StateHeader { head_seq: max_of(server.head_seq, head), ..server });
                }
                FrameOutcome { ok: true, sink: None, event: None }
            },
            InFrame::State { state, .. } => {
                if state.is_some() {
                    self.server = state;
                }
                FrameOutcome { ok: true, sink: None, event: None }
            },
            InFrame::Error { code, batch_id } => {
                self.rejected = self.rejected.wrapping_add(1);
                let code = code.as_str();
                if (same_str(code, "too_large") || same_str(code, "empty") || same_str(
                    code,
                    "bad_push",
                )) && !batch_id.as_str().is_empty() {
                    let before: usize = self.pending.len();
                    drop_batch(&mut self.pending, batch_id.as_str());
                    let event = if before != self.pending.len() {
                        Some(ChatEvent::PushRejected)
                    } else {
                        None
                    };
                    return FrameOutcome { ok: true, sink: None, event };
                }
                if same_str(code, "quota") {
                    self.quota_blocked = true;
                    self.retry_at = Some(now.saturating_add(QUOTA_RETRY));
                }
                FrameOutcome { ok: true, sink: None, event: None }
            },
            InFrame::RowsDone { .. } => FrameOutcome { ok: true, sink: None, event: None },
            InFrame::Unknown => FrameOutcome { ok: true, sink: None, event: None },
        }
    }

    // -----------------------------------------------------------------------
    // A session
    // -----------------------------------------------------------------------

    /// The frame that opens a session.
    pub fn hello(&self) -> (r: OutFrame)
        ensures
            r@ == (OutModel::Hello { cursor: self.cursor, device: self.device_id@ }),
    {
        OutFrame::Hello { cursor: self.cursor, device: self.device_id.clone() }
    }

    /// The client once it has joined: the server view is cached, a join after the first counts as a
    /// rejoin, and a server behind our cursor as a reset.
    pub open spec fn joined(self, state: StateHeader) -> Self {
        ChatClient {
            server: Some(state),
            connected: true,
            rejoins: if self.joining {
                self.rejoins
            } else {
                bumped(self.rejoins)
            },
            server_resets: if self.cursor > state.head_seq {
                bumped(self.server_resets)
            } else {
                self.server_resets
            },
            ..self
        }
    }

    /// One frame while the answer to the hello is awaited; `None` is one that could not be parsed.
    /// The first readable state joins; anything else that is no state is a stale broadcast.
    pub fn handshake_frame(&mut self, frame: Option<InFrame>) -> (r: Handshake)
        ensures
            match frame {
                None => r is Redial && *final(self) == *old(self),
                Some(InFrame::State { state: None, .. }) => r is Redial && *final(self) == *old(
                    self,
                ),
                Some(InFrame::State { state: Some(state), frontier }) => {
                    &&& r matches Handshake::Joined { state: got, frontier: ask, events }
                    &&& got == state
                    &&& ask is Some <==> state.checkpoint_size > 0
                    &&& ask is Some ==> ask->0 == frontier
                    &&& events@ == if old(self).cursor > state.head_seq {
                        seq![ChatEvent::Connected, ChatEvent::ServerReset]
                    } else {
                        seq![ChatEvent::Connected]
                    }
                    &&& *final(self) == old(self).joined(state)
                },
                Some(_) => r is Skip && *final(self) == *old(self),
            },
    {
        match frame {
            None => Handshake::Redial,
            Some(InFrame::State { state: None, .. }) => Handshake::Redial,
            Some(InFrame::State { state: Some(state), frontier }) => {
                self.server = Some(state);
                self.connected = true;
                if !self.joining {
                    self.rejoins = self.rejoins.wrapping_add(1);
                }
                let mut events: Vec<ChatEvent> = Vec::new();
                events.push(ChatEvent::Connected);
                if self.cursor > state.head_seq {
                    self.server_resets = self.server_resets.wrapping_add(1);
                    events.push(ChatEvent::ServerReset);
                }
                let ask = if state.checkpoint_size == 0 {
                    None
                } else {
                    Some(frontier)
                };
                Handshake::Joined { state, frontier: ask, events }
            },
            Some(_) => Handshake::Skip,
        }
    }

    /// A checkpoint was fetched: what the sink is to do with it.
    pub fn checkpoint_call(&self, state: &StateHeader, bytes: Vec<u8>) -> (r: SinkCall)
        ensures
            r == (SinkCall::Checkpoint { bytes, cursor: state.checkpoint_seq }),
    {
        SinkCall::Checkpoint { bytes, cursor: state.checkpoint_seq }
    }

    /// The sink took the checkpoint.
    pub fn checkpoint_applied(&mut self, state: &StateHeader) -> (r: ChatEvent)
        ensures
            r == ChatEvent::Applied,
            *final(self) == (ChatClient {
                cursor: larger(old(self).cursor, state.checkpoint_seq),
                ..*old(self)
            }),
    {
        self.cursor = max_of(self.cursor, state.checkpoint_seq);
        ChatEvent::Applied
    }

    /// Ask for the rows behind `after`. `hello_cursor` is the cursor that the hello named; one
    /// ahead of `after` is set back into the room's honest range. The first backfill of this
    /// client downloads own rows too; reconnects skip them.
    pub fn request_rows(&mut self, hello_cursor: u64, after: u64) -> (r: OutFrame)
        ensures
            r@ == (OutModel::RowsReq { after, exclude_own: old(self).resumed }),
            *final(self) == (ChatClient {
                cursor: if after < hello_cursor {
                    after
                } else {
                    old(self).cursor
                },
                ..*old(self)
            }),
    {
        if after < hello_cursor {
            self.cursor = after;
        }
        OutFrame::RowsReq { after, exclude_own: self.resumed }
    }

    /// One frame of the backfill; `None` is one that could not be parsed. The end of the rows
    /// completes it, if it can be read.
    pub fn backfill_frame(&mut self, frame: Option<InFrame>, now: u64) -> (r: Backfill)
        ensures
            match frame {
                None => r is Redial && *final(self) == *old(self),
                Some(InFrame::RowsDone { head_seq: None }) => r is Redial && *final(self) == *old(
                    self,
                ),
                Some(InFrame::RowsDone { head_seq: Some(head) }) => {
                    &&& r matches Backfill::Done { ready, caught_up }
                    &&& ready == old(self).joining
                    &&& caught_up == ChatEvent::CaughtUp { head_seq: head }
                    &&& *final(self) == (ChatClient { resumed: true, joining: false, ..*old(self) })
                },
                Some(other) => {
                    &&& breaks_session(other) ==> r is Redial
                    &&& !breaks_session(other) ==> {
                        &&& r matches Backfill::More { sink, event }
                        &&& asks_sink(sink, old(self).cursor, other)
                        &&& event == event_of(old(self).pending@, other)
                    }
                    &&& old(self).becomes(*final(self), other, now)
                },
            },
    {
        match frame {
            None => Backfill::Redial,
            Some(InFrame::RowsDone { head_seq: None }) => Backfill::Redial,
            Some(InFrame::RowsDone { head_seq: Some(head_seq) }) => {
                let ready = self.joining;
                self.resumed = true;
                self.joining = false;
                Backfill::Done { ready, caught_up: ChatEvent::CaughtUp { head_seq } }
            },
            Some(other) => {
                let outcome = self.handle_frame(other, now);
                if outcome.ok {
                    Backfill::More { sink: outcome.sink, event: outcome.event }
                } else {
                    Backfill::Redial
                }
            },
        }
    }

    /// The push of a batch.
    pub open spec fn push_of(push: PendingPush) -> OutModel {
        OutModel::Push { batch_id: push.batch_id@, bytes: push.bytes@ }
    }

    /// The queue's head batch — the quota-probe path.
    pub fn push_head(&self) -> (r: Option<OutFrame>)
        ensures
            r is Some <==> self.pending@.len() > 0,
            r is Some ==> r->0@ == Self::push_of(self.pending@[0]),
    {
        if self.pending.len() == 0 {
            return None;
        }
        let push = &self.pending[0];
        Some(
            OutFrame::Push { batch_id: push.batch_id.clone(), bytes: copy_bytes(&push.bytes) },
        )
    }

    /// Every batch that waits for its ack, in order: batches stay queued until then, and the server
    /// dedupes replays.
    pub fn push_pending(&self) -> (r: Vec<OutFrame>)
        ensures
            out_models(r@) == self.pending@.map_values(|push: PendingPush| Self::push_of(push)),
    {
        let mut r: Vec<OutFrame> = Vec::new();
        let ghost all = self.pending@.map_values(|push: PendingPush| Self::push_of(push));
        for i in 0..self.pending.len()
            invariant
                all == self.pending@.map_values(|push: PendingPush| Self::push_of(push)),
                out_models(r@) =~= all.take(i as int),
        {
            let push = &self.pending[i];
            let ghost before = r@;
            r.push(
                OutFrame::Push { batch_id: push.batch_id.clone(), bytes: copy_bytes(&push.bytes) },
            );
            proof {
                assert(out_models(r@) =~= out_models(before).push(r@.last()@));
                assert(all.take(i + 1) =~= all.take(i as int).push(all[i as int]));
            }
        }
        assert(all.take(all.len() as int) =~= all);
        r
    }

    /// The session is caught up: its clocks start.
    pub fn begin_steady(&mut self, now: u64)
        ensures
            *final(self) == (ChatClient { last_frame: now, probe_deadline: None, ..*old(self) }),
    {
        self.last_frame = now;
        self.probe_deadline = None;
    }

    /// One frame in the steady state. Any frame proves that the room lives, even one that then
    /// breaks the session.
    pub fn steady_frame(&mut self, frame: Option<InFrame>, now: u64) -> (r: FrameOutcome)
        ensures
            ({
                let alive = ChatClient { last_frame: now, probe_deadline: None, ..*old(self) };
                match frame {
                    None => {
                        &&& !r.ok
                        &&& r.sink is None
                        &&& r.event is None
                        &&& *final(self) == alive
                    },
                    Some(frame) => {
                        &&& r.ok == !breaks_session(frame)
                        &&& r.event == event_of(old(self).pending@, frame)
                        &&& asks_sink(r.sink, old(self).cursor, frame)
                        &&& alive.becomes(*final(self), frame, now)
                    },
                }
            }),
    {
        self.last_frame = now;
        self.probe_deadline = None;
        match frame {
            Some(frame) => self.handle_frame(frame, now),
            None => FrameOutcome { ok: false, sink: None, event: None },
        }
    }

    /// Publish this device's presence beat; the payload is relayed verbatim.
    pub fn send_presence(&self, at: i64, payload: Vec<u8>) -> (r: OutFrame)
        ensures
            r@ == (OutModel::Presence { at, payload: payload@ }),
    {
        OutFrame::Presence { at, payload }
    }

    /// Probe the room. The deadline of an earlier probe stands until a frame comes.
    pub fn probe(&mut self, now: u64) -> (r: OutFrame)
        ensures
            r@ == OutModel::Probe,
            *final(self) == (ChatClient {
                probe_deadline: match old(self).probe_deadline {
                    Some(at) => Some(at),
                    None => Some(later(now, PROBE_DEADLINE)),
                },
                ..*old(self)
            }),
    {
        if self.probe_deadline.is_none() {
            self.probe_deadline = Some(now.saturating_add(PROBE_DEADLINE));
        }
        OutFrame::Probe
    }

    /// The instants at which the session acts unasked: probe a quiet room, give up on an unanswered
    /// probe, retry the head batch.
    pub fn timers(&self, now: u64) -> (r: Timers)
        ensures
            r == (Timers {
                quiet_probe_at: later(self.last_frame, self.tuning.probe_quiet),
                deadline_at: match self.probe_deadline {
                    Some(at) => at,
                    None => later(now, UNARMED),
                },
                retry_at: match self.retry_at {
                    Some(at) => at,
                    None => later(now, UNARMED),
                },
            }),
    {
        Timers {
            quiet_probe_at: self.last_frame.saturating_add(self.tuning.probe_quiet),
            deadline_at: match self.probe_deadline {
                Some(at) => at,
                None => now.saturating_add(UNARMED),
            },
            retry_at: match self.retry_at {
                Some(at) => at,
                None => now.saturating_add(UNARMED),
            },
        }
    }

    /// The retry clock rang: the head batch goes, if there is one.
    pub fn retry(&mut self) -> (r: Option<OutFrame>)
        ensures
            *final(self) == (ChatClient { retry_at: None, ..*old(self) }),
            r is Some <==> old(self).pending@.len() > 0,
            r is Some ==> r->0@ == Self::push_of(old(self).pending@[0]),
    {
        self.retry_at = None;
        self.push_head()
    }

    /// The room was quiet for long: probe it, and start the quiet anew.
    pub fn quiet_probe(&mut self, now: u64) -> (r: OutFrame)
        ensures
            r@ == OutModel::Probe,
            *final(self) == (ChatClient {
                probe_deadline: match old(self).probe_deadline {
                    Some(at) => Some(at),
                    None => Some(later(now, PROBE_DEADLINE)),
                },
                last_frame: now,
                ..*old(self)
            }),
    {
        let frame = self.probe(now);
        self.last_frame = now;
        frame
    }

    // -----------------------------------------------------------------------
    // Reconnecting
    // -----------------------------------------------------------------------

    /// The wait before the next dial is within its bounds.
    pub open spec fn backoff_bounded(self) -> bool {
        BACKOFF_BASE <= self.backoff <= BACKOFF_CAP
    }

    /// A dial failed or timed out. A first join that fails is the caller's to retry; otherwise the
    /// client waits.
    pub fn dial_failed(&mut self) -> (r: NextDial)
        ensures
            r == if old(self).joining {
                NextDial::GiveUp
            } else {
                NextDial::Wait(old(self).backoff)
            },
            *final(self) == (ChatClient { joining: false, ..*old(self) }),
    {
        if self.joining {
            self.joining = false;
            NextDial::GiveUp
        } else {
            NextDial::Wait(self.backoff)
        }
    }

    /// A session ended and is to be dialed again; the disconnect is announced. A session that had
    /// joined resets the backoff, so that a flapping link does not pin every later reconnect at
    /// the cap. A first join that got this far and no further failed.
    pub fn session_ended(&mut self) -> (r: (ChatEvent, NextDial))
        ensures
            r.0 == ChatEvent::Disconnected,
            r.1 == if old(self).joining {
                NextDial::GiveUp
            } else {
                NextDial::Wait(final(self).backoff)
            },
            *final(self) == (ChatClient {
                connected: false,
                disconnects: bumped(old(self).disconnects),
                joining: false,
                backoff: if !old(self).joining && old(self).connected {
                    BACKOFF_BASE
                } else {
                    old(self).backoff
                },
                ..*old(self)
            }),
    {
        let joined = self.connected;
        self.connected = false;
        self.disconnects = self.disconnects.wrapping_add(1);
        if self.joining {
            self.joining = false;
            return (ChatEvent::Disconnected, NextDial::GiveUp);
        }
        if joined {
            self.backoff = BACKOFF_BASE;
        }
        (ChatEvent::Disconnected, NextDial::Wait(self.backoff))
    }

    /// A wait ended: whether to dial again. A full wait doubles the next one up to the cap; a wake,
    /// or another dial's success, starts over.
    pub fn waited(&mut self, how: Waited) -> (dial: bool)
        requires
            old(self).backoff_bounded(),
        ensures
            dial == !(how is Shutdown),
            final(self).backoff_bounded(),
            *final(self) == (ChatClient {
                backoff: match how {
                    Waited::Shutdown => old(self).backoff,
                    Waited::Woke => BACKOFF_BASE,
                    Waited::Elapsed => if 2 * old(self).backoff > BACKOFF_CAP {
                        BACKOFF_CAP
                    } else {
                        (2 * old(self).backoff) as u64
                    },
                },
                ..*old(self)
            }),
    {
        match how {
            Waited::Shutdown => false,
            Waited::Woke => {
                self.backoff = BACKOFF_BASE;
                true
            },
            Waited::Elapsed => {
                let doubled: u64 = self.backoff * 2;
                self.backoff = if doubled > BACKOFF_CAP {
                    BACKOFF_CAP
                } else {
                    doubled
                };
                true
            },
        }
    }
}

/// What a frame of the handshake comes to. Where `frontier` is some, the sink is asked whether the
/// doc contains it; without a checkpoint it counts as contained.
pub enum Handshake {
    Skip,
    Redial,
    Joined { state: StateHeader, frontier: Option<Vec<u8>>, events: Vec<ChatEvent> },
}

/// What a frame of the backfill comes to; `ready` where it completed the first join.
pub enum Backfill {
    More { sink: Option<SinkCall>, event: Option<ChatEvent> },
    Done { ready: bool, caught_up: ChatEvent },
    Redial,
}

/// When the session acts unasked.
#[derive(Debug, Clone, Copy, PartialEq, Eq, Structural)]
pub struct Timers {
    pub quiet_probe_at: u64,
    pub deadline_at: u64,
    pub retry_at: u64,
}

/// What follows a failed dial or a lost session.
#[derive(Debug, Clone, Copy, PartialEq, Eq, Structural)]
pub enum NextDial {
    /// The first join failed: report it and stop.
    GiveUp,
    /// Dial again after this wait.
    Wait(u64),
}

/// How a backoff wait ended.
#[derive(Debug, Clone, Copy, PartialEq, Eq, Structural)]
pub enum Waited {
    Elapsed,
    /// System wake or another dial's success: redial now on fresh backoff.
    Woke,
    Shutdown,
}

fn copy_bytes(bytes: &Vec<u8>) -> (r: Vec<u8>)
    ensures
        r@ == bytes@,
{
    let mut r: Vec<u8> = Vec::new();
    r.extend_from_slice(bytes.as_slice());
    assert(r@ =~= bytes@);
    r
}

/// A push over the quota waits: nothing leaves the queue, and its head is tried again in five
/// seconds. No other frame than an ack touches that clock.
pub proof fn law_quota_is_waited_out(
    retry_at: Option<u64>,
    blocked: bool,
    pending: Seq<PendingPush>,
    frame: InFrame,
    now: u64,
)
    ensures
        match frame {
            InFrame::Error { code, .. } if code@ == "quota"@ => {
                &&& pending_after(pending, frame) == pending
                &&& blocked_after(blocked, pending, frame)
                &&& now <= u64::MAX - 5_000 ==> retry_after(
                    retry_at,
                    blocked,
                    pending,
                    frame,
                    now,
                ) == Some((now + 5_000) as u64)
            },
            InFrame::Ack { header: Some(_) } => blocked_after(blocked, pending, frame) ==> blocked,
            _ => {
                &&& blocked_after(blocked, pending, frame) == blocked
                &&& retry_after(retry_at, blocked, pending, frame, now) == retry_at
            },
        },
{
    reveal_strlit("quota");
    reveal_strlit("too_large");
    reveal_strlit("empty");
    reveal_strlit("bad_push");
    assert("quota"@[0] == 'q' && "too_large"@[0] == 't' && "empty"@[0] == 'e' && "bad_push"@[0]
        == 'b');
    lemma_without(pending, retired_by(frame));
}

/// The server's view is what it says of itself: its state replaces what was known, an answered probe
/// only moves the head forward, and no other frame changes it.
pub proof fn law_the_server_tells_its_view(server: Option<StateHeader>, frame: InFrame)
    ensures
        match frame {
            InFrame::State { state: Some(state), .. } => server_after(server, frame) == Some(state),
            InFrame::ProbeOk { head_seq: Some(head) } => match server {
                Some(view) => {
                    let after = server_after(server, frame);
                    &&& after is Some
                    &&& after->0.head_seq >= head && after->0.head_seq >= view.head_seq
                    &&& after->0.head_seq == head || after->0.head_seq == view.head_seq
                    &&& after->0 == (StateHeader { head_seq: after->0.head_seq, ..view })
                },
                None => server_after(server, frame) is None,
            },
            _ => server_after(server, frame) == server,
        },
{
}

/// A row goes to the doc as it came, at its own seq; an ack moves the doc's cursor to where the
/// client's is; nothing else is asked of the doc.
pub proof fn law_rows_reach_the_doc(call: Option<SinkCall>, cursor: u64, frame: InFrame)
    requires
        asks_sink(call, cursor, frame),
    ensures
        match frame {
            InFrame::Row { seq: Some(seq), payload } => call matches Some(
                SinkCall::Row { bytes, cursor: at },
            ) && bytes@ == payload@ && at == seq,
            InFrame::Ack { header: Some(ack) } => call matches Some(SinkCall::Advance { cursor: at })
                && at >= cursor && at >= ack.seq && (at == cursor || at == ack.seq),
            _ => call is None,
        },
{
}

/// A rejection is announced where it took a batch out of the queue.
pub proof fn law_lost_batches_are_announced(
    pending: Seq<PendingPush>,
    code: String,
    batch_id: String,
    push: PendingPush,
)
    requires
        pending.contains(push),
        push.batch_id@ == batch_id@,
        batch_id@.len() > 0,
        code@ == "too_large"@ || code@ == "empty"@ || code@ == "bad_push"@,
    ensures
        event_of(pending, InFrame::Error { code, batch_id }) == Some(ChatEvent::PushRejected),
{
    let frame = InFrame::Error { code, batch_id };
    lemma_without(pending, retired_by(frame));
    let gone = retired_by(frame);
    assert(gone == Some(push.batch_id@));
    lemma_without_shrinks(pending, push);
}

proof fn lemma_without_shrinks(pending: Seq<PendingPush>, push: PendingPush)
    requires
        pending.contains(push),
    ensures
        without(pending, Some(push.batch_id@)).len() < pending.len(),
    decreases pending.len(),
{
    let front = pending.drop_last();
    let gone = Some(push.batch_id@);
    lemma_without(front, gone);
    if pending.last().batch_id@ != push.batch_id@ {
        let i = choose|i: int| 0 <= i < pending.len() && pending[i] == push;
        assert(front[i] == push);
        lemma_without_shrinks(front, push);
    }
}

} // verus!
