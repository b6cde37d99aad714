//! One session with a room, from the hello to its end: what each thing that happens leads to.
//!
//! The transport, the clock and the checkpoint store belong to the caller. It reports what happened
//! and does what a step asks for, in the order of the step's fields.

use vstd::prelude::*;

use crate::chat_client::{
    asks_sink, breaks_session, catch_up, event_of, larger, later, law_unacked_batches_survive,
    out_models, plan_catch_up, retired_by, rows_after, Backfill, CatchUpPlan, ChatClient,
    ChatEvent, Handshake, InFrame, OutFrame, OutModel, PendingPush, SinkCall, StateHeader,
    PROBE_DEADLINE,
};

verus! {

/// How far a session has come.
#[derive(Debug, Clone, Copy, PartialEq, Eq, Structural)]
pub enum Phase {
    /// The hello is sent; the state of the room is awaited.
    Hello,
    /// The sink is asked whether the doc contains the checkpoint's frontier.
    Frontier { state: StateHeader },
    /// The checkpoint is fetched; rows after `after` come next.
    Fetch { state: StateHeader, after: u64 },
    /// The checkpoint is imported; rows after `after` come next.
    Import { state: StateHeader, after: u64 },
    /// Rows are streamed.
    Backfill,
    /// The doc is converged; frames come as they are made.
    Steady,
    /// The session is over.
    Over,
}

/// Something that happened.
pub enum SessionEvent {
    /// A frame came; `None` where it could not be read.
    Frame(Option<InFrame>),
    /// The connection closed, a frame could not be sent, or what was awaited did not come in time.
    Lost,
    /// The sink's verdict on the frontier.
    FrontierChecked(bool),
    /// The checkpoint's bytes, or that they could not be had in time.
    Fetched(Option<Vec<u8>>),
    /// Whether the checkpoint was imported.
    Imported(bool),
    /// A batch was queued.
    Nudge,
    /// A presence beat is to be published.
    Beat { at: i64, payload: Vec<u8> },
    /// A probe is asked for.
    ProbeAsked,
    /// A fresh connection is asked for.
    RedialAsked,
    /// The retry clock went off.
    RetryDue,
    /// Nothing was heard for long.
    QuietDue,
    /// A probe went unanswered.
    ProbeOverdue,
    /// The shutdown flag changed to this.
    Shutdown(bool),
}

/// What is to be done next.
pub enum Next {
    /// Wait for the next thing to happen.
    Await,
    /// The event does not belong to this phase: hold it until a later one takes it.
    Hold,
    /// Ask the sink whether the doc contains this frontier.
    CheckFrontier(Vec<u8>),
    FetchCheckpoint,
    ImportCheckpoint(SinkCall),
    /// The session is over; dial again.
    Reconnect,
    /// The session is over for good.
    Stop,
}

/// What an event leads to.
pub struct Step {
    pub sink: Option<SinkCall>,
    /// The first join is complete.
    pub ready: bool,
    pub events: Vec<ChatEvent>,
    pub send: Vec<OutFrame>,
    pub next: Next,
}

/// A session under way.
pub struct Session {
    pub phase: Phase,
    /// The cursor that the hello told.
    pub hello_cursor: u64,
}

impl Phase {
    /// Whether something that happens concerns a session in this phase. What is queued for the room
    /// is not taken up before the doc has caught up.
    pub open spec fn takes(self, event: SessionEvent) -> bool {
        match event {
            SessionEvent::Frame(_) => self == Phase::Hello || self == Phase::Backfill || self
                == Phase::Steady,
            SessionEvent::Lost => self != Phase::Over,
            SessionEvent::FrontierChecked(_) => self is Frontier,
            SessionEvent::Fetched(_) => self is Fetch,
            SessionEvent::Imported(_) => self is Import,
            SessionEvent::Shutdown(_) => self is Fetch || self == Phase::Steady,
            SessionEvent::Nudge
            | SessionEvent::Beat { .. }
            | SessionEvent::ProbeAsked
            | SessionEvent::RedialAsked
            | SessionEvent::RetryDue
            | SessionEvent::QuietDue
            | SessionEvent::ProbeOverdue => self == Phase::Steady,
        }
    }
}

impl Step {
    /// Nothing but `next` is asked for.
    pub open spec fn only(self) -> bool {
        &&& self.sink is None
        &&& !self.ready
        &&& self.events@.len() == 0
        &&& self.send@.len() == 0
    }

    /// Just this frame is to be sent.
    pub open spec fn sends(self, frame: OutModel) -> bool {
        &&& self.sink is None
        &&& !self.ready
        &&& self.events@.len() == 0
        &&& out_models(self.send@) == seq![frame]
        &&& self.next is Await
    }

    fn just(next: Next) -> (r: Step)
        ensures
            r.only(),
            r.next == next,
    {
        Step { sink: None, ready: false, events: Vec::new(), send: Vec::new(), next }
    }

    fn sending(frame: OutFrame) -> (r: Step)
        ensures
            r.sends(frame@),
    {
        let mut send: Vec<OutFrame> = Vec::new();
        send.push(frame);
        assert(out_models(send@) =~= seq![frame@]);
        Step { sink: None, ready: false, events: Vec::new(), send, next: Next::Await }
    }
}

/// The batches of a queue as pushes.
pub open spec fn pushes(pending: Seq<PendingPush>) -> Seq<OutModel> {
    pending.map_values(|push: PendingPush| ChatClient::push_of(push))
}

/// The first batch of a queue as a push.
pub open spec fn head_push(pending: Seq<PendingPush>) -> Seq<OutModel> {
    if pending.len() == 0 {
        Seq::empty()
    } else {
        seq![ChatClient::push_of(pending[0])]
    }
}

/// The events of a join.
pub open spec fn join_events(cursor: u64, state: StateHeader) -> Seq<ChatEvent> {
    if cursor > state.head_seq {
        seq![ChatEvent::Connected, ChatEvent::ServerReset]
    } else {
        seq![ChatEvent::Connected]
    }
}

/// Whether the client goes from `before` to `after` by asking for rows: a cursor that is ahead of
/// where they start is set back to it.
pub open spec fn asks_rows(before: ChatClient, hello_cursor: u64, start: u64) -> ChatClient {
    ChatClient {
        cursor: if start < hello_cursor {
            start
        } else {
            before.cursor
        },
        ..before
    }
}

/// The probe's deadline, once a probe is sent.
pub open spec fn probing(client: ChatClient, now: u64) -> ChatClient {
    ChatClient {
        probe_deadline: match client.probe_deadline {
            Some(at) => Some(at),
            None => Some(later(now, PROBE_DEADLINE)),
        },
        ..client
    }
}

impl Session {
    /// Open a session: the hello to send.
    pub fn begin(client: &ChatClient) -> (r: (Session, OutFrame))
        ensures
            r.0.phase == Phase::Hello,
            r.0.hello_cursor == client.cursor,
            r.1@ == (OutModel::Hello { cursor: client.cursor, device: client.device_id@ }),
    {
        (Session { phase: Phase::Hello, hello_cursor: client.cursor }, client.hello())
    }

    /// What a frame leads to while the state of the room is awaited. Frames that are not the state
    /// are left over from before, and skipped. A room without a checkpoint has nothing to check.
    pub open spec fn hello_outcome(
        self,
        before: ChatClient,
        frame: Option<InFrame>,
        after: ChatClient,
        phase: Phase,
        step: Step,
    ) -> bool {
        match frame {
            None | Some(InFrame::State { state: None, .. }) => {
                &&& step.only() && step.next is Reconnect
                &&& phase == Phase::Over
                &&& after == before
            },
            Some(InFrame::State { state: Some(state), frontier }) => {
                let joined = before.joined(state);
                &&& step.sink is None && !step.ready
                &&& step.events@ == join_events(before.cursor, state)
                &&& if state.checkpoint_size > 0 {
                    &&& step.next == Next::CheckFrontier(frontier)
                    &&& step.send@.len() == 0
                    &&& phase == (Phase::Frontier { state })
                    &&& after == joined
                } else {
                    let start = rows_after(catch_up(self.hello_cursor, state, true));
                    &&& step.next is Await
                    &&& out_models(step.send@) == seq![
                        OutModel::RowsReq { after: start, exclude_own: before.resumed },
                    ]
                    &&& phase == Phase::Backfill
                    &&& after == asks_rows(joined, self.hello_cursor, start)
                }
            },
            Some(_) => {
                &&& step.only() && step.next is Await
                &&& phase == Phase::Hello
                &&& after == before
            },
        }
    }

    fn hello_frame(&mut self, client: &mut ChatClient, frame: Option<InFrame>) -> (r: Step)
        requires
            old(self).phase == Phase::Hello,
        ensures
            final(self).hello_cursor == old(self).hello_cursor,
            old(self).hello_outcome(*old(client), frame, *final(client), final(self).phase, r),
    {
        match client.handshake_frame(frame) {
            Handshake::Skip => Step::just(Next::Await),
            Handshake::Redial => {
                self.phase = Phase::Over;
                Step::just(Next::Reconnect)
            },
            Handshake::Joined { state, frontier, events } => match frontier {
                Some(frontier) => {
                    self.phase = Phase::Frontier { state };
                    Step {
                        sink: None,
                        ready: false,
                        events,
                        send: Vec::new(),
                        next: Next::CheckFrontier(frontier),
                    }
                },
                None => {
                    let after: u64 = match plan_catch_up(self.hello_cursor, &state, true) {
                        CatchUpPlan::RowsOnly { after } => after,
                        CatchUpPlan::CheckpointThenRows { after } => after,
                    };
                    let request = client.request_rows(self.hello_cursor, after);
                    let mut send: Vec<OutFrame> = Vec::new();
                    send.push(request);
                    assert(out_models(send@) =~= seq![request@]);
                    self.phase = Phase::Backfill;
                    Step { sink: None, ready: false, events, send, next: Next::Await }
                },
            },
        }
    }

    /// What the sink's verdict on the frontier leads to: it decides how to catch up.
    pub open spec fn frontier_outcome(
        self,
        before: ChatClient,
        state: StateHeader,
        contained: bool,
        after: ChatClient,
        phase: Phase,
        step: Step,
    ) -> bool {
        match catch_up(self.hello_cursor, state, contained) {
            CatchUpPlan::RowsOnly { after: start } => {
                &&& step.sends(OutModel::RowsReq { after: start, exclude_own: before.resumed })
                &&& phase == Phase::Backfill
                &&& after == asks_rows(before, self.hello_cursor, start)
            },
            CatchUpPlan::CheckpointThenRows { after: start } => {
                &&& step.only() && step.next is FetchCheckpoint
                &&& phase == (Phase::Fetch { state, after: start })
                &&& after == before
            },
        }
    }

    fn frontier_checked(
        &mut self,
        client: &mut ChatClient,
        state: StateHeader,
        contained: bool,
    ) -> (r: Step)
        ensures
            final(self).hello_cursor == old(self).hello_cursor,
            old(self).frontier_outcome(
                *old(client),
                state,
                contained,
                *final(client),
                final(self).phase,
                r,
            ),
    {
        match plan_catch_up(self.hello_cursor, &state, contained) {
            CatchUpPlan::RowsOnly { after } => {
                self.phase = Phase::Backfill;
                Step::sending(client.request_rows(self.hello_cursor, after))
            },
            CatchUpPlan::CheckpointThenRows { after } => {
                self.phase = Phase::Fetch { state, after };
                Step::just(Next::FetchCheckpoint)
            },
        }
    }

    /// What an imported checkpoint leads to: it counts, and the rows after it are asked for.
    pub open spec fn import_outcome(
        self,
        before: ChatClient,
        state: StateHeader,
        start: u64,
        after: ChatClient,
        phase: Phase,
        step: Step,
    ) -> bool {
        &&& phase == Phase::Backfill
        &&& step.sink is None && !step.ready && step.next is Await
        &&& step.events@ == seq![ChatEvent::Applied]
        &&& out_models(step.send@) == seq![
            OutModel::RowsReq { after: start, exclude_own: before.resumed },
        ]
        &&& after == asks_rows(
            ChatClient { cursor: larger(before.cursor, state.checkpoint_seq), ..before },
            self.hello_cursor,
            start,
        )
    }

    fn imported(&mut self, client: &mut ChatClient, state: StateHeader, after: u64) -> (r: Step)
        ensures
            final(self).hello_cursor == old(self).hello_cursor,
            old(self).import_outcome(
                *old(client),
                state,
                after,
                *final(client),
                final(self).phase,
                r,
            ),
    {
        let mut events: Vec<ChatEvent> = Vec::new();
        events.push(client.checkpoint_applied(&state));
        let mut send: Vec<OutFrame> = Vec::new();
        let request = client.request_rows(self.hello_cursor, after);
        send.push(request);
        assert(out_models(send@) =~= seq![request@]);
        self.phase = Phase::Backfill;
        Step { sink: None, ready: false, events, send, next: Next::Await }
    }

    /// What a frame leads to while rows are streamed. Once they are done, everything that is
    /// queued is pushed: the server knows the batches that it has already.
    pub open spec fn backfill_outcome(
        before: ChatClient,
        frame: Option<InFrame>,
        now: u64,
        after: ChatClient,
        phase: Phase,
        step: Step,
    ) -> bool {
        match frame {
            None | Some(InFrame::RowsDone { head_seq: None }) => {
                &&& step.only() && step.next is Reconnect
                &&& phase == Phase::Over
                &&& after == before
            },
            Some(InFrame::RowsDone { head_seq: Some(head_seq) }) => {
                &&& step.sink is None && step.next is Await
                &&& step.ready == before.joining
                &&& step.events@ == seq![ChatEvent::CaughtUp { head_seq }]
                &&& out_models(step.send@) == pushes(before.pending@)
                &&& phase == Phase::Steady
                &&& after == (ChatClient {
                    resumed: true,
                    joining: false,
                    last_frame: now,
                    probe_deadline: None,
                    ..before
                })
            },
            Some(other) => {
                &&& before.becomes(after, other, now)
                &&& frame_outcome(before, other, phase, Phase::Backfill, step)
            },
        }
    }

    fn backfill_frame(
        &mut self,
        client: &mut ChatClient,
        frame: Option<InFrame>,
        now: u64,
    ) -> (r: Step)
        requires
            old(self).phase == Phase::Backfill,
        ensures
            final(self).hello_cursor == old(self).hello_cursor,
            Self::backfill_outcome(*old(client), frame, now, *final(client), final(self).phase, r),
    {
        match client.backfill_frame(frame, now) {
            Backfill::Redial => {
                self.phase = Phase::Over;
                Step::just(Next::Reconnect)
            },
            Backfill::More { sink, event } => Step {
                sink,
                ready: false,
                events: listed(event),
                send: Vec::new(),
                next: Next::Await,
            },
            Backfill::Done { ready, caught_up } => {
                let send = client.push_pending();
                client.begin_steady(now);
                self.phase = Phase::Steady;
                Step { sink: None, ready, events: listed(Some(caught_up)), send, next: Next::Await }
            },
        }
    }

    /// What a frame of a converged session leads to: whatever it holds, the room is alive.
    pub open spec fn alive_outcome(
        before: ChatClient,
        frame: Option<InFrame>,
        now: u64,
        after: ChatClient,
        phase: Phase,
        step: Step,
    ) -> bool {
        let alive = ChatClient { last_frame: now, probe_deadline: None, ..before };
        match frame {
            None => {
                &&& step.only() && step.next is Reconnect
                &&& phase == Phase::Over
                &&& after == alive
            },
            Some(frame) => {
                &&& alive.becomes(after, frame, now)
                &&& frame_outcome(before, frame, phase, Phase::Steady, step)
            },
        }
    }

    fn steady_frame(
        &mut self,
        client: &mut ChatClient,
        frame: Option<InFrame>,
        now: u64,
    ) -> (r: Step)
        requires
            old(self).phase == Phase::Steady,
        ensures
            final(self).hello_cursor == old(self).hello_cursor,
            Self::alive_outcome(*old(client), frame, now, *final(client), final(self).phase, r),
    {
        let outcome = client.steady_frame(frame, now);
        if !outcome.ok {
            self.phase = Phase::Over;
            return Step::just(Next::Reconnect);
        }
        Step {
            sink: outcome.sink,
            ready: false,
            events: listed(outcome.event),
            send: Vec::new(),
            next: Next::Await,
        }
    }

    /// What a request, a clock or the shutdown leads to in a converged session.
    pub open spec fn steady_outcome(
        before: ChatClient,
        event: SessionEvent,
        now: u64,
        after: ChatClient,
        phase: Phase,
        step: Step,
    ) -> bool {
        match event {
            SessionEvent::Nudge => {
                &&& step.sink is None && !step.ready && step.events@.len() == 0
                &&& out_models(step.send@) == pushes(before.pending@)
                &&& step.next is Await
                &&& phase == Phase::Steady
                &&& after == before
            },
            SessionEvent::Beat { at, payload } => {
                &&& step.sends(OutModel::Presence { at, payload: payload@ })
                &&& phase == Phase::Steady
                &&& after == before
            },
            SessionEvent::ProbeAsked => {
                &&& step.sends(OutModel::Probe)
                &&& phase == Phase::Steady
                &&& after == probing(before, now)
            },
            SessionEvent::RetryDue => {
                &&& step.sink is None && !step.ready && step.events@.len() == 0
                &&& out_models(step.send@) == head_push(before.pending@)
                &&& step.next is Await
                &&& phase == Phase::Steady
                &&& after == (ChatClient { retry_at: None, ..before })
            },
            SessionEvent::QuietDue => {
                &&& step.sends(OutModel::Probe)
                &&& phase == Phase::Steady
                &&& after == (ChatClient { last_frame: now, ..probing(before, now) })
            },
            SessionEvent::Shutdown(false) => {
                &&& step.only() && step.next is Await
                &&& phase == Phase::Steady
                &&& after == before
            },
            SessionEvent::Shutdown(true) => {
                &&& step.only() && step.next is Stop
                &&& phase == Phase::Over
                &&& after == before
            },
            _ => {
                &&& step.only() && step.next is Reconnect
                &&& phase == Phase::Over
                &&& after == before
            },
        }
    }

    fn steady(&mut self, client: &mut ChatClient, event: SessionEvent, now: u64) -> (r: Step)
        requires
            old(self).phase == Phase::Steady,
            !(event is Frame),
            old(self).phase.takes(event),
        ensures
            final(self).hello_cursor == old(self).hello_cursor,
            Self::steady_outcome(*old(client), event, now, *final(client), final(self).phase, r),
    {
        match event {
            SessionEvent::Nudge => Step {
                sink: None,
                ready: false,
                events: Vec::new(),
                send: client.push_pending(),
                next: Next::Await,
            },
            SessionEvent::Beat { at, payload } => Step::sending(client.send_presence(at, payload)),
            SessionEvent::ProbeAsked => Step::sending(client.probe(now)),
            SessionEvent::RetryDue => {
                let mut send: Vec<OutFrame> = Vec::new();
                assert(out_models(send@) =~= Seq::<OutModel>::empty());
                if let Some(frame) = client.retry() {
                    send.push(frame);
                    assert(out_models(send@) =~= seq![frame@]);
                }
                Step { sink: None, ready: false, events: Vec::new(), send, next: Next::Await }
            },
            SessionEvent::QuietDue => Step::sending(client.quiet_probe(now)),
            SessionEvent::Shutdown(stop) => {
                if stop {
                    self.phase = Phase::Over;
                    Step::just(Next::Stop)
                } else {
                    Step::just(Next::Await)
                }
            },
            _ => {
                self.phase = Phase::Over;
                Step::just(Next::Reconnect)
            },
        }
    }

    /// What an event that the phase takes leads to.
    pub open spec fn outcome(
        self,
        before: ChatClient,
        event: SessionEvent,
        now: u64,
        after: ChatClient,
        phase: Phase,
        step: Step,
    ) -> bool {
        let gives_up = step.only() && step.next is Reconnect && phase == Phase::Over && after
            == before;
        match (self.phase, event) {
            (Phase::Hello, SessionEvent::Frame(frame)) => self.hello_outcome(
                before,
                frame,
                after,
                phase,
                step,
            ),
            (
                Phase::Frontier { state },
                SessionEvent::FrontierChecked(contained),
            ) => self.frontier_outcome(before, state, contained, after, phase, step),
            (Phase::Fetch { state, after: start }, SessionEvent::Fetched(Some(bytes))) => {
                &&& step.only()
                &&& step.next == Next::ImportCheckpoint(
                    SinkCall::Checkpoint { bytes, cursor: state.checkpoint_seq },
                )
                &&& phase == (Phase::Import { state, after: start })
                &&& after == before
            },
            (Phase::Fetch { .. }, SessionEvent::Shutdown(_)) => {
                &&& step.only() && step.next is Stop
                &&& phase == Phase::Over
                &&& after == before
            },
            (
                Phase::Import { state, after: start },
                SessionEvent::Imported(true),
            ) => self.import_outcome(before, state, start, after, phase, step),
            (Phase::Backfill, SessionEvent::Frame(frame)) => Self::backfill_outcome(
                before,
                frame,
                now,
                after,
                phase,
                step,
            ),
            (Phase::Steady, SessionEvent::Frame(frame)) => Self::alive_outcome(
                before,
                frame,
                now,
                after,
                phase,
                step,
            ),
            (Phase::Steady, _) => Self::steady_outcome(before, event, now, after, phase, step),
            _ => gives_up,
        }
    }

    /// Take one step. An event that the phase does not take changes nothing.
    pub fn step(&mut self, client: &mut ChatClient, event: SessionEvent, now: u64) -> (r: Step)
        ensures
            final(self).hello_cursor == old(self).hello_cursor,
            if old(self).phase.takes(event) {
                old(self).outcome(*old(client), event, now, *final(client), final(self).phase, r)
            } else {
                &&& r.only() && r.next is Hold
                &&& *final(self) == *old(self)
                &&& *final(client) == *old(client)
            },
    {
        match (self.phase, event) {
            (Phase::Hello, SessionEvent::Frame(frame)) => self.hello_frame(client, frame),
            (
                Phase::Frontier { state },
                SessionEvent::FrontierChecked(contained),
            ) => self.frontier_checked(client, state, contained),
            (Phase::Fetch { state, after }, SessionEvent::Fetched(Some(bytes))) => {
                self.phase = Phase::Import { state, after };
                Step::just(Next::ImportCheckpoint(client.checkpoint_call(&state, bytes)))
            },
            (Phase::Fetch { .. }, SessionEvent::Shutdown(_)) => {
                self.phase = Phase::Over;
                Step::just(Next::Stop)
            },
            (Phase::Import { state, after }, SessionEvent::Imported(true)) => self.imported(
                client,
                state,
                after,
            ),
            (Phase::Backfill, SessionEvent::Frame(frame)) => self.backfill_frame(
                client,
                frame,
                now,
            ),
            (Phase::Steady, SessionEvent::Frame(frame)) => self.steady_frame(client, frame, now),
            (Phase::Steady, event) => {
                let takes = match event {
                    SessionEvent::FrontierChecked(_) => false,
                    SessionEvent::Fetched(_) => false,
                    SessionEvent::Imported(_) => false,
                    _ => true,
                };
                if takes {
                    self.steady(client, event, now)
                } else {
                    Step::just(Next::Hold)
                }
            },
            (Phase::Fetch { .. }, SessionEvent::Fetched(None)) => {
                self.phase = Phase::Over;
                Step::just(Next::Reconnect)
            },
            (Phase::Import { .. }, SessionEvent::Imported(false)) => {
                self.phase = Phase::Over;
                Step::just(Next::Reconnect)
            },
            (Phase::Over, _) => Step::just(Next::Hold),
            (_, SessionEvent::Lost) => {
                self.phase = Phase::Over;
                Step::just(Next::Reconnect)
            },
            _ => Step::just(Next::Hold),
        }
    }
}

/// The batch whose wait an event ends, where it does.
pub open spec fn retired_with(event: SessionEvent) -> Option<Seq<char>> {
    match event {
        SessionEvent::Frame(Some(frame)) => retired_by(frame),
        _ => None,
    }
}

/// No step of a session loses a queued batch: whatever happens, it stays queued until a frame acks
/// it or rejects it for good. So does one whose session is lost.
pub proof fn law_no_step_loses_a_batch(
    session: Session,
    before: ChatClient,
    event: SessionEvent,
    now: u64,
    after: ChatClient,
    phase: Phase,
    step: Step,
    i: int,
)
    requires
        session.phase.takes(event),
        session.outcome(before, event, now, after, phase, step),
        0 <= i < before.pending@.len(),
        retired_with(event) != Some(before.pending@[i].batch_id@),
    ensures
        after.pending@.contains(before.pending@[i]),
{
    if let SessionEvent::Frame(Some(frame)) = event {
        law_unacked_batches_survive(before.pending@, frame);
    }
    assert(before.pending@.contains(before.pending@[i]));
}

/// Nothing is pushed before the doc has caught up with the room.
pub proof fn law_pushes_wait_for_the_catch_up(
    session: Session,
    before: ChatClient,
    event: SessionEvent,
    now: u64,
    after: ChatClient,
    phase: Phase,
    step: Step,
    i: int,
)
    requires
        session.phase.takes(event),
        session.outcome(before, event, now, after, phase, step),
        0 <= i < step.send@.len(),
        step.send@[i]@ is Push,
    ensures
        phase == Phase::Steady,
{
    let sent = out_models(step.send@);
    assert(sent[i] is Push);
    if phase == Phase::Backfill && session.phase != Phase::Backfill {
        assert(sent.len() == 1);
        assert(sent[0] is RowsReq);
    }
}

/// Rows are asked for once no checkpoint is missing: there is none, the doc contains it, or it was
/// imported just now, in which case they start after it.
pub proof fn law_rows_follow_the_checkpoint(
    session: Session,
    before: ChatClient,
    event: SessionEvent,
    now: u64,
    after: ChatClient,
    phase: Phase,
    step: Step,
)
    requires
        session.phase.takes(event),
        session.outcome(before, event, now, after, phase, step),
        phase == Phase::Backfill,
        session.phase != Phase::Backfill,
    ensures
        session.phase is Hello || session.phase is Frontier || session.phase is Import,
        session.phase matches Phase::Frontier { state } ==> state.checkpoint_size == 0 || event
            == SessionEvent::FrontierChecked(true),
        session.phase matches Phase::Import { after: start, .. } ==> event
            == SessionEvent::Imported(true) && out_models(step.send@) == seq![
            OutModel::RowsReq { after: start, exclude_own: before.resumed },
        ],
{
}

/// What a frame asks of the caller: it is applied and announced, or breaks the session.
pub open spec fn frame_outcome(
    before: ChatClient,
    frame: InFrame,
    phase: Phase,
    stays: Phase,
    step: Step,
) -> bool {
    if breaks_session(frame) {
        &&& step.only() && step.next is Reconnect
        &&& phase == Phase::Over
    } else {
        &&& asks_sink(step.sink, before.cursor, frame)
        &&& !step.ready
        &&& announces(step.events@, event_of(before.pending@, frame))
        &&& step.send@.len() == 0
        &&& step.next is Await
        &&& phase == stays
    }
}

/// The events that are announced: at most one.
pub open spec fn announces(events: Seq<ChatEvent>, event: Option<ChatEvent>) -> bool {
    events == match event {
        Some(event) => seq![event],
        None => Seq::empty(),
    }
}

fn listed(event: Option<ChatEvent>) -> (r: Vec<ChatEvent>)
    ensures
        announces(r@, event),
{
    let mut r: Vec<ChatEvent> = Vec::new();
    if let Some(event) = event {
        r.push(event);
    }
    r
}

/// A join leaves no gap: whatever way it takes, the rows that are then asked for begin before every
/// row that the cursor has not reached and that no checkpoint covers. A cursor beyond the server's
/// head has reached none.
#[verifier::rlimit(50)]
pub proof fn law_joins_leave_no_gap(
    session: Session,
    before: ChatClient,
    state: StateHeader,
    event: SessionEvent,
    now: u64,
    after: ChatClient,
    phase: Phase,
    step: Step,
    row: u64,
)
    requires
        session.phase.takes(event),
        session.outcome(before, event, now, after, phase, step),
        phase == Phase::Backfill,
        session.phase == (Phase::Frontier { state }) || (session.phase == Phase::Hello && (event
            matches SessionEvent::Frame(Some(InFrame::State { state: Some(told), .. })) && told
            == state)),
        row > 0,
        session.hello_cursor <= state.head_seq ==> row > session.hello_cursor,
        state.checkpoint_size > 0 ==> row > state.checkpoint_seq,
    ensures
        exists|start: u64|
            start < row && out_models(step.send@) == seq![
                #[trigger] rows_request(start, before.resumed),
            ],
{
    let start = if session.phase == Phase::Hello {
        rows_after(catch_up(session.hello_cursor, state, true))
    } else {
        rows_after(
            catch_up(
                session.hello_cursor,
                state,
                event == SessionEvent::FrontierChecked(true),
            ),
        )
    };
    crate::chat_client::law_unread_rows_are_asked_for(session.hello_cursor, state, true, row);
    crate::chat_client::law_unread_rows_are_asked_for(session.hello_cursor, state, false, row);
    assert(out_models(step.send@) == seq![rows_request(start, before.resumed)]);
}

/// A request for the rows after `start`.
pub open spec fn rows_request(start: u64, resumed: bool) -> OutModel {
    OutModel::RowsReq { after: start, exclude_own: resumed }
}

/// Once the rows are there, everything that is queued is pushed, in its order and as it was queued;
/// so it is whenever a batch is queued later. A clock that rings for the head pushes the head alone.
#[verifier::rlimit(50)]
pub proof fn law_everything_queued_is_pushed(
    session: Session,
    before: ChatClient,
    event: SessionEvent,
    now: u64,
    after: ChatClient,
    phase: Phase,
    step: Step,
    i: int,
)
    requires
        session.phase.takes(event),
        session.outcome(before, event, now, after, phase, step),
        0 <= i < before.pending@.len(),
    ensures
        (session.phase == Phase::Backfill && (event matches SessionEvent::Frame(
            Some(InFrame::RowsDone { head_seq: Some(_) }),
        ))) || event is Nudge ==> out_models(step.send@).len() == before.pending@.len()
            && out_models(step.send@)[i] == (OutModel::Push {
            batch_id: before.pending@[i].batch_id@,
            bytes: before.pending@[i].bytes@,
        }),
        event is RetryDue ==> out_models(step.send@) == seq![
            OutModel::Push {
                batch_id: before.pending@[0].batch_id@,
                bytes: before.pending@[0].bytes@,
            },
        ],
{
}

/// A session that is lost is dialed again, and one that is shut down is not; neither changes what
/// the client knows.
pub proof fn law_lost_sessions_are_dialed_again(
    session: Session,
    before: ChatClient,
    event: SessionEvent,
    now: u64,
    after: ChatClient,
    phase: Phase,
    step: Step,
)
    requires
        session.phase.takes(event),
        session.outcome(before, event, now, after, phase, step),
    ensures
        event is Lost || event is RedialAsked || event is ProbeOverdue ==> step.next is Reconnect
            && phase == Phase::Over && after == before && step.send@.len() == 0,
        event == SessionEvent::Shutdown(true) ==> step.next is Stop && phase == Phase::Over && after
            == before && step.send@.len() == 0,
{
}

/// A server that lost its state is caught up with from the start: where the hello told a cursor
/// beyond the head, that is announced, and without a checkpoint the cursor is set back and all rows
/// are asked for.
pub proof fn law_lost_servers_are_read_from_the_start(
    session: Session,
    before: ChatClient,
    state: StateHeader,
    frontier: Vec<u8>,
    now: u64,
    after: ChatClient,
    phase: Phase,
    step: Step,
)
    requires
        session.phase == Phase::Hello,
        session.hello_cursor == before.cursor,
        before.cursor > state.head_seq,
        session.outcome(
            before,
            SessionEvent::Frame(Some(InFrame::State { state: Some(state), frontier })),
            now,
            after,
            phase,
            step,
        ),
    ensures
        step.events@.contains(ChatEvent::ServerReset),
        state.checkpoint_size == 0 ==> after.cursor == 0 && out_models(step.send@) == seq![
            OutModel::RowsReq { after: 0, exclude_own: before.resumed },
        ],
{
    assert(step.events@[1] == ChatEvent::ServerReset);
}

/// A session that is in step keeps its cursor: a join that starts where the cursor stands, without a
/// checkpoint, announces no reset and asks for what follows.
pub proof fn law_joins_go_on_from_the_cursor(
    session: Session,
    before: ChatClient,
    state: StateHeader,
    frontier: Vec<u8>,
    now: u64,
    after: ChatClient,
    phase: Phase,
    step: Step,
)
    requires
        session.phase == Phase::Hello,
        session.hello_cursor == before.cursor,
        before.cursor <= state.head_seq,
        state.checkpoint_size == 0,
        session.outcome(
            before,
            SessionEvent::Frame(Some(InFrame::State { state: Some(state), frontier })),
            now,
            after,
            phase,
            step,
        ),
    ensures
        step.events@ == seq![ChatEvent::Connected],
        after.cursor == before.cursor,
        after.server == Some(state),
        out_models(step.send@) == seq![
            OutModel::RowsReq { after: before.cursor, exclude_own: before.resumed },
        ],
{
}

} // verus!
