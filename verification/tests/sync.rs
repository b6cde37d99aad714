use std::cell::RefCell;

use zeron::chat_client::{
    perform, plan_catch_up, AckHeader, Backfill, CatchUpPlan, ChatClient, ChatDocSink, ChatEvent,
    ChatTuning, Handshake, InFrame, NextDial, OutFrame, SinkCall, StateHeader, Waited,
    BACKOFF_BASE, BACKOFF_CAP, MAX_PUSH_BYTES, PROBE_DEADLINE, QUOTA_RETRY,
};
use zeron::session::{Next, Phase, Session, SessionEvent, Step};
use zeron::wake::{
    notify_online, path_is_offline, path_status, set_path_online, NetPath, WakeDetector,
    NW_PATH_STATUS_UNSATISFIED,
};

const SECOND: u64 = 1_000_000_000;

#[test]
fn a_wall_jump_is_a_wake() {
    let mut detector = WakeDetector::new(100 * SECOND, 10 * SECOND);
    assert!(!detector.tick(101 * SECOND, 11 * SECOND));
    assert!(!detector.tick(107 * SECOND, 12 * SECOND));
    assert!(detector.tick(113 * SECOND + 1, 13 * SECOND));
    assert!(!detector.tick(50 * SECOND, 14 * SECOND));
}

#[test]
fn a_path_that_comes_back_wakes_once() {
    let mut path = NetPath::new();
    assert!(!path_is_offline(&path));
    assert!(!set_path_online(&mut path, false));
    assert!(path_is_offline(&path));
    assert!(set_path_online(&mut path, true));
    assert!(!set_path_online(&mut path, true));
    assert_eq!(path.online_events, 1);
    notify_online(&mut path);
    assert_eq!(path.online_events, 2);
    path_status(&mut path, NW_PATH_STATUS_UNSATISFIED);
    assert!(path_is_offline(&path));
    path_status(&mut path, 1);
    assert!(!path_is_offline(&path));
    assert_eq!(path.online_events, 4);
}

fn state(head_seq: u64, seq_floor: u64, checkpoint_seq: u64, checkpoint_size: u64) -> StateHeader {
    StateHeader { head_seq, seq_floor, checkpoint_seq, checkpoint_size, row_count: 0, row_bytes: 0 }
}

#[test]
fn catching_up_starts_where_the_document_ends() {
    assert_eq!(plan_catch_up(7, &state(9, 0, 0, 0), false), CatchUpPlan::RowsOnly { after: 7 });
    assert_eq!(
        plan_catch_up(2, &state(9, 5, 5, 10), false),
        CatchUpPlan::CheckpointThenRows { after: 5 }
    );
}

fn client() -> ChatClient {
    ChatClient::new("dev", 0, ChatTuning::default())
}

fn ack(batch_id: &str, seq: u64) -> InFrame {
    InFrame::Ack { header: Some(AckHeader { batch_id: batch_id.into(), seq }) }
}

#[test]
fn batches_wait_for_their_ack() {
    let mut c = client();
    assert_eq!(c.enqueue_update(vec![1]), None);
    assert_eq!(c.enqueue_update(vec![2]), None);
    let first = c.pending[0].batch_id.clone();
    assert_ne!(first, c.pending[1].batch_id);
    assert_eq!(c.push_pending().len(), 2);
    c.session_ended();
    assert_eq!(c.stats().pending_pushes, 2);
    let outcome = c.handle_frame(ack(&first, 8), 0);
    assert!(outcome.ok);
    assert!(matches!(outcome.sink, Some(SinkCall::Advance { cursor: 8 })));
    assert_eq!(c.pending.len(), 1);
    assert_eq!(c.pending[0].bytes, [2]);
    assert_eq!(c.stats().cursor, 8);
}

#[test]
fn a_batch_over_the_cap_is_refused() {
    let mut c = client();
    assert_eq!(c.enqueue_update(vec![0; MAX_PUSH_BYTES + 1]), Some(ChatEvent::PushRejected));
    assert_eq!(c.enqueue_update(vec![0; MAX_PUSH_BYTES]), None);
    assert_eq!((c.stats().rejected, c.stats().pending_pushes), (1, 1));
}

#[test]
fn rejected_batches_are_dropped_and_quota_is_retried() {
    let mut c = client();
    c.enqueue_update(vec![1]);
    let id = c.pending[0].batch_id.clone();
    let error = |code: &str, id: &str| InFrame::Error { code: code.into(), batch_id: id.into() };
    let outcome = c.handle_frame(error("quota", &id), 100);
    assert_eq!(outcome.event, None);
    assert_eq!(c.timers(100).retry_at, 100 + QUOTA_RETRY);
    assert!(matches!(c.retry(), Some(OutFrame::Push { .. })));
    let outcome = c.handle_frame(error("too_large", &id), 200);
    assert_eq!(outcome.event, Some(ChatEvent::PushRejected));
    assert!(c.pending.is_empty());
    assert!(c.retry().is_none());
}

#[test]
fn a_grant_pushes_the_rest_at_once() {
    let mut c = client();
    c.enqueue_update(vec![1]);
    c.enqueue_update(vec![2]);
    let first = c.pending[0].batch_id.clone();
    c.handle_frame(InFrame::Error { code: "quota".into(), batch_id: first.clone() }, 100);
    c.handle_frame(ack(&first, 1), 150);
    assert_eq!(c.timers(150).retry_at, 150);
}

#[test]
fn a_session_joins_fills_and_holds() {
    let mut c = client();
    assert!(matches!(c.hello(), OutFrame::Hello { cursor: 0, .. }));
    assert!(matches!(c.handshake_frame(Some(InFrame::Presence)), Handshake::Skip));
    assert!(matches!(c.handshake_frame(None), Handshake::Redial));
    let joined =
        c.handshake_frame(Some(InFrame::State { state: Some(state(3, 0, 2, 10)), frontier: vec![9] }));
    match joined {
        Handshake::Joined { state, frontier, events } => {
            assert_eq!(frontier, Some(vec![9]));
            assert_eq!(events, [ChatEvent::Connected]);
            assert!(matches!(
                c.checkpoint_call(&state, vec![4]),
                SinkCall::Checkpoint { cursor: 2, .. }
            ));
            assert_eq!(c.checkpoint_applied(&state), ChatEvent::Applied);
        }
        _ => panic!("not joined"),
    }
    assert!(matches!(c.request_rows(0, 2), OutFrame::RowsReq { after: 2, exclude_own: false }));
    let more = c.backfill_frame(Some(InFrame::Row { seq: Some(3), payload: vec![5] }), 0);
    assert!(matches!(
        more,
        Backfill::More { sink: Some(SinkCall::Row { cursor: 3, .. }), event: Some(ChatEvent::Applied) }
    ));
    let done = c.backfill_frame(Some(InFrame::RowsDone { head_seq: Some(3) }), 0);
    assert!(matches!(
        done,
        Backfill::Done { ready: true, caught_up: ChatEvent::CaughtUp { head_seq: 3 } }
    ));
    c.begin_steady(1_000);
    assert!(matches!(c.probe(2_000), OutFrame::Probe));
    assert_eq!(c.timers(2_000).deadline_at, 2_000 + PROBE_DEADLINE);
    assert!(c.steady_frame(Some(InFrame::ProbeOk { head_seq: Some(6) }), 3_000).ok);
    assert_eq!(c.probe_deadline, None);
    assert_eq!(c.stats().head_seq, 6);
    assert!(!c.steady_frame(None, 4_000).ok);
    c.note_checkpoint(6, 77);
    assert_eq!((c.stats().checkpoint_seq, c.stats().checkpoint_size), (6, 77));
    assert!(matches!(c.request_rows(3, 3), OutFrame::RowsReq { exclude_own: true, .. }));
}

#[test]
fn a_server_behind_the_client_was_reset() {
    let mut c = ChatClient::new("dev", 50, ChatTuning::default());
    let joined =
        c.handshake_frame(Some(InFrame::State { state: Some(state(3, 0, 0, 0)), frontier: vec![] }));
    match joined {
        Handshake::Joined { frontier, events, .. } => {
            assert_eq!(frontier, None);
            assert_eq!(events, [ChatEvent::Connected, ChatEvent::ServerReset]);
        }
        _ => panic!("not joined"),
    }
    assert_eq!(c.stats().server_resets, 1);
}

#[test]
fn dials_back_off_and_a_wake_starts_over() {
    let mut c = client();
    assert_eq!(c.dial_failed(), NextDial::GiveUp);
    assert_eq!(c.dial_failed(), NextDial::Wait(BACKOFF_BASE));
    for _ in 0..20 {
        assert!(c.waited(Waited::Elapsed));
    }
    assert_eq!(c.dial_failed(), NextDial::Wait(BACKOFF_CAP));
    assert!(c.waited(Waited::Woke));
    assert_eq!(c.dial_failed(), NextDial::Wait(BACKOFF_BASE));
    assert!(!c.waited(Waited::Shutdown));
}

struct Log(RefCell<Vec<String>>);

impl ChatDocSink for Log {
    fn apply_row(&self, bytes: &[u8], cursor: u64) {
        self.0.borrow_mut().push(format!("row {bytes:?} {cursor}"));
    }
    fn apply_checkpoint(&self, _bytes: &[u8], cursor: u64) -> Result<(), String> {
        Err(format!("checkpoint {cursor}"))
    }
    fn contains_frontier(&self, _frontier: &[u8]) -> bool {
        true
    }
    fn advance_cursor(&self, cursor: u64) {
        self.0.borrow_mut().push(format!("advance {cursor}"));
    }
}

#[test]
fn sink_calls_reach_the_sink() {
    let log = Log(RefCell::new(Vec::new()));
    assert_eq!(perform(&log, &SinkCall::Row { bytes: vec![1, 2], cursor: 3 }), Ok(()));
    assert_eq!(perform(&log, &SinkCall::Advance { cursor: 4 }), Ok(()));
    assert_eq!(
        perform(&log, &SinkCall::Checkpoint { bytes: vec![], cursor: 5 }),
        Err("checkpoint 5".to_string())
    );
    assert_eq!(*log.0.borrow(), ["row [1, 2] 3", "advance 4"]);
}

fn frame(frame: InFrame) -> SessionEvent {
    SessionEvent::Frame(Some(frame))
}

fn hello_state(state: StateHeader) -> SessionEvent {
    frame(InFrame::State { state: Some(state), frontier: vec![9] })
}

fn rows_asked_after(step: &Step) -> Option<u64> {
    match step.send.as_slice() {
        [OutFrame::RowsReq { after, .. }] => Some(*after),
        _ => None,
    }
}

#[test]
fn a_missing_checkpoint_is_imported_before_its_rows() {
    let mut c = client();
    c.enqueue_update(vec![1]);
    let (mut session, hello) = Session::begin(&c);
    assert!(matches!(hello, OutFrame::Hello { cursor: 0, .. }));
    // What was left over from before is skipped; what is queued has to wait.
    assert!(matches!(session.step(&mut c, frame(InFrame::Presence), 0).next, Next::Await));
    let nudged = session.step(&mut c, SessionEvent::Nudge, 0);
    assert!(matches!(nudged.next, Next::Hold) && nudged.send.is_empty());
    let joined = session.step(&mut c, hello_state(state(9, 4, 5, 10)), 0);
    assert!(matches!(joined.next, Next::CheckFrontier(ref frontier) if *frontier == [9]));
    assert_eq!(joined.events, [ChatEvent::Connected]);
    let checked = session.step(&mut c, SessionEvent::FrontierChecked(false), 0);
    assert!(matches!(checked.next, Next::FetchCheckpoint) && checked.send.is_empty());
    let fetched = session.step(&mut c, SessionEvent::Fetched(Some(vec![7])), 0);
    assert!(matches!(
        fetched.next,
        Next::ImportCheckpoint(SinkCall::Checkpoint { cursor: 5, .. })
    ));
    let imported = session.step(&mut c, SessionEvent::Imported(true), 0);
    assert_eq!(imported.events, [ChatEvent::Applied]);
    assert_eq!(rows_asked_after(&imported), Some(5));
    assert_eq!(c.cursor, 5);
    let row = session.step(&mut c, frame(InFrame::Row { seq: Some(6), payload: vec![] }), 0);
    assert!(matches!(row.sink, Some(SinkCall::Row { cursor: 6, .. })));
    let done = session.step(&mut c, frame(InFrame::RowsDone { head_seq: Some(6) }), 50);
    assert!(done.ready);
    assert_eq!(done.events, [ChatEvent::CaughtUp { head_seq: 6 }]);
    assert!(matches!(done.send.as_slice(), [OutFrame::Push { .. }]));
    assert_eq!(session.phase, Phase::Steady);
    assert_eq!(c.last_frame, 50);
}

#[test]
fn a_contained_or_absent_checkpoint_is_not_fetched() {
    let mut c = ChatClient::new("dev", 7, ChatTuning::default());
    let (mut session, _) = Session::begin(&c);
    let joined = session.step(&mut c, hello_state(state(9, 0, 0, 0)), 0);
    assert_eq!(rows_asked_after(&joined), Some(7));
    assert_eq!(session.phase, Phase::Backfill);

    let (mut session, _) = Session::begin(&c);
    session.step(&mut c, hello_state(state(9, 8, 8, 10)), 0);
    let checked = session.step(&mut c, SessionEvent::FrontierChecked(true), 0);
    assert_eq!(rows_asked_after(&checked), Some(8));
    assert_eq!(session.phase, Phase::Backfill);

    // The room was reset: rows start over, and the cursor is set back.
    let (mut session, _) = Session::begin(&c);
    let reset = session.step(&mut c, hello_state(state(3, 0, 0, 0)), 0);
    assert_eq!(reset.events, [ChatEvent::Connected, ChatEvent::ServerReset]);
    assert_eq!(rows_asked_after(&reset), Some(0));
    assert_eq!(c.cursor, 0);
}

fn steady() -> (ChatClient, Session) {
    let mut c = client();
    let (mut session, _) = Session::begin(&c);
    session.step(&mut c, hello_state(state(0, 0, 0, 0)), 0);
    session.step(&mut c, frame(InFrame::RowsDone { head_seq: Some(0) }), 0);
    (c, session)
}

#[test]
fn a_converged_session_answers_what_happens() {
    let (mut c, mut s) = steady();
    c.enqueue_update(vec![1]);
    c.enqueue_update(vec![2]);
    assert_eq!(s.step(&mut c, SessionEvent::Nudge, 1).send.len(), 2);
    assert_eq!(s.step(&mut c, SessionEvent::RetryDue, 1).send.len(), 1);
    let beat = s.step(&mut c, SessionEvent::Beat { at: 5, payload: vec![3] }, 1);
    assert!(matches!(beat.send.as_slice(), [OutFrame::Presence { at: 5, .. }]));
    let probe = s.step(&mut c, SessionEvent::ProbeAsked, 10);
    assert!(matches!(probe.send.as_slice(), [OutFrame::Probe]));
    assert_eq!(c.probe_deadline, Some(10 + PROBE_DEADLINE));
    s.step(&mut c, SessionEvent::QuietDue, 20);
    assert_eq!((c.probe_deadline, c.last_frame), (Some(10 + PROBE_DEADLINE), 20));
    s.step(&mut c, frame(InFrame::Unknown), 30);
    assert_eq!((c.probe_deadline, c.last_frame), (None, 30));
    assert!(matches!(s.step(&mut c, SessionEvent::Shutdown(false), 30).next, Next::Await));
    assert!(matches!(s.step(&mut c, SessionEvent::Imported(true), 30).next, Next::Hold));
    assert!(matches!(s.step(&mut c, SessionEvent::Shutdown(true), 30).next, Next::Stop));
    assert!(matches!(s.step(&mut c, SessionEvent::Nudge, 30).next, Next::Hold));
    assert_eq!(s.phase, Phase::Over);
}

#[test]
fn a_lost_session_keeps_the_queue() {
    let endings = || {
        vec![
            SessionEvent::Lost,
            SessionEvent::RedialAsked,
            SessionEvent::ProbeOverdue,
            SessionEvent::Frame(None),
            frame(InFrame::Row { seq: None, payload: vec![] }),
            frame(InFrame::Ack { header: None }),
        ]
    };
    for ending in endings() {
        let (mut c, mut s) = steady();
        c.enqueue_update(vec![1]);
        assert!(matches!(s.step(&mut c, ending, 1).next, Next::Reconnect));
        assert_eq!(s.phase, Phase::Over);
        assert_eq!(c.pending.len(), 1);
    }
    let mut c = client();
    let (mut s, _) = Session::begin(&c);
    s.step(&mut c, hello_state(state(9, 4, 5, 10)), 0);
    s.step(&mut c, SessionEvent::FrontierChecked(false), 0);
    assert!(matches!(s.step(&mut c, SessionEvent::Fetched(None), 0).next, Next::Reconnect));
}
