use zeron::link::{
    decode, models_notice, notice_text, refs_notice, send_update, watch_frame, CallError, CheckoutPlan,
    Command, Frame, SessionStep, StartSession, StartStep, Starting, StreamStep, Supervisor, Update,
    WaitStep,
};

#[test]
fn waits_grow_and_flatten() {
    let mut supervisor = Supervisor::new();
    let waits: Vec<u64> = (0..8).map(|_| supervisor.next_wait()).collect();
    assert_eq!(waits, [200, 400, 800, 1_600, 3_200, 5_000, 5_000, 5_000]);
    supervisor.connected();
    assert_eq!(supervisor.next_wait(), 200);
}

#[test]
fn the_transcript_target_survives_a_reconnect() {
    let mut supervisor = Supervisor::new();
    let watch = |id: &str| Some(Command::WatchTranscript(Some(id.to_string())));
    assert_eq!(supervisor.session_command(watch("a")), SessionStep::Open("a".into()));
    assert_eq!(supervisor.session_command(watch("a")), SessionStep::Keep);
    assert_eq!(supervisor.session_command(Some(Command::Work)), SessionStep::Work);
    assert_eq!(supervisor.session_command(Some(Command::Reconnect)), SessionStep::Redial);
    assert_eq!(supervisor.waiting_command(Some(Command::Work)), WaitStep::Wait);
    assert_eq!(supervisor.waiting_command(Some(Command::Reconnect)), WaitStep::Dial);
    assert_eq!(supervisor.connected().as_deref(), Some("a"));
    supervisor.transcript_opened("a".into(), true);
    assert_eq!(supervisor.streaming.as_deref(), Some("a"));
    supervisor.transcript_ended();
    assert_eq!(supervisor.connected(), None);
    assert_eq!(supervisor.waiting_command(None), WaitStep::Stop);
    assert_eq!(supervisor.session_command(None), SessionStep::Stop);
    assert_eq!(supervisor.session_command(Some(Command::Shutdown)), SessionStep::Stop);
}

#[test]
fn a_malformed_frame_is_no_lost_connection() {
    assert_eq!(decode(None), Frame::Ended);
    assert_eq!(decode(Some(true)), Frame::Value);
    assert_eq!(decode(Some(false)), Frame::Skip);
    assert_eq!(watch_frame(Frame::Skip, false), StreamStep::Keep);
    assert_eq!(watch_frame(Frame::Ended, true), StreamStep::Lost);
    assert_eq!(watch_frame(Frame::Value, true), StreamStep::Keep);
    assert_eq!(watch_frame(Frame::Value, false), StreamStep::AppGone);
}

#[test]
fn a_transcript_may_end_while_the_connection_stays() {
    let mut supervisor = Supervisor::new();
    supervisor.session_command(Some(Command::WatchTranscript(Some("a".into()))));
    supervisor.transcript_opened("a".into(), true);
    assert_eq!(supervisor.transcript_frame(Frame::Value, true), StreamStep::Keep);
    assert_eq!(supervisor.transcript_frame(Frame::Value, false), StreamStep::AppGone);
    assert_eq!(supervisor.transcript_frame(Frame::Skip, false), StreamStep::Keep);
    assert_eq!(supervisor.streaming.as_deref(), Some("a"));
    assert_eq!(supervisor.transcript_frame(Frame::Ended, true), StreamStep::Keep);
    assert_eq!((supervisor.streaming, supervisor.transcript_target), (None, None));
}

#[test]
fn failed_calls_say_what_failed() {
    assert_eq!(notice_text("Couldn't send", "offline"), "Couldn't send: offline");
    let malformed = CallError::Malformed("eof".into());
    let failed = CallError::Failed("offline".into());
    assert_eq!(models_notice(&malformed), "Model list malformed: eof");
    assert_eq!(models_notice(&failed), "Couldn't list models: offline");
    assert_eq!(refs_notice(&malformed).as_deref(), Some("Branch list malformed: eof"));
    assert_eq!(refs_notice(&failed), None);
}

fn start(plan: CheckoutPlan) -> StartSession {
    StartSession {
        chat_id: "chat".into(),
        space_id: "space".into(),
        repo_path: "/repo".into(),
        target_device: None,
        plan,
        message_id: "message".into(),
    }
}

#[test]
fn a_new_worktree_comes_before_its_chat() {
    let plan = CheckoutPlan::NewWorktree { base: Some("main".into()) };
    let (mut starting, step) = Starting::begin(start(plan));
    assert!(matches!(step, StartStep::CreateWorktree { ref base, .. } if base == "main"));
    match starting.worktree_created(Ok("/work".into())) {
        StartStep::CreateChat { cwd, branch, .. } => {
            assert_eq!(cwd.as_deref(), Some("/work"));
            assert_eq!(branch.as_deref(), Some("main"));
        }
        _ => panic!("no chat"),
    }
    match starting.chat_created(Ok(())) {
        StartStep::QueueCommand { chat_id, cwd } => {
            assert_eq!((chat_id.as_str(), cwd.as_deref()), ("chat", Some("/work")));
        }
        _ => panic!("nothing queued"),
    }
    match starting.command_queued(Ok(())) {
        StartStep::End(update) => {
            assert_eq!(update, Update::SessionStarted { chat_id: "chat".into() });
        }
        _ => panic!("not started"),
    }
}

/// What a start that failed takes back, and what it says.
fn wound_down(starting: &mut Starting, mut step: StartStep) -> (Vec<String>, Update) {
    let mut taken = Vec::new();
    loop {
        step = match step {
            StartStep::RemoveChat { chat_id } => {
                taken.push(format!("chat {chat_id}"));
                starting.chat_removed()
            }
            StartStep::RemoveWorktree { repo_path, path, .. } => {
                taken.push(format!("worktree {path} of {repo_path}"));
                starting.worktree_removed()
            }
            StartStep::End(update) => return (taken, update),
            _ => panic!("a failed start goes on"),
        };
    }
}

#[test]
fn a_failed_start_leaves_nothing_but_a_notice() {
    let fresh = || Starting::begin(start(CheckoutPlan::NewWorktree { base: Some("main".into()) })).0;
    let notice = |text: &str| Update::Notice(text.into());

    let mut starting = fresh();
    let step = starting.worktree_created(Err(CallError::Failed("no".into())));
    assert_eq!(wound_down(&mut starting, step), (vec![], notice("Worktree failed: no")));
    let mut starting = fresh();
    let step = starting.worktree_created(Err(CallError::Malformed("eof".into())));
    assert_eq!(wound_down(&mut starting, step), (vec![], notice("Worktree reply malformed: eof")));

    let mut starting = fresh();
    starting.worktree_created(Ok("/work".into()));
    let step = starting.chat_created(Err("no".into()));
    assert_eq!(
        wound_down(&mut starting, step),
        (
            vec!["worktree /work of /repo".to_string()],
            notice("Couldn't create the session: no")
        )
    );

    let mut starting = fresh();
    starting.worktree_created(Ok("/work".into()));
    starting.chat_created(Ok(()));
    let step = starting.command_queued(Err("offline".into()));
    assert_eq!(
        wound_down(&mut starting, step),
        (
            vec!["chat chat".to_string(), "worktree /work of /repo".to_string()],
            notice("Couldn't queue the prompt: offline")
        )
    );

    // A worktree that was there before stays.
    let plan = CheckoutPlan::ReuseWorktree { path: "/old".into(), branch: "topic".into() };
    let mut starting = Starting::begin(start(plan)).0;
    starting.chat_created(Ok(()));
    let step = starting.command_queued(Err("offline".into()));
    assert_eq!(
        wound_down(&mut starting, step),
        (vec!["chat chat".to_string()], notice("Couldn't queue the prompt: offline"))
    );
}

#[test]
fn a_failed_send_names_its_message() {
    assert_eq!(send_update("chat".into(), "message".into(), Ok(())), None);
    assert_eq!(
        send_update("chat".into(), "message".into(), Err("offline".into())),
        Some(Update::SendFailed {
            chat_id: "chat".into(),
            message_id: "message".into(),
            error: "offline".into(),
        })
    );
}

#[test]
fn a_reused_worktree_needs_no_call() {
    let plan = CheckoutPlan::ReuseWorktree { path: "/old".into(), branch: "topic".into() };
    match Starting::begin(start(plan)).1 {
        StartStep::CreateChat { cwd, branch, .. } => {
            assert_eq!((cwd.as_deref(), branch.as_deref()), (Some("/old"), Some("topic")));
        }
        _ => panic!("no chat"),
    }
    match Starting::begin(start(CheckoutPlan::CurrentCheckout { branch: None })).1 {
        StartStep::CreateChat { cwd, branch, .. } => assert_eq!((cwd, branch), (None, None)),
        _ => panic!("no chat"),
    }
}
