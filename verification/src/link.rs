//! The engine link: what the supervisor of the connection to the engine decides.
//!
//! The engine is a separate process that can be restarted under us. The supervisor notices the
//! streams ending, reconnects with backoff, and resubscribes what the user is still looking at; the
//! viewport only sees connection updates. The calls themselves are the caller's.

use vstd::prelude::*;

use crate::search::{copy_opt, same_opt};
use crate::text::opt_text;

verus! {

/// Where the connection stands.
#[derive(Debug, PartialEq, Eq)]
pub enum ConnectionStatus {
    Connecting,
    Ready,
    Failed(String),
}

/// What the render loop asks of the engine, as far as the supervisor looks into it.
pub enum Command {
    /// Retarget the per-chat transcript subscription (`None` unsubscribes).
    WatchTranscript(Option<String>),
    /// Drop this connection and dial again now, skipping the backoff.
    Reconnect,
    /// Drop the connection and stop reconnecting.
    Shutdown,
    /// A call that needs a connection: it is made while there is one, and dropped otherwise.
    Work,
}

/// How the checkout of a drafted session comes to be.
#[allow(inconsistent_fields)]
pub enum CheckoutPlan {
    CurrentCheckout { branch: Option<String> },
    ReuseWorktree { path: String, branch: String },
    NewWorktree { base: Option<String> },
}

/// What a drafted session turned into, or did not.
#[derive(Debug, PartialEq, Eq)]
pub enum Update {
    /// The chat exists and its prompt is queued.
    SessionStarted { chat_id: String },
    /// A transient message for the status line.
    Notice(String),
    /// An optimistic send that did not land: the text goes back to the composer.
    SendFailed { chat_id: String, message_id: String, error: String },
}

/// The waits between dials: quick first retries that flatten to a five-second poll.
pub open spec fn backoff_ms(attempt: usize) -> u64 {
    if attempt == 0 {
        200
    } else if attempt == 1 {
        400
    } else if attempt == 2 {
        800
    } else if attempt == 3 {
        1_600
    } else if attempt == 4 {
        3_200
    } else {
        5_000
    }
}

/// Each wait is at least as long as the one before, and none is longer than the poll.
pub proof fn law_backoff_flattens(earlier: usize, attempt: usize)
    requires
        earlier <= attempt,
    ensures
        200 <= backoff_ms(earlier) <= backoff_ms(attempt) <= 5_000,
{
}

/// What to do after a command that came while waiting for the next dial.
#[derive(Debug, Clone, Copy, PartialEq, Eq, Structural)]
pub enum WaitStep {
    Wait,
    Dial,
    Stop,
}

/// What to do after a command that came while connected.
#[derive(Debug, PartialEq, Eq)]
pub enum SessionStep {
    /// Nothing changes.
    Keep,
    /// The transcript stream is dropped, and this chat's is subscribed.
    Open(String),
    /// The transcript stream is dropped.
    Close,
    /// Make the call.
    Work,
    /// Drop the connection and dial again, without a wait.
    Redial,
    /// Drop the connection for good.
    Stop,
}

/// The supervisor's own state.
pub struct Supervisor {
    /// The chat whose transcript is watched; survives reconnects.
    pub transcript_target: Option<String>,
    /// Failed dials since the last connection.
    pub attempt: usize,
    /// The chat whose transcript is streamed now.
    pub streaming: Option<String>,
}

impl Supervisor {
    pub fn new() -> (r: Self)
        ensures
            r.transcript_target is None,
            r.attempt == 0,
            r.streaming is None,
    {
        Supervisor { transcript_target: None, attempt: 0, streaming: None }
    }

    /// The dial succeeded: the chat whose transcript is to be subscribed again, if one was watched.
    pub fn connected(&mut self) -> (r: Option<String>)
        ensures
            opt_text(r) == opt_text(old(self).transcript_target),
            *final(self) == (Supervisor { attempt: 0, streaming: None, ..*old(self) }),
    {
        self.attempt = 0;
        self.streaming = None;
        copy_opt(&self.transcript_target)
    }

    /// The connection, or the try for one, failed: how long to wait before the next dial.
    pub fn next_wait(&mut self) -> (r: u64)
        ensures
            r == backoff_ms(old(self).attempt),
            *final(self) == (Supervisor {
                attempt: if old(self).attempt == usize::MAX {
                    usize::MAX
                } else {
                    (old(self).attempt + 1) as usize
                },
                streaming: None,
                ..*old(self)
            }),
    {
        let attempt: usize = self.attempt;
        self.streaming = None;
        self.attempt = attempt.saturating_add(1);
        if attempt == 0 {
            200
        } else if attempt == 1 {
            400
        } else if attempt == 2 {
            800
        } else if attempt == 3 {
            1_600
        } else if attempt == 4 {
            3_200
        } else {
            5_000
        }
    }

    /// A command while waiting; `None` where the app is gone. Calls are dropped, but the transcript
    /// target is remembered, so that the next connection restores what the user is reading.
    pub fn waiting_command(&mut self, command: Option<Command>) -> (r: WaitStep)
        ensures
            command is Some ==> opt_text(final(self).transcript_target) == target_after(
                opt_text(old(self).transcript_target),
                command->0,
            ),
            match command {
                None | Some(Command::Shutdown) => r == WaitStep::Stop && *final(self) == *old(self),
                Some(Command::Reconnect) => {
                    &&& r == WaitStep::Dial
                    &&& *final(self) == (Supervisor { attempt: 0, ..*old(self) })
                },
                Some(Command::WatchTranscript(target)) => {
                    &&& r == WaitStep::Wait
                    &&& *final(self) == (Supervisor { transcript_target: target, ..*old(self) })
                },
                Some(Command::Work) => r == WaitStep::Wait && *final(self) == *old(self),
            },
    {
        match command {
            None => WaitStep::Stop,
            Some(Command::Shutdown) => WaitStep::Stop,
            Some(Command::Reconnect) => {
                self.attempt = 0;
                WaitStep::Dial
            },
            Some(Command::WatchTranscript(target)) => {
                self.transcript_target = target;
                WaitStep::Wait
            },
            Some(Command::Work) => WaitStep::Wait,
        }
    }

    /// A command while connected; `None` where the app is gone. Retargeting to the chat that is
    /// already watched changes nothing.
    pub fn session_command(&mut self, command: Option<Command>) -> (r: SessionStep)
        ensures
            command is Some ==> opt_text(final(self).transcript_target) == target_after(
                opt_text(old(self).transcript_target),
                command->0,
            ),
            match command {
                None | Some(Command::Shutdown) => r is Stop && *final(self) == *old(self),
                Some(Command::Reconnect) => r is Redial && *final(self) == *old(self),
                Some(Command::WatchTranscript(target)) => if opt_text(target) == opt_text(
                    old(self).transcript_target,
                ) {
                    r is Keep && *final(self) == *old(self)
                } else {
                    &&& opt_text(final(self).transcript_target) == opt_text(target)
                    &&& final(self).attempt == old(self).attempt
                    &&& final(self).streaming is None
                    &&& match target {
                        Some(chat) => r matches SessionStep::Open(id) && id@ == chat@,
                        None => r is Close,
                    }
                },
                Some(Command::Work) => r is Work && *final(self) == *old(self),
            },
    {
        match command {
            None => SessionStep::Stop,
            Some(Command::Shutdown) => SessionStep::Stop,
            Some(Command::Reconnect) => SessionStep::Redial,
            Some(Command::WatchTranscript(target)) => {
                if same_opt(&target, &self.transcript_target) {
                    return SessionStep::Keep;
                }
                self.streaming = None;
                self.transcript_target = copy_opt(&target);
                match target {
                    Some(chat) => SessionStep::Open(chat),
                    None => SessionStep::Close,
                }
            },
            Some(Command::Work) => SessionStep::Work,
        }
    }

    /// The transcript subscription answered. A failure is not fatal to the session: the chat may
    /// have just been deleted.
    pub fn transcript_opened(&mut self, chat_id: String, ok: bool)
        ensures
            *final(self) == (Supervisor {
                streaming: if ok {
                    Some(chat_id)
                } else {
                    None
                },
                ..*old(self)
            }),
    {
        self.streaming = if ok {
            Some(chat_id)
        } else {
            None
        };
    }

    /// The transcript stream ended, which is no lost connection: the engine ends it when the chat
    /// is deleted.
    pub fn transcript_ended(&mut self)
        ensures
            final(self).streaming is None,
            final(self).transcript_target is None,
            final(self).attempt == old(self).attempt,
    {
        self.streaming = None;
        self.transcript_target = None;
    }
}

/// The watched chat after a command.
pub open spec fn target_after(target: Option<Seq<char>>, command: Command) -> Option<Seq<char>> {
    match command {
        Command::WatchTranscript(next) => opt_text(next),
        _ => target,
    }
}

/// The watched chat after a run of commands.
pub open spec fn target_after_all(
    target: Option<Seq<char>>,
    commands: Seq<Command>,
) -> Option<Seq<char>>
    decreases commands.len(),
{
    if commands.len() == 0 {
        target
    } else {
        target_after(target_after_all(target, commands.drop_last()), commands.last())
    }
}

/// Only the user retargets the transcript: whatever else is asked while a connection is awaited,
/// the next one subscribes the chat that was watched before.
pub proof fn law_target_survives_reconnects(target: Option<Seq<char>>, commands: Seq<Command>)
    requires
        forall|i: int| 0 <= i < commands.len() ==> !(#[trigger] commands[i] is WatchTranscript),
    ensures
        target_after_all(target, commands) == target,
    decreases commands.len(),
{
    if commands.len() > 0 {
        let front = commands.drop_last();
        assert forall|i: int| 0 <= i < front.len() implies !(
        #[trigger] front[i] is WatchTranscript) by {
            assert(front[i] == commands[i]);
        }
        law_target_survives_reconnects(target, front);
        assert(commands.last() == commands[commands.len() - 1]);
    }
}

// ---------------------------------------------------------------------------
// Watch frames
// ---------------------------------------------------------------------------

/// The three things a watch frame can mean. A frame that does not parse must not read as a dropped
/// connection, or one schema skew would put the app into a reconnect loop.
#[derive(Debug, Clone, Copy, PartialEq, Eq, Structural)]
pub enum Frame {
    Value,
    /// Malformed: ignored, the next snapshot supersedes it.
    Skip,
    /// Stream closed: the engine is gone.
    Ended,
}

/// What a frame means: `None` where the stream ended, otherwise whether it parsed.
pub fn decode(frame: Option<bool>) -> (r: Frame)
    ensures
        r == match frame {
            None => Frame::Ended,
            Some(true) => Frame::Value,
            Some(false) => Frame::Skip,
        },
{
    match frame {
        None => Frame::Ended,
        Some(parsed) => if parsed {
            Frame::Value
        } else {
            Frame::Skip
        },
    }
}

/// What a frame means for the session.
#[derive(Debug, Clone, Copy, PartialEq, Eq, Structural)]
pub enum StreamStep {
    Keep,
    /// Nobody takes the updates any more: end the session for good.
    AppGone,
    /// Dial again.
    Lost,
}

/// A frame of one of the lists that are watched, and whether its update could be delivered.
pub fn watch_frame(frame: Frame, delivered: bool) -> (r: StreamStep)
    ensures
        r == match frame {
            Frame::Value => if delivered {
                StreamStep::Keep
            } else {
                StreamStep::AppGone
            },
            Frame::Skip => StreamStep::Keep,
            Frame::Ended => StreamStep::Lost,
        },
{
    match frame {
        Frame::Value => if delivered {
            StreamStep::Keep
        } else {
            StreamStep::AppGone
        },
        Frame::Skip => StreamStep::Keep,
        Frame::Ended => StreamStep::Lost,
    }
}

impl Supervisor {
    /// A frame of the watched transcript. Its end is no lost connection.
    pub fn transcript_frame(&mut self, frame: Frame, delivered: bool) -> (r: StreamStep)
        ensures
            r == if frame == Frame::Value && !delivered {
                StreamStep::AppGone
            } else {
                StreamStep::Keep
            },
            if frame == Frame::Ended {
                &&& final(self).streaming is None
                &&& final(self).transcript_target is None
                &&& final(self).attempt == old(self).attempt
            } else {
                *final(self) == *old(self)
            },
    {
        match frame {
            Frame::Value => if delivered {
                StreamStep::Keep
            } else {
                StreamStep::AppGone
            },
            Frame::Skip => StreamStep::Keep,
            Frame::Ended => {
                self.transcript_ended();
                StreamStep::Keep
            },
        }
    }
}

// ---------------------------------------------------------------------------
// Calls
// ---------------------------------------------------------------------------

/// `context: error`.
pub open spec fn notice(context: Seq<char>, error: Seq<char>) -> Seq<char> {
    context + seq![':', ' '] + error
}

/// What a failed call says.
pub fn notice_text(context: &str, error: &str) -> (r: String)
    ensures
        r@ == notice(context@, error@),
{
    let mut r = context.to_owned();
    r.push(':');
    r.push(' ');
    r.push_str(error);
    assert(r@ =~= notice(context@, error@));
    r
}

/// What is told of a send: nothing where it landed, and otherwise which message failed and why, so
/// that its echo is dropped and its text goes back to the composer.
pub fn send_update(chat_id: String, message_id: String, result: Result<(), String>) -> (r: Option<
    Update,
>)
    ensures
        r == match result {
            Ok(_) => None,
            Err(error) => Some(Update::SendFailed { chat_id, message_id, error }),
        },
{
    match result {
        Ok(_) => None,
        Err(error) => Some(Update::SendFailed { chat_id, message_id, error }),
    }
}

/// How a call went wrong: its reply could not be read, or there was none.
pub enum CallError {
    Malformed(String),
    Failed(String),
}

/// What is said of a model list that did not come: a failure is a notice, since an empty picker is
/// indistinguishable from a broken one.
pub fn models_notice(error: &CallError) -> (r: String)
    ensures
        r@ == match *error {
            CallError::Malformed(error) => notice("Model list malformed"@, error@),
            CallError::Failed(error) => notice("Couldn't list models"@, error@),
        },
{
    match error {
        CallError::Malformed(error) => notice_text("Model list malformed", error.as_str()),
        CallError::Failed(error) => notice_text("Couldn't list models", error.as_str()),
    }
}

/// What is said of a branch list that did not come; a space without refs is not worth shouting.
pub fn refs_notice(error: &CallError) -> (r: Option<String>)
    ensures
        opt_text(r) == match *error {
            CallError::Malformed(error) => Some(notice("Branch list malformed"@, error@)),
            CallError::Failed(_) => None,
        },
{
    match error {
        CallError::Malformed(error) => Some(notice_text("Branch list malformed", error.as_str())),
        CallError::Failed(_) => None,
    }
}

// ---------------------------------------------------------------------------
// Starting a session
// ---------------------------------------------------------------------------

/// Everything needed to materialize a drafted session, but for what is only handed on.
pub struct StartSession {
    pub chat_id: String,
    pub space_id: String,
    pub repo_path: String,
    pub target_device: Option<String>,
    pub plan: CheckoutPlan,
    pub message_id: String,
}

/// The next call of a session start, or how it ended. The steps are ordered and dependent: a new
/// worktree has to exist before the chat can name it as its cwd, and the chat before its prompt can
/// be queued. A failure at any step leaves nothing behind but a notice: what was created by then is
/// taken back first, the chat before the worktree that it names.
pub enum StartStep {
    CreateWorktree { repo_path: String, base: String, target_device: Option<String> },
    CreateChat { chat_id: String, space_id: String, cwd: Option<String>, branch: Option<String> },
    /// The run's cwd must match what the chat was created with.
    QueueCommand { chat_id: String, cwd: Option<String> },
    RemoveChat { chat_id: String },
    RemoveWorktree { repo_path: String, path: String, target_device: Option<String> },
    End(Update),
}

/// A session start that is under way.
pub struct Starting {
    pub start: StartSession,
    pub cwd: Option<String>,
    pub branch: Option<String>,
    /// The worktree that this start created, until it is taken back.
    pub worktree: Option<String>,
    /// Whether this start created its chat, until it is taken back.
    pub chat: bool,
    /// What a start that failed says in the end.
    pub failure: String,
}

/// The cwd that a plan gives without a call.
pub open spec fn planned_cwd(plan: CheckoutPlan) -> Option<Seq<char>> {
    match plan {
        CheckoutPlan::ReuseWorktree { path, .. } => Some(path@),
        _ => None,
    }
}

/// The branch that a plan gives.
pub open spec fn planned_branch(plan: CheckoutPlan) -> Option<Seq<char>> {
    match plan {
        CheckoutPlan::CurrentCheckout { branch } => opt_text(branch),
        CheckoutPlan::ReuseWorktree { branch, .. } => Some(branch@),
        CheckoutPlan::NewWorktree { base } => opt_text(base),
    }
}

impl Starting {
    /// Whether `step` creates the chat with this cwd and the start's branch.
    pub open spec fn creates_chat(self, step: StartStep) -> bool {
        step matches StartStep::CreateChat { chat_id, space_id, cwd, branch } && chat_id@
            == self.start.chat_id@ && space_id@ == self.start.space_id@ && opt_text(cwd)
            == opt_text(self.cwd) && opt_text(branch) == opt_text(self.branch)
    }

    /// Whether nothing that this start created is still there.
    pub open spec fn left_nothing(self) -> bool {
        !self.chat && self.worktree is None
    }

    /// Whether `step` is the next one of a start that failed: the chat is taken back, then the
    /// worktree; where neither is there, the failure is told.
    pub open spec fn takes_back(self, step: StartStep) -> bool {
        if self.chat {
            step matches StartStep::RemoveChat { chat_id } && chat_id@ == self.start.chat_id@
        } else {
            match self.worktree {
                Some(made) => step matches StartStep::RemoveWorktree {
                    repo_path,
                    path,
                    target_device,
                } && repo_path@ == self.start.repo_path@ && path@ == made@ && opt_text(
                    target_device,
                ) == opt_text(self.start.target_device),
                None => step matches StartStep::End(Update::Notice(text)) && text@
                    == self.failure@,
            }
        }
    }

    /// The start after a step that takes something back.
    pub open spec fn after_removal(self, step: StartStep) -> Self {
        match step {
            StartStep::RemoveChat { .. } => Starting { chat: false, ..self },
            StartStep::RemoveWorktree { .. } => Starting { worktree: None, ..self },
            _ => self,
        }
    }

    fn create_chat(&self) -> (r: StartStep)
        ensures
            self.creates_chat(r),
    {
        StartStep::CreateChat {
            chat_id: self.start.chat_id.clone(),
            space_id: self.start.space_id.clone(),
            cwd: copy_opt(&self.cwd),
            branch: copy_opt(&self.branch),
        }
    }

    fn take_back(&self) -> (r: StartStep)
        ensures
            self.takes_back(r),
    {
        if self.chat {
            return StartStep::RemoveChat { chat_id: self.start.chat_id.clone() };
        }
        match &self.worktree {
            Some(path) => StartStep::RemoveWorktree {
                repo_path: self.start.repo_path.clone(),
                path: path.clone(),
                target_device: copy_opt(&self.start.target_device),
            },
            None => StartStep::End(Update::Notice(self.failure.clone())),
        }
    }

    /// The first step: a worktree, where the plan calls for one on a base; otherwise the chat.
    pub fn begin(start: StartSession) -> (r: (Starting, StartStep))
        ensures
            r.0.start == start,
            opt_text(r.0.cwd) == planned_cwd(start.plan),
            opt_text(r.0.branch) == planned_branch(start.plan),
            r.0.left_nothing(),
            r.0.failure@.len() == 0,
            match start.plan {
                CheckoutPlan::NewWorktree { base: Some(base) } => r.1 matches StartStep::CreateWorktree {
                    repo_path,
                    base: on,
                    target_device,
                } && repo_path@ == start.repo_path@ && on@ == base@ && opt_text(target_device)
                    == opt_text(start.target_device),
                _ => r.0.creates_chat(r.1),
            },
    {
        let (cwd, branch) = match &start.plan {
            CheckoutPlan::CurrentCheckout { branch } => (None, copy_opt(branch)),
            CheckoutPlan::ReuseWorktree { path, branch } => (
                Some(path.clone()),
                Some(branch.clone()),
            ),
            CheckoutPlan::NewWorktree { base } => (None, copy_opt(base)),
        };
        let worktree = match &start.plan {
            CheckoutPlan::NewWorktree { base: Some(base) } => Some(
                StartStep::CreateWorktree {
                    repo_path: start.repo_path.clone(),
                    base: base.clone(),
                    target_device: copy_opt(&start.target_device),
                },
            ),
            _ => None,
        };
        let starting = Starting {
            start,
            cwd,
            branch,
            worktree: None,
            chat: false,
            failure: String::new(),
        };
        match worktree {
            Some(step) => (starting, step),
            None => {
                let step = starting.create_chat();
                (starting, step)
            },
        }
    }

    /// The worktree call answered with the worktree's path, or did not. Without a path there is no
    /// worktree to take back.
    pub fn worktree_created(&mut self, path: Result<String, CallError>) -> (r: StartStep)
        ensures
            match path {
                Ok(path) => {
                    &&& opt_text(final(self).cwd) == Some(path@)
                    &&& opt_text(final(self).worktree) == Some(path@)
                    &&& *final(self) == (Starting {
                        cwd: final(self).cwd,
                        worktree: final(self).worktree,
                        ..*old(self)
                    })
                    &&& final(self).creates_chat(r)
                },
                Err(error) => {
                    &&& final(self).failure@ == match error {
                        CallError::Malformed(error) => notice("Worktree reply malformed"@, error@),
                        CallError::Failed(error) => notice("Worktree failed"@, error@),
                    }
                    &&& *final(self) == (Starting { failure: final(self).failure, ..*old(self) })
                    &&& final(self).takes_back(r)
                },
            },
    {
        match path {
            Ok(path) => {
                self.worktree = Some(path.clone());
                self.cwd = Some(path);
                self.create_chat()
            },
            Err(error) => {
                self.failure = match &error {
                    CallError::Malformed(error) => notice_text(
                        "Worktree reply malformed",
                        error.as_str(),
                    ),
                    CallError::Failed(error) => notice_text("Worktree failed", error.as_str()),
                };
                self.take_back()
            },
        }
    }

    /// The chat was created, or was not.
    pub fn chat_created(&mut self, result: Result<(), String>) -> (r: StartStep)
        ensures
            match result {
                Ok(_) => {
                    &&& *final(self) == (Starting { chat: true, ..*old(self) })
                    &&& r matches StartStep::QueueCommand { chat_id, cwd } && chat_id@
                        == old(self).start.chat_id@ && opt_text(cwd) == opt_text(old(self).cwd)
                },
                Err(error) => {
                    &&& final(self).failure@ == notice("Couldn't create the session"@, error@)
                    &&& *final(self) == (Starting { failure: final(self).failure, ..*old(self) })
                    &&& final(self).takes_back(r)
                },
            },
    {
        match result {
            Ok(_) => {
                self.chat = true;
                StartStep::QueueCommand {
                    chat_id: self.start.chat_id.clone(),
                    cwd: copy_opt(&self.cwd),
                }
            },
            Err(error) => {
                self.failure = notice_text("Couldn't create the session", error.as_str());
                self.take_back()
            },
        }
    }

    /// The first prompt was queued, or was not.
    pub fn command_queued(&mut self, result: Result<(), String>) -> (r: StartStep)
        ensures
            match result {
                Ok(_) => {
                    &&& *final(self) == *old(self)
                    &&& r matches StartStep::End(Update::SessionStarted { chat_id }) && chat_id@
                        == old(self).start.chat_id@
                },
                Err(error) => {
                    &&& final(self).failure@ == notice("Couldn't queue the prompt"@, error@)
                    &&& *final(self) == (Starting { failure: final(self).failure, ..*old(self) })
                    &&& final(self).takes_back(r)
                },
            },
    {
        match result {
            Ok(_) => StartStep::End(
                Update::SessionStarted { chat_id: self.start.chat_id.clone() },
            ),
            Err(error) => {
                self.failure = notice_text("Couldn't queue the prompt", error.as_str());
                self.take_back()
            },
        }
    }

    /// The chat's removal was asked for. Whatever came of it, the rest is taken back too, and what
    /// is told in the end is the failure that began it.
    pub fn chat_removed(&mut self) -> (r: StartStep)
        ensures
            *final(self) == (Starting { chat: false, ..*old(self) }),
            final(self).takes_back(r),
    {
        self.chat = false;
        self.take_back()
    }

    /// The worktree's removal was asked for.
    pub fn worktree_removed(&mut self) -> (r: StartStep)
        ensures
            *final(self) == (Starting { worktree: None, ..*old(self) }),
            final(self).takes_back(r),
    {
        self.worktree = None;
        self.take_back()
    }
}

/// The steps of a start that failed, from the failure to the end: each is the next one of its
/// state, and each removal takes its thing off the next state.
pub open spec fn winds_down(states: Seq<Starting>, steps: Seq<StartStep>) -> bool {
    &&& states.len() == steps.len() > 0
    &&& forall|i: int| 0 <= i < steps.len() ==> (#[trigger] states[i]).takes_back(steps[i])
    &&& forall|i: int|
        0 <= i < steps.len() - 1 ==> #[trigger] states[i].after_removal(steps[i]) == states[i + 1]
    &&& forall|i: int| 0 <= i < steps.len() ==> (#[trigger] steps[i] is End <==> i == steps.len() - 1)
}

/// A failed start leaves nothing behind but a notice: before it ends, the chat and the worktree
/// that it created are taken back, nothing else is called, and the one thing it tells is the
/// failure.
pub proof fn law_failed_starts_leave_nothing(states: Seq<Starting>, steps: Seq<StartStep>)
    requires
        winds_down(states, steps),
    ensures
        states.last().left_nothing(),
        steps.last() matches StartStep::End(Update::Notice(text)) && text@ == states[0].failure@,
        forall|i: int|
            0 <= i < steps.len() - 1 ==> (#[trigger] steps[i] is RemoveChat
                || steps[i] is RemoveWorktree),
        states[0].chat ==> steps[0] is RemoveChat,
        states[0].worktree matches Some(made) ==> exists|i: int|
            0 <= i < steps.len() && (#[trigger] steps[i] matches StartStep::RemoveWorktree {
                path,
                ..
            } && path@ == made@),
        steps.len() <= 3,
{
    assert(states[0].takes_back(steps[0]));
    assert(steps[0] is End <==> 0 == steps.len() - 1);
    if steps.len() > 1 {
        assert(states[0].after_removal(steps[0]) == states[1]);
        assert(states[1].takes_back(steps[1]));
        assert(steps[1] is End <==> 1 == steps.len() - 1);
        if steps.len() > 2 {
            assert(states[1].after_removal(steps[1]) == states[2]);
            assert(states[2].takes_back(steps[2]));
            assert(steps[2] is End <==> 2 == steps.len() - 1);
        }
    }
}

/// The first retry is quick, each of the next few waits twice as long, and then the link is polled.
pub proof fn law_retries_slow_down(attempt: usize)
    ensures
        backoff_ms(0) == 200,
        attempt < 4 ==> backoff_ms((attempt + 1) as usize) == 2 * backoff_ms(attempt),
        attempt > 4 ==> backoff_ms(attempt) == 5_000,
{
}

/// The chat that was asked for last is the one that is watched.
pub proof fn law_the_last_watch_counts(
    target: Option<Seq<char>>,
    commands: Seq<Command>,
    i: int,
)
    requires
        0 <= i < commands.len(),
        commands[i] is WatchTranscript,
        forall|j: int| i < j < commands.len() ==> !(#[trigger] commands[j] is WatchTranscript),
    ensures
        commands[i] matches Command::WatchTranscript(next) ==> target_after_all(target, commands)
            == opt_text(next),
    decreases commands.len(),
{
    if i < commands.len() - 1 {
        let front = commands.drop_last();
        assert(front[i] == commands[i]);
        assert forall|j: int| i < j < front.len() implies !(#[trigger] front[j] is WatchTranscript) by {
            assert(front[j] == commands[j]);
        }
        law_the_last_watch_counts(target, front, i);
        assert(!(commands[commands.len() - 1] is WatchTranscript));
    }
}

/// A session works where its plan says: in the checkout that there is, in a worktree that is used
/// again, or in one that has to be made first, each on the branch that the plan names.
pub proof fn law_sessions_work_where_planned(
    path: String,
    branch: String,
    known: Option<String>,
)
    ensures
        planned_cwd(CheckoutPlan::ReuseWorktree { path, branch }) == Some(path@),
        planned_branch(CheckoutPlan::ReuseWorktree { path, branch }) == Some(branch@),
        planned_cwd(CheckoutPlan::CurrentCheckout { branch: known }) is None,
        planned_branch(CheckoutPlan::CurrentCheckout { branch: known }) == opt_text(known),
        planned_cwd(CheckoutPlan::NewWorktree { base: known }) is None,
        planned_branch(CheckoutPlan::NewWorktree { base: known }) == opt_text(known),
{
}

} // verus!
