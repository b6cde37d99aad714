//! The changes pane's state: what it watches, what it fetches, and what it lets the user pin.
//!
//! The pane performs no requests itself. Each `ensure_*` method says which request is due, and the
//! matching `finish_*` method takes the outcome; an outcome whose key is no longer awaited is
//! dropped.

use vstd::prelude::*;
use vstd::slice::slice_subrange;

use crate::changes::{
    apply_diff_frame, base_ref_of, default_base_ref, diffs_after, law_modes_differ, opt_diff,
    resolve_diff, resolved_at, DiffFrame, DiffScope,
};
use crate::comments::CommentSide;
use crate::folds::DiffPane;
use crate::proto::{checkout_models, Chat, CheckoutDiff, CheckoutModel, GitHistoryCommit};
use crate::requests::{numbered, take_number};
use crate::search::{copy_opt, is_text, lists, same_opt};
use crate::text::{
    chars_of, contains, is_prefix, opt_str, opt_text, starts_with, string_of, texts, trim, trimmed,
};

verus! {

/// A diff that has been parsed and is on show.
pub struct ParsedDiff {
    /// `checkout_id:checksum:scope` — identity of the parsed content.
    pub key: String,
    pub truncated: bool,
    pub additions: u32,
    pub deletions: u32,
    pub file_count: usize,
    pub pane: DiffPane,
}

/// The diff line under the pointer.
#[derive(Debug, Clone, PartialEq, Eq)]
pub struct HoverRow {
    pub path: String,
    pub side: CommentSide,
    pub line: u32,
}

/// A note that is being written.
#[derive(Debug, Clone, PartialEq, Eq)]
pub struct CommentDraft {
    /// Composer the note will stage onto, captured when the card opened. A
    /// draft belongs to the checkout it was written over, so it must not
    /// follow the user onto whatever chat is selected by commit time.
    pub key: String,
    pub path: String,
    /// The file's pre-rename path, when it moved — carried onto the comment so
    /// an `Old`-side citation names the file that line lives in.
    pub old_path: Option<String>,
    pub side: CommentSide,
    pub line: u32,
}

/// What the pane reads of the app around it.
pub struct PaneContext {
    pub chat: Option<Chat>,
    pub local_device_id: Option<String>,
    pub engine_ready: bool,
}

/// The Changes pane. Lazy: nothing is requested until [`Changes::ensure_watch`] runs
/// (the shell calls it when the pane first opens).
pub struct Changes {
    pub diffs: Vec<CheckoutDiff>,
    pub started: bool,
    pub error: Option<String>,
    /// Device the running watch targets: `None` = the connected engine itself,
    /// `Some(id)` = a remote chat's host (relay-forwarded). The stream only
    /// carries the TARGET device's checkouts, so a selection change onto a
    /// chat hosted elsewhere tears the watch down and re-subscribes.
    pub watch_target: Option<String>,
    /// What the pane diffs against.
    pub scope: DiffScope,
    /// Comparison ref for [`DiffScope::Branch`] — preset to the repo's
    /// default branch once the branch list lands.
    pub base_ref: Option<String>,
    pub branches: Vec<String>,
    /// `device:cwd` the branch list was fetched for.
    pub branches_for: Option<String>,
    /// One-shot scoped capture (Branch / Latest turn) + its fetch key.
    pub scoped: Option<CheckoutDiff>,
    pub scoped_for: Option<String>,
    pub scoped_error: Option<String>,
    pub scoped_inflight: Option<String>,
    /// Pinned commit for a [`DiffScope::Commit`] pane (sha + subject drive
    /// the fetch and the surface-tab title).
    pub commit: Option<GitHistoryCommit>,
    /// The number of the next request.
    pub next_number: u64,
    /// The watch that is running.
    pub watch_awaited: Option<u64>,
    /// The branch list that is still wanted.
    pub branches_awaited: Option<u64>,
    /// The scoped capture that is still wanted.
    pub scoped_awaited: Option<u64>,
}

/// The view of an optional owned diff.
pub open spec fn opt_owned(o: Option<CheckoutDiff>) -> Option<CheckoutModel> {
    match o {
        Some(d) => Some(d@),
        None => None,
    }
}

/// The first characters of a text.
pub open spec fn first_chars(s: Seq<char>, n: int) -> Seq<char> {
    if s.len() <= n {
        s
    } else {
        s.take(n)
    }
}

pub(crate) fn leading(s: &str, n: usize) -> (r: String)
    ensures
        r@ == first_chars(s@, n as int),
{
    let chars = chars_of(s);
    if chars.len() <= n {
        assert(chars@ == first_chars(s@, n as int));
        string_of(chars.as_slice())
    } else {
        assert(chars@.subrange(0, n as int) =~= s@.take(n as int));
        string_of(slice_subrange(chars.as_slice(), 0, n))
    }
}

impl Changes {
    pub fn new() -> (r: Self)
        ensures
            r.diffs@.len() == 0,
            !r.started,
            r.error is None,
            r.watch_target is None,
            r.scope == DiffScope::WorkingTree,
            r.base_ref is None,
            r.branches@.len() == 0,
            r.branches_for is None,
            r.scoped is None,
            r.scoped_for is None,
            r.scoped_error is None,
            r.scoped_inflight is None,
            r.commit is None,
            r.next_number == 0,
            r.watch_awaited is None,
            r.branches_awaited is None,
            r.scoped_awaited is None,
    {
        Changes {
            diffs: Vec::new(),
            started: false,
            error: None,
            watch_target: None,
            scope: DiffScope::WorkingTree,
            base_ref: None,
            branches: Vec::new(),
            branches_for: None,
            scoped: None,
            scoped_for: None,
            scoped_error: None,
            scoped_inflight: None,
            commit: None,
            next_number: 0,
            watch_awaited: None,
            branches_awaited: None,
            scoped_awaited: None,
        }
    }

    /// A pane pinned to one commit's diff (a History row click) — fetches
    /// `parent vs commit` once and never offers the scope menu.
    pub fn for_commit(commit: GitHistoryCommit) -> (r: Self)
        ensures
            r.scope == DiffScope::Commit,
            r.commit == Some(commit),
            r.diffs@.len() == 0,
            !r.started,
            r.error is None,
            r.watch_target is None,
            r.base_ref is None,
            r.branches@.len() == 0,
            r.branches_for is None,
            r.scoped is None,
            r.scoped_for is None,
            r.scoped_error is None,
            r.scoped_inflight is None,
            r.next_number == 0,
            r.watch_awaited is None,
            r.branches_awaited is None,
            r.scoped_awaited is None,
    {
        let mut changes = Changes::new();
        changes.scope = DiffScope::Commit;
        changes.commit = Some(commit);
        changes
    }

    pub open spec fn title_text(self) -> Seq<char> {
        match self.commit {
            Some(commit) => if trim(commit.subject@).len() > 0 {
                trim(commit.subject@)
            } else {
                first_chars(commit.sha@, 7)
            },
            None => self.scope.label_text(),
        }
    }

    /// The surface-tab title: the pinned commit's
    /// subject (short sha for subject-less commits), else the scope's label.
    pub fn tab_title(&self) -> (r: String)
        ensures
            r@ == self.title_text(),
    {
        if let Some(commit) = &self.commit {
            let subject = chars_of(commit.subject.as_str());
            let subject = trimmed(subject.as_slice());
            if subject.len() > 0 {
                return string_of(subject);
            }
            return leading(commit.sha.as_str(), 7);
        }
        self.scope.label().to_owned()
    }

    // -----------------------------------------------------------------------
    // The watch
    // -----------------------------------------------------------------------

    /// The device that the watch must be forwarded to: the selected chat's host, where that is not
    /// the connected engine's own device.
    pub open spec fn target_for(cx: PaneContext) -> Option<Seq<char>> {
        match cx.chat {
            Some(chat) => if opt_text(cx.local_device_id) == Some(chat.device_id@) {
                None
            } else {
                Some(chat.device_id@)
            },
            None => None,
        }
    }

    /// The selected chat's host device when it differs from the connected
    /// engine's own — diffs are produced where the checkout lives, so a
    /// remote chat's watch must relay-forward (`targetDeviceId`) to its host.
    pub fn desired_target(cx: &PaneContext) -> (r: Option<String>)
        ensures
            opt_text(r) == Self::target_for(*cx),
    {
        match &cx.chat {
            Some(chat) => if is_text(&cx.local_device_id, chat.device_id.as_str()) {
                None
            } else {
                Some(chat.device_id.clone())
            },
            None => None,
        }
    }

    /// Everything but the watch's own fields is the same.
    pub open spec fn same_but_watch(self, other: Self) -> bool {
        &&& self.scope == other.scope
        &&& self.base_ref == other.base_ref
        &&& self.branches == other.branches
        &&& self.branches_for == other.branches_for
        &&& self.scoped == other.scoped
        &&& self.scoped_for == other.scoped_for
        &&& self.scoped_error == other.scoped_error
        &&& self.scoped_inflight == other.scoped_inflight
        &&& self.commit == other.commit
        &&& self.branches_awaited == other.branches_awaited
        &&& self.scoped_awaited == other.scoped_awaited
    }

    /// Start the `WatchCheckoutDiffs` subscription (idempotent per target): what to subscribe
    /// with, or `None` where the watch is already right or the engine still boots. Retargeting
    /// ends the previous watch and drops the rows of its device: they would resolve against the
    /// wrong checkouts.
    pub fn ensure_watch(&mut self, cx: &PaneContext) -> (r: Option<WatchRequest>)
        ensures
            final(self).same_but_watch(*old(self)),
            ({
                let due = cx.engine_ready && !(old(self).started && opt_text(
                    old(self).watch_target,
                ) == Self::target_for(*cx));
                &&& !due ==> r is None && *final(self) == *old(self)
                &&& due ==> {
                    &&& r is Some
                    &&& opt_text(r->0.target) == Self::target_for(*cx)
                    &&& numbered(
                        old(self).next_number,
                        final(self).next_number,
                        Some(r->0.number),
                        final(self).watch_awaited,
                        None,
                    )
                    &&& final(self).started
                    &&& opt_text(final(self).watch_target) == Self::target_for(*cx)
                    &&& old(self).started ==> final(self).diffs@.len() == 0 && final(self).error is None
                    &&& !old(self).started ==> final(self).diffs == old(self).diffs && final(self).error == old(self).error
                }
            }),
    {
        let target = Self::desired_target(cx);
        if self.started && same_opt(&self.watch_target, &target) {
            return None;
        }
        if !cx.engine_ready {
            return None;
        }
        if self.started {
            self.diffs = Vec::new();
            self.error = None;
        }
        self.started = true;
        self.watch_target = copy_opt(&target);
        let number = take_number(&mut self.next_number);
        self.watch_awaited = Some(number);
        Some(WatchRequest { number, target })
    }

    /// A frame of a watch: that of the running one clears the banner, and is folded into the
    /// diffs. A frame of a watch that has ended is dropped.
    pub fn on_watch_frame(&mut self, number: u64, frame: DiffFrame) -> (changed: bool)
        ensures
            old(self).watch_awaited != Some(number) ==> !changed && *final(self) == *old(self),
            old(self).watch_awaited == Some(number) ==> {
                &&& final(self).same_but_watch(*old(self))
                &&& final(self).started == old(self).started
                &&& final(self).watch_target == old(self).watch_target
                &&& final(self).watch_awaited == old(self).watch_awaited
                &&& final(self).next_number == old(self).next_number
                &&& final(self).error is None
                &&& checkout_models(final(self).diffs@) == diffs_after(
                    checkout_models(old(self).diffs@),
                    frame,
                )
                &&& changed == (checkout_models(final(self).diffs@) != checkout_models(
                    old(self).diffs@,
                ))
            },
    {
        if self.watch_awaited != Some(number) {
            return false;
        }
        self.error = None;
        apply_diff_frame(&mut self.diffs, frame)
    }

    /// A watch ended or could not be opened: where it is the running one, a banner says so while
    /// the last content stays. It is opened again, under its number, after two seconds.
    pub fn on_watch_lost(&mut self, number: u64, reason: Option<&str>)
        ensures
            old(self).watch_awaited != Some(number) ==> *final(self) == *old(self),
            old(self).watch_awaited == Some(number) ==> {
                &&& *final(self) == (Changes { error: final(self).error, ..*old(self) })
                &&& opt_text(final(self).error) == Some(
                    match opt_str(reason) {
                        Some(err) => "Diff watch unavailable: "@ + err,
                        None => "Diff stream interrupted — retrying"@,
                    },
                )
            },
    {
        if self.watch_awaited != Some(number) {
            return;
        }
        self.error = match reason {
            Some(err) => {
                let mut message = "Diff watch unavailable: ".to_owned();
                message.push_str(err);
                Some(message)
            },
            None => Some("Diff stream interrupted — retrying".to_owned()),
        };
    }

    // -----------------------------------------------------------------------
    // The diff on show
    // -----------------------------------------------------------------------

    /// The watched diff of the selected chat.
    pub open spec fn resolved_model(self, cx: PaneContext) -> Option<CheckoutModel> {
        match cx.chat {
            Some(chat) => match resolved_at(checkout_models(self.diffs@), chat) {
                Some(i) => Some(checkout_models(self.diffs@)[i]),
                None => None,
            },
            None => None,
        }
    }

    pub fn resolved<'a>(&'a self, cx: &PaneContext) -> (r: Option<&'a CheckoutDiff>)
        ensures
            opt_diff(r) == self.resolved_model(*cx),
    {
        match &cx.chat {
            Some(chat) => resolve_diff(self.diffs.as_slice(), chat),
            None => None,
        }
    }

    pub open spec fn cwd_for(self, cx: PaneContext) -> Option<Seq<char>> {
        match (self.resolved_model(cx), cx.chat) {
            (Some(diff), _) => Some(diff.cwd),
            (None, Some(chat)) => opt_text(chat.cwd),
            (None, None) => None,
        }
    }

    /// The checkout root the scoped RPCs address: the watch-resolved diff's
    /// canonical cwd when available, else the chat row's own.
    pub fn scoped_cwd(&self, cx: &PaneContext) -> (r: Option<String>)
        ensures
            opt_text(r) == self.cwd_for(*cx),
    {
        if let Some(diff) = self.resolved(cx) {
            return Some(diff.cwd.clone());
        }
        match &cx.chat {
            Some(chat) => copy_opt(&chat.cwd),
            None => None,
        }
    }

    pub open spec fn active_model(self, cx: PaneContext) -> Option<CheckoutModel> {
        match self.scope {
            DiffScope::WorkingTree => self.resolved_model(cx),
            DiffScope::Branch | DiffScope::LatestTurn | DiffScope::Commit => opt_owned(self.scoped),
            DiffScope::History => None,
        }
    }

    /// The diff the pane currently displays: the watch stream for the working
    /// tree, the one-shot scoped capture otherwise.
    pub fn active_diff<'a>(&'a self, cx: &PaneContext) -> (r: Option<&'a CheckoutDiff>)
        ensures
            opt_diff(r) == self.active_model(*cx),
    {
        match self.scope {
            DiffScope::WorkingTree => self.resolved(cx),
            DiffScope::Branch | DiffScope::LatestTurn | DiffScope::Commit => match &self.scoped {
                Some(diff) => Some(diff),
                None => None,
            },
            DiffScope::History => None,
        }
    }

    pub open spec fn scope_key_text(self) -> Seq<char> {
        match self.scope {
            DiffScope::WorkingTree => "wt"@,
            DiffScope::Branch => match opt_text(self.base_ref) {
                Some(base) => "br:"@ + base,
                None => "br:"@,
            },
            DiffScope::LatestTurn => "turn"@,
            DiffScope::History => "history"@,
            DiffScope::Commit => match self.commit {
                Some(commit) => "commit:"@ + commit.sha@,
                None => "commit:"@,
            },
        }
    }

    /// Scope discriminant folded into the parse key, so a scope or base
    /// switch re-parses even when checksums collide.
    pub fn scope_key(&self) -> (r: String)
        ensures
            r@ == self.scope_key_text(),
    {
        match self.scope {
            DiffScope::WorkingTree => "wt".to_owned(),
            DiffScope::Branch => {
                let mut r = "br:".to_owned();
                if let Some(base) = &self.base_ref {
                    r.push_str(base.as_str());
                }
                r
            },
            DiffScope::LatestTurn => "turn".to_owned(),
            DiffScope::History => "history".to_owned(),
            DiffScope::Commit => {
                let mut r = "commit:".to_owned();
                if let Some(commit) = &self.commit {
                    r.push_str(commit.sha.as_str());
                }
                r
            },
        }
    }

    pub open spec fn parse_key_text(self, diff: CheckoutModel) -> Seq<char> {
        diff.checkout_id + seq![':'] + diff.checksum + seq![':'] + self.scope_key_text()
    }

    pub fn parse_key(&self, diff: &CheckoutDiff) -> (r: String)
        ensures
            r@ == self.parse_key_text(diff@),
    {
        let mut r = diff.checkout_id.clone();
        r.push(':');
        r.push_str(diff.checksum.as_str());
        r.push(':');
        let scope = self.scope_key();
        r.push_str(scope.as_str());
        assert(r@ =~= self.parse_key_text(diff@));
        r
    }

    // -----------------------------------------------------------------------
    // Branches
    // -----------------------------------------------------------------------

    /// `device:cwd`, with `local` for the engine's own device.
    pub open spec fn place_key(target: Option<Seq<char>>, cwd: Seq<char>) -> Seq<char> {
        let device = match target {
            Some(device) => device,
            None => "local"@,
        };
        device + seq![':'] + cwd
    }

    /// Everything but the branch list's own fields is the same.
    pub open spec fn same_but_branches(self, other: Self) -> bool {
        &&& self.diffs == other.diffs
        &&& self.started == other.started
        &&& self.error == other.error
        &&& self.watch_target == other.watch_target
        &&& self.scope == other.scope
        &&& self.scoped == other.scoped
        &&& self.scoped_for == other.scoped_for
        &&& self.scoped_error == other.scoped_error
        &&& self.scoped_inflight == other.scoped_inflight
        &&& self.commit == other.commit
        &&& self.watch_awaited == other.watch_awaited
        &&& self.scoped_awaited == other.scoped_awaited
    }

    /// The branch list that is due, idempotent per device and cwd.
    pub fn ensure_branches(&mut self, cx: &PaneContext) -> (r: Option<BranchRequest>)
        ensures
            final(self).same_but_branches(*old(self)),
            final(self).base_ref == old(self).base_ref,
            final(self).branches == old(self).branches,
            match old(self).cwd_for(*cx) {
                None => r is None && *final(self) == *old(self),
                Some(cwd) => {
                    let key = Self::place_key(Self::target_for(*cx), cwd);
                    let due = cx.engine_ready && opt_text(old(self).branches_for) != Some(key);
                    &&& !due ==> r is None && *final(self) == *old(self)
                    &&& due ==> {
                        &&& r is Some
                        &&& numbered(
                            old(self).next_number,
                            final(self).next_number,
                            Some(r->0.number),
                            final(self).branches_awaited,
                            None,
                        )
                        &&& r->0.key@ == key
                        &&& r->0.repo_path@ == cwd
                        &&& opt_text(r->0.target) == Self::target_for(*cx)
                        &&& opt_text(final(self).branches_for) == Some(key)
                    }
                },
            },
    {
        let cwd = match self.scoped_cwd(cx) {
            Some(cwd) => cwd,
            None => {
                return None;
            },
        };
        let target = Self::desired_target(cx);
        let mut key = match &target {
            Some(device) => device.clone(),
            None => "local".to_owned(),
        };
        key.push(':');
        key.push_str(cwd.as_str());
        assert(key@ =~= Self::place_key(Self::target_for(*cx), cwd@));
        if is_text(&self.branches_for, key.as_str()) || !cx.engine_ready {
            return None;
        }
        self.branches_for = Some(key.clone());
        let number = take_number(&mut self.next_number);
        self.branches_awaited = Some(number);
        Some(BranchRequest { number, key, repo_path: cwd, target })
    }

    /// Whether a branch list is still wanted: no later request superseded its own, and its place is
    /// still the chat's.
    pub open spec fn wants_branches(self, number: u64, key: Seq<char>) -> bool {
        self.branches_awaited == Some(number) && opt_text(self.branches_for) == Some(key)
    }

    /// The branch list that came back, or its failure. A list that is no longer wanted is dropped.
    /// The chosen base stays while it still exists; otherwise the default is preset.
    /// A failure allows a retry on the next state change.
    pub fn finish_branches(
        &mut self,
        number: u64,
        key: &str,
        result: Option<Vec<String>>,
        current: Option<&str>,
    )
        ensures
            final(self).same_but_branches(*old(self)),
            final(self).next_number == old(self).next_number,
            !old(self).wants_branches(number, key@) ==> *final(self) == *old(self),
            old(self).wants_branches(number, key@) ==> final(self).branches_awaited is None,
            old(self).wants_branches(number, key@) ==> match result {
                None => {
                    &&& final(self).branches_for is None
                    &&& final(self).branches == old(self).branches
                    &&& final(self).base_ref == old(self).base_ref
                },
                Some(branches) => {
                    let names = texts(branches@);
                    let kept = match opt_text(old(self).base_ref) {
                        Some(base) => names.contains(base),
                        None => false,
                    };
                    &&& final(self).branches_for == old(self).branches_for
                    &&& texts(final(self).branches@) == names
                    &&& opt_text(final(self).base_ref) == if kept {
                        opt_text(old(self).base_ref)
                    } else {
                        base_ref_of(names, opt_str(current))
                    }
                },
            },
    {
        if self.branches_awaited != Some(number) || !is_text(&self.branches_for, key) {
            return;
        }
        self.branches_awaited = None;
        match result {
            Some(branches) => {
                let keep = match &self.base_ref {
                    Some(base) => lists(&branches, base.as_str()),
                    None => false,
                };
                if !keep {
                    self.base_ref = default_base_ref(&branches, current);
                }
                self.branches = branches;
            },
            None => {
                self.branches_for = None;
            },
        }
    }

    // -----------------------------------------------------------------------
    // Scoped captures
    // -----------------------------------------------------------------------

    /// Everything but the scoped capture's own fields is the same.
    pub open spec fn same_but_scoped(self, other: Self) -> bool {
        &&& self.diffs == other.diffs
        &&& self.started == other.started
        &&& self.error == other.error
        &&& self.watch_target == other.watch_target
        &&& self.scope == other.scope
        &&& self.base_ref == other.base_ref
        &&& self.branches == other.branches
        &&& self.branches_for == other.branches_for
        &&& self.commit == other.commit
        &&& self.watch_awaited == other.watch_awaited
        &&& self.branches_awaited == other.branches_awaited
    }

    /// Whether the scope needs a capture and has what one needs: a chat, a cwd, and the base or
    /// the commit where the scope compares with one.
    pub open spec fn can_capture(self, cx: PaneContext) -> bool {
        &&& cx.chat is Some
        &&& self.cwd_for(cx) is Some
        &&& match self.scope {
            DiffScope::WorkingTree | DiffScope::History => false,
            DiffScope::Branch => self.base_ref is Some,
            DiffScope::Commit => self.commit is Some,
            DiffScope::LatestTurn => true,
        }
    }

    pub open spec fn capture_base(self) -> Option<Seq<char>> {
        if self.scope == DiffScope::Branch {
            opt_text(self.base_ref)
        } else {
            None
        }
    }

    pub open spec fn capture_sha(self) -> Option<Seq<char>> {
        match (self.scope, self.commit) {
            (DiffScope::Commit, Some(commit)) => Some(commit.sha@),
            _ => None,
        }
    }

    /// What a capture is of: device, chat, cwd, mode, base and commit.
    pub open spec fn capture_context(self, cx: PaneContext) -> Seq<char> {
        let device = match Self::target_for(cx) {
            Some(device) => device,
            None => "local"@,
        };
        let bar = seq!['|'];
        device + bar + cx.chat->0.id@ + bar + self.cwd_for(cx)->0 + bar + self.scope.mode_text()
            + bar + or_empty(self.capture_base()) + bar + or_empty(self.capture_sha())
    }

    /// The context and the checksum of the watched diff.
    pub open spec fn capture_key(self, cx: PaneContext) -> Seq<char> {
        self.capture_context(cx) + seq!['|'] + match self.resolved_model(cx) {
            Some(diff) => diff.checksum,
            None => Seq::empty(),
        }
    }

    /// Keep the one-shot scoped capture fresh. The fetch key folds in the
    /// watch checksum, so any working-tree change (or commit — HEAD rides the
    /// checksum) re-captures; a context change (chat/scope/base) clears the
    /// stale content first so the pane shows the spinner, while a
    /// checksum-only refresh keeps the old diff visible until the new one
    /// lands.
    pub fn ensure_scoped(&mut self, cx: &PaneContext) -> (r: Option<ScopedRequest>)
        ensures
            final(self).same_but_scoped(*old(self)),
            final(self).scoped_for == old(self).scoped_for,
            old(self).scope == DiffScope::WorkingTree || old(self).scope == DiffScope::History ==> {
                &&& r is None
                &&& final(self).scoped_inflight is None
                &&& final(self).scoped_awaited is None
                &&& final(self).next_number == old(self).next_number
                &&& final(self).scoped == old(self).scoped
                &&& final(self).scoped_error == old(self).scoped_error
            },
            old(self).scope != DiffScope::WorkingTree && old(self).scope != DiffScope::History
                && !old(self).can_capture(*cx) ==> r is None && *final(self) == *old(self),
            old(self).can_capture(*cx) ==> {
                let key = old(self).capture_key(*cx);
                let fresh = opt_text(old(self).scoped_for) == Some(key) || opt_text(
                    old(self).scoped_inflight,
                ) == Some(key);
                let same_context = match opt_text(old(self).scoped_for) {
                    Some(prev) => is_prefix(old(self).capture_context(*cx) + seq!['|'], prev),
                    None => false,
                };
                &&& fresh ==> r is None && *final(self) == *old(self)
                &&& !fresh && same_context ==> final(self).scoped == old(self).scoped && final(self).scoped_error == old(self).scoped_error
                &&& !fresh && !same_context ==> final(self).scoped is None && final(self).scoped_error is None
                &&& !fresh && !cx.engine_ready ==> {
                    &&& r is None
                    &&& final(self).scoped_inflight == old(self).scoped_inflight
                    &&& final(self).scoped_awaited == old(self).scoped_awaited
                    &&& final(self).next_number == old(self).next_number
                }
                &&& !fresh && cx.engine_ready ==> {
                    &&& r is Some
                    &&& numbered(
                        old(self).next_number,
                        final(self).next_number,
                        Some(r->0.number),
                        final(self).scoped_awaited,
                        None,
                    )
                    &&& r->0.key@ == key
                    &&& opt_text(final(self).scoped_inflight) == Some(key)
                    &&& r->0.cwd@ == old(self).cwd_for(*cx)->0
                    &&& r->0.mode@ == old(self).scope.mode_text()
                    &&& r->0.chat_id@ == cx.chat->0.id@
                    &&& opt_text(r->0.base_ref) == old(self).capture_base()
                    &&& opt_text(r->0.commit_sha) == old(self).capture_sha()
                    &&& opt_text(r->0.target) == Self::target_for(*cx)
                }
            },
    {
        if self.scope == DiffScope::WorkingTree || self.scope == DiffScope::History {
            self.scoped_inflight = None;
            self.scoped_awaited = None;
            return None;
        }
        let chat_id = match &cx.chat {
            Some(chat) => chat.id.clone(),
            None => {
                return None;
            },
        };
        let cwd = match self.scoped_cwd(cx) {
            Some(cwd) => cwd,
            None => {
                return None;
            },
        };
        let base: Option<String> = if self.scope == DiffScope::Branch {
            match &self.base_ref {
                Some(base) => Some(base.clone()),
                None => {
                    return None;
                },
            }
        } else {
            None
        };
        let commit_sha: Option<String> = if self.scope == DiffScope::Commit {
            match &self.commit {
                Some(commit) => Some(commit.sha.clone()),
                None => {
                    return None;
                },
            }
        } else {
            None
        };
        let target = Self::desired_target(cx);
        let mut context = match &target {
            Some(device) => device.clone(),
            None => "local".to_owned(),
        };
        context.push('|');
        context.push_str(chat_id.as_str());
        context.push('|');
        context.push_str(cwd.as_str());
        context.push('|');
        context.push_str(self.scope.mode());
        context.push('|');
        if let Some(base) = &base {
            context.push_str(base.as_str());
        }
        context.push('|');
        if let Some(sha) = &commit_sha {
            context.push_str(sha.as_str());
        }
        assert(context@ =~= self.capture_context(*cx));
        let mut key = context.clone();
        key.push('|');
        let prefix = key.clone();
        assert(prefix@ =~= self.capture_context(*cx) + seq!['|']);
        if let Some(diff) = self.resolved(cx) {
            key.push_str(diff.checksum.as_str());
        }
        assert(key@ =~= self.capture_key(*cx));
        if is_text(&self.scoped_for, key.as_str()) || is_text(&self.scoped_inflight, key.as_str()) {
            return None;
        }
        let same_context = match &self.scoped_for {
            Some(prev) => {
                let prev = chars_of(prev.as_str());
                starts_with(prev.as_slice(), prefix.as_str())
            },
            None => false,
        };
        if !same_context {
            self.scoped = None;
            self.scoped_error = None;
        }
        if !cx.engine_ready {
            return None;
        }
        let mode = self.scope.mode().to_owned();
        self.scoped_inflight = Some(key.clone());
        let number = take_number(&mut self.next_number);
        self.scoped_awaited = Some(number);
        Some(
            ScopedRequest {
                number,
                key,
                cwd,
                mode,
                chat_id,
                base_ref: base,
                commit_sha,
                target,
            },
        )
    }

    /// Whether a capture is still wanted: no later request superseded its own.
    pub open spec fn wants_capture(self, number: u64, key: Seq<char>) -> bool {
        self.scoped_awaited == Some(number) && opt_text(self.scoped_inflight) == Some(key)
    }

    /// The capture that came back, or its failure; dropped where it is no longer wanted. Returns
    /// whether it was taken.
    pub fn finish_scoped(
        &mut self,
        number: u64,
        key: &str,
        result: Result<CheckoutDiff, String>,
    ) -> (taken: bool)
        ensures
            final(self).same_but_scoped(*old(self)),
            final(self).next_number == old(self).next_number,
            taken == old(self).wants_capture(number, key@),
            !taken ==> *final(self) == *old(self),
            taken ==> {
                &&& final(self).scoped_inflight is None
                &&& final(self).scoped_awaited is None
                &&& opt_text(final(self).scoped_for) == Some(key@)
                &&& match result {
                    Ok(diff) => opt_owned(final(self).scoped) == Some(diff@) && final(self).scoped_error is None,
                    Err(err) => final(self).scoped is None && opt_text(final(self).scoped_error)
                        == Some(err@),
                }
            },
    {
        if self.scoped_awaited != Some(number) || !is_text(&self.scoped_inflight, key) {
            return false;
        }
        self.scoped_inflight = None;
        self.scoped_awaited = None;
        match result {
            Ok(diff) => {
                self.scoped = Some(diff);
                self.scoped_error = None;
            },
            Err(err) => {
                self.scoped = None;
                self.scoped_error = Some(err);
            },
        }
        self.scoped_for = Some(key.to_owned());
        true
    }

    /// A fetch of all remotes succeeded. Remote refs affect branch choices and every scoped diff
    /// based on a ref: what was read before, or is on its way, no longer counts, and both are due
    /// again ([`Changes::ensure_branches`], [`Changes::ensure_scoped`]).
    pub fn on_fetch_succeeded(&mut self)
        ensures
            final(self).branches_for is None,
            final(self).scoped_for is None,
            final(self).scoped_inflight is None,
            final(self).scoped_awaited is None,
            final(self).branches_awaited == old(self).branches_awaited,
            final(self).watch_awaited == old(self).watch_awaited,
            final(self).next_number == old(self).next_number,
            final(self).diffs == old(self).diffs,
            final(self).started == old(self).started,
            final(self).error == old(self).error,
            final(self).watch_target == old(self).watch_target,
            final(self).scope == old(self).scope,
            final(self).base_ref == old(self).base_ref,
            final(self).branches == old(self).branches,
            final(self).scoped == old(self).scoped,
            final(self).scoped_error == old(self).scoped_error,
            final(self).commit == old(self).commit,
    {
        self.branches_for = None;
        self.scoped_for = None;
        self.scoped_inflight = None;
        self.scoped_awaited = None;
    }

    /// Pick a scope. Returns whether it is another one than before.
    pub fn set_scope(&mut self, scope: DiffScope) -> (changed: bool)
        ensures
            changed == (old(self).scope != scope),
            final(self).scope == scope,
            final(self).base_ref == old(self).base_ref,
            final(self).diffs == old(self).diffs,
            final(self).started == old(self).started,
            final(self).error == old(self).error,
            final(self).watch_target == old(self).watch_target,
            final(self).branches == old(self).branches,
            final(self).branches_for == old(self).branches_for,
            final(self).scoped == old(self).scoped,
            final(self).scoped_for == old(self).scoped_for,
            final(self).scoped_error == old(self).scoped_error,
            final(self).scoped_inflight == old(self).scoped_inflight,
            final(self).commit == old(self).commit,
            final(self).next_number == old(self).next_number,
            final(self).watch_awaited == old(self).watch_awaited,
            final(self).branches_awaited == old(self).branches_awaited,
            final(self).scoped_awaited == old(self).scoped_awaited,
    {
        let changed = self.scope != scope;
        self.scope = scope;
        changed
    }

    /// Pick a base ref. Returns whether it is another one than before.
    pub fn set_base_ref(&mut self, base: String) -> (changed: bool)
        ensures
            changed == (opt_text(old(self).base_ref) != Some(base@)),
            opt_text(final(self).base_ref) == Some(base@),
            final(self).scope == old(self).scope,
            final(self).diffs == old(self).diffs,
            final(self).started == old(self).started,
            final(self).error == old(self).error,
            final(self).watch_target == old(self).watch_target,
            final(self).branches == old(self).branches,
            final(self).branches_for == old(self).branches_for,
            final(self).scoped == old(self).scoped,
            final(self).scoped_for == old(self).scoped_for,
            final(self).scoped_error == old(self).scoped_error,
            final(self).scoped_inflight == old(self).scoped_inflight,
            final(self).commit == old(self).commit,
            final(self).next_number == old(self).next_number,
            final(self).watch_awaited == old(self).watch_awaited,
            final(self).branches_awaited == old(self).branches_awaited,
            final(self).scoped_awaited == old(self).scoped_awaited,
    {
        if is_text(&self.base_ref, base.as_str()) {
            return false;
        }
        self.base_ref = Some(base);
        true
    }
}

/// The text, or none at all.
pub open spec fn or_empty(o: Option<Seq<char>>) -> Seq<char> {
    match o {
        Some(s) => s,
        None => Seq::empty(),
    }
}

/// Once another capture was asked for, or captures were given up, an earlier one never lands.
pub proof fn law_superseded_captures_never_land(
    before: Changes,
    after: Changes,
    made: Option<u64>,
    number: u64,
    key: Seq<char>,
)
    requires
        number < before.next_number,
        numbered(before.next_number, after.next_number, made, after.scoped_awaited, None),
    ensures
        !after.wants_capture(number, key),
{
}

/// Once another branch list was asked for, an earlier one never lands.
pub proof fn law_superseded_branch_lists_never_land(
    before: Changes,
    after: Changes,
    made: u64,
    number: u64,
    key: Seq<char>,
)
    requires
        number < before.next_number,
        numbered(before.next_number, after.next_number, Some(made), after.branches_awaited, None),
    ensures
        !after.wants_branches(number, key),
{
}

/// A fetch of all remotes is followed by fresh reads. Nothing that was asked for before it lands
/// once it succeeded; and where a capture is then asked for under the same key as before, only the
/// new one lands.
pub proof fn law_fetches_are_followed_by_fresh_reads(
    fetched: Changes,
    asked: Changes,
    stale: u64,
    fresh: u64,
    key: Seq<char>,
)
    requires
        fetched.branches_for is None,
        fetched.scoped_inflight is None,
        fetched.scoped_awaited is None,
        stale < fetched.next_number,
        numbered(fetched.next_number, asked.next_number, Some(fresh), asked.scoped_awaited, None),
        opt_text(asked.scoped_inflight) == Some(key),
    ensures
        !fetched.wants_branches(stale, key),
        !fetched.wants_capture(stale, key),
        !asked.wants_capture(stale, key),
        asked.wants_capture(fresh, key),
{
}

/// What the pane keeps up to date while a scope is on show, besides the watch.
#[derive(Debug, Clone, Copy, PartialEq, Eq, Structural)]
pub struct SyncPlan {
    /// The history pane's own pages ([`crate::history::GitHistory::ensure_loaded`]).
    pub history: bool,
    /// The branch list ([`Changes::ensure_branches`]).
    pub branches: bool,
    /// The scoped capture ([`Changes::ensure_scoped`]), and the parsed content after it
    /// ([`Changes::content_plan`]).
    pub scoped: bool,
}

impl Changes {
    /// What a state change brings up to date. The history pane loads by itself and nothing else is
    /// due beside it; a pinned commit is compared with no branch.
    pub fn sync_plan(&self) -> (r: SyncPlan)
        ensures
            r.history == (self.scope == DiffScope::History),
            r.scoped == !r.history,
            r.branches == (!r.history && self.scope != DiffScope::Commit),
    {
        let history = self.scope == DiffScope::History;
        SyncPlan {
            history,
            branches: !history && self.scope != DiffScope::Commit,
            scoped: !history,
        }
    }

    /// The request for a file's full sources, on both sides of the diff on show; none without a
    /// diff or an engine. The checksum lets the engine say where the sources have moved on since.
    pub fn file_text_request(&self, cx: &PaneContext, path: &str) -> (r: Option<FileTextRequest>)
        ensures
            r is Some <==> self.active_model(*cx) is Some && cx.engine_ready,
            r matches Some(request) ==> {
                let diff = self.active_model(*cx)->0;
                &&& request.checkout_id@ == diff.checkout_id
                &&& request.cwd@ == diff.cwd
                &&& request.path@ == path@
                &&& request.mode@ == self.scope.mode_text()
                &&& opt_text(request.base_ref) == opt_text(self.base_ref)
                &&& opt_text(request.chat_id) == match cx.chat {
                    Some(chat) => Some(chat.id@),
                    None => None,
                }
                &&& opt_text(request.commit_sha) == match (self.scope, self.commit) {
                    (DiffScope::Commit, Some(commit)) => Some(commit.sha@),
                    _ => None,
                }
                &&& request.diff_checksum@ == diff.checksum
                &&& opt_text(request.target) == Self::target_for(*cx)
            },
    {
        if !cx.engine_ready {
            return None;
        }
        let diff = match self.active_diff(cx) {
            Some(diff) => diff,
            None => {
                return None;
            },
        };
        let chat_id = match &cx.chat {
            Some(chat) => Some(chat.id.clone()),
            None => None,
        };
        let commit_sha = match (self.scope, &self.commit) {
            (DiffScope::Commit, Some(commit)) => Some(commit.sha.clone()),
            _ => None,
        };
        Some(
            FileTextRequest {
                checkout_id: diff.checkout_id.clone(),
                cwd: diff.cwd.clone(),
                path: path.to_owned(),
                mode: self.scope.mode(),
                base_ref: copy_opt(&self.base_ref),
                chat_id,
                commit_sha,
                diff_checksum: diff.checksum.clone(),
                target: Self::desired_target(cx),
            },
        )
    }
}

/// A file's full sources to fetch.
#[derive(Debug, PartialEq, Eq)]
pub struct FileTextRequest {
    pub checkout_id: String,
    pub cwd: String,
    pub path: String,
    pub mode: &'static str,
    pub base_ref: Option<String>,
    pub chat_id: Option<String>,
    /// Only of a pinned commit.
    pub commit_sha: Option<String>,
    pub diff_checksum: String,
    pub target: Option<String>,
}

/// A watch to open.
#[derive(Debug, PartialEq, Eq)]
pub struct WatchRequest {
    /// Tells the request from every other one of the pane.
    pub number: u64,
    pub target: Option<String>,
}

/// A branch list to fetch.
pub struct BranchRequest {
    /// Tells the request from every other one of the pane.
    pub number: u64,
    pub key: String,
    pub repo_path: String,
    pub target: Option<String>,
}

/// A scoped capture to fetch.
pub struct ScopedRequest {
    /// Tells the request from every other one of the pane.
    pub number: u64,
    pub key: String,
    pub cwd: String,
    pub mode: String,
    pub chat_id: String,
    pub base_ref: Option<String>,
    pub commit_sha: Option<String>,
    pub target: Option<String>,
}

/// A chat's diffs are watched where its checkout lives: on its own device, which is named only where
/// it is not the engine's own.
pub proof fn law_diffs_are_watched_where_they_are_made(cx: PaneContext)
    ensures
        cx.chat is None ==> Changes::target_for(cx) is None,
        cx.chat is Some && cx.local_device_id is Some && (cx.local_device_id->0)@
            == cx.chat->0.device_id@ ==> Changes::target_for(cx) is None,
        cx.chat is Some && !(cx.local_device_id is Some && (cx.local_device_id->0)@
            == cx.chat->0.device_id@) ==> Changes::target_for(cx) == Some(cx.chat->0.device_id@),
{
}

/// The pane shows the watched diff while it shows the working tree, the capture in the scopes that
/// need one, and no diff beside the history.
pub proof fn law_each_scope_shows_its_diff(pane: Changes, cx: PaneContext)
    ensures
        pane.scope == DiffScope::WorkingTree ==> pane.active_model(cx) == pane.resolved_model(cx),
        pane.scope == DiffScope::History ==> pane.active_model(cx) is None,
        pane.scope == DiffScope::Branch || pane.scope == DiffScope::LatestTurn || pane.scope
            == DiffScope::Commit ==> match pane.scoped {
            Some(diff) => pane.active_model(cx) == Some(diff@),
            None => pane.active_model(cx) is None,
        },
{
}

/// A capture names what its scope compares with and nothing else: the base for branch changes, the
/// commit for a commit's.
pub proof fn law_captures_name_what_they_compare_with(pane: Changes, cx: PaneContext)
    requires
        pane.can_capture(cx),
    ensures
        cx.chat is Some,
        pane.scope == DiffScope::Branch || pane.scope == DiffScope::LatestTurn || pane.scope
            == DiffScope::Commit,
        pane.scope == DiffScope::Branch ==> pane.base_ref is Some && pane.capture_base() == Some(
            (pane.base_ref->0)@,
        ),
        pane.scope != DiffScope::Branch ==> pane.capture_base() is None,
        pane.scope == DiffScope::Commit ==> pane.commit is Some && pane.capture_sha() == Some(
            pane.commit->0.sha@,
        ),
        pane.scope != DiffScope::Commit ==> pane.capture_sha() is None,
{
}

/// Texts that go on alike behind a bar begin alike, if none holds a bar itself.
proof fn lemma_same_front(a: Seq<char>, x: Seq<char>, b: Seq<char>, y: Seq<char>)
    requires
        a + seq!['|'] + x == b + seq!['|'] + y,
        forall|i: int| 0 <= i < a.len() ==> #[trigger] a[i] != '|',
        forall|i: int| 0 <= i < b.len() ==> #[trigger] b[i] != '|',
    ensures
        a == b,
        x == y,
{
    let s = a + seq!['|'] + x;
    let t = b + seq!['|'] + y;
    if a.len() < b.len() {
        assert(s[a.len() as int] == '|');
        assert(t[a.len() as int] == b[a.len() as int]);
    } else if b.len() < a.len() {
        assert(t[b.len() as int] == '|');
        assert(s[b.len() as int] == a[b.len() as int]);
    }
    assert forall|i: int| 0 <= i < a.len() implies a[i] == b[i] by {
        assert(s[i] == a[i] && t[i] == b[i]);
    }
    assert(a =~= b);
    assert(x =~= s.skip(a.len() as int + 1));
    assert(y =~= t.skip(b.len() as int + 1));
}

proof fn lemma_modes_have_no_bar(scope: DiffScope)
    ensures
        forall|i: int| 0 <= i < scope.mode_text().len() ==> #[trigger] scope.mode_text()[i] != '|',
{
    reveal_strlit("workingTree");
    reveal_strlit("branch");
    reveal_strlit("turn");
    reveal_strlit("history");
    reveal_strlit("commit");
}

#[verifier::rlimit(50)]
proof fn lemma_context_tail(head: Seq<char>, m: Seq<char>, p: Seq<char>, q: Seq<char>)
    ensures
        (head + m + seq!['|'] + p + seq!['|'] + q).skip(head.len() as int) == m + seq!['|'] + (p
            + seq!['|'] + q),
{
    let bar = seq!['|'];
    let all = head + m + bar + p + bar + q;
    assert(all.skip(head.len() as int) =~= m + bar + (p + bar + q));
}

/// Captures of one checkout are told apart by what they are of: the same context means the same
/// scope, the same base and the same commit.
#[verifier::rlimit(50)]
pub proof fn law_captures_are_told_apart(a: Changes, b: Changes, cx: PaneContext)
    requires
        a.cwd_for(cx) == b.cwd_for(cx),
        a.capture_context(cx) == b.capture_context(cx),
    ensures
        a.scope == b.scope,
        a.scope == DiffScope::Branch ==> or_empty(opt_text(a.base_ref)) == or_empty(
            opt_text(b.base_ref),
        ),
        a.scope == DiffScope::Commit && a.commit is Some && b.commit is Some ==> a.commit->0.sha@
            == b.commit->0.sha@,
{
    let bar = seq!['|'];
    let device = match Changes::target_for(cx) {
        Some(device) => device,
        None => "local"@,
    };
    let head = device + bar + cx.chat->0.id@ + bar + a.cwd_for(cx)->0 + bar;
    let (p, q) = (or_empty(a.capture_base()), or_empty(a.capture_sha()));
    let (u, v) = (or_empty(b.capture_base()), or_empty(b.capture_sha()));
    lemma_context_tail(head, a.scope.mode_text(), p, q);
    lemma_context_tail(head, b.scope.mode_text(), u, v);
    lemma_modes_have_no_bar(a.scope);
    lemma_modes_have_no_bar(b.scope);
    lemma_same_front(a.scope.mode_text(), p + bar + q, b.scope.mode_text(), u + bar + v);
    law_modes_differ(a.scope, b.scope);
    if a.scope == DiffScope::Branch {
        assert(p + bar + q =~= p.push('|'));
        assert(u + bar + v =~= u.push('|'));
        assert(p =~= p.push('|').drop_last());
        assert(u =~= u.push('|').drop_last());
    } else if a.scope == DiffScope::Commit {
        assert(p + bar + q =~= bar + q);
        assert(u + bar + v =~= bar + v);
        assert(q =~= (bar + q).skip(1));
        assert(v =~= (bar + v).skip(1));
    }
}

/// A capture is taken anew where the working tree moved: with the same context, the same key means
/// the same checksum of the watched diff.
pub proof fn law_moved_trees_are_captured_anew(
    a: Changes,
    b: Changes,
    cx: PaneContext,
    one: CheckoutModel,
    other: CheckoutModel,
)
    requires
        a.capture_context(cx) == b.capture_context(cx),
        a.resolved_model(cx) == Some(one),
        b.resolved_model(cx) == Some(other),
        a.capture_key(cx) == b.capture_key(cx),
    ensures
        one.checksum == other.checksum,
{
    let n = a.capture_context(cx).len() as int + 1;
    assert(one.checksum =~= a.capture_key(cx).skip(n));
    assert(other.checksum =~= b.capture_key(cx).skip(n));
}

/// A diff is parsed anew where its content changed: with the same checkout in the same scope, the
/// same key means the same checksum.
pub proof fn law_changed_diffs_are_parsed_anew(
    pane: Changes,
    one: CheckoutModel,
    other: CheckoutModel,
)
    requires
        one.checkout_id == other.checkout_id,
        pane.parse_key_text(one) == pane.parse_key_text(other),
    ensures
        one.checksum == other.checksum,
{
    let head = one.checkout_id + seq![':'];
    let tail = seq![':'] + pane.scope_key_text();
    let s = pane.parse_key_text(one);
    let t = pane.parse_key_text(other);
    assert(s =~= head + one.checksum + tail);
    assert(t =~= head + other.checksum + tail);
    assert(one.checksum.len() == other.checksum.len());
    let n = head.len() as int;
    assert(one.checksum =~= s.subrange(n, n + one.checksum.len()));
    assert(other.checksum =~= t.subrange(n, n + other.checksum.len()));
}

/// The scope's part of that key tells the scopes apart, and in a scope the base or the commit.
pub proof fn law_scopes_are_parsed_apart(a: Changes, b: Changes)
    requires
        a.scope_key_text() == b.scope_key_text(),
    ensures
        a.scope == b.scope,
        a.scope == DiffScope::Branch ==> or_empty(opt_text(a.base_ref)) == or_empty(
            opt_text(b.base_ref),
        ),
        a.scope == DiffScope::Commit && a.commit is Some && b.commit is Some ==> a.commit->0.sha@
            == b.commit->0.sha@,
{
    reveal_strlit("wt");
    reveal_strlit("br:");
    reveal_strlit("turn");
    reveal_strlit("history");
    reveal_strlit("commit:");
    let x = a.scope_key_text();
    let y = b.scope_key_text();
    assert(x[0] == y[0]);
    if a.scope == DiffScope::Branch {
        assert("br:"@ + or_empty(opt_text(a.base_ref)) =~= x);
        assert("br:"@ + or_empty(opt_text(b.base_ref)) =~= y);
        assert(or_empty(opt_text(a.base_ref)) =~= x.skip(3));
        assert(or_empty(opt_text(b.base_ref)) =~= y.skip(3));
    }
    if a.scope == DiffScope::Commit && a.commit is Some && b.commit is Some {
        assert(a.commit->0.sha@ =~= x.skip(7));
        assert(b.commit->0.sha@ =~= y.skip(7));
    }
}

/// A tab is named after what it shows: a commit by its subject without the blanks around it, or by
/// the first seven characters of its sha where the subject is blank, and any other by its scope.
pub proof fn law_tabs_are_named_after_what_they_show(pane: Changes)
    ensures
        pane.commit is None ==> pane.title_text() == pane.scope.label_text(),
        pane.commit is Some && trim(pane.commit->0.subject@).len() > 0 ==> pane.title_text() == trim(
            pane.commit->0.subject@,
        ),
        pane.commit is Some && trim(pane.commit->0.subject@).len() == 0
            && pane.commit->0.sha@.len() >= 7 ==> pane.title_text().len() == 7
            && pane.title_text() == pane.commit->0.sha@.take(7),
{
    if pane.commit is Some && pane.commit->0.sha@.len() == 7 {
        assert(pane.commit->0.sha@.take(7) =~= pane.commit->0.sha@);
    }
}

} // verus!
