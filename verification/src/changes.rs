//! The changes pane: which diff it shows, what it compares against, and what it must fetch.
//!
//! - resolution: the shown diff matches the selected chat by `checkout_id`
//!   first, then by device+cwd, then cwd alone;
//! - states: *preparing* (no diff yet), *clean* (empty patch), *list*; a watch
//!   error shows a banner while the last content stays;
//! - scopes: *Working tree* rides the watch stream; *Branch changes* (vs a
//!   selectable base ref, default branch preselected) and *Latest turn* fetch
//!   one-shot captures, refreshed when the watch checksum says the tree moved.

use vstd::prelude::*;

use crate::proto::{checkout_models, same_diffs, Chat, CheckoutDiff, CheckoutModel};
use crate::search::{first_where, lemma_first_found, lemma_first_where, lists};
use crate::text::{
    chars_of, decimal, is_space, law_trimming_takes_the_blanks_around, opt_str, opt_text, push_decimal, same_str, texts, trim, trimmed,
};

verus! {

// ---------------------------------------------------------------------------
// Resolution and states
// ---------------------------------------------------------------------------

/// The index of the diff shown for a chat: `checkout_id` match first, then device+cwd,
/// then cwd alone.
pub open spec fn resolved_at(diffs: Seq<CheckoutModel>, chat: Chat) -> Option<int> {
    let by_id = match opt_text(chat.checkout_id) {
        Some(id) => first_where(diffs.len(), |i: int| diffs[i].checkout_id == id),
        None => None,
    };
    match (by_id, opt_text(chat.cwd)) {
        (Some(i), _) => Some(i),
        (None, None) => None,
        (None, Some(cwd)) => {
            match first_where(
                diffs.len(),
                |i: int| diffs[i].device_id == chat.device_id@ && diffs[i].cwd == cwd,
            ) {
                Some(i) => Some(i),
                None => first_where(diffs.len(), |i: int| diffs[i].cwd == cwd),
            }
        },
    }
}

fn find_checkout(diffs: &[CheckoutDiff], id: &str) -> (r: Option<usize>)
    ensures
        match (
            r,
            first_where(diffs@.len(), |i: int| checkout_models(diffs@)[i].checkout_id == id@),
        ) {
            (Some(i), Some(j)) => i == j && i < diffs@.len(),
            (None, None) => true,
            _ => false,
        },
{
    let ghost pred = |i: int| checkout_models(diffs@)[i].checkout_id == id@;
    for i in 0..diffs.len()
        invariant
            pred == (|i: int| checkout_models(diffs@)[i].checkout_id == id@),
            first_where(i as nat, pred) is None,
    {
        if same_str(diffs[i].checkout_id.as_str(), id) {
            proof {
                lemma_first_found(diffs@.len(), pred, i as int);
            }
            return Some(i);
        }
    }
    None
}

fn find_place(diffs: &[CheckoutDiff], device: &str, cwd: &str) -> (r: Option<usize>)
    ensures
        match (
            r,
            first_where(
                diffs@.len(),
                |i: int|
                    checkout_models(diffs@)[i].device_id == device@ && checkout_models(
                        diffs@,
                    )[i].cwd == cwd@,
            ),
        ) {
            (Some(i), Some(j)) => i == j && i < diffs@.len(),
            (None, None) => true,
            _ => false,
        },
{
    let ghost pred = |i: int|
        checkout_models(diffs@)[i].device_id == device@ && checkout_models(diffs@)[i].cwd == cwd@;
    for i in 0..diffs.len()
        invariant
            pred == (|i: int|
                checkout_models(diffs@)[i].device_id == device@ && checkout_models(diffs@)[i].cwd
                    == cwd@),
            first_where(i as nat, pred) is None,
    {
        if same_str(diffs[i].device_id.as_str(), device) && same_str(diffs[i].cwd.as_str(), cwd) {
            proof {
                lemma_first_found(diffs@.len(), pred, i as int);
            }
            return Some(i);
        }
    }
    None
}

fn find_cwd(diffs: &[CheckoutDiff], cwd: &str) -> (r: Option<usize>)
    ensures
        match (
            r,
            first_where(diffs@.len(), |i: int| checkout_models(diffs@)[i].cwd == cwd@),
        ) {
            (Some(i), Some(j)) => i == j && i < diffs@.len(),
            (None, None) => true,
            _ => false,
        },
{
    let ghost pred = |i: int| checkout_models(diffs@)[i].cwd == cwd@;
    for i in 0..diffs.len()
        invariant
            pred == (|i: int| checkout_models(diffs@)[i].cwd == cwd@),
            first_where(i as nat, pred) is None,
    {
        if same_str(diffs[i].cwd.as_str(), cwd) {
            proof {
                lemma_first_found(diffs@.len(), pred, i as int);
            }
            return Some(i);
        }
    }
    None
}

/// The diff shown for a chat: `checkout_id` match first, then device+cwd,
/// then cwd alone.
pub fn resolve_diff<'a>(diffs: &'a [CheckoutDiff], chat: &Chat) -> (r: Option<&'a CheckoutDiff>)
    ensures
        match (r, resolved_at(checkout_models(diffs@), *chat)) {
            (Some(d), Some(i)) => 0 <= i < diffs@.len() && *d == diffs@[i],
            (None, None) => true,
            _ => false,
        },
{
    if let Some(id) = &chat.checkout_id {
        if let Some(i) = find_checkout(diffs, id.as_str()) {
            return Some(&diffs[i]);
        }
    }
    match &chat.cwd {
        Some(cwd) => match find_place(diffs, chat.device_id.as_str(), cwd.as_str()) {
            Some(i) => Some(&diffs[i]),
            None => match find_cwd(diffs, cwd.as_str()) {
                Some(i) => Some(&diffs[i]),
                None => None,
            },
        },
        None => None,
    }
}

#[derive(Debug, Clone, Copy, PartialEq, Eq, Structural)]
pub enum DiffPhase {
    /// No diff for this checkout yet.
    Preparing,
    /// Diff arrived and it's empty — working tree clean.
    Clean,
    List,
}

pub open spec fn phase_of(resolved: Option<CheckoutModel>) -> DiffPhase {
    match resolved {
        None => DiffPhase::Preparing,
        Some(diff) => if trim(diff.patch).len() == 0 && diff.files.len() == 0 {
            DiffPhase::Clean
        } else {
            DiffPhase::List
        },
    }
}

/// The view of an optional diff.
pub open spec fn opt_diff(o: Option<&CheckoutDiff>) -> Option<CheckoutModel> {
    match o {
        Some(d) => Some(d@),
        None => None,
    }
}

pub fn diff_phase(resolved: Option<&CheckoutDiff>) -> (r: DiffPhase)
    ensures
        r == phase_of(opt_diff(resolved)),
{
    match resolved {
        None => DiffPhase::Preparing,
        Some(diff) => {
            let patch = chars_of(diff.patch.as_str());
            assert(diff@.files.len() == diff.files@.len());
            if trimmed(patch.as_slice()).len() == 0 && diff.files.len() == 0 {
                DiffPhase::Clean
            } else {
                DiffPhase::List
            }
        },
    }
}

pub open spec fn uncommitted_text(count: nat) -> Seq<char> {
    if count == 1 {
        "1 Uncommitted change"@
    } else {
        decimal(count) + " Uncommitted changes"@
    }
}

/// Header label: "N Uncommitted change(s)".
pub fn uncommitted_label(count: usize) -> (r: String)
    ensures
        r@ == uncommitted_text(count as nat),
{
    if count == 1 {
        "1 Uncommitted change".to_owned()
    } else {
        let mut r = String::new();
        push_decimal(&mut r, count as u64);
        r.push_str(" Uncommitted changes");
        assert(r@ =~= uncommitted_text(count as nat));
        r
    }
}

/// What the pane diffs against.
#[derive(Debug, Clone, Copy, PartialEq, Eq, Structural)]
pub enum DiffScope {
    /// Uncommitted changes vs HEAD — the live watch stream.
    WorkingTree,
    /// Everything this branch adds over `merge-base(base_ref, HEAD)`,
    /// working tree included.
    Branch,
    /// Changes since the current chat's last turn started.
    LatestTurn,
    /// Repository commit graph. Hosted here until the right pane becomes tabs.
    History,
    /// One commit's own changes (parent vs commit) — the per-commit tab a
    /// History row click opens. Never listed in the scope menu
    /// ([`scope_menu`]); a commit-pinned pane is born this way and stays.
    Commit,
}

impl Default for DiffScope {
    fn default() -> (r: Self)
        ensures
            r == DiffScope::WorkingTree,
    {
        DiffScope::WorkingTree
    }
}

impl DiffScope {
    pub open spec fn label_text(self) -> Seq<char> {
        match self {
            DiffScope::WorkingTree => "Working tree"@,
            DiffScope::Branch => "Branch changes"@,
            DiffScope::LatestTurn => "Latest turn"@,
            DiffScope::History => "History"@,
            DiffScope::Commit => "Commit"@,
        }
    }

    pub fn label(self) -> (r: &'static str)
        ensures
            r@ == self.label_text(),
    {
        match self {
            DiffScope::WorkingTree => "Working tree",
            DiffScope::Branch => "Branch changes",
            DiffScope::LatestTurn => "Latest turn",
            DiffScope::History => "History",
            DiffScope::Commit => "Commit",
        }
    }

    pub open spec fn mode_text(self) -> Seq<char> {
        match self {
            DiffScope::WorkingTree => "workingTree"@,
            DiffScope::Branch => "branch"@,
            DiffScope::LatestTurn => "turn"@,
            DiffScope::History => "history"@,
            DiffScope::Commit => "commit"@,
        }
    }

    /// Wire value for `GetCheckoutDiff` `mode` (and parse-key discriminant).
    pub fn mode(self) -> (r: &'static str)
        ensures
            r@ == self.mode_text(),
    {
        match self {
            DiffScope::WorkingTree => "workingTree",
            DiffScope::Branch => "branch",
            DiffScope::LatestTurn => "turn",
            DiffScope::History => "history",
            DiffScope::Commit => "commit",
        }
    }
}

/// Two scopes never share a wire value.
pub proof fn law_modes_differ(a: DiffScope, b: DiffScope)
    requires
        a.mode_text() == b.mode_text(),
    ensures
        a == b,
{
    reveal_strlit("workingTree");
    reveal_strlit("branch");
    reveal_strlit("turn");
    reveal_strlit("history");
    reveal_strlit("commit");
    assert("branch"@[0] == 'b');
    assert("commit"@[0] == 'c');
    assert("turn"@.len() == 4);
    assert("history"@.len() == 7);
    assert("workingTree"@.len() == 11);
}

pub open spec fn changed_files(count: nat) -> Seq<char> {
    decimal(count) + " Changed "@ + if count == 1 {
        "file"@
    } else {
        "files"@
    }
}

pub open spec fn scope_text(scope: DiffScope, count: nat, base: Option<Seq<char>>) -> Seq<char> {
    match scope {
        DiffScope::WorkingTree => uncommitted_text(count),
        DiffScope::Branch => match base {
            Some(base) => changed_files(count) + " vs "@ + base,
            None => changed_files(count),
        },
        DiffScope::LatestTurn => changed_files(count) + " this turn"@,
        DiffScope::History => "History"@,
        DiffScope::Commit => changed_files(count) + " in this commit"@,
    }
}

fn changed(count: usize) -> (r: String)
    ensures
        r@ == changed_files(count as nat),
{
    let mut r = String::new();
    push_decimal(&mut r, count as u64);
    r.push_str(" Changed ");
    if count == 1 {
        r.push_str("file");
    } else {
        r.push_str("files");
    }
    assert(r@ =~= changed_files(count as nat));
    r
}

/// Header-strip label per scope.
pub fn scope_label(scope: DiffScope, count: usize, base: Option<&str>) -> (r: String)
    ensures
        r@ == scope_text(scope, count as nat, opt_str(base)),
{
    match scope {
        DiffScope::WorkingTree => uncommitted_label(count),
        DiffScope::Branch => {
            let mut r = changed(count);
            if let Some(base) = base {
                r.push_str(" vs ");
                r.push_str(base);
            }
            r
        },
        DiffScope::LatestTurn => {
            let mut r = changed(count);
            r.push_str(" this turn");
            r
        },
        DiffScope::History => "History".to_owned(),
        DiffScope::Commit => {
            let mut r = changed(count);
            r.push_str(" in this commit");
            r
        },
    }
}

/// The comparison ref that the branch scope preselects: the first branch, unless that is the one
/// checked out; then `main` or `master`; then any other branch; then the first after all.
pub open spec fn base_ref_of(branches: Seq<Seq<char>>, current: Option<Seq<char>>) -> Option<
    Seq<char>,
> {
    if branches.len() == 0 {
        None
    } else if current != Some(branches[0]) {
        Some(branches[0])
    } else if branches.contains("main"@) {
        Some("main"@)
    } else if branches.contains("master"@) {
        Some("master"@)
    } else {
        match first_where(branches.len(), |i: int| current != Some(branches[i])) {
            Some(i) => Some(branches[i]),
            None => Some(branches[0]),
        }
    }
}

fn is_current(current: Option<&str>, branch: &str) -> (r: bool)
    ensures
        r == (opt_str(current) == Some(branch@)),
{
    match current {
        Some(c) => same_str(c, branch),
        None => false,
    }
}

/// The comparison ref the branch scope preselects. `branches` comes from
/// `ListBranches` with the repo's default branch first — but a repo with no
/// `origin/HEAD` falls back to the *checked-out* branch there, and comparing a
/// branch with itself is useless; prefer `main`/`master` in that case.
pub fn default_base_ref(branches: &Vec<String>, current: Option<&str>) -> (r: Option<String>)
    ensures
        opt_text(r) == base_ref_of(texts(branches@), opt_str(current)),
{
    let ghost names = texts(branches@);
    assert(names.len() == branches@.len());
    if branches.len() == 0 {
        return None;
    }
    assert(names[0] == branches@[0]@);
    if !is_current(current, branches[0].as_str()) {
        return Some(branches[0].clone());
    }
    if lists(branches, "main") {
        return Some("main".to_owned());
    }
    if lists(branches, "master") {
        return Some("master".to_owned());
    }
    let ghost cur = opt_str(current);
    let ghost pred = |i: int| cur != Some(names[i]);
    for i in 0..branches.len()
        invariant
            names == texts(branches@),
            cur == opt_str(current),
            pred == (|i: int| cur != Some(names[i])),
            first_where(i as nat, pred) is None,
            branches@.len() > 0,
            cur == Some(names[0]),
            !names.contains("main"@),
            !names.contains("master"@),
    {
        if !is_current(current, branches[i].as_str()) {
            proof {
                lemma_first_found(names.len(), pred, i as int);
            }
            return Some(branches[i].clone());
        }
    }
    Some(branches[0].clone())
}

pub open spec fn clean_text(scope: DiffScope, base: Option<Seq<char>>) -> Seq<char> {
    match scope {
        DiffScope::WorkingTree => "No uncommitted changes"@,
        DiffScope::Branch => match base {
            Some(base) => "No changes vs "@ + base,
            None => "No branch changes"@,
        },
        DiffScope::LatestTurn => "No changes this turn"@,
        DiffScope::History => "No commits found"@,
        DiffScope::Commit => "Empty commit"@,
    }
}

/// Empty-state copy per scope.
pub fn clean_message(scope: DiffScope, base: Option<&str>) -> (r: String)
    ensures
        r@ == clean_text(scope, opt_str(base)),
{
    match scope {
        DiffScope::WorkingTree => "No uncommitted changes".to_owned(),
        DiffScope::Branch => match base {
            Some(base) => {
                let mut r = "No changes vs ".to_owned();
                r.push_str(base);
                r
            },
            None => "No branch changes".to_owned(),
        },
        DiffScope::LatestTurn => "No changes this turn".to_owned(),
        DiffScope::History => "No commits found".to_owned(),
        DiffScope::Commit => "Empty commit".to_owned(),
    }
}

// ---------------------------------------------------------------------------
// Watch frames
// ---------------------------------------------------------------------------

/// A decoded `WatchCheckoutDiffs` frame.
pub enum DiffFrame {
    /// A full list: it replaces what is there.
    All(Vec<CheckoutDiff>),
    /// One diff: it takes its checkout's place, or joins the others.
    One(CheckoutDiff),
    /// A frame that is neither.
    Malformed,
}

/// The diffs after a frame.
pub open spec fn diffs_after(diffs: Seq<CheckoutModel>, frame: DiffFrame) -> Seq<CheckoutModel> {
    match frame {
        DiffFrame::All(all) => checkout_models(all@),
        DiffFrame::One(one) => match first_where(
            diffs.len(),
            |i: int| diffs[i].checkout_id == one@.checkout_id,
        ) {
            Some(i) => diffs.update(i, one@),
            None => diffs.push(one@),
        },
        DiffFrame::Malformed => diffs,
    }
}

/// Fold a `WatchCheckoutDiffs` frame into the diff set. Accepts either a full
/// list (replace) or a single `CheckoutDiff` (upsert by checkout id) — the
/// contract streams `CheckoutDiff` items, but list frames cost nothing to
/// support. Returns whether anything changed.
pub fn apply_diff_frame(diffs: &mut Vec<CheckoutDiff>, frame: DiffFrame) -> (changed: bool)
    ensures
        checkout_models(final(diffs)@) == diffs_after(checkout_models(old(diffs)@), frame),
        changed == (checkout_models(final(diffs)@) != checkout_models(old(diffs)@)),
{
    let ghost before = checkout_models(diffs@);
    match frame {
        DiffFrame::All(all) => {
            if same_diffs(diffs, &all) {
                return false;
            }
            *diffs = all;
            true
        },
        DiffFrame::One(one) => {
            proof {
                crate::search::lemma_first_where(
                    before.len(),
                    |i: int| before[i].checkout_id == one@.checkout_id,
                );
            }
            match find_checkout(diffs.as_slice(), one.checkout_id.as_str()) {
                Some(i) => {
                    if diffs[i].same(&one) {
                        assert(before.update(i as int, one@) =~= before);
                        return false;
                    }
                    diffs[i] = one;
                    assert(checkout_models(diffs@) =~= before.update(i as int, one@));
                    assert(before[i as int] != checkout_models(diffs@)[i as int]);
                    true
                },
                None => {
                    diffs.push(one);
                    assert(checkout_models(diffs@) =~= before.push(one@));
                    assert(before.len() != checkout_models(diffs@).len());
                    true
                },
            }
        },
        DiffFrame::Malformed => false,
    }
}

/// After a frame for one diff, the set holds that diff, and every other checkout's diff is as it
/// was.
pub proof fn law_single_frame_upserts(diffs: Seq<CheckoutModel>, one: CheckoutDiff)
    ensures
        diffs_after(diffs, DiffFrame::One(one)).contains(one@),
        forall|i: int|
            0 <= i < diffs.len() && (#[trigger] diffs[i]).checkout_id != one@.checkout_id
                ==> diffs_after(diffs, DiffFrame::One(one))[i] == diffs[i],
        diffs_after(diffs, DiffFrame::One(one)).len() <= diffs.len() + 1,
{
    let pred = |i: int| diffs[i].checkout_id == one@.checkout_id;
    crate::search::lemma_first_where(diffs.len(), pred);
    let after = diffs_after(diffs, DiffFrame::One(one));
    match first_where(diffs.len(), pred) {
        Some(i) => {
            assert(after[i] == one@);
        },
        None => {
            assert(after[diffs.len() as int] == one@);
        },
    }
}

/// The diff that is shown for a chat is the first that has the chat's checkout. Only where none has
/// it is it the first of the chat's device and directory, and only where there is none of those the
/// first of its directory. Nothing is shown only where none of these is there.
pub proof fn law_a_chat_shows_its_own_diff(diffs: Seq<CheckoutModel>, chat: Chat)
    ensures
        match resolved_at(diffs, chat) {
            Some(i) => {
                &&& 0 <= i < diffs.len()
                &&& has_checkout(diffs[i], chat) || {
                    &&& forall|j: int| 0 <= j < diffs.len() ==> !has_checkout(#[trigger] diffs[j], chat)
                    &&& chat.cwd matches Some(cwd) && diffs[i].cwd == cwd@
                    &&& diffs[i].device_id == chat.device_id@ || forall|j: int|
                        0 <= j < diffs.len() && (#[trigger] diffs[j]).device_id == chat.device_id@
                            ==> diffs[j].cwd != (chat.cwd->0)@
                }
                &&& forall|j: int|
                    0 <= j < i ==> {
                        &&& !has_checkout(#[trigger] diffs[j], chat)
                        &&& !has_checkout(diffs[i], chat) && chat.cwd is Some && diffs[j].cwd == (
                        chat.cwd->0)@ ==> diffs[i].device_id == chat.device_id@
                            && diffs[j].device_id != chat.device_id@
                    }
            },
            None => forall|j: int|
                0 <= j < diffs.len() ==> {
                    &&& !has_checkout(#[trigger] diffs[j], chat)
                    &&& chat.cwd is Some ==> diffs[j].cwd != (chat.cwd->0)@
                },
        },
{
    let n = diffs.len();
    if let Some(id) = opt_text(chat.checkout_id) {
        let own = |i: int| diffs[i].checkout_id == id;
        lemma_first_where(n, own);
        assert forall|j: int| 0 <= j < n implies own(j) == has_checkout(#[trigger] diffs[j], chat) by {}
    }
    if let Some(cwd) = opt_text(chat.cwd) {
        let near = |i: int| diffs[i].device_id == chat.device_id@ && diffs[i].cwd == cwd;
        let same = |i: int| diffs[i].cwd == cwd;
        lemma_first_where(n, near);
        lemma_first_where(n, same);
        assert forall|j: int| 0 <= j < n implies near(j) == ((#[trigger] diffs[j]).device_id
            == chat.device_id@ && diffs[j].cwd == cwd) && same(j) == (diffs[j].cwd == cwd) by {}
    }
}

/// The diff is of the checkout that the chat works in.
pub open spec fn has_checkout(diff: CheckoutModel, chat: Chat) -> bool {
    chat.checkout_id matches Some(id) && diff.checkout_id == id@
}

/// A tree counts as clean only where its diff is there, lists no file, and its patch holds nothing
/// but blanks.
pub proof fn law_clean_means_nothing_changed(diff: Option<CheckoutModel>)
    ensures
        phase_of(diff) == DiffPhase::Preparing <==> diff is None,
        phase_of(diff) == DiffPhase::Clean <==> diff is Some && diff->0.files.len() == 0 && (forall|
            i: int,
        |
            0 <= i < diff->0.patch.len() ==> is_space(#[trigger] diff->0.patch[i])),
{
    if let Some(diff) = diff {
        let (a, b) = law_trimming_takes_the_blanks_around(diff.patch);
        if a < b {
            assert(!is_space(diff.patch[a]));
        }
    }
}

/// The preselected base is one of the branches: the first, unless that is the one checked out. It is
/// the one checked out only where that is `main` or `master`, or where there is no other.
pub proof fn law_branches_are_compared_with_another(
    branches: Seq<Seq<char>>,
    current: Option<Seq<char>>,
)
    ensures
        base_ref_of(branches, current) is None <==> branches.len() == 0,
        branches.len() > 0 ==> branches.contains(base_ref_of(branches, current)->0),
        branches.len() > 0 && current != Some(branches[0]) ==> base_ref_of(branches, current)
            == Some(branches[0]),
        branches.len() > 0 && base_ref_of(branches, current) == current ==> current
            == Some("main"@) || current == Some("master"@) || forall|i: int|
            0 <= i < branches.len() ==> current == Some(#[trigger] branches[i]),
        branches.len() > 0 && current == Some(branches[0]) && branches.contains("main"@)
            ==> base_ref_of(branches, current) == Some("main"@),
        branches.len() > 0 && current == Some(branches[0]) && !branches.contains("main"@)
            && branches.contains("master"@) ==> base_ref_of(branches, current) == Some("master"@),
        branches.len() > 0 && current == Some(branches[0]) && !branches.contains("main"@)
            && !branches.contains("master"@) ==> forall|j: int|
            0 <= j < branches.len() && current != Some(#[trigger] branches[j]) ==> exists|i: int|
                0 <= i <= j && #[trigger] branches[i] == base_ref_of(branches, current)->0
                    && current != Some(branches[i]),
{
    if branches.len() > 0 {
        assert(branches.contains(branches[0]));
        let other = |i: int| current != Some(branches[i]);
        lemma_first_where(branches.len(), other);
        assert forall|j: int| 0 <= j < branches.len() implies other(j) == (current != Some(
            #[trigger] branches[j],
        )) by {}
    }
}

/// A full list takes the place of what was there, and what cannot be read changes nothing. A single
/// diff takes the place of its checkout's, or comes last.
pub proof fn law_frames_replace_what_they_name(
    diffs: Seq<CheckoutModel>,
    all: Vec<CheckoutDiff>,
    one: CheckoutDiff,
)
    ensures
        diffs_after(diffs, DiffFrame::All(all)) == checkout_models(all@),
        diffs_after(diffs, DiffFrame::Malformed) == diffs,
        (forall|j: int|
            0 <= j < diffs.len() ==> (#[trigger] diffs[j]).checkout_id != one@.checkout_id)
            ==> diffs_after(diffs, DiffFrame::One(one)) == diffs.push(one@),
        forall|i: int|
            0 <= i < diffs.len() && (#[trigger] diffs[i]).checkout_id == one@.checkout_id && (forall|
                j: int,
            |
                0 <= j < i ==> (#[trigger] diffs[j]).checkout_id != one@.checkout_id)
                ==> diffs_after(diffs, DiffFrame::One(one)) == diffs.update(i, one@),
{
    let pred = |i: int| diffs[i].checkout_id == one@.checkout_id;
    lemma_first_where(diffs.len(), pred);
    assert forall|i: int|
        0 <= i < diffs.len() && (#[trigger] diffs[i]).checkout_id == one@.checkout_id && (forall|
            j: int,
        |
            0 <= j < i ==> (#[trigger] diffs[j]).checkout_id
                != one@.checkout_id) implies diffs_after(diffs, DiffFrame::One(one))
        == diffs.update(i, one@) by {
        assert(pred(i));
        let at = first_where(diffs.len(), pred)->0;
        assert(diffs[at].checkout_id == one@.checkout_id);
        assert(at == i);
    }
}

/// A header says how many files changed, and branch changes name the base they are compared with.
pub proof fn law_headers_count_the_files(scope: DiffScope, count: nat, base: Option<Seq<char>>)
    ensures
        scope != DiffScope::History ==> scope_text(scope, count, base).take(
            decimal(count).len() as int,
        ) == decimal(count),
        scope == DiffScope::Branch && base is Some ==> scope_text(scope, count, base)
            == scope_text(scope, count, None) + " vs "@ + base->0 && clean_text(scope, base)
            == "No changes vs "@ + base->0,
{
    let text = scope_text(scope, count, base);
    let n = decimal(count).len() as int;
    if scope != DiffScope::History {
        if scope == DiffScope::WorkingTree && count == 1 {
            reveal_strlit("1 Uncommitted change");
            assert(decimal(1) =~= seq!['1']) by {
                assert(crate::text::digit(1) == '1');
            }
            assert(text.take(n) =~= decimal(count));
        } else {
            assert(text.take(n) =~= decimal(count));
        }
    }
}

/// Files and changes are counted, and a single one as one.
pub proof fn law_changes_are_counted(count: nat)
    ensures
        count != 1 ==> uncommitted_text(count) == decimal(count) + " Uncommitted changes"@,
        count == 1 ==> uncommitted_text(count) == decimal(count) + " Uncommitted change"@,
        count != 1 ==> changed_files(count) == decimal(count) + " Changed files"@,
        count == 1 ==> changed_files(count) == decimal(count) + " Changed file"@,
{
    reveal_strlit(" Changed ");
    reveal_strlit("file");
    reveal_strlit("files");
    reveal_strlit(" Changed file");
    reveal_strlit(" Changed files");
    assert(count != 1 ==> changed_files(count) =~= decimal(count) + " Changed files"@);
    assert(count == 1 ==> changed_files(count) =~= decimal(count) + " Changed file"@);
    if count == 1 {
        reveal_strlit("1 Uncommitted change");
        reveal_strlit(" Uncommitted change");
        assert(crate::text::digit(1) == '1');
        assert(uncommitted_text(count) =~= decimal(count) + " Uncommitted change"@);
    }
}

} // verus!
