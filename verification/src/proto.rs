//! The wire types that the panes read.

use vstd::prelude::*;

use crate::search::{copy_opt, same_opt};
use crate::text::{opt_text, same_str};

verus! {

/// A chat row, as far as the changes pane reads it.
#[derive(Debug, Clone, PartialEq, Eq)]
pub struct Chat {
    pub id: String,
    pub device_id: String,
    pub cwd: Option<String>,
    pub branch: Option<String>,
    pub checkout_id: Option<String>,
}

/// One file of a checkout's diff, without its lines.
#[derive(Debug, Clone, PartialEq, Eq)]
pub struct DiffFileSummary {
    pub path: String,
    pub old_path: Option<String>,
    pub status: String,
    pub additions: u32,
    pub deletions: u32,
    pub binary: bool,
}

/// A checkout's diff.
#[derive(Debug, Clone, PartialEq, Eq)]
pub struct CheckoutDiff {
    pub checkout_id: String,
    pub device_id: String,
    pub cwd: String,
    pub patch: String,
    pub files: Vec<DiffFileSummary>,
    pub additions: u32,
    pub deletions: u32,
    pub truncated: bool,
    pub checksum: String,
    /// Milliseconds since the epoch.
    pub updated_at: i64,
}

/// What a [`DiffFileSummary`] says.
#[verifier::ext_equal]
pub struct SummaryModel {
    pub path: Seq<char>,
    pub old_path: Option<Seq<char>>,
    pub status: Seq<char>,
    pub additions: u32,
    pub deletions: u32,
    pub binary: bool,
}

/// What a [`CheckoutDiff`] says.
#[verifier::ext_equal]
pub struct CheckoutModel {
    pub checkout_id: Seq<char>,
    pub device_id: Seq<char>,
    pub cwd: Seq<char>,
    pub patch: Seq<char>,
    pub files: Seq<SummaryModel>,
    pub additions: u32,
    pub deletions: u32,
    pub truncated: bool,
    pub checksum: Seq<char>,
    pub updated_at: i64,
}

impl View for DiffFileSummary {
    type V = SummaryModel;

    open spec fn view(&self) -> SummaryModel {
        SummaryModel {
            path: self.path@,
            old_path: opt_text(self.old_path),
            status: self.status@,
            additions: self.additions,
            deletions: self.deletions,
            binary: self.binary,
        }
    }
}

pub open spec fn summary_models(v: Seq<DiffFileSummary>) -> Seq<SummaryModel> {
    v.map_values(|f: DiffFileSummary| f@)
}

impl View for CheckoutDiff {
    type V = CheckoutModel;

    open spec fn view(&self) -> CheckoutModel {
        CheckoutModel {
            checkout_id: self.checkout_id@,
            device_id: self.device_id@,
            cwd: self.cwd@,
            patch: self.patch@,
            files: summary_models(self.files@),
            additions: self.additions,
            deletions: self.deletions,
            truncated: self.truncated,
            checksum: self.checksum@,
            updated_at: self.updated_at,
        }
    }
}

pub open spec fn checkout_models(v: Seq<CheckoutDiff>) -> Seq<CheckoutModel> {
    v.map_values(|d: CheckoutDiff| d@)
}

impl DiffFileSummary {
    pub fn same(&self, other: &Self) -> (r: bool)
        ensures
            r == (self@ == other@),
    {
        same_str(self.path.as_str(), other.path.as_str()) && same_opt(
            &self.old_path,
            &other.old_path,
        ) && same_str(self.status.as_str(), other.status.as_str()) && self.additions
            == other.additions && self.deletions == other.deletions && self.binary == other.binary
    }

    pub fn copy(&self) -> (r: Self)
        ensures
            r@ == self@,
    {
        DiffFileSummary {
            path: self.path.clone(),
            old_path: copy_opt(&self.old_path),
            status: self.status.clone(),
            additions: self.additions,
            deletions: self.deletions,
            binary: self.binary,
        }
    }
}

fn same_files(a: &Vec<DiffFileSummary>, b: &Vec<DiffFileSummary>) -> (r: bool)
    ensures
        r == (summary_models(a@) == summary_models(b@)),
{
    if a.len() != b.len() {
        assert(summary_models(a@).len() != summary_models(b@).len());
        return false;
    }
    for i in 0..a.len()
        invariant
            a@.len() == b@.len(),
            forall|j: int| 0 <= j < i ==> #[trigger] summary_models(a@)[j] == summary_models(b@)[j],
    {
        if !a[i].same(&b[i]) {
            assert(summary_models(a@)[i as int] != summary_models(b@)[i as int]);
            return false;
        }
    }
    assert(summary_models(a@) =~= summary_models(b@));
    true
}

impl CheckoutDiff {
    pub fn same(&self, other: &Self) -> (r: bool)
        ensures
            r == (self@ == other@),
    {
        same_str(self.checkout_id.as_str(), other.checkout_id.as_str()) && same_str(
            self.device_id.as_str(),
            other.device_id.as_str(),
        ) && same_str(self.cwd.as_str(), other.cwd.as_str()) && same_str(
            self.patch.as_str(),
            other.patch.as_str(),
        ) && same_files(&self.files, &other.files) && self.additions == other.additions
            && self.deletions == other.deletions && self.truncated == other.truncated && same_str(
            self.checksum.as_str(),
            other.checksum.as_str(),
        ) && self.updated_at == other.updated_at
    }

    pub fn copy(&self) -> (r: Self)
        ensures
            r@ == self@,
    {
        let mut files: Vec<DiffFileSummary> = Vec::new();
        for i in 0..self.files.len()
            invariant
                summary_models(files@) =~= summary_models(self.files@).take(i as int),
        {
            let file = self.files[i].copy();
            let ghost before = files@;
            files.push(file);
            assert(summary_models(files@) =~= summary_models(before).push(file@));
        }
        assert(summary_models(self.files@).take(self.files@.len() as int) =~= summary_models(
            self.files@,
        ));
        CheckoutDiff {
            checkout_id: self.checkout_id.clone(),
            device_id: self.device_id.clone(),
            cwd: self.cwd.clone(),
            patch: self.patch.clone(),
            files,
            additions: self.additions,
            deletions: self.deletions,
            truncated: self.truncated,
            checksum: self.checksum.clone(),
            updated_at: self.updated_at,
        }
    }
}

/// Whether two lists of diffs say the same.
pub fn same_diffs(a: &Vec<CheckoutDiff>, b: &Vec<CheckoutDiff>) -> (r: bool)
    ensures
        r == (checkout_models(a@) == checkout_models(b@)),
{
    if a.len() != b.len() {
        assert(checkout_models(a@).len() != checkout_models(b@).len());
        return false;
    }
    for i in 0..a.len()
        invariant
            a@.len() == b@.len(),
            forall|j: int| 0 <= j < i ==> #[trigger] checkout_models(a@)[j] == checkout_models(b@)[j],
    {
        if !a[i].same(&b[i]) {
            assert(checkout_models(a@)[i as int] != checkout_models(b@)[i as int]);
            return false;
        }
    }
    assert(checkout_models(a@) =~= checkout_models(b@));
    true
}

#[derive(Debug, Clone, Copy, PartialEq, Eq, Structural)]
pub enum GitHistoryRefKind {
    Branch,
    Remote,
    Tag,
}

#[derive(Debug, Clone, PartialEq, Eq)]
pub struct GitHistoryRef {
    pub kind: GitHistoryRefKind,
    pub label: String,
}

/// A commit row of the history pane.
#[derive(Debug, Clone, PartialEq, Eq)]
pub struct GitHistoryCommit {
    pub sha: String,
    pub parent_shas: Vec<String>,
    pub subject: String,
    pub author_name: String,
    pub author_email: String,
    pub authored_at: String,
    pub refs: Vec<GitHistoryRef>,
}

} // verus!
