//! The lane graph of a commit history.
//!
//! Commits arrive child-before-parent from `git log --topo-order`. Active
//! lanes point at the parent commit that will eventually resolve each path.

use vstd::prelude::*;

use crate::proto::GitHistoryCommit;
use crate::text::{opt_str, same_str, texts};

verus! {

#[derive(Debug, Clone, Copy, PartialEq, Eq, Structural)]
pub enum SegmentShape {
    Through,
    Incoming,
    Outgoing,
}

#[derive(Debug, Clone, Copy, PartialEq, Eq, Structural)]
pub struct GraphSegment {
    pub from_lane: usize,
    pub to_lane: usize,
    pub color_id: usize,
    pub shape: SegmentShape,
}

#[derive(Debug, Clone, PartialEq, Eq)]
pub struct GraphRow {
    pub sha: String,
    pub node_lane: usize,
    pub node_color_id: usize,
    pub segments: Vec<GraphSegment>,
    pub is_head: bool,
}

#[derive(Debug, Clone, PartialEq, Eq)]
pub struct GraphLayout {
    pub rows: Vec<GraphRow>,
    pub max_lane_count: usize,
}

/// A lane that waits for a commit.
struct ActiveLane {
    id: usize,
    color_id: usize,
    target_sha: String,
}

/// What a lane says.
#[verifier::ext_equal]
pub struct Lane {
    pub id: usize,
    pub color_id: usize,
    pub target: Seq<char>,
}

/// What a [`GraphRow`] says.
#[verifier::ext_equal]
pub struct RowModel {
    pub sha: Seq<char>,
    pub node_lane: usize,
    pub node_color_id: usize,
    pub segments: Seq<GraphSegment>,
    pub is_head: bool,
}

/// A commit, as far as the graph reads it.
#[verifier::ext_equal]
pub struct CommitModel {
    pub sha: Seq<char>,
    pub parents: Seq<Seq<char>>,
}

impl View for GraphRow {
    type V = RowModel;

    open spec fn view(&self) -> RowModel {
        RowModel {
            sha: self.sha@,
            node_lane: self.node_lane,
            node_color_id: self.node_color_id,
            segments: self.segments@,
            is_head: self.is_head,
        }
    }
}

impl View for ActiveLane {
    type V = Lane;

    closed spec fn view(&self) -> Lane {
        Lane { id: self.id, color_id: self.color_id, target: self.target_sha@ }
    }
}

pub open spec fn row_models(v: Seq<GraphRow>) -> Seq<RowModel> {
    v.map_values(|r: GraphRow| r@)
}

spec fn lane_models(v: Seq<ActiveLane>) -> Seq<Lane> {
    v.map_values(|l: ActiveLane| l@)
}

pub open spec fn commit_model(c: GitHistoryCommit) -> CommitModel {
    CommitModel { sha: c.sha@, parents: texts(c.parent_shas@) }
}

pub open spec fn commit_models(v: Seq<GitHistoryCommit>) -> Seq<CommitModel> {
    v.map_values(|c: GitHistoryCommit| commit_model(c))
}

// ---------------------------------------------------------------------------
// One commit
// ---------------------------------------------------------------------------

/// The identifier after `n`; identifiers wrap around.
pub open spec fn next_id(n: usize) -> usize {
    if n == usize::MAX {
        0
    } else {
        (n + 1) as usize
    }
}

fn bump(n: usize) -> (r: usize)
    ensures
        r == next_id(n),
{
    if n == usize::MAX {
        0
    } else {
        n + 1
    }
}

pub open spec fn min(a: int, b: int) -> int {
    if a <= b {
        a
    } else {
        b
    }
}

pub open spec fn max(a: int, b: int) -> int {
    if a >= b {
        a
    } else {
        b
    }
}

/// The index of the first lane with this id at or after `from`, or the number of lanes.
pub open spec fn lane_from(lanes: Seq<Lane>, id: usize, from: int) -> int
    decreases lanes.len() - from,
{
    if from >= lanes.len() {
        lanes.len() as int
    } else if lanes[from].id == id {
        from
    } else {
        lane_from(lanes, id, from + 1)
    }
}

/// The index of the first lane that waits for `sha` at or after `from`, or the number of lanes.
pub open spec fn waiting_from(lanes: Seq<Lane>, sha: Seq<char>, from: int) -> int
    decreases lanes.len() - from,
{
    if from >= lanes.len() {
        lanes.len() as int
    } else if lanes[from].target == sha {
        from
    } else {
        waiting_from(lanes, sha, from + 1)
    }
}

/// The lanes that wait for another commit than `sha`.
pub open spec fn other_lanes(lanes: Seq<Lane>, sha: Seq<char>) -> Seq<Lane>
    decreases lanes.len(),
{
    if lanes.len() == 0 {
        Seq::empty()
    } else {
        let before = other_lanes(lanes.drop_last(), sha);
        if lanes.last().target == sha {
            before
        } else {
            before.push(lanes.last())
        }
    }
}

/// What a commit's parents make of the lanes, while they are being placed.
#[verifier::ext_equal]
pub struct Branching {
    pub lanes: Seq<Lane>,
    pub next_lane: usize,
    pub next_color: usize,
    /// How many lanes were opened beside the first parent's.
    pub opened: nat,
    /// The lanes that leave the commit: their ids and colors.
    pub leaving: Seq<(usize, usize)>,
}

/// The first parent continues the commit's own lane, or opens one where the commit had none.
pub open spec fn with_first_parent(
    others: Seq<Lane>,
    node_lane: int,
    id: usize,
    color: usize,
    parent: Seq<char>,
    next_lane: usize,
    next_color: usize,
) -> Branching {
    Branching {
        lanes: others.insert(
            min(node_lane, others.len() as int),
            Lane { id, color_id: color, target: parent },
        ),
        next_lane,
        next_color,
        opened: 0,
        leaving: seq![(id, color)],
    }
}

/// A further parent joins the lane that waits for it already, or opens one to the right of the
/// first parent's lane and of those opened before it.
pub open spec fn with_parent(b: Branching, primary: usize, parent: Seq<char>) -> Branching {
    let at = waiting_from(b.lanes, parent, 0);
    if at < b.lanes.len() {
        Branching { leaving: b.leaving.push((b.lanes[at].id, b.lanes[at].color_id)), ..b }
    } else {
        let lane = Lane { id: b.next_lane, color_id: b.next_color, target: parent };
        let place = min(lane_from(b.lanes, primary, 0) + 1 + b.opened, b.lanes.len() as int);
        Branching {
            lanes: b.lanes.insert(place, lane),
            next_lane: next_id(b.next_lane),
            next_color: next_id(b.next_color),
            opened: b.opened + 1,
            leaving: b.leaving.push((lane.id, lane.color_id)),
        }
    }
}

/// The lanes after the parents from the second up to the `n`th.
pub open spec fn with_parents(start: Branching, primary: usize, parents: Seq<Seq<char>>, n: nat) -> Branching
    decreases n,
{
    if n <= 1 {
        start
    } else {
        with_parent(with_parents(start, primary, parents, (n - 1) as nat), primary, parents[n - 1])
    }
}

/// The segments of the first `n` lanes that pass the commit by.
pub open spec fn through_segments(lanes: Seq<Lane>, next: Seq<Lane>, sha: Seq<char>, n: nat) -> Seq<
    GraphSegment,
>
    decreases n,
{
    if n == 0 {
        Seq::empty()
    } else {
        let before = through_segments(lanes, next, sha, (n - 1) as nat);
        let lane = lanes[n - 1];
        if lane.target == sha {
            before
        } else {
            before.push(
                GraphSegment {
                    from_lane: (n - 1) as usize,
                    to_lane: lane_from(next, lane.id, 0) as usize,
                    color_id: lane.color_id,
                    shape: SegmentShape::Through,
                },
            )
        }
    }
}

/// The segments of those of the first `n` lanes that end at the commit.
pub open spec fn incoming_segments(lanes: Seq<Lane>, node_lane: int, sha: Seq<char>, n: nat) -> Seq<
    GraphSegment,
>
    decreases n,
{
    if n == 0 {
        Seq::empty()
    } else {
        let before = incoming_segments(lanes, node_lane, sha, (n - 1) as nat);
        let lane = lanes[n - 1];
        if lane.target == sha {
            before.push(
                GraphSegment {
                    from_lane: (n - 1) as usize,
                    to_lane: node_lane as usize,
                    color_id: lane.color_id,
                    shape: SegmentShape::Incoming,
                },
            )
        } else {
            before
        }
    }
}

/// The segments of the lanes that leave the commit.
pub open spec fn outgoing_segments(
    leaving: Seq<(usize, usize)>,
    next: Seq<Lane>,
    node_lane: int,
) -> Seq<GraphSegment> {
    leaving.map_values(
        |l: (usize, usize)|
            GraphSegment {
                from_lane: node_lane as usize,
                to_lane: lane_from(next, l.0, 0) as usize,
                color_id: l.1,
                shape: SegmentShape::Outgoing,
            },
    )
}

/// The lanes after some commits, and the identifiers that come next.
#[verifier::ext_equal]
pub struct Lanes {
    pub lanes: Seq<Lane>,
    pub next_lane: usize,
    pub next_color: usize,
}

/// The graph after some commits.
#[verifier::ext_equal]
pub struct GraphState {
    pub at: Lanes,
    pub rows: Seq<RowModel>,
    pub max_lanes: int,
}

/// The lane of a commit's node: the first one that waits for it, or a new one at the right.
pub open spec fn node_lane(lanes: Seq<Lane>, sha: Seq<char>) -> int {
    waiting_from(lanes, sha, 0)
}

pub open spec fn node_color(st: Lanes, sha: Seq<char>) -> usize {
    let at = node_lane(st.lanes, sha);
    if at < st.lanes.len() {
        st.lanes[at].color_id
    } else {
        st.next_color
    }
}

/// The lanes after a commit.
pub open spec fn branching(st: Lanes, c: CommitModel) -> Branching {
    let at = node_lane(st.lanes, c.sha);
    let found = at < st.lanes.len();
    let color = node_color(st, c.sha);
    let next_color = if found {
        st.next_color
    } else {
        next_id(st.next_color)
    };
    let others = other_lanes(st.lanes, c.sha);
    if c.parents.len() == 0 {
        Branching {
            lanes: others,
            next_lane: st.next_lane,
            next_color,
            opened: 0,
            leaving: Seq::empty(),
        }
    } else {
        let id = if found {
            st.lanes[at].id
        } else {
            st.next_lane
        };
        let next_lane = if found {
            st.next_lane
        } else {
            next_id(st.next_lane)
        };
        with_parents(
            with_first_parent(others, at, id, color, c.parents[0], next_lane, next_color),
            id,
            c.parents,
            c.parents.len(),
        )
    }
}

/// The row of a commit.
pub open spec fn row_of(st: Lanes, c: CommitModel, head: Option<Seq<char>>) -> RowModel {
    let at = node_lane(st.lanes, c.sha);
    let b = branching(st, c);
    RowModel {
        sha: c.sha,
        node_lane: at as usize,
        node_color_id: node_color(st, c.sha),
        segments: through_segments(st.lanes, b.lanes, c.sha, st.lanes.len()) + incoming_segments(
            st.lanes,
            at,
            c.sha,
            st.lanes.len(),
        ) + outgoing_segments(b.leaving, b.lanes, at),
        is_head: head == Some(c.sha),
    }
}

/// One more than `n`, as far as a `usize` goes.
pub open spec fn one_more(n: int) -> int {
    min(n + 1, usize::MAX as int)
}

/// The graph after one more commit.
pub open spec fn after_commit(st: GraphState, c: CommitModel, head: Option<Seq<char>>) -> GraphState {
    let b = branching(st.at, c);
    GraphState {
        at: Lanes { lanes: b.lanes, next_lane: b.next_lane, next_color: b.next_color },
        rows: st.rows.push(row_of(st.at, c, head)),
        max_lanes: max(
            max(max(st.max_lanes, st.at.lanes.len() as int), b.lanes.len() as int),
            one_more(node_lane(st.at.lanes, c.sha)),
        ),
    }
}

/// The graph after the commits.
pub open spec fn after_commits(commits: Seq<CommitModel>, head: Option<Seq<char>>) -> GraphState
    decreases commits.len(),
{
    if commits.len() == 0 {
        GraphState {
            at: Lanes { lanes: Seq::empty(), next_lane: 0, next_color: 0 },
            rows: Seq::empty(),
            max_lanes: 0,
        }
    } else {
        after_commit(after_commits(commits.drop_last(), head), commits.last(), head)
    }
}

// ---------------------------------------------------------------------------
// The layout
// ---------------------------------------------------------------------------

proof fn lemma_lane_from(lanes: Seq<Lane>, id: usize, from: int)
    requires
        0 <= from <= lanes.len(),
    ensures
        from <= lane_from(lanes, id, from) <= lanes.len(),
        lane_from(lanes, id, from) < lanes.len() ==> lanes[lane_from(lanes, id, from)].id == id,
        forall|j: int| from <= j < lane_from(lanes, id, from) ==> (#[trigger] lanes[j]).id != id,
    decreases lanes.len() - from,
{
    if from < lanes.len() && lanes[from].id != id {
        lemma_lane_from(lanes, id, from + 1);
    }
}

proof fn lemma_waiting_from(lanes: Seq<Lane>, sha: Seq<char>, from: int)
    requires
        0 <= from <= lanes.len(),
    ensures
        from <= waiting_from(lanes, sha, from) <= lanes.len(),
        waiting_from(lanes, sha, from) < lanes.len() ==> lanes[waiting_from(
            lanes,
            sha,
            from,
        )].target == sha,
        forall|j: int|
            from <= j < waiting_from(lanes, sha, from) ==> (#[trigger] lanes[j]).target != sha,
    decreases lanes.len() - from,
{
    if from < lanes.len() && lanes[from].target != sha {
        lemma_waiting_from(lanes, sha, from + 1);
    }
}

fn lane_index(lanes: &Vec<ActiveLane>, id: usize) -> (r: usize)
    ensures
        r == lane_from(lane_models(lanes@), id, 0),
        r <= lanes@.len(),
{
    let ghost models = lane_models(lanes@);
    let mut i: usize = 0;
    while i < lanes.len()
        invariant
            models == lane_models(lanes@),
            i <= lanes@.len(),
            lane_from(models, id, 0) == lane_from(models, id, i as int),
        decreases lanes@.len() - i,
    {
        assert(models[i as int] == lanes@[i as int]@);
        if lanes[i].id == id {
            return i;
        }
        i += 1;
    }
    i
}

fn waiting_index(lanes: &Vec<ActiveLane>, sha: &str) -> (r: usize)
    ensures
        r == waiting_from(lane_models(lanes@), sha@, 0),
        r <= lanes@.len(),
{
    let ghost models = lane_models(lanes@);
    let mut i: usize = 0;
    while i < lanes.len()
        invariant
            models == lane_models(lanes@),
            i <= lanes@.len(),
            waiting_from(models, sha@, 0) == waiting_from(models, sha@, i as int),
        decreases lanes@.len() - i,
    {
        assert(models[i as int] == lanes@[i as int]@);
        if same_str(lanes[i].target_sha.as_str(), sha) {
            return i;
        }
        i += 1;
    }
    i
}

fn remaining(lanes: &Vec<ActiveLane>, sha: &str) -> (r: Vec<ActiveLane>)
    ensures
        lane_models(r@) == other_lanes(lane_models(lanes@), sha@),
{
    let ghost models = lane_models(lanes@);
    let mut r: Vec<ActiveLane> = Vec::new();
    assert(lane_models(r@) =~= Seq::empty());
    for i in 0..lanes.len()
        invariant
            models == lane_models(lanes@),
            lane_models(r@) == other_lanes(models.take(i as int), sha@),
    {
        proof {
            assert(models.take(i + 1).drop_last() =~= models.take(i as int));
            assert(models.take(i + 1).last() == lanes@[i as int]@);
        }
        if !same_str(lanes[i].target_sha.as_str(), sha) {
            let lane = ActiveLane {
                id: lanes[i].id,
                color_id: lanes[i].color_id,
                target_sha: lanes[i].target_sha.clone(),
            };
            let ghost before = r@;
            r.push(lane);
            assert(lane_models(r@) =~= lane_models(before).push(lane@));
        }
    }
    assert(models.take(lanes@.len() as int) =~= models);
    r
}

fn insert_lane(lanes: &mut Vec<ActiveLane>, at: usize, lane: ActiveLane)
    requires
        at <= old(lanes)@.len(),
    ensures
        lane_models(final(lanes)@) == lane_models(old(lanes)@).insert(at as int, lane@),
{
    let ghost before = lanes@;
    lanes.insert(at, lane);
    assert(lane_models(lanes@) =~= lane_models(before).insert(at as int, lane@));
}

/// The lanes and identifiers while a commit's parents are being placed.
struct Placing {
    lanes: Vec<ActiveLane>,
    next_lane: usize,
    next_color: usize,
    opened: usize,
    leaving: Vec<(usize, usize)>,
}

impl View for Placing {
    type V = Branching;

    closed spec fn view(&self) -> Branching {
        Branching {
            lanes: lane_models(self.lanes@),
            next_lane: self.next_lane,
            next_color: self.next_color,
            opened: self.opened as nat,
            leaving: self.leaving@,
        }
    }
}

fn place_parent(p: &mut Placing, primary: usize, parent: &str)
    requires
        old(p).opened < usize::MAX,
    ensures
        final(p)@ == with_parent(old(p)@, primary, parent@),
        final(p).opened <= old(p).opened + 1,
{
    let ghost before = p@;
    let at = waiting_index(&p.lanes, parent);
    let count: usize = p.lanes.len();
    if at < count {
        assert(before.lanes[at as int] == p.lanes@[at as int]@);
        let existing = (p.lanes[at].id, p.lanes[at].color_id);
        p.leaving.push(existing);
        assert(p@ =~= with_parent(before, primary, parent@));
        return;
    }
    let id = p.next_lane;
    let color_id = p.next_color;
    let lane = ActiveLane { id, color_id, target_sha: parent.to_owned() };
    let beside = lane_index(&p.lanes, primary);
    let place: usize = if p.opened + 1 > count - beside {
        count
    } else {
        beside + (p.opened + 1)
    };
    insert_lane(&mut p.lanes, place, lane);
    p.next_lane = bump(id);
    p.next_color = bump(color_id);
    p.opened = p.opened + 1;
    p.leaving.push((id, color_id));
    assert(p@ =~= with_parent(before, primary, parent@));
}

/// A row's segments.
fn segments_of(
    lanes: &Vec<ActiveLane>,
    next: &Vec<ActiveLane>,
    leaving: &Vec<(usize, usize)>,
    node: usize,
    sha: &str,
) -> (r: Vec<GraphSegment>)
    ensures
        r@ == through_segments(
            lane_models(lanes@),
            lane_models(next@),
            sha@,
            lanes@.len(),
        ) + incoming_segments(lane_models(lanes@), node as int, sha@, lanes@.len())
            + outgoing_segments(leaving@, lane_models(next@), node as int),
{
    let ghost models = lane_models(lanes@);
    let ghost after = lane_models(next@);
    let mut r: Vec<GraphSegment> = Vec::new();
    for i in 0..lanes.len()
        invariant
            models == lane_models(lanes@),
            after == lane_models(next@),
            r@ == through_segments(models, after, sha@, i as nat),
    {
        assert(models[i as int] == lanes@[i as int]@);
        if !same_str(lanes[i].target_sha.as_str(), sha) {
            r.push(
                GraphSegment {
                    from_lane: i,
                    to_lane: lane_index(next, lanes[i].id),
                    color_id: lanes[i].color_id,
                    shape: SegmentShape::Through,
                },
            );
        }
    }
    let ghost first = r@;
    assert(r@ =~= first + incoming_segments(models, node as int, sha@, 0));
    for i in 0..lanes.len()
        invariant
            models == lane_models(lanes@),
            r@ == first + incoming_segments(models, node as int, sha@, i as nat),
    {
        assert(models[i as int] == lanes@[i as int]@);
        if same_str(lanes[i].target_sha.as_str(), sha) {
            r.push(
                GraphSegment {
                    from_lane: i,
                    to_lane: node,
                    color_id: lanes[i].color_id,
                    shape: SegmentShape::Incoming,
                },
            );
        }
        assert(r@ =~= first + incoming_segments(models, node as int, sha@, (i + 1) as nat));
    }
    let ghost second = r@;
    let ghost third = outgoing_segments(leaving@, after, node as int);
    assert(r@ =~= second + third.take(0));
    for i in 0..leaving.len()
        invariant
            after == lane_models(next@),
            third == outgoing_segments(leaving@, after, node as int),
            r@ == second + third.take(i as int),
    {
        let (id, color_id) = leaving[i];
        r.push(
            GraphSegment {
                from_lane: node,
                to_lane: lane_index(next, id),
                color_id,
                shape: SegmentShape::Outgoing,
            },
        );
        assert(r@ =~= second + third.take(i + 1));
    }
    assert(third.take(leaving@.len() as int) =~= third);
    r
}

fn larger(a: usize, b: usize) -> (r: usize)
    ensures
        r == max(a as int, b as int),
{
    if a >= b {
        a
    } else {
        b
    }
}

/// Place a commit: the lanes after it, and its row.
fn place_commit(
    lanes: &Vec<ActiveLane>,
    next_lane: usize,
    next_color: usize,
    commit: &GitHistoryCommit,
    head_sha: Option<&str>,
) -> (r: (Placing, GraphRow))
    ensures
        ({
            let st = Lanes { lanes: lane_models(lanes@), next_lane, next_color };
            &&& r.0@ == branching(st, commit_model(*commit))
            &&& r.1@ == row_of(st, commit_model(*commit), opt_str(head_sha))
        }),
{
    let ghost models = lane_models(lanes@);
    let ghost c = commit_model(*commit);
    let sha = commit.sha.as_str();
    let node = waiting_index(lanes, sha);
    let count: usize = lanes.len();
    let found = node < count;
    proof {
        if found {
            assert(models[node as int] == lanes@[node as int]@);
        }
    }
    let color = if found {
        lanes[node].color_id
    } else {
        next_color
    };
    let later_color = if found {
        next_color
    } else {
        bump(next_color)
    };
    let others = remaining(lanes, sha);
    let width: usize = others.len();
    assert(lane_models(others@).len() == width);
    let mut p = Placing {
        lanes: others,
        next_lane,
        next_color: later_color,
        opened: 0,
        leaving: Vec::new(),
    };
    let parents: usize = commit.parent_shas.len();
    assert(c.parents.len() == parents);
    if parents > 0 {
        let id = if found {
            lanes[node].id
        } else {
            next_lane
        };
        if !found {
            p.next_lane = bump(next_lane);
        }
        let place = if node <= width {
            node
        } else {
            width
        };
        let first = ActiveLane {
            id,
            color_id: color,
            target_sha: commit.parent_shas[0].clone(),
        };
        insert_lane(&mut p.lanes, place, first);
        p.leaving.push((id, color));
        let ghost start = with_first_parent(
            other_lanes(models, c.sha),
            node as int,
            id,
            color,
            c.parents[0],
            p.next_lane,
            later_color,
        );
        assert(p@ =~= start);
        for i in 1..parents
            invariant
                c == commit_model(*commit),
                parents == commit.parent_shas@.len(),
                p@ == with_parents(start, id, c.parents, i as nat),
                p.opened < i,
        {
            assert(c.parents[i as int] == commit.parent_shas@[i as int]@);
            place_parent(&mut p, id, commit.parent_shas[i].as_str());
        }
        proof {
            assert(p@ == with_parents(start, id, c.parents, c.parents.len()));
        }
    } else {
        assert(p@.leaving =~= Seq::empty());
    }
    let segments = segments_of(lanes, &p.lanes, &p.leaving, node, sha);
    let is_head = match head_sha {
        Some(head) => same_str(head, sha),
        None => false,
    };
    let row = GraphRow {
        sha: commit.sha.clone(),
        node_lane: node,
        node_color_id: color,
        segments,
        is_head,
    };
    proof {
        let st = Lanes { lanes: models, next_lane, next_color };
        assert(p@ =~= branching(st, c));
        assert(row@ =~= row_of(st, c, opt_str(head_sha)));
    }
    (p, row)
}

/// Lay out the graph of the commits.
pub fn layout_graph(commits: &Vec<GitHistoryCommit>, head_sha: Option<&str>) -> (r: GraphLayout)
    ensures
        ({
            let st = after_commits(commit_models(commits@), opt_str(head_sha));
            &&& row_models(r.rows@) == st.rows
            &&& r.max_lane_count == st.max_lanes
        }),
        r.rows@.len() == commits@.len(),
        forall|i: int|
            0 <= i < commits@.len() ==> (#[trigger] r.rows@[i]).sha@ == commits@[i].sha@
                && r.rows@[i].is_head == (opt_str(head_sha) == Some(commits@[i].sha@)),
{
    let ghost models = commit_models(commits@);
    let ghost head = opt_str(head_sha);
    let mut lanes: Vec<ActiveLane> = Vec::new();
    let mut next_lane: usize = 0;
    let mut next_color: usize = 0;
    let mut max_lane_count: usize = 0;
    let mut rows: Vec<GraphRow> = Vec::new();
    assert(lane_models(lanes@) =~= Seq::empty());
    assert(row_models(rows@) =~= Seq::empty());
    for i in 0..commits.len()
        invariant
            models == commit_models(commits@),
            head == opt_str(head_sha),
            ({
                let st = after_commits(models.take(i as int), head);
                &&& (Lanes { lanes: lane_models(lanes@), next_lane, next_color }) == st.at
                &&& max_lane_count == st.max_lanes
                &&& row_models(rows@) == st.rows
            }),
    {
        let ghost st = after_commits(models.take(i as int), head);
        let ghost c = models[i as int];
        proof {
            assert(models.take(i + 1).drop_last() =~= models.take(i as int));
            assert(models.take(i + 1).last() == c);
        }
        let before: usize = lanes.len();
        let (placed, row) = place_commit(&lanes, next_lane, next_color, &commits[i], head_sha);
        proof {
            assert(placed@ == branching(st.at, c));
            assert(row@ == row_of(st.at, c, head));
            lemma_waiting_from(st.at.lanes, c.sha, 0);
        }
        let wider: usize = if row.node_lane == usize::MAX {
            row.node_lane
        } else {
            row.node_lane + 1
        };
        max_lane_count = larger(
            larger(larger(max_lane_count, before), placed.lanes.len()),
            wider,
        );
        let ghost old_rows = rows@;
        rows.push(row);
        assert(row_models(rows@) =~= row_models(old_rows).push(row@));
        lanes = placed.lanes;
        next_lane = placed.next_lane;
        next_color = placed.next_color;
    }
    assert(models.take(commits@.len() as int) =~= models);
    proof {
        lemma_rows_prefix(models, head, 0);
        assert(row_models(rows@).len() == rows@.len());
        assert forall|i: int| 0 <= i < commits@.len() implies (#[trigger] rows@[i]).sha@
            == commits@[i].sha@ && rows@[i].is_head == (head == Some(commits@[i].sha@)) by {
            law_one_row_per_commit(models, head, i);
            assert(row_models(rows@)[i] == rows@[i]@);
            assert(models[i] == commit_model(commits@[i]));
        }
    }
    GraphLayout { rows, max_lane_count }
}

// ---------------------------------------------------------------------------
// What every layout satisfies
// ---------------------------------------------------------------------------

proof fn lemma_rows_prefix(commits: Seq<CommitModel>, head: Option<Seq<char>>, n: int)
    requires
        0 <= n <= commits.len(),
    ensures
        after_commits(commits, head).rows.len() == commits.len(),
        after_commits(commits.take(n), head).rows == after_commits(commits, head).rows.take(n),
    decreases commits.len(),
{
    let rows = after_commits(commits, head).rows;
    if commits.len() == 0 {
        assert(commits.take(n) =~= commits);
        assert(rows.take(n) =~= rows);
    } else {
        let front = commits.drop_last();
        lemma_rows_prefix(front, head, front.len() as int);
        if n == commits.len() {
            assert(commits.take(n) =~= commits);
            assert(rows.take(n) =~= rows);
        } else {
            lemma_rows_prefix(front, head, n);
            assert(front.take(n) =~= commits.take(n));
            assert(rows.take(n) =~= after_commits(front, head).rows.take(n));
        }
    }
}

/// Appending older commits preserves the layout of the loaded ones: the rows of the first `n`
/// commits are the first `n` rows.
pub proof fn law_prefix_layout_is_stable(
    commits: Seq<CommitModel>,
    head: Option<Seq<char>>,
    n: int,
)
    requires
        0 <= n <= commits.len(),
    ensures
        after_commits(commits.take(n), head).rows == after_commits(commits, head).rows.take(n),
{
    lemma_rows_prefix(commits, head, n);
}

/// There is one row per commit, in order; it names the commit and knows whether that is the head.
pub proof fn law_one_row_per_commit(commits: Seq<CommitModel>, head: Option<Seq<char>>, i: int)
    requires
        0 <= i < commits.len(),
    ensures
        after_commits(commits, head).rows.len() == commits.len(),
        after_commits(commits, head).rows[i].sha == commits[i].sha,
        after_commits(commits, head).rows[i].is_head == (head == Some(commits[i].sha)),
{
    lemma_rows_prefix(commits, head, i + 1);
    let upto = commits.take(i + 1);
    assert(upto.last() == commits[i]);
    let rows = after_commits(commits, head).rows;
    lemma_rows_prefix(upto.drop_last(), head, i);
    assert(after_commits(upto, head).rows.last() == rows.take(i + 1)[i]);
    assert(rows.take(i + 1)[i] == rows[i]);
}

/// No two lanes share an id.
pub open spec fn distinct_ids(lanes: Seq<Lane>) -> bool {
    forall|i: int, j: int|
        0 <= i < j < lanes.len() ==> (#[trigger] lanes[i]).id != (#[trigger] lanes[j]).id
}

/// The lanes are distinct, and the next identifier is above them all.
pub open spec fn sound_lanes(lanes: Seq<Lane>, next_lane: usize) -> bool {
    &&& distinct_ids(lanes)
    &&& forall|i: int| 0 <= i < lanes.len() ==> (#[trigger] lanes[i]).id < next_lane
}

/// A lane's place, where ids are distinct.
proof fn lemma_lane_place(lanes: Seq<Lane>, t: int)
    requires
        distinct_ids(lanes),
        0 <= t < lanes.len(),
    ensures
        lane_from(lanes, lanes[t].id, 0) == t,
{
    lemma_lane_from(lanes, lanes[t].id, 0);
    let at = lane_from(lanes, lanes[t].id, 0);
    if at < t {
        assert(lanes[at].id != lanes[t].id);
    } else if at > t {
        assert(lanes[t].id != lanes[t].id);
    }
}

/// How many lanes the commits can open at most.
pub open spec fn lane_budget(commits: Seq<CommitModel>) -> nat
    decreases commits.len(),
{
    if commits.len() == 0 {
        0
    } else {
        lane_budget(commits.drop_last()) + 1 + commits.last().parents.len()
    }
}

proof fn lemma_other_lanes(lanes: Seq<Lane>, sha: Seq<char>)
    ensures
        forall|i: int|
            0 <= i < lanes.len() && (#[trigger] lanes[i]).target != sha ==> other_lanes(
                lanes,
                sha,
            ).contains(lanes[i]),
        forall|k: int|
            0 <= k < other_lanes(lanes, sha).len() ==> exists|i: int|
                0 <= i < lanes.len() && #[trigger] lanes[i] == (#[trigger] other_lanes(
                    lanes,
                    sha,
                )[k]) && lanes[i].target != sha,
        distinct_ids(lanes) ==> distinct_ids(other_lanes(lanes, sha)),
        other_lanes(lanes, sha).len() <= lanes.len(),
    decreases lanes.len(),
{
    if lanes.len() > 0 {
        let front = lanes.drop_last();
        let before = other_lanes(front, sha);
        let all = other_lanes(lanes, sha);
        lemma_other_lanes(front, sha);
        let last = lanes.len() - 1;
        assert forall|i: int| 0 <= i < lanes.len() && (#[trigger] lanes[i]).target != sha implies all
            .contains(lanes[i]) by {
            if i < last {
                assert(front[i] == lanes[i]);
                let k = choose|k: int| 0 <= k < before.len() && before[k] == front[i];
                assert(all[k] == lanes[i]);
            } else {
                assert(all[before.len() as int] == lanes[i]);
            }
        }
        assert forall|k: int| 0 <= k < all.len() implies exists|i: int|
            0 <= i < lanes.len() && #[trigger] lanes[i] == (#[trigger] all[k]) && lanes[i].target
                != sha by {
            if k < before.len() {
                assert(all[k] == before[k]);
                let i = choose|i: int|
                    0 <= i < front.len() && #[trigger] front[i] == before[k] && front[i].target
                        != sha;
                assert(lanes[i] == all[k]);
            } else {
                assert(lanes[last] == all[k]);
            }
        }
        if distinct_ids(lanes) {
            assert(distinct_ids(front)) by {
                assert forall|i: int, j: int| 0 <= i < j < front.len() implies (
                #[trigger] front[i]).id != (#[trigger] front[j]).id by {
                    assert(lanes[i].id != lanes[j].id);
                }
            }
            assert forall|i: int, j: int| 0 <= i < j < all.len() implies (#[trigger] all[i]).id != (
            #[trigger] all[j]).id by {
                if j < before.len() {
                    assert(before[i].id != before[j].id);
                } else {
                    let k = choose|k: int|
                        0 <= k < front.len() && #[trigger] front[k] == before[i]
                            && front[k].target != sha;
                    assert(lanes[k].id != lanes[last].id);
                }
            }
        }
    }
}

/// Some lane has this id and color.
spec fn has_lane(lanes: Seq<Lane>, id: usize, color: usize) -> bool {
    exists|t: int|
        0 <= t < lanes.len() && (#[trigger] lanes[t]).id == id && lanes[t].color_id == color
}

/// While parents are placed: lanes are distinct, every lane that passed is there, every other lane
/// leaves the commit, and every leaving lane is there.
spec fn sound_branching(b: Branching, others: Seq<Lane>) -> bool {
    &&& sound_lanes(b.lanes, b.next_lane)
    &&& forall|k: int| 0 <= k < others.len() ==> b.lanes.contains(#[trigger] others[k])
    &&& forall|t: int|
        0 <= t < b.lanes.len() ==> others.contains(#[trigger] b.lanes[t]) || b.leaving.contains(
            (b.lanes[t].id, b.lanes[t].color_id),
        )
    &&& forall|k: int|
        0 <= k < b.leaving.len() ==> has_lane(
            b.lanes,
            (#[trigger] b.leaving[k]).0,
            b.leaving[k].1,
        )
}

/// A new lane between the others keeps a branching sound.
proof fn lemma_sound_insert(b: Branching, others: Seq<Lane>, place: int, lane: Lane, after: Branching)
    requires
        sound_branching(b, others),
        0 <= place <= b.lanes.len(),
        forall|i: int| 0 <= i < b.lanes.len() ==> (#[trigger] b.lanes[i]).id != lane.id,
        after.lanes == b.lanes.insert(place, lane),
        after.leaving == b.leaving.push((lane.id, lane.color_id)),
        b.next_lane <= after.next_lane,
        lane.id < after.next_lane,
    ensures
        sound_branching(after, others),
{
    let x = b.lanes;
    let y = after.lanes;
    assert forall|t: int| 0 <= t < y.len() implies #[trigger] y[t] == (if t < place {
        x[t]
    } else if t == place {
        lane
    } else {
        x[t - 1]
    }) by {}
    assert forall|i: int, j: int| 0 <= i < j < y.len() implies (#[trigger] y[i]).id != (
    #[trigger] y[j]).id by {
        let i0 = if i < place {
            i
        } else {
            i - 1
        };
        let j0 = if j < place {
            j
        } else {
            j - 1
        };
        if i == place {
            assert(x[j0].id != lane.id);
        } else if j == place {
            assert(x[i0].id != lane.id);
        } else {
            assert(x[i0].id != x[j0].id);
        }
    }
    assert forall|i: int| 0 <= i < y.len() implies (#[trigger] y[i]).id < after.next_lane by {
        if i < place {
            assert(x[i].id < b.next_lane);
        } else if i > place {
            assert(x[i - 1].id < b.next_lane);
        }
    }
    assert forall|k: int| 0 <= k < others.len() implies y.contains(#[trigger] others[k]) by {
        assert(x.contains(others[k]));
        let t = choose|t: int| 0 <= t < x.len() && x[t] == others[k];
        if t < place {
            assert(y[t] == others[k]);
        } else {
            assert(y[t + 1] == others[k]);
        }
    }
    assert forall|t: int| 0 <= t < y.len() implies others.contains(#[trigger] y[t])
        || after.leaving.contains((y[t].id, y[t].color_id)) by {
        if t == place {
            assert(after.leaving[b.leaving.len() as int] == (lane.id, lane.color_id));
        } else {
            let t0 = if t < place {
                t
            } else {
                t - 1
            };
            assert(x[t0] == y[t]);
            if !others.contains(x[t0]) {
                assert(b.leaving.contains((x[t0].id, x[t0].color_id)));
                let k = choose|k: int|
                    0 <= k < b.leaving.len() && b.leaving[k] == (x[t0].id, x[t0].color_id);
                assert(after.leaving[k] == (y[t].id, y[t].color_id));
            }
        }
    }
    assert forall|k: int| 0 <= k < after.leaving.len() implies has_lane(
        y,
        (#[trigger] after.leaving[k]).0,
        after.leaving[k].1,
    ) by {
        if k == b.leaving.len() {
            assert(y[place] == lane);
        } else {
            assert(after.leaving[k] == b.leaving[k]);
            assert(has_lane(x, b.leaving[k].0, b.leaving[k].1));
            let t = choose|t: int|
                0 <= t < x.len() && (#[trigger] x[t]).id == b.leaving[k].0 && x[t].color_id
                    == b.leaving[k].1;
            if t < place {
                assert(y[t] == x[t]);
            } else {
                assert(y[t + 1] == x[t]);
            }
        }
    }
}

proof fn lemma_sound_parent(b: Branching, others: Seq<Lane>, primary: usize, parent: Seq<char>)
    requires
        sound_branching(b, others),
        b.next_lane < usize::MAX,
    ensures
        sound_branching(with_parent(b, primary, parent), others),
        with_parent(b, primary, parent).next_lane <= b.next_lane + 1,
{
    let after = with_parent(b, primary, parent);
    let at = waiting_from(b.lanes, parent, 0);
    lemma_waiting_from(b.lanes, parent, 0);
    if at < b.lanes.len() {
        let pair = (b.lanes[at].id, b.lanes[at].color_id);
        assert forall|t: int| 0 <= t < b.lanes.len() implies others.contains(#[trigger] b.lanes[t])
            || after.leaving.contains((b.lanes[t].id, b.lanes[t].color_id)) by {
            if !others.contains(b.lanes[t]) {
                let k = choose|k: int|
                    0 <= k < b.leaving.len() && b.leaving[k] == (
                        b.lanes[t].id,
                        b.lanes[t].color_id,
                    );
                assert(after.leaving[k] == b.leaving[k]);
            }
        }
        assert forall|k: int| 0 <= k < after.leaving.len() implies has_lane(
            after.lanes,
            (#[trigger] after.leaving[k]).0,
            after.leaving[k].1,
        ) by {
            if k < b.leaving.len() {
                assert(after.leaving[k] == b.leaving[k]);
            } else {
                assert(after.lanes[at].id == pair.0);
            }
        }
    } else {
        let lane = Lane { id: b.next_lane, color_id: b.next_color, target: parent };
        lemma_lane_from(b.lanes, primary, 0);
        let place = min(lane_from(b.lanes, primary, 0) + 1 + b.opened, b.lanes.len() as int);
        lemma_sound_insert(b, others, place, lane, after);
    }
}

proof fn lemma_sound_parents(
    start: Branching,
    others: Seq<Lane>,
    primary: usize,
    parents: Seq<Seq<char>>,
    n: nat,
)
    requires
        sound_branching(start, others),
        n >= 1,
        start.next_lane + n <= usize::MAX,
    ensures
        sound_branching(with_parents(start, primary, parents, n), others),
        with_parents(start, primary, parents, n).next_lane <= start.next_lane + n - 1,
    decreases n,
{
    if n > 1 {
        lemma_sound_parents(start, others, primary, parents, (n - 1) as nat);
        lemma_sound_parent(
            with_parents(start, primary, parents, (n - 1) as nat),
            others,
            primary,
            parents[n - 1],
        );
    }
}

/// The first parent's lane keeps a branching sound.
#[verifier::rlimit(50)]
proof fn lemma_sound_start(st: Lanes, c: CommitModel, start: Branching)
    requires
        sound_lanes(st.lanes, st.next_lane),
        st.next_lane < usize::MAX,
        c.parents.len() > 0,
        ({
            let at = node_lane(st.lanes, c.sha);
            let found = at < st.lanes.len();
            start == with_first_parent(
                other_lanes(st.lanes, c.sha),
                at,
                if found {
                    st.lanes[at].id
                } else {
                    st.next_lane
                },
                node_color(st, c.sha),
                c.parents[0],
                if found {
                    st.next_lane
                } else {
                    next_id(st.next_lane)
                },
                start.next_color,
            )
        }),
    ensures
        sound_branching(start, other_lanes(st.lanes, c.sha)),
{
    let others = other_lanes(st.lanes, c.sha);
    lemma_other_lanes(st.lanes, c.sha);
    lemma_waiting_from(st.lanes, c.sha, 0);
    let at = node_lane(st.lanes, c.sha);
    let found = at < st.lanes.len();
    let color = node_color(st, c.sha);
    let id = if found {
        st.lanes[at].id
    } else {
        st.next_lane
    };
    let empty = Branching {
        lanes: others,
        next_lane: st.next_lane,
        next_color: start.next_color,
        opened: 0,
        leaving: Seq::empty(),
    };
    assert forall|i: int| 0 <= i < others.len() implies (#[trigger] others[i]).id < st.next_lane
        && others[i].id != id by {
        let k = choose|k: int|
            0 <= k < st.lanes.len() && #[trigger] st.lanes[k] == others[i] && st.lanes[k].target
                != c.sha;
        assert(st.lanes[k].id < st.next_lane);
        if found {
            if k < at {
                assert(st.lanes[k].id != st.lanes[at].id);
            } else {
                assert(k != at);
                assert(st.lanes[at].id != st.lanes[k].id);
            }
        }
    }
    assert forall|k: int| 0 <= k < others.len() implies others.contains(#[trigger] others[k]) by {}
    assert(sound_branching(empty, others));
    let lane = Lane { id, color_id: color, target: c.parents[0] };
    assert(start.leaving =~= empty.leaving.push((id, color)));
    lemma_sound_insert(empty, others, min(at, others.len() as int), lane, start);
}

proof fn lemma_sound_commit(st: Lanes, c: CommitModel)
    requires
        sound_lanes(st.lanes, st.next_lane),
        st.next_lane + 1 + c.parents.len() <= usize::MAX,
    ensures
        sound_branching(branching(st, c), other_lanes(st.lanes, c.sha)),
        branching(st, c).next_lane <= st.next_lane + 1 + c.parents.len(),
{
    let b = branching(st, c);
    let others = other_lanes(st.lanes, c.sha);
    lemma_other_lanes(st.lanes, c.sha);
    lemma_waiting_from(st.lanes, c.sha, 0);
    let at = node_lane(st.lanes, c.sha);
    let found = at < st.lanes.len();
    assert forall|i: int| 0 <= i < others.len() implies (#[trigger] others[i]).id < st.next_lane by {
        let k = choose|k: int|
            0 <= k < st.lanes.len() && #[trigger] st.lanes[k] == others[i] && st.lanes[k].target
                != c.sha;
        assert(st.lanes[k].id < st.next_lane);
    }
    assert forall|k: int| 0 <= k < others.len() implies others.contains(#[trigger] others[k]) by {}
    if c.parents.len() == 0 {
        assert(sound_branching(b, others));
    } else {
        let id = if found {
            st.lanes[at].id
        } else {
            st.next_lane
        };
        let next_lane = if found {
            st.next_lane
        } else {
            next_id(st.next_lane)
        };
        let next_color = if found {
            st.next_color
        } else {
            next_id(st.next_color)
        };
        let color = node_color(st, c.sha);
        let start = with_first_parent(others, at, id, color, c.parents[0], next_lane, next_color);
        lemma_sound_start(st, c, start);
        lemma_sound_parents(start, others, id, c.parents, c.parents.len());
    }
}

proof fn lemma_sound_commits(commits: Seq<CommitModel>, head: Option<Seq<char>>)
    requires
        lane_budget(commits) <= usize::MAX,
    ensures
        ({
            let at = after_commits(commits, head).at;
            &&& sound_lanes(at.lanes, at.next_lane)
            &&& at.next_lane <= lane_budget(commits)
        }),
    decreases commits.len(),
{
    if commits.len() > 0 {
        lemma_sound_commits(commits.drop_last(), head);
        lemma_sound_commit(after_commits(commits.drop_last(), head).at, commits.last());
    }
}

/// A segment of the row leads from `from` to `to` in the given color.
pub open spec fn leads(row: RowModel, from: int, to: int, color: usize) -> bool {
    exists|s: int|
        0 <= s < row.segments.len() && (#[trigger] row.segments[s]).from_lane == from
            && row.segments[s].to_lane == to && row.segments[s].color_id == color
}

/// A segment of the row leads to `to` in the given color.
pub open spec fn drawn_to(row: RowModel, to: int, color: usize) -> bool {
    exists|from: int| #[trigger] leads(row, from, to, color)
}

proof fn lemma_through(lanes: Seq<Lane>, next: Seq<Lane>, sha: Seq<char>, n: nat, j: int)
    requires
        0 <= j < n <= lanes.len(),
        lanes[j].target != sha,
    ensures
        through_segments(lanes, next, sha, n).contains(
            GraphSegment {
                from_lane: j as usize,
                to_lane: lane_from(next, lanes[j].id, 0) as usize,
                color_id: lanes[j].color_id,
                shape: SegmentShape::Through,
            },
        ),
    decreases n,
{
    let segment = GraphSegment {
        from_lane: j as usize,
        to_lane: lane_from(next, lanes[j].id, 0) as usize,
        color_id: lanes[j].color_id,
        shape: SegmentShape::Through,
    };
    let all = through_segments(lanes, next, sha, n);
    let before = through_segments(lanes, next, sha, (n - 1) as nat);
    if j == n - 1 {
        assert(all[before.len() as int] == segment);
    } else {
        lemma_through(lanes, next, sha, (n - 1) as nat, j);
        let k = choose|k: int| 0 <= k < before.len() && before[k] == segment;
        assert(all[k] == segment);
    }
}

proof fn lemma_incoming(lanes: Seq<Lane>, node: int, sha: Seq<char>, n: nat, j: int)
    requires
        0 <= j < n <= lanes.len(),
        lanes[j].target == sha,
    ensures
        incoming_segments(lanes, node, sha, n).contains(
            GraphSegment {
                from_lane: j as usize,
                to_lane: node as usize,
                color_id: lanes[j].color_id,
                shape: SegmentShape::Incoming,
            },
        ),
    decreases n,
{
    let segment = GraphSegment {
        from_lane: j as usize,
        to_lane: node as usize,
        color_id: lanes[j].color_id,
        shape: SegmentShape::Incoming,
    };
    let all = incoming_segments(lanes, node, sha, n);
    let before = incoming_segments(lanes, node, sha, (n - 1) as nat);
    if j == n - 1 {
        assert(all[before.len() as int] == segment);
    } else {
        lemma_incoming(lanes, node, sha, (n - 1) as nat, j);
        let k = choose|k: int| 0 <= k < before.len() && before[k] == segment;
        assert(all[k] == segment);
    }
}

/// Paths continue from row to row. Every lane that reaches a commit's row is drawn in its color: to
/// the commit's node if it waited for that commit, otherwise to the same lane behind the row. And
/// every lane behind the row is drawn to, in its color, from a lane before it or from the node.
pub proof fn law_paths_continue(commits: Seq<CommitModel>, head: Option<Seq<char>>, i: int)
    requires
        0 <= i < commits.len(),
        lane_budget(commits.take(i + 1)) <= usize::MAX,
        after_commits(commits.take(i), head).at.lanes.len() < usize::MAX,
        after_commits(commits.take(i + 1), head).at.lanes.len() <= usize::MAX,
    ensures
        ({
            let before = after_commits(commits.take(i), head).at.lanes;
            let after = after_commits(commits.take(i + 1), head).at.lanes;
            let row = after_commits(commits, head).rows[i];
            &&& forall|j: int|
                0 <= j < before.len() && (#[trigger] before[j]).target == commits[i].sha ==> leads(
                    row,
                    j,
                    row.node_lane as int,
                    before[j].color_id,
                )
            &&& forall|j: int|
                0 <= j < before.len() && (#[trigger] before[j]).target != commits[i].sha
                    ==> exists|t: int|
                    0 <= t < after.len() && #[trigger] after[t] == before[j] && leads(
                        row,
                        j,
                        t,
                        before[j].color_id,
                    )
            &&& forall|t: int|
                0 <= t < after.len() ==> drawn_to(row, t, (#[trigger] after[t]).color_id)
        }),
{
    let upto = commits.take(i + 1);
    assert(upto.drop_last() =~= commits.take(i));
    assert(upto.last() == commits[i]);
    let st = after_commits(commits.take(i), head);
    let c = commits[i];
    let before = st.at.lanes;
    let b = branching(st.at, c);
    let after = b.lanes;
    let others = other_lanes(before, c.sha);
    let at = node_lane(before, c.sha);
    lemma_rows_prefix(commits, head, i + 1);
    lemma_rows_prefix(commits.take(i), head, i);
    let row = after_commits(commits, head).rows[i];
    assert(row == row_of(st.at, c, head)) by {
        assert(after_commits(upto, head).rows[i] == after_commits(commits, head).rows.take(i + 1)[i]);
    }
    lemma_sound_commits(commits.take(i), head);
    lemma_sound_commit(st.at, c);
    lemma_waiting_from(before, c.sha, 0);
    lemma_other_lanes(before, c.sha);
    let through = through_segments(before, after, c.sha, before.len());
    let incoming = incoming_segments(before, at, c.sha, before.len());
    let outgoing = outgoing_segments(b.leaving, after, at);
    assert(row.segments == through + incoming + outgoing);
    assert forall|j: int| 0 <= j < before.len() && (#[trigger] before[j]).target == c.sha implies leads(
        row,
        j,
        row.node_lane as int,
        before[j].color_id,
    ) by {
        lemma_incoming(before, at, c.sha, before.len(), j);
        let segment = GraphSegment {
            from_lane: j as usize,
            to_lane: at as usize,
            color_id: before[j].color_id,
            shape: SegmentShape::Incoming,
        };
        let k = choose|k: int| 0 <= k < incoming.len() && incoming[k] == segment;
        assert(row.segments[through.len() + k] == segment);
    }
    assert forall|j: int| 0 <= j < before.len() && (#[trigger] before[j]).target
        != c.sha implies exists|t: int|
        0 <= t < after.len() && #[trigger] after[t] == before[j] && leads(
            row,
            j,
            t,
            before[j].color_id,
        ) by {
        assert(others.contains(before[j]));
        let o = choose|o: int| 0 <= o < others.len() && others[o] == before[j];
        assert(after.contains(others[o]));
        let t = choose|t: int| 0 <= t < after.len() && after[t] == others[o];
        lemma_lane_place(after, t);
        lemma_through(before, after, c.sha, before.len(), j);
        let segment = GraphSegment {
            from_lane: j as usize,
            to_lane: t as usize,
            color_id: before[j].color_id,
            shape: SegmentShape::Through,
        };
        let k = choose|k: int| 0 <= k < through.len() && through[k] == segment;
        assert(row.segments[k] == segment);
        assert(after[t] == before[j] && leads(row, j, t, before[j].color_id));
    }
    assert forall|t: int| 0 <= t < after.len() implies drawn_to(
        row,
        t,
        (#[trigger] after[t]).color_id,
    ) by {
        if others.contains(after[t]) {
            let o = choose|o: int| 0 <= o < others.len() && others[o] == after[t];
            let j = choose|j: int|
                0 <= j < before.len() && #[trigger] before[j] == others[o] && before[j].target
                    != c.sha;
            lemma_lane_place(after, t);
            lemma_through(before, after, c.sha, before.len(), j);
            let segment = GraphSegment {
                from_lane: j as usize,
                to_lane: t as usize,
                color_id: before[j].color_id,
                shape: SegmentShape::Through,
            };
            let k = choose|k: int| 0 <= k < through.len() && through[k] == segment;
            assert(row.segments[k] == segment);
            assert(leads(row, j, t, after[t].color_id));
        } else {
            let pair = (after[t].id, after[t].color_id);
            let k = choose|k: int| 0 <= k < b.leaving.len() && b.leaving[k] == pair;
            lemma_lane_place(after, t);
            let s = through.len() + incoming.len() + k;
            assert(row.segments[s] == outgoing[k]);
            assert(outgoing[k].to_lane == t);
            assert(leads(row, at, t, after[t].color_id));
        }
    }
}

proof fn lemma_max_grows(commits: Seq<CommitModel>, head: Option<Seq<char>>, n: int)
    requires
        0 <= n <= commits.len(),
    ensures
        after_commits(commits.take(n), head).max_lanes <= after_commits(commits, head).max_lanes,
    decreases commits.len(),
{
    if n == commits.len() {
        assert(commits.take(n) =~= commits);
    } else {
        let front = commits.drop_last();
        lemma_max_grows(front, head, n);
        assert(front.take(n) =~= commits.take(n));
    }
}

proof fn lemma_through_bounds(lanes: Seq<Lane>, next: Seq<Lane>, sha: Seq<char>, n: nat)
    requires
        n <= lanes.len() <= usize::MAX,
        next.len() <= usize::MAX,
        forall|j: int|
            0 <= j < lanes.len() && (#[trigger] lanes[j]).target != sha ==> lane_from(
                next,
                lanes[j].id,
                0,
            ) < next.len(),
    ensures
        forall|s: int|
            0 <= s < through_segments(lanes, next, sha, n).len() ==> {
                let segment = #[trigger] through_segments(lanes, next, sha, n)[s];
                segment.from_lane < lanes.len() && segment.to_lane < next.len()
            },
    decreases n,
{
    if n > 0 {
        lemma_through_bounds(lanes, next, sha, (n - 1) as nat);
        lemma_lane_from(next, lanes[n - 1].id, 0);
    }
}

proof fn lemma_incoming_bounds(lanes: Seq<Lane>, node: int, sha: Seq<char>, n: nat)
    requires
        n <= lanes.len() <= usize::MAX,
        0 <= node <= usize::MAX,
    ensures
        forall|s: int|
            0 <= s < incoming_segments(lanes, node, sha, n).len() ==> {
                let segment = #[trigger] incoming_segments(lanes, node, sha, n)[s];
                segment.from_lane < lanes.len() && segment.to_lane == node
            },
    decreases n,
{
    if n > 0 {
        lemma_incoming_bounds(lanes, node, sha, (n - 1) as nat);
    }
}

/// Every node and every end of every segment lies on one of the lanes that the layout counts.
pub proof fn law_lanes_are_counted(commits: Seq<CommitModel>, head: Option<Seq<char>>, i: int)
    requires
        0 <= i < commits.len(),
        lane_budget(commits) <= usize::MAX,
        after_commits(commits, head).max_lanes < usize::MAX,
    ensures
        ({
            let st = after_commits(commits, head);
            let row = st.rows[i];
            &&& row.node_lane < st.max_lanes
            &&& forall|s: int|
                0 <= s < row.segments.len() ==> (#[trigger] row.segments[s]).from_lane < st.max_lanes
                    && row.segments[s].to_lane < st.max_lanes
        }),
{
    let upto = commits.take(i + 1);
    assert(upto.drop_last() =~= commits.take(i));
    assert(upto.last() == commits[i]);
    let st = after_commits(commits.take(i), head);
    let c = commits[i];
    let before = st.at.lanes;
    let b = branching(st.at, c);
    let after = b.lanes;
    let others = other_lanes(before, c.sha);
    let at = node_lane(before, c.sha);
    lemma_max_grows(commits, head, i + 1);
    lemma_rows_prefix(commits, head, i + 1);
    lemma_rows_prefix(commits.take(i), head, i);
    let row = after_commits(commits, head).rows[i];
    assert(row == row_of(st.at, c, head)) by {
        assert(after_commits(upto, head).rows[i] == after_commits(commits, head).rows.take(i + 1)[i]);
    }
    lemma_budget_prefix(commits, i + 1);
    lemma_sound_commits(commits.take(i), head);
    lemma_sound_commit(st.at, c);
    lemma_waiting_from(before, c.sha, 0);
    lemma_other_lanes(before, c.sha);
    let through = through_segments(before, after, c.sha, before.len());
    let incoming = incoming_segments(before, at, c.sha, before.len());
    let outgoing = outgoing_segments(b.leaving, after, at);
    assert forall|j: int| 0 <= j < before.len() && (#[trigger] before[j]).target
        != c.sha implies lane_from(after, before[j].id, 0) < after.len() by {
        assert(others.contains(before[j]));
        let o = choose|o: int| 0 <= o < others.len() && others[o] == before[j];
        assert(after.contains(others[o]));
        let t = choose|t: int| 0 <= t < after.len() && after[t] == others[o];
        lemma_lane_place(after, t);
    }
    lemma_through_bounds(before, after, c.sha, before.len());
    lemma_incoming_bounds(before, at, c.sha, before.len());
    assert forall|s: int| 0 <= s < row.segments.len() implies (#[trigger] row.segments[s]).from_lane
        < after_commits(commits, head).max_lanes && row.segments[s].to_lane < after_commits(
        commits,
        head,
    ).max_lanes by {
        if s < through.len() {
            assert(row.segments[s] == through[s]);
        } else if s < through.len() + incoming.len() {
            assert(row.segments[s] == incoming[s - through.len()]);
        } else {
            let k = s - through.len() - incoming.len();
            assert(row.segments[s] == outgoing[k]);
            assert(has_lane(after, b.leaving[k].0, b.leaving[k].1));
            let t = choose|t: int|
                0 <= t < after.len() && (#[trigger] after[t]).id == b.leaving[k].0
                    && after[t].color_id == b.leaving[k].1;
            lemma_lane_place(after, t);
        }
    }
}

proof fn lemma_budget_prefix(commits: Seq<CommitModel>, n: int)
    requires
        0 <= n <= commits.len(),
    ensures
        lane_budget(commits.take(n)) <= lane_budget(commits),
        n > 0 ==> lane_budget(commits.take(n)) == lane_budget(commits.take(n - 1)) + 1 + commits[n
            - 1].parents.len(),
    decreases commits.len(),
{
    if n > 0 {
        assert(commits.take(n).drop_last() =~= commits.take(n - 1));
    }
    if n == commits.len() {
        assert(commits.take(n) =~= commits);
    } else {
        let front = commits.drop_last();
        lemma_budget_prefix(front, n);
        assert(front.take(n) =~= commits.take(n));
    }
}

// ---------------------------------------------------------------------------
// Where the lanes stand behind a commit
// ---------------------------------------------------------------------------

/// The lanes left of the first one that waits for `sha` wait for other commits, so they come first
/// among the others and in their own places.
proof fn lemma_others_on_the_left(lanes: Seq<Lane>, sha: Seq<char>)
    ensures
        waiting_from(lanes, sha, 0) <= other_lanes(lanes, sha).len() <= lanes.len(),
        waiting_from(lanes, sha, 0) == lanes.len() ==> other_lanes(lanes, sha) == lanes,
        forall|k: int|
            0 <= k < waiting_from(lanes, sha, 0) ==> #[trigger] other_lanes(lanes, sha)[k]
                == lanes[k],
    decreases lanes.len(),
{
    let at = waiting_from(lanes, sha, 0);
    lemma_waiting_from(lanes, sha, 0);
    if lanes.len() > 0 {
        let front = lanes.drop_last();
        let last = lanes.len() - 1;
        lemma_others_on_the_left(front, sha);
        lemma_waiting_from(front, sha, 0);
        let earlier = waiting_from(front, sha, 0);
        if at < last {
            assert(front[at].target == sha);
            if earlier < at {
                assert(lanes[earlier].target == front[earlier].target);
            }
        } else if earlier < last {
            assert(lanes[earlier].target == front[earlier].target);
        }
        assert(earlier == min(at, last));
        assert(at == lanes.len() ==> other_lanes(lanes, sha) =~= lanes);
    } else {
        assert(other_lanes(lanes, sha) =~= lanes);
    }
}

/// A lane that waits for another commit stands among the others behind as many as precede it.
proof fn lemma_other_place(lanes: Seq<Lane>, sha: Seq<char>, j: int)
    requires
        0 <= j < lanes.len(),
        lanes[j].target != sha,
    ensures
        other_lanes(lanes.take(j), sha).len() < other_lanes(lanes, sha).len(),
        other_lanes(lanes, sha)[other_lanes(lanes.take(j), sha).len() as int] == lanes[j],
    decreases lanes.len(),
{
    let front = lanes.drop_last();
    if j < front.len() {
        assert(front[j] == lanes[j]);
        assert(front.take(j) =~= lanes.take(j));
        lemma_other_place(front, sha, j);
    } else {
        assert(lanes.take(j) =~= front);
    }
}

/// The more lanes there are, the more of them wait for other commits.
proof fn lemma_others_grow(lanes: Seq<Lane>, sha: Seq<char>, i: int, j: int)
    requires
        0 <= i <= j <= lanes.len(),
    ensures
        other_lanes(lanes.take(i), sha).len() <= other_lanes(lanes.take(j), sha).len(),
        i < j && lanes[i].target != sha ==> other_lanes(lanes.take(i), sha).len() < other_lanes(
            lanes.take(j),
            sha,
        ).len(),
    decreases j - i,
{
    if i < j {
        assert(lanes.take(j).drop_last() =~= lanes.take(j - 1));
        assert(lanes.take(j).last() == lanes[j - 1]);
        lemma_others_grow(lanes, sha, i, j - 1);
    }
}

/// Behind a commit with parents: the lanes left of its node, then the first parent's, then the
/// newly opened ones, then the others.
spec fn shaped(
    b: Branching,
    others: Seq<Lane>,
    at: int,
    first: Lane,
    next_lane: usize,
    next_color: usize,
) -> bool {
    &&& 0 <= at <= others.len()
    &&& b.lanes.len() == others.len() + 1 + b.opened
    &&& b.next_lane == next_lane + b.opened
    &&& b.next_color == next_color + b.opened
    &&& forall|t: int| 0 <= t < at ==> #[trigger] b.lanes[t] == others[t]
    &&& b.lanes[at] == first
    &&& forall|t: int|
        at < t <= at + b.opened ==> (#[trigger] b.lanes[t]).id == next_lane + (t - at - 1)
            && b.lanes[t].color_id == next_color + (t - at - 1)
    &&& forall|t: int|
        at + b.opened < t < b.lanes.len() ==> #[trigger] b.lanes[t] == others[t - 1 - b.opened]
}

/// The `k`th lane that leaves the commit waits for `parent`, and is the leftmost such lane unless
/// it is the first parent's.
spec fn serves(b: Branching, k: int, parent: Seq<char>, t: int) -> bool {
    &&& 0 <= t < b.lanes.len()
    &&& b.lanes[t].target == parent
    &&& b.leaving[k] == (b.lanes[t].id, b.lanes[t].color_id)
    &&& k > 0 ==> forall|u: int| 0 <= u < t ==> (#[trigger] b.lanes[u]).target != parent
}

/// The `k`th lane that leaves the commit waits for `parent`.
spec fn is_served(b: Branching, k: int, parent: Seq<char>) -> bool {
    exists|t: int| #[trigger] serves(b, k, parent, t)
}

/// The first `n` parents are served, and a lane that was opened for one is the only lane that
/// waits for it.
spec fn served(b: Branching, at: int, parents: Seq<Seq<char>>, n: int) -> bool {
    &&& b.leaving.len() == n
    &&& forall|k: int|
        0 <= k < n ==> #[trigger] is_served(b, k, parents[k])
    &&& forall|t: int, u: int|
        at < t <= at + b.opened && 0 <= u < b.lanes.len() && u != t ==> (
        #[trigger] b.lanes[t]).target != (#[trigger] b.lanes[u]).target
}

#[verifier::rlimit(50)]
proof fn lemma_shaped_parent(
    b: Branching,
    others: Seq<Lane>,
    at: int,
    first: Lane,
    next_lane: usize,
    next_color: usize,
    parents: Seq<Seq<char>>,
    n: int,
)
    requires
        sound_branching(b, others),
        shaped(b, others, at, first, next_lane, next_color),
        1 <= n < parents.len(),
        served(b, at, parents, n),
        b.next_lane < usize::MAX,
        b.next_color < usize::MAX,
    ensures
        shaped(with_parent(b, first.id, parents[n]), others, at, first, next_lane, next_color),
        served(with_parent(b, first.id, parents[n]), at, parents, n + 1),
        with_parent(b, first.id, parents[n]).opened <= b.opened + 1,
{
    let parent = parents[n];
    let after = with_parent(b, first.id, parent);
    let w = waiting_from(b.lanes, parent, 0);
    lemma_waiting_from(b.lanes, parent, 0);
    lemma_lane_place(b.lanes, at);
    if w < b.lanes.len() {
        assert forall|k: int| 0 <= k < n + 1 implies #[trigger] is_served(
            after,
            k,
            parents[k],
        ) by {
            if k < n {
                assert(is_served(b, k, parents[k]));
                let t = choose|t: int| #[trigger] serves(b, k, parents[k], t);
                assert(after.leaving[k] == b.leaving[k]);
                assert(serves(after, k, parents[k], t));
            } else {
                assert(serves(after, k, parents[k], w));
            }
        }
    } else {
        let lane = Lane { id: b.next_lane, color_id: b.next_color, target: parent };
        let place = at + 1 + b.opened;
        assert(after.lanes == b.lanes.insert(place, lane));
        assert forall|t: int| 0 <= t < after.lanes.len() implies #[trigger] after.lanes[t] == (
        if t < place {
            b.lanes[t]
        } else if t == place {
            lane
        } else {
            b.lanes[t - 1]
        }) by {}
        assert forall|k: int| 0 <= k < n + 1 implies #[trigger] is_served(
            after,
            k,
            parents[k],
        ) by {
            if k < n {
                assert(is_served(b, k, parents[k]));
                let t = choose|t: int| #[trigger] serves(b, k, parents[k], t);
                let t1 = if t < place {
                    t
                } else {
                    t + 1
                };
                assert(after.leaving[k] == b.leaving[k]);
                assert(after.lanes[t1] == b.lanes[t]);
                assert(b.lanes[t].target != parent);
                assert forall|u: int| k > 0 && 0 <= u < t1 implies (
                #[trigger] after.lanes[u]).target != parents[k] by {
                    if u < place {
                        assert(after.lanes[u] == b.lanes[u]);
                    } else if u > place {
                        assert(after.lanes[u] == b.lanes[u - 1]);
                    }
                }
                assert(serves(after, k, parents[k], t1));
            } else {
                assert(after.lanes[place] == lane);
                assert forall|u: int| 0 <= u < place implies (
                #[trigger] after.lanes[u]).target != parent by {
                    assert(after.lanes[u] == b.lanes[u]);
                }
                assert(serves(after, k, parents[k], place));
            }
        }
        assert forall|t: int, u: int|
            at < t <= at + after.opened && 0 <= u < after.lanes.len() && u != t implies (
        #[trigger] after.lanes[t]).target != (#[trigger] after.lanes[u]).target by {
            let u0 = if u < place {
                u
            } else {
                u - 1
            };
            if t == place {
                assert(b.lanes[u0].target != parent);
            } else if u == place {
                assert(b.lanes[t].target != parent);
            } else {
                assert(b.lanes[t].target != b.lanes[u0].target);
            }
        }
    }
}

proof fn lemma_shaped_parents(
    start: Branching,
    others: Seq<Lane>,
    at: int,
    first: Lane,
    parents: Seq<Seq<char>>,
    n: nat,
)
    requires
        sound_branching(start, others),
        shaped(start, others, at, first, start.next_lane, start.next_color),
        start.opened == 0,
        1 <= n <= parents.len(),
        served(start, at, parents, 1),
        start.next_lane + n <= usize::MAX,
        start.next_color + n <= usize::MAX,
    ensures
        ({
            let b = with_parents(start, first.id, parents, n);
            &&& sound_branching(b, others)
            &&& shaped(b, others, at, first, start.next_lane, start.next_color)
            &&& served(b, at, parents, n as int)
            &&& b.opened <= n - 1
        }),
    decreases n,
{
    if n > 1 {
        let m = (n - 1) as nat;
        lemma_shaped_parents(start, others, at, first, parents, m);
        let b = with_parents(start, first.id, parents, m);
        lemma_shaped_parent(
            b,
            others,
            at,
            first,
            start.next_lane,
            start.next_color,
            parents,
            m as int,
        );
        lemma_sound_parent(b, others, first.id, parents[m as int]);
    }
}

/// The lane on which a commit's line goes on.
spec fn own_lane(st: Lanes, c: CommitModel) -> Lane {
    let at = node_lane(st.lanes, c.sha);
    Lane {
        id: if at < st.lanes.len() {
            st.lanes[at].id
        } else {
            st.next_lane
        },
        color_id: node_color(st, c.sha),
        target: c.parents[0],
    }
}

/// The lanes behind a commit when only its first parent is placed.
spec fn first_branching(st: Lanes, c: CommitModel) -> Branching {
    let found = node_lane(st.lanes, c.sha) < st.lanes.len();
    let own = own_lane(st, c);
    with_first_parent(
        other_lanes(st.lanes, c.sha),
        node_lane(st.lanes, c.sha),
        own.id,
        own.color_id,
        own.target,
        if found {
            st.next_lane
        } else {
            next_id(st.next_lane)
        },
        if found {
            st.next_color
        } else {
            next_id(st.next_color)
        },
    )
}

#[verifier::rlimit(50)]
proof fn lemma_first_branching(st: Lanes, c: CommitModel)
    requires
        sound_lanes(st.lanes, st.next_lane),
        st.next_lane + 1 + c.parents.len() <= usize::MAX,
        st.next_color + 1 + c.parents.len() <= usize::MAX,
        c.parents.len() > 0,
    ensures
        ({
            let start = first_branching(st, c);
            let others = other_lanes(st.lanes, c.sha);
            let at = node_lane(st.lanes, c.sha);
            let own = own_lane(st, c);
            let fresh: int = if at < st.lanes.len() {
                0
            } else {
                1
            };
            &&& start.next_lane == st.next_lane + fresh
            &&& start.next_color == st.next_color + fresh
            &&& start.opened == 0
            &&& start.leaving == seq![(own.id, own.color_id)]
            &&& sound_branching(start, others)
            &&& shaped(start, others, at, own, start.next_lane, start.next_color)
            &&& served(start, at, c.parents, 1)
            &&& branching(st, c) == with_parents(start, own.id, c.parents, c.parents.len())
        }),
{
    let others = other_lanes(st.lanes, c.sha);
    let at = node_lane(st.lanes, c.sha);
    let own = own_lane(st, c);
    let start = first_branching(st, c);
    lemma_others_on_the_left(st.lanes, c.sha);
    lemma_waiting_from(st.lanes, c.sha, 0);
    lemma_sound_start(st, c, start);
    assert(start.lanes == others.insert(at, own));
    assert(start.lanes[at] == own);
    assert(serves(start, 0, c.parents[0], at));
    assert(served(start, at, c.parents, 1)) by {
        assert(is_served(start, 0, c.parents[0]));
    }
    assert(shaped(start, others, at, own, start.next_lane, start.next_color));
}

#[verifier::rlimit(50)]
proof fn lemma_shaped_commit(st: Lanes, c: CommitModel)
    requires
        sound_lanes(st.lanes, st.next_lane),
        st.next_lane + 1 + c.parents.len() <= usize::MAX,
        st.next_color + 1 + c.parents.len() <= usize::MAX,
        c.parents.len() > 0,
    ensures
        ({
            let b = branching(st, c);
            let others = other_lanes(st.lanes, c.sha);
            let at = node_lane(st.lanes, c.sha);
            let fresh: int = if at < st.lanes.len() {
                0
            } else {
                1
            };
            &&& shaped(
                b,
                others,
                at,
                own_lane(st, c),
                (st.next_lane + fresh) as usize,
                (st.next_color + fresh) as usize,
            )
            &&& served(b, at, c.parents, c.parents.len() as int)
            &&& b.opened < c.parents.len()
        }),
{
    lemma_first_branching(st, c);
    lemma_shaped_parents(
        first_branching(st, c),
        other_lanes(st.lanes, c.sha),
        node_lane(st.lanes, c.sha),
        own_lane(st, c),
        c.parents,
        c.parents.len(),
    );
}

/// No two lanes share a color, and the next color is above them all.
pub open spec fn colored(lanes: Seq<Lane>, next_color: usize) -> bool {
    &&& forall|i: int, j: int|
        0 <= i < j < lanes.len() ==> (#[trigger] lanes[i]).color_id != (
        #[trigger] lanes[j]).color_id
    &&& forall|i: int| 0 <= i < lanes.len() ==> (#[trigger] lanes[i]).color_id < next_color
}

/// The lanes that pass a commit by have distinct colors, and none has the commit's.
#[verifier::rlimit(50)]
proof fn lemma_colored_others(st: Lanes, c: CommitModel)
    requires
        distinct_ids(st.lanes),
        colored(st.lanes, st.next_color),
    ensures
        ({
            let others = other_lanes(st.lanes, c.sha);
            &&& forall|i: int|
                0 <= i < others.len() ==> (#[trigger] others[i]).color_id < st.next_color
                    && others[i].color_id != node_color(st, c.sha)
            &&& forall|i: int, j: int|
                0 <= i < j < others.len() ==> (#[trigger] others[i]).color_id != (
                #[trigger] others[j]).color_id
        }),
{
    let others = other_lanes(st.lanes, c.sha);
    let at = node_lane(st.lanes, c.sha);
    lemma_other_lanes(st.lanes, c.sha);
    lemma_waiting_from(st.lanes, c.sha, 0);
    assert forall|i: int| 0 <= i < others.len() implies (#[trigger] others[i]).color_id
        < st.next_color && others[i].color_id != node_color(st, c.sha) by {
        let k = choose|k: int|
            0 <= k < st.lanes.len() && #[trigger] st.lanes[k] == others[i] && st.lanes[k].target
                != c.sha;
        if at < st.lanes.len() {
            if k < at {
                assert(st.lanes[k].color_id != st.lanes[at].color_id);
            } else {
                assert(k != at);
                assert(st.lanes[at].color_id != st.lanes[k].color_id);
            }
        }
    }
    assert forall|i: int, j: int| 0 <= i < j < others.len() implies (#[trigger] others[i]).color_id
        != (#[trigger] others[j]).color_id by {
        let k = choose|k: int|
            0 <= k < st.lanes.len() && #[trigger] st.lanes[k] == others[i] && st.lanes[k].target
                != c.sha;
        let m = choose|m: int|
            0 <= m < st.lanes.len() && #[trigger] st.lanes[m] == others[j] && st.lanes[m].target
                != c.sha;
        assert(others[i].id != others[j].id);
        if k < m {
            assert(st.lanes[k].color_id != st.lanes[m].color_id);
        } else {
            assert(k != m);
            assert(st.lanes[m].color_id != st.lanes[k].color_id);
        }
    }
}

#[verifier::rlimit(50)]
proof fn lemma_colored_commit(st: Lanes, c: CommitModel)
    requires
        sound_lanes(st.lanes, st.next_lane),
        colored(st.lanes, st.next_color),
        st.next_lane + 1 + c.parents.len() <= usize::MAX,
        st.next_color + 1 + c.parents.len() <= usize::MAX,
    ensures
        ({
            let b = branching(st, c);
            &&& colored(b.lanes, b.next_color)
            &&& b.next_color <= st.next_color + 1 + c.parents.len()
            &&& b.lanes.len() <= st.lanes.len() + 1 + c.parents.len()
        }),
{
    let b = branching(st, c);
    let others = other_lanes(st.lanes, c.sha);
    let at = node_lane(st.lanes, c.sha);
    lemma_colored_others(st, c);
    lemma_others_on_the_left(st.lanes, c.sha);
    if c.parents.len() > 0 {
        lemma_shaped_commit(st, c);
        let own = own_lane(st, c);
        let fresh: int = if at < st.lanes.len() {
            0
        } else {
            1
        };
        assert(own.color_id < st.next_color + fresh) by {
            lemma_waiting_from(st.lanes, c.sha, 0);
        }
        lemma_colored_shape(
            b,
            others,
            at,
            own,
            (st.next_lane + fresh) as usize,
            (st.next_color + fresh) as usize,
        );
    }
}

/// Lanes of distinct colors, a lane of another color among them, and new lanes in fresh colors.
proof fn lemma_colored_shape(
    b: Branching,
    others: Seq<Lane>,
    at: int,
    own: Lane,
    next_lane: usize,
    next_color: usize,
)
    requires
        shaped(b, others, at, own, next_lane, next_color),
        own.color_id < next_color,
        forall|i: int|
            0 <= i < others.len() ==> (#[trigger] others[i]).color_id < next_color
                && others[i].color_id != own.color_id,
        forall|i: int, j: int|
            0 <= i < j < others.len() ==> (#[trigger] others[i]).color_id != (
            #[trigger] others[j]).color_id,
    ensures
        colored(b.lanes, b.next_color),
{
    let lanes = b.lanes;
    assert forall|t: int| 0 <= t < lanes.len() implies (#[trigger] lanes[t]).color_id
        < b.next_color by {
        if t < at {
            assert(lanes[t] == others[t]);
        } else if t > at + b.opened {
            assert(lanes[t] == others[t - 1 - b.opened]);
        }
    }
    assert forall|t: int, u: int| 0 <= t < u < lanes.len() implies (#[trigger] lanes[t]).color_id
        != (#[trigger] lanes[u]).color_id by {
        let is_new = |x: int| at < x <= at + b.opened;
        let old = |x: int|
            if x < at {
                x
            } else {
                x - 1 - b.opened
            };
        if is_new(t) && is_new(u) {
        } else if is_new(u) {
            if t < at {
                assert(lanes[t] == others[t]);
            }
        } else if is_new(t) {
            assert(lanes[u] == others[old(u)]);
        } else if t == at {
            assert(lanes[u] == others[old(u)]);
        } else if u == at {
            assert(lanes[t] == others[old(t)]);
        } else {
            assert(lanes[t] == others[old(t)]);
            assert(lanes[u] == others[old(u)]);
        }
    }
}

proof fn lemma_colored_commits(commits: Seq<CommitModel>, head: Option<Seq<char>>)
    requires
        lane_budget(commits) <= usize::MAX,
    ensures
        ({
            let at = after_commits(commits, head).at;
            &&& sound_lanes(at.lanes, at.next_lane)
            &&& at.next_lane <= lane_budget(commits)
            &&& colored(at.lanes, at.next_color)
            &&& at.next_color <= lane_budget(commits)
            &&& at.lanes.len() <= lane_budget(commits)
        }),
    decreases commits.len(),
{
    lemma_sound_commits(commits, head);
    if commits.len() > 0 {
        lemma_colored_commits(commits.drop_last(), head);
        lemma_colored_commit(after_commits(commits.drop_last(), head).at, commits.last());
    }
}

/// Lanes tell each other apart: after any commits, no two have the same id or the same color.
pub proof fn law_lanes_are_told_apart(commits: Seq<CommitModel>, head: Option<Seq<char>>)
    requires
        lane_budget(commits) <= usize::MAX,
    ensures
        ({
            let lanes = after_commits(commits, head).at.lanes;
            forall|i: int, j: int|
                0 <= i < j < lanes.len() ==> (#[trigger] lanes[i]).id != (#[trigger] lanes[j]).id
                    && lanes[i].color_id != lanes[j].color_id
        }),
{
    lemma_colored_commits(commits, head);
}

/// What the row of a commit is made of.
#[verifier::rlimit(50)]
proof fn lemma_row(commits: Seq<CommitModel>, head: Option<Seq<char>>, i: int)
    requires
        0 <= i < commits.len(),
        lane_budget(commits.take(i + 1)) <= usize::MAX,
    ensures
        ({
            let st = after_commits(commits.take(i), head).at;
            let b = branching(st, commits[i]);
            &&& after_commits(commits, head).rows.len() == commits.len()
            &&& after_commits(commits, head).rows[i] == row_of(st, commits[i], head)
            &&& after_commits(commits.take(i + 1), head).at.lanes == b.lanes
            &&& sound_lanes(st.lanes, st.next_lane)
            &&& colored(st.lanes, st.next_color)
            &&& st.lanes.len() < usize::MAX
            &&& b.lanes.len() <= usize::MAX
            &&& sound_branching(b, other_lanes(st.lanes, commits[i].sha))
            &&& st.next_lane + 1 + commits[i].parents.len() <= usize::MAX
            &&& st.next_color + 1 + commits[i].parents.len() <= usize::MAX
        }),
{
    let upto = commits.take(i + 1);
    assert(upto.drop_last() =~= commits.take(i));
    assert(upto.last() == commits[i]);
    lemma_rows_prefix(commits, head, i + 1);
    lemma_rows_prefix(commits.take(i), head, i);
    assert(after_commits(upto, head).rows[i] == after_commits(commits, head).rows.take(i + 1)[i]);
    lemma_colored_commits(commits.take(i), head);
    lemma_colored_commits(upto, head);
    lemma_sound_commit(after_commits(commits.take(i), head).at, commits[i]);
}

/// The lanes that pass a commit by, one segment each, from left to right.
proof fn lemma_through_content(lanes: Seq<Lane>, next: Seq<Lane>, sha: Seq<char>, n: nat)
    requires
        n <= lanes.len() <= usize::MAX,
    ensures
        ({
            let through = through_segments(lanes, next, sha, n);
            &&& forall|s: int|
                0 <= s < through.len() ==> {
                    let segment = #[trigger] through[s];
                    &&& segment.shape == SegmentShape::Through
                    &&& segment.from_lane < n
                    &&& lanes[segment.from_lane as int].target != sha
                    &&& segment.color_id == lanes[segment.from_lane as int].color_id
                    &&& segment.to_lane == lane_from(
                        next,
                        lanes[segment.from_lane as int].id,
                        0,
                    ) as usize
                }
            &&& forall|s: int, u: int|
                0 <= s < u < through.len() ==> (#[trigger] through[s]).from_lane < (
                #[trigger] through[u]).from_lane
        }),
    decreases n,
{
    if n > 0 {
        lemma_through_content(lanes, next, sha, (n - 1) as nat);
    }
}

/// The lanes that end at a commit, one segment each, from left to right.
proof fn lemma_incoming_content(
    lanes: Seq<Lane>,
    next: Seq<Lane>,
    node: int,
    sha: Seq<char>,
    n: nat,
)
    requires
        n <= lanes.len() <= usize::MAX,
        0 <= node <= usize::MAX,
    ensures
        ({
            let incoming = incoming_segments(lanes, node, sha, n);
            &&& through_segments(lanes, next, sha, n).len() + incoming.len() == n
            &&& forall|s: int|
                0 <= s < incoming.len() ==> {
                    let segment = #[trigger] incoming[s];
                    &&& segment.shape == SegmentShape::Incoming
                    &&& segment.from_lane < n
                    &&& lanes[segment.from_lane as int].target == sha
                    &&& segment.color_id == lanes[segment.from_lane as int].color_id
                    &&& segment.to_lane == node
                }
            &&& forall|s: int, u: int|
                0 <= s < u < incoming.len() ==> (#[trigger] incoming[s]).from_lane < (
                #[trigger] incoming[u]).from_lane
        }),
    decreases n,
{
    if n > 0 {
        lemma_incoming_content(lanes, next, node, sha, (n - 1) as nat);
    }
}

/// Every parent of a commit is reached from it: the row has one outgoing segment for each, in
/// their order, and it leads from the node to a lane behind the row that waits for that very
/// parent, in that lane's color. The first parent's line goes straight on in the commit's own
/// color. Any other parent's goes to the leftmost lane that waits for it.
#[verifier::rlimit(50)]
pub proof fn law_parents_are_reached(
    commits: Seq<CommitModel>,
    head: Option<Seq<char>>,
    i: int,
    k: int,
)
    requires
        0 <= i < commits.len(),
        0 <= k < commits[i].parents.len(),
        lane_budget(commits.take(i + 1)) <= usize::MAX,
    ensures
        ({
            let after = after_commits(commits.take(i + 1), head).at.lanes;
            let row = after_commits(commits, head).rows[i];
            let s = row.segments.len() - commits[i].parents.len() + k;
            let segment = row.segments[s];
            let t = segment.to_lane as int;
            &&& 0 <= s
            &&& segment.shape == SegmentShape::Outgoing
            &&& segment.from_lane == row.node_lane
            &&& t < after.len()
            &&& after[t].target == commits[i].parents[k]
            &&& after[t].color_id == segment.color_id
            &&& k == 0 ==> t == row.node_lane && segment.color_id == row.node_color_id
            &&& k > 0 ==> forall|u: int|
                0 <= u < t ==> (#[trigger] after[u]).target != commits[i].parents[k]
        }),
{
    lemma_row(commits, head, i);
    let st = after_commits(commits.take(i), head).at;
    let c = commits[i];
    let b = branching(st, c);
    let at = node_lane(st.lanes, c.sha);
    lemma_shaped_commit(st, c);
    lemma_waiting_from(st.lanes, c.sha, 0);
    lemma_incoming_content(st.lanes, b.lanes, at, c.sha, st.lanes.len());
    let outgoing = outgoing_segments(b.leaving, b.lanes, at);
    let row = after_commits(commits, head).rows[i];
    let s = row.segments.len() - c.parents.len() + k;
    assert(row.segments[s] == outgoing[k]);
    assert(is_served(b, k, c.parents[k]));
    let t = choose|t: int| #[trigger] serves(b, k, c.parents[k], t);
    lemma_lane_place(b.lanes, t);
    assert(outgoing[k].to_lane == t);
    if k == 0 {
        lemma_leaving_first(st, c);
        lemma_lane_place(b.lanes, at);
    }
}

proof fn lemma_leaving_keeps(start: Branching, primary: usize, parents: Seq<Seq<char>>, n: nat)
    requires
        start.leaving.len() > 0,
    ensures
        with_parents(start, primary, parents, n).leaving.len() > 0,
        with_parents(start, primary, parents, n).leaving[0] == start.leaving[0],
    decreases n,
{
    if n > 1 {
        lemma_leaving_keeps(start, primary, parents, (n - 1) as nat);
    }
}

/// The first lane that leaves a commit is its own.
proof fn lemma_leaving_first(st: Lanes, c: CommitModel)
    requires
        c.parents.len() > 0,
    ensures
        branching(st, c).leaving[0] == (own_lane(st, c).id, own_lane(st, c).color_id),
{
    lemma_leaving_keeps(first_branching(st, c), own_lane(st, c).id, c.parents, c.parents.len());
}

/// A commit stands on the leftmost lane that waits for it, in that lane's color, and its first
/// parent's line keeps that lane's id. Where no lane waits for it, it stands right of all lanes, in
/// a color that none of them has.
pub proof fn law_commit_stands_on_its_lane(
    commits: Seq<CommitModel>,
    head: Option<Seq<char>>,
    i: int,
)
    requires
        0 <= i < commits.len(),
        lane_budget(commits.take(i + 1)) <= usize::MAX,
    ensures
        ({
            let before = after_commits(commits.take(i), head).at.lanes;
            let after = after_commits(commits.take(i + 1), head).at.lanes;
            let row = after_commits(commits, head).rows[i];
            let node = row.node_lane as int;
            &&& node <= before.len()
            &&& forall|j: int| 0 <= j < node ==> (#[trigger] before[j]).target != commits[i].sha
            &&& node < before.len() ==> {
                &&& before[node].target == commits[i].sha
                &&& before[node].color_id == row.node_color_id
                &&& commits[i].parents.len() > 0 ==> node < after.len() && after[node].id
                    == before[node].id
            }
            &&& node == before.len() ==> forall|j: int|
                0 <= j < before.len() ==> (#[trigger] before[j]).color_id != row.node_color_id
        }),
{
    lemma_row(commits, head, i);
    let st = after_commits(commits.take(i), head).at;
    lemma_waiting_from(st.lanes, commits[i].sha, 0);
    if commits[i].parents.len() > 0 {
        lemma_shaped_commit(st, commits[i]);
    }
}

/// A row draws every lane before it once, and every parent once, and nothing else. A lane that
/// waited for the commit ends at its node. Every other lane goes on as it was behind the row.
#[verifier::rlimit(50)]
pub proof fn law_rows_are_complete(commits: Seq<CommitModel>, head: Option<Seq<char>>, i: int)
    requires
        0 <= i < commits.len(),
        lane_budget(commits.take(i + 1)) <= usize::MAX,
    ensures
        ({
            let before = after_commits(commits.take(i), head).at.lanes;
            let after = after_commits(commits.take(i + 1), head).at.lanes;
            let row = after_commits(commits, head).rows[i];
            &&& row.segments.len() == before.len() + commits[i].parents.len()
            &&& forall|s: int|
                0 <= s < row.segments.len() ==> {
                    let segment = #[trigger] row.segments[s];
                    let from = segment.from_lane as int;
                    let to = segment.to_lane as int;
                    match segment.shape {
                        SegmentShape::Through => s < before.len() && from < before.len()
                            && before[from].target != commits[i].sha && to < after.len()
                            && after[to] == before[from] && segment.color_id
                            == before[from].color_id,
                        SegmentShape::Incoming => s < before.len() && from < before.len()
                            && before[from].target == commits[i].sha && to == row.node_lane
                            && segment.color_id == before[from].color_id,
                        SegmentShape::Outgoing => s >= before.len() && from == row.node_lane,
                    }
                }
            &&& forall|s: int, u: int|
                0 <= s < u < before.len() ==> (#[trigger] row.segments[s]).from_lane != (
                #[trigger] row.segments[u]).from_lane
        }),
{
    lemma_row(commits, head, i);
    let st = after_commits(commits.take(i), head).at;
    let c = commits[i];
    let before = st.lanes;
    let b = branching(st, c);
    let after = b.lanes;
    let others = other_lanes(before, c.sha);
    let at = node_lane(before, c.sha);
    let row = after_commits(commits, head).rows[i];
    lemma_waiting_from(before, c.sha, 0);
    lemma_other_lanes(before, c.sha);
    lemma_through_content(before, after, c.sha, before.len());
    lemma_incoming_content(before, after, at, c.sha, before.len());
    let through = through_segments(before, after, c.sha, before.len());
    let incoming = incoming_segments(before, at, c.sha, before.len());
    let outgoing = outgoing_segments(b.leaving, after, at);
    if c.parents.len() > 0 {
        lemma_shaped_commit(st, c);
    }
    assert(outgoing.len() == c.parents.len());
    assert forall|s: int| 0 <= s < row.segments.len() implies (#[trigger] row.segments[s]) == (
    if s < through.len() {
        through[s]
    } else if s < before.len() {
        incoming[s - through.len()]
    } else {
        outgoing[s - before.len()]
    }) by {}
    assert forall|s: int| 0 <= s < through.len() implies {
        let segment = #[trigger] through[s];
        segment.to_lane < after.len() && after[segment.to_lane as int]
            == before[segment.from_lane as int]
    } by {
        let j = through[s].from_lane as int;
        assert(others.contains(before[j]));
        let o = choose|o: int| 0 <= o < others.len() && others[o] == before[j];
        assert(after.contains(others[o]));
        let t = choose|t: int| 0 <= t < after.len() && after[t] == others[o];
        lemma_lane_place(after, t);
    }
    assert forall|s: int, u: int| 0 <= s < u < before.len() implies (
    #[trigger] row.segments[s]).from_lane != (#[trigger] row.segments[u]).from_lane by {
        if u < through.len() {
            assert(through[s].from_lane < through[u].from_lane);
        } else if s >= through.len() {
            assert(incoming[s - through.len()].from_lane < incoming[u - through.len()].from_lane);
        } else {
            assert(row.segments[s] == through[s]);
            assert(row.segments[u] == incoming[u - through.len()]);
        }
    }
}

/// Where a lane that passes a commit by stands behind it.
#[verifier::rlimit(50)]
proof fn lemma_passing_place(st: Lanes, c: CommitModel, j: int, t: int)
    requires
        sound_lanes(st.lanes, st.next_lane),
        st.next_lane + 1 + c.parents.len() <= usize::MAX,
        st.next_color + 1 + c.parents.len() <= usize::MAX,
        0 <= j < st.lanes.len(),
        st.lanes[j].target != c.sha,
        0 <= t < branching(st, c).lanes.len(),
        branching(st, c).lanes[t] == st.lanes[j],
    ensures
        ({
            let at = node_lane(st.lanes, c.sha);
            let r = other_lanes(st.lanes.take(j), c.sha).len() as int;
            &&& j < at ==> r == j
            &&& j >= at ==> r >= at
            &&& t == (if c.parents.len() == 0 || r < at {
                r
            } else {
                r + 1 + branching(st, c).opened
            })
        }),
{
    let b = branching(st, c);
    let at = node_lane(st.lanes, c.sha);
    let others = other_lanes(st.lanes, c.sha);
    let r = other_lanes(st.lanes.take(j), c.sha).len() as int;
    lemma_waiting_from(st.lanes, c.sha, 0);
    lemma_others_on_the_left(st.lanes, c.sha);
    lemma_other_place(st.lanes, c.sha, j);
    lemma_sound_commit(st, c);
    let least = min(j, at);
    let left = st.lanes.take(least);
    lemma_waiting_from(left, c.sha, 0);
    if waiting_from(left, c.sha, 0) < left.len() {
        assert(st.lanes[waiting_from(left, c.sha, 0)].target == c.sha);
    }
    lemma_others_on_the_left(left, c.sha);
    lemma_others_grow(st.lanes, c.sha, least, j);
    let place = if c.parents.len() == 0 || r < at {
        r
    } else {
        r + 1 + b.opened
    };
    if c.parents.len() > 0 {
        lemma_shaped_commit(st, c);
    }
    assert(b.lanes[place] == others[r]);
    if place < t {
        assert(b.lanes[place].id != b.lanes[t].id);
    } else if t < place {
        assert(b.lanes[t].id != b.lanes[place].id);
    }
}

/// Lines do not cross: lanes that pass a commit by keep their order, and those left of its node
/// keep their place, while those right of it stay right of it where the commit's line goes on.
#[verifier::rlimit(50)]
pub proof fn law_lines_do_not_cross(
    commits: Seq<CommitModel>,
    head: Option<Seq<char>>,
    i: int,
    s: int,
    u: int,
)
    requires
        0 <= i < commits.len(),
        lane_budget(commits.take(i + 1)) <= usize::MAX,
        ({
            let row = after_commits(commits, head).rows[i];
            &&& 0 <= s < row.segments.len()
            &&& 0 <= u < row.segments.len()
            &&& row.segments[s].shape == SegmentShape::Through
            &&& row.segments[u].shape == SegmentShape::Through
        }),
    ensures
        ({
            let row = after_commits(commits, head).rows[i];
            let left = row.segments[s];
            let right = row.segments[u];
            &&& left.from_lane < right.from_lane ==> left.to_lane < right.to_lane
            &&& left.from_lane < row.node_lane ==> left.to_lane == left.from_lane
            &&& left.from_lane > row.node_lane && commits[i].parents.len() > 0 ==> left.to_lane
                > row.node_lane
        }),
{
    lemma_row(commits, head, i);
    law_rows_are_complete(commits, head, i);
    let st = after_commits(commits.take(i), head).at;
    let c = commits[i];
    let row = after_commits(commits, head).rows[i];
    let x = row.segments[s];
    let y = row.segments[u];
    lemma_waiting_from(st.lanes, c.sha, 0);
    lemma_passing_place(st, c, x.from_lane as int, x.to_lane as int);
    lemma_passing_place(st, c, y.from_lane as int, y.to_lane as int);
    if x.from_lane < y.from_lane {
        lemma_others_grow(st.lanes, c.sha, x.from_lane as int, y.from_lane as int);
    }
}

/// A lane is new behind a commit only where it must be. It waits for one of the parents; it stands
/// right of the commit's own line with nothing but new lanes between; and it is the only lane that
/// waits for that parent.
#[verifier::rlimit(50)]
pub proof fn law_new_lanes_stand_beside_the_commit(
    commits: Seq<CommitModel>,
    head: Option<Seq<char>>,
    i: int,
    t: int,
)
    requires
        0 <= i < commits.len(),
        lane_budget(commits.take(i + 1)) <= usize::MAX,
        0 <= t < after_commits(commits.take(i + 1), head).at.lanes.len(),
        t != after_commits(commits, head).rows[i].node_lane,
        ({
            let before = after_commits(commits.take(i), head).at.lanes;
            let after = after_commits(commits.take(i + 1), head).at.lanes;
            forall|j: int| 0 <= j < before.len() ==> #[trigger] before[j] != after[t]
        }),
    ensures
        ({
            let before = after_commits(commits.take(i), head).at.lanes;
            let after = after_commits(commits.take(i + 1), head).at.lanes;
            let node = after_commits(commits, head).rows[i].node_lane as int;
            &&& node < t < node + commits[i].parents.len()
            &&& exists|k: int|
                0 < k < commits[i].parents.len() && #[trigger] commits[i].parents[k]
                    == after[t].target
            &&& forall|u: int|
                0 <= u < after.len() && u != t ==> (#[trigger] after[u]).target != after[t].target
            &&& forall|u: int, j: int|
                node < u < t && 0 <= j < before.len() ==> #[trigger] before[j] != (
                #[trigger] after[u])
        }),
{
    lemma_row(commits, head, i);
    let st = after_commits(commits.take(i), head).at;
    let c = commits[i];
    let b = branching(st, c);
    let before = st.lanes;
    let after = b.lanes;
    let at = node_lane(before, c.sha);
    let others = other_lanes(before, c.sha);
    lemma_waiting_from(before, c.sha, 0);
    lemma_other_lanes(before, c.sha);
    if others.contains(after[t]) {
        let o = choose|o: int| 0 <= o < others.len() && others[o] == after[t];
        let j = choose|j: int|
            0 <= j < before.len() && #[trigger] before[j] == others[o] && before[j].target != c.sha;
        assert(before[j] != after[t]);
    }
    assert(b.leaving.contains((after[t].id, after[t].color_id)));
    let k = choose|k: int|
        0 <= k < b.leaving.len() && b.leaving[k] == (after[t].id, after[t].color_id);
    assert(c.parents.len() > 0);
    lemma_shaped_commit(st, c);
    if t < at {
        assert(after[t] == others[t]);
        assert(others.contains(after[t]));
    } else if t > at + b.opened {
        assert(after[t] == others[t - 1 - b.opened]);
        assert(others.contains(after[t]));
    }
    assert(is_served(b, k, c.parents[k]));
    let t0 = choose|t0: int| #[trigger] serves(b, k, c.parents[k], t0);
    if t0 < t {
        assert(after[t0].id != after[t].id);
    } else if t < t0 {
        assert(after[t].id != after[t0].id);
    }
    assert(c.parents[k] == after[t].target);
    if k == 0 {
        lemma_leaving_first(st, c);
        assert(after[at].id != after[t].id);
    }
    assert forall|u: int, j: int| at < u < t && 0 <= j < before.len() implies #[trigger] before[j]
        != (#[trigger] after[u]) by {
        assert(before[j].id < st.next_lane);
        assert(after[u].id >= st.next_lane);
    }
}

// ---------------------------------------------------------------------------
// Lines between commits
// ---------------------------------------------------------------------------

/// The row has a segment of this shape and color between the two lanes.
pub open spec fn draws(
    row: RowModel,
    shape: SegmentShape,
    from: int,
    to: int,
    color: usize,
) -> bool {
    exists|s: int|
        0 <= s < row.segments.len() && (#[trigger] row.segments[s]).shape == shape
            && row.segments[s].from_lane == from && row.segments[s].to_lane == to
            && row.segments[s].color_id == color
}

/// A line of one color leaves the node of row `i` and passes the rows before row `n` by: `path` is
/// the lane on which it stands behind each of them.
pub open spec fn trail(rows: Seq<RowModel>, i: int, n: int, path: Seq<int>, color: usize) -> bool {
    &&& 0 <= i < n
    &&& path.len() == n - i
    &&& draws(rows[i], SegmentShape::Outgoing, rows[i].node_lane as int, path[0], color)
    &&& forall|k: int|
        i < k < n ==> draws(
            #[trigger] rows[k],
            SegmentShape::Through,
            path[k - i - 1],
            path[k - i],
            color,
        )
}

/// A line of one color leads from the node of row `i` to that of row `j`.
pub open spec fn joined(rows: Seq<RowModel>, i: int, j: int, color: usize) -> bool {
    exists|path: Seq<int>|
        #[trigger] trail(rows, i, j, path, color) && draws(
            rows[j],
            SegmentShape::Incoming,
            path.last(),
            rows[j].node_lane as int,
            color,
        )
}

/// A line that passes a commit by stands on the same lane behind it.
#[verifier::rlimit(50)]
proof fn lemma_trail_goes_on(
    commits: Seq<CommitModel>,
    head: Option<Seq<char>>,
    i: int,
    n: int,
    path: Seq<int>,
    color: usize,
) -> (longer: Seq<int>)
    requires
        0 <= i < n < commits.len(),
        lane_budget(commits.take(n + 1)) <= usize::MAX,
        trail(after_commits(commits, head).rows, i, n, path, color),
        ({
            let before = after_commits(commits.take(n), head).at.lanes;
            &&& 0 <= path.last() < before.len()
            &&& before[path.last()].color_id == color
            &&& before[path.last()].target != commits[n].sha
        }),
    ensures
        trail(after_commits(commits, head).rows, i, n + 1, longer, color),
        ({
            let before = after_commits(commits.take(n), head).at.lanes;
            let after = after_commits(commits.take(n + 1), head).at.lanes;
            0 <= longer.last() < after.len() && after[longer.last()] == before[path.last()]
        }),
{
    lemma_row(commits, head, n);
    let rows = after_commits(commits, head).rows;
    let st = after_commits(commits.take(n), head).at;
    let before = st.lanes;
    let c = commits[n];
    let after = branching(st, c).lanes;
    let j = path.last();
    lemma_through(before, after, c.sha, before.len(), j);
    let through = through_segments(before, after, c.sha, before.len());
    let s = choose|s: int|
        0 <= s < through.len() && through[s] == (GraphSegment {
            from_lane: j as usize,
            to_lane: lane_from(after, before[j].id, 0) as usize,
            color_id: before[j].color_id,
            shape: SegmentShape::Through,
        });
    assert(rows[n].segments[s] == through[s]);
    law_rows_are_complete(commits, head, n);
    let t = through[s].to_lane as int;
    assert(draws(rows[n], SegmentShape::Through, j, t, color));
    let longer = path.push(t);
    assert forall|k: int| i < k < n + 1 implies draws(
        #[trigger] rows[k],
        SegmentShape::Through,
        longer[k - i - 1],
        longer[k - i],
        color,
    ) by {
        if k < n {
            assert(longer[k - i - 1] == path[k - i - 1] && longer[k - i] == path[k - i]);
        }
    }
    assert(longer[0] == path[0]);
    longer
}

/// The line from a commit to one of its parents, as long as that has not come.
proof fn lemma_trail_to_parent(
    commits: Seq<CommitModel>,
    head: Option<Seq<char>>,
    i: int,
    q: int,
    n: int,
) -> (r: (Seq<int>, usize))
    requires
        0 <= i < n <= commits.len(),
        0 <= q < commits[i].parents.len(),
        lane_budget(commits.take(n)) <= usize::MAX,
        forall|k: int| i < k < n ==> (#[trigger] commits[k]).sha != commits[i].parents[q],
    ensures
        trail(after_commits(commits, head).rows, i, n, r.0, r.1),
        ({
            let lanes = after_commits(commits.take(n), head).at.lanes;
            &&& 0 <= r.0.last() < lanes.len()
            &&& lanes[r.0.last()].color_id == r.1
            &&& lanes[r.0.last()].target == commits[i].parents[q]
        }),
        q == 0 ==> r.1 == after_commits(commits, head).rows[i].node_color_id,
    decreases n,
{
    let rows = after_commits(commits, head).rows;
    if n == i + 1 {
        lemma_row(commits, head, i);
        law_parents_are_reached(commits, head, i, q);
        let row = rows[i];
        let s = row.segments.len() - commits[i].parents.len() + q;
        let segment = row.segments[s];
        assert(draws(
            row,
            SegmentShape::Outgoing,
            row.node_lane as int,
            segment.to_lane as int,
            segment.color_id,
        ));
        (seq![segment.to_lane as int], segment.color_id)
    } else {
        lemma_budget_prefix(commits.take(n), n - 1);
        assert(commits.take(n).take(n - 1) =~= commits.take(n - 1));
        let (path, color) = lemma_trail_to_parent(commits, head, i, q, n - 1);
        let longer = lemma_trail_goes_on(commits, head, i, n - 1, path, color);
        (longer, color)
    }
}

/// A child is joined to its parent: from each commit an unbroken line of one color leads to each of
/// its parents that is listed below it, and the first parent's line has the commit's color.
#[verifier::rlimit(50)]
pub proof fn law_children_are_joined_to_parents(
    commits: Seq<CommitModel>,
    head: Option<Seq<char>>,
    i: int,
    q: int,
    j: int,
)
    requires
        0 <= i < j < commits.len(),
        0 <= q < commits[i].parents.len(),
        commits[j].sha == commits[i].parents[q],
        forall|k: int| i < k < j ==> (#[trigger] commits[k]).sha != commits[j].sha,
        lane_budget(commits.take(j + 1)) <= usize::MAX,
    ensures
        exists|color: usize| #[trigger] joined(after_commits(commits, head).rows, i, j, color),
        q == 0 ==> joined(
            after_commits(commits, head).rows,
            i,
            j,
            after_commits(commits, head).rows[i].node_color_id,
        ),
{
    let rows = after_commits(commits, head).rows;
    lemma_budget_prefix(commits.take(j + 1), j);
    assert(commits.take(j + 1).take(j) =~= commits.take(j));
    let (path, color) = lemma_trail_to_parent(commits, head, i, q, j);
    lemma_row(commits, head, j);
    let st = after_commits(commits.take(j), head).at;
    let c = commits[j];
    let at = node_lane(st.lanes, c.sha);
    let b = branching(st, c);
    let x = path.last();
    lemma_waiting_from(st.lanes, c.sha, 0);
    lemma_incoming(st.lanes, at, c.sha, st.lanes.len(), x);
    let through = through_segments(st.lanes, b.lanes, c.sha, st.lanes.len());
    let incoming = incoming_segments(st.lanes, at, c.sha, st.lanes.len());
    let s = choose|s: int|
        0 <= s < incoming.len() && incoming[s] == (GraphSegment {
            from_lane: x as usize,
            to_lane: at as usize,
            color_id: st.lanes[x].color_id,
            shape: SegmentShape::Incoming,
        });
    assert(rows[j].segments[through.len() + s] == incoming[s]);
    assert(draws(rows[j], SegmentShape::Incoming, x, rows[j].node_lane as int, color));
    assert(joined(rows, i, j, color));
}

/// Where the line on a lane comes from.
#[verifier::rlimit(50)]
proof fn lemma_lane_has_a_source(
    commits: Seq<CommitModel>,
    head: Option<Seq<char>>,
    n: int,
    t: int,
) -> (r: (int, Seq<int>))
    requires
        0 <= n <= commits.len(),
        lane_budget(commits.take(n)) <= usize::MAX,
        0 <= t < after_commits(commits.take(n), head).at.lanes.len(),
    ensures
        ({
            let lane = after_commits(commits.take(n), head).at.lanes[t];
            &&& trail(after_commits(commits, head).rows, r.0, n, r.1, lane.color_id)
            &&& r.1.last() == t
            &&& commits[r.0].parents.contains(lane.target)
        }),
    decreases n,
{
    let rows = after_commits(commits, head).rows;
    if n == 0 {
        assert(commits.take(0) =~= Seq::empty());
        (0, Seq::empty())
    } else {
        let m = n - 1;
        lemma_budget_prefix(commits.take(n), m);
        assert(commits.take(n).take(m) =~= commits.take(m));
        lemma_row(commits, head, m);
        let st = after_commits(commits.take(m), head).at;
        let c = commits[m];
        let b = branching(st, c);
        let before = st.lanes;
        let after = b.lanes;
        let others = other_lanes(before, c.sha);
        lemma_other_lanes(before, c.sha);
        if others.contains(after[t]) {
            let o = choose|o: int| 0 <= o < others.len() && others[o] == after[t];
            let j = choose|j: int|
                0 <= j < before.len() && #[trigger] before[j] == others[o] && before[j].target
                    != c.sha;
            let (i, path) = lemma_lane_has_a_source(commits, head, m, j);
            let longer = lemma_trail_goes_on(commits, head, i, m, path, before[j].color_id);
            let u = longer.last();
            if u < t {
                assert(after[u].id != after[t].id);
            } else if t < u {
                assert(after[t].id != after[u].id);
            }
            (i, longer)
        } else {
            let k = choose|k: int|
                0 <= k < b.leaving.len() && b.leaving[k] == (after[t].id, after[t].color_id);
            assert(c.parents.len() > 0);
            lemma_shaped_commit(st, c);
            law_parents_are_reached(commits, head, m, k);
            assert(is_served(b, k, c.parents[k]));
            let t0 = choose|t0: int| #[trigger] serves(b, k, c.parents[k], t0);
            if t0 < t {
                assert(after[t0].id != after[t].id);
            } else if t < t0 {
                assert(after[t].id != after[t0].id);
            }
            let row = rows[m];
            let s = row.segments.len() - c.parents.len() + k;
            lemma_lane_place(after, t);
            let at = node_lane(before, c.sha);
            lemma_waiting_from(before, c.sha, 0);
            lemma_incoming_content(before, after, at, c.sha, before.len());
            assert(row.segments[s] == outgoing_segments(b.leaving, after, at)[k]);
            assert(row.segments[s].to_lane == t);
            assert(draws(
                row,
                SegmentShape::Outgoing,
                row.node_lane as int,
                t,
                after[t].color_id,
            ));
            (m, seq![t])
        }
    }
}

/// A line that ends at a commit comes from one of its children: an unbroken line of the same color
/// leads there from a commit above that has it for a parent.
pub proof fn law_lines_come_from_children(
    commits: Seq<CommitModel>,
    head: Option<Seq<char>>,
    j: int,
    s: int,
)
    requires
        0 <= j < commits.len(),
        lane_budget(commits.take(j + 1)) <= usize::MAX,
        0 <= s < after_commits(commits, head).rows[j].segments.len(),
        after_commits(commits, head).rows[j].segments[s].shape == SegmentShape::Incoming,
    ensures
        ({
            let rows = after_commits(commits, head).rows;
            exists|i: int|
                0 <= i < j && commits[i].parents.contains(commits[j].sha) && #[trigger] joined(
                    rows,
                    i,
                    j,
                    rows[j].segments[s].color_id,
                )
        }),
{
    let rows = after_commits(commits, head).rows;
    lemma_budget_prefix(commits.take(j + 1), j);
    assert(commits.take(j + 1).take(j) =~= commits.take(j));
    law_rows_are_complete(commits, head, j);
    let segment = rows[j].segments[s];
    let x = segment.from_lane as int;
    let (i, path) = lemma_lane_has_a_source(commits, head, j, x);
    assert(draws(
        rows[j],
        SegmentShape::Incoming,
        path.last(),
        rows[j].node_lane as int,
        segment.color_id,
    ));
    assert(joined(rows, i, j, segment.color_id));
}

/// One of the first `n` parents is `sha`.
pub open spec fn named(parents: Seq<Seq<char>>, n: int, sha: Seq<char>) -> bool {
    exists|k: int| 0 <= k < n && #[trigger] parents[k] == sha
}

/// Each opened lane waits for one of the first `n` parents, and of two opened lanes the left one
/// waits for the one that is named first.
spec fn in_order(b: Branching, at: int, parents: Seq<Seq<char>>, n: int) -> bool {
    &&& forall|t: int|
        at < t <= at + b.opened ==> named(parents, n, (#[trigger] b.lanes[t]).target)
    &&& forall|t: int, u: int, k: int|
        at < t < u <= at + b.opened && 0 <= k < n && #[trigger] parents[k] == (
        #[trigger] b.lanes[u]).target ==> named(parents, k, (#[trigger] b.lanes[t]).target)
}

#[verifier::rlimit(50)]
proof fn lemma_in_order_parents(
    start: Branching,
    others: Seq<Lane>,
    at: int,
    first: Lane,
    parents: Seq<Seq<char>>,
    n: nat,
)
    requires
        sound_branching(start, others),
        shaped(start, others, at, first, start.next_lane, start.next_color),
        start.opened == 0,
        1 <= n <= parents.len(),
        served(start, at, parents, 1),
        start.next_lane + n <= usize::MAX,
        start.next_color + n <= usize::MAX,
    ensures
        in_order(with_parents(start, first.id, parents, n), at, parents, n as int),
    decreases n,
{
    if n > 1 {
        let m = (n - 1) as nat;
        lemma_shaped_parents(start, others, at, first, parents, m);
        lemma_in_order_parents(start, others, at, first, parents, m);
        let b = with_parents(start, first.id, parents, m);
        let parent = parents[m as int];
        let after = with_parent(b, first.id, parent);
        let w = waiting_from(b.lanes, parent, 0);
        lemma_waiting_from(b.lanes, parent, 0);
        lemma_lane_place(b.lanes, at);
        let place = at + 1 + b.opened;
        assert forall|t: int| at < t <= at + b.opened implies (#[trigger] after.lanes[t])
            == b.lanes[t] by {}
        assert forall|t: int| at < t <= at + after.opened implies named(
            parents,
            n as int,
            (#[trigger] after.lanes[t]).target,
        ) by {
            if t == place {
                assert(parents[m as int] == after.lanes[t].target);
            } else {
                assert(named(parents, m as int, b.lanes[t].target));
            }
        }
        assert forall|t: int, u: int, k: int|
            at < t < u <= at + after.opened && 0 <= k < n && #[trigger] parents[k] == (
            #[trigger] after.lanes[u]).target implies named(
            parents,
            k,
            (#[trigger] after.lanes[t]).target,
        ) by {
            assert(named(parents, m as int, b.lanes[t].target));
            if u == place && k < m {
                assert(is_served(b, k, parents[k]));
                let x = choose|x: int| #[trigger] serves(b, k, parents[k], x);
                assert(b.lanes[x].target == parent);
                assert(false);
            } else if k < m {
                assert(parents[k] == b.lanes[u].target);
            }
        }
    }
}

proof fn lemma_in_order_commit(st: Lanes, c: CommitModel)
    requires
        sound_lanes(st.lanes, st.next_lane),
        st.next_lane + 1 + c.parents.len() <= usize::MAX,
        st.next_color + 1 + c.parents.len() <= usize::MAX,
        c.parents.len() > 0,
    ensures
        in_order(
            branching(st, c),
            node_lane(st.lanes, c.sha),
            c.parents,
            c.parents.len() as int,
        ),
{
    let others = other_lanes(st.lanes, c.sha);
    let at = node_lane(st.lanes, c.sha);
    let first = own_lane(st, c);
    let start = first_branching(st, c);
    lemma_first_branching(st, c);
    lemma_in_order_parents(start, others, at, first, c.parents, c.parents.len());
}

/// New lanes stand in the order in which a commit names its parents: of two lanes that are new
/// behind it, beside its own line, the left one waits for the parent that is named first.
#[verifier::rlimit(50)]
pub proof fn law_new_lanes_follow_the_parents(
    commits: Seq<CommitModel>,
    head: Option<Seq<char>>,
    i: int,
    t: int,
    u: int,
    k: int,
)
    requires
        0 <= i < commits.len(),
        lane_budget(commits.take(i + 1)) <= usize::MAX,
        t < u,
        ({
            let before = after_commits(commits.take(i), head).at.lanes;
            let after = after_commits(commits.take(i + 1), head).at.lanes;
            let node = after_commits(commits, head).rows[i].node_lane;
            &&& 0 <= t < after.len() && t != node
            &&& 0 <= u < after.len() && u != node
            &&& forall|j: int|
                0 <= j < before.len() ==> #[trigger] before[j] != after[t] && before[j] != after[u]
            &&& 0 <= k < commits[i].parents.len()
            &&& commits[i].parents[k] == after[u].target
        }),
    ensures
        named(
            commits[i].parents,
            k,
            after_commits(commits.take(i + 1), head).at.lanes[t].target,
        ),
{
    law_new_lanes_stand_beside_the_commit(commits, head, i, t);
    law_new_lanes_stand_beside_the_commit(commits, head, i, u);
    lemma_row(commits, head, i);
    let st = after_commits(commits.take(i), head).at;
    let c = commits[i];
    let b = branching(st, c);
    let at = node_lane(st.lanes, c.sha);
    let others = other_lanes(st.lanes, c.sha);
    lemma_waiting_from(st.lanes, c.sha, 0);
    lemma_other_lanes(st.lanes, c.sha);
    lemma_shaped_commit(st, c);
    lemma_in_order_commit(st, c);
    if u > at + b.opened {
        let o = u - 1 - b.opened;
        assert(b.lanes[u] == others[o]);
        let j = choose|j: int|
            0 <= j < st.lanes.len() && #[trigger] st.lanes[j] == others[o] && st.lanes[j].target
                != c.sha;
        assert(st.lanes[j] != b.lanes[u]);
    }
    assert(named(c.parents, k, b.lanes[t].target));
}

/// A node or an end of a segment lies on this lane in the row.
pub open spec fn occupies(row: RowModel, lane: int) -> bool {
    ||| row.node_lane == lane
    ||| exists|s: int|
        0 <= s < row.segments.len() && ((#[trigger] row.segments[s]).from_lane == lane
            || row.segments[s].to_lane == lane)
}

/// A layout counts no more lanes than it needs: the last of them is used in some row.
#[verifier::rlimit(50)]
pub proof fn law_every_counted_lane_is_needed(commits: Seq<CommitModel>, head: Option<Seq<char>>)
    requires
        commits.len() > 0,
        lane_budget(commits) <= usize::MAX,
    ensures
        ({
            let st = after_commits(commits, head);
            exists|i: int|
                0 <= i < commits.len() && occupies(#[trigger] st.rows[i], st.max_lanes - 1)
        }),
    decreases commits.len(),
{
    let st = after_commits(commits, head);
    let front = commits.drop_last();
    let earlier = after_commits(front, head);
    let last = commits.len() - 1;
    assert(commits.take(last) =~= front);
    assert(commits.take(last + 1) =~= commits);
    lemma_row(commits, head, last);
    let before = earlier.at.lanes;
    let after = st.at.lanes;
    let row = st.rows[last];
    lemma_rows_prefix(front, head, last);
    lemma_rows_prefix(commits, head, last);
    lemma_waiting_from(before, commits[last].sha, 0);
    if front.len() > 0 && st.max_lanes == earlier.max_lanes {
        law_every_counted_lane_is_needed(front, head);
        let i = choose|i: int|
            0 <= i < front.len() && occupies(#[trigger] earlier.rows[i], earlier.max_lanes - 1);
        assert(st.rows[i] == earlier.rows[i]);
    } else {
        law_paths_continue(commits, head, last);
        if st.max_lanes == row.node_lane + 1 {
            assert(occupies(row, st.max_lanes - 1));
        } else if st.max_lanes == before.len() {
            let j = before.len() - 1;
            let lane = before[j];
            if lane.target == commits[last].sha {
                assert(leads(row, j, row.node_lane as int, lane.color_id));
            } else {
                let t = choose|t: int|
                    0 <= t < after.len() && #[trigger] after[t] == before[j] && leads(
                        row,
                        j,
                        t,
                        lane.color_id,
                    );
                assert(leads(row, j, t, lane.color_id));
            }
            assert(occupies(row, j));
        } else {
            let t = after.len() - 1;
            assert(drawn_to(row, t, after[t].color_id));
            let from = choose|from: int| #[trigger] leads(row, from, t, after[t].color_id);
            assert(leads(row, from, t, after[t].color_id));
            assert(occupies(row, t));
        }
        assert(occupies(st.rows[last], st.max_lanes - 1));
    }
}

/// What the graph reads of a commit is its sha and its parents, in their order.
pub proof fn law_commits_are_read_as_they_are(commits: Seq<GitHistoryCommit>, i: int, k: int)
    requires
        0 <= i < commits.len(),
        0 <= k < commits[i].parent_shas@.len(),
    ensures
        commit_models(commits).len() == commits.len(),
        commit_models(commits)[i].sha == commits[i].sha@,
        commit_models(commits)[i].parents.len() == commits[i].parent_shas@.len(),
        commit_models(commits)[i].parents[k] == commits[i].parent_shas@[k]@,
{
}

/// A row's segments are in order: first the lanes that pass the commit by, then those that end at it,
/// each from left to right, and then those that leave it.
#[verifier::rlimit(50)]
pub proof fn law_segments_are_in_order(
    commits: Seq<CommitModel>,
    head: Option<Seq<char>>,
    i: int,
    s: int,
    u: int,
)
    requires
        0 <= i < commits.len(),
        lane_budget(commits.take(i + 1)) <= usize::MAX,
        0 <= s < u < after_commits(commits, head).rows[i].segments.len(),
    ensures
        ({
            let a = after_commits(commits, head).rows[i].segments[s];
            let b = after_commits(commits, head).rows[i].segments[u];
            &&& a.shape == SegmentShape::Outgoing ==> b.shape == SegmentShape::Outgoing
            &&& a.shape == SegmentShape::Incoming ==> b.shape != SegmentShape::Through
            &&& a.shape == b.shape && a.shape != SegmentShape::Outgoing ==> a.from_lane
                < b.from_lane
        }),
{
    lemma_row(commits, head, i);
    let st = after_commits(commits.take(i), head).at;
    let c = commits[i];
    let before = st.lanes;
    let b = branching(st, c);
    let at = node_lane(before, c.sha);
    let row = after_commits(commits, head).rows[i];
    lemma_waiting_from(before, c.sha, 0);
    lemma_through_content(before, b.lanes, c.sha, before.len());
    lemma_incoming_content(before, b.lanes, at, c.sha, before.len());
    let through = through_segments(before, b.lanes, c.sha, before.len());
    let incoming = incoming_segments(before, at, c.sha, before.len());
    let outgoing = outgoing_segments(b.leaving, b.lanes, at);
    assert forall|k: int| 0 <= k < row.segments.len() implies (#[trigger] row.segments[k]) == (
    if k < through.len() {
        through[k]
    } else if k < before.len() {
        incoming[k - through.len()]
    } else {
        outgoing[k - before.len()]
    }) by {}
    assert forall|k: int| 0 <= k < outgoing.len() implies (#[trigger] outgoing[k]).shape
        == SegmentShape::Outgoing by {}
    if u < through.len() {
        assert(through[s].from_lane < through[u].from_lane);
    } else if through.len() <= s && u < before.len() {
        assert(incoming[s - through.len()].from_lane < incoming[u - through.len()].from_lane);
    }
}

/// A lane behind the row that was not there before it, beside the commit's own.
pub open spec fn is_new_lane(before: Seq<Lane>, after: Seq<Lane>, node: int, t: int) -> bool {
    &&& 0 <= t < after.len()
    &&& t != node
    &&& forall|j: int| 0 <= j < before.len() ==> #[trigger] before[j] != after[t]
}

/// Colors are handed out in order, from the first one on: a commit that no lane waits for takes the
/// next one, and each new lane beside it the next one again, from left to right.
#[verifier::rlimit(50)]
pub proof fn law_colors_are_handed_out_in_order(
    commits: Seq<CommitModel>,
    head: Option<Seq<char>>,
    i: int,
)
    requires
        0 <= i < commits.len(),
        lane_budget(commits.take(i + 1)) <= usize::MAX,
    ensures
        ({
            let before = after_commits(commits.take(i), head).at;
            let after = after_commits(commits.take(i + 1), head).at;
            let row = after_commits(commits, head).rows[i];
            let node = row.node_lane as int;
            let own: int = if node < before.lanes.len() {
                0
            } else {
                1
            };
            let count = after.next_color - before.next_color - own;
            &&& i == 0 ==> before.next_color == 0
            &&& node == before.lanes.len() ==> row.node_color_id == before.next_color
            &&& count >= 0
            &&& forall|t: int|
                node < t <= node + count ==> t < after.lanes.len() && (
                #[trigger] after.lanes[t]).color_id == before.next_color + own + (t - node - 1)
            &&& commits[i].parents.len() > 0 ==> forall|t: int| #[trigger]
                is_new_lane(before.lanes, after.lanes, node, t) <==> node < t <= node + count
        }),
{
    lemma_row(commits, head, i);
    let st = after_commits(commits.take(i), head).at;
    let c = commits[i];
    let b = branching(st, c);
    let before = st.lanes;
    let after = b.lanes;
    let at = node_lane(before, c.sha);
    let others = other_lanes(before, c.sha);
    let upto = commits.take(i + 1);
    assert(upto.drop_last() =~= commits.take(i));
    assert(upto.last() == c);
    lemma_waiting_from(before, c.sha, 0);
    if i == 0 {
        assert(commits.take(0) =~= Seq::<CommitModel>::empty());
    }
    if c.parents.len() > 0 {
        lemma_shaped_commit(st, c);
        lemma_other_lanes(before, c.sha);
        assert forall|t: int| #[trigger] is_new_lane(before, after, at, t) <==> at < t <= at
            + b.opened by {
            if at < t <= at + b.opened {
                assert forall|j: int| 0 <= j < before.len() implies #[trigger] before[j]
                    != after[t] by {
                    assert(before[j].id < st.next_lane);
                    assert(after[t].id >= st.next_lane);
                }
            } else if 0 <= t < after.len() && t != at {
                let o = if t < at {
                    t
                } else {
                    t - 1 - b.opened
                };
                assert(after[t] == others[o]);
                let j = choose|j: int|
                    0 <= j < before.len() && #[trigger] before[j] == others[o] && before[j].target
                        != c.sha;
                assert(before[j] == after[t]);
            }
        }
    }
}

} // verus!
