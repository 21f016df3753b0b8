//! Lane layout of a commit graph: which lane each commit sits in and which
//! lines join consecutive rows. Pixel positions follow from lanes and rows.
use vstd::prelude::*;
use crate::seqs::{first_index, is_first_index, lemma_first_index_cases, lemma_first_index_is, lemma_first_index_none};
use crate::text::text_equal;

verus! {

/// One commit of the listed history, newest first.
#[derive(Clone, Debug)]
pub struct GraphCommit {
    pub sha: String,
    pub parents: Vec<String>,
    pub is_unpushed: bool,
}

/// A commit placed in a lane of row `row` (row 0 is the summary row, the
/// first commit sits in row 1).
#[derive(Clone, Debug)]
pub struct GraphNode {
    pub sha: String,
    pub lane: usize,
    pub row: usize,
    pub is_unpushed: bool,
}

/// A line from `from_lane` in row `row` to `to_lane` in row `row + 1`;
/// merge lines join a commit to a parent in another lane.
#[derive(Clone, Copy, Debug, PartialEq, Eq, Structural)]
pub struct GraphSegment {
    pub from_lane: usize,
    pub to_lane: usize,
    pub row: usize,
    pub is_merge: bool,
}

/// Lanes, nodes and segments of a commit graph.
#[derive(Clone, Debug)]
pub struct CommitGraphLayout {
    pub lane_count: usize,
    pub nodes: Vec<GraphNode>,
    pub segments: Vec<GraphSegment>,
}

/// Lane contents: the commit each lane is waiting for, if any.
pub type Lanes = Seq<Option<Seq<char>>>;

/// Text of each lane.
pub open spec fn lanes_view(lanes: Seq<Option<String>>) -> Lanes {
    lanes.map_values(|l: Option<String>| match l {
        Some(s) => Some(s@),
        None => None,
    })
}

/// Test for a lane waiting for `sha`.
pub open spec fn lane_is(sha: Seq<char>) -> spec_fn(Option<Seq<char>>) -> bool {
    |l: Option<Seq<char>>| l == Some(sha)
}

/// Test for a free lane.
pub open spec fn lane_free() -> spec_fn(Option<Seq<char>>) -> bool {
    |l: Option<Seq<char>>| l is None
}

/// Lanes after claiming one for `sha`, and that lane: the lane already
/// waiting for it, else the first free lane, else a new lane at the end.
pub open spec fn claim_lane(lanes: Lanes, sha: Seq<char>) -> (Lanes, int) {
    let existing = first_index(lanes, lane_is(sha));
    if existing >= 0 {
        (lanes, existing)
    } else {
        let free = first_index(lanes, lane_free());
        if free >= 0 {
            (lanes.update(free, Some(sha)), free)
        } else {
            (lanes.push(Some(sha)), lanes.len() as int)
        }
    }
}

/// Lanes with every lane but `keep` that waits for `sha` freed.
pub open spec fn cleared(lanes: Lanes, keep: int, sha: Seq<char>) -> Lanes {
    Seq::new(lanes.len(), |i: int| if i != keep && lanes[i] == Some(sha) { None } else { lanes[i] })
}

/// Lanes after claiming one for each of `parents` in turn, and the lanes
/// claimed.
pub open spec fn claim_parents(lanes: Lanes, parents: Seq<Seq<char>>) -> (Lanes, Seq<int>)
    decreases parents.len(),
{
    if parents.len() == 0 {
        (lanes, Seq::empty())
    } else {
        let (before, claimed) = claim_parents(lanes, parents.drop_last());
        let (after, lane) = claim_lane(before, parents.last());
        (after, claimed.push(lane))
    }
}

/// What one commit does to the lanes.
pub struct RowStep {
    pub lane: int,
    pub before: Lanes,
    pub after: Lanes,
    pub parent_lanes: Seq<int>,
}

/// The commit takes its lane (freeing other lanes that waited for it);
/// its lane then waits for its first parent, unless that parent already
/// has a lane (which the commit joins), and is freed without parents;
/// other parents claim lanes of their own.
pub open spec fn row_step(lanes: Lanes, sha: Seq<char>, parents: Seq<Seq<char>>) -> RowStep {
    let (claimed, lane) = claim_lane(lanes, sha);
    let before = cleared(claimed, lane, sha);
    if parents.len() == 0 {
        RowStep { lane, before, after: before.update(lane, None), parent_lanes: Seq::empty() }
    } else {
        let first = parents[0];
        let existing = first_index(before, lane_is(first));
        let (joined, first_lane) = if existing >= 0 {
            (if existing != lane { before.update(lane, None) } else { before }, existing)
        } else {
            (before.update(lane, Some(first)), lane)
        };
        let (after, others) = claim_parents(joined, parents.skip(1));
        RowStep { lane, before, after, parent_lanes: seq![first_lane] + others }
    }
}

/// Straight lines of row `row` for lanes `0..n` busy both before and after
/// the commit.
pub open spec fn straight_segments(before: Lanes, after: Lanes, row: int, n: int) -> Seq<GraphSegment>
    decreases n,
{
    if n <= 0 {
        Seq::empty()
    } else {
        let rest = straight_segments(before, after, row, n - 1);
        let lane = n - 1;
        if lane < before.len() && before[lane] is Some && lane < after.len() && after[lane] is Some {
            rest.push(GraphSegment { from_lane: lane as usize, to_lane: lane as usize, row: row as usize, is_merge: false })
        } else {
            rest
        }
    }
}

/// Merge lines of row `row` from `lane` to the first `n` parent lanes that
/// differ from it.
pub open spec fn merge_segments(lane: int, parent_lanes: Seq<int>, row: int, n: int) -> Seq<GraphSegment>
    decreases n,
{
    if n <= 0 {
        Seq::empty()
    } else {
        let rest = merge_segments(lane, parent_lanes, row, n - 1);
        let target = parent_lanes[n - 1];
        if target != lane {
            rest.push(GraphSegment { from_lane: lane as usize, to_lane: target as usize, row: row as usize, is_merge: true })
        } else {
            rest
        }
    }
}

/// Lines from row `row` of a step to the next row.
pub open spec fn row_segments(step: RowStep, row: int) -> Seq<GraphSegment> {
    let n = if step.before.len() > step.after.len() { step.before.len() } else { step.after.len() };
    straight_segments(step.before, step.after, row, n as int) + merge_segments(
        step.lane,
        step.parent_lanes,
        row,
        step.parent_lanes.len() as int,
    )
}

/// Largest of `m` and the first `n` of `lanes`.
pub open spec fn max_lane_of(m: int, lanes: Seq<int>, n: int) -> int
    decreases n,
{
    if n <= 0 {
        m
    } else {
        let rest = max_lane_of(m, lanes, n - 1);
        if lanes[n - 1] > rest {
            lanes[n - 1]
        } else {
            rest
        }
    }
}

/// Layout state after the first `n` commits.
pub struct GraphState {
    pub lanes: Lanes,
    pub nodes: Seq<(Seq<char>, int, int, bool)>,
    pub segments: Seq<GraphSegment>,
    pub max_lane: int,
}

/// Text of a commit's parents.
pub open spec fn parents_view(parents: Seq<String>) -> Seq<Seq<char>> {
    parents.map_values(|p: String| p@)
}

/// Layout state after laying out the first `n` of `commits`.
pub open spec fn graph_prefix(commits: Seq<GraphCommit>, n: int) -> GraphState
    decreases n,
{
    if n <= 0 {
        GraphState { lanes: Seq::empty(), nodes: Seq::empty(), segments: Seq::empty(), max_lane: 0 }
    } else {
        let prev = graph_prefix(commits, n - 1);
        let c = commits[n - 1];
        let step = row_step(prev.lanes, c.sha@, parents_view(c.parents@));
        let with_lane = if step.lane > prev.max_lane { step.lane } else { prev.max_lane };
        GraphState {
            lanes: step.after,
            nodes: prev.nodes.push((c.sha@, step.lane, n, c.is_unpushed)),
            segments: if n < commits.len() {
                prev.segments + row_segments(step, n)
            } else {
                prev.segments
            },
            max_lane: max_lane_of(with_lane, step.parent_lanes, step.parent_lanes.len() as int),
        }
    }
}

/// Sha, lane, row and unpushed flag of each node.
pub open spec fn nodes_view(nodes: Seq<GraphNode>) -> Seq<(Seq<char>, int, int, bool)> {
    nodes.map_values(|n: GraphNode| (n.sha@, n.lane as int, n.row as int, n.is_unpushed))
}

/// Position of the lane waiting for `sha`.
fn find_existing_lane(lanes: &Vec<Option<String>>, sha: &String) -> (index: Option<usize>)
    ensures
        match index {
            Some(i) => i == first_index(lanes_view(lanes@), lane_is(sha@)) && i < lanes@.len(),
            None => first_index(lanes_view(lanes@), lane_is(sha@)) == -1,
        },
{
    let ghost lv = lanes_view(lanes@);
    let mut i: usize = 0;
    while i < lanes.len()
        invariant
            i <= lanes@.len(),
            lv == lanes_view(lanes@),
            forall|j: int| 0 <= j < i ==> !lane_is(sha@)(#[trigger] lv[j]),
        decreases lanes.len() - i,
    {
        let same = match &lanes[i] {
            Some(s) => text_equal(s, sha),
            None => false,
        };
        if same {
            proof {
                assert(is_first_index(lv, lane_is(sha@), i as int));
                lemma_first_index_is(lv, lane_is(sha@), i as int);
            }
            return Some(i);
        }
        i = i + 1;
    }
    proof {
        lemma_first_index_none(lv, lane_is(sha@));
    }
    None
}

/// Position of the first free lane.
fn find_free_lane(lanes: &Vec<Option<String>>) -> (index: Option<usize>)
    ensures
        match index {
            Some(i) => i == first_index(lanes_view(lanes@), lane_free()) && i < lanes@.len(),
            None => first_index(lanes_view(lanes@), lane_free()) == -1,
        },
{
    let ghost lv = lanes_view(lanes@);
    let mut i: usize = 0;
    while i < lanes.len()
        invariant
            i <= lanes@.len(),
            lv == lanes_view(lanes@),
            forall|j: int| 0 <= j < i ==> !lane_free()(#[trigger] lv[j]),
        decreases lanes.len() - i,
    {
        if lanes[i].is_none() {
            proof {
                assert(is_first_index(lv, lane_free(), i as int));
                lemma_first_index_is(lv, lane_free(), i as int);
            }
            return Some(i);
        }
        i = i + 1;
    }
    proof {
        lemma_first_index_none(lv, lane_free());
    }
    None
}

/// Sets lane `i`.
fn set_lane(lanes: &mut Vec<Option<String>>, i: usize, value: Option<String>)
    requires
        i < old(lanes)@.len(),
    ensures
        final(lanes)@.len() == old(lanes)@.len(),
        lanes_view(final(lanes)@) == lanes_view(old(lanes)@).update(
            i as int,
            match value {
                Some(s) => Some(s@),
                None => None,
            },
        ),
{
    let ghost before = lanes@;
    lanes[i] = value;
    proof {
        assert(lanes_view(lanes@) =~= lanes_view(before).update(
            i as int,
            match value {
                Some(s) => Some(s@),
                None => None,
            },
        ));
    }
}

/// Claims a lane for `sha`: its waiting lane, else the first free lane,
/// else a new lane.
pub fn find_or_insert_lane(lanes: &mut Vec<Option<String>>, sha: &String) -> (lane: usize)
    ensures
        (lanes_view(final(lanes)@), lane as int) == claim_lane(lanes_view(old(lanes)@), sha@),
        lane < final(lanes)@.len(),
        final(lanes)@.len() >= old(lanes)@.len(),
{
    if let Some(existing) = find_existing_lane(lanes, sha) {
        return existing;
    }
    if let Some(free) = find_free_lane(lanes) {
        set_lane(lanes, free, Some(sha.clone()));
        return free;
    }
    let ghost before = lanes@;
    lanes.push(Some(sha.clone()));
    proof {
        assert(lanes_view(lanes@) =~= lanes_view(before).push(Some(sha@)));
    }
    lanes.len() - 1
}

/// Frees every lane but `keep_lane` that waits for `sha`.
pub fn clear_duplicate_lanes(lanes: &mut Vec<Option<String>>, keep_lane: usize, sha: &String)
    ensures
        lanes_view(final(lanes)@) == cleared(lanes_view(old(lanes)@), keep_lane as int, sha@),
        final(lanes)@.len() == old(lanes)@.len(),
{
    let ghost start = lanes_view(lanes@);
    let mut i: usize = 0;
    while i < lanes.len()
        invariant
            i <= lanes@.len() == start.len(),
            forall|j: int| 0 <= j < i ==> #[trigger] lanes_view(lanes@)[j] == cleared(start, keep_lane as int, sha@)[j],
            forall|j: int| i <= j < start.len() ==> #[trigger] lanes_view(lanes@)[j] == start[j],
        decreases lanes.len() - i,
    {
        assert(lanes_view(lanes@)[i as int] == start[i as int]);
        let duplicate = i != keep_lane && match &lanes[i] {
            Some(s) => text_equal(s, sha),
            None => false,
        };
        assert(duplicate == (i != keep_lane && start[i as int] == Some(sha@)));
        let ghost prev = lanes_view(lanes@);
        if duplicate {
            set_lane(lanes, i, None);
        }
        assert(lanes_view(lanes@)[i as int] == cleared(start, keep_lane as int, sha@)[i as int]);
        assert forall|j: int| 0 <= j < lanes@.len() && j != i implies #[trigger] lanes_view(lanes@)[j] == prev[j] by {}
        i = i + 1;
    }
    proof {
        assert(lanes_view(lanes@) =~= cleared(start, keep_lane as int, sha@));
    }
}

/// A copy of the lanes.
fn copy_lanes(lanes: &Vec<Option<String>>) -> (copy: Vec<Option<String>>)
    ensures
        lanes_view(copy@) == lanes_view(lanes@),
{
    let mut copy: Vec<Option<String>> = Vec::new();
    let mut i: usize = 0;
    while i < lanes.len()
        invariant
            i <= lanes@.len(),
            lanes_view(copy@) == lanes_view(lanes@).take(i as int),
        decreases lanes.len() - i,
    {
        let lane = match &lanes[i] {
            Some(s) => Some(s.clone()),
            None => None,
        };
        assert(lane == lanes@[i as int]);
        let ghost before = copy@;
        copy.push(lane);
        proof {
            assert(lanes_view(copy@) =~= lanes_view(before).push(lanes_view(lanes@)[i as int]));
            assert(lanes_view(copy@) =~= lanes_view(lanes@).take(i + 1));
        }
        i = i + 1;
    }
    proof {
        assert(lanes_view(lanes@).take(i as int) =~= lanes_view(lanes@));
    }
    copy
}


/// The lanes as integers.
pub open spec fn as_ints(s: Seq<usize>) -> Seq<int> {
    s.map_values(|x: usize| x as int)
}

/// Lanes claimed by parents after the first `k` of `parents` (from the
/// second parent on).
proof fn lemma_claim_parents_step(lanes: Lanes, parents: Seq<Seq<char>>, k: int)
    requires
        0 <= k < parents.len(),
    ensures
        claim_parents(lanes, parents.take(k + 1)) == ({
            let (l, c) = claim_parents(lanes, parents.take(k));
            let (l2, lane) = claim_lane(l, parents[k]);
            (l2, c.push(lane))
        }),
{
    assert(parents.take(k + 1).drop_last() =~= parents.take(k));
}

/// Applies one commit to the lanes: returns its lane, the lanes before its
/// parents were placed, and the parents' lanes.
fn place_commit(lanes: &mut Vec<Option<String>>, commit: &GraphCommit) -> (placed: (usize, Vec<Option<String>>, Vec<usize>))
    ensures
        ({
            let step = row_step(lanes_view(old(lanes)@), commit.sha@, parents_view(commit.parents@));
            &&& placed.0 as int == step.lane
            &&& lanes_view(placed.1@) == step.before
            &&& lanes_view(final(lanes)@) == step.after
            &&& as_ints(placed.2@) == step.parent_lanes
            &&& placed.0 < final(lanes)@.len()
            &&& final(lanes)@.len() >= old(lanes)@.len()
            &&& forall|j: int| 0 <= j < placed.2@.len() ==> #[trigger] placed.2@[j] < final(lanes)@.len()
        }),
{
    let ghost start = lanes_view(lanes@);
    let ghost pv = parents_view(commit.parents@);
    let lane = find_or_insert_lane(lanes, &commit.sha);
    clear_duplicate_lanes(lanes, lane, &commit.sha);
    let before = copy_lanes(lanes);
    let mut parent_lanes: Vec<usize> = Vec::new();
    if commit.parents.len() == 0 {
        set_lane(lanes, lane, None);
        proof {
            assert(as_ints(parent_lanes@) =~= Seq::<int>::empty());
        }
        return (lane, before, parent_lanes);
    }
    let first = &commit.parents[0];
    match find_existing_lane(lanes, first) {
        Some(parent_lane) => {
            parent_lanes.push(parent_lane);
            if parent_lane != lane {
                set_lane(lanes, lane, None);
            }
        },
        None => {
            set_lane(lanes, lane, Some(first.clone()));
            parent_lanes.push(lane);
        },
    }
    let ghost joined = lanes_view(lanes@);
    let ghost first_lane = parent_lanes@[0] as int;
    proof {
        assert(claim_parents(joined, pv.skip(1).take(0)) == (joined, Seq::<int>::empty())) by {
            assert(pv.skip(1).take(0) =~= Seq::<Seq<char>>::empty());
        }
    }
    let mut k: usize = 1;
    while k < commit.parents.len()
        invariant
            1 <= k <= commit.parents@.len(),
            pv == parents_view(commit.parents@),
            lanes@.len() >= old(lanes)@.len(),
            parent_lanes@.len() == k,
            parent_lanes@[0] as int == first_lane,
            (lanes_view(lanes@), as_ints(parent_lanes@).skip(1)) == claim_parents(joined, pv.skip(1).take(k - 1)),
            lane < lanes@.len(),
            forall|j: int| 0 <= j < parent_lanes@.len() ==> #[trigger] parent_lanes@[j] < lanes@.len(),
        decreases commit.parents.len() - k,
    {
        proof {
            lemma_claim_parents_step(joined, pv.skip(1), k - 1);
            assert(pv.skip(1)[k - 1] == commit.parents@[k as int]@);
        }
        let ghost old_ints = as_ints(parent_lanes@);
        let next = find_or_insert_lane(lanes, &commit.parents[k]);
        parent_lanes.push(next);
        proof {
            assert(as_ints(parent_lanes@) =~= old_ints.push(next as int));
            assert(as_ints(parent_lanes@).skip(1) =~= old_ints.skip(1).push(next as int));
        }
        k = k + 1;
    }
    proof {
        assert(pv.skip(1).take(k - 1) =~= pv.skip(1));
        assert(as_ints(parent_lanes@) =~= seq![first_lane] + as_ints(parent_lanes@).skip(1));
        let step = row_step(start, commit.sha@, pv);
        assert(pv[0] == first@);
        assert(step.lane == lane);
        assert(step.before == lanes_view(before@));
        assert(step.after == lanes_view(lanes@));
        assert(step.parent_lanes == as_ints(parent_lanes@));
        assert(lanes@.len() >= old(lanes)@.len());
    }
    (lane, before, parent_lanes)
}

/// Appends the straight lines of row `row`.
fn push_straight_segments(
    segments: &mut Vec<GraphSegment>,
    before: &Vec<Option<String>>,
    after: &Vec<Option<String>>,
    row: usize,
)
    ensures
        final(segments)@ == old(segments)@ + straight_segments(
            lanes_view(before@),
            lanes_view(after@),
            row as int,
            if before@.len() > after@.len() { before@.len() as int } else { after@.len() as int },
        ),
{
    let ghost start = segments@;
    let n = if before.len() > after.len() { before.len() } else { after.len() };
    let mut lane: usize = 0;
    while lane < n
        invariant
            lane <= n,
            n == if before@.len() > after@.len() { before@.len() } else { after@.len() },
            segments@ == start + straight_segments(lanes_view(before@), lanes_view(after@), row as int, lane as int),
        decreases n - lane,
    {
        let busy_before = lane < before.len() && before[lane].is_some();
        let busy_after = lane < after.len() && after[lane].is_some();
        if busy_before && busy_after {
            segments.push(GraphSegment { from_lane: lane, to_lane: lane, row, is_merge: false });
        }
        proof {
            assert(segments@ =~= start + straight_segments(
                lanes_view(before@),
                lanes_view(after@),
                row as int,
                lane + 1,
            ));
        }
        lane = lane + 1;
    }
}

/// Appends the merge lines of row `row` from `lane` to its parents' lanes.
fn push_merge_segments(segments: &mut Vec<GraphSegment>, lane: usize, parent_lanes: &Vec<usize>, row: usize)
    ensures
        final(segments)@ == old(segments)@ + merge_segments(
            lane as int,
            as_ints(parent_lanes@),
            row as int,
            parent_lanes@.len() as int,
        ),
{
    let ghost start = segments@;
    let mut k: usize = 0;
    while k < parent_lanes.len()
        invariant
            k <= parent_lanes@.len(),
            segments@ == start + merge_segments(lane as int, as_ints(parent_lanes@), row as int, k as int),
        decreases parent_lanes.len() - k,
    {
        let target = parent_lanes[k];
        if target != lane {
            segments.push(GraphSegment { from_lane: lane, to_lane: target, row, is_merge: true });
        }
        proof {
            assert(as_ints(parent_lanes@)[k as int] == target as int);
            assert(segments@ =~= start + merge_segments(lane as int, as_ints(parent_lanes@), row as int, k + 1));
        }
        k = k + 1;
    }
}

/// Lays out `commits` (newest first): each commit gets a lane and a row,
/// and consecutive rows are joined by straight lines for lanes busy on both
/// sides of a commit and by merge lines from a commit to parents in other
/// lanes. The lane count covers every lane used.
pub fn build_commit_graph_layout(commits: &[GraphCommit]) -> (layout: CommitGraphLayout)
    ensures
        ({
            let state = graph_prefix(commits@, commits@.len() as int);
            &&& nodes_view(layout.nodes@) == state.nodes
            &&& layout.segments@ == state.segments
            &&& layout.lane_count == state.max_lane + 1
        }),
{
    let mut lanes: Vec<Option<String>> = Vec::new();
    let mut nodes: Vec<GraphNode> = Vec::new();
    let mut segments: Vec<GraphSegment> = Vec::new();
    let mut max_lane: usize = 0;
    let mut i: usize = 0;
    proof {
        assert(lanes_view(lanes@) =~= Seq::<Option<Seq<char>>>::empty());
        assert(nodes_view(nodes@) =~= Seq::<(Seq<char>, int, int, bool)>::empty());
    }
    while i < commits.len()
        invariant
            i <= commits@.len(),
            ({
                let state = graph_prefix(commits@, i as int);
                &&& lanes_view(lanes@) == state.lanes
                &&& nodes_view(nodes@) == state.nodes
                &&& segments@ == state.segments
                &&& max_lane as int == state.max_lane
            }),
            max_lane < lanes@.len() || (i == 0 && max_lane == 0),
        decreases commits.len() - i,
    {
        let commit = &commits[i];
        let ghost old_nodes = nodes@;
        let ghost old_max = max_lane as int;
        let (lane, before, parent_lanes) = place_commit(&mut lanes, commit);
        if lane > max_lane {
            max_lane = lane;
        }
        let mut k: usize = 0;
        while k < parent_lanes.len()
            invariant
                k <= parent_lanes@.len(),
                max_lane < lanes@.len(),
                forall|j: int| 0 <= j < parent_lanes@.len() ==> #[trigger] parent_lanes@[j] < lanes@.len(),
                max_lane as int == max_lane_of(
                    if lane > old_max { lane as int } else { old_max },
                    as_ints(parent_lanes@),
                    k as int,
                ),
            decreases parent_lanes.len() - k,
        {
            assert(as_ints(parent_lanes@)[k as int] == parent_lanes@[k as int] as int);
            if parent_lanes[k] > max_lane {
                max_lane = parent_lanes[k];
            }
            k = k + 1;
        }
        let row = i + 1;
        nodes.push(GraphNode { sha: commit.sha.clone(), lane, row, is_unpushed: commit.is_unpushed });
        proof {
            assert(nodes_view(nodes@) =~= nodes_view(old_nodes).push((commit.sha@, lane as int, row as int, commit.is_unpushed)));
        }
        if row < commits.len() {
            push_straight_segments(&mut segments, &before, &lanes, row);
            push_merge_segments(&mut segments, lane, &parent_lanes, row);
            proof {
                assert(segments@ =~= graph_prefix(commits@, i as int).segments + row_segments(
                    row_step(graph_prefix(commits@, i as int).lanes, commit.sha@, parents_view(commit.parents@)),
                    row as int,
                ));
            }
        }
        i = i + 1;
    }
    let lane_total = lanes.len();
    CommitGraphLayout { lane_count: max_lane + 1, nodes, segments }
}

/// The largest lane is at least the starting value.
proof fn lemma_max_lane_at_least(m: int, lanes: Seq<int>, n: int)
    ensures
        max_lane_of(m, lanes, n) >= m,
    decreases n,
{
    if n > 0 {
        lemma_max_lane_at_least(m, lanes, n - 1);
    }
}

/// Every commit's lane is below the lane count: no node lies outside the
/// graph's gutter.
pub proof fn lemma_node_lanes_bounded(commits: Seq<GraphCommit>, n: int)
    requires
        0 <= n <= commits.len(),
    ensures
        graph_prefix(commits, n).nodes.len() == n,
        forall|k: int| 0 <= k < n ==> (#[trigger] graph_prefix(commits, n).nodes[k]).1 <= graph_prefix(commits, n).max_lane,
    decreases n,
{
    if n > 0 {
        lemma_node_lanes_bounded(commits, n - 1);
        let prev = graph_prefix(commits, n - 1);
        let c = commits[n - 1];
        let step = row_step(prev.lanes, c.sha@, parents_view(c.parents@));
        let with_lane = if step.lane > prev.max_lane { step.lane } else { prev.max_lane };
        lemma_max_lane_at_least(with_lane, step.parent_lanes, step.parent_lanes.len() as int);
        let cur = graph_prefix(commits, n);
        assert forall|k: int| 0 <= k < n implies (#[trigger] cur.nodes[k]).1 <= cur.max_lane by {
            if k < n - 1 {
                assert(cur.nodes[k] == prev.nodes[k]);
            }
        }
    }
}

/// Claiming a lane adds at most one lane, and only the one it returns.
proof fn lemma_claim_lane_len(lanes: Lanes, sha: Seq<char>)
    ensures
        claim_lane(lanes, sha).0.len() == lanes.len() || (claim_lane(lanes, sha).0.len() == lanes.len() + 1
            && claim_lane(lanes, sha).1 == lanes.len()),
        0 <= claim_lane(lanes, sha).1 < claim_lane(lanes, sha).0.len(),
{
    lemma_first_index_cases(lanes, lane_is(sha));
    lemma_first_index_cases(lanes, lane_free());
}

/// Claiming lanes for parents returns a lane for each, and any lane it adds
/// is one of them.
proof fn lemma_claim_parents_len(lanes: Lanes, parents: Seq<Seq<char>>)
    ensures
        claim_parents(lanes, parents).1.len() == parents.len(),
        forall|k: int|
            0 <= k < parents.len() ==> 0 <= #[trigger] claim_parents(lanes, parents).1[k] < claim_parents(
                lanes,
                parents,
            ).0.len(),
        claim_parents(lanes, parents).0.len() >= lanes.len(),
        claim_parents(lanes, parents).0.len() == lanes.len() || exists|k: int|
            0 <= k < parents.len() && #[trigger] claim_parents(lanes, parents).1[k] == claim_parents(
                lanes,
                parents,
            ).0.len() - 1,
    decreases parents.len(),
{
    if parents.len() > 0 {
        lemma_claim_parents_len(lanes, parents.drop_last());
        let (before, claimed) = claim_parents(lanes, parents.drop_last());
        lemma_claim_lane_len(before, parents.last());
        let (after, lane) = claim_lane(before, parents.last());
        let cl = claimed.push(lane);
        assert(claim_parents(lanes, parents) == (after, cl));
        assert forall|k: int| 0 <= k < parents.len() implies 0 <= #[trigger] cl[k] < after.len() by {
            if k < parents.len() - 1 {
                assert(cl[k] == claimed[k]);
            }
        }
        if after.len() != lanes.len() {
            if after.len() == before.len() + 1 {
                assert(cl[parents.len() - 1] == after.len() - 1);
            } else {
                let k = choose|k: int| 0 <= k < claimed.len() && #[trigger] claimed[k] == before.len() - 1;
                assert(cl[k] == claimed[k]);
            }
        }
    }
}

/// The largest lane covers each of the first `n` lanes.
proof fn lemma_max_lane_covers(m: int, lanes: Seq<int>, n: int)
    requires
        0 <= n <= lanes.len(),
    ensures
        forall|k: int| 0 <= k < n ==> lanes[k] <= #[trigger] max_lane_of(m, lanes, n),
        max_lane_of(m, lanes, n) >= m,
    decreases n,
{
    if n > 0 {
        lemma_max_lane_covers(m, lanes, n - 1);
    }
}

/// The lanes in use never outnumber the lane count.
proof fn lemma_lanes_within(commits: Seq<GraphCommit>, n: int)
    requires
        0 <= n <= commits.len(),
    ensures
        graph_prefix(commits, n).lanes.len() <= graph_prefix(commits, n).max_lane + 1,
        graph_prefix(commits, n).max_lane >= 0,
    decreases n,
{
    if n > 0 {
        lemma_lanes_within(commits, n - 1);
        let prev = graph_prefix(commits, n - 1);
        let c = commits[n - 1];
        let sha = c.sha@;
        let parents = parents_view(c.parents@);
        let step = row_step(prev.lanes, sha, parents);
        let with_lane = if step.lane > prev.max_lane { step.lane } else { prev.max_lane };
        lemma_claim_lane_len(prev.lanes, sha);
        lemma_max_lane_covers(with_lane, step.parent_lanes, step.parent_lanes.len() as int);
        if parents.len() > 0 {
            let first = parents[0];
            let before = step.before;
            let existing = first_index(before, lane_is(first));
            let joined = if existing >= 0 {
                if existing != step.lane { before.update(step.lane, None) } else { before }
            } else {
                before.update(step.lane, Some(first))
            };
            lemma_claim_parents_len(joined, parents.skip(1));
            let others = claim_parents(joined, parents.skip(1)).1;
            assert(step.parent_lanes =~= seq![step.parent_lanes[0]] + others);
            if step.after.len() != joined.len() {
                let k = choose|k: int| 0 <= k < parents.skip(1).len() && #[trigger] others[k] == step.after.len() - 1;
                assert(step.parent_lanes[k + 1] == others[k]);
            }
        }
    }
}

/// Straight lines run down one lane that exists after the commit.
proof fn lemma_straight_bounds(before: Lanes, after: Lanes, row: int, n: int)
    requires
        after.len() <= usize::MAX + 1,
    ensures
        forall|i: int|
            0 <= i < straight_segments(before, after, row, n).len() ==> {
                let seg = #[trigger] straight_segments(before, after, row, n)[i];
                seg.from_lane == seg.to_lane && seg.from_lane < after.len() && !seg.is_merge
            },
    decreases n,
{
    if n > 0 {
        lemma_straight_bounds(before, after, row, n - 1);
        let rest = straight_segments(before, after, row, n - 1);
        let all = straight_segments(before, after, row, n);
        assert forall|i: int| 0 <= i < all.len() implies {
            let seg = #[trigger] all[i];
            seg.from_lane == seg.to_lane && seg.from_lane < after.len() && !seg.is_merge
        } by {
            if i < rest.len() {
                assert(all[i] == rest[i]);
            }
        }
    }
}

/// Merge lines run from the commit's lane to one of its parents' lanes.
proof fn lemma_merge_bounds(lane: int, parent_lanes: Seq<int>, row: int, n: int, top: int)
    requires
        0 <= lane <= top,
        top <= usize::MAX,
        n <= parent_lanes.len(),
        forall|k: int| 0 <= k < n ==> 0 <= #[trigger] parent_lanes[k] <= top,
    ensures
        forall|i: int|
            0 <= i < merge_segments(lane, parent_lanes, row, n).len() ==> {
                let seg = #[trigger] merge_segments(lane, parent_lanes, row, n)[i];
                seg.from_lane <= top && seg.to_lane <= top && seg.is_merge && seg.from_lane != seg.to_lane
            },
    decreases n,
{
    if n > 0 {
        lemma_merge_bounds(lane, parent_lanes, row, n - 1, top);
        let rest = merge_segments(lane, parent_lanes, row, n - 1);
        let all = merge_segments(lane, parent_lanes, row, n);
        assert(0 <= parent_lanes[n - 1] <= top);
        assert forall|i: int| 0 <= i < all.len() implies {
            let seg = #[trigger] all[i];
            seg.from_lane <= top && seg.to_lane <= top && seg.is_merge && seg.from_lane != seg.to_lane
        } by {
            if i < rest.len() {
                assert(all[i] == rest[i]);
            }
        }
    }
}

/// The nodes mirror the commits: one per commit, in order, each with the
/// commit's sha and unpushed flag, the `k`-th commit in row `k + 1`.
pub proof fn lemma_nodes_mirror_commits(commits: Seq<GraphCommit>, n: int)
    requires
        0 <= n <= commits.len(),
    ensures
        graph_prefix(commits, n).nodes.len() == n,
        forall|k: int|
            0 <= k < n ==> {
                let node = #[trigger] graph_prefix(commits, n).nodes[k];
                &&& node.0 == commits[k].sha@
                &&& node.2 == k + 1
                &&& node.3 == commits[k].is_unpushed
            },
    decreases n,
{
    if n > 0 {
        lemma_nodes_mirror_commits(commits, n - 1);
        let prev = graph_prefix(commits, n - 1);
        let cur = graph_prefix(commits, n);
        assert forall|k: int| 0 <= k < n implies {
            let node = #[trigger] cur.nodes[k];
            &&& node.0 == commits[k].sha@
            &&& node.2 == k + 1
            &&& node.3 == commits[k].is_unpushed
        } by {
            if k < n - 1 {
                assert(cur.nodes[k] == prev.nodes[k]);
            }
        }
    }
}

/// Every line of the graph runs between lanes below the lane count, so no
/// line leaves the graph's gutter, and a line is a merge line exactly when
/// it changes lanes (for a lane count that fits in `usize`).
pub proof fn lemma_segment_lanes_bounded(commits: Seq<GraphCommit>, n: int)
    requires
        0 <= n <= commits.len(),
        graph_prefix(commits, n).max_lane < usize::MAX,
    ensures
        forall|i: int|
            0 <= i < graph_prefix(commits, n).segments.len() ==> {
                let seg = #[trigger] graph_prefix(commits, n).segments[i];
                &&& seg.from_lane <= graph_prefix(commits, n).max_lane
                &&& seg.to_lane <= graph_prefix(commits, n).max_lane
                &&& seg.is_merge == (seg.from_lane != seg.to_lane)
            },
    decreases n,
{
    if n > 0 {
        let prev = graph_prefix(commits, n - 1);
        let c = commits[n - 1];
        let step = row_step(prev.lanes, c.sha@, parents_view(c.parents@));
        let with_lane = if step.lane > prev.max_lane { step.lane } else { prev.max_lane };
        let cur = graph_prefix(commits, n);
        lemma_max_lane_covers(with_lane, step.parent_lanes, step.parent_lanes.len() as int);
        lemma_segment_lanes_bounded(commits, n - 1);
        lemma_lanes_within(commits, n);
        lemma_lanes_within(commits, n - 1);
        lemma_claim_lane_len(prev.lanes, c.sha@);
        if n < commits.len() {
            let rs = row_segments(step, n);
            let m = if step.before.len() > step.after.len() { step.before.len() } else { step.after.len() };
            lemma_straight_bounds(step.before, step.after, n, m as int);
            lemma_row_step_parent_lanes(prev.lanes, c.sha@, parents_view(c.parents@));
            lemma_merge_bounds(step.lane, step.parent_lanes, n, step.parent_lanes.len() as int, cur.max_lane);
            let st = straight_segments(step.before, step.after, n, m as int);
            let mg = merge_segments(step.lane, step.parent_lanes, n, step.parent_lanes.len() as int);
            assert forall|i: int| 0 <= i < cur.segments.len() implies {
                let seg = #[trigger] cur.segments[i];
                &&& seg.from_lane <= cur.max_lane
                &&& seg.to_lane <= cur.max_lane
                &&& seg.is_merge == (seg.from_lane != seg.to_lane)
            } by {
                if i < prev.segments.len() {
                    assert(cur.segments[i] == prev.segments[i]);
                } else if i < prev.segments.len() + st.len() {
                    assert(cur.segments[i] == st[i - prev.segments.len()]);
                } else {
                    assert(cur.segments[i] == mg[i - prev.segments.len() - st.len()]);
                }
            }
        } else {
            assert forall|i: int| 0 <= i < cur.segments.len() implies {
                let seg = #[trigger] cur.segments[i];
                &&& seg.from_lane <= cur.max_lane
                &&& seg.to_lane <= cur.max_lane
                &&& seg.is_merge == (seg.from_lane != seg.to_lane)
            } by {
                assert(cur.segments[i] == prev.segments[i]);
            }
        }
    }
}

/// A commit's parent lanes are lane positions.
proof fn lemma_row_step_parent_lanes(lanes: Lanes, sha: Seq<char>, parents: Seq<Seq<char>>)
    ensures
        forall|k: int|
            0 <= k < row_step(lanes, sha, parents).parent_lanes.len() ==> 0 <= #[trigger] row_step(
                lanes,
                sha,
                parents,
            ).parent_lanes[k],
{
    let step = row_step(lanes, sha, parents);
    lemma_claim_lane_len(lanes, sha);
    if parents.len() > 0 {
        let first = parents[0];
        let before = step.before;
        let existing = first_index(before, lane_is(first));
        lemma_first_index_cases(before, lane_is(first));
        let joined = if existing >= 0 {
            if existing != step.lane { before.update(step.lane, None) } else { before }
        } else {
            before.update(step.lane, Some(first))
        };
        lemma_claim_parents_len(joined, parents.skip(1));
        let others = claim_parents(joined, parents.skip(1)).1;
        assert forall|k: int| 0 <= k < step.parent_lanes.len() implies 0 <= #[trigger] step.parent_lanes[k] by {
            if k > 0 {
                assert(step.parent_lanes[k] == others[k - 1]);
            }
        }
    }
}

/// A straight line is drawn only in a lane that is waiting for a commit
/// both before and after the row's commit is placed.
proof fn lemma_straight_lanes_busy(before: Lanes, after: Lanes, row: int, n: int)
    requires
        after.len() <= usize::MAX + 1,
    ensures
        forall|i: int|
            0 <= i < straight_segments(before, after, row, n).len() ==> {
                let seg = #[trigger] straight_segments(before, after, row, n)[i];
                &&& !seg.is_merge
                &&& seg.from_lane == seg.to_lane
                &&& seg.row == row as usize
                &&& (seg.from_lane as int) < before.len()
                &&& (seg.from_lane as int) < after.len()
                &&& before[seg.from_lane as int] is Some
                &&& after[seg.from_lane as int] is Some
            },
    decreases n,
{
    if n > 0 {
        lemma_straight_lanes_busy(before, after, row, n - 1);
        let rest = straight_segments(before, after, row, n - 1);
        let all = straight_segments(before, after, row, n);
        assert forall|i: int| 0 <= i < all.len() implies {
            let seg = #[trigger] all[i];
            &&& !seg.is_merge
            &&& seg.from_lane == seg.to_lane
            &&& seg.row == row as usize
            &&& (seg.from_lane as int) < before.len()
            &&& (seg.from_lane as int) < after.len()
            &&& before[seg.from_lane as int] is Some
            &&& after[seg.from_lane as int] is Some
        } by {
            if i < rest.len() {
                assert(all[i] == rest[i]);
            }
        }
    }
}

/// Merge lines are marked as merges.
proof fn lemma_merge_lines_marked(lane: int, parent_lanes: Seq<int>, row: int, n: int)
    ensures
        forall|i: int|
            0 <= i < merge_segments(lane, parent_lanes, row, n).len() ==> (#[trigger] merge_segments(
                lane,
                parent_lanes,
                row,
                n,
            )[i]).is_merge,
    decreases n,
{
    if n > 0 {
        lemma_merge_lines_marked(lane, parent_lanes, row, n - 1);
        let rest = merge_segments(lane, parent_lanes, row, n - 1);
        let all = merge_segments(lane, parent_lanes, row, n);
        assert forall|i: int| 0 <= i < all.len() implies (#[trigger] all[i]).is_merge by {
            if i < rest.len() {
                assert(all[i] == rest[i]);
            }
        }
    }
}

/// Every straight line of the graph, drawn from row `r` to the next, runs
/// down a lane that still waits for a commit after the commit of row `r`
/// is placed: a lane whose commits are all placed gets no line below its
/// last commit (for a graph whose rows and lane count fit in `usize`).
pub proof fn lemma_straight_lines_on_busy_lanes(commits: Seq<GraphCommit>, n: int)
    requires
        0 <= n <= commits.len(),
        n <= usize::MAX,
        graph_prefix(commits, n).max_lane < usize::MAX,
    ensures
        forall|i: int|
            0 <= i < graph_prefix(commits, n).segments.len() && !(#[trigger] graph_prefix(commits, n).segments[i]).is_merge
                ==> {
                let seg = graph_prefix(commits, n).segments[i];
                &&& 1 <= seg.row <= n
                &&& seg.from_lane == seg.to_lane
                &&& (seg.from_lane as int) < graph_prefix(commits, seg.row as int).lanes.len()
                &&& graph_prefix(commits, seg.row as int).lanes[seg.from_lane as int] is Some
            },
    decreases n,
{
    if n > 0 {
        let prev = graph_prefix(commits, n - 1);
        let c = commits[n - 1];
        let step = row_step(prev.lanes, c.sha@, parents_view(c.parents@));
        let with_lane = if step.lane > prev.max_lane { step.lane } else { prev.max_lane };
        let cur = graph_prefix(commits, n);
        lemma_max_lane_covers(with_lane, step.parent_lanes, step.parent_lanes.len() as int);
        lemma_straight_lines_on_busy_lanes(commits, n - 1);
        lemma_lanes_within(commits, n);
        if n < commits.len() {
            let m = if step.before.len() > step.after.len() { step.before.len() } else { step.after.len() };
            lemma_straight_lanes_busy(step.before, step.after, n, m as int);
            lemma_merge_lines_marked(step.lane, step.parent_lanes, n, step.parent_lanes.len() as int);
            let st = straight_segments(step.before, step.after, n, m as int);
            let mg = merge_segments(step.lane, step.parent_lanes, n, step.parent_lanes.len() as int);
            assert(cur.lanes == step.after);
            assert forall|i: int|
                0 <= i < cur.segments.len() && !(#[trigger] cur.segments[i]).is_merge implies {
                let seg = cur.segments[i];
                &&& 1 <= seg.row <= n
                &&& seg.from_lane == seg.to_lane
                &&& (seg.from_lane as int) < graph_prefix(commits, seg.row as int).lanes.len()
                &&& graph_prefix(commits, seg.row as int).lanes[seg.from_lane as int] is Some
            } by {
                if i < prev.segments.len() {
                    assert(cur.segments[i] == prev.segments[i]);
                } else if i < prev.segments.len() + st.len() {
                    assert(cur.segments[i] == st[i - prev.segments.len()]);
                } else {
                    assert(cur.segments[i] == mg[i - prev.segments.len() - st.len()]);
                }
            }
        } else {
            assert forall|i: int|
                0 <= i < cur.segments.len() && !(#[trigger] cur.segments[i]).is_merge implies {
                let seg = cur.segments[i];
                &&& 1 <= seg.row <= n
                &&& seg.from_lane == seg.to_lane
                &&& (seg.from_lane as int) < graph_prefix(commits, seg.row as int).lanes.len()
                &&& graph_prefix(commits, seg.row as int).lanes[seg.from_lane as int] is Some
            } by {
                assert(cur.segments[i] == prev.segments[i]);
            }
        }
    }
}

/// A straight history, newest first: each commit's only parent is the
/// next commit (a different one), and the oldest commit has at most one
/// parent, not itself.
pub open spec fn linear_history(commits: Seq<GraphCommit>) -> bool {
    &&& forall|k: int|
        0 <= k < commits.len() - 1 ==> parents_view((#[trigger] commits[k]).parents@) == seq![commits[k + 1].sha@]
            && commits[k].sha@ != commits[k + 1].sha@
    &&& commits.len() > 0 ==> parents_view(commits.last().parents@).len() <= 1
    &&& commits.len() > 0 && parents_view(commits.last().parents@).len() == 1 ==> parents_view(
        commits.last().parents@,
    )[0] != commits.last().sha@
}

proof fn lemma_straight_not_merge(before: Lanes, after: Lanes, row: int, n: int)
    ensures
        forall|i: int| 0 <= i < straight_segments(before, after, row, n).len() ==> !(#[trigger] straight_segments(
            before,
            after,
            row,
            n,
        )[i]).is_merge,
    decreases n,
{
    if n > 0 {
        lemma_straight_not_merge(before, after, row, n - 1);
        let rest = straight_segments(before, after, row, n - 1);
        let all = straight_segments(before, after, row, n);
        assert forall|i: int| 0 <= i < all.len() implies !(#[trigger] all[i]).is_merge by {
            if i < rest.len() {
                assert(all[i] == rest[i]);
            }
        }
    }
}

proof fn lemma_single_lane_step(lanes: Lanes, sha: Seq<char>, parents: Seq<Seq<char>>)
    requires
        lanes == seq![Some(sha)] || lanes.len() == 0,
        parents.len() <= 1,
        parents.len() == 1 ==> parents[0] != sha,
    ensures
        row_step(lanes, sha, parents).lane == 0,
        row_step(lanes, sha, parents).after.len() == 1,
        parents.len() == 1 ==> row_step(lanes, sha, parents).after == seq![Some(parents[0])],
        row_step(lanes, sha, parents).parent_lanes == if parents.len() == 1 { seq![0int] } else { Seq::<int>::empty() },
        row_step(lanes, sha, parents).before.len() == 1,
{
    if lanes.len() == 0 {
        lemma_first_index_none(lanes, lane_is(sha));
        lemma_first_index_none(lanes, lane_free());
    } else {
        assert(is_first_index(lanes, lane_is(sha), 0));
        lemma_first_index_is(lanes, lane_is(sha), 0);
    }
    let (claimed, lane) = claim_lane(lanes, sha);
    assert(claimed =~= seq![Some(sha)]);
    assert(lane == 0);
    let before = cleared(claimed, lane, sha);
    assert(before =~= seq![Some(sha)]);
    if parents.len() == 1 {
        let first = parents[0];
        assert(!lane_is(first)(before[0]));
        lemma_first_index_none(before, lane_is(first));
        assert(parents.skip(1) =~= Seq::<Seq<char>>::empty());
        let joined = before.update(0, Some(first));
        assert(claim_parents(joined, parents.skip(1)) == (joined, Seq::<int>::empty()));
        assert(seq![0int] + Seq::<int>::empty() =~= seq![0int]);
        assert(joined =~= seq![Some(first)]);
    }
}

/// A straight history takes a single lane and draws no merge lines.
pub proof fn lemma_linear_history_one_lane(commits: Seq<GraphCommit>, n: int)
    requires
        linear_history(commits),
        1 <= n <= commits.len(),
    ensures
        graph_prefix(commits, n).max_lane == 0,
        forall|k: int| 0 <= k < n ==> (#[trigger] graph_prefix(commits, n).nodes[k]).1 == 0,
        forall|i: int|
            0 <= i < graph_prefix(commits, n).segments.len() ==> !(#[trigger] graph_prefix(commits, n).segments[i]).is_merge,
        n < commits.len() ==> graph_prefix(commits, n).lanes == seq![Some(commits[n].sha@)],
    decreases n,
{
    let prev = graph_prefix(commits, n - 1);
    lemma_node_lanes_bounded(commits, n - 1);
    if n > 1 {
        lemma_linear_history_one_lane(commits, n - 1);
    } else {
        assert(prev.lanes.len() == 0);
    }
    let c = commits[n - 1];
    let ps = parents_view(c.parents@);
    if n < commits.len() {
        assert(ps == seq![commits[n].sha@]);
    } else {
        assert(c == commits.last());
    }
    lemma_single_lane_step(prev.lanes, c.sha@, ps);
    let step = row_step(prev.lanes, c.sha@, ps);
    let cur = graph_prefix(commits, n);
    assert(max_lane_of(0, step.parent_lanes, step.parent_lanes.len() as int) == 0) by {
        if step.parent_lanes.len() == 1 {
            assert(max_lane_of(0, step.parent_lanes, 0) == 0);
        }
    }
    assert forall|k: int| 0 <= k < n implies (#[trigger] cur.nodes[k]).1 == 0 by {
        if k < n - 1 {
            assert(cur.nodes[k] == prev.nodes[k]);
        }
    }
    if n < commits.len() {
        let nn = if step.before.len() > step.after.len() { step.before.len() } else { step.after.len() };
        lemma_straight_not_merge(step.before, step.after, n, nn as int);
        let ms = merge_segments(step.lane, step.parent_lanes, n, step.parent_lanes.len() as int);
        assert(ms =~= Seq::<GraphSegment>::empty()) by {
            if step.parent_lanes.len() == 1 {
                assert(merge_segments(step.lane, step.parent_lanes, n, 0) == Seq::<GraphSegment>::empty());
            }
        }
        let rs = row_segments(step, n);
        assert forall|i: int| 0 <= i < cur.segments.len() implies !(#[trigger] cur.segments[i]).is_merge by {
            if i < prev.segments.len() {
                assert(cur.segments[i] == prev.segments[i]);
            } else {
                assert(cur.segments[i] == rs[i - prev.segments.len()]);
            }
        }
    }
}

} // verus!
