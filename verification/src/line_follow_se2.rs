//! The SE(2) line-follow search domain: nodes, node identity keys, the closed
//! set that deduplicates them, starts, goals, heuristics, and the expander
//! that produces successor nodes by extrapolating along graph edges.

use crate::graph::Graph;
use crate::motion::{
    yaw_error_spec, yaw_error, Point, Position, Waypoint, Trajectory, trajectory_seq_wf,
    lemma_trajectory_times_increase, DifferentialDriveLineFollow, TimeCostCalculator,
    translation_time_spec, distance_spec, COORD_LIMIT, SECOND_NANOS,
};
use vstd::prelude::*;

verus! {

/// Which end of a traversal a key refers to.
#[derive(Clone, Copy, PartialEq, Eq, Structural, Debug)]
pub enum Side {
    Beginning,
    Finish,
}

/// The identity of a keyed node: the edge it traversed and the side of that
/// edge it stands on. Nodes that share a key are candidates for dedup.
#[derive(Clone, Copy, PartialEq, Eq, Structural, Debug)]
pub struct Key {
    pub from_vertex: usize,
    pub to_vertex: usize,
    pub side: Side,
}

/// Where a search begins: a graph vertex, an initial yaw in nanoradians, and
/// optionally an off-graph location the agent must first drive from.
#[derive(Clone, Copy, PartialEq, Eq, Structural, Debug)]
pub struct Start {
    pub vertex: usize,
    pub orientation: i64,
    pub offset_location: Option<Point>,
}

/// An optional orientation to reach at the goal vertex: a target yaw and the
/// largest acceptable wrapped error, both in nanoradians.
#[derive(Clone, Copy, PartialEq, Eq, Structural, Debug)]
pub struct OrientationGoal {
    pub target: i64,
    pub threshold: i64,
}

/// What the search is after: a vertex, and optionally an orientation there.
#[derive(Clone, Copy, PartialEq, Eq, Structural, Debug)]
pub struct Goal {
    pub vertex: usize,
    pub orientation: Option<OrientationGoal>,
}

/// A search frontier element. Nodes are immutable once constructed; parents
/// are earlier indices into the arena of nodes owned by the search.
pub struct Node {
    pub cost: i64,
    pub remaining_cost_estimate: i64,
    pub total_cost_estimate: i64,
    pub state: Waypoint,
    pub key: Option<Key>,
    pub vertex: usize,
    pub motion_from_parent: Option<Trajectory>,
    pub parent: Option<usize>,
    pub is_start: Option<Start>,
}

impl Node {
    pub fn key(&self) -> (k: Option<Key>)
        ensures
            k == self.key,
    {
        self.key
    }

    pub fn cost(&self) -> (c: i64)
        ensures
            c == self.cost,
    {
        self.cost
    }

    pub fn parent(&self) -> (p: Option<usize>)
        ensures
            p == self.parent,
    {
        self.parent
    }

    pub fn remaining_cost_estimate(&self) -> (c: i64)
        ensures
            c == self.remaining_cost_estimate,
    {
        self.remaining_cost_estimate
    }

    pub fn total_cost_estimate(&self) -> (c: i64)
        ensures
            c == self.total_cost_estimate,
    {
        self.total_cost_estimate
    }
}

impl Goal {
    /// A node satisfies the goal when it stands on the goal vertex and, if an
    /// orientation goal is present, its yaw is within the threshold of the
    /// target, both read modulo a full turn.
    pub open spec fn is_satisfied_spec(self, n: Node) -> bool {
        &&& n.vertex == self.vertex
        &&& match self.orientation {
            Some(og) => yaw_error_spec(n.state.position.yaw as int, og.target as int)
                <= og.threshold,
            None => true,
        }
    }

    pub fn is_satisfied(&self, node: &Node) -> (r: bool)
        ensures
            r == self.is_satisfied_spec(*node),
    {
        if self.vertex != node.vertex {
            return false;
        }
        match self.orientation {
            Some(og) => {
                let delta = yaw_error(node.state.position.yaw, og.target);
                delta <= og.threshold
            },
            None => true,
        }
    }
}

impl Start {
    /// The waypoint a search from this start begins at, at time zero: the
    /// off-graph location when one is given, else the start vertex. None when
    /// the vertex is out of range and there is no offset.
    pub open spec fn to_waypoint_spec(self, graph: Graph) -> Option<Waypoint> {
        match self.offset_location {
            Some(p) => Some(
                Waypoint {
                    time: 0,
                    position: Position { x: p.x, y: p.y, yaw: self.orientation },
                },
            ),
            None => if self.vertex < graph.vertices@.len() {
                let p = graph.vertices@[self.vertex as int];
                Some(Waypoint { time: 0, position: Position { x: p.x, y: p.y, yaw: self.orientation } })
            } else {
                None
            },
        }
    }

    pub fn to_waypoint(&self, graph: &Graph) -> (r: Option<Waypoint>)
        ensures
            r == self.to_waypoint_spec(*graph),
    {
        match self.offset_location {
            Some(p) => Some(
                Waypoint {
                    time: 0,
                    position: Position { x: p.x, y: p.y, yaw: self.orientation },
                },
            ),
            None => {
                match graph.vertex(self.vertex) {
                    Some(p) => Some(
                        Waypoint {
                            time: 0,
                            position: Position { x: p.x, y: p.y, yaw: self.orientation },
                        },
                    ),
                    None => None,
                }
            },
        }
    }
}

/// The waypoints of a node's motion from its parent; empty for start nodes.
pub open spec fn motion_seq(n: Node) -> Seq<Waypoint> {
    match n.motion_from_parent {
        Some(m) => m@,
        None => Seq::<Waypoint>::empty(),
    }
}

/// Well-formedness of one node with respect to the arena it lives in: the
/// total estimate is the sum of accumulated cost and remaining estimate, a
/// start node has no motion and zero cost, and any other node's motion is a
/// well-formed trajectory from its parent's state to its own whose duration
/// is exactly the cost added over the parent.
pub open spec fn node_wf(n: Node, arena: Seq<Node>, i: int) -> bool {
    &&& n.total_cost_estimate as int == n.cost as int + n.remaining_cost_estimate as int
    &&& n.cost >= 0
    &&& n.remaining_cost_estimate >= 0
    &&& n.state.time >= 0
    &&& match n.parent {
        None => n.motion_from_parent is None && n.cost == 0 && n.is_start is Some,
        Some(p) => {
            &&& (p as int) < i
            &&& 0 <= (p as int) < arena.len()
            &&& match n.motion_from_parent {
                Some(m) => {
                    &&& m.wf()
                    &&& m.first_spec() == arena[p as int].state
                    &&& m.last_spec() == n.state
                    &&& n.cost as int == arena[p as int].cost as int + m.duration_spec()
                },
                None => false,
            }
        },
    }
}

/// Every node of the arena is well formed.
pub open spec fn arena_wf(arena: Seq<Node>) -> bool {
    forall|i: int| 0 <= i < arena.len() ==> #[trigger] node_wf(arena[i], arena, i)
}

/// Appending a node that is well formed at the end of an arena keeps every
/// node well formed: earlier nodes only look at earlier entries.
pub proof fn lemma_arena_push(arena: Seq<Node>, n: Node)
    requires
        arena_wf(arena),
        node_wf(n, arena.push(n), arena.len() as int),
    ensures
        arena_wf(arena.push(n)),
{
    let arena2 = arena.push(n);
    assert forall|i: int| 0 <= i < arena2.len() implies #[trigger] node_wf(arena2[i], arena2, i) by {
        if i < arena.len() {
            assert(node_wf(arena[i], arena, i));
            assert(arena2[i] == arena[i]);
            match arena[i].parent {
                None => {},
                Some(p) => {
                    assert(arena2[p as int] == arena[p as int]);
                },
            }
        }
    }
}

/// The sum of the per-segment costs along a node's parent chain: each
/// segment's cost is the duration of its motion.
pub open spec fn chain_cost(arena: Seq<Node>, i: int) -> int
    decreases i,
{
    if 0 <= i < arena.len() {
        match arena[i].parent {
            None => 0,
            Some(p) => if (p as int) < i {
                chain_cost(arena, p as int) + match arena[i].motion_from_parent {
                    Some(m) => m.duration_spec(),
                    None => 0,
                }
            } else {
                0
            },
        }
    } else {
        0
    }
}

/// The waypoints of the full motion from the chain's start node to node `i`:
/// each segment repeats its parent's final state as its first waypoint, so
/// all but the first segment drop that shared waypoint.
pub open spec fn chain_waypoints(arena: Seq<Node>, i: int) -> Seq<Waypoint>
    decreases i,
{
    if 0 <= i < arena.len() {
        match arena[i].parent {
            None => seq![arena[i].state],
            Some(p) => if (p as int) < i {
                chain_waypoints(arena, p as int) + motion_seq(arena[i]).skip(1)
            } else {
                Seq::<Waypoint>::empty()
            },
        }
    } else {
        Seq::<Waypoint>::empty()
    }
}

/// A node's accumulated cost equals the sum of the costs of the segments on
/// its parent chain.
pub proof fn lemma_chain_cost(arena: Seq<Node>, i: int)
    requires
        arena_wf(arena),
        0 <= i < arena.len(),
    ensures
        arena[i].cost as int == chain_cost(arena, i),
    decreases i,
{
    assert(node_wf(arena[i], arena, i));
    match arena[i].parent {
        None => {},
        Some(p) => {
            lemma_chain_cost(arena, p as int);
        },
    }
}

/// The concatenated chain motion ends at the node's own state, starts at time
/// at least zero, and its waypoint times strictly increase; it has a single
/// waypoint exactly when the node is a start node.
pub proof fn lemma_chain_waypoints(arena: Seq<Node>, i: int)
    requires
        arena_wf(arena),
        0 <= i < arena.len(),
    ensures
        chain_waypoints(arena, i).len() >= 1,
        chain_waypoints(arena, i).last() == arena[i].state,
        chain_waypoints(arena, i)[0].time >= 0,
        forall|k: int|
            0 <= k < chain_waypoints(arena, i).len() - 1 ==> #[trigger] chain_waypoints(
                arena,
                i,
            )[k].time < chain_waypoints(arena, i)[k + 1].time,
        arena[i].parent is None <==> chain_waypoints(arena, i).len() == 1,
    decreases i,
{
    assert(node_wf(arena[i], arena, i));
    let s = chain_waypoints(arena, i);
    match arena[i].parent {
        None => {},
        Some(p) => {
            lemma_chain_waypoints(arena, p as int);
            let pre = chain_waypoints(arena, p as int);
            let m = arena[i].motion_from_parent->Some_0;
            let ms = motion_seq(arena[i]);
            assert(ms == m@);
            assert(ms.len() >= 2);
            assert(s == pre + ms.skip(1));
            assert(s.len() == pre.len() + ms.len() - 1);
            assert(s.last() == ms.last());
            assert(ms.last() == m.last_spec());
            assert(m.last_spec() == arena[i].state);
            assert(s[0] == pre[0]);
            assert forall|k: int| 0 <= k < s.len() - 1 implies #[trigger] s[k].time < s[k
                + 1].time by {
                if k < pre.len() - 1 {
                    assert(s[k] == pre[k] && s[k + 1] == pre[k + 1]);
                } else if k == pre.len() - 1 {
                    assert(s[k] == pre.last());
                    assert(pre.last() == arena[p as int].state);
                    assert(arena[p as int].state == m.first_spec());
                    assert(m.first_spec() == ms[0]);
                    assert(s[k + 1] == ms.skip(1)[k + 1 - pre.len()]);
                    assert(ms.skip(1)[k + 1 - pre.len()] == ms[1]);
                    assert(ms[0].time < ms[1].time);
                } else {
                    let j: int = k - pre.len() + 1;
                    assert(s[k] == ms.skip(1)[k - pre.len()]);
                    assert(ms.skip(1)[k - pre.len()] == ms[j]);
                    assert(s[k + 1] == ms.skip(1)[k + 1 - pre.len()]);
                    assert(ms.skip(1)[k + 1 - pre.len()] == ms[j + 1]);
                    assert(ms[j].time < ms[j + 1].time);
                }
            }
        },
    }
}

/// Whether node `a` lies on the parent chain of node `d` (or is `d` itself).
pub open spec fn is_ancestor(arena: Seq<Node>, a: int, d: int) -> bool
    decreases d,
{
    if 0 <= d < arena.len() {
        a == d || match arena[d].parent {
            Some(p) => if (p as int) < d {
                is_ancestor(arena, a, p as int)
            } else {
                false
            },
            None => false,
        }
    } else {
        false
    }
}

/// Costs never decrease along a parent chain: every descendant has accumulated
/// at least its ancestor's cost, because every segment's cost is nonnegative.
pub proof fn lemma_descendant_cost(arena: Seq<Node>, a: int, d: int)
    requires
        arena_wf(arena),
        0 <= d < arena.len(),
        is_ancestor(arena, a, d),
    ensures
        0 <= a < arena.len(),
        arena[a].cost <= arena[d].cost,
    decreases d,
{
    assert(node_wf(arena[d], arena, d));
    if a != d {
        let p = arena[d].parent->Some_0;
        lemma_descendant_cost(arena, a, p as int);
        let m = arena[d].motion_from_parent->Some_0;
        lemma_trajectory_times_increase(m@, 0, m@.len() - 1);
    }
}

/// Admissibility-preserving bound: when a node's remaining cost estimate does
/// not overestimate the cost that any completed solution through that node
/// still accumulates (an admissible heuristic), the node's total cost
/// estimate is a lower bound on the cost of that solution.
pub proof fn lemma_admissible_bound(arena: Seq<Node>, n: int, g: int)
    requires
        arena_wf(arena),
        0 <= g < arena.len(),
        is_ancestor(arena, n, g),
        arena[n].remaining_cost_estimate as int <= arena[g].cost as int - arena[n].cost as int,
    ensures
        arena[n].total_cost_estimate as int <= arena[g].cost as int,
{
    lemma_descendant_cost(arena, n, g);
    assert(node_wf(arena[n], arena, n));
}

/// First-solved optimality: suppose the node at `s` was extracted while its
/// total cost estimate was the lowest among the frontier entries, and
/// consider any goal-satisfying node `g` whose chain passes through a node
/// `f` that was still on that frontier, with `f`'s remaining estimate not
/// overestimating what the chain to `g` still accumulates (an admissible
/// heuristic). Then the extracted cost is no worse: the first extraction is
/// cost-optimal over everything the frontier could still reach.
pub proof fn lemma_first_solved_optimal(arena: Seq<Node>, s: int, f: int, g: int)
    requires
        arena_wf(arena),
        0 <= s < arena.len(),
        0 <= g < arena.len(),
        is_ancestor(arena, f, g),
        arena[f].remaining_cost_estimate as int <= arena[g].cost as int - arena[f].cost as int,
        arena[s].total_cost_estimate <= arena[f].total_cost_estimate,
    ensures
        arena[s].cost <= arena[g].cost,
{
    lemma_admissible_bound(arena, f, g);
    assert(node_wf(arena[s], arena, s));
}

/// The verdict of offering a node to the closed set.
#[derive(Clone, Copy, PartialEq, Eq, Structural, Debug)]
pub enum CloseResult {
    Accepted,
    Rejected,
}

/// A closed set over partially keyed nodes: for each key it remembers the
/// lowest cost accepted so far. Nodes without a key are never stored and are
/// always accepted.
pub struct PartialKeyedClosedSet {
    entries: Vec<(Key, i64)>,
}

impl View for PartialKeyedClosedSet {
    type V = Seq<(Key, i64)>;

    closed spec fn view(&self) -> Seq<(Key, i64)> {
        self.entries@
    }
}

/// Dedup correctness: no two entries of the closed set share a key.
pub open spec fn closed_set_keys_unique(s: Seq<(Key, i64)>) -> bool {
    forall|i: int, j: int| 0 <= i < j < s.len() ==> (#[trigger] s[i]).0 != (#[trigger] s[j]).0
}

/// How accepting a node changes the closed set's entries: a keyless node
/// changes nothing; a keyed node was cheaper than every entry with its key,
/// its key now maps to its cost, and no other entry moved.
pub open spec fn closed_accepted(pre: Seq<(Key, i64)>, post: Seq<(Key, i64)>, n: Node) -> bool {
    match n.key {
        None => post == pre,
        Some(k) => {
            &&& forall|i: int| 0 <= i < pre.len() && (#[trigger] pre[i]).0 == k ==> pre[i].1
                > n.cost
            &&& exists|i: int| 0 <= i < post.len() && #[trigger] post[i] == (k, n.cost)
            &&& forall|i: int|
                0 <= i < post.len() ==> (#[trigger] post[i]).0 == k || (i < pre.len() && post[i]
                    == pre[i])
        },
    }
}

/// An entry with the node's key and a cost at most the node's already stands
/// in the closed set: the node is a dominated duplicate.
pub open spec fn closed_rejects(s: Seq<(Key, i64)>, n: Node) -> bool {
    &&& n.key is Some
    &&& exists|i: int|
        0 <= i < s.len() && (#[trigger] s[i]).0 == n.key->Some_0 && s[i].1 <= n.cost
}

/// Dedup correctness: two distinct accepted entries of a well-formed closed
/// set never share a key.
pub proof fn lemma_closed_set_dedup(s: PartialKeyedClosedSet, i: int, j: int)
    requires
        s.wf(),
        0 <= i < s@.len(),
        0 <= j < s@.len(),
        i != j,
    ensures
        s@[i].0 != s@[j].0,
{
}

impl PartialKeyedClosedSet {
    pub open spec fn wf(self) -> bool {
        closed_set_keys_unique(self@)
    }

    pub fn new() -> (r: Self)
        ensures
            r.wf(),
            r@.len() == 0,
    {
        PartialKeyedClosedSet { entries: Vec::new() }
    }

    /// Offers a node. Rejected exactly when the node has a key and an entry
    /// with the same key and a cost no greater than the node's already exists;
    /// otherwise accepted, recording the node's cost for its key (if any) and
    /// touching no other key.
    pub fn check_and_insert(&mut self, node: &Node) -> (r: CloseResult)
        requires
            old(self).wf(),
        ensures
            final(self).wf(),
            match r {
                CloseResult::Rejected => final(self)@ == old(self)@ && closed_rejects(
                    old(self)@,
                    *node,
                ),
                CloseResult::Accepted => closed_accepted(old(self)@, final(self)@, *node),
            },
    {
        let k = match node.key {
            Some(k) => k,
            None => {
                return CloseResult::Accepted;
            },
        };
        proof {
            assert(node.key == Some(k));
        }
        let n = self.entries.len();
        for i in 0..n
            invariant
                n == self.entries.len(),
                old(self).wf(),
                self@ == old(self)@,
                node.key == Some(k),
                forall|j: int| 0 <= j < i ==> (#[trigger] self.entries@[j]).0 != k,
        {
            if self.entries[i].0 == k {
                if self.entries[i].1 <= node.cost {
                    proof {
                        assert((old(self)@[i as int]).0 == k && old(self)@[i as int].1
                            <= node.cost);
                    }
                    return CloseResult::Rejected;
                }
                proof {
                    assert forall|j: int|
                        0 <= j < old(self)@.len() && (#[trigger] old(self)@[j]).0 == k implies old(
                        self,
                    )@[j].1 > node.cost by {
                        if j < i as int {
                            assert(self.entries@[j].0 != k);
                        } else if j > i as int {
                            assert((old(self)@[i as int]).0 == (old(self)@[j]).0);
                            assert(false);
                        }
                    }
                }
                self.entries[i] = (k, node.cost);
                proof {
                    assert(self@[i as int] == (k, node.cost));
                    assert(self@ == old(self)@.update(i as int, (k, node.cost)));
                    assert forall|a: int, b: int| 0 <= a < b < self@.len() implies (
                    #[trigger] self@[a]).0 != (#[trigger] self@[b]).0 by {
                        assert((old(self)@[a]).0 != (old(self)@[b]).0);
                        assert(self@[a].0 == old(self)@[a].0 && self@[b].0 == old(self)@[b].0);
                    }
                }
                return CloseResult::Accepted;
            }
        }
        proof {
            assert forall|j: int|
                0 <= j < old(self)@.len() implies (#[trigger] old(self)@[j]).0 != k by {
                assert(self.entries@[j].0 != k);
            }
        }
        self.entries.push((k, node.cost));
        proof {
            let n0 = old(self)@.len() as int;
            assert(self@[n0] == (k, node.cost));
            assert forall|a: int, b: int| 0 <= a < b < self@.len() implies (#[trigger] self@[a]).0
                != (#[trigger] self@[b]).0 by {
                if b < n0 {
                    assert((old(self)@[a]).0 != (old(self)@[b]).0);
                } else {
                    assert(self@[b] == (k, node.cost));
                    assert((old(self)@[a]).0 != k);
                }
            }
        }
        return CloseResult::Accepted;
    }
}

/// The goal vertex handed to a heuristic, as a mathematical value.
pub open spec fn goal_vertex_of(goal: Option<Goal>) -> Option<int> {
    match goal {
        Some(g) => Some(g.vertex as int),
        None => None,
    }
}

/// A lower-bound estimate of the remaining cost from a vertex to a goal
/// vertex. Returning None suppresses node generation for that vertex.
pub trait Heuristic {
    /// What the estimate is, as a mathematical value.
    spec fn estimate_spec(&self, from_vertex: int, to_goal: Option<int>) -> Option<int>;

    fn estimate_cost(&self, from_vertex: usize, to_goal: Option<usize>) -> (r: Option<i64>)
        ensures
            match r {
                Some(c) => c >= 0 && self.estimate_spec(
                    from_vertex as int,
                    match to_goal {
                        Some(v) => Some(v as int),
                        None => None,
                    },
                ) == Some(c as int),
                None => self.estimate_spec(
                    from_vertex as int,
                    match to_goal {
                        Some(v) => Some(v as int),
                        None => None,
                    },
                ) is None,
            },
    ;
}

/// Estimates remaining cost as the straight-line distance between the two
/// vertices divided by the extrapolator's translational speed. The estimate
/// rounds its distance and its division down while the extrapolator's drive
/// times round both up, so no sequence of drives between the vertices costs
/// less than the estimate, and rotation only adds time: the estimate is a
/// lower bound.
pub struct EuclideanHeuristic {
    pub graph: Graph,
    pub extrapolation: DifferentialDriveLineFollow,
    pub cost_calculator: TimeCostCalculator,
}

impl EuclideanHeuristic {
    pub open spec fn wf(self) -> bool {
        self.extrapolation.wf()
    }
}

impl Heuristic for EuclideanHeuristic {
    /// Zero when no goal vertex is given; otherwise the travel time over the
    /// straight-line distance, or None when a vertex is out of range or the
    /// displacement or time does not fit the fixed-point ranges.
    open spec fn estimate_spec(&self, from_vertex: int, to_goal: Option<int>) -> Option<int> {
        match to_goal {
            None => Some(0),
            Some(g) => if 0 <= from_vertex < self.graph.vertices@.len() && 0 <= g
                < self.graph.vertices@.len() {
                let p0 = self.graph.vertices@[from_vertex];
                let p1 = self.graph.vertices@[g];
                if self.extrapolation.trans_speed_spec() >= 1 && -COORD_LIMIT < p1.x - p0.x
                    < COORD_LIMIT && -COORD_LIMIT < p1.y - p0.y < COORD_LIMIT {
                    let t = translation_time_spec(
                        self.extrapolation.trans_speed_spec(),
                        distance_spec(p0.x as int, p0.y as int, p1.x as int, p1.y as int),
                    );
                    if t <= i64::MAX {
                        Some(t)
                    } else {
                        None
                    }
                } else {
                    None
                }
            } else {
                None
            },
        }
    }

    fn estimate_cost(&self, from_vertex: usize, to_goal: Option<usize>) -> (r: Option<i64>) {
        let g = match to_goal {
            Some(g) => g,
            None => {
                return Some(0);
            },
        };
        if from_vertex >= self.graph.vertices.len() || g >= self.graph.vertices.len() {
            return None;
        }
        let p0 = self.graph.vertices[from_vertex];
        let p1 = self.graph.vertices[g];
        let dx128: i128 = (p1.x as i128) - (p0.x as i128);
        let dy128: i128 = (p1.y as i128) - (p0.y as i128);
        if dx128 <= -(COORD_LIMIT as i128) || dx128 >= COORD_LIMIT as i128 || dy128 <= -(
        COORD_LIMIT as i128) || dy128 >= COORD_LIMIT as i128 {
            return None;
        }
        proof {
            assert(0 <= dx128 * dx128 <= 21267647932558653966460912964485513216int && 0 <= dy128
                * dy128 <= 21267647932558653966460912964485513216int) by (nonlinear_arith)
                requires
                    -COORD_LIMIT < dx128 < COORD_LIMIT,
                    -COORD_LIMIT < dy128 < COORD_LIMIT,
                    COORD_LIMIT == 4_611_686_018_427_387_904i64,
            ;
        }
        let sq: u128 = ((dx128 * dx128) + (dy128 * dy128)) as u128;
        let d: u64 = crate::motion::isqrt(sq);
        proof {
            crate::motion::lemma_sqrt_floor_bounds(sq as int);
            assert((d as int) < 9223372036854775808int) by (nonlinear_arith)
                requires
                    (d as int) * (d as int) <= sq as int,
                    sq <= 42535295865117307932921825928971026432u128,
                    d >= 0,
            ;
        }
        let speed = self.extrapolation.translational_speed();
        if speed <= 0 {
            return None;
        }
        let t: u128 = (d as u128) * (SECOND_NANOS as u128) / (speed as u128);
        if t > i64::MAX as u128 {
            return None;
        }
        Some(t as i64)
    }
}

/// The capability set the engine is generic over. The cost type is fixed to
/// i64 nanoseconds and the cost calculator to integrated travel time; the
/// heuristic remains a type parameter.
pub trait Policy {
    type Heuristic: Heuristic;
}

/// The reference policy: i64 nanosecond costs, trajectory-duration cost
/// calculation, and the Euclidean heuristic.
pub struct SimplePolicy;

impl Policy for SimplePolicy {
    type Heuristic = EuclideanHeuristic;
}

/// The SE(2) line-follow expander: produces initial nodes from a start and
/// successor nodes from a parent, by extrapolating along graph edges.
pub struct Expander<P: Policy> {
    pub graph: Graph,
    pub extrapolator: DifferentialDriveLineFollow,
    pub cost_calculator: TimeCostCalculator,
    pub heuristic: P::Heuristic,
}

pub type SimpleExpander = Expander<SimplePolicy>;

/// A solution: the accumulated cost of the goal node and the concatenated
/// motion from the start. The motion is None when the agent starts on its
/// goal and no movement is needed.
pub struct Solution {
    cost: i64,
    motion: Option<Trajectory>,
}

impl Solution {
    pub closed spec fn cost_spec(self) -> i64 {
        self.cost
    }

    pub closed spec fn motion_spec(self) -> Option<Trajectory> {
        self.motion
    }

    pub fn motion(&self) -> (m: &Option<Trajectory>)
        ensures
            *m == self.motion_spec(),
    {
        &self.motion
    }

    pub fn cost(&self) -> (c: i64)
        ensures
            c == self.cost_spec(),
    {
        self.cost
    }
}

/// Builds the waypoints of the chain motion of node `i`, parents first.
fn chain_vec(nodes: &Vec<Node>, i: usize) -> (v: Vec<Waypoint>)
    requires
        arena_wf(nodes@),
        i < nodes@.len(),
    ensures
        v@ == chain_waypoints(nodes@, i as int),
    decreases i,
{
    proof {
        assert(node_wf(nodes@[i as int], nodes@, i as int));
    }
    match nodes[i].parent {
        None => {
            let mut v: Vec<Waypoint> = Vec::new();
            v.push(nodes[i].state);
            proof {
                assert(v@ =~= chain_waypoints(nodes@, i as int));
            }
            v
        },
        Some(p) => {
            let mut v = chain_vec(nodes, p);
            match &nodes[i].motion_from_parent {
                Some(m) => {
                    let n = m.len();
                    let mut j: usize = 1;
                    while j < n
                        invariant
                            arena_wf(nodes@),
                            i < nodes@.len(),
                            nodes@[i as int].motion_from_parent == Some(*m),
                            n == m@.len(),
                            1 <= j <= n,
                            v@ == chain_waypoints(nodes@, (nodes@[i as int].parent)->Some_0 as int)
                                + m@.subrange(1, j as int),
                        decreases n - j,
                    {
                        v.push(m.waypoint(j));
                        j += 1;
                        proof {
                            assert(m@.subrange(1, j as int) =~= m@.subrange(1, j as int - 1).push(
                                m@[j as int - 1],
                            ));
                        }
                    }
                    proof {
                        assert(m@.subrange(1, n as int) =~= m@.skip(1));
                        assert(v@ =~= chain_waypoints(nodes@, i as int));
                    }
                    v
                },
                None => {
                    // A node with a parent always carries a motion.
                    proof {
                        assert(false);
                    }
                    v
                },
            }
        },
    }
}

/// The lazy stream of initial nodes for a start: at most one node, a
/// zero-cost node at the start's waypoint tagged with the start metadata.
pub struct InitialNodes<'a, P: Policy> {
    pub start: Start,
    pub expanded: bool,
    pub expander: &'a Expander<P>,
    pub goal: Option<Goal>,
}

impl<'a, P: Policy> InitialNodes<'a, P> {
    fn new(expander: &'a Expander<P>, from_start: &Start, toward_goal: Option<&Goal>) -> (r: Self)
        ensures
            r.start == *from_start,
            !r.expanded,
            r.expander == expander,
            r.goal == (match toward_goal {
                Some(g) => Some(*g),
                None => None::<Goal>,
            }),
    {
        InitialNodes {
            start: *from_start,
            expanded: false,
            expander,
            goal: match toward_goal {
                Some(g) => Some(*g),
                None => None,
            },
        }
    }

    /// Yields the single initial node, or nothing when the start cannot be
    /// placed on the graph or the heuristic offers no estimate for it. After
    /// the first call the stream is spent: every later call returns None.
    pub fn next(&mut self) -> (r: Option<Node>)
        ensures
            final(self).start == old(self).start,
            final(self).expander == old(self).expander,
            final(self).goal == old(self).goal,
            final(self).expanded,
            r is Some <==> {
                &&& !old(self).expanded
                &&& old(self).start.to_waypoint_spec(old(self).expander.graph) is Some
                &&& old(self).expander.heuristic.estimate_spec(
                    old(self).start.vertex as int,
                    goal_vertex_of(old(self).goal),
                ) is Some
            },
            match r {
                Some(n) => {
                    &&& !old(self).expanded
                    &&& n.parent is None
                    &&& n.key is None
                    &&& n.motion_from_parent is None
                    &&& n.cost == 0
                    &&& n.is_start == Some(old(self).start)
                    &&& n.vertex == old(self).start.vertex
                    &&& Some(n.state) == old(self).start.to_waypoint_spec(old(self).expander.graph)
                    &&& n.state.time == 0
                    &&& n.remaining_cost_estimate >= 0
                    &&& old(self).expander.heuristic.estimate_spec(
                        old(self).start.vertex as int,
                        goal_vertex_of(old(self).goal),
                    ) == Some(n.remaining_cost_estimate as int)
                    &&& n.total_cost_estimate == n.remaining_cost_estimate
                },
                None => old(self).expanded || old(self).start.to_waypoint_spec(
                    old(self).expander.graph,
                ) is None || old(self).expander.heuristic.estimate_spec(
                    old(self).start.vertex as int,
                    goal_vertex_of(old(self).goal),
                ) is None,
            },
    {
        if self.expanded {
            return None;
        }
        self.expanded = true;
        let goal_vertex = match self.goal {
            Some(g) => Some(g.vertex),
            None => None,
        };
        let remaining_cost_estimate = match self.expander.heuristic.estimate_cost(
            self.start.vertex,
            goal_vertex,
        ) {
            Some(c) => c,
            None => {
                return None;
            },
        };
        let waypoint = match self.start.to_waypoint(&self.expander.graph) {
            Some(w) => w,
            None => {
                return None;
            },
        };
        Some(
            Node {
                cost: 0,
                remaining_cost_estimate,
                total_cost_estimate: remaining_cost_estimate,
                state: waypoint,
                key: None,
                vertex: self.start.vertex,
                motion_from_parent: None,
                parent: None,
                is_start: Some(self.start),
            },
        )
    }
}

/// The lazy stream of successors of one parent node: the off-graph start
/// branch, then the parent vertex's neighbors in declared order, then at most
/// one rotation toward the goal orientation.
pub struct Expansion<'a, P: Policy> {
    pub from_index: usize,
    pub from_state: Waypoint,
    pub from_vertex: usize,
    pub from_cost: i64,
    pub from_is_start: Option<Start>,
    pub expansion_index: usize,
    pub expanded_start: bool,
    pub expanded_goal_orientation: bool,
    pub expander: &'a Expander<P>,
    pub goal: Option<Goal>,
}

impl<'a, P: Policy> Expansion<'a, P> {
    pub open spec fn inv(self) -> bool {
        &&& self.expander.wf()
        &&& self.from_state.time >= 0
        &&& self.from_cost >= 0
    }

    /// How many neighbors the parent's vertex declares.
    pub open spec fn neighbor_count(self) -> int {
        if (self.from_vertex as int) < self.expander.graph.edges@.len() {
            self.expander.graph.edges@[self.from_vertex as int]@.len() as int
        } else {
            0
        }
    }

    /// Whether the parent is an off-graph start, whose only expansion drives
    /// to the start vertex itself.
    pub open spec fn is_offset_start(self) -> bool {
        match self.from_is_start {
            Some(s) => s.offset_location is Some,
            None => false,
        }
    }

    /// The neighbor the cursor position `k` names.
    pub open spec fn neighbor_at(self, k: int) -> usize {
        self.expander.graph.edges@[self.from_vertex as int]@[k]
    }

    /// No successor is owed at any cursor position in `[a, b)`: expansion
    /// toward each of those neighbors fails or produces nothing.
    pub open spec fn neighbors_not_owed(self, a: int, b: int) -> bool {
        forall|k: int| a <= k < b ==> !self.expand_to_ok(#[trigger] self.neighbor_at(k) as int)
    }

    /// An upper bound on how many successors the stream can still yield:
    /// each yield strictly lowers it, so a caller that drains the stream can
    /// bound its work.
    pub open spec fn stream_capacity(self) -> int {
        if self.is_offset_start() {
            if self.expanded_start {
                0
            } else {
                1
            }
        } else {
            (if (self.expansion_index as int) < self.neighbor_count() {
                self.neighbor_count() - self.expansion_index as int
            } else {
                0int
            }) + (if self.expanded_goal_orientation {
                0int
            } else {
                1int
            })
        }
    }

    /// Whether the goal-orientation rotation applies to this parent: there is
    /// a goal with an orientation and the parent stands on its vertex.
    pub open spec fn rotation_applicable(self) -> bool {
        match self.goal {
            Some(g) => g.vertex == self.from_vertex && g.orientation is Some,
            None => false,
        }
    }

    /// What a stream judges — which successors are owed, what they mean —
    /// depends only on the parent's data, never on the stream's cursor or
    /// latches: two streams over the same parent judge alike.
    pub proof fn lemma_cursor_independent(a: Self, b: Self)
        requires
            a.expander == b.expander,
            a.goal == b.goal,
            a.from_index == b.from_index,
            a.from_state == b.from_state,
            a.from_vertex == b.from_vertex,
            a.from_cost == b.from_cost,
            a.from_is_start == b.from_is_start,
        ensures
            a.is_offset_start() == b.is_offset_start(),
            a.neighbor_count() == b.neighbor_count(),
            a.rotation_applicable() == b.rotation_applicable(),
            forall|c: int| #[trigger] a.neighbor_at(c) == b.neighbor_at(c),
            forall|v: int| #[trigger] a.expand_to_ok(v) == b.expand_to_ok(v),
            forall|o: OrientationGoal| #[trigger] a.rotate_ok(o) == b.rotate_ok(o),
            forall|n: Node| #[trigger] a.successor_wf(n) == b.successor_wf(n),
            forall|n: Node| #[trigger] a.successor_semantics(n) == b.successor_semantics(n),
    {
        assert forall|c: int| #[trigger] a.neighbor_at(c) == b.neighbor_at(c) by {}
        assert forall|v: int| #[trigger] a.expand_to_ok(v) == b.expand_to_ok(v) by {}
        assert forall|o: OrientationGoal| #[trigger] a.rotate_ok(o) == b.rotate_ok(o) by {}
        assert forall|n: Node| #[trigger] a.successor_wf(n) == b.successor_wf(n) by {}
        assert forall|n: Node| #[trigger] a.successor_semantics(n) == b.successor_semantics(n) by {}
    }

    /// Structural well-formedness of an emitted successor: it points back at
    /// the parent, and its motion is a well-formed trajectory from the
    /// parent's state to its own whose duration is exactly the added cost.
    pub open spec fn successor_wf(self, n: Node) -> bool {
        &&& n.parent == Some(self.from_index)
        &&& n.is_start is None
        &&& n.cost >= 0
        &&& n.remaining_cost_estimate >= 0
        &&& n.total_cost_estimate as int == n.cost as int + n.remaining_cost_estimate as int
        &&& n.state.time >= 0
        &&& match n.motion_from_parent {
            Some(m) => {
                &&& m.wf()
                &&& m.first_spec() == self.from_state
                &&& m.last_spec() == n.state
                &&& n.cost as int == self.from_cost as int + m.duration_spec()
            },
            None => false,
        }
    }

    /// What an emitted successor means: a keyed successor traverses an edge
    /// to its vertex, its motion is exactly the parent state followed by the
    /// extrapolation to that vertex, and its remaining estimate is the
    /// heuristic's; an unkeyed successor rotates in place toward the goal
    /// orientation at the goal vertex with a zero remaining estimate.
    pub open spec fn successor_semantics(self, n: Node) -> bool {
        match n.key {
            Some(k) => {
                &&& k == (Key {
                    from_vertex: self.from_vertex,
                    to_vertex: n.vertex,
                    side: Side::Finish,
                })
                &&& n.vertex < self.expander.graph.vertices@.len()
                &&& self.expander.heuristic.estimate_spec(
                    n.vertex as int,
                    goal_vertex_of(self.goal),
                ) == Some(n.remaining_cost_estimate as int)
                &&& motion_seq(n) == seq![self.from_state]
                    + self.expander.extrapolator.extrapolate_spec(
                    self.from_state,
                    self.expander.graph.vertices@[n.vertex as int],
                )
            },
            None => {
                &&& n.vertex == self.from_vertex
                &&& n.remaining_cost_estimate == 0
                &&& match self.goal {
                    Some(g) => g.vertex == self.from_vertex && match g.orientation {
                        Some(og) => motion_seq(n) == seq![self.from_state]
                            + self.expander.extrapolator.rotate_spec(
                            self.from_state,
                            og.target as int,
                        ),
                        None => false,
                    },
                    None => false,
                }
            },
        }
    }

    fn new(
        expander: &'a Expander<P>,
        nodes: &Vec<Node>,
        from_index: usize,
        toward_goal: Option<&Goal>,
    ) -> (r: Self)
        requires
            expander.wf(),
            arena_wf(nodes@),
            from_index < nodes@.len(),
        ensures
            r.inv(),
            r.from_index == from_index,
            r.from_state == nodes@[from_index as int].state,
            r.from_vertex == nodes@[from_index as int].vertex,
            r.from_cost == nodes@[from_index as int].cost,
            r.from_is_start == nodes@[from_index as int].is_start,
            r.expander == expander,
            r.goal == (match toward_goal {
                Some(g) => Some(*g),
                None => None::<Goal>,
            }),
            !r.expanded_start,
            !r.expanded_goal_orientation,
            r.expansion_index == 0,
    {
        proof {
            assert(node_wf(nodes@[from_index as int], nodes@, from_index as int));
        }
        Expansion {
            from_index,
            from_state: nodes[from_index].state,
            from_vertex: nodes[from_index].vertex,
            from_cost: nodes[from_index].cost,
            from_is_start: nodes[from_index].is_start,
            expansion_index: 0,
            expanded_start: false,
            expanded_goal_orientation: false,
            expander,
            goal: match toward_goal {
                Some(g) => Some(*g),
                None => None,
            },
        }
    }

    /// When a successor along the edge to `to_vertex` is owed: the vertex
    /// exists, extrapolation toward it succeeds and moves, the heuristic has
    /// an estimate for it, and the resulting cost figures fit.
    pub open spec fn expand_to_ok(self, to_vertex: int) -> bool {
        &&& 0 <= to_vertex < self.expander.graph.vertices@.len()
        &&& self.expander.extrapolator.extrapolate_ok_spec(
            self.from_state,
            self.expander.graph.vertices@[to_vertex],
        )
        &&& self.expander.extrapolator.extrapolate_spec(
            self.from_state,
            self.expander.graph.vertices@[to_vertex],
        ).len() > 0
        &&& self.expander.heuristic.estimate_spec(to_vertex, goal_vertex_of(self.goal)) is Some
        &&& self.from_cost as int + (self.expander.extrapolator.extrapolate_spec(
            self.from_state,
            self.expander.graph.vertices@[to_vertex],
        ).last().time - self.from_state.time) + self.expander.heuristic.estimate_spec(
            to_vertex,
            goal_vertex_of(self.goal),
        )->Some_0 <= i64::MAX
    }

    /// Expands along the edge from the parent's vertex to `to_vertex`. A
    /// neighbor at the parent's own location yields no motion and is skipped,
    /// like any neighbor whose extrapolation fails.
    fn expand_to(&self, to_vertex: usize) -> (r: Option<Node>)
        requires
            self.inv(),
        ensures
            match r {
                Some(n) => {
                    &&& self.successor_wf(n)
                    &&& self.successor_semantics(n)
                    &&& n.key is Some
                    &&& n.vertex == to_vertex
                },
                None => true,
            },
            self.expand_to_ok(to_vertex as int) ==> r is Some,
    {
        let vertex = match self.expander.graph.vertex(to_vertex) {
            Some(p) => p,
            None => {
                return None;
            },
        };
        let wps = match self.expander.extrapolator.extrapolate(&self.from_state, &vertex) {
            Ok(w) => w,
            Err(_) => {
                return None;
            },
        };
        if wps.len() == 0 {
            return None;
        }
        let mut v: Vec<Waypoint> = Vec::new();
        v.push(self.from_state);
        let m = wps.len();
        let mut i: usize = 0;
        while i < m
            invariant
                m == wps.len(),
                i <= m,
                v@ == seq![self.from_state] + wps@.subrange(0, i as int),
            decreases m - i,
        {
            v.push(wps[i]);
            i += 1;
            proof {
                assert(wps@.subrange(0, i as int) =~= wps@.subrange(0, i as int - 1).push(
                    wps@[i as int - 1],
                ));
            }
        }
        proof {
            assert(wps@.subrange(0, m as int) =~= wps@);
            assert(trajectory_seq_wf(v@)) by {
                assert(v@[0] == self.from_state);
                assert(forall|k: int| 1 <= k < v@.len() ==> v@[k] == wps@[k - 1]);
            };
        }
        let goal_vertex = match self.goal {
            Some(g) => Some(g.vertex),
            None => None,
        };
        let remaining_cost_estimate = match self.expander.heuristic.estimate_cost(
            to_vertex,
            goal_vertex,
        ) {
            Some(c) => c,
            None => {
                return None;
            },
        };
        let trajectory = match Trajectory::new(v) {
            Ok(t) => t,
            Err(_) => {
                proof {
                    assert(false);
                }
                return None;
            },
        };
        let state = trajectory.last();
        self.make_node(state, to_vertex, remaining_cost_estimate, trajectory)
    }

    /// Builds a keyed successor node over a finished motion, accumulating the
    /// motion's duration onto the parent's cost. None when a cost would
    /// exceed the cost type's range; such a successor is skipped.
    fn make_node(
        &self,
        state: Waypoint,
        to_vertex: usize,
        remaining_cost_estimate: i64,
        motion: Trajectory,
    ) -> (r: Option<Node>)
        requires
            self.inv(),
            motion.wf(),
            motion.first_spec() == self.from_state,
            motion.last_spec() == state,
            remaining_cost_estimate >= 0,
        ensures
            match r {
                Some(n) => {
                    &&& self.successor_wf(n)
                    &&& n.key == Some(
                        Key {
                            from_vertex: self.from_vertex,
                            to_vertex,
                            side: Side::Finish,
                        },
                    )
                    &&& n.vertex == to_vertex
                    &&& n.state == state
                    &&& n.motion_from_parent == Some(motion)
                    &&& n.remaining_cost_estimate == remaining_cost_estimate
                },
                None => self.from_cost as int + motion.duration_spec()
                    + remaining_cost_estimate as int > i64::MAX,
            },
    {
        let added_cost = self.expander.cost_calculator.compute_cost(&motion);
        let cost128: i128 = (self.from_cost as i128) + (added_cost as i128);
        if cost128 > i64::MAX as i128 {
            return None;
        }
        let cost: i64 = cost128 as i64;
        let total128: i128 = (cost as i128) + (remaining_cost_estimate as i128);
        if total128 > i64::MAX as i128 {
            return None;
        }
        proof {
            lemma_trajectory_times_increase(motion@, 0, motion@.len() - 1);
        }
        Some(
            Node {
                cost,
                remaining_cost_estimate,
                total_cost_estimate: total128 as i64,
                state,
                key: Some(Key { from_vertex: self.from_vertex, to_vertex, side: Side::Finish }),
                vertex: to_vertex,
                motion_from_parent: Some(motion),
                parent: Some(self.from_index),
                is_start: None,
            },
        )
    }

    /// When the rotation successor toward a goal orientation is owed.
    pub open spec fn rotate_ok(self, og: OrientationGoal) -> bool {
        &&& self.expander.extrapolator.rotate_ok_spec(self.from_state, og.target as int)
        &&& self.expander.extrapolator.rotate_spec(self.from_state, og.target as int).len() > 0
        &&& self.from_cost as int + (self.expander.extrapolator.rotate_spec(
            self.from_state,
            og.target as int,
        ).last().time - self.from_state.time) <= i64::MAX
    }

    /// Attempts the single rotate-in-place successor toward the goal
    /// orientation; it carries no key and a zero remaining estimate.
    fn rotate_towards_target(&self, orientation_goal: OrientationGoal) -> (r: Option<Node>)
        requires
            self.inv(),
            match self.goal {
                Some(g) => g.vertex == self.from_vertex && g.orientation == Some(orientation_goal),
                None => false,
            },
        ensures
            match r {
                Some(n) => {
                    &&& self.successor_wf(n)
                    &&& self.successor_semantics(n)
                    &&& n.key is None
                },
                None => true,
            },
            self.rotate_ok(orientation_goal) ==> r is Some,
    {
        let wps = match self.expander.extrapolator.rotate_towards(
            &self.from_state,
            orientation_goal.target,
        ) {
            Ok(w) => w,
            Err(_) => {
                return None;
            },
        };
        if wps.len() == 0 {
            return None;
        }
        let mut v: Vec<Waypoint> = Vec::new();
        v.push(self.from_state);
        v.push(wps[0]);
        proof {
            assert(v@ =~= seq![self.from_state] + self.expander.extrapolator.rotate_spec(
                self.from_state,
                orientation_goal.target as int,
            ));
            assert(trajectory_seq_wf(v@));
        }
        let trajectory = match Trajectory::new(v) {
            Ok(t) => t,
            Err(_) => {
                proof {
                    assert(false);
                }
                return None;
            },
        };
        let state = trajectory.last();
        let added_cost = self.expander.cost_calculator.compute_cost(&trajectory);
        let cost128: i128 = (self.from_cost as i128) + (added_cost as i128);
        if cost128 > i64::MAX as i128 {
            return None;
        }
        let cost: i64 = cost128 as i64;
        proof {
            lemma_trajectory_times_increase(trajectory@, 0, trajectory@.len() - 1);
        }
        Some(
            Node {
                cost,
                remaining_cost_estimate: 0,
                total_cost_estimate: cost,
                state,
                key: None,
                vertex: self.from_vertex,
                motion_from_parent: Some(trajectory),
                parent: Some(self.from_index),
                is_start: None,
            },
        )
    }

    /// Expands the off-graph start: one successor that drives from the
    /// start's offset location to the start vertex itself.
    fn expand_from_start(&self) -> (r: Option<Node>)
        requires
            self.inv(),
        ensures
            match r {
                Some(n) => self.successor_wf(n) && self.successor_semantics(n) && n.vertex
                    == self.from_vertex,
                None => true,
            },
            self.expand_to_ok(self.from_vertex as int) ==> r is Some,
    {
        self.expand_to(self.from_vertex)
    }

    /// Yields the next successor of the parent node, or None when the stream
    /// is exhausted: an off-graph start offers exactly its one drive onto the
    /// graph; any other parent offers its declared neighbors in order, each
    /// owed whenever `expand_to_ok` holds for it, and then at most one
    /// rotation toward the goal orientation, owed whenever `rotate_ok` holds.
    pub fn next(&mut self) -> (r: Option<Node>)
        requires
            old(self).inv(),
        ensures
            final(self).inv(),
            final(self).expander == old(self).expander,
            final(self).goal == old(self).goal,
            final(self).from_index == old(self).from_index,
            final(self).from_state == old(self).from_state,
            final(self).from_vertex == old(self).from_vertex,
            final(self).from_cost == old(self).from_cost,
            final(self).from_is_start == old(self).from_is_start,
            final(self).expansion_index >= old(self).expansion_index,
            old(self).expanded_start ==> final(self).expanded_start,
            old(self).expanded_goal_orientation ==> final(self).expanded_goal_orientation,
            old(self).is_offset_start() ==> final(self).expanded_goal_orientation == old(
                self,
            ).expanded_goal_orientation,
            final(self).stream_capacity() <= old(self).stream_capacity(),
            r is Some ==> final(self).stream_capacity() < old(self).stream_capacity(),
            match r {
                Some(n) => {
                    &&& old(self).successor_wf(n)
                    &&& old(self).successor_semantics(n)
                    &&& if old(self).is_offset_start() {
                        // The single off-graph start drive, taken at most once.
                        &&& n.vertex == old(self).from_vertex
                        &&& !old(self).expanded_start
                        &&& final(self).expanded_start
                    } else if n.key is Some {
                        // A neighbor, in declared order: the cursor advanced
                        // to it and every neighbor it passed over was not owed.
                        &&& old(self).expansion_index < final(self).expansion_index
                            <= old(self).neighbor_count()
                        &&& n.vertex == old(self).neighbor_at(
                            final(self).expansion_index as int - 1,
                        )
                        &&& old(self).neighbors_not_owed(
                            old(self).expansion_index as int,
                            final(self).expansion_index as int - 1,
                        )
                        &&& final(self).expanded_goal_orientation == old(
                            self,
                        ).expanded_goal_orientation
                    } else {
                        // The rotation: only after the neighbors ran out, and
                        // only once.
                        &&& old(self).neighbors_not_owed(
                            old(self).expansion_index as int,
                            old(self).neighbor_count(),
                        )
                        &&& final(self).expansion_index >= old(self).neighbor_count()
                        &&& !old(self).expanded_goal_orientation
                        &&& final(self).expanded_goal_orientation
                    }
                },
                None => if old(self).is_offset_start() {
                    old(self).expanded_start || !old(self).expand_to_ok(
                        old(self).from_vertex as int,
                    )
                } else {
                    &&& final(self).expansion_index >= old(self).neighbor_count()
                    &&& old(self).neighbors_not_owed(
                        old(self).expansion_index as int,
                        old(self).neighbor_count(),
                    )
                    &&& (old(self).rotation_applicable() && !old(self).expanded_goal_orientation)
                        ==> (final(self).expanded_goal_orientation && !old(self).rotate_ok(
                        old(self).goal->Some_0.orientation->Some_0,
                    ))
                },
            },
    {
        let offset_start = match self.from_is_start {
            Some(s) => match s.offset_location {
                Some(_) => true,
                None => false,
            },
            None => false,
        };
        proof {
            assert(offset_start == self.is_offset_start());
        }
        if offset_start {
            if self.expanded_start {
                return None;
            }
            self.expanded_start = true;
            return self.expand_from_start();
        }
        let nbrs_len: usize = if self.from_vertex < self.expander.graph.edges.len() {
            self.expander.graph.edges[self.from_vertex].len()
        } else {
            0
        };
        while self.expansion_index < nbrs_len
            invariant
                self.inv(),
                self.expander == old(self).expander,
                self.goal == old(self).goal,
                self.from_index == old(self).from_index,
                self.from_state == old(self).from_state,
                self.from_vertex == old(self).from_vertex,
                self.from_cost == old(self).from_cost,
                self.from_is_start == old(self).from_is_start,
                self.expanded_start == old(self).expanded_start,
                self.expanded_goal_orientation == old(self).expanded_goal_orientation,
                !old(self).is_offset_start(),
                old(self).expansion_index <= self.expansion_index,
                nbrs_len as int == old(self).neighbor_count(),
                old(self).neighbors_not_owed(
                    old(self).expansion_index as int,
                    self.expansion_index as int,
                ),
            decreases nbrs_len - self.expansion_index,
        {
            let to_vertex = self.expander.graph.edges[self.from_vertex][self.expansion_index];
            proof {
                assert(to_vertex == old(self).neighbor_at(self.expansion_index as int));
            }
            self.expansion_index = self.expansion_index + 1;
            match self.expand_to(to_vertex) {
                Some(n) => {
                    return Some(n);
                },
                None => {
                    proof {
                        assert(!old(self).expand_to_ok(to_vertex as int));
                        assert forall|k: int|
                            old(self).expansion_index <= k
                                < self.expansion_index implies !old(self).expand_to_ok(
                            #[trigger] old(self).neighbor_at(k) as int,
                        ) by {
                            if k < self.expansion_index - 1 {
                                assert(old(self).neighbors_not_owed(
                                    old(self).expansion_index as int,
                                    self.expansion_index as int - 1,
                                ));
                            }
                        }
                    }
                },
            }
        }
        let goal = match self.goal {
            Some(g) => g,
            None => {
                return None;
            },
        };
        if self.from_vertex == goal.vertex && !self.expanded_goal_orientation {
            self.expanded_goal_orientation = true;
            match goal.orientation {
                Some(og) => {
                    match self.rotate_towards_target(og) {
                        Some(n) => {
                            return Some(n);
                        },
                        None => {
                            return None;
                        },
                    }
                },
                None => {
                    return None;
                },
            }
        }
        None
    }
}

impl<P: Policy> Expander<P> {
    pub open spec fn wf(self) -> bool {
        self.extrapolator.wf()
    }

    pub fn new(
        graph: Graph,
        extrapolator: DifferentialDriveLineFollow,
        cost_calculator: TimeCostCalculator,
        heuristic: P::Heuristic,
    ) -> (r: Self)
        ensures
            r.graph == graph,
            r.extrapolator == extrapolator,
            r.cost_calculator == cost_calculator,
            r.heuristic == heuristic,
    {
        Expander { graph, extrapolator, cost_calculator, heuristic }
    }

    /// The lazy stream of initial nodes for a start.
    pub fn start<'a>(&'a self, start: &Start, goal: Option<&Goal>) -> (r: InitialNodes<'a, P>)
        ensures
            r.start == *start,
            !r.expanded,
            r.expander == self,
            r.goal == (match goal {
                Some(g) => Some(*g),
                None => None::<Goal>,
            }),
    {
        InitialNodes::new(self, start, goal)
    }

    /// The lazy stream of successors of the node at `parent` in the arena.
    pub fn expand<'a>(&'a self, nodes: &Vec<Node>, parent: usize, goal: Option<&Goal>) -> (r:
        Expansion<'a, P>)
        requires
            self.wf(),
            arena_wf(nodes@),
            parent < nodes@.len(),
        ensures
            r.inv(),
            r.from_index == parent,
            r.from_state == nodes@[parent as int].state,
            r.from_vertex == nodes@[parent as int].vertex,
            r.from_cost == nodes@[parent as int].cost,
            r.from_is_start == nodes@[parent as int].is_start,
            r.expander == self,
            r.goal == (match goal {
                Some(g) => Some(*g),
                None => None::<Goal>,
            }),
            !r.expanded_start,
            !r.expanded_goal_orientation,
            r.expansion_index == 0,
    {
        Expansion::new(self, nodes, parent, goal)
    }

    /// Walks from the solution node up through parent links, concatenating
    /// each motion into one trajectory whose cost is the node's accumulated
    /// cost: the sum of the per-segment costs along the chain.
    pub fn make_solution(&self, nodes: &Vec<Node>, index: usize) -> (s: Solution)
        requires
            arena_wf(nodes@),
            index < nodes@.len(),
        ensures
            s.cost_spec() == nodes@[index as int].cost,
            s.cost_spec() as int == chain_cost(nodes@, index as int),
            match s.motion_spec() {
                Some(t) => {
                    &&& nodes@[index as int].parent is Some
                    &&& t.wf()
                    &&& t@ == chain_waypoints(nodes@, index as int)
                },
                None => nodes@[index as int].parent is None,
            },
    {
        proof {
            lemma_chain_cost(nodes@, index as int);
            lemma_chain_waypoints(nodes@, index as int);
            assert(node_wf(nodes@[index as int], nodes@, index as int));
        }
        let cost = nodes[index].cost;
        let has_parent = match nodes[index].parent {
            Some(_) => true,
            None => false,
        };
        if !has_parent {
            return Solution { cost, motion: None };
        }
        let waypoints = chain_vec(nodes, index);
        match Trajectory::new(waypoints) {
            Ok(t) => Solution { cost, motion: Some(t) },
            Err(_) => {
                // The chain lemma shows the collected waypoints always form a
                // well-formed trajectory when the node has a parent.
                proof {
                    assert(false);
                }
                Solution { cost, motion: None }
            },
        }
    }
}

} // verus!
