//! Driving a search to completion or incrementally: the A*-style best-first
//! algorithm over a min-priority frontier, and the planner that owns the
//! expander and hands out resumable search state.

use crate::line_follow_se2::{
    arena_wf, chain_cost, chain_waypoints, closed_accepted, closed_rejects, lemma_arena_push,
    node_wf, CloseResult, Expander, Expansion, Goal, Heuristic, Node, PartialKeyedClosedSet,
    Policy, Solution, Start,
};
use vstd::prelude::*;

verus! {

/// The outcome of driving a search.
pub enum Status {
    /// A cost-optimal solution was extracted.
    Solved(Solution),
    /// The frontier was exhausted before the goal was satisfied.
    Impossible,
    /// More work remains; the search may be resumed.
    Incomplete,
}

/// Why a plan could not be initialized.
#[derive(Clone, Copy, PartialEq, Eq, Structural, Debug)]
pub enum PlanInitError {
    /// The start vertex is out of range and no offset location was given.
    InvalidStartVertex,
    /// The heuristic offers no estimate for the start.
    NoHeuristicEstimate,
}

/// Live search state: the arena of nodes produced so far, the frontier of
/// open node indices ordered by total cost estimate, and the closed set.
pub struct Progress<'a, P: Policy> {
    pub expander: &'a Expander<P>,
    pub goal: Goal,
    pub nodes: Vec<Node>,
    pub frontier: Vec<(i64, usize)>,
    pub closed: PartialKeyedClosedSet,
    /// How many steps the search has taken; ties `solve`'s Incomplete
    /// outcome to its budget.
    pub steps_taken: Ghost<nat>,
}

/// The frontier entries that register the nodes appended from position `n0`
/// on: each carries its node's total cost estimate and its arena index.
pub open spec fn appended_entries(nodes: Seq<Node>, n0: int) -> Seq<(i64, usize)> {
    Seq::new((nodes.len() - n0) as nat, |i: int| (nodes[n0 + i].total_cost_estimate, (n0 + i) as usize))
}

/// Drains one node's successor stream onto the arena and the frontier: every
/// yielded successor is appended and registered under its total cost
/// estimate, and — the completeness direction — every owed successor is
/// yielded before the stream ends: each declared neighbor toward which
/// expansion is owed gets an appended successor at its vertex, an off-graph
/// start's single drive is appended when owed, and the goal rotation's
/// unkeyed successor is appended when owed.
#[verifier::rlimit(100)]
fn drain_expansion<'a, P: Policy>(
    nodes: &mut Vec<Node>,
    frontier: &mut Vec<(i64, usize)>,
    expansion: Expansion<'a, P>,
)
    requires
        expansion.inv(),
        !expansion.expanded_start,
        !expansion.expanded_goal_orientation,
        expansion.expansion_index == 0,
        arena_wf(old(nodes)@),
        (expansion.from_index as int) < old(nodes)@.len(),
        expansion.from_state == old(nodes)@[expansion.from_index as int].state,
        expansion.from_vertex == old(nodes)@[expansion.from_index as int].vertex,
        expansion.from_cost == old(nodes)@[expansion.from_index as int].cost,
        expansion.from_is_start == old(nodes)@[expansion.from_index as int].is_start,
    ensures
        old(nodes)@.len() <= final(nodes)@.len(),
        final(nodes)@.subrange(0, old(nodes)@.len() as int) == old(nodes)@,
        arena_wf(final(nodes)@),
        forall|m: int|
            old(nodes)@.len() <= m < final(nodes)@.len() ==> expansion.successor_wf(
                #[trigger] final(nodes)@[m],
            ) && expansion.successor_semantics(final(nodes)@[m]),
        final(frontier)@ == old(frontier)@ + appended_entries(
            final(nodes)@,
            old(nodes)@.len() as int,
        ),
        expansion.is_offset_start() ==> (!expansion.expand_to_ok(expansion.from_vertex as int)
            || exists|m: int|
            old(nodes)@.len() <= m < final(nodes)@.len() && (#[trigger] final(nodes)@[m]).vertex
                == expansion.from_vertex),
        !expansion.is_offset_start() ==> forall|c: int|
            0 <= c < expansion.neighbor_count() ==> !expansion.expand_to_ok(
                #[trigger] expansion.neighbor_at(c) as int,
            ) || (exists|m: int|
                old(nodes)@.len() <= m < final(nodes)@.len() && (
                #[trigger] final(nodes)@[m]).vertex == expansion.neighbor_at(c)),
        (!expansion.is_offset_start() && expansion.rotation_applicable() && expansion.rotate_ok(
            expansion.goal->Some_0.orientation->Some_0,
        )) ==> exists|m: int|
            old(nodes)@.len() <= m < final(nodes)@.len() && (#[trigger] final(nodes)@[m]).key
                is None,
{
    let ghost anchor = expansion;
    let ghost n0 = old(nodes)@.len() as int;
    let ghost og = expansion.goal->Some_0.orientation->Some_0;
    let mut exp = expansion;
    let mut done: bool = false;
    while !done
        invariant
            exp.inv(),
            exp.expander == anchor.expander,
            exp.goal == anchor.goal,
            exp.from_index == anchor.from_index,
            exp.from_state == anchor.from_state,
            exp.from_vertex == anchor.from_vertex,
            exp.from_cost == anchor.from_cost,
            exp.from_is_start == anchor.from_is_start,
            anchor.inv(),
            og == anchor.goal->Some_0.orientation->Some_0,
            n0 == old(nodes)@.len(),
            (anchor.from_index as int) < n0,
            anchor.from_state == old(nodes)@[anchor.from_index as int].state,
            anchor.from_vertex == old(nodes)@[anchor.from_index as int].vertex,
            anchor.from_cost == old(nodes)@[anchor.from_index as int].cost,
            anchor.from_is_start == old(nodes)@[anchor.from_index as int].is_start,
            arena_wf(nodes@),
            n0 <= nodes@.len(),
            nodes@.subrange(0, n0) == old(nodes)@,
            forall|m: int|
                n0 <= m < nodes@.len() ==> anchor.successor_wf(#[trigger] nodes@[m])
                    && anchor.successor_semantics(nodes@[m]),
            frontier@ == old(frontier)@ + appended_entries(nodes@, n0),
            !anchor.is_offset_start() ==> forall|c: int|
                0 <= c < exp.expansion_index && c < anchor.neighbor_count()
                    ==> !anchor.expand_to_ok(#[trigger] anchor.neighbor_at(c) as int) || (exists|
                    m: int,
                |
                    n0 <= m < nodes@.len() && (#[trigger] nodes@[m]).vertex == anchor.neighbor_at(
                        c,
                    )),
            anchor.rotation_applicable() && exp.expanded_goal_orientation ==> (!anchor.rotate_ok(
                og,
            ) || exists|m: int|
                n0 <= m < nodes@.len() && (#[trigger] nodes@[m]).key is None),
            anchor.is_offset_start() && exp.expanded_start ==> (!anchor.expand_to_ok(
                anchor.from_vertex as int,
            ) || exists|m: int|
                n0 <= m < nodes@.len() && (#[trigger] nodes@[m]).vertex == anchor.from_vertex),
            done ==> (!anchor.is_offset_start() ==> exp.expansion_index as int
                >= anchor.neighbor_count()),
            done ==> (!anchor.is_offset_start() && anchor.rotation_applicable()
                && !exp.expanded_goal_orientation ==> !anchor.rotate_ok(og)),
            done ==> (anchor.is_offset_start() ==> exp.expanded_start || !anchor.expand_to_ok(
                anchor.from_vertex as int,
            )),
        decreases exp.stream_capacity() + (if done {
            0int
        } else {
            1int
        }),
    {
        let ghost pre = exp;
        proof {
            Expansion::lemma_cursor_independent(pre, anchor);
        }
        match exp.next() {
            Some(node) => {
                let total_estimate = node.total_cost_estimate;
                let new_index = nodes.len();
                let ghost prev_nodes = nodes@;
                proof {
                    assert(anchor.successor_wf(node) && anchor.successor_semantics(node));
                    assert(nodes@[anchor.from_index as int] == old(nodes)@[anchor.from_index
                        as int]);
                    lemma_arena_push(nodes@, node);
                    assert(appended_entries(nodes@.push(node), n0) =~= appended_entries(
                        nodes@,
                        n0,
                    ).push((node.total_cost_estimate, new_index)));
                    assert(old(frontier)@ + appended_entries(nodes@.push(node), n0) =~= (old(
                        frontier,
                    )@ + appended_entries(nodes@, n0)).push((node.total_cost_estimate, new_index)));
                }
                nodes.push(node);
                frontier.push((total_estimate, new_index));
                proof {
                    assert forall|m: int|
                        0 <= m < prev_nodes.len() implies #[trigger] nodes@[m]
                        == prev_nodes[m] by {}
                    assert(nodes@.subrange(0, n0) =~= old(nodes)@);
                    assert(nodes@[new_index as int] == node);
                    if !anchor.is_offset_start() {
                        assert forall|c: int|
                            0 <= c < exp.expansion_index && c
                                < anchor.neighbor_count() implies !anchor.expand_to_ok(
                            #[trigger] anchor.neighbor_at(c) as int,
                        ) || (exists|m: int|
                            n0 <= m < nodes@.len() && (#[trigger] nodes@[m]).vertex
                                == anchor.neighbor_at(c)) by {
                            if c < pre.expansion_index {
                                if !(!anchor.expand_to_ok(anchor.neighbor_at(c) as int)) {
                                    let m0 = choose|m: int|
                                        n0 <= m < prev_nodes.len() && (
                                        #[trigger] prev_nodes[m]).vertex == anchor.neighbor_at(c);
                                    assert(nodes@[m0] == prev_nodes[m0]);
                                    assert(nodes@[m0].vertex == anchor.neighbor_at(c));
                                }
                            } else if node.key is Some {
                                if c < exp.expansion_index - 1 {
                                    assert(pre.neighbors_not_owed(
                                        pre.expansion_index as int,
                                        exp.expansion_index as int - 1,
                                    ));
                                    assert(!pre.expand_to_ok(pre.neighbor_at(c) as int));
                                    assert(pre.neighbor_at(c) == anchor.neighbor_at(c));
                                } else {
                                    assert(node.vertex == pre.neighbor_at(c));
                                    assert(nodes@[new_index as int].vertex == anchor.neighbor_at(
                                        c,
                                    ));
                                }
                            } else {
                                // The rotation only fires once the neighbors
                                // are exhausted.
                                assert(pre.neighbors_not_owed(
                                    pre.expansion_index as int,
                                    pre.neighbor_count(),
                                ));
                                assert(!pre.expand_to_ok(pre.neighbor_at(c) as int));
                                assert(pre.neighbor_at(c) == anchor.neighbor_at(c));
                            }
                        }
                    }
                    if node.key is None {
                        assert(nodes@[new_index as int].key is None);
                        assert(exists|m: int|
                            n0 <= m < nodes@.len() && (#[trigger] nodes@[m]).key is None);
                    } else {
                        if anchor.rotation_applicable() && exp.expanded_goal_orientation {
                            assert(pre.expanded_goal_orientation);
                            if !(!anchor.rotate_ok(og)) {
                                let m0 = choose|m: int|
                                    n0 <= m < prev_nodes.len() && (#[trigger] prev_nodes[m]).key
                                        is None;
                                assert(nodes@[m0] == prev_nodes[m0]);
                                assert(nodes@[m0].key is None);
                            }
                        }
                    }
                    if anchor.is_offset_start() {
                        assert(nodes@[new_index as int].vertex == anchor.from_vertex);
                    }
                }
            },
            None => {
                done = true;
                proof {
                    if !anchor.is_offset_start() {
                        assert(!pre.is_offset_start());
                        assert(pre.neighbors_not_owed(
                            pre.expansion_index as int,
                            pre.neighbor_count(),
                        ));
                        assert forall|c: int|
                            0 <= c < exp.expansion_index && c
                                < anchor.neighbor_count() implies !anchor.expand_to_ok(
                            #[trigger] anchor.neighbor_at(c) as int,
                        ) || (exists|m: int|
                            n0 <= m < nodes@.len() && (#[trigger] nodes@[m]).vertex
                                == anchor.neighbor_at(c)) by {
                            if c >= pre.expansion_index {
                                assert(c < pre.neighbor_count());
                                assert(!pre.expand_to_ok(pre.neighbor_at(c) as int));
                                assert(anchor.neighbor_at(c) == pre.neighbor_at(c));
                            }
                        }
                        if anchor.rotation_applicable() && !pre.expanded_goal_orientation
                            && exp.expanded_goal_orientation {
                            assert(!pre.rotate_ok(pre.goal->Some_0.orientation->Some_0));
                            assert(pre.goal->Some_0.orientation->Some_0 == og);
                            assert(!anchor.rotate_ok(og));
                        }
                    }
                }
            },
        }
    }
    proof {
        if !anchor.is_offset_start() {
            assert forall|c: int| 0 <= c < anchor.neighbor_count() implies !anchor.expand_to_ok(
                #[trigger] anchor.neighbor_at(c) as int,
            ) || (exists|m: int|
                n0 <= m < nodes@.len() && (#[trigger] nodes@[m]).vertex == anchor.neighbor_at(
                    c,
                )) by {
                assert(c < exp.expansion_index);
            }
        }
    }
}

impl<'a, P: Policy> Progress<'a, P> {
    pub open spec fn wf(self) -> bool {
        &&& self.expander.wf()
        &&& arena_wf(self.nodes@)
        &&& self.closed.wf()
        &&& forall|i: int|
            0 <= i < self.frontier@.len() ==> (#[trigger] self.frontier@[i]).1
                < self.nodes@.len() && self.frontier@[i].0 == self.nodes@[self.frontier@[i].1
                as int].total_cost_estimate
    }

    /// What a Solved status returned from this search state means: some node
    /// of the arena satisfies the goal, the solution's cost is that node's
    /// accumulated cost, which is the sum of the per-segment costs of its
    /// chain, and the solution's motion is the chain's concatenated,
    /// strictly time-increasing trajectory (absent only when the start node
    /// itself was the goal).
    pub open spec fn solved_at(self, s: Solution, idx: int) -> bool {
        &&& 0 <= idx < self.nodes@.len()
        &&& self.goal.is_satisfied_spec(self.nodes@[idx])
        &&& s.cost_spec() == self.nodes@[idx].cost
        &&& s.cost_spec() as int == chain_cost(self.nodes@, idx)
        &&& match s.motion_spec() {
            Some(t) => {
                &&& self.nodes@[idx].parent is Some
                &&& t.wf()
                &&& t@ == chain_waypoints(self.nodes@, idx)
            },
            None => self.nodes@[idx].parent is None,
        }
    }

    /// As `solved_at`, and in addition the solution node's total cost
    /// estimate was the lowest on the frontier it was popped from.
    pub open spec fn solved_min(self, s: Solution, idx: int, frontier0: Seq<(i64, usize)>) -> bool {
        &&& self.solved_at(s, idx)
        &&& forall|j: int|
            0 <= j < frontier0.len() ==> (#[trigger] frontier0[j]).0
                >= self.nodes@[idx].total_cost_estimate
    }

    /// As `solved_at`, and every entry still on the frontier carries a total
    /// cost estimate at least the solution node's: the pop that settled the
    /// search took a minimum, and nothing cheaper was left waiting.
    pub open spec fn solved_settled(self, s: Solution, idx: int) -> bool {
        &&& self.solved_at(s, idx)
        &&& forall|j: int|
            0 <= j < self.frontier@.len() ==> (#[trigger] self.frontier@[j]).0
                >= self.nodes@[idx].total_cost_estimate
    }

    /// The successor stream of the node at `idx` was drained into the nodes
    /// `post` appended: `e` is a stream over exactly that node's data, every
    /// appended node is one of its well-formed, meaningful successors, and
    /// every owed successor is among the appended nodes — each declared
    /// neighbor toward which expansion is owed has a successor at its vertex,
    /// an off-graph start's single drive is appended when owed, and the goal
    /// rotation's unkeyed successor is appended when owed.
    pub open spec fn drained(self, post: Self, idx: int, e: Expansion<'a, P>) -> bool {
        let n0 = self.nodes@.len() as int;
        &&& e.expander == self.expander
        &&& e.goal == Some(self.goal)
        &&& e.from_index == idx as usize
        &&& e.from_state == self.nodes@[idx].state
        &&& e.from_vertex == self.nodes@[idx].vertex
        &&& e.from_cost == self.nodes@[idx].cost
        &&& e.from_is_start == self.nodes@[idx].is_start
        &&& forall|m: int|
            n0 <= m < post.nodes@.len() ==> e.successor_wf(#[trigger] post.nodes@[m])
                && e.successor_semantics(post.nodes@[m])
        &&& (e.is_offset_start() ==> (!e.expand_to_ok(e.from_vertex as int) || exists|m: int|
            n0 <= m < post.nodes@.len() && (#[trigger] post.nodes@[m]).vertex == e.from_vertex))
        &&& (!e.is_offset_start() ==> forall|c: int|
            0 <= c < e.neighbor_count() ==> !e.expand_to_ok(#[trigger] e.neighbor_at(c) as int)
                || (exists|m: int|
                n0 <= m < post.nodes@.len() && (#[trigger] post.nodes@[m]).vertex
                    == e.neighbor_at(c)))
        &&& ((!e.is_offset_start() && e.rotation_applicable() && e.rotate_ok(
            e.goal->Some_0.orientation->Some_0,
        )) ==> exists|m: int|
            n0 <= m < post.nodes@.len() && (#[trigger] post.nodes@[m]).key is None)
    }

    /// One Incomplete step: the minimal frontier entry `k` — the earliest
    /// among equals — was removed; its node does not satisfy the goal; and
    /// either the closed set rejected the node as a dominated duplicate and
    /// nothing else changed, or the node was accepted and its successor
    /// stream was drained onto the arena, every successor registered on the
    /// frontier under its total cost estimate.
    pub open spec fn stepped_at(self, post: Self, k: int) -> bool {
        let idx = self.frontier@[k].1 as int;
        let n0 = self.nodes@.len() as int;
        &&& 0 <= k < self.frontier@.len()
        &&& forall|j: int|
            0 <= j < self.frontier@.len() ==> (#[trigger] self.frontier@[j]).0
                >= self.frontier@[k].0
        &&& forall|j: int| 0 <= j < k ==> (#[trigger] self.frontier@[j]).0 > self.frontier@[k].0
        &&& !self.goal.is_satisfied_spec(self.nodes@[idx])
        &&& post.goal == self.goal
        &&& post.expander == self.expander
        &&& n0 <= post.nodes@.len()
        &&& post.nodes@.subrange(0, n0) == self.nodes@
        &&& post.frontier@ == self.frontier@.remove(k) + appended_entries(post.nodes@, n0)
        &&& ({
            ||| (post.nodes@ == self.nodes@ && post.closed@ == self.closed@ && closed_rejects(
                self.closed@,
                self.nodes@[idx],
            ))
            ||| (closed_accepted(self.closed@, post.closed@, self.nodes@[idx]) && exists|
                e: Expansion<'a, P>,
            | #[trigger] self.drained(post, idx, e))
        })
    }

    /// One Incomplete step relates two search states.
    pub open spec fn stepped(self, post: Self) -> bool {
        exists|k: int| self.stepped_at(post, k)
    }

    /// The step that settles a search: a minimal frontier entry — the
    /// earliest among equals — is removed, its node satisfies the goal, the
    /// solution is extracted from that node, and nothing else changes.
    pub open spec fn solved_step(self, post: Self, s: Solution) -> bool {
        exists|k: int|
            {
                &&& 0 <= k < self.frontier@.len()
                &&& (forall|j: int|
                    0 <= j < self.frontier@.len() ==> (#[trigger] self.frontier@[j]).0
                        >= self.frontier@[k].0)
                &&& (forall|j: int|
                    0 <= j < k ==> (#[trigger] self.frontier@[j]).0 > self.frontier@[k].0)
                &&& post.nodes == self.nodes
                &&& post.closed == self.closed
                &&& post.goal == self.goal
                &&& post.expander == self.expander
                &&& post.frontier@ == self.frontier@.remove(k)
                &&& #[trigger] post.solved_at(s, self.frontier@[k].1 as int)
            }
    }

    /// The step that exhausts a search: the frontier is empty, nothing is
    /// popped, and nothing changes.
    pub open spec fn exhausted_step(self, post: Self) -> bool {
        &&& self.frontier@.len() == 0
        &&& post.nodes == self.nodes
        &&& post.frontier == self.frontier
        &&& post.closed == self.closed
        &&& post.goal == self.goal
        &&& post.expander == self.expander
    }

    /// A complete run of `solve`: a chain of Incomplete steps from `pre`,
    /// finished according to the returned status — by the solving pop, by the
    /// pop of an exhausted frontier, or, for Incomplete, by nothing more.
    pub open spec fn solve_run(pre: Self, post: Self, r: Status, trace: Seq<Self>) -> bool {
        &&& trace.len() >= 1
        &&& trace[0] == pre
        &&& forall|i: int| 0 <= i < trace.len() - 1 ==> #[trigger] trace[i].stepped(trace[i + 1])
        &&& match r {
            Status::Solved(s) => trace.last().solved_step(post, s),
            Status::Impossible => trace.last().exhausted_step(post),
            Status::Incomplete => trace.last() == post,
        }
    }

    /// How many nodes the search has generated so far.
    pub fn node_count(&self) -> (n: usize)
        ensures
            n == self.nodes@.len(),
    {
        self.nodes.len()
    }

    /// Removes and returns a frontier entry with the lowest total cost
    /// estimate; among equal estimates the earliest-inserted entry wins.
    fn pop_min(&mut self) -> (r: Option<(i64, usize)>)
        requires
            old(self).wf(),
        ensures
            final(self).wf(),
            final(self).expander == old(self).expander,
            final(self).goal == old(self).goal,
            final(self).nodes == old(self).nodes,
            final(self).closed == old(self).closed,
            final(self).steps_taken == old(self).steps_taken,
            match r {
                None => old(self).frontier@.len() == 0 && final(self).frontier == old(
                    self,
                ).frontier,
                Some((t, idx)) => {
                    &&& (idx as int) < old(self).nodes@.len()
                    &&& t == old(self).nodes@[idx as int].total_cost_estimate
                    &&& exists|k: int|
                        0 <= k < old(self).frontier@.len() && old(self).frontier@[k] == (t, idx)
                            && final(self).frontier@ == old(self).frontier@.remove(k) && (forall|
                            j: int,
                        | 0 <= j < k ==> (#[trigger] old(self).frontier@[j]).0 > t)
                    &&& forall|j: int|
                        0 <= j < old(self).frontier@.len() ==> (#[trigger] old(
                            self,
                        ).frontier@[j]).0 >= t
                },
            },
    {
        if self.frontier.len() == 0 {
            return None;
        }
        let mut best: usize = 0;
        let mut i: usize = 1;
        let n = self.frontier.len();
        while i < n
            invariant
                n == self.frontier@.len(),
                0 < n,
                best < i <= n,
                forall|j: int| 0 <= j < i ==> (#[trigger] self.frontier@[j]).0
                    >= self.frontier@[best as int].0,
                forall|j: int| 0 <= j < best ==> (#[trigger] self.frontier@[j]).0
                    > self.frontier@[best as int].0,
            decreases n - i,
        {
            if self.frontier[i].0 < self.frontier[best].0 {
                best = i;
            }
            i += 1;
        }
        let entry = self.frontier.remove(best);
        Some(entry)
    }

    /// One pop-expand-push step. Impossible when the frontier is empty;
    /// Solved when the popped node satisfies the goal — the popped node had
    /// the lowest total cost estimate on the frontier; otherwise the node is
    /// offered to the closed set and, unless rejected as a duplicate, its
    /// successor stream is drained onto the arena and frontier, and the step
    /// reports Incomplete.
    #[verifier::rlimit(100)]
    pub fn step(&mut self) -> (r: Status)
        requires
            old(self).wf(),
        ensures
            final(self).wf(),
            final(self).expander == old(self).expander,
            final(self).goal == old(self).goal,
            final(self).steps_taken@ == old(self).steps_taken@ + 1,
            r is Impossible ==> old(self).exhausted_step(*final(self))
                && final(self).frontier@.len() == 0,
            r is Solved ==> old(self).solved_step(*final(self), r->Solved_0) && exists|idx: int|
                #[trigger] final(self).solved_min(r->Solved_0, idx, old(self).frontier@)
                && final(self).solved_settled(r->Solved_0, idx),
            r is Incomplete ==> old(self).stepped(*final(self)),
    {
        self.steps_taken = Ghost(self.steps_taken@ + 1);
        let (total, index) = match self.pop_min() {
            None => {
                return Status::Impossible;
            },
            Some(p) => p,
        };
        let ghost k0 = choose|k: int|
            0 <= k < old(self).frontier@.len() && old(self).frontier@[k] == (total, index)
                && self.frontier@ == old(self).frontier@.remove(k) && (forall|j: int|
                0 <= j < k ==> (#[trigger] old(self).frontier@[j]).0 > total);
        let goal = self.goal;
        if goal.is_satisfied(&self.nodes[index]) {
            let solution = self.expander.make_solution(&self.nodes, index);
            let result = Status::Solved(solution);
            proof {
                assert(result is Solved);
                assert(result->Solved_0 == solution);
                assert(self.solved_min(solution, index as int, old(self).frontier@));
                assert forall|j: int| 0 <= j < self.frontier@.len() implies (
                #[trigger] self.frontier@[j]).0 >= self.nodes@[index as int].total_cost_estimate by {
                    if j < k0 {
                        assert(self.frontier@[j] == old(self).frontier@[j]);
                    } else {
                        assert(self.frontier@[j] == old(self).frontier@[j + 1]);
                    }
                }
                assert(self.solved_settled(solution, index as int));
                assert(self.nodes == old(self).nodes);
                assert(exists|idx: int|
                    #[trigger] self.solved_min(result->Solved_0, idx, old(self).frontier@)
                        && self.solved_settled(result->Solved_0, idx));
                assert(self.solved_at(solution, old(self).frontier@[k0].1 as int));
                assert(old(self).solved_step(*self, result->Solved_0));
            }
            return result;
        }
        let ghost n0 = old(self).nodes@.len() as int;
        let ghost fr1 = old(self).frontier@.remove(k0);
        match self.closed.check_and_insert(&self.nodes[index]) {
            CloseResult::Rejected => {
                proof {
                    assert(self.nodes@.subrange(0, n0) =~= old(self).nodes@);
                    assert(self.frontier@ =~= fr1 + appended_entries(self.nodes@, n0));
                    assert(old(self).stepped_at(*self, k0));
                }
                return Status::Incomplete;
            },
            CloseResult::Accepted => {},
        }
        let expander = self.expander;
        let expansion = expander.expand(&self.nodes, index, Some(&goal));
        let ghost e0 = expansion;
        proof {
            assert(self.nodes@.subrange(0, n0) =~= old(self).nodes@);
        }
        drain_expansion(&mut self.nodes, &mut self.frontier, expansion);
        let nodes_len = self.nodes.len();
        proof {
            assert(self.nodes@.len() == nodes_len <= usize::MAX);
            assert(self.nodes@.subrange(0, n0) == old(self).nodes@);
            assert(old(self).drained(*self, index as int, e0));
            // The surviving frontier entries still register their nodes, and
            // the appended ones register theirs by construction.
            assert forall|i: int| 0 <= i < self.frontier@.len() implies (
            #[trigger] self.frontier@[i]).1 < self.nodes@.len() && self.frontier@[i].0
                == self.nodes@[self.frontier@[i].1 as int].total_cost_estimate by {
                if i < fr1.len() {
                    assert(self.frontier@[i] == fr1[i]);
                    if i < k0 {
                        assert(fr1[i] == old(self).frontier@[i]);
                    } else {
                        assert(fr1[i] == old(self).frontier@[i + 1]);
                    }
                    let v = fr1[i].1 as int;
                    assert(0 <= v < n0);
                    assert(fr1[i].0 == old(self).nodes@[v].total_cost_estimate);
                    assert(old(self).nodes@[v] == self.nodes@.subrange(0, n0)[v]);
                    assert(self.nodes@.subrange(0, n0)[v] == self.nodes@[v]);
                } else {
                    let j: int = i - fr1.len();
                    assert(0 <= j < appended_entries(self.nodes@, n0).len());
                    assert(self.frontier@[i] == appended_entries(self.nodes@, n0)[j]);
                    assert(appended_entries(self.nodes@, n0)[j] == (
                        self.nodes@[n0 + j].total_cost_estimate,
                        (n0 + j) as usize,
                    ));
                }
            }
            assert(old(self).stepped_at(*self, k0));
        }
        Status::Incomplete
    }

    /// Calls `step` until the outcome is no longer Incomplete or the node
    /// budget expires: with `Some(limit)` at most that many steps are taken
    /// and the frontier is preserved so the caller may resume.
    pub fn solve(&mut self, limit: Option<usize>) -> (r: Status)
        requires
            old(self).wf(),
        ensures
            final(self).wf(),
            final(self).expander == old(self).expander,
            final(self).goal == old(self).goal,
            r is Impossible ==> final(self).frontier@.len() == 0,
            r matches Status::Solved(s) ==> exists|idx: int|
                #[trigger] final(self).solved_settled(s, idx),
            final(self).steps_taken@ <= old(self).steps_taken@ + (match limit {
                Some(l) => l as nat,
                None => usize::MAX as nat,
            }),
            r is Incomplete ==> final(self).steps_taken@ == old(self).steps_taken@ + (
            match limit {
                Some(l) => l as nat,
                None => usize::MAX as nat,
            }),
            exists|trace: Seq<Progress<'a, P>>|
                #[trigger] Self::solve_run(*old(self), *final(self), r, trace),
    {
        let mut remaining: usize = match limit {
            Some(l) => l,
            None => usize::MAX,
        };
        let ghost budget0: int = remaining as int;
        let ghost mut trace: Seq<Progress<'a, P>> = seq![*old(self)];
        while remaining > 0
            invariant
                self.wf(),
                self.expander == old(self).expander,
                self.goal == old(self).goal,
                0 <= remaining as int <= budget0,
                self.steps_taken@ as int == old(self).steps_taken@ as int + budget0
                    - remaining as int,
                budget0 == (match limit {
                    Some(l) => l as int,
                    None => usize::MAX as int,
                }),
                trace.len() >= 1,
                trace[0] == *old(self),
                trace.last() == *self,
                forall|i: int|
                    0 <= i < trace.len() - 1 ==> #[trigger] trace[i].stepped(trace[i + 1]),
            decreases remaining,
        {
            remaining -= 1;
            let ghost before = *self;
            match self.step() {
                Status::Incomplete => {
                    proof {
                        assert(before.stepped(*self));
                        trace = trace.push(*self);
                        assert forall|i: int|
                            0 <= i < trace.len() - 1 implies #[trigger] trace[i].stepped(
                            trace[i + 1],
                        ) by {
                            if i < trace.len() - 2 {
                                assert(trace[i] == trace.drop_last()[i] && trace[i + 1]
                                    == trace.drop_last()[i + 1]);
                            } else {
                                assert(trace[i] == before && trace[i + 1] == *self);
                            }
                        }
                    }
                },
                Status::Solved(s) => {
                    let result = Status::Solved(s);
                    proof {
                        assert(before.solved_step(*self, result->Solved_0));
                        assert(Self::solve_run(*old(self), *self, result, trace));
                    }
                    return result;
                },
                Status::Impossible => {
                    proof {
                        assert(before.exhausted_step(*self));
                        assert(Self::solve_run(*old(self), *self, Status::Impossible, trace));
                    }
                    return Status::Impossible;
                },
            }
        }
        proof {
            assert(Self::solve_run(*old(self), *self, Status::Incomplete, trace));
        }
        Status::Incomplete
    }
}

/// Owns the expander and starts searches against it.
pub struct Planner<P: Policy> {
    pub expander: Expander<P>,
}

impl<P: Policy> Planner<P> {
    pub fn new(expander: Expander<P>) -> (r: Self)
        ensures
            r.expander == expander,
    {
        Planner { expander }
    }

    /// Builds a search whose frontier holds the single initial node of the
    /// start. Fails when the heuristic has no estimate for the start, or the
    /// start vertex is out of range and no offset location was given.
    pub fn plan<'b>(&'b self, start: &Start, goal: Goal) -> (r: Result<
        Progress<'b, P>,
        PlanInitError,
    >)
        requires
            self.expander.wf(),
        ensures
            match r {
                Ok(p) => {
                    &&& p.wf()
                    &&& p.expander == &self.expander
                    &&& p.goal == goal
                    &&& p.nodes@.len() == 1
                    &&& p.nodes@[0].cost == 0
                    &&& p.nodes@[0].vertex == start.vertex
                    &&& p.nodes@[0].is_start == Some(*start)
                    &&& Some(p.nodes@[0].state) == start.to_waypoint_spec(self.expander.graph)
                    &&& self.expander.heuristic.estimate_spec(
                        start.vertex as int,
                        Some(goal.vertex as int),
                    ) == Some(p.nodes@[0].remaining_cost_estimate as int)
                    &&& p.nodes@[0].total_cost_estimate == p.nodes@[0].remaining_cost_estimate
                    &&& p.frontier@.len() == 1
                    &&& p.frontier@[0] == (p.nodes@[0].total_cost_estimate, 0usize)
                    &&& p.closed@.len() == 0
                    &&& p.steps_taken@ == 0
                },
                Err(e) => {
                    &&& (start.to_waypoint_spec(self.expander.graph) is None
                        || self.expander.heuristic.estimate_spec(
                        start.vertex as int,
                        Some(goal.vertex as int),
                    ) is None)
                    &&& e == (if self.expander.heuristic.estimate_spec(
                        start.vertex as int,
                        Some(goal.vertex as int),
                    ) is None {
                        PlanInitError::NoHeuristicEstimate
                    } else {
                        PlanInitError::InvalidStartVertex
                    })
                },
            },
    {
        let mut initial = self.expander.start(start, Some(&goal));
        let node = match initial.next() {
            Some(n) => n,
            None => {
                match self.expander.heuristic.estimate_cost(start.vertex, Some(goal.vertex)) {
                    None => {
                        return Err(PlanInitError::NoHeuristicEstimate);
                    },
                    Some(_) => {
                        return Err(PlanInitError::InvalidStartVertex);
                    },
                }
            },
        };
        let total = node.total_cost_estimate;
        let mut nodes: Vec<Node> = Vec::new();
        nodes.push(node);
        let mut frontier: Vec<(i64, usize)> = Vec::new();
        frontier.push((total, 0));
        proof {
            assert(node_wf(nodes@[0], nodes@, 0));
        }
        Ok(
            Progress {
                expander: &self.expander,
                goal,
                nodes,
                frontier,
                closed: PartialKeyedClosedSet::new(),
                steps_taken: Ghost(0nat),
            },
        )
    }
}

/// Monotone frontier, the inductive step: when every total cost estimate on
/// the frontier is at least the last popped value, the popped entry is a
/// minimum of the frontier, and every pushed successor's total is at least
/// the popped value (a consistent heuristic), then the popped value does not
/// fall below the last one and the next frontier again lies at or above it.
pub proof fn lemma_monotone_frontier_step(
    last_popped: i64,
    frontier: Seq<i64>,
    popped_index: int,
    pushed: Seq<i64>,
)
    requires
        0 <= popped_index < frontier.len(),
        forall|i: int| 0 <= i < frontier.len() ==> #[trigger] frontier[i] >= last_popped,
        forall|i: int| 0 <= i < frontier.len() ==> #[trigger] frontier[i]
            >= frontier[popped_index],
        forall|i: int| 0 <= i < pushed.len() ==> #[trigger] pushed[i] >= frontier[popped_index],
    ensures
        frontier[popped_index] >= last_popped,
        forall|i: int|
            0 <= i < frontier.remove(popped_index).len() ==> #[trigger] frontier.remove(
                popped_index,
            )[i] >= frontier[popped_index],
        forall|i: int| 0 <= i < pushed.len() ==> #[trigger] pushed[i] >= frontier[popped_index],
{
    assert forall|i: int|
        0 <= i < frontier.remove(popped_index).len() implies #[trigger] frontier.remove(
        popped_index,
    )[i] >= frontier[popped_index] by {
        if i < popped_index {
            assert(frontier.remove(popped_index)[i] == frontier[i]);
        } else {
            assert(frontier.remove(popped_index)[i] == frontier[i + 1]);
        }
    }
}

} // verus!
