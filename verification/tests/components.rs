//! Unit tests for the motion primitives, the closed set, and the error paths.

use mapf::graph::Graph;
use mapf::line_follow_se2::{
    CloseResult, EuclideanHeuristic, Expander, Goal, Heuristic, Key, Node,
    PartialKeyedClosedSet, Side, SimplePolicy, Start,
};
use mapf::motion::{
    ConstructionError, DifferentialDriveLineFollow, ExtrapolationError, Point, Position,
    TimeCostCalculator, Trajectory, TrajectoryError, Waypoint, COORD_LIMIT,
    DEFAULT_ROTATIONAL_THRESHOLD,
};
use mapf::planner::{PlanInitError, Planner, Status};

const METER: i64 = 1_000_000_000;
const SECOND: i64 = 1_000_000_000;

fn nanorad(rad: f64) -> i64 {
    (rad * 1.0e9) as i64
}

fn wp(time: i64, x: i64, y: i64, yaw: i64) -> Waypoint {
    Waypoint { time, position: Position { x, y, yaw } }
}

fn speeds() -> DifferentialDriveLineFollow {
    DifferentialDriveLineFollow::new(METER, nanorad(std::f64::consts::PI)).unwrap()
}

#[test]
fn construction_rejects_non_positive_speeds() {
    assert_eq!(
        DifferentialDriveLineFollow::new(0, 1),
        Err(ConstructionError::NonPositiveTranslationalSpeed)
    );
    assert_eq!(
        DifferentialDriveLineFollow::new(-3, 1),
        Err(ConstructionError::NonPositiveTranslationalSpeed)
    );
    assert_eq!(
        DifferentialDriveLineFollow::new(1, 0),
        Err(ConstructionError::NonPositiveRotationalSpeed)
    );
    let e = DifferentialDriveLineFollow::new(2, 3).unwrap();
    assert_eq!(e.translational_speed(), 2);
    assert_eq!(e.rotational_speed(), 3);
}

#[test]
fn trajectory_construction_errors() {
    assert!(matches!(
        Trajectory::new(vec![wp(0, 0, 0, 0)]),
        Err(TrajectoryError::TooFewWaypoints)
    ));
    assert!(matches!(
        Trajectory::new(vec![wp(5, 0, 0, 0), wp(5, METER, 0, 0)]),
        Err(TrajectoryError::TimesNotIncreasing)
    ));
    assert!(matches!(
        Trajectory::new(vec![wp(-1, 0, 0, 0), wp(5, METER, 0, 0)]),
        Err(TrajectoryError::NegativeTime)
    ));
    let t = Trajectory::new(vec![wp(2, 0, 0, 0), wp(7, METER, 0, 0)]).unwrap();
    assert_eq!(t.duration(), 5);
    assert_eq!(t.first().time, 2);
    assert_eq!(t.last().time, 7);
    assert_eq!(TimeCostCalculator.compute_cost(&t), 5);
}

#[test]
fn extrapolate_straight_drive() {
    let e = speeds();
    let from = wp(0, 0, 0, 0);
    let wps = e.extrapolate(&from, &Point { x: 2 * METER, y: 0 }).unwrap();
    // Already facing the target: a single arrival waypoint, two seconds away.
    assert_eq!(wps.len(), 1);
    assert_eq!(wps[0].time, 2 * SECOND);
    assert_eq!(wps[0].position.x, 2 * METER);
    assert_eq!(wps[0].position.yaw, 0);
}

#[test]
fn extrapolate_emits_spin_for_a_side_target() {
    let e = speeds();
    let from = wp(0, 0, 0, 0);
    // The target is straight up: the bearing is a quarter turn, so the spin
    // takes half a second at half a turn per second.
    let wps = e.extrapolate(&from, &Point { x: 0, y: METER }).unwrap();
    assert_eq!(wps.len(), 2);
    let quarter = nanorad(90f64.to_radians());
    assert!((wps[0].position.yaw - quarter).abs() <= 2);
    assert!((wps[0].time - SECOND / 2).abs() <= 2);
    assert_eq!(wps[0].position.x, 0);
    assert_eq!(wps[0].position.y, 0);
    assert_eq!(wps[1].position.y, METER);
    assert!(wps[0].time < wps[1].time);
}

#[test]
fn extrapolate_to_own_location_is_empty() {
    let e = speeds();
    let from = wp(0, 3, 4, 17);
    let wps = e.extrapolate(&from, &Point { x: 3, y: 4 }).unwrap();
    assert_eq!(wps.len(), 0);
}

#[test]
fn extrapolate_rejects_degenerate_inputs() {
    let e = speeds();
    let from = wp(0, 0, 0, 0);
    // A displacement at the coordinate limit.
    assert_eq!(
        e.extrapolate(&from, &Point { x: COORD_LIMIT, y: 0 }),
        Err(ExtrapolationError::Degenerate)
    );
    // A drive whose arrival time cannot fit.
    let late = wp(i64::MAX - 1, 0, 0, 0);
    assert_eq!(
        e.extrapolate(&late, &Point { x: METER, y: 0 }),
        Err(ExtrapolationError::Degenerate)
    );
    // Drive times round up, so even a one-nanometer drive at an enormous
    // speed advances the clock by a nanosecond.
    let fast = DifferentialDriveLineFollow::new(i64::MAX, 1).unwrap();
    let tiny = fast.extrapolate(&from, &Point { x: 1, y: 0 }).unwrap();
    assert_eq!(tiny.last().unwrap().time, 1);
}

#[test]
fn rotate_towards_goal_yaw() {
    let e = speeds();
    let from = wp(0, METER, 0, 0);
    let target = nanorad(std::f64::consts::PI);
    let wps = e.rotate_towards(&from, target).unwrap();
    assert_eq!(wps.len(), 1);
    assert_eq!(wps[0].time, SECOND);
    assert_eq!(wps[0].position.x, METER);
    assert_eq!(wps[0].position.yaw, target);
    // Already aligned: nothing to do.
    let aligned = wp(0, METER, 0, target);
    assert_eq!(e.rotate_towards(&aligned, target).unwrap().len(), 0);
}

#[test]
fn round_trip_duration() {
    // Out and back between two points, starting turned away from the target:
    // each leg is a half-turn rotation plus a one-meter drive, so the total
    // duration is twice the sum of one rotation and one translation.
    let e = speeds();
    let half_turn = nanorad(std::f64::consts::PI);
    let a = wp(0, 0, 0, half_turn);
    let out = e.extrapolate(&a, &Point { x: METER, y: 0 }).unwrap();
    let arrived = *out.last().unwrap();
    let duration_out = arrived.time - a.time;
    let back = e.extrapolate(&arrived, &Point { x: 0, y: 0 }).unwrap();
    let returned = *back.last().unwrap();
    let duration_back = returned.time - arrived.time;
    let rotation_cost = SECOND;
    let translation_cost = SECOND;
    assert_eq!(duration_out + duration_back, 2 * (rotation_cost + translation_cost));
}

#[test]
fn bearing_facts() {
    // Toward the positive x axis the bearing is exactly zero; elsewhere it
    // stays within the wrapped angle range and points into the right
    // quadrant.
    assert_eq!(mapf::motion::bearing(5, 0), 0);
    let quarter = mapf::motion::bearing(0, 5);
    assert!((quarter - nanorad(90f64.to_radians())).abs() <= 2);
    let diagonal = mapf::motion::bearing(7, 7);
    assert!(0 < diagonal && diagonal < quarter);
    assert!(mapf::motion::bearing(-5, 0).abs() <= mapf::motion::PI_NANOS);
    assert!(mapf::motion::bearing(-5, -1).abs() <= mapf::motion::PI_NANOS);
}

#[test]
fn rounding_keeps_the_estimate_a_lower_bound() {
    // Nanometer-scale diagonal hops: the direct distance over (0,0)..(4,4)
    // rounds down to 5 nm, while each (2,2) leg rounds up to 3 nm, so the
    // estimate (5 ns at 1 m/s) cannot exceed the two drives (3 ns each).
    let e = speeds();
    let probe = e.extrapolate(&wp(0, 0, 0, 0), &Point { x: 2, y: 2 }).unwrap();
    let bearing = probe.last().unwrap().position.yaw;
    let leg1 = e.extrapolate(&wp(0, 0, 0, bearing), &Point { x: 2, y: 2 }).unwrap();
    assert_eq!(leg1.len(), 1);
    assert_eq!(leg1[0].time, 3);
    let leg2 = e.extrapolate(&leg1[0], &Point { x: 4, y: 4 }).unwrap();
    assert_eq!(leg2.last().unwrap().time, 6);
    let h = EuclideanHeuristic {
        graph: Graph {
            vertices: vec![Point { x: 0, y: 0 }, Point { x: 4, y: 4 }],
            edges: vec![vec![1], vec![0]],
        },
        extrapolation: e,
        cost_calculator: TimeCostCalculator,
    };
    let estimate = h.estimate_cost(0, Some(1)).unwrap();
    assert_eq!(estimate, 5);
    assert!(estimate <= leg2.last().unwrap().time);
}

fn keyed_node(from_vertex: usize, to_vertex: usize, cost: i64) -> Node {
    Node {
        cost,
        remaining_cost_estimate: 0,
        total_cost_estimate: cost,
        state: wp(cost, 0, 0, 0),
        key: Some(Key { from_vertex, to_vertex, side: Side::Finish }),
        vertex: to_vertex,
        motion_from_parent: None,
        parent: None,
        is_start: None,
    }
}

#[test]
fn closed_set_deduplicates_by_key() {
    let mut closed = PartialKeyedClosedSet::new();
    let first = keyed_node(0, 1, 10);
    assert_eq!(closed.check_and_insert(&first), CloseResult::Accepted);
    // An equal or costlier node with the same key is rejected.
    assert_eq!(closed.check_and_insert(&keyed_node(0, 1, 10)), CloseResult::Rejected);
    assert_eq!(closed.check_and_insert(&keyed_node(0, 1, 12)), CloseResult::Rejected);
    // A cheaper node with the same key replaces the entry.
    assert_eq!(closed.check_and_insert(&keyed_node(0, 1, 7)), CloseResult::Accepted);
    assert_eq!(closed.check_and_insert(&keyed_node(0, 1, 8)), CloseResult::Rejected);
    // A different key is unaffected.
    assert_eq!(closed.check_and_insert(&keyed_node(1, 0, 50)), CloseResult::Accepted);
    // A keyless node is always accepted and never stored.
    let mut free = keyed_node(0, 1, 100);
    free.key = None;
    assert_eq!(closed.check_and_insert(&free), CloseResult::Accepted);
    assert_eq!(closed.check_and_insert(&free), CloseResult::Accepted);
}

#[test]
fn node_accessors() {
    let mut n = keyed_node(2, 3, 42);
    n.remaining_cost_estimate = 8;
    n.total_cost_estimate = 50;
    assert_eq!(n.cost(), 42);
    assert_eq!(n.remaining_cost_estimate(), 8);
    assert_eq!(n.total_cost_estimate(), 50);
    assert_eq!(n.key(), Some(Key { from_vertex: 2, to_vertex: 3, side: Side::Finish }));
    assert_eq!(n.parent(), None);
}

fn two_vertex_graph() -> Graph {
    Graph {
        vertices: vec![Point { x: 0, y: 0 }, Point { x: 3 * METER, y: 4 * METER }],
        edges: vec![vec![1], vec![0]],
    }
}

#[test]
fn euclidean_heuristic_values() {
    let h = EuclideanHeuristic {
        graph: two_vertex_graph(),
        extrapolation: speeds(),
        cost_calculator: TimeCostCalculator,
    };
    // A 3-4-5 triangle: five meters at one meter per second.
    assert_eq!(h.estimate_cost(0, Some(1)), Some(5 * SECOND));
    assert_eq!(h.estimate_cost(0, Some(0)), Some(0));
    // No goal vertex: the degenerate zero estimate.
    assert_eq!(h.estimate_cost(0, None), Some(0));
    // An out-of-range vertex has no estimate.
    assert_eq!(h.estimate_cost(0, Some(9)), None);
    assert_eq!(h.estimate_cost(9, Some(0)), None);
}

#[test]
fn plan_errors() {
    let extrapolation = speeds();
    let heuristic = EuclideanHeuristic {
        graph: two_vertex_graph(),
        extrapolation,
        cost_calculator: TimeCostCalculator,
    };
    let planner: Planner<SimplePolicy> = Planner::new(Expander::new(
        two_vertex_graph(),
        extrapolation,
        TimeCostCalculator,
        heuristic,
    ));
    // A start vertex out of range: the Euclidean heuristic already has no
    // estimate for it, which is the error the plan reports first.
    let bad_start = Start { vertex: 9, orientation: 0, offset_location: None };
    let goal = Goal { vertex: 1, orientation: None };
    assert_eq!(
        planner.plan(&bad_start, goal).err(),
        Some(PlanInitError::NoHeuristicEstimate)
    );
    // The goal vertex is out of range, so the heuristic has no estimate.
    let start = Start { vertex: 0, orientation: 0, offset_location: None };
    let bad_goal = Goal { vertex: 9, orientation: None };
    assert_eq!(
        planner.plan(&start, bad_goal).err(),
        Some(PlanInitError::NoHeuristicEstimate)
    );
    // A sound start and goal begin a search with one generated node.
    let progress = planner.plan(&start, goal).unwrap();
    assert_eq!(progress.node_count(), 1);
}

#[test]
fn expansion_skips_invalid_neighbors() {
    // Vertex 1 also lists an out-of-range neighbor and itself; both are
    // skipped and the straight line is still found.
    let graph = || Graph {
        vertices: vec![
            Point { x: 0, y: 0 },
            Point { x: METER, y: 0 },
            Point { x: 2 * METER, y: 0 },
        ],
        edges: vec![vec![1], vec![0, 99, 1, 2], vec![1]],
    };
    let extrapolation = speeds();
    let heuristic = EuclideanHeuristic {
        graph: graph(),
        extrapolation,
        cost_calculator: TimeCostCalculator,
    };
    let planner: Planner<SimplePolicy> = Planner::new(Expander::new(
        graph(),
        extrapolation,
        TimeCostCalculator,
        heuristic,
    ));
    let start = Start { vertex: 0, orientation: 0, offset_location: None };
    let goal = Goal { vertex: 2, orientation: None };
    let mut progress = planner.plan(&start, goal).unwrap();
    match progress.solve(None) {
        Status::Solved(solution) => assert_eq!(solution.cost(), 2 * SECOND),
        _ => panic!("expected a solution"),
    }
}

#[test]
fn coincident_vertices_do_not_trap_the_search() {
    // Vertex 1 has a twin at the same location; driving to the twin is a
    // zero displacement, which produces no motion and is skipped.
    let graph = || Graph {
        vertices: vec![
            Point { x: 0, y: 0 },
            Point { x: METER, y: 0 },
            Point { x: METER, y: 0 },
            Point { x: 2 * METER, y: 0 },
        ],
        edges: vec![vec![1], vec![0, 2, 3], vec![1], vec![1]],
    };
    let extrapolation = speeds();
    let heuristic = EuclideanHeuristic {
        graph: graph(),
        extrapolation,
        cost_calculator: TimeCostCalculator,
    };
    let planner: Planner<SimplePolicy> = Planner::new(Expander::new(
        graph(),
        extrapolation,
        TimeCostCalculator,
        heuristic,
    ));
    let start = Start { vertex: 0, orientation: 0, offset_location: None };
    let goal = Goal { vertex: 3, orientation: None };
    let mut progress = planner.plan(&start, goal).unwrap();
    match progress.solve(None) {
        Status::Solved(solution) => assert_eq!(solution.cost(), 2 * SECOND),
        _ => panic!("expected a solution"),
    }
}

#[test]
fn goal_orientation_wraps_full_turns() {
    let goal = Goal {
        vertex: 0,
        orientation: Some(
            mapf::line_follow_se2::OrientationGoal {
                target: nanorad(0.1),
                threshold: DEFAULT_ROTATIONAL_THRESHOLD,
            },
        ),
    };
    let mut node = keyed_node(0, 0, 0);
    node.vertex = 0;
    // A yaw a full turn beyond the target names the same orientation.
    node.state = wp(0, 0, 0, nanorad(2.0 * std::f64::consts::PI + 0.1));
    assert!(goal.is_satisfied(&node));
    node.state = wp(0, 0, 0, nanorad(-2.0 * std::f64::consts::PI + 0.1));
    assert!(goal.is_satisfied(&node));
    node.state = wp(0, 0, 0, nanorad(std::f64::consts::PI + 0.1));
    assert!(!goal.is_satisfied(&node));
}

#[test]
fn goal_orientation_threshold() {
    let goal = Goal {
        vertex: 0,
        orientation: Some(
            mapf::line_follow_se2::OrientationGoal {
                target: nanorad(std::f64::consts::PI),
                threshold: DEFAULT_ROTATIONAL_THRESHOLD,
            },
        ),
    };
    let mut node = keyed_node(0, 0, 0);
    node.vertex = 0;
    // Yaw just within the threshold of the target, read modulo a full turn:
    // minus pi and plus pi name the same orientation.
    node.state = wp(0, 0, 0, -nanorad(std::f64::consts::PI));
    assert!(goal.is_satisfied(&node));
    node.state = wp(0, 0, 0, 0);
    assert!(!goal.is_satisfied(&node));
    let unoriented = Goal { vertex: 0, orientation: None };
    assert!(unoriented.is_satisfied(&node));
    node.vertex = 1;
    assert!(!unoriented.is_satisfied(&node));
}
