//! End-to-end planning scenarios on small graphs. Coordinates are written in
//! meters and converted to the library's nanometer fixed point; speeds are
//! 1 m/s translation and pi rad/s rotation, so a one-meter drive and a
//! half-turn each take exactly one second.

use mapf::graph::Graph;
use mapf::line_follow_se2::{
    EuclideanHeuristic, Expander, Goal, OrientationGoal, SimplePolicy, Start,
};
use mapf::motion::{
    DifferentialDriveLineFollow, Point, TimeCostCalculator, Trajectory, DEFAULT_ROTATIONAL_THRESHOLD,
};
use mapf::planner::{Planner, Progress, Status};

const METER: i64 = 1_000_000_000;
const SECOND: i64 = 1_000_000_000;

fn nanorad(rad: f64) -> i64 {
    (rad * 1.0e9) as i64
}

fn point(x_m: i64, y_m: i64) -> Point {
    Point { x: x_m * METER, y: y_m * METER }
}

fn line_graph() -> Graph {
    Graph {
        vertices: vec![point(0, 0), point(1, 0), point(2, 0)],
        edges: vec![vec![1], vec![0, 2], vec![1]],
    }
}

fn diamond_graph() -> Graph {
    let vertices = vec![
        point(0, 0),
        point(1, 0),
        point(2, 0),
        point(3, 0),
        point(1, -1),
        point(2, -1),
        point(3, -1),
        point(2, -2),
        point(3, -2),
    ];
    let mut edges: Vec<Vec<usize>> = vec![Vec::new(); 9];
    let pairs = [(0, 1), (1, 2), (2, 3), (2, 4), (3, 6), (4, 5), (5, 7), (7, 8)];
    for (a, b) in pairs {
        edges[a].push(b);
        edges[b].push(a);
    }
    Graph { vertices, edges }
}

fn diamond_graph_cut() -> Graph {
    let vertices = diamond_graph().vertices;
    let mut edges: Vec<Vec<usize>> = vec![Vec::new(); 9];
    let pairs = [(0, 1), (1, 2), (2, 3), (2, 4), (3, 6), (4, 5)];
    for (a, b) in pairs {
        edges[a].push(b);
        edges[b].push(a);
    }
    Graph { vertices, edges }
}

fn speeds() -> DifferentialDriveLineFollow {
    DifferentialDriveLineFollow::new(METER, nanorad(std::f64::consts::PI)).unwrap()
}

fn make_planner(graph: fn() -> Graph) -> Planner<SimplePolicy> {
    let extrapolation = speeds();
    let heuristic = EuclideanHeuristic {
        graph: graph(),
        extrapolation,
        cost_calculator: TimeCostCalculator,
    };
    Planner::new(Expander::new(graph(), extrapolation, TimeCostCalculator, heuristic))
}

fn times_of(t: &Trajectory) -> Vec<i64> {
    let mut r = Vec::new();
    let mut i: usize = 0;
    while i < t.len() {
        r.push(t.waypoint(i).time);
        i += 1;
    }
    r
}

#[test]
fn straight_line() {
    let planner = make_planner(line_graph);
    let start = Start { vertex: 0, orientation: 0, offset_location: None };
    let goal = Goal { vertex: 2, orientation: None };
    let mut progress = planner.plan(&start, goal).unwrap();
    match progress.solve(None) {
        Status::Solved(solution) => {
            assert_eq!(solution.cost(), 2 * SECOND);
            let motion = solution.motion().as_ref().unwrap();
            assert_eq!(times_of(motion), vec![0, SECOND, 2 * SECOND]);
            assert_eq!(motion.last().position.x, 2 * METER);
            assert_eq!(motion.last().position.y, 0);
        },
        _ => panic!("expected a solution"),
    }
}

#[test]
fn spin_at_start() {
    let planner = make_planner(line_graph);
    let start = Start {
        vertex: 0,
        orientation: nanorad(std::f64::consts::PI),
        offset_location: None,
    };
    let goal = Goal { vertex: 2, orientation: None };
    let mut progress = planner.plan(&start, goal).unwrap();
    match progress.solve(None) {
        Status::Solved(solution) => {
            assert_eq!(solution.cost(), 3 * SECOND);
            let motion = solution.motion().as_ref().unwrap();
            // A rotate-in-place waypoint after one second, then the two
            // translations.
            assert_eq!(times_of(motion), vec![0, SECOND, 2 * SECOND, 3 * SECOND]);
            assert_eq!(motion.waypoint(1).position.x, 0);
            assert_eq!(motion.waypoint(1).position.yaw, 0);
            assert_eq!(motion.waypoint(2).position.x, METER);
        },
        _ => panic!("expected a solution"),
    }
}

fn solve_diamond() -> (i64, Vec<i64>, i64) {
    let planner = make_planner(diamond_graph);
    let start = Start { vertex: 0, orientation: 0, offset_location: None };
    let goal = Goal {
        vertex: 8,
        orientation: Some(
            OrientationGoal {
                target: nanorad(90f64.to_radians()),
                threshold: DEFAULT_ROTATIONAL_THRESHOLD,
            },
        ),
    };
    let mut progress = planner.plan(&start, goal).unwrap();
    match progress.solve(None) {
        Status::Solved(solution) => {
            let motion = solution.motion().as_ref().unwrap();
            (solution.cost(), times_of(motion), motion.last().position.yaw)
        },
        _ => panic!("expected a solution"),
    }
}

#[test]
fn diamond_with_orientation_goal() {
    let planner = make_planner(diamond_graph);
    let start = Start { vertex: 0, orientation: 0, offset_location: None };
    let target = nanorad(90f64.to_radians());
    let goal = Goal {
        vertex: 8,
        orientation: Some(
            OrientationGoal { target, threshold: DEFAULT_ROTATIONAL_THRESHOLD },
        ),
    };
    let mut progress = planner.plan(&start, goal).unwrap();
    match progress.solve(None) {
        Status::Solved(solution) => {
            let motion = solution.motion().as_ref().unwrap();
            let last = motion.last();
            assert_eq!(last.position.x, 3 * METER);
            assert_eq!(last.position.y, -2 * METER);
            let err = (last.position.yaw - target).abs();
            assert!(err <= DEFAULT_ROTATIONAL_THRESHOLD);
        },
        _ => panic!("expected a solution"),
    }
}

#[test]
fn unreachable_goal() {
    let planner = make_planner(diamond_graph_cut);
    let start = Start { vertex: 0, orientation: 0, offset_location: None };
    let goal = Goal {
        vertex: 8,
        orientation: Some(
            OrientationGoal {
                target: nanorad(90f64.to_radians()),
                threshold: DEFAULT_ROTATIONAL_THRESHOLD,
            },
        ),
    };
    let mut progress = planner.plan(&start, goal).unwrap();
    match progress.solve(None) {
        Status::Impossible => {},
        _ => panic!("expected the goal to be unreachable"),
    }
}

#[test]
fn budget_exhaustion_then_resume() {
    let planner = make_planner(diamond_graph);
    let start = Start { vertex: 0, orientation: 0, offset_location: None };
    let goal = Goal {
        vertex: 8,
        orientation: Some(
            OrientationGoal {
                target: nanorad(90f64.to_radians()),
                threshold: DEFAULT_ROTATIONAL_THRESHOLD,
            },
        ),
    };
    let mut progress: Progress<SimplePolicy> = planner.plan(&start, goal).unwrap();
    match progress.solve(Some(1)) {
        Status::Incomplete => {},
        _ => panic!("one step cannot already settle this search"),
    }
    let (full_cost, full_times, full_yaw) = solve_diamond();
    match progress.solve(None) {
        Status::Solved(solution) => {
            assert_eq!(solution.cost(), full_cost);
            let motion = solution.motion().as_ref().unwrap();
            assert_eq!(times_of(motion), full_times);
            assert_eq!(motion.last().position.yaw, full_yaw);
        },
        _ => panic!("expected the resumed search to find the solution"),
    }
}

#[test]
fn off_graph_start() {
    let planner = make_planner(line_graph);
    let start = Start {
        vertex: 0,
        orientation: 0,
        offset_location: Some(Point { x: -METER, y: 0 }),
    };
    let goal = Goal { vertex: 2, orientation: None };
    let mut progress = planner.plan(&start, goal).unwrap();
    match progress.solve(None) {
        Status::Solved(solution) => {
            assert_eq!(solution.cost(), 3 * SECOND);
            let motion = solution.motion().as_ref().unwrap();
            assert_eq!(times_of(motion), vec![0, SECOND, 2 * SECOND, 3 * SECOND]);
            assert_eq!(motion.waypoint(0).position.x, -METER);
            assert_eq!(motion.waypoint(1).position.x, 0);
            assert_eq!(motion.last().position.x, 2 * METER);
        },
        _ => panic!("expected a solution"),
    }
}

#[test]
fn popped_estimates_grow_and_bound_the_solution() {
    // On this graph the Euclidean estimate is consistent, so the minimum
    // total cost estimate on the frontier never decreases from step to step,
    // and it never exceeds the cost of the solution finally extracted.
    let planner = make_planner(diamond_graph);
    let start = Start { vertex: 0, orientation: 0, offset_location: None };
    let goal = Goal { vertex: 8, orientation: None };
    let mut progress = planner.plan(&start, goal).unwrap();
    let mut minima: Vec<i64> = Vec::new();
    let cost = loop {
        if !progress.frontier.is_empty() {
            minima.push(progress.frontier.iter().map(|e| e.0).min().unwrap());
        }
        match progress.step() {
            Status::Incomplete => {},
            Status::Solved(solution) => break solution.cost(),
            Status::Impossible => panic!("expected a solution"),
        }
    };
    assert!(!minima.is_empty());
    let mut i: usize = 1;
    while i < minima.len() {
        assert!(minima[i - 1] <= minima[i]);
        i += 1;
    }
    assert!(*minima.last().unwrap() <= cost);
}

#[test]
fn solution_cost_is_the_trajectory_duration() {
    // Search time starts at zero and each segment's cost is its duration, so
    // the solution's cost is the duration of the concatenated trajectory.
    let planner = make_planner(line_graph);
    let start = Start { vertex: 0, orientation: 0, offset_location: None };
    let goal = Goal { vertex: 2, orientation: None };
    let mut progress = planner.plan(&start, goal).unwrap();
    match progress.solve(None) {
        Status::Solved(solution) => {
            let motion = solution.motion().as_ref().unwrap();
            assert_eq!(motion.duration(), solution.cost());
        },
        _ => panic!("expected a solution"),
    }
}

#[test]
fn same_inputs_same_solution() {
    let first = solve_diamond();
    let second = solve_diamond();
    assert_eq!(first.0, second.0);
    assert_eq!(first.1, second.1);
    assert_eq!(first.2, second.2);
}

#[test]
fn test_simple_expander() {
    let graph = diamond_graph();
    let extrapolation = speeds();
    let cost_calculator = TimeCostCalculator;
    let heuristic = EuclideanHeuristic {
        graph: diamond_graph(),
        extrapolation,
        cost_calculator: TimeCostCalculator,
    };
    let expander = Expander::<SimplePolicy>::new(graph, extrapolation, cost_calculator, heuristic);

    let planner = Planner::new(expander);
    let mut progress = planner
        .plan(
            &Start { vertex: 0, orientation: nanorad(0.0), offset_location: None },
            Goal {
                vertex: 8,
                orientation: Some(
                    OrientationGoal {
                        target: nanorad(90f64.to_radians()),
                        threshold: DEFAULT_ROTATIONAL_THRESHOLD,
                    },
                ),
            },
        )
        .unwrap();

    match progress.solve(None) {
        Status::Solved(solution) => {
            let motion = solution.motion().as_ref().unwrap();
            println!("{:#?}", motion);
        },
        Status::Impossible => {
            assert!(false);
        },
        Status::Incomplete => {
            assert!(false);
        },
    }
}
