//! SE(2) timed motion primitives: points, poses, waypoints, trajectories, and
//! the differential-drive line-follow extrapolator.
//!
//! Lengths are i64 nanometers, angles are i64 nanoradians kept in the wrapped
//! range `[-PI_NANOS, PI_NANOS]`, times are i64 nanoseconds.

use vstd::prelude::*;

verus! {

/// One full second, in nanoseconds. Also the scale between a unit quantity
/// per second and the fixed-point units used here.
pub const SECOND_NANOS: u64 = 1_000_000_000;

/// An upper bound for pi radians in nanoradians (`ceil(pi * 1e9)`).
pub const PI_NANOS: i64 = 3_141_592_654;

/// Two pi radians in nanoradians, truncated (`floor(2 * pi * 1e9)`).
pub const TWO_PI_NANOS: i64 = 6_283_185_307;

/// Yaw errors of at most this many nanoradians are treated as already aligned,
/// so no rotation waypoint is produced for them.
pub const DEFAULT_ROTATIONAL_THRESHOLD: i64 = 10;

/// The angle congruent to `a` modulo a full turn, normalized into the range
/// `(PI_NANOS - TWO_PI_NANOS, PI_NANOS]`. Each congruence class has exactly
/// one representative in that range.
pub open spec fn wrap_spec(a: int) -> int {
    let m = a % (TWO_PI_NANOS as int);
    if m > PI_NANOS { m - TWO_PI_NANOS } else { m }
}

/// The lower end of the range of `wrap_spec`.
pub open spec fn wrap_min() -> int {
    PI_NANOS - TWO_PI_NANOS
}

pub proof fn lemma_wrap_spec_range(a: int)
    ensures
        wrap_min() <= wrap_spec(a) <= PI_NANOS,
{
    assert(0 <= a % (TWO_PI_NANOS as int) < TWO_PI_NANOS);
}

/// Normalizes any angle into the wrapped range.
pub fn wrap_angle(a: i64) -> (r: i64)
    ensures
        r == wrap_spec(a as int),
{
    let two_pi_u: u64 = 6_283_185_307;
    if a >= 0 {
        let m: u64 = (a as u64) % two_pi_u;
        let m64: i64 = m as i64;
        if m64 > PI_NANOS {
            m64 - TWO_PI_NANOS
        } else {
            m64
        }
    } else {
        // Take the magnitude through u64 so that i64::MIN is also covered.
        let au: u64 = if a == i64::MIN {
            9_223_372_036_854_775_808u64
        } else {
            (-a) as u64
        };
        let mp: u64 = au % two_pi_u;
        proof {
            lemma_wrap_neg(a as int, au as int, mp as int);
        }
        if mp == 0 {
            0
        } else {
            let m: i64 = TWO_PI_NANOS - (mp as i64);
            if m > PI_NANOS {
                m - TWO_PI_NANOS
            } else {
                m
            }
        }
    }
}

/// The absolute wrapped difference between two angles: how far `a` is from
/// `b` when both are read modulo a full turn.
pub open spec fn yaw_error_spec(a: int, b: int) -> int {
    vstd::math::abs(wrap_spec(wrap_spec(a) - wrap_spec(b))) as int
}

/// Computes the absolute wrapped difference between two angles.
pub fn yaw_error(a: i64, b: i64) -> (r: i64)
    ensures
        r == yaw_error_spec(a as int, b as int),
        0 <= r <= PI_NANOS,
{
    let wa = wrap_angle(a);
    let wb = wrap_angle(b);
    proof {
        lemma_wrap_spec_range(a as int);
        lemma_wrap_spec_range(b as int);
    }
    let d = wrap_angle(wa - wb);
    proof {
        lemma_wrap_spec_range(wa as int - wb as int);
    }
    if d < 0 {
        -d
    } else {
        d
    }
}

/// For a negative angle whose magnitude is `au`, the Euclidean remainder of
/// the angle is a full turn minus the remainder of the magnitude.
proof fn lemma_wrap_neg(a: int, au: int, mp: int)
    requires
        a < 0,
        au == -a,
        mp == au % (TWO_PI_NANOS as int),
    ensures
        mp == 0 ==> a % (TWO_PI_NANOS as int) == 0,
        mp != 0 ==> a % (TWO_PI_NANOS as int) == TWO_PI_NANOS - mp,
{
    let t = TWO_PI_NANOS as int;
    vstd::arithmetic::div_mod::lemma_fundamental_div_mod(au, t);
    let q = au / t;
    assert(au == q * t + mp);
    assert(a == (-q) * t + (-mp)) by (nonlinear_arith)
        requires au == q * t + mp && a == -au,
    ;
    if mp == 0 {
        vstd::arithmetic::div_mod::lemma_mod_multiples_vanish(-q, 0, t);
        assert(a % t == (0 + (-q) * t) % t);
        assert(0int % t == 0);
    } else {
        assert(a == (-q - 1) * t + (t - mp)) by (nonlinear_arith)
            requires a == (-q) * t + (-mp) && t > 0,
        ;
        vstd::arithmetic::div_mod::lemma_mod_multiples_vanish(-q - 1, t - mp, t);
        assert(a % t == (t - mp + (-q - 1) * t) % t);
        vstd::arithmetic::div_mod::lemma_small_mod((t - mp) as nat, t as nat);
    }
}

/// The floor of the square root of `n`, defined by counting up.
pub open spec fn sqrt_floor(n: int) -> int
    decreases n,
{
    if n <= 0 {
        0
    } else {
        let p = sqrt_floor(n - 1);
        if (p + 1) * (p + 1) <= n {
            p + 1
        } else {
            p
        }
    }
}

pub proof fn lemma_sqrt_floor_bounds(n: int)
    requires
        n >= 0,
    ensures
        0 <= sqrt_floor(n),
        sqrt_floor(n) * sqrt_floor(n) <= n,
        (sqrt_floor(n) + 1) * (sqrt_floor(n) + 1) > n,
    decreases n,
{
    if n > 0 {
        lemma_sqrt_floor_bounds(n - 1);
        let p = sqrt_floor(n - 1);
        if (p + 1) * (p + 1) <= n {
            assert(sqrt_floor(n) == p + 1);
            assert((p + 2) * (p + 2) > n) by (nonlinear_arith)
                requires p >= 0 && (p + 1) * (p + 1) > n - 1,
            ;
        } else {
            assert(sqrt_floor(n) == p);
        }
    } else {
        assert(sqrt_floor(0) == 0);
    }
}

/// A value `r` is the floor of the square root of `n` exactly when it is
/// nonnegative, its square does not exceed `n`, and the next square does.
pub proof fn lemma_sqrt_floor_unique(n: int, r: int)
    requires
        n >= 0,
        r >= 0,
        r * r <= n,
        (r + 1) * (r + 1) > n,
    ensures
        r == sqrt_floor(n),
{
    lemma_sqrt_floor_bounds(n);
    let s = sqrt_floor(n);
    if r < s {
        assert((r + 1) * (r + 1) <= s * s) by (nonlinear_arith)
            requires 0 <= r && r + 1 <= s,
        ;
    }
    if s < r {
        assert((s + 1) * (s + 1) <= r * r) by (nonlinear_arith)
            requires 0 <= s && s + 1 <= r,
        ;
    }
}

/// Computes the floor of the square root by binary search.
pub fn isqrt(n: u128) -> (r: u64)
    ensures
        r == sqrt_floor(n as int),
{
    let mut lo: u128 = 0;
    let mut hi: u128 = 18_446_744_073_709_551_616u128;
    proof {
        assert((hi as int) * (hi as int) > n as int) by (nonlinear_arith)
            requires hi == 18_446_744_073_709_551_616u128 && n <= u128::MAX,
        ;
    }
    while lo + 1 < hi
        invariant
            lo < hi <= 18_446_744_073_709_551_616u128,
            (lo as int) * (lo as int) <= n as int,
            (hi as int) * (hi as int) > n as int,
        decreases hi - lo,
    {
        let mid: u128 = lo + (hi - lo) / 2;
        proof {
            assert((mid as int) * (mid as int) <= 340282366920938463426481119284349108225int)
                by (nonlinear_arith)
                requires mid <= 18_446_744_073_709_551_615u128,
            ;
        }
        if mid * mid <= n {
            lo = mid;
        } else {
            hi = mid;
        }
    }
    proof {
        lemma_sqrt_floor_unique(n as int, lo as int);
    }
    lo as u64
}

/// The bearing from the origin to the point `(dx, dy)`, in nanoradians.
/// Only the trusted item below says anything about this name.
pub uninterp spec fn bearing_nanos(dx: int, dy: int) -> int;

/// Relies on libm::atan2, the four-quadrant arctangent: a pure function of its
/// two arguments alone, bit-identical on every machine, with a result in
/// [-pi, pi]; atan2(0, x) is exactly 0 for x > 0. The result is scaled to
/// nanoradians and truncated, so its magnitude stays within PI_NANOS.
#[verifier::external_body]
fn bearing_to(dx: i64, dy: i64) -> (r: i64)
    ensures
        r == bearing_nanos(dx as int, dy as int),
        -PI_NANOS <= r <= PI_NANOS,
        dy == 0 && dx > 0 ==> r == 0,
{
    libm::fma(libm::atan2(dy as _, dx as _), 1_000_000_000u64 as _, 0u64 as _) as i64
}

/// The bearing from the origin toward `(dx, dy)`, in nanoradians: the named
/// result of the trusted arctangent, exported with everything the trusted
/// item states of it — the result stays within the wrapped angle range, and
/// it is exactly zero toward the positive x axis.
pub fn bearing(dx: i64, dy: i64) -> (r: i64)
    ensures
        r == bearing_nanos(dx as int, dy as int),
        -PI_NANOS <= r <= PI_NANOS,
        dy == 0 && dx > 0 ==> r == 0,
{
    bearing_to(dx, dy)
}

/// A 2-D location in nanometers.
#[derive(Clone, Copy, PartialEq, Eq, Structural, Debug)]
pub struct Point {
    pub x: i64,
    pub y: i64,
}

/// An SE(2) pose: a translation in nanometers and a yaw in nanoradians.
#[derive(Clone, Copy, PartialEq, Eq, Structural, Debug)]
pub struct Position {
    pub x: i64,
    pub y: i64,
    pub yaw: i64,
}

/// A pose stamped with an absolute time in nanoseconds.
#[derive(Clone, Copy, PartialEq, Eq, Structural, Debug)]
pub struct Waypoint {
    pub time: i64,
    pub position: Position,
}

/// A well-formed trajectory: at least two waypoints, a nonnegative start
/// time, and strictly increasing times between neighbors.
pub open spec fn trajectory_seq_wf(s: Seq<Waypoint>) -> bool {
    &&& s.len() >= 2
    &&& s[0].time >= 0
    &&& forall|i: int| 0 <= i < s.len() - 1 ==> #[trigger] s[i].time < s[i + 1].time
}

/// Waypoint times of a well-formed trajectory grow across any distance.
pub proof fn lemma_trajectory_times_increase(s: Seq<Waypoint>, i: int, j: int)
    requires
        s.len() >= 2,
        forall|k: int| 0 <= k < s.len() - 1 ==> #[trigger] s[k].time < s[k + 1].time,
        0 <= i < j < s.len(),
    ensures
        s[i].time < s[j].time,
    decreases j - i,
{
    if i + 1 < j {
        lemma_trajectory_times_increase(s, i + 1, j);
    }
}

/// Why a sequence of waypoints cannot form a trajectory.
#[derive(Clone, Copy, PartialEq, Eq, Structural, Debug)]
pub enum TrajectoryError {
    /// Fewer than two waypoints were given.
    TooFewWaypoints,
    /// Some waypoint does not come strictly later than the one before it.
    TimesNotIncreasing,
    /// The first waypoint lies before the zero of the monotonic clock.
    NegativeTime,
}

/// A finite motion through SE(2): a strictly time-increasing sequence of at
/// least two waypoints.
#[derive(Clone, Debug)]
pub struct Trajectory {
    waypoints: Vec<Waypoint>,
}

impl View for Trajectory {
    type V = Seq<Waypoint>;

    closed spec fn view(&self) -> Seq<Waypoint> {
        self.waypoints@
    }
}

impl Trajectory {
    pub open spec fn wf(self) -> bool {
        trajectory_seq_wf(self@)
    }

    pub open spec fn first_spec(self) -> Waypoint {
        self@[0]
    }

    pub open spec fn last_spec(self) -> Waypoint {
        self@[self@.len() - 1]
    }

    /// The time span covered by the trajectory.
    pub open spec fn duration_spec(self) -> int {
        self.last_spec().time - self.first_spec().time
    }

    /// Builds a trajectory, rejecting sequences that are too short, that go
    /// backwards or stand still in time, or that start before time zero.
    pub fn new(waypoints: Vec<Waypoint>) -> (r: Result<Trajectory, TrajectoryError>)
        ensures
            match r {
                Ok(t) => t@ == waypoints@ && t.wf(),
                Err(e) => !trajectory_seq_wf(waypoints@),
            },
    {
        if waypoints.len() < 2 {
            return Err(TrajectoryError::TooFewWaypoints);
        }
        if waypoints[0].time < 0 {
            return Err(TrajectoryError::NegativeTime);
        }
        let n = waypoints.len();
        for i in 0..n - 1
            invariant
                n == waypoints.len() >= 2,
                forall|k: int| 0 <= k < i ==> #[trigger] waypoints@[k].time < waypoints@[k
                    + 1].time,
        {
            if waypoints[i].time >= waypoints[i + 1].time {
                return Err(TrajectoryError::TimesNotIncreasing);
            }
        }
        Ok(Trajectory { waypoints })
    }

    pub fn first(&self) -> (w: Waypoint)
        requires
            self.wf(),
        ensures
            w == self.first_spec(),
    {
        self.waypoints[0]
    }

    pub fn last(&self) -> (w: Waypoint)
        requires
            self.wf(),
        ensures
            w == self.last_spec(),
    {
        self.waypoints[self.waypoints.len() - 1]
    }

    pub fn len(&self) -> (n: usize)
        ensures
            n == self@.len(),
    {
        self.waypoints.len()
    }

    pub fn waypoint(&self, i: usize) -> (w: Waypoint)
        requires
            i < self@.len(),
        ensures
            w == self@[i as int],
    {
        self.waypoints[i]
    }

    /// The duration: how long the motion takes from first to last waypoint.
    pub fn duration(&self) -> (d: i64)
        requires
            self.wf(),
        ensures
            d == self.duration_spec(),
            d > 0,
    {
        proof {
            lemma_trajectory_times_increase(self@, 0, self@.len() - 1);
        }
        let last = self.waypoints[self.waypoints.len() - 1].time;
        let first = self.waypoints[0].time;
        last - first
    }
}

/// Reduces a trajectory to a scalar cost: the integrated travel time.
pub struct TimeCostCalculator;

impl TimeCostCalculator {
    /// The cost of a trajectory is its duration in nanoseconds.
    pub fn compute_cost(&self, trajectory: &Trajectory) -> (c: i64)
        requires
            trajectory.wf(),
        ensures
            c == trajectory.duration_spec(),
            c > 0,
    {
        trajectory.duration()
    }
}

/// Invalid kinematic parameters for an extrapolator.
#[derive(Clone, Copy, PartialEq, Eq, Structural, Debug)]
pub enum ConstructionError {
    NonPositiveTranslationalSpeed,
    NonPositiveRotationalSpeed,
}

/// The inputs to an extrapolation were degenerate: the displacement or the
/// produced times do not fit the fixed-point ranges.
#[derive(Clone, Copy, PartialEq, Eq, Structural, Debug)]
pub enum ExtrapolationError {
    Degenerate,
}

/// Displacements at or beyond this many nanometers per axis are rejected as
/// degenerate (`2^62` nanometers).
pub const COORD_LIMIT: i64 = 4_611_686_018_427_387_904;

/// The time, in nanoseconds, to rotate by `delta` nanoradians at `rot_speed`
/// nanoradians per second.
pub open spec fn rotation_time_spec(rot_speed: int, delta: int) -> int {
    (vstd::math::abs(delta) as int) * (SECOND_NANOS as int) / rot_speed
}

/// The time, in nanoseconds, to drive `dist` nanometers at `speed` nanometers
/// per second, rounded down. This is the estimating direction: together with
/// the rounded-down distance it never exceeds the true drive time.
pub open spec fn translation_time_spec(speed: int, dist: int) -> int {
    dist * (SECOND_NANOS as int) / speed
}

/// The time, in nanoseconds, to drive `dist` nanometers at `speed` nanometers
/// per second, rounded up. This is the executing direction: together with the
/// rounded-up distance it never undercuts the true drive time, so the
/// rounded-down estimate stays a lower bound on any sequence of drives.
pub open spec fn drive_time_spec(speed: int, dist: int) -> int {
    (dist * (SECOND_NANOS as int) + speed - 1) / speed
}

/// The squared straight-line displacement between two locations.
pub open spec fn dist_sq_spec(fx: int, fy: int, tx: int, ty: int) -> int {
    (tx - fx) * (tx - fx) + (ty - fy) * (ty - fy)
}

/// The square root of `n`, rounded up.
pub open spec fn sqrt_ceil(n: int) -> int {
    let r = sqrt_floor(n);
    if r * r == n {
        r
    } else {
        r + 1
    }
}

/// The straight-line distance between two locations, rounded down.
pub open spec fn distance_spec(fx: int, fy: int, tx: int, ty: int) -> int {
    sqrt_floor(dist_sq_spec(fx, fy, tx, ty))
}

/// The straight-line distance between two locations, rounded up.
pub open spec fn distance_ceil_spec(fx: int, fy: int, tx: int, ty: int) -> int {
    sqrt_ceil(dist_sq_spec(fx, fy, tx, ty))
}

/// The rounding directions agree with estimating from below: a drive-time
/// estimate over a straight line that rounds its distance and its division
/// down never exceeds the executed drive time over the same line, which
/// rounds both up.
pub proof fn lemma_estimate_below_drive_time(speed: int, fx: int, fy: int, tx: int, ty: int)
    requires
        speed >= 1,
    ensures
        translation_time_spec(speed, distance_spec(fx, fy, tx, ty)) <= drive_time_spec(
            speed,
            distance_ceil_spec(fx, fy, tx, ty),
        ),
{
    let sq = dist_sq_spec(fx, fy, tx, ty);
    assert((tx - fx) * (tx - fx) >= 0 && (ty - fy) * (ty - fy) >= 0) by (nonlinear_arith);
    assert(sq >= 0);
    lemma_sqrt_floor_bounds(sq);
    let df = sqrt_floor(sq);
    let dc = sqrt_ceil(sq);
    assert(df <= dc);
    assert(df * (SECOND_NANOS as int) <= dc * (SECOND_NANOS as int)) by (nonlinear_arith)
        requires 0 <= df <= dc,
    ;
    vstd::arithmetic::div_mod::lemma_div_is_ordered(
        df * (SECOND_NANOS as int),
        dc * (SECOND_NANOS as int) + speed - 1,
        speed,
    );
}

/// The straight-line legs of an out-and-back trip cover the same distance in
/// each direction, so at one speed their drive times agree; only the
/// rotations at the two ends can make the legs differ.
pub proof fn lemma_round_trip_drive_time(speed: int, ax: int, ay: int, bx: int, by: int)
    ensures
        distance_ceil_spec(ax, ay, bx, by) == distance_ceil_spec(bx, by, ax, ay),
        drive_time_spec(speed, distance_ceil_spec(ax, ay, bx, by)) == drive_time_spec(
            speed,
            distance_ceil_spec(bx, by, ax, ay),
        ),
{
    assert(dist_sq_spec(ax, ay, bx, by) == dist_sq_spec(bx, by, ax, ay)) by (nonlinear_arith);
}

/// Produces waypoints that move a robot from one SE(2) state toward a target
/// by rotating in place to the bearing of the target and then driving a
/// straight line: the differential-drive line-follow motion primitive.
#[derive(Clone, Copy, PartialEq, Eq, Structural, Debug)]
pub struct DifferentialDriveLineFollow {
    translational_speed: i64,
    rotational_speed: i64,
}

impl DifferentialDriveLineFollow {
    pub closed spec fn trans_speed_spec(self) -> int {
        self.translational_speed as int
    }

    pub closed spec fn rot_speed_spec(self) -> int {
        self.rotational_speed as int
    }

    pub open spec fn wf(self) -> bool {
        self.trans_speed_spec() >= 1 && self.rot_speed_spec() >= 1
    }

    /// Builds an extrapolator; both speeds must be positive.
    pub fn new(translational_speed: i64, rotational_speed: i64) -> (r: Result<
        Self,
        ConstructionError,
    >)
        ensures
            match r {
                Ok(e) => translational_speed > 0 && rotational_speed > 0 && e.wf()
                    && e.trans_speed_spec() == translational_speed && e.rot_speed_spec()
                    == rotational_speed,
                Err(e) => (translational_speed <= 0 || rotational_speed <= 0) && e == (
                if translational_speed <= 0 {
                    ConstructionError::NonPositiveTranslationalSpeed
                } else {
                    ConstructionError::NonPositiveRotationalSpeed
                }),
            },
    {
        if translational_speed <= 0 {
            return Err(ConstructionError::NonPositiveTranslationalSpeed);
        }
        if rotational_speed <= 0 {
            return Err(ConstructionError::NonPositiveRotationalSpeed);
        }
        Ok(DifferentialDriveLineFollow { translational_speed, rotational_speed })
    }

    pub fn translational_speed(&self) -> (s: i64)
        ensures
            s == self.trans_speed_spec(),
    {
        self.translational_speed
    }

    pub fn rotational_speed(&self) -> (s: i64)
        ensures
            s == self.rot_speed_spec(),
    {
        self.rotational_speed
    }

    /// The wrapped yaw change needed to face from `yaw` toward bearing `b`.
    pub open spec fn yaw_delta_spec(yaw: int, b: int) -> int {
        wrap_spec(b - wrap_spec(yaw))
    }

    /// Whether extrapolating from `from` toward `to` emits a spin-in-place
    /// waypoint: the yaw error exceeds the rotational threshold and the spin
    /// takes a measurable time.
    pub open spec fn spin_spec(self, from: Waypoint, to: Point) -> bool {
        let b = bearing_nanos(to.x - from.position.x, to.y - from.position.y);
        let delta = Self::yaw_delta_spec(from.position.yaw as int, b);
        vstd::math::abs(delta) > DEFAULT_ROTATIONAL_THRESHOLD && rotation_time_spec(
            self.rot_speed_spec(),
            delta,
        ) > 0
    }

    /// The time at which the straight-line drive begins: after the spin, if
    /// one is emitted.
    pub open spec fn drive_start_time_spec(self, from: Waypoint, to: Point) -> int {
        let b = bearing_nanos(to.x - from.position.x, to.y - from.position.y);
        let delta = Self::yaw_delta_spec(from.position.yaw as int, b);
        if self.spin_spec(from, to) {
            from.time + rotation_time_spec(self.rot_speed_spec(), delta)
        } else {
            from.time as int
        }
    }

    /// The time at which the target is reached: the drive covers the
    /// rounded-up distance and its time rounds up, so a drive over a nonzero
    /// displacement always costs at least one nanosecond and never less than
    /// the rounded-down estimate of any straight line it helps cover.
    pub open spec fn arrival_time_spec(self, from: Waypoint, to: Point) -> int {
        self.drive_start_time_spec(from, to) + drive_time_spec(
            self.trans_speed_spec(),
            distance_ceil_spec(
                from.position.x as int,
                from.position.y as int,
                to.x as int,
                to.y as int,
            ),
        )
    }

    /// The exact waypoints extrapolation emits: nothing for a zero
    /// displacement; otherwise an optional spin-in-place waypoint followed by
    /// the arrival waypoint, both facing the bearing of the target.
    pub open spec fn extrapolate_spec(self, from: Waypoint, to: Point) -> Seq<Waypoint> {
        let dx = to.x - from.position.x;
        let dy = to.y - from.position.y;
        if dx == 0 && dy == 0 {
            Seq::<Waypoint>::empty()
        } else {
            let b = bearing_nanos(dx, dy);
            let arrive = Waypoint {
                time: self.arrival_time_spec(from, to) as i64,
                position: Position { x: to.x, y: to.y, yaw: b as i64 },
            };
            if self.spin_spec(from, to) {
                seq![
                    Waypoint {
                        time: self.drive_start_time_spec(from, to) as i64,
                        position: Position {
                            x: from.position.x,
                            y: from.position.y,
                            yaw: b as i64,
                        },
                    },
                    arrive,
                ]
            } else {
                seq![arrive]
            }
        }
    }

    /// When extrapolation succeeds: always for a zero displacement; otherwise
    /// the displacement must stay within the coordinate limit and the arrival
    /// time must fit.
    pub open spec fn extrapolate_ok_spec(self, from: Waypoint, to: Point) -> bool {
        let dx = to.x - from.position.x;
        let dy = to.y - from.position.y;
        if dx == 0 && dy == 0 {
            true
        } else {
            &&& -COORD_LIMIT < dx < COORD_LIMIT
            &&& -COORD_LIMIT < dy < COORD_LIMIT
            &&& self.arrival_time_spec(from, to) <= i64::MAX
        }
    }

    /// Rotates toward the bearing of `to` if needed, then drives straight to
    /// it. Emits one or two waypoints; none when `to` is the current location.
    pub fn extrapolate(&self, from: &Waypoint, to: &Point) -> (r: Result<
        Vec<Waypoint>,
        ExtrapolationError,
    >)
        requires
            self.wf(),
        ensures
            match r {
                Ok(wps) => {
                    &&& self.extrapolate_ok_spec(*from, *to)
                    &&& wps@ == self.extrapolate_spec(*from, *to)
                    &&& wps@.len() > 0 ==> wps@[0].time > from.time
                    &&& forall|i: int|
                        0 <= i < wps@.len() - 1 ==> #[trigger] wps@[i].time < wps@[i + 1].time
                },
                Err(e) => !self.extrapolate_ok_spec(*from, *to),
            },
    {
        let dx128: i128 = (to.x as i128) - (from.position.x as i128);
        let dy128: i128 = (to.y as i128) - (from.position.y as i128);
        if dx128 == 0 && dy128 == 0 {
            return Ok(Vec::new());
        }
        if dx128 <= -(COORD_LIMIT as i128) || dx128 >= COORD_LIMIT as i128 || dy128 <= -(
        COORD_LIMIT as i128) || dy128 >= COORD_LIMIT as i128 {
            return Err(ExtrapolationError::Degenerate);
        }
        let dx: i64 = dx128 as i64;
        let dy: i64 = dy128 as i64;
        let b = bearing_to(dx, dy);
        let wy = wrap_angle(from.position.yaw);
        proof {
            lemma_wrap_spec_range(from.position.yaw as int);
        }
        let delta = wrap_angle(b - wy);
        proof {
            lemma_wrap_spec_range(b as int - wy as int);
        }
        let adelta: i64 = if delta < 0 {
            -delta
        } else {
            delta
        };
        let spin_prod: u64 = (adelta as u64) * SECOND_NANOS;
        let st: u64 = spin_prod / (self.rotational_speed as u64);
        proof {
            assert(st <= spin_prod) by (nonlinear_arith)
                requires
                    st == spin_prod / (self.rotational_speed as u64),
                    self.rotational_speed >= 1,
            ;
        }
        let spin: bool = adelta > DEFAULT_ROTATIONAL_THRESHOLD && st > 0;
        let t1_128: i128 = (from.time as i128) + if spin {
            st as i128
        } else {
            0
        };
        proof {
            assert(0 <= dx128 * dx128 <= 21267647932558653966460912964485513216int && 0 <= dy128
                * dy128 <= 21267647932558653966460912964485513216int) by (nonlinear_arith)
                requires
                    -COORD_LIMIT < dx128 < COORD_LIMIT,
                    -COORD_LIMIT < dy128 < COORD_LIMIT,
                    COORD_LIMIT == 4_611_686_018_427_387_904i64,
            ;
        }
        let sq: u128 = ((dx128 * dx128) + (dy128 * dy128)) as u128;
        proof {
            assert(dx128 * dx128 + dy128 * dy128 == dist_sq_spec(
                from.position.x as int,
                from.position.y as int,
                to.x as int,
                to.y as int,
            ));
            assert(0 < dx128 * dx128 + dy128 * dy128
                <= 42535295865117307932921825928971026432int) by (nonlinear_arith)
                requires
                    -COORD_LIMIT < dx128 < COORD_LIMIT,
                    -COORD_LIMIT < dy128 < COORD_LIMIT,
                    !(dx128 == 0 && dy128 == 0),
                    COORD_LIMIT == 4_611_686_018_427_387_904i64,
            ;
        }
        let d_floor: u64 = isqrt(sq);
        proof {
            lemma_sqrt_floor_bounds(sq as int);
            assert((d_floor as int) < 9223372036854775807int) by (nonlinear_arith)
                requires
                    (d_floor as int) * (d_floor as int) <= sq as int,
                    sq <= 42535295865117307932921825928971026432u128,
                    d_floor >= 0,
            ;
            assert(d_floor >= 1) by (nonlinear_arith)
                requires
                    ((d_floor as int) + 1) * ((d_floor as int) + 1) > sq as int,
                    sq >= 1,
                    d_floor >= 0,
            ;
        }
        let d: u64 = if (d_floor as u128) * (d_floor as u128) == sq {
            d_floor
        } else {
            d_floor + 1
        };
        let speed_u: u128 = self.translational_speed as u128;
        proof {
            assert((d as int) * (SECOND_NANOS as int) <= 9223372036854775808000000000int)
                by (nonlinear_arith)
                requires
                    0 <= d as int <= 9223372036854775808int,
                    SECOND_NANOS == 1_000_000_000u64,
            ;
        }
        let num: u128 = (d as u128) * (SECOND_NANOS as u128) + (speed_u - 1);
        let mt: u128 = num / speed_u;
        proof {
            assert(num as int >= speed_u as int) by (nonlinear_arith)
                requires
                    num as int == (d as int) * (SECOND_NANOS as int) + speed_u as int - 1,
                    d >= 1,
                    SECOND_NANOS == 1_000_000_000u64,
                    speed_u >= 1,
            ;
            assert(mt >= 1 && mt as int <= num as int) by (nonlinear_arith)
                requires
                    mt as int == num as int / (speed_u as int),
                    num as int >= (speed_u as int),
                    speed_u as int >= 1,
            ;
        }
        let t2_128: i128 = t1_128 + (mt as i128);
        if t2_128 > i64::MAX as i128 {
            return Err(ExtrapolationError::Degenerate);
        }
        let t1: i64 = t1_128 as i64;
        let t2: i64 = t2_128 as i64;
        let mut wps: Vec<Waypoint> = Vec::new();
        if spin {
            wps.push(
                Waypoint {
                    time: t1,
                    position: Position { x: from.position.x, y: from.position.y, yaw: b },
                },
            );
        }
        wps.push(Waypoint { time: t2, position: Position { x: to.x, y: to.y, yaw: b } });
        proof {
            assert(wps@ =~= self.extrapolate_spec(*from, *to));
        }
        Ok(wps)
    }

    /// The exact waypoints a rotation in place emits: none when the yaw error
    /// is within the threshold or the spin takes no measurable time, else one
    /// waypoint at the same location facing the wrapped target yaw.
    pub open spec fn rotate_spec(self, from: Waypoint, target_yaw: int) -> Seq<Waypoint> {
        let wt = wrap_spec(target_yaw);
        let delta = Self::yaw_delta_spec(from.position.yaw as int, wt);
        let st = rotation_time_spec(self.rot_speed_spec(), delta);
        if vstd::math::abs(delta) <= DEFAULT_ROTATIONAL_THRESHOLD || st == 0 {
            Seq::<Waypoint>::empty()
        } else {
            seq![
                Waypoint {
                    time: (from.time + st) as i64,
                    position: Position { x: from.position.x, y: from.position.y, yaw: wt as i64 },
                },
            ]
        }
    }

    /// When a rotation in place succeeds: whenever the time of its single
    /// waypoint fits, and always when it emits nothing.
    pub open spec fn rotate_ok_spec(self, from: Waypoint, target_yaw: int) -> bool {
        let wt = wrap_spec(target_yaw);
        let delta = Self::yaw_delta_spec(from.position.yaw as int, wt);
        let st = rotation_time_spec(self.rot_speed_spec(), delta);
        vstd::math::abs(delta) <= DEFAULT_ROTATIONAL_THRESHOLD || st == 0 || from.time + st
            <= i64::MAX
    }

    /// Rotates in place toward a target yaw: the degenerate use of the motion
    /// primitive, with the straight-line step omitted.
    pub fn rotate_towards(&self, from: &Waypoint, target_yaw: i64) -> (r: Result<
        Vec<Waypoint>,
        ExtrapolationError,
    >)
        requires
            self.wf(),
        ensures
            match r {
                Ok(wps) => {
                    &&& self.rotate_ok_spec(*from, target_yaw as int)
                    &&& wps@ == self.rotate_spec(*from, target_yaw as int)
                    &&& wps@.len() > 0 ==> wps@[0].time > from.time
                },
                Err(e) => !self.rotate_ok_spec(*from, target_yaw as int),
            },
    {
        let wt = wrap_angle(target_yaw);
        let wy = wrap_angle(from.position.yaw);
        proof {
            lemma_wrap_spec_range(target_yaw as int);
            lemma_wrap_spec_range(from.position.yaw as int);
        }
        let delta = wrap_angle(wt - wy);
        proof {
            lemma_wrap_spec_range(wt as int - wy as int);
        }
        let adelta: i64 = if delta < 0 {
            -delta
        } else {
            delta
        };
        let spin_prod: u64 = (adelta as u64) * SECOND_NANOS;
        let st: u64 = spin_prod / (self.rotational_speed as u64);
        proof {
            assert(st <= spin_prod) by (nonlinear_arith)
                requires
                    st == spin_prod / (self.rotational_speed as u64),
                    self.rotational_speed >= 1,
            ;
        }
        if adelta <= DEFAULT_ROTATIONAL_THRESHOLD || st == 0 {
            return Ok(Vec::new());
        }
        let t1_128: i128 = (from.time as i128) + (st as i128);
        if t1_128 > i64::MAX as i128 {
            return Err(ExtrapolationError::Degenerate);
        }
        let mut wps: Vec<Waypoint> = Vec::new();
        wps.push(
            Waypoint {
                time: t1_128 as i64,
                position: Position { x: from.position.x, y: from.position.y, yaw: wt },
            },
        );
        proof {
            assert(wps@ =~= self.rotate_spec(*from, target_yaw as int));
        }
        Ok(wps)
    }
}

} // verus!
