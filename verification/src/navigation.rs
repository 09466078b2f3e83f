//! A submarine's vertical motion from its buoyancy, and the pull of its
//! docking connectors: all in `i32` arithmetic, with division rounding
//! towards zero.

use crate::objects::clamp;
use crate::state::{DockingPoint, Navigation, SubmarineState};
use crate::water::{abs, tdiv};
use vstd::prelude::*;

verus! {

/// The fastest a submarine moves, in 1/256ths of a sixteenth of a cell per
/// tick.
pub const MAX_SPEED: i32 = 2048;

pub open spec fn fits_i32(v: int) -> bool {
    i32::MIN <= v <= i32::MAX
}

/// Buoyancy: each wall weighs 16, each inside cell lifts 13, and each full
/// cell of water (1024) weighs 16.
pub open spec fn buoyancy(walls: int, inside: int, water: int) -> int {
    -(walls * 16) + inside * 13 - (water * 16) / 1024
}

/// Heavier hulls are harder to move: the mass is the weight squared over
/// 1500², and at least 1.
pub open spec fn mass(walls: int) -> int {
    let m = walls * walls / 1500 / 1500;
    if m >= 1 {
        m
    } else {
        1
    }
}

/// The vertical acceleration that buoyancy gives the hull.
pub open spec fn vertical_acceleration(walls: int, inside: int, water: int) -> int {
    let y = tdiv(tdiv(buoyancy(walls, inside, water) * walls, 1024), 100);
    tdiv(tdiv(-y, 8), mass(walls))
}

/// What the docking points' speed offsets add up to, over the first `n`.
pub open spec fn offset_sum(points: Seq<DockingPoint>, n: int) -> (int, int)
    decreases n,
{
    if n <= 0 {
        (0, 0)
    } else {
        let before = offset_sum(points, n - 1);
        (before.0 + points[n - 1].speed_offset.0, before.1 + points[n - 1].speed_offset.1)
    }
}

/// Every step of the motion fits in an `i32`.
pub open spec fn navigation_computable(
    navigation: Navigation,
    points: Seq<DockingPoint>,
    walls: int,
    inside: int,
    water: int,
) -> bool {
    &&& fits_i32(walls * walls)
    &&& fits_i32(walls * 16)
    &&& fits_i32(inside * 13)
    &&& fits_i32(-(walls * 16) + inside * 13)
    &&& fits_i32(water * 16)
    &&& fits_i32(buoyancy(walls, inside, water))
    &&& fits_i32(buoyancy(walls, inside, water) * walls)
    &&& fits_i32(navigation.speed.0 + navigation.acceleration.0)
    &&& fits_i32(navigation.speed.1 + vertical_acceleration(walls, inside, water))
    &&& forall|n: int|
        0 <= n <= points.len() ==> fits_i32(#[trigger] offset_sum(points, n).0) && fits_i32(
            offset_sum(points, n).1,
        )
}

/// The navigation after one tick of motion: the vertical acceleration
/// from buoyancy, the speed changed by the acceleration and kept within
/// `MAX_SPEED`, and the docking override set to the points' speed offsets.
pub open spec fn navigated(
    navigation: Navigation,
    points: Seq<DockingPoint>,
    walls: int,
    inside: int,
    water: int,
) -> Navigation {
    let acceleration_y = vertical_acceleration(walls, inside, water);
    Navigation {
        acceleration: (navigation.acceleration.0, acceleration_y as i32),
        speed: (
            clamp(navigation.speed.0 + navigation.acceleration.0, -2048, 2048) as i32,
            clamp(navigation.speed.1 + acceleration_y, -2048, 2048) as i32,
        ),
        docking_override: (
            offset_sum(points, points.len() as int).0 as i32,
            offset_sum(points, points.len() as int).1 as i32,
        ),
        ..navigation
    }
}

fn clamp_speed(v: i32) -> (r: i32)
    ensures
        r == clamp(v as int, -2048, 2048),
{
    if v < -MAX_SPEED {
        -MAX_SPEED
    } else if v > MAX_SPEED {
        MAX_SPEED
    } else {
        v
    }
}

/// Division rounding towards zero never grows a value, and halves it at
/// least when the divisor is 2 or more.
proof fn lemma_tdiv_shrinks(a: int, b: int)
    requires
        b >= 1,
    ensures
        abs(tdiv(a, b)) <= abs(a),
        b >= 2 ==> 2 * abs(tdiv(a, b)) <= abs(a),
{
    let n = abs(a);
    assert(0 <= n / b <= n) by (nonlinear_arith)
        requires
            n >= 0,
            b >= 1,
    ;
    assert(b >= 2 ==> 2 * (n / b) <= n) by (nonlinear_arith)
        requires
            n >= 0,
            b >= 1,
    ;
}

/// Division rounding towards zero keeps order.
proof fn lemma_tdiv_monotone(a: int, b: int, d: int)
    requires
        a <= b,
        d >= 1,
    ensures
        tdiv(a, d) <= tdiv(b, d),
{
    if a >= 0 {
        assert(a / d <= b / d) by (nonlinear_arith)
            requires
                0 <= a <= b,
                d >= 1,
        ;
    } else if b >= 0 {
        assert((-a) / d >= 0) by (nonlinear_arith)
            requires
                -a > 0,
                d >= 1,
        ;
        assert(b / d >= 0) by (nonlinear_arith)
            requires
                b >= 0,
                d >= 1,
        ;
    } else {
        assert((-b) / d <= (-a) / d) by (nonlinear_arith)
            requires
                0 < -b <= -a,
                d >= 1,
        ;
    }
}

/// Division rounding towards zero lands within one divisor of the value.
proof fn lemma_tdiv_close(a: int, d: int)
    requires
        d >= 1,
    ensures
        a - d < d * tdiv(a, d) < a + d,
{
    if a >= 0 {
        assert(a - d < d * (a / d) <= a) by (nonlinear_arith)
            requires
                a >= 0,
                d >= 1,
        ;
    } else {
        let n = -a;
        assert(n - d < d * (n / d) <= n) by (nonlinear_arith)
            requires
                n > 0,
                d >= 1,
        ;
        assert(d * tdiv(a, d) == -(d * (n / d))) by (nonlinear_arith)
            requires
                tdiv(a, d) == -(n / d),
        ;
    }
}

/// The more water a hull holds, the heavier it is: with the same walls and
/// inside cells, more water never gives a smaller (more upward, as positive
/// y is down) vertical acceleration after a tick.
pub proof fn law_water_weighs_down(
    navigation: Navigation,
    points: Seq<DockingPoint>,
    walls: int,
    inside: int,
    water1: int,
    water2: int,
)
    requires
        walls >= 0,
        0 <= water1 <= water2,
        navigation_computable(navigation, points, walls, inside, water1),
        navigation_computable(navigation, points, walls, inside, water2),
    ensures
        navigated(navigation, points, walls, inside, water1).acceleration.1 <= navigated(
            navigation,
            points,
            walls,
            inside,
            water2,
        ).acceleration.1,
{
    let b1 = buoyancy(walls, inside, water1);
    let b2 = buoyancy(walls, inside, water2);
    assert((water1 * 16) / 1024 <= (water2 * 16) / 1024) by (nonlinear_arith)
        requires
            0 <= water1 <= water2,
    ;
    assert(b2 <= b1);
    assert(b2 * walls <= b1 * walls) by (nonlinear_arith)
        requires
            b2 <= b1,
            walls >= 0,
    ;
    lemma_tdiv_monotone(b2 * walls, b1 * walls, 1024);
    lemma_tdiv_monotone(tdiv(b2 * walls, 1024), tdiv(b1 * walls, 1024), 100);
    let y1 = tdiv(tdiv(b1 * walls, 1024), 100);
    let y2 = tdiv(tdiv(b2 * walls, 1024), 100);
    lemma_tdiv_monotone(-y1, -y2, 8);
    lemma_tdiv_monotone(tdiv(-y1, 8), tdiv(-y2, 8), mass(walls));
    lemma_acceleration_fits(walls, inside, water1);
    lemma_acceleration_fits(walls, inside, water2);
}

/// The more room a hull has inside, the more it floats: with the same walls
/// and water, more inside cells never give a larger (more downward)
/// vertical acceleration after a tick.
pub proof fn law_room_lifts(
    navigation: Navigation,
    points: Seq<DockingPoint>,
    walls: int,
    inside1: int,
    inside2: int,
    water: int,
)
    requires
        walls >= 0,
        inside1 <= inside2,
        navigation_computable(navigation, points, walls, inside1, water),
        navigation_computable(navigation, points, walls, inside2, water),
    ensures
        navigated(navigation, points, walls, inside2, water).acceleration.1 <= navigated(
            navigation,
            points,
            walls,
            inside1,
            water,
        ).acceleration.1,
{
    let b1 = buoyancy(walls, inside1, water);
    let b2 = buoyancy(walls, inside2, water);
    assert(b1 <= b2);
    assert(b1 * walls <= b2 * walls) by (nonlinear_arith)
        requires
            b1 <= b2,
            walls >= 0,
    ;
    lemma_tdiv_monotone(b1 * walls, b2 * walls, 1024);
    lemma_tdiv_monotone(tdiv(b1 * walls, 1024), tdiv(b2 * walls, 1024), 100);
    let y1 = tdiv(tdiv(b1 * walls, 1024), 100);
    let y2 = tdiv(tdiv(b2 * walls, 1024), 100);
    lemma_tdiv_monotone(-y2, -y1, 8);
    lemma_tdiv_monotone(tdiv(-y2, 8), tdiv(-y1, 8), mass(walls));
    lemma_acceleration_fits(walls, inside1, water);
    lemma_acceleration_fits(walls, inside2, water);
}

/// After a tick the speed stays within `MAX_SPEED` each way, and where the
/// acceleration keeps it within that range it is the old speed plus the
/// acceleration; the docking override is the sum of the points' pulls.
pub proof fn law_speed_follows_acceleration(
    navigation: Navigation,
    points: Seq<DockingPoint>,
    walls: int,
    inside: int,
    water: int,
)
    requires
        walls >= 0,
        navigation_computable(navigation, points, walls, inside, water),
    ensures
        ({
            let n = navigated(navigation, points, walls, inside, water);
            let sx = navigation.speed.0 + navigation.acceleration.0;
            let sy = navigation.speed.1 + n.acceleration.1;
            &&& -MAX_SPEED <= n.speed.0 <= MAX_SPEED
            &&& -MAX_SPEED <= n.speed.1 <= MAX_SPEED
            &&& -MAX_SPEED <= sx <= MAX_SPEED ==> n.speed.0 == sx
            &&& -MAX_SPEED <= sy <= MAX_SPEED ==> n.speed.1 == sy
            &&& n.acceleration.0 == navigation.acceleration.0
            &&& n.position == navigation.position
            &&& n.target == navigation.target
        }),
{
    lemma_acceleration_fits(walls, inside, water);
}

/// The vertical acceleration is no larger than the buoyancy times the
/// weight, so it fits in an `i32` whenever that product does.
proof fn lemma_acceleration_fits(walls: int, inside: int, water: int)
    requires
        walls >= 0,
        fits_i32(buoyancy(walls, inside, water) * walls),
    ensures
        fits_i32(vertical_acceleration(walls, inside, water)),
{
    let p = buoyancy(walls, inside, water) * walls;
    lemma_tdiv_shrinks(p, 1024);
    lemma_tdiv_shrinks(tdiv(p, 1024), 100);
    let y = tdiv(tdiv(p, 1024), 100);
    lemma_tdiv_shrinks(-y, 8);
    lemma_tdiv_shrinks(tdiv(-y, 8), mass(walls));
}

/// A hull that takes in enough water accelerates strictly further down:
/// once the extra water, over 64 units per point of buoyancy, times the
/// walls reaches the amount that the divisions round away, the vertical
/// acceleration after a tick is strictly larger.
pub proof fn law_flooding_sinks(
    navigation: Navigation,
    points: Seq<DockingPoint>,
    walls: int,
    inside: int,
    water1: int,
    water2: int,
)
    requires
        walls >= 1,
        0 <= water1 <= water2,
        (water2 - water1 - 64) * walls >= 64 * 1024 * 2400 * (mass(walls) + 1),
        navigation_computable(navigation, points, walls, inside, water1),
        navigation_computable(navigation, points, walls, inside, water2),
    ensures
        navigated(navigation, points, walls, inside, water1).acceleration.1 < navigated(
            navigation,
            points,
            walls,
            inside,
            water2,
        ).acceleration.1,
{
    let m = mass(walls);
    let b1 = buoyancy(walls, inside, water1);
    let b2 = buoyancy(walls, inside, water2);
    assert(64 * ((water2 * 16) / 1024 - (water1 * 16) / 1024) >= water2 - water1 - 64) by (nonlinear_arith)
        requires
            0 <= water1 <= water2,
    ;
    assert(64 * (b1 - b2) >= water2 - water1 - 64);
    let p1 = b1 * walls;
    let p2 = b2 * walls;
    assert(64 * (p1 - p2) >= (water2 - water1 - 64) * walls) by (nonlinear_arith)
        requires
            64 * (b1 - b2) >= water2 - water1 - 64,
            walls >= 1,
            p1 == b1 * walls,
            p2 == b2 * walls,
    ;
    assert(p1 - p2 >= 1024 * 2400 * (m + 1)) by (nonlinear_arith)
        requires
            64 * (p1 - p2) >= (water2 - water1 - 64) * walls,
            (water2 - water1 - 64) * walls >= 64 * 1024 * 2400 * (m + 1),
    ;
    let q1 = tdiv(p1, 1024);
    let q2 = tdiv(p2, 1024);
    lemma_tdiv_close(p1, 1024);
    lemma_tdiv_close(p2, 1024);
    assert(q1 - q2 >= 2400 * (m + 1) - 2) by (nonlinear_arith)
        requires
            p1 - 1024 < 1024 * q1,
            1024 * q2 < p2 + 1024,
            p1 - p2 >= 1024 * 2400 * (m + 1),
    ;
    let y1 = tdiv(q1, 100);
    let y2 = tdiv(q2, 100);
    lemma_tdiv_close(q1, 100);
    lemma_tdiv_close(q2, 100);
    assert(y1 - y2 >= 24 * (m + 1) - 2) by (nonlinear_arith)
        requires
            q1 - 100 < 100 * y1,
            100 * y2 < q2 + 100,
            q1 - q2 >= 2400 * (m + 1) - 2,
    ;
    let e1 = tdiv(-y1, 8);
    let e2 = tdiv(-y2, 8);
    lemma_tdiv_close(-y1, 8);
    lemma_tdiv_close(-y2, 8);
    assert(e2 - e1 >= 3 * (m + 1) - 2) by (nonlinear_arith)
        requires
            -y2 - 8 < 8 * e2,
            8 * e1 < -y1 + 8,
            y1 - y2 >= 24 * (m + 1) - 2,
    ;
    assert(m >= 1);
    let a1 = tdiv(e1, m);
    let a2 = tdiv(e2, m);
    lemma_tdiv_close(e1, m);
    lemma_tdiv_close(e2, m);
    assert(m * (a2 - a1) > e2 - e1 - 2 * m) by (nonlinear_arith)
        requires
            e1 - m < m * a1 < e1 + m,
            e2 - m < m * a2 < e2 + m,
    ;
    assert(a2 > a1) by (nonlinear_arith)
        requires
            m * (a2 - a1) > e2 - e1 - 2 * m,
            e2 - e1 >= 3 * (m + 1) - 2,
            m >= 1,
    ;
    lemma_acceleration_fits(walls, inside, water1);
    lemma_acceleration_fits(walls, inside, water2);
}

/// Division of `i64`s, rounding towards zero.
fn div_toward_zero(a: i64, b: i64) -> (r: i64)
    requires
        b > 0,
        a > i64::MIN,
    ensures
        r == tdiv(a as int, b as int),
{
    if a >= 0 {
        a / b
    } else {
        let n: i64 = -a;
        -(n / b)
    }
}

/// Moves the submarine by its buoyancy: the weight of its walls against
/// the room inside and the water in it; then sets the docking override to
/// what its docking points pull.
pub fn update_navigation(submarine: &mut SubmarineState)
    requires
        navigation_computable(
            old(submarine).navigation,
            old(submarine).docking_points@,
            old(submarine).water_grid.spec_total_walls() as int,
            old(submarine).water_grid.spec_total_inside() as int,
            old(submarine).water_grid.spec_total_water() as int,
        ),
    ensures
        final(submarine).navigation == navigated(
            old(submarine).navigation,
            old(submarine).docking_points@,
            old(submarine).water_grid.spec_total_walls() as int,
            old(submarine).water_grid.spec_total_inside() as int,
            old(submarine).water_grid.spec_total_water() as int,
        ),
        final(submarine).water_grid == old(submarine).water_grid,
        final(submarine).wire_grid == old(submarine).wire_grid,
        final(submarine).objects@ == old(submarine).objects@,
        final(submarine).sonar == old(submarine).sonar,
        final(submarine).collisions@ == old(submarine).collisions@,
        final(submarine).docking_points@ == old(submarine).docking_points@,
        final(submarine).background_pixels@ == old(submarine).background_pixels@,
{
    let ghost walls_count = submarine.water_grid.spec_total_walls() as int;
    let ghost inside_count = submarine.water_grid.spec_total_inside() as int;
    let ghost water_count = submarine.water_grid.spec_total_water() as int;

    let weight = submarine.water_grid.total_walls() as i32;
    let inside = submarine.water_grid.total_inside() as i32;
    let water = submarine.water_grid.total_water() as i32;
    assert(weight == walls_count && inside == inside_count && water == water_count);

    let mut buoyancy: i32 = 0;
    buoyancy -= weight * 16;
    buoyancy += inside * 13;
    buoyancy -= water * 16 / 1024;
    assert(buoyancy == crate::navigation::buoyancy(walls_count, inside_count, water_count));

    let heavy = weight * weight / 1500 / 1500;
    let mass: i32 = if heavy >= 1 {
        heavy
    } else {
        1
    };
    assert(mass > 0);

    let product: i64 = (buoyancy as i64) * (weight as i64);
    let scaled = div_toward_zero(product, 1024);
    proof {
        lemma_tdiv_shrinks(product as int, 1024);
    }
    let y_acceleration = div_toward_zero(scaled, 100);
    proof {
        lemma_tdiv_shrinks(scaled as int, 100);
    }
    let eighth = div_toward_zero(-y_acceleration, 8);
    proof {
        lemma_tdiv_shrinks(-y_acceleration as int, 8);
    }
    let acceleration = div_toward_zero(eighth, mass as i64);
    proof {
        lemma_tdiv_shrinks(eighth as int, mass as int);
    }
    let acceleration_y = acceleration as i32;
    assert(acceleration_y == vertical_acceleration(walls_count, inside_count, water_count));

    let mut navigation = submarine.navigation;
    navigation.acceleration.1 = acceleration_y;
    navigation.speed.0 = clamp_speed(navigation.speed.0 + navigation.acceleration.0);
    navigation.speed.1 = clamp_speed(navigation.speed.1 + navigation.acceleration.1);

    let mut docking_override: (i32, i32) = (0, 0);
    let ghost points = submarine.docking_points@;
    let mut i: usize = 0;
    while i < submarine.docking_points.len()
        invariant
            points == submarine.docking_points@,
            i <= points.len(),
            forall|n: int|
                0 <= n <= points.len() ==> fits_i32(#[trigger] offset_sum(points, n).0) && fits_i32(
                    offset_sum(points, n).1,
                ),
            docking_override.0 == offset_sum(points, i as int).0,
            docking_override.1 == offset_sum(points, i as int).1,
        decreases points.len() - i,
    {
        let offset = submarine.docking_points[i].speed_offset;
        assert(fits_i32(offset_sum(points, i + 1).0) && fits_i32(offset_sum(points, i + 1).1));
        docking_override = (docking_override.0 + offset.0, docking_override.1 + offset.1);
        i = i + 1;
    }
    navigation.docking_override = docking_override;

    submarine.navigation = navigation;
}

} // verus!
