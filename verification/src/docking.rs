//! Docking: each submarine's docking connectors become docking points in
//! the world; points of different submarines that face each other and are
//! close nudge their submarines together, and dock when they meet.

use crate::collisions::trem;
use crate::objects::{Object, ObjectType, clamp};
use crate::state::{DockingDirection, DockingPoint, Navigation, SubmarineState};
use crate::water::{abs, tdiv};
use crate::wires::copy_vec;
use vstd::prelude::*;

verus! {

pub open spec fn is_connector(o: Object) -> bool {
    o.object_type is DockingConnectorTop || o.object_type is DockingConnectorBottom
}

/// The object with its docking connector's `connected` flag set (other
/// objects are kept).
pub open spec fn with_connected(o: Object, connected: bool) -> Object {
    match o.object_type {
        ObjectType::DockingConnectorTop { state, progress, previous_connected, .. } => Object {
            object_type: ObjectType::DockingConnectorTop { state, progress, connected, previous_connected },
            ..o
        },
        ObjectType::DockingConnectorBottom { state, progress, previous_connected, .. } => Object {
            object_type: ObjectType::DockingConnectorBottom { state, progress, connected, previous_connected },
            ..o
        },
        _ => o,
    }
}

/// The docking point of connector `index` of a submarine at `navigation`:
/// the middle of its mouth, 11 cells right of the object and 3 (top) or 7
/// (bottom) cells down, in sixteenths of a cell.
pub open spec fn docking_point_of(o: Object, index: int, navigation: Navigation) -> DockingPoint {
    let direction = if o.object_type is DockingConnectorTop {
        DockingDirection::Top
    } else {
        DockingDirection::Bottom
    };
    let vertical_offset = if o.object_type is DockingConnectorTop {
        3 * 16
    } else {
        7 * 16
    };
    DockingPoint {
        connection_point: (
            (navigation.position.0 + (o.position.0 as i32) * 16 + 11 * 16) as i32,
            (navigation.position.1 + (o.position.1 as i32) * 16 + vertical_offset) as i32,
        ),
        connector_object_id: index as usize,
        connected_to: None,
        in_proximity_to: None,
        speed_offset: (0, 0),
        direction,
    }
}

/// The docking points of the first `n` objects, in order.
pub open spec fn docking_points_of(objects: Seq<Object>, navigation: Navigation, n: nat) -> Seq<DockingPoint>
    decreases n,
{
    if n == 0 {
        Seq::empty()
    } else {
        let before = docking_points_of(objects, navigation, (n - 1) as nat);
        if is_connector(objects[n - 1]) {
            before.push(docking_point_of(objects[n - 1], n - 1, navigation))
        } else {
            before
        }
    }
}

/// A docking connector's point can be computed within an `i32`: its cell
/// (read as an `i32`) times 16, and the sums with the submarine's position
/// and the connector's offset.
pub open spec fn connector_fits(o: Object, navigation: Navigation) -> bool {
    let x = (o.position.0 as i32) * 16;
    let y = (o.position.1 as i32) * 16;
    let offset = if o.object_type is DockingConnectorTop {
        3 * 16
    } else {
        7 * 16
    };
    &&& fits_i32(x)
    &&& fits_i32(y)
    &&& fits_i32(navigation.position.0 + x)
    &&& fits_i32(navigation.position.0 + x + 11 * 16)
    &&& fits_i32(navigation.position.1 + y)
    &&& fits_i32(navigation.position.1 + y + offset)
}

/// Every docking connector's point can be computed.
pub open spec fn docking_positions_ok(objects: Seq<Object>, navigation: Navigation) -> bool {
    forall|i: int| 0 <= i < objects.len() && is_connector(objects[i]) ==> connector_fits(#[trigger] objects[i], navigation)
}

/// Two facing points can be compared: their distances along both axes are
/// `i32`s, and so are the absolute values that are taken.
pub open spec fn pair_fits(p1: DockingPoint, p2: DockingPoint) -> bool {
    let dx = p1.connection_point.0 - p2.connection_point.0;
    let dy = p1.connection_point.1 - p2.connection_point.1;
    p1.direction != p2.direction ==> {
        &&& i32::MIN < dx <= i32::MAX
        &&& fits_i32(dy)
        &&& abs(dx) < 128 ==> i32::MIN < dy
    }
}

/// Every point of a submarine can be compared with every point of every
/// later submarine.
pub open spec fn pairs_fit(points: Seq<Seq<DockingPoint>>) -> bool {
    forall|i: int, j: int, a: int, b: int|
        0 <= i < j < points.len() && 0 <= a < points[i].len() && 0 <= b < points[j].len() ==> #[trigger] pair_fits(
            points[i][a],
            points[j][b],
        )
}

/// The points sit where they sat, facing the same way.
pub open spec fn same_geometry(p: Seq<Seq<DockingPoint>>, q: Seq<Seq<DockingPoint>>) -> bool {
    &&& q.len() == p.len()
    &&& forall|k: int| 0 <= k < p.len() ==> (#[trigger] q[k]).len() == p[k].len()
    &&& forall|k: int, a: int|
        0 <= k < p.len() && 0 <= a < p[k].len() ==> (#[trigger] q[k][a]).connection_point == p[k][a].connection_point
            && q[k][a].direction == p[k][a].direction
}

proof fn lemma_pairs_fit_kept(p: Seq<Seq<DockingPoint>>, q: Seq<Seq<DockingPoint>>)
    requires
        pairs_fit(p),
        same_geometry(p, q),
    ensures
        pairs_fit(q),
{
    assert forall|i: int, j: int, a: int, b: int|
        0 <= i < j < q.len() && 0 <= a < q[i].len() && 0 <= b < q[j].len() implies #[trigger] pair_fits(
            q[i][a],
            q[j][b],
        ) by {
        assert(pair_fits(p[i][a], p[j][b]));
        assert(q[i][a].connection_point == p[i][a].connection_point);
        assert(q[j][b].connection_point == p[j][b].connection_point);
    }
}

/// The point refers to a docking connector of the submarine.
pub open spec fn point_ok(p: DockingPoint, objects: Seq<Object>) -> bool {
    &&& p.connector_object_id < objects.len()
    &&& is_connector(objects[p.connector_object_id as int])
}

pub open spec fn points_ok(points: Seq<DockingPoint>, objects: Seq<Object>) -> bool {
    forall|a: int| 0 <= a < points.len() ==> point_ok(#[trigger] points[a], objects)
}

/// The docking points of two submarines and their objects.
pub type Rows = (Seq<DockingPoint>, Seq<DockingPoint>, Seq<Object>, Seq<Object>);

/// What point `a` of submarine `i` and point `b` of submarine `j` do to each
/// other: facing points that are not yet near anything and are less than 8
/// cells apart become near each other and ask their submarines to move
/// closer (by up to 2 sixteenths); when less than a quarter of a cell apart
/// they dock, and their connectors become connected.
pub open spec fn pair_step(r: Rows, i: int, j: int, a: int, b: int) -> Rows {
    let p1 = r.0[a];
    let p2 = r.1[b];
    let outcome = pair_outcome(p1, p2);
    let near = near_points(p1, p2);
    if outcome == 0 {
        r
    } else if outcome == 1 {
        (r.0.update(a, near.0), r.1.update(b, near.1), r.2, r.3)
    } else {
        let id1 = p1.connector_object_id as int;
        let id2 = p2.connector_object_id as int;
        (
            r.0.update(a, DockingPoint { connected_to: Some((j as usize, p2.connector_object_id)), ..near.0 }),
            r.1.update(b, DockingPoint { connected_to: Some((i as usize, p1.connector_object_id)), ..near.1 }),
            r.2.update(id1, with_connected(r.2[id1], true)),
            r.3.update(id2, with_connected(r.3[id2], true)),
        )
    }
}

/// What two points do: 0 nothing (one of them is already near something,
/// they do not face each other, or they are 8 cells or more apart), 1 come
/// near, 2 dock (less than a quarter of a cell apart).
pub open spec fn pair_outcome(p1: DockingPoint, p2: DockingPoint) -> int {
    let facing = p1.direction != p2.direction;
    let diff_x = p1.connection_point.0 - p2.connection_point.0;
    let diff_y = p1.connection_point.1 - p2.connection_point.1;
    if p1.in_proximity_to is Some || p2.in_proximity_to is Some || !facing || abs(diff_x) >= 128 || abs(diff_y)
        >= 128 {
        0
    } else if abs(diff_x) >= 4 || abs(diff_y) >= 4 {
        1
    } else {
        2
    }
}

/// The two points once near each other: each remembers the other's
/// position and asks its submarine to move (by up to 2 sixteenths) towards
/// it; the first also takes the remainder of halving the distance.
pub open spec fn near_points(p1: DockingPoint, p2: DockingPoint) -> (DockingPoint, DockingPoint) {
    let speed_x = clamp(p1.connection_point.0 - p2.connection_point.0, -2, 2);
    let speed_y = clamp(p1.connection_point.1 - p2.connection_point.1, -2, 2);
    (
        DockingPoint {
            in_proximity_to: Some(p2.connection_point),
            speed_offset: (
                (tdiv(-speed_x, 2) + trem(speed_x, 2)) as i32,
                (tdiv(-speed_y, 2) + trem(speed_y, 2)) as i32,
            ),
            ..p1
        },
        DockingPoint {
            in_proximity_to: Some(p1.connection_point),
            speed_offset: (tdiv(speed_x, 2) as i32, tdiv(speed_y, 2) as i32),
            ..p2
        },
    )
}

/// Point `a` of submarine `i` against the first `nb` points of submarine `j`.
pub open spec fn pairs_b(r: Rows, i: int, j: int, a: int, nb: nat) -> Rows
    decreases nb,
{
    if nb == 0 {
        r
    } else {
        pair_step(pairs_b(r, i, j, a, (nb - 1) as nat), i, j, a, nb - 1)
    }
}

/// The first `na` points of submarine `i` against every point of submarine
/// `j`.
pub open spec fn pairs_a(r: Rows, i: int, j: int, na: nat) -> Rows
    decreases na,
{
    if na == 0 {
        r
    } else {
        let before = pairs_a(r, i, j, (na - 1) as nat);
        pairs_b(before, i, j, na - 1, before.1.len())
    }
}

/// The docking points and objects of all submarines.
pub type Docks = (Seq<Seq<DockingPoint>>, Seq<Seq<Object>>);

pub open spec fn dock_pair(d: Docks, i: int, j: int) -> Docks {
    let r = pairs_a((d.0[i], d.0[j], d.1[i], d.1[j]), i, j, d.0[i].len());
    (d.0.update(i, r.0).update(j, r.1), d.1.update(i, r.2).update(j, r.3))
}

/// Submarine `i` against submarines `i + 1` up to `nj` (excluded).
pub open spec fn dock_j(d: Docks, i: int, nj: int) -> Docks
    decreases nj - i,
{
    if nj <= i + 1 {
        d
    } else {
        dock_pair(dock_j(d, i, nj - 1), i, nj - 1)
    }
}

/// The first `ni` submarines against every later one.
pub open spec fn dock_i(d: Docks, ni: nat) -> Docks
    decreases ni,
{
    if ni == 0 {
        d
    } else {
        let before = dock_i(d, (ni - 1) as nat);
        dock_j(before, ni - 1, before.0.len() as int)
    }
}

} // verus!

verus! {

fn set_connected(o: &mut Object, connected: bool)
    ensures
        *final(o) == with_connected(*old(o), connected),
{
    match o.object_type {
        ObjectType::DockingConnectorTop { state, progress, previous_connected, .. } => {
            o.object_type = ObjectType::DockingConnectorTop { state, progress, connected, previous_connected };
        },
        ObjectType::DockingConnectorBottom { state, progress, previous_connected, .. } => {
            o.object_type = ObjectType::DockingConnectorBottom { state, progress, connected, previous_connected };
        },
        _ => {},
    }
}

fn abs_i32(v: i32) -> (r: i32)
    requires
        v > i32::MIN,
    ensures
        r == abs(v as int),
{
    if v < 0 {
        -v
    } else {
        v
    }
}

fn clamp_two(v: i32) -> (r: i32)
    ensures
        r == clamp(v as int, -2, 2),
{
    if v < -2 {
        -2
    } else if v > 2 {
        2
    } else {
        v
    }
}

/// What two points do, and the points once near (see `pair_outcome` and
/// `near_points`).
fn pair_outcome_exec(p1: DockingPoint, p2: DockingPoint) -> (r: (u8, DockingPoint, DockingPoint))
    requires
        pair_fits(p1, p2),
    ensures
        r.0 == pair_outcome(p1, p2),
        r.0 != 0 ==> (r.1, r.2) == near_points(p1, p2),
{
    if p1.in_proximity_to.is_some() || p2.in_proximity_to.is_some() {
        return (0, p1, p2);
    }
    let facing = match (p1.direction, p2.direction) {
        (DockingDirection::Top, DockingDirection::Bottom) => true,
        (DockingDirection::Bottom, DockingDirection::Top) => true,
        _ => false,
    };
    if !facing {
        return (0, p1, p2);
    }
    let diff_x = p1.connection_point.0 - p2.connection_point.0;
    let diff_y = p1.connection_point.1 - p2.connection_point.1;

    if abs_i32(diff_x) >= 128 || abs_i32(diff_y) >= 128 {
        return (0, p1, p2);
    }

    let speed_x = clamp_two(diff_x);
    let speed_y = clamp_two(diff_y);

    // Maximize chances of reaching the exact connecting point
    let near1 = DockingPoint {
        in_proximity_to: Some(p2.connection_point),
        speed_offset: (-speed_x / 2 + speed_x % 2, -speed_y / 2 + speed_y % 2),
        ..p1
    };
    let near2 = DockingPoint {
        in_proximity_to: Some(p1.connection_point),
        speed_offset: (speed_x / 2, speed_y / 2),
        ..p2
    };

    if abs_i32(diff_x) >= 4 || abs_i32(diff_y) >= 4 {
        (1, near1, near2)
    } else {
        (2, near1, near2)
    }
}

/// Changing points' proximity, speed and docking keeps them valid, and so
/// does connecting a connector.
proof fn lemma_points_ok_kept(old_points: Seq<DockingPoint>, points: Seq<DockingPoint>, old_objects: Seq<Object>, objects: Seq<Object>)
    requires
        points_ok(old_points, old_objects),
        points.len() == old_points.len(),
        objects.len() == old_objects.len(),
        forall|k: int| 0 <= k < points.len() ==> (#[trigger] points[k]).connector_object_id == old_points[k].connector_object_id
            && points[k].connection_point == old_points[k].connection_point,
        forall|k: int| 0 <= k < objects.len() ==> #[trigger] objects[k] == old_objects[k] || objects[k] == with_connected(old_objects[k], true),
    ensures
        points_ok(points, objects),
{
    assert forall|k: int| 0 <= k < points.len() implies point_ok(#[trigger] points[k], objects) by {
        assert(point_ok(old_points[k], old_objects));
        let id = points[k].connector_object_id as int;
        assert(objects[id] == old_objects[id] || objects[id] == with_connected(old_objects[id], true));
    }
}

/// What point `a` of submarine `i` and point `b` of submarine `j` do to each
/// other (see `pair_step`).
fn pair_step_exec(
    row1: &mut Vec<DockingPoint>,
    row2: &mut Vec<DockingPoint>,
    orow1: &mut Vec<Object>,
    orow2: &mut Vec<Object>,
    i: usize,
    j: usize,
    a: usize,
    b: usize,
)
    requires
        a < old(row1)@.len(),
        b < old(row2)@.len(),
        points_ok(old(row1)@, old(orow1)@),
        points_ok(old(row2)@, old(orow2)@),
        pair_fits(old(row1)@[a as int], old(row2)@[b as int]),
    ensures
        final(row1)@.len() == old(row1)@.len(),
        final(row2)@.len() == old(row2)@.len(),
        forall|k: int|
            0 <= k < old(row1)@.len() ==> (#[trigger] final(row1)@[k]).connection_point == old(row1)@[k].connection_point
                && final(row1)@[k].direction == old(row1)@[k].direction,
        forall|k: int|
            0 <= k < old(row2)@.len() ==> (#[trigger] final(row2)@[k]).connection_point == old(row2)@[k].connection_point
                && final(row2)@[k].direction == old(row2)@[k].direction,
        (final(row1)@, final(row2)@, final(orow1)@, final(orow2)@) == pair_step(
            (old(row1)@, old(row2)@, old(orow1)@, old(orow2)@),
            i as int,
            j as int,
            a as int,
            b as int,
        ),
        points_ok(final(row1)@, final(orow1)@),
        points_ok(final(row2)@, final(orow2)@),
{
    let p1 = row1[a];
    let p2 = row2[b];
    proof {
        assert(point_ok(old(row1)@[a as int], old(orow1)@));
        assert(point_ok(old(row2)@[b as int], old(orow2)@));
    }
    let (outcome, near1, near2) = pair_outcome_exec(p1, p2);
    if outcome == 0 {
        return;
    }
    if outcome == 1 {
        row1.set(a, near1);
        row2.set(b, near2);
    } else {
        let id1 = p1.connector_object_id;
        let id2 = p2.connector_object_id;
        row1.set(a, DockingPoint { connected_to: Some((j, id2)), ..near1 });
        row2.set(b, DockingPoint { connected_to: Some((i, id1)), ..near2 });
        let mut o1 = orow1[id1];
        set_connected(&mut o1, true);
        orow1.set(id1, o1);
        let mut o2 = orow2[id2];
        set_connected(&mut o2, true);
        orow2.set(id2, o2);
    }
    proof {
        lemma_points_ok_kept(old(row1)@, row1@, old(orow1)@, orow1@);
        lemma_points_ok_kept(old(row2)@, row2@, old(orow2)@, orow2@);
    }
}


pub open spec fn point_views(points: Seq<Vec<DockingPoint>>) -> Seq<Seq<DockingPoint>> {
    points.map_values(|v: Vec<DockingPoint>| v@)
}

pub open spec fn object_views(objects: Seq<Vec<Object>>) -> Seq<Seq<Object>> {
    objects.map_values(|v: Vec<Object>| v@)
}

/// Every submarine's points refer to its own docking connectors.
pub open spec fn docks_ok(d: Docks) -> bool {
    &&& d.0.len() == d.1.len()
    &&& forall|i: int| 0 <= i < d.0.len() ==> points_ok(#[trigger] d.0[i], d.1[i])
}

/// Every point of submarine `i` against every point of submarine `j`.
fn dock_pair_exec(points: &mut Vec<Vec<DockingPoint>>, objects: &mut Vec<Vec<Object>>, i: usize, j: usize)
    requires
        i < j < old(points)@.len(),
        docks_ok((point_views(old(points)@), object_views(old(objects)@))),
        pairs_fit(point_views(old(points)@)),
    ensures
        final(points)@.len() == old(points)@.len(),
        final(objects)@.len() == old(objects)@.len(),
        same_geometry(point_views(old(points)@), point_views(final(points)@)),
        (point_views(final(points)@), object_views(final(objects)@)) == dock_pair(
            (point_views(old(points)@), object_views(old(objects)@)),
            i as int,
            j as int,
        ),
        docks_ok((point_views(final(points)@), object_views(final(objects)@))),
{
    let ghost d = (point_views(points@), object_views(objects@));
    let mut row1 = copy_vec(&points[i]);
    let mut row2 = copy_vec(&points[j]);
    let mut orow1 = copy_vec(&objects[i]);
    let mut orow2 = copy_vec(&objects[j]);
    let ghost r0 = (row1@, row2@, orow1@, orow2@);
    proof {
        assert(r0 == (d.0[i as int], d.0[j as int], d.1[i as int], d.1[j as int]));
        assert(points_ok(d.0[i as int], d.1[i as int]));
        assert(points_ok(d.0[j as int], d.1[j as int]));
    }
    let n1 = row1.len();
    let n2 = row2.len();
    let mut a: usize = 0;
    while a < n1
        invariant
            n1 == row1@.len(),
            n2 == row2@.len(),
            a <= n1,
            (row1@, row2@, orow1@, orow2@) == pairs_a(r0, i as int, j as int, a as nat),
            points_ok(row1@, orow1@),
            points_ok(row2@, orow2@),
            pairs_fit(d.0),
            r0.0 == d.0[i as int],
            r0.1 == d.0[j as int],
            i < j < d.0.len(),
            same_geometry(seq![r0.0, r0.1], seq![row1@, row2@]),
        decreases n1 - a,
    {
        let ghost ra = (row1@, row2@, orow1@, orow2@);
        let mut b: usize = 0;
        while b < n2
            invariant
                n1 == row1@.len(),
                n2 == row2@.len(),
                a < n1,
                b <= n2,
                ra.1.len() == n2,
                (row1@, row2@, orow1@, orow2@) == pairs_b(ra, i as int, j as int, a as int, b as nat),
                points_ok(row1@, orow1@),
                points_ok(row2@, orow2@),
                pairs_fit(d.0),
                r0.0 == d.0[i as int],
                r0.1 == d.0[j as int],
                i < j < d.0.len(),
                same_geometry(seq![r0.0, r0.1], seq![row1@, row2@]),
            decreases n2 - b,
        {
            proof {
                let g0 = seq![r0.0, r0.1];
                let g1 = seq![row1@, row2@];
                assert(g1[0] == row1@ && g1[1] == row2@ && g0[0] == r0.0 && g0[1] == r0.1);
                assert(row1@[a as int].connection_point == r0.0[a as int].connection_point);
                assert(row2@[b as int].connection_point == r0.1[b as int].connection_point);
                assert(pair_fits(d.0[i as int][a as int], d.0[j as int][b as int]));
            }
            let ghost before = seq![row1@, row2@];
            pair_step_exec(&mut row1, &mut row2, &mut orow1, &mut orow2, i, j, a, b);
            proof {
                let g1 = seq![row1@, row2@];
                assert(g1[0] == row1@ && g1[1] == row2@ && before[0].len() == row1@.len());
                assert(same_geometry(seq![r0.0, r0.1], g1));
            }
            b = b + 1;
        }
        a = a + 1;
    }
    points.set(i, row1);
    points.set(j, row2);
    objects.set(i, orow1);
    objects.set(j, orow2);
    proof {
        let r = pairs_a(r0, i as int, j as int, n1 as nat);
        assert(point_views(points@) =~= d.0.update(i as int, r.0).update(j as int, r.1));
        assert(object_views(objects@) =~= d.1.update(i as int, r.2).update(j as int, r.3));
        let e = (point_views(points@), object_views(objects@));
        assert forall|k: int| 0 <= k < e.0.len() implies points_ok(#[trigger] e.0[k], e.1[k]) by {
            if k != i && k != j {
                assert(points_ok(d.0[k], d.1[k]));
            }
        }
        let g1 = seq![row1@, row2@];
        assert(g1[0] == row1@ && g1[1] == row2@);
        assert(same_geometry(d.0, e.0));
    }
}

/// Submarines that face each other with docking points less than 8 cells
/// apart are nudged together, and dock when less than a quarter of a cell
/// apart: every pair of submarines `i < j`, every point of `i` against
/// every point of `j`, in order (see `dock_i`).
fn nudge_docking_points(points: &mut Vec<Vec<DockingPoint>>, objects: &mut Vec<Vec<Object>>)
    requires
        docks_ok((point_views(old(points)@), object_views(old(objects)@))),
        pairs_fit(point_views(old(points)@)),
    ensures
        final(points)@.len() == old(points)@.len(),
        final(objects)@.len() == old(objects)@.len(),
        (point_views(final(points)@), object_views(final(objects)@)) == dock_i(
            (point_views(old(points)@), object_views(old(objects)@)),
            old(points)@.len(),
        ),
{
    let ghost d0 = (point_views(points@), object_views(objects@));
    let n = points.len();
    let mut i: usize = 0;
    while i < n
        invariant
            n == points@.len(),
            points@.len() == objects@.len(),
            d0.0.len() == n,
            i <= n,
            docks_ok((point_views(points@), object_views(objects@))),
            pairs_fit(point_views(points@)),
            (point_views(points@), object_views(objects@)) == dock_i(d0, i as nat),
        decreases n - i,
    {
        let ghost di = (point_views(points@), object_views(objects@));
        let mut j: usize = i + 1;
        while j < n
            invariant
                n == points@.len(),
                points@.len() == objects@.len(),
                i < n,
                i + 1 <= j <= n,
                di.0.len() == n,
                docks_ok((point_views(points@), object_views(objects@))),
                pairs_fit(point_views(points@)),
                (point_views(points@), object_views(objects@)) == dock_j(di, i as int, j as int),
            decreases n - j,
        {
            let ghost before = point_views(points@);
            dock_pair_exec(points, objects, i, j);
            proof {
                lemma_pairs_fit_kept(before, point_views(points@));
            }
            j = j + 1;
        }
        i = i + 1;
    }
}


/// The objects with every docking connector disconnected.
pub open spec fn disconnected(objects: Seq<Object>) -> Seq<Object> {
    Seq::new(objects.len(), |k: int| with_connected(objects[k], false))
}

/// Disconnects every docking connector and lists the submarine's docking
/// points (see `docking_points_of`).
fn collect_docking_points(objects: &mut Vec<Object>, navigation: &Navigation) -> (points: Vec<DockingPoint>)
    requires
        docking_positions_ok(old(objects)@, *navigation),
    ensures
        final(objects)@ == disconnected(old(objects)@),
        points@ == docking_points_of(old(objects)@, *navigation, old(objects)@.len()),
        points_ok(points@, final(objects)@),
{
    let ghost objects0 = objects@;
    let mut points: Vec<DockingPoint> = Vec::new();
    let n = objects.len();
    let mut k: usize = 0;
    while k < n
        invariant
            n == objects@.len(),
            n == objects0.len(),
            k <= n,
            docking_positions_ok(objects0, *navigation),
            forall|m: int| 0 <= m < k ==> #[trigger] objects@[m] == with_connected(objects0[m], false),
            forall|m: int| k <= m < n ==> #[trigger] objects@[m] == objects0[m],
            points@ == docking_points_of(objects0, *navigation, k as nat),
            forall|a: int|
                0 <= a < points@.len() ==> (#[trigger] points@[a]).connector_object_id < k && is_connector(
                    objects0[points@[a].connector_object_id as int],
                ),
        decreases n - k,
    {
        let mut object = objects[k];
        proof {
            assert(objects@[k as int] == objects0[k as int]);
        }
        let direction = match object.object_type {
            ObjectType::DockingConnectorTop { .. } => Some(DockingDirection::Top),
            ObjectType::DockingConnectorBottom { .. } => Some(DockingDirection::Bottom),
            _ => None,
        };
        if let Some(direction) = direction {
            proof {
                assert(connector_fits(objects0[k as int], *navigation));
            }
            set_connected(&mut object, false);
            objects.set(k, object);

            let vertical_offset: i32 = match direction {
                DockingDirection::Top => 3 * 16,
                DockingDirection::Bottom => 7 * 16,
            };

            let connection_point = (
                navigation.position.0 + object.position.0 as i32 * 16 + 11 * 16,
                navigation.position.1 + object.position.1 as i32 * 16 + vertical_offset,
            );

            points.push(
                DockingPoint {
                    connection_point,
                    connector_object_id: k,
                    connected_to: None,
                    in_proximity_to: None,
                    speed_offset: (0, 0),
                    direction,
                },
            );
        }
        k = k + 1;
    }
    proof {
        assert(objects@ =~= disconnected(objects0));
        assert forall|a: int| 0 <= a < points@.len() implies point_ok(#[trigger] points@[a], objects@) by {
            let id = points@[a].connector_object_id as int;
            assert(objects@[id] == with_connected(objects0[id], false));
        }
    }
    points
}

/// Everything of a submarine but its objects and docking points is the same.
pub open spec fn same_but_docking(a: SubmarineState, b: SubmarineState) -> bool {
    &&& a.background_pixels == b.background_pixels
    &&& a.water_grid == b.water_grid
    &&& a.wire_grid == b.wire_grid
    &&& a.sonar == b.sonar
    &&& a.navigation == b.navigation
    &&& a.collisions == b.collisions
}

/// The docking state of the submarines before docking points meet: each
/// submarine's points, and its objects with every connector disconnected.
pub open spec fn initial_docks(submarines: Seq<SubmarineState>) -> Docks {
    (
        Seq::new(
            submarines.len(),
            |i: int| docking_points_of(submarines[i].objects@, submarines[i].navigation, submarines[i].objects@.len()),
        ),
        Seq::new(submarines.len(), |i: int| disconnected(submarines[i].objects@)),
    )
}

/// Finds every submarine's docking points and lets the points of different
/// submarines nudge their submarines together and dock (see `dock_i`).
pub fn update_docking_points(submarines: &mut Vec<SubmarineState>)
    requires
        forall|i: int|
            0 <= i < old(submarines)@.len() ==> docking_positions_ok(
                (#[trigger] old(submarines)@[i]).objects@,
                old(submarines)@[i].navigation,
            ),
        pairs_fit(initial_docks(old(submarines)@).0),
    ensures
        final(submarines)@.len() == old(submarines)@.len(),
        ({
            let d = dock_i(initial_docks(old(submarines)@), old(submarines)@.len());
            forall|i: int|
                0 <= i < final(submarines)@.len() ==> {
                    &&& (#[trigger] final(submarines)@[i]).docking_points@ == d.0[i]
                    &&& final(submarines)@[i].objects@ == d.1[i]
                    &&& same_but_docking(final(submarines)@[i], old(submarines)@[i])
                }
        }),
{
    let ghost subs0 = submarines@;
    let n = submarines.len();
    let mut points: Vec<Vec<DockingPoint>> = Vec::new();
    let mut objects: Vec<Vec<Object>> = Vec::new();
    let mut i: usize = 0;
    while i < n
        invariant
            n == submarines@.len(),
            n == subs0.len(),
            i <= n,
            points@.len() == i,
            objects@.len() == i,
            forall|k: int|
                0 <= k < n ==> docking_positions_ok((#[trigger] subs0[k]).objects@, subs0[k].navigation),
            forall|k: int| 0 <= k < n ==> same_but_docking(#[trigger] submarines@[k], subs0[k]),
            forall|k: int| i <= k < n ==> (#[trigger] submarines@[k]).objects@ == subs0[k].objects@,
            forall|k: int| 0 <= k < i ==> (#[trigger] points@[k])@ == initial_docks(subs0).0[k],
            forall|k: int| 0 <= k < i ==> (#[trigger] objects@[k])@ == initial_docks(subs0).1[k],
            forall|k: int| 0 <= k < i ==> points_ok(points@[k]@, #[trigger] objects@[k]@),
        decreases n - i,
    {
        let mut objs: Vec<Object> = Vec::new();
        std::mem::swap(&mut submarines[i].objects, &mut objs);
        let pts = collect_docking_points(&mut objs, &submarines[i].navigation);
        points.push(pts);
        objects.push(objs);
        i = i + 1;
    }
    proof {
        assert(point_views(points@) =~= initial_docks(subs0).0);
        assert(object_views(objects@) =~= initial_docks(subs0).1);
        let d = (point_views(points@), object_views(objects@));
        assert forall|k: int| 0 <= k < d.0.len() implies points_ok(#[trigger] d.0[k], d.1[k]) by {
            assert(points_ok(points@[k]@, objects@[k]@));
        }
    }
    nudge_docking_points(&mut points, &mut objects);
    let ghost d = dock_i(initial_docks(subs0), n as nat);
    let mut i: usize = 0;
    while i < n
        invariant
            n == submarines@.len(),
            n == subs0.len(),
            i <= n,
            points@.len() == n,
            objects@.len() == n,
            forall|k: int| 0 <= k < n ==> same_but_docking(#[trigger] submarines@[k], subs0[k]),
            forall|k: int| i <= k < n ==> (#[trigger] points@[k])@ == d.0[k],
            forall|k: int| i <= k < n ==> (#[trigger] objects@[k])@ == d.1[k],
            forall|k: int| 0 <= k < i ==> (#[trigger] submarines@[k]).docking_points@ == d.0[k],
            forall|k: int| 0 <= k < i ==> (#[trigger] submarines@[k]).objects@ == d.1[k],
        decreases n - i,
    {
        let mut pts: Vec<DockingPoint> = Vec::new();
        std::mem::swap(&mut points[i], &mut pts);
        std::mem::swap(&mut submarines[i].docking_points, &mut pts);
        let mut objs: Vec<Object> = Vec::new();
        std::mem::swap(&mut objects[i], &mut objs);
        std::mem::swap(&mut submarines[i].objects, &mut objs);
        i = i + 1;
    }
}

} // verus!

verus! {

/// The groups of docked submarines: each submarine's group, and each
/// group's summed speed and number of members.
pub type Groups = (Seq<Option<int>>, Seq<(int, int)>, Seq<int>);

/// Puts every submarine that one of the first `m` points is docked to in
/// group `g`.
pub open spec fn assign_points(groups: Seq<Option<int>>, points: Seq<DockingPoint>, g: int, m: nat) -> Seq<Option<int>>
    decreases m,
{
    if m == 0 {
        groups
    } else {
        let before = assign_points(groups, points, g, (m - 1) as nat);
        match points[m - 1].connected_to {
            Some(target) => before.update(target.0 as int, Some(g)),
            None => before,
        }
    }
}

/// Submarine `i` joins its group (a new one unless a submarine before it
/// docked to it), pulls the submarines it is docked to into the group, and
/// adds its speed to the group's.
pub open spec fn group_step(st: Groups, i: int, sub: SubmarineState) -> Groups {
    let g = match st.0[i] {
        Some(g) => g,
        None => st.1.len() as int,
    };
    let speeds = if st.0[i] is Some {
        st.1
    } else {
        st.1.push((0, 0))
    };
    let members = if st.0[i] is Some {
        st.2
    } else {
        st.2.push(0)
    };
    (
        assign_points(st.0.update(i, Some(g)), sub.docking_points@, g, sub.docking_points@.len()),
        speeds.update(g, (speeds[g].0 + sub.navigation.speed.0, speeds[g].1 + sub.navigation.speed.1)),
        members.update(g, members[g] + 1),
    )
}

/// The groups after the first `n` submarines have been visited.
pub open spec fn grouping(subs: Seq<SubmarineState>, n: nat) -> Groups
    decreases n,
{
    if n == 0 {
        (Seq::new(subs.len(), |i: int| None), Seq::empty(), Seq::empty())
    } else {
        group_step(grouping(subs, (n - 1) as nat), n - 1, subs[n - 1])
    }
}

/// Where submarine `i` moves to: its group's average speed (in 256ths) plus
/// its docking connectors' pull.
pub open spec fn moved_position(subs: Seq<SubmarineState>, i: int) -> (i32, i32) {
    let groups = grouping(subs, subs.len());
    let g = groups.0[i]->Some_0;
    let nav = subs[i].navigation;
    (
        (nav.position.0 + tdiv(tdiv(groups.1[g].0, groups.2[g]), 256) + nav.docking_override.0) as i32,
        (nav.position.1 + tdiv(tdiv(groups.1[g].1, groups.2[g]), 256) + nav.docking_override.1) as i32,
    )
}

/// How far submarine `i` moves before its docking connectors pull: its
/// group's average speed, in 256ths.
pub open spec fn group_delta(subs: Seq<SubmarineState>, i: int) -> (int, int) {
    let groups = grouping(subs, subs.len());
    let g = groups.0[i]->Some_0;
    (tdiv(tdiv(groups.1[g].0, groups.2[g]), 256), tdiv(tdiv(groups.1[g].1, groups.2[g]), 256))
}

pub open spec fn fits_i32(v: int) -> bool {
    i32::MIN <= v <= i32::MAX
}

/// The submarines can be grouped and moved within the integer types: every
/// submarine that a docking point names exists, each group's running sum of
/// speeds stays an `i32`, and so does every new position, before and after
/// the docking connectors' pull.
pub open spec fn positions_ok(subs: Seq<SubmarineState>) -> bool {
    &&& subs.len() <= i32::MAX
    &&& forall|i: int, a: int|
        0 <= i < subs.len() && 0 <= a < subs[i].docking_points@.len() ==> match (
        #[trigger] subs[i].docking_points@[a]).connected_to {
            Some(target) => target.0 < subs.len(),
            None => true,
        }
    &&& forall|m: int, g: int|
        0 <= m <= subs.len() && 0 <= g < grouping(subs, m as nat).1.len() ==> fits_i32(
            (#[trigger] grouping(subs, m as nat).1[g]).0,
        ) && fits_i32(grouping(subs, m as nat).1[g].1)
    &&& forall|i: int|
        0 <= i < subs.len() ==> {
            let nav = (#[trigger] subs[i]).navigation;
            let d = group_delta(subs, i);
            &&& fits_i32(nav.position.0 + d.0)
            &&& fits_i32(nav.position.1 + d.1)
            &&& fits_i32(nav.position.0 + d.0 + nav.docking_override.0)
            &&& fits_i32(nav.position.1 + d.1 + nav.docking_override.1)
        }
}

} // verus!

verus! {

pub open spec fn group_view(v: Seq<Option<usize>>) -> Seq<Option<int>> {
    Seq::new(
        v.len(),
        |k: int|
            match v[k] {
                Some(g) => Some(g as int),
                None => None,
            },
    )
}

pub open spec fn speed_view(v: Seq<(i32, i32)>) -> Seq<(int, int)> {
    Seq::new(v.len(), |k: int| (v[k].0 as int, v[k].1 as int))
}

pub open spec fn member_view(v: Seq<i32>) -> Seq<int> {
    Seq::new(v.len(), |k: int| v[k] as int)
}

/// Moves every submarine by the average speed of its docked group, and by
/// its docking connectors' pull (see `moved_position`); docked submarines
/// move together.
pub fn update_position(submarines: &mut Vec<SubmarineState>)
    requires
        positions_ok(old(submarines)@),
    ensures
        final(submarines)@.len() == old(submarines)@.len(),
        forall|i: int|
            0 <= i < final(submarines)@.len() ==> {
                &&& (#[trigger] final(submarines)@[i]).navigation == Navigation {
                    position: moved_position(old(submarines)@, i),
                    ..old(submarines)@[i].navigation
                }
                &&& final(submarines)@[i].objects == old(submarines)@[i].objects
                &&& final(submarines)@[i].docking_points == old(submarines)@[i].docking_points
                &&& same_but_docking(
                    final(submarines)@[i],
                    SubmarineState { navigation: final(submarines)@[i].navigation, ..old(submarines)@[i] },
                )
            },
{
    let ghost subs = submarines@;
    let n = submarines.len();
    let mut submarine_group: Vec<Option<usize>> = Vec::new();
    let mut group_speed: Vec<(i32, i32)> = Vec::new();
    let mut group_members: Vec<i32> = Vec::new();
    let mut k: usize = 0;
    while k < n
        invariant
            k <= n,
            submarine_group@.len() == k,
            forall|m: int| 0 <= m < k ==> (#[trigger] submarine_group@[m]) is None,
        decreases n - k,
    {
        submarine_group.push(None);
        k = k + 1;
    }
    proof {
        assert(group_view(submarine_group@) =~= grouping(subs, 0).0);
        assert(speed_view(group_speed@) =~= grouping(subs, 0).1);
        assert(member_view(group_members@) =~= grouping(subs, 0).2);
    }

    // Assign submarines to groups if they're docked together
    let mut sub_index: usize = 0;
    while sub_index < n
        invariant
            n == submarines@.len(),
            submarines@ == subs,
            positions_ok(subs),
            sub_index <= n,
            submarine_group@.len() == n,
            group_speed@.len() == group_members@.len(),
            group_speed@.len() <= sub_index,
            group_view(submarine_group@) == grouping(subs, sub_index as nat).0,
            speed_view(group_speed@) == grouping(subs, sub_index as nat).1,
            member_view(group_members@) == grouping(subs, sub_index as nat).2,
            forall|m: int| 0 <= m < n ==> match #[trigger] submarine_group@[m] {
                Some(g) => g < group_speed@.len(),
                None => true,
            },
            forall|m: int| 0 <= m < sub_index ==> (#[trigger] submarine_group@[m]) is Some,
            forall|g: int| 0 <= g < group_speed@.len() ==> 1 <= #[trigger] group_members@[g] <= sub_index,
        decreases n - sub_index,
    {
        let ghost before = (group_view(submarine_group@), speed_view(group_speed@), member_view(group_members@));
        let group = match submarine_group[sub_index] {
            Some(group) => group,
            None => {
                group_speed.push((0, 0));
                group_members.push(0);
                group_speed.len() - 1
            },
        };
        submarine_group.set(sub_index, Some(group));
        proof {
            assert(group_view(submarine_group@) =~= before.0.update(sub_index as int, Some(group as int)));
            assert(speed_view(group_speed@) =~= (if before.0[sub_index as int] is Some { before.1 } else { before.1.push((0, 0)) }));
            assert(member_view(group_members@) =~= (if before.0[sub_index as int] is Some { before.2 } else { before.2.push(0) }));
        }
        let ghost base = group_view(submarine_group@);

        let points = &submarines[sub_index].docking_points;
        let m = points.len();
        let mut a: usize = 0;
        while a < m
            invariant
                n == submarines@.len(),
                submarines@ == subs,
                positions_ok(subs),
                sub_index < n,
                m == subs[sub_index as int].docking_points@.len(),
                points@ == subs[sub_index as int].docking_points@,
                a <= m,
                group < group_speed@.len(),
                submarine_group@.len() == n,
                group_view(submarine_group@) == assign_points(base, points@, group as int, a as nat),
                forall|mm: int| 0 <= mm < n ==> match #[trigger] submarine_group@[mm] {
                    Some(g) => g < group_speed@.len(),
                    None => true,
                },
                forall|mm: int| 0 <= mm <= sub_index ==> (#[trigger] submarine_group@[mm]) is Some,
            decreases m - a,
        {
            if let Some((connected_sub_index, _obj_id)) = points[a].connected_to {
                proof {
                    assert(subs[sub_index as int].docking_points@[a as int] == points@[a as int]);
                }
                let ghost g0 = group_view(submarine_group@);
                submarine_group.set(connected_sub_index, Some(group));
                proof {
                    assert(group_view(submarine_group@) =~= g0.update(connected_sub_index as int, Some(group as int)));
                }
            }
            a = a + 1;
        }

        let nav = submarines[sub_index].navigation;
        let (speed_x, speed_y) = group_speed[group];
        proof {
            let next = grouping(subs, (sub_index + 1) as nat);
            assert(next == group_step(grouping(subs, sub_index as nat), sub_index as int, subs[sub_index as int]));
            assert(next.1[group as int] == (speed_x + nav.speed.0, speed_y + nav.speed.1));
            assert(fits_i32(next.1[group as int].0) && fits_i32(next.1[group as int].1));
        }
        group_members.set(group, group_members[group] + 1);
        group_speed.set(group, (speed_x + nav.speed.0, speed_y + nav.speed.1));
        proof {
            assert(group_view(submarine_group@) == grouping(subs, (sub_index + 1) as nat).0);
            assert(speed_view(group_speed@) =~= grouping(subs, (sub_index + 1) as nat).1);
            assert(member_view(group_members@) =~= grouping(subs, (sub_index + 1) as nat).2);
        }
        sub_index = sub_index + 1;
    }

    // Apply the same speed to the whole docked group
    let ghost groups = grouping(subs, n as nat);
    let mut sub_index: usize = 0;
    while sub_index < n
        invariant
            n == submarines@.len(),
            n == subs.len(),
            positions_ok(subs),
            sub_index <= n,
            submarine_group@.len() == n,
            group_speed@.len() == group_members@.len(),
            group_view(submarine_group@) == groups.0,
            speed_view(group_speed@) == groups.1,
            member_view(group_members@) == groups.2,
            groups == grouping(subs, n as nat),
            forall|m: int| 0 <= m < n ==> match #[trigger] submarine_group@[m] {
                Some(g) => g < group_speed@.len(),
                None => true,
            },
            forall|m: int| 0 <= m < n ==> (#[trigger] submarine_group@[m]) is Some,
            forall|g: int| 0 <= g < group_speed@.len() ==> 1 <= #[trigger] group_members@[g],
            forall|m: int|
                sub_index <= m < n ==> #[trigger] submarines@[m] == subs[m],
            forall|m: int|
                0 <= m < sub_index ==> {
                    &&& (#[trigger] submarines@[m]).navigation == Navigation {
                        position: moved_position(subs, m),
                        ..subs[m].navigation
                    }
                    &&& submarines@[m].objects == subs[m].objects
                    &&& submarines@[m].docking_points == subs[m].docking_points
                    &&& same_but_docking(
                        submarines@[m],
                        SubmarineState { navigation: submarines@[m].navigation, ..subs[m] },
                    )
                },
        decreases n - sub_index,
    {
        let group = match submarine_group[sub_index] {
            Some(group) => group,
            None => 0,
        };
        let mut nav = submarines[sub_index].navigation;
        proof {
            assert(submarines@[sub_index as int] == subs[sub_index as int]);
            assert(1 <= group_members@[group as int]);
        }
        let dx = group_speed[group].0 / group_members[group] / 256;
        let dy = group_speed[group].1 / group_members[group] / 256;
        proof {
            assert(submarines@[sub_index as int] == subs[sub_index as int]);
            assert(dx == group_delta(subs, sub_index as int).0);
            assert(dy == group_delta(subs, sub_index as int).1);
        }
        nav.position.0 = nav.position.0 + dx + nav.docking_override.0;
        nav.position.1 = nav.position.1 + dy + nav.docking_override.1;
        submarines[sub_index].navigation = nav;
        sub_index = sub_index + 1;
    }
}

} // verus!
