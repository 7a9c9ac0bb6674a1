//! Laws the solver obeys, stated and proved over the same specification
//! functions its contracts use.
use vstd::prelude::*;
use crate::flat_body::{body_wf, FlatBody};
use crate::flat_world::{
    basic_delta, basic_j, basic_rel_vn, contact_vn, fric_impulse_x, fric_impulse_y, fric_pass,
    fric_skip, rot_impulse_x, rot_impulse_y, rot_pass,
};
use crate::math::{sat, tdiv, INV_MASS_SCALE, UNIT};
use crate::transform::FlatTransform;
use crate::vec2::FlatVec2;

verus! {

/// Resolution is idempotent on already-separating contacts: when every
/// contact of the manifold has positive relative normal velocity, the
/// restitution pass applies no impulse and both bodies come out exactly as
/// they went in.
pub proof fn lemma_separating_contacts_unchanged(
    a0: FlatBody,
    b0: FlatBody,
    ta: FlatTransform,
    tb: FlatTransform,
    cps: Seq<FlatVec2>,
    n: FlatVec2,
    i: int,
)
    requires
        body_wf(a0),
        body_wf(b0),
        forall|k: int| 0 <= k < cps.len() ==> #[trigger] contact_vn(a0, b0, ta, tb, cps[k], n) > 0,
        0 <= i <= cps.len(),
    ensures
        rot_pass(a0, b0, ta, tb, cps, n, i) == (a0, b0),
    decreases i,
{
    if i > 0 {
        lemma_separating_contacts_unchanged(a0, b0, ta, tb, cps, n, i - 1);
        assert(contact_vn(a0, b0, ta, tb, cps[i - 1], n) > 0);
        assert(rot_impulse_x(a0, b0, ta, tb, cps[i - 1], n, cps.len() as int) == 0);
        assert(rot_impulse_y(a0, b0, ta, tb, cps[i - 1], n, cps.len() as int) == 0);
        assert(0int * a0.inv_mass == 0) by (nonlinear_arith);
        assert(0int * b0.inv_mass == 0) by (nonlinear_arith);
        let cp = cps[i - 1];
        assert((cp.x - ta.translation.x) * 0int == 0) by (nonlinear_arith);
        assert((cp.y - ta.translation.y) * 0int == 0) by (nonlinear_arith);
        assert((cp.x - tb.translation.x) * 0int == 0) by (nonlinear_arith);
        assert((cp.y - tb.translation.y) * 0int == 0) by (nonlinear_arith);
    }
}

/// The friction pass is idempotent too when every contact's tangential
/// relative velocity is negligible.
pub proof fn lemma_no_tangential_velocity_unchanged(
    a1: FlatBody,
    b1: FlatBody,
    ta: FlatTransform,
    tb: FlatTransform,
    cps: Seq<FlatVec2>,
    n: FlatVec2,
    jlist: Seq<int>,
    i: int,
)
    requires
        body_wf(a1),
        body_wf(b1),
        forall|k: int| 0 <= k < cps.len() ==> #[trigger] fric_skip(a1, b1, ta, tb, cps[k], n),
        0 <= i <= cps.len(),
    ensures
        fric_pass(a1, b1, ta, tb, cps, n, jlist, i) == (a1, b1),
    decreases i,
{
    if i > 0 {
        lemma_no_tangential_velocity_unchanged(a1, b1, ta, tb, cps, n, jlist, i - 1);
        assert(fric_skip(a1, b1, ta, tb, cps[i - 1], n));
        assert(fric_impulse_x(a1, b1, ta, tb, cps[i - 1], n, cps.len() as int, jlist[i - 1]) == 0);
        assert(fric_impulse_y(a1, b1, ta, tb, cps[i - 1], n, cps.len() as int, jlist[i - 1]) == 0);
        assert(0int * a1.inv_mass == 0) by (nonlinear_arith);
        assert(0int * b1.inv_mass == 0) by (nonlinear_arith);
        let cp = cps[i - 1];
        assert((cp.x - ta.translation.x) * 0int == 0) by (nonlinear_arith);
        assert((cp.y - ta.translation.y) * 0int == 0) by (nonlinear_arith);
        assert((cp.x - tb.translation.x) * 0int == 0) by (nonlinear_arith);
        assert((cp.y - tb.translation.y) * 0int == 0) by (nonlinear_arith);
    }
}

/// The restitution law: in a head-on collision of two equal-mass dynamic
/// bodies with restitution one and opposite velocities, the basic resolver
/// trades the velocities exactly - each body leaves with the other's
/// incoming velocity.
pub proof fn lemma_elastic_head_on_swap(a: FlatBody, b: FlatBody, n: FlatVec2, v: int, m: int)
    requires
        body_wf(a),
        body_wf(b),
        a.body_type is Dynamic,
        b.body_type is Dynamic,
        a.mass == m,
        b.mass == m,
        (INV_MASS_SCALE as int) % m == 0,
        a.restitution == UNIT,
        b.restitution == UNIT,
        0 <= v,
        a.linear_velocity.x == v,
        a.linear_velocity.y == 0,
        b.linear_velocity.x == -v,
        b.linear_velocity.y == 0,
        n == (FlatVec2 { x: UNIT, y: 0 }),
    ensures
        basic_rel_vn(a, b, n) <= 0,
        a.linear_velocity.x - basic_delta(basic_j(a, b, n), n.x as int, a.inv_mass as int) == -v,
        b.linear_velocity.x + basic_delta(basic_j(a, b, n), n.x as int, b.inv_mass as int) == v,
        a.linear_velocity.y - basic_delta(basic_j(a, b, n), n.y as int, a.inv_mass as int) == 0,
        b.linear_velocity.y + basic_delta(basic_j(a, b, n), n.y as int, b.inv_mass as int) == 0,
{
    let u = UNIT as int;
    let im = INV_MASS_SCALE as int;
    let inv = a.inv_mass as int;
    // the stored reciprocal is exact for a divisor of the scale
    assert(inv == im / m);
    assert(m >= 1);
    assert(inv * m == im) by {
        vstd::arithmetic::div_mod::lemma_fundamental_div_mod(im, m);
        assert(im % m == 0);
        assert(m * (im / m) == im);
        assert(m * (im / m) == (im / m) * m) by (nonlinear_arith);
    }
    assert(inv >= 1) by {
        crate::flat_body::lemma_body_reciprocal_bounds(a);
    }
    // relative normal velocity: exactly -2 v
    let num = (b.linear_velocity.x - a.linear_velocity.x) * n.x + (b.linear_velocity.y
        - a.linear_velocity.y) * n.y;
    assert(num == -2 * v * u) by (nonlinear_arith)
        requires
            num == ((-v) - v) * (u as int) + 0 * 0,
    ;
    assert(tdiv(-(2 * v * u), u) == -(2 * v)) by {
        assert((2 * v) * u == 2 * v * u) by (nonlinear_arith);
        vstd::arithmetic::div_mod::lemma_div_by_multiple(2 * v, u);
        assert(-(2 * v * u) <= 0) by (nonlinear_arith)
            requires
                v >= 0,
                u > 0,
        ;
        if 2 * v * u > 0 {
        }
    }
    assert(basic_rel_vn(a, b, n) == -2 * v);
    // the impulse magnitude: exactly 2 m v
    let vn = -2 * v;
    let jnum = -((u + u) * vn * im);
    assert(jnum == 4 * v * u * im) by (nonlinear_arith)
        requires
            jnum == -((u + u) * vn * im),
            vn == -2 * v,
    ;
    let denomu = (inv + inv) * u;
    assert(denomu > 0) by (nonlinear_arith)
        requires
            denomu == (inv + inv) * u,
            inv >= 1,
            u > 0,
    ;
    assert(jnum == (2 * m * v) * denomu) by (nonlinear_arith)
        requires
            jnum == 4 * v * u * im,
            denomu == (inv + inv) * u,
            inv * m == im,
    ;
    assert(tdiv(jnum, denomu) == 2 * m * v) by {
        vstd::arithmetic::div_mod::lemma_div_by_multiple(2 * m * v, denomu);
        assert(jnum >= 0) by (nonlinear_arith)
            requires
                jnum == (2 * m * v) * denomu,
                denomu > 0,
                m >= 1,
                v >= 0,
        ;
    }
    let j = basic_j(a, b, n);
    assert(j == 2 * m * v);
    // the velocity change: exactly 2 v along the normal, none across it
    assert(tdiv(j * u, u) == j) by {
        vstd::arithmetic::div_mod::lemma_div_by_multiple(j, u);
        assert(j * u == j * u);
        assert(j >= 0) by (nonlinear_arith)
            requires
                j == 2 * m * v,
                m >= 1,
                v >= 0,
        ;
    }
    assert(j * inv == (2 * v) * im) by (nonlinear_arith)
        requires
            j == 2 * m * v,
            inv * m == im,
    ;
    assert(tdiv(j * inv, im) == 2 * v) by {
        vstd::arithmetic::div_mod::lemma_div_by_multiple(2 * v, im);
        assert(j * inv >= 0) by (nonlinear_arith)
            requires
                j * inv == (2 * v) * im,
                v >= 0,
                im > 0,
        ;
        assert((2 * v) * im == 2 * v * im) by (nonlinear_arith);
    }
    assert(basic_delta(j, n.x as int, a.inv_mass as int) == 2 * v);
    assert(j * 0 == 0) by (nonlinear_arith);
    assert(tdiv(0, u) == 0);
    assert(0int * inv == 0) by (nonlinear_arith);
    assert(basic_delta(j, n.y as int, a.inv_mass as int) == 0);
}

/// The round-trip law for circles: separating a detected circle-circle
/// overlap (two dynamic bodies, each giving way by half the depth along
/// the normal) never moves the centres closer, so detection on the
/// corrected positions reports a depth no greater than before.
pub proof fn lemma_separation_reduces_circle_overlap(
    pa: FlatVec2,
    radius_a: i64,
    pb: FlatVec2,
    radius_b: i64,
)
    requires
        -crate::math::MAX_COORD <= pa.x <= crate::math::MAX_COORD,
        -crate::math::MAX_COORD <= pa.y <= crate::math::MAX_COORD,
        -crate::math::MAX_COORD <= pb.x <= crate::math::MAX_COORD,
        -crate::math::MAX_COORD <= pb.y <= crate::math::MAX_COORD,
        0 <= radius_a <= crate::math::MAX_SHAPE,
        0 <= radius_b <= crate::math::MAX_SHAPE,
        0 < crate::vec2::dist_sq(pa, pb),
        crate::vec2::dist_sq(pa, pb) < (radius_a + radius_b) * (radius_a + radius_b),
    ensures
        ({
            let u = UNIT as int;
            let rs = radius_a + radius_b;
            let dsq = crate::vec2::dist_sq(pa, pb);
            let d = rs - crate::math::sqrt_floor(dsq);
            let nx = crate::collisions::unit_toward_x(pa, pb);
            let ny = crate::collisions::unit_toward_y(pa, pb);
            let ux = tdiv(tdiv(nx * d, u), 2);
            let uy = tdiv(tdiv(ny * d, u), 2);
            let pax2 = sat(pa.x + tdiv(tdiv(-nx * d, u), 2));
            let pay2 = sat(pa.y + tdiv(tdiv(-ny * d, u), 2));
            let pbx2 = sat(pb.x + tdiv(tdiv(nx * d, u), 2));
            let pby2 = sat(pb.y + tdiv(tdiv(ny * d, u), 2));
            let dsq2 = (pbx2 - pax2) * (pbx2 - pax2) + (pby2 - pay2) * (pby2 - pay2);
            dsq2 >= dsq && rs - crate::math::sqrt_floor(dsq2) <= d
        }),
{
    let u = UNIT as int;
    let rs = radius_a + radius_b;
    let dsq = crate::vec2::dist_sq(pa, pb);
    let d = rs - crate::math::sqrt_floor(dsq);
    let nx = crate::collisions::unit_toward_x(pa, pb);
    let ny = crate::collisions::unit_toward_y(pa, pb);
    let dx = pb.x - pa.x;
    let dy = pb.y - pa.y;
    crate::math::lemma_sqrt_floor(dsq);
    crate::collisions::lemma_unit_toward_bounds(pa, pb);
    assert(crate::math::sqrt_floor(dsq) >= 1) by {
        if crate::math::sqrt_floor(dsq) == 0 {
            assert((crate::math::sqrt_floor(dsq) + 1) * (crate::math::sqrt_floor(dsq) + 1) == 1)
                by (nonlinear_arith)
                requires
                    crate::math::sqrt_floor(dsq) == 0,
            ;
            assert(false);
        }
    }
    assert(crate::math::sqrt_floor(dsq) < rs) by (nonlinear_arith)
        requires
            crate::math::sqrt_floor(dsq) * crate::math::sqrt_floor(dsq) <= dsq,
            dsq < rs * rs,
            crate::math::sqrt_floor(dsq) >= 0,
            rs >= 0,
    ;
    assert(1 <= d <= rs);
    // the half-depth push along each component
    crate::math::lemma_mul_bound(nx, d, u, rs);
    crate::math::lemma_mul_bound(ny, d, u, rs);
    crate::math::lemma_tdiv_bound(nx * d, u, u * rs);
    crate::math::lemma_tdiv_bound(ny * d, u, u * rs);
    vstd::arithmetic::div_mod::lemma_div_by_multiple(rs, u);
    assert(u * rs == rs * u) by (nonlinear_arith);
    let ux = tdiv(tdiv(nx * d, u), 2);
    let uy = tdiv(tdiv(ny * d, u), 2);
    crate::math::lemma_tdiv_bound(tdiv(nx * d, u), 2, rs);
    crate::math::lemma_tdiv_bound(tdiv(ny * d, u), 2, rs);
    crate::math::lemma_tdiv_neg(nx * d, u);
    crate::math::lemma_tdiv_neg(tdiv(nx * d, u), 2);
    crate::math::lemma_tdiv_neg(ny * d, u);
    crate::math::lemma_tdiv_neg(tdiv(ny * d, u), 2);
    assert((-nx) * d == -(nx * d)) by (nonlinear_arith);
    assert((-ny) * d == -(ny * d)) by (nonlinear_arith);
    let pax2 = sat(pa.x + tdiv(tdiv(-nx * d, u), 2));
    let pay2 = sat(pa.y + tdiv(tdiv(-ny * d, u), 2));
    let pbx2 = sat(pb.x + tdiv(tdiv(nx * d, u), 2));
    let pby2 = sat(pb.y + tdiv(tdiv(ny * d, u), 2));
    assert(pax2 == sat(pa.x - ux) && pay2 == sat(pa.y - uy) && pbx2 == sat(pb.x + ux) && pby2
        == sat(pb.y + uy));
    // each push shares the sign of the matching coordinate difference
    crate::math::lemma_tdiv_sign(nx * d, u);
    crate::math::lemma_tdiv_sign(tdiv(nx * d, u), 2);
    crate::math::lemma_tdiv_sign(ny * d, u);
    crate::math::lemma_tdiv_sign(tdiv(ny * d, u), 2);
    assert((nx >= 0 ==> nx * d >= 0) && (nx <= 0 ==> nx * d <= 0)) by (nonlinear_arith)
        requires
            d >= 1,
    ;
    assert((ny >= 0 ==> ny * d >= 0) && (ny <= 0 ==> ny * d <= 0)) by (nonlinear_arith)
        requires
            d >= 1,
    ;
    // even where saturation shortens a push, each centre still moves away
    // (or stays put) along each coordinate, so the gap cannot narrow
    let dx2 = pbx2 - pax2;
    let dy2 = pby2 - pay2;
    if dx > 0 {
        assert(nx >= 0) by (nonlinear_arith)
            requires
                nx * dx >= 0,
                dx > 0,
        ;
        assert(ux >= 0);
        assert(pbx2 >= pb.x && pax2 <= pa.x);
        assert(dx2 * dx2 >= dx * dx) by (nonlinear_arith)
            requires
                dx2 >= dx,
                dx > 0,
        ;
    } else if dx < 0 {
        assert(nx <= 0) by (nonlinear_arith)
            requires
                nx * dx >= 0,
                dx < 0,
        ;
        assert(ux <= 0);
        assert(pbx2 <= pb.x && pax2 >= pa.x);
        assert(dx2 * dx2 >= dx * dx) by (nonlinear_arith)
            requires
                dx2 <= dx,
                dx < 0,
        ;
    } else {
        assert(nx == 0) by {
            assert(dx * u == 0) by (nonlinear_arith)
                requires
                    dx == 0,
            ;
            vstd::arithmetic::div_mod::lemma_div_basics(crate::math::sqrt_floor(dsq));
        }
        assert(ux == 0) by {
            vstd::arithmetic::div_mod::lemma_div_basics(u);
            vstd::arithmetic::div_mod::lemma_div_basics(2);
        }
        assert(dx2 == 0);
        assert(dx2 * dx2 >= dx * dx) by (nonlinear_arith)
            requires
                dx2 == 0,
                dx == 0,
        ;
    }
    if dy > 0 {
        assert(ny >= 0) by (nonlinear_arith)
            requires
                ny * dy >= 0,
                dy > 0,
        ;
        assert(uy >= 0);
        assert(pby2 >= pb.y && pay2 <= pa.y);
        assert(dy2 * dy2 >= dy * dy) by (nonlinear_arith)
            requires
                dy2 >= dy,
                dy > 0,
        ;
    } else if dy < 0 {
        assert(ny <= 0) by (nonlinear_arith)
            requires
                ny * dy >= 0,
                dy < 0,
        ;
        assert(uy <= 0);
        assert(pby2 <= pb.y && pay2 >= pa.y);
        assert(dy2 * dy2 >= dy * dy) by (nonlinear_arith)
            requires
                dy2 <= dy,
                dy < 0,
        ;
    } else {
        assert(ny == 0) by {
            assert(dy * u == 0) by (nonlinear_arith)
                requires
                    dy == 0,
            ;
            vstd::arithmetic::div_mod::lemma_div_basics(crate::math::sqrt_floor(dsq));
        }
        assert(uy == 0) by {
            vstd::arithmetic::div_mod::lemma_div_basics(u);
            vstd::arithmetic::div_mod::lemma_div_basics(2);
        }
        assert(dy2 == 0);
        assert(dy2 * dy2 >= dy * dy) by (nonlinear_arith)
            requires
                dy2 == 0,
                dy == 0,
        ;
    }
    let dsq2 = (pbx2 - pax2) * (pbx2 - pax2) + (pby2 - pay2) * (pby2 - pay2);
    assert(dsq2 >= dsq);
    crate::math::lemma_sqrt_floor_ordered(dsq, dsq2);
}

/// The separating-axis law for axis-aligned boxes: whenever two unrotated
/// boxes are strictly apart on either axis, one of the candidate axes of
/// the polygon test separates the projections of their world vertices, so
/// detection reports no collision on them.
pub proof fn lemma_separated_boxes_no_collision(
    ta: FlatTransform,
    bpa: crate::flat_body::BoxParams,
    tb: FlatTransform,
    bpb: crate::flat_body::BoxParams,
)
    requires
        crate::transform::transform_in_range(ta),
        crate::transform::transform_in_range(tb),
        crate::collisions::shape_wf(crate::collisions::Shape::Box(bpa)),
        crate::collisions::shape_wf(crate::collisions::Shape::Box(bpb)),
        ta.rotation == 0,
        tb.rotation == 0,
        1 <= bpa.width && 1 <= bpa.height,
        1 <= bpb.width && 1 <= bpb.height,
        ({
            let a_max_x = ta.translation.x + bpa.width - bpa.width as int / 2;
            let a_min_x = ta.translation.x - bpa.width as int / 2;
            let a_max_y = ta.translation.y + bpa.height - bpa.height as int / 2;
            let a_min_y = ta.translation.y - bpa.height as int / 2;
            let b_max_x = tb.translation.x + bpb.width - bpb.width as int / 2;
            let b_min_x = tb.translation.x - bpb.width as int / 2;
            let b_max_y = tb.translation.y + bpb.height - bpb.height as int / 2;
            let b_min_y = tb.translation.y - bpb.height as int / 2;
            a_max_x <= b_min_x || b_max_x <= a_min_x || a_max_y <= b_min_y || b_max_y <= a_min_y
        }),
    ensures
        exists|k: int|
            0 <= k < 8 && #[trigger] crate::collisions::pp_axis_len_sq(
                crate::collisions::box_world_verts(ta, bpa),
                crate::collisions::box_world_verts(tb, bpb),
                k,
            ) != 0 && crate::collisions::pp_separated(
                crate::collisions::box_world_verts(ta, bpa),
                crate::collisions::box_world_verts(tb, bpb),
                k,
            ),
{
    crate::math::lemma_trig_at_zero();
    let u = UNIT as int;
    let wa = crate::collisions::box_world_verts(ta, bpa);
    let wb = crate::collisions::box_world_verts(tb, bpb);
    // with no rotation every world vertex is its local corner translated
    assert forall|i: int| 0 <= i < 4 implies (#[trigger] wa[i]).x == bpa.verticies@[i].x
        + ta.translation.x && wa[i].y == bpa.verticies@[i].y + ta.translation.y by {
        assert(bpa.verticies@[i].y * 0 == 0) by (nonlinear_arith);
        assert(bpa.verticies@[i].x * 0 == 0) by (nonlinear_arith);
        crate::math::lemma_tdiv_multiple(bpa.verticies@[i].x as int, u);
        crate::math::lemma_tdiv_multiple(bpa.verticies@[i].y as int, u);
        assert(crate::transform::world_x(ta, bpa.verticies@[i]) == bpa.verticies@[i].x
            + ta.translation.x);
        assert(crate::transform::world_y(ta, bpa.verticies@[i]) == bpa.verticies@[i].y
            + ta.translation.y);
    }
    assert forall|i: int| 0 <= i < 4 implies (#[trigger] wb[i]).x == bpb.verticies@[i].x
        + tb.translation.x && wb[i].y == bpb.verticies@[i].y + tb.translation.y by {
        assert(bpb.verticies@[i].y * 0 == 0) by (nonlinear_arith);
        assert(bpb.verticies@[i].x * 0 == 0) by (nonlinear_arith);
        crate::math::lemma_tdiv_multiple(bpb.verticies@[i].x as int, u);
        crate::math::lemma_tdiv_multiple(bpb.verticies@[i].y as int, u);
        assert(crate::transform::world_x(tb, bpb.verticies@[i]) == bpb.verticies@[i].x
            + tb.translation.x);
        assert(crate::transform::world_y(tb, bpb.verticies@[i]) == bpb.verticies@[i].y
            + tb.translation.y);
    }
    let a_max_x = ta.translation.x + bpa.width - bpa.width as int / 2;
    let a_min_x = ta.translation.x - bpa.width as int / 2;
    let b_max_x = tb.translation.x + bpb.width - bpb.width as int / 2;
    let b_min_x = tb.translation.x - bpb.width as int / 2;
    if a_max_x <= b_min_x || b_max_x <= a_min_x {
        // the perpendicular of the first box's right edge is horizontal
        let ax = crate::collisions::pp_axis_x(wa, wb, 1);
        let ay = crate::collisions::pp_axis_y(wa, wb, 1);
        assert(ax == bpa.height && ay == 0);
        assert(crate::collisions::pp_axis_len_sq(wa, wb, 1) == bpa.height * bpa.height + 0 * 0);
        assert(bpa.height * bpa.height >= 1) by (nonlinear_arith)
            requires
                bpa.height >= 1,
        ;
        assert(0int * 0int == 0) by (nonlinear_arith);
        assert forall|v: FlatVec2, w2: FlatVec2| v.x <= w2.x implies #[trigger] crate::collisions::vdot(
            v,
            ax,
            ay,
        ) <= #[trigger] crate::collisions::vdot(w2, ax, ay) by {
            vstd::arithmetic::mul::lemma_mul_inequality(v.x as int, w2.x as int, ax);
            assert(v.y * 0 == 0) by (nonlinear_arith);
            assert(w2.y * 0 == 0) by (nonlinear_arith);
        }
        assert(crate::collisions::pp_separated(wa, wb, 1));
        assert(crate::collisions::pp_axis_len_sq(wa, wb, 1) != 0);
    } else {
        // apart on y: the perpendicular of the first box's top edge is vertical
        let ax = crate::collisions::pp_axis_x(wa, wb, 0);
        let ay = crate::collisions::pp_axis_y(wa, wb, 0);
        assert(ax == 0 && ay == bpa.width);
        assert(crate::collisions::pp_axis_len_sq(wa, wb, 0) == 0 * 0 + bpa.width * bpa.width);
        assert(bpa.width * bpa.width >= 1) by (nonlinear_arith)
            requires
                bpa.width >= 1,
        ;
        assert(0int * 0int == 0) by (nonlinear_arith);
        assert forall|v: FlatVec2, w2: FlatVec2| v.y <= w2.y implies #[trigger] crate::collisions::vdot(
            v,
            ax,
            ay,
        ) <= #[trigger] crate::collisions::vdot(w2, ax, ay) by {
            vstd::arithmetic::mul::lemma_mul_inequality(v.y as int, w2.y as int, ay);
            assert(v.x * 0 == 0) by (nonlinear_arith);
            assert(w2.x * 0 == 0) by (nonlinear_arith);
        }
        assert(crate::collisions::pp_separated(wa, wb, 0));
        assert(crate::collisions::pp_axis_len_sq(wa, wb, 0) != 0);
    }
}

/// The same law at the dispatcher: on two separated unrotated boxes the
/// narrow-phase outcome is no collision, so `collide` must return nothing
/// for them.
pub proof fn lemma_separated_boxes_collide_none(
    ta: FlatTransform,
    bpa: crate::flat_body::BoxParams,
    tb: FlatTransform,
    bpb: crate::flat_body::BoxParams,
)
    requires
        crate::transform::transform_in_range(ta),
        crate::transform::transform_in_range(tb),
        crate::collisions::shape_wf(crate::collisions::Shape::Box(bpa)),
        crate::collisions::shape_wf(crate::collisions::Shape::Box(bpb)),
        ta.rotation == 0,
        tb.rotation == 0,
        1 <= bpa.width && 1 <= bpa.height,
        1 <= bpb.width && 1 <= bpb.height,
        ({
            let a_max_x = ta.translation.x + bpa.width - bpa.width as int / 2;
            let a_min_x = ta.translation.x - bpa.width as int / 2;
            let a_max_y = ta.translation.y + bpa.height - bpa.height as int / 2;
            let a_min_y = ta.translation.y - bpa.height as int / 2;
            let b_max_x = tb.translation.x + bpb.width - bpb.width as int / 2;
            let b_min_x = tb.translation.x - bpb.width as int / 2;
            let b_max_y = tb.translation.y + bpb.height - bpb.height as int / 2;
            let b_min_y = tb.translation.y - bpb.height as int / 2;
            a_max_x <= b_min_x || b_max_x <= a_min_x || a_max_y <= b_min_y || b_max_y <= a_min_y
        }),
    ensures
        crate::flat_world::collide_spec(
            ta,
            crate::collisions::Shape::Box(bpa),
            tb,
            crate::collisions::Shape::Box(bpb),
        ) is None,
{
    lemma_separated_boxes_no_collision(ta, bpa, tb, bpb);
}

} // verus!
