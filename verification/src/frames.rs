//! Coordinate frames and the rigid transforms between them.
//!
//! Four frames appear in the pipeline: the scanner's own coordinate system
//! (SOCS) in which raw points arrive, the project reference coordinate
//! system (PRCS) after a scan position's extrinsic transform, the global
//! coordinate system (GLCS) after the project-wide transform, and the
//! camera-mount coordinate system (CMCS) in which a point is expressed
//! relative to a thermal camera. Points are tagged with their frame by
//! distinct types, so a transform can only be applied from the frame it is
//! valid for.
//!
//! A rigid transform is a 3x3 rotation matrix with entries scaled by
//! `ROT_DEN` plus a translation in micrometers. Applying it computes
//! `R p / ROT_DEN + t` with floor division, and the contracts give that
//! formula exactly.

use vstd::prelude::*;
use crate::fixed::{
    ROT_DEN, TRANS_LIMIT, POINT_LIMIT, APPLY_LIMIT, RESULT_LIMIT, floor_div_i128,
    lemma_mul_bound, lemma_div_bound,
};

verus! {

/// A point in the scanner's own coordinate system, in micrometers.
#[derive(Clone, Copy, PartialEq, Eq, Structural, Debug)]
pub struct SocsPoint {
    pub x: i64,
    pub y: i64,
    pub z: i64,
}

/// A point in the project reference coordinate system, in micrometers.
#[derive(Clone, Copy, PartialEq, Eq, Structural, Debug)]
pub struct PrcsPoint {
    pub x: i64,
    pub y: i64,
    pub z: i64,
}

/// A point in the global coordinate system, in micrometers.
#[derive(Clone, Copy, PartialEq, Eq, Structural, Debug)]
pub struct GlcsPoint {
    pub x: i64,
    pub y: i64,
    pub z: i64,
}

/// A point in a camera-mount coordinate system, in micrometers.
#[derive(Clone, Copy, PartialEq, Eq, Structural, Debug)]
pub struct CmcsPoint {
    pub x: i64,
    pub y: i64,
    pub z: i64,
}

/// A rigid transform: rotation entries `rNM` scaled by `ROT_DEN`, and a
/// translation `(tx, ty, tz)` in micrometers.
#[derive(Clone, Copy, PartialEq, Eq, Structural, Debug)]
pub struct RigidTransform {
    pub r00: i64,
    pub r01: i64,
    pub r02: i64,
    pub r10: i64,
    pub r11: i64,
    pub r12: i64,
    pub r20: i64,
    pub r21: i64,
    pub r22: i64,
    pub tx: i64,
    pub ty: i64,
    pub tz: i64,
}

impl RigidTransform {
    /// Every rotation entry is a fraction of magnitude at most one, and the
    /// translation stays within `TRANS_LIMIT`.
    pub open spec fn wf(self) -> bool {
        &&& -ROT_DEN <= self.r00 <= ROT_DEN
        &&& -ROT_DEN <= self.r01 <= ROT_DEN
        &&& -ROT_DEN <= self.r02 <= ROT_DEN
        &&& -ROT_DEN <= self.r10 <= ROT_DEN
        &&& -ROT_DEN <= self.r11 <= ROT_DEN
        &&& -ROT_DEN <= self.r12 <= ROT_DEN
        &&& -ROT_DEN <= self.r20 <= ROT_DEN
        &&& -ROT_DEN <= self.r21 <= ROT_DEN
        &&& -ROT_DEN <= self.r22 <= ROT_DEN
        &&& -TRANS_LIMIT <= self.tx <= TRANS_LIMIT
        &&& -TRANS_LIMIT <= self.ty <= TRANS_LIMIT
        &&& -TRANS_LIMIT <= self.tz <= TRANS_LIMIT
    }

    /// The rotation part is exactly orthonormal in the fixed-point
    /// representation: the columns are pairwise orthogonal and each has
    /// squared length `ROT_DEN * ROT_DEN`. This holds of the identity, of
    /// axis permutations and sign flips, and of any rotation whose entries
    /// happen to be exactly representable; a rotation rounded to the grid
    /// in general only approximates it.
    pub open spec fn orthonormal(self) -> bool {
        let d: int = (ROT_DEN * ROT_DEN) as int;
        &&& self.r00 * self.r00 + self.r10 * self.r10 + self.r20 * self.r20 == d
        &&& self.r01 * self.r01 + self.r11 * self.r11 + self.r21 * self.r21 == d
        &&& self.r02 * self.r02 + self.r12 * self.r12 + self.r22 * self.r22 == d
        &&& self.r00 * self.r01 + self.r10 * self.r11 + self.r20 * self.r21 == 0
        &&& self.r00 * self.r02 + self.r10 * self.r12 + self.r20 * self.r22 == 0
        &&& self.r01 * self.r02 + self.r11 * self.r12 + self.r21 * self.r22 == 0
    }
}

/// The x coordinate of a rigid transform applied to `(x, y, z)`.
pub open spec fn apply_x(t: RigidTransform, x: int, y: int, z: int) -> int {
    (t.r00 * x + t.r01 * y + t.r02 * z) / (ROT_DEN as int) + t.tx
}

/// The y coordinate of a rigid transform applied to `(x, y, z)`.
pub open spec fn apply_y(t: RigidTransform, x: int, y: int, z: int) -> int {
    (t.r10 * x + t.r11 * y + t.r12 * z) / (ROT_DEN as int) + t.ty
}

/// The z coordinate of a rigid transform applied to `(x, y, z)`.
pub open spec fn apply_z(t: RigidTransform, x: int, y: int, z: int) -> int {
    (t.r20 * x + t.r21 * y + t.r22 * z) / (ROT_DEN as int) + t.tz
}

/// Coordinates bounded in magnitude by `limit`.
pub open spec fn coords_bounded(x: int, y: int, z: int, limit: int) -> bool {
    &&& -limit <= x <= limit
    &&& -limit <= y <= limit
    &&& -limit <= z <= limit
}

/// Applies the rotation-plus-translation formula to raw coordinates.
fn apply_coords(t: &RigidTransform, x: i64, y: i64, z: i64) -> (r: (i64, i64, i64))
    requires
        t.wf(),
        coords_bounded(x as int, y as int, z as int, APPLY_LIMIT as int),
    ensures
        r.0 == apply_x(*t, x as int, y as int, z as int),
        r.1 == apply_y(*t, x as int, y as int, z as int),
        r.2 == apply_z(*t, x as int, y as int, z as int),
        coords_bounded(r.0 as int, r.1 as int, r.2 as int, RESULT_LIMIT as int),
{
    proof {
        lemma_products_bounded(*t, x as int, y as int, z as int, APPLY_LIMIT as int);
        lemma_apply_within(*t, x as int, y as int, z as int, APPLY_LIMIT as int);
        assert(3 * (APPLY_LIMIT as int) + TRANS_LIMIT + 1 <= RESULT_LIMIT);
    }
    let nx = floor_div_i128(
        t.r00 as i128 * x as i128 + t.r01 as i128 * y as i128 + t.r02 as i128 * z as i128,
        ROT_DEN as i128,
    ) + t.tx as i128;
    let ny = floor_div_i128(
        t.r10 as i128 * x as i128 + t.r11 as i128 * y as i128 + t.r12 as i128 * z as i128,
        ROT_DEN as i128,
    ) + t.ty as i128;
    let nz = floor_div_i128(
        t.r20 as i128 * x as i128 + t.r21 as i128 * y as i128 + t.r22 as i128 * z as i128,
        ROT_DEN as i128,
    ) + t.tz as i128;
    (nx as i64, ny as i64, nz as i64)
}

/// Every rotation entry times every coordinate is bounded by
/// `ROT_DEN * lim`.
proof fn lemma_products_bounded(t: RigidTransform, x: int, y: int, z: int, lim: int)
    requires
        t.wf(),
        0 <= lim,
        coords_bounded(x, y, z, lim),
    ensures
        -(ROT_DEN * lim) <= t.r00 * x <= ROT_DEN * lim,
        -(ROT_DEN * lim) <= t.r01 * y <= ROT_DEN * lim,
        -(ROT_DEN * lim) <= t.r02 * z <= ROT_DEN * lim,
        -(ROT_DEN * lim) <= t.r10 * x <= ROT_DEN * lim,
        -(ROT_DEN * lim) <= t.r11 * y <= ROT_DEN * lim,
        -(ROT_DEN * lim) <= t.r12 * z <= ROT_DEN * lim,
        -(ROT_DEN * lim) <= t.r20 * x <= ROT_DEN * lim,
        -(ROT_DEN * lim) <= t.r21 * y <= ROT_DEN * lim,
        -(ROT_DEN * lim) <= t.r22 * z <= ROT_DEN * lim,
{
    lemma_mul_bound(t.r00 as int, x, ROT_DEN as int, lim);
    lemma_mul_bound(t.r01 as int, y, ROT_DEN as int, lim);
    lemma_mul_bound(t.r02 as int, z, ROT_DEN as int, lim);
    lemma_mul_bound(t.r10 as int, x, ROT_DEN as int, lim);
    lemma_mul_bound(t.r11 as int, y, ROT_DEN as int, lim);
    lemma_mul_bound(t.r12 as int, z, ROT_DEN as int, lim);
    lemma_mul_bound(t.r20 as int, x, ROT_DEN as int, lim);
    lemma_mul_bound(t.r21 as int, y, ROT_DEN as int, lim);
    lemma_mul_bound(t.r22 as int, z, ROT_DEN as int, lim);
}

/// Applying a well-formed transform to coordinates within `lim` yields
/// coordinates within `3 * lim + TRANS_LIMIT + 1`.
pub proof fn lemma_apply_within(t: RigidTransform, x: int, y: int, z: int, lim: int)
    requires
        t.wf(),
        0 <= lim,
        coords_bounded(x, y, z, lim),
    ensures
        coords_bounded(
            apply_x(t, x, y, z),
            apply_y(t, x, y, z),
            apply_z(t, x, y, z),
            3 * lim + TRANS_LIMIT + 1,
        ),
{
    lemma_row_bound(t.r00 as int, t.r01 as int, t.r02 as int, t.tx as int, x, y, z, lim);
    lemma_row_bound(t.r10 as int, t.r11 as int, t.r12 as int, t.ty as int, x, y, z, lim);
    lemma_row_bound(t.r20 as int, t.r21 as int, t.r22 as int, t.tz as int, x, y, z, lim);
}

/// One row of the transform formula stays within `3 * lim + TRANS_LIMIT + 1`.
proof fn lemma_row_bound(a: int, b: int, c: int, tr: int, x: int, y: int, z: int, lim: int)
    requires
        -ROT_DEN <= a <= ROT_DEN,
        -ROT_DEN <= b <= ROT_DEN,
        -ROT_DEN <= c <= ROT_DEN,
        -TRANS_LIMIT <= tr <= TRANS_LIMIT,
        0 <= lim,
        coords_bounded(x, y, z, lim),
    ensures
        -(3 * lim + TRANS_LIMIT + 1) <= (a * x + b * y + c * z) / (ROT_DEN as int) + tr
            <= 3 * lim + TRANS_LIMIT + 1,
{
    let scaled: int = (ROT_DEN as int) * lim;
    lemma_mul_bound(a, x, ROT_DEN as int, lim);
    lemma_mul_bound(b, y, ROT_DEN as int, lim);
    lemma_mul_bound(c, z, ROT_DEN as int, lim);
    lemma_div_bound(a * x + b * y + c * z, ROT_DEN as int, 3 * scaled);
    assert((3 * scaled) / (ROT_DEN as int) == 3 * lim) by (nonlinear_arith)
        requires
            scaled == (ROT_DEN as int) * lim,
            ROT_DEN > 0,
            lim >= 0,
    ;
}

/// Moves a scanner-frame point into the project frame through a scan
/// position's extrinsic transform.
pub fn scanner_to_project(p: &SocsPoint, sop: &RigidTransform) -> (r: PrcsPoint)
    requires
        sop.wf(),
        coords_bounded(p.x as int, p.y as int, p.z as int, APPLY_LIMIT as int),
    ensures
        r.x == apply_x(*sop, p.x as int, p.y as int, p.z as int),
        r.y == apply_y(*sop, p.x as int, p.y as int, p.z as int),
        r.z == apply_z(*sop, p.x as int, p.y as int, p.z as int),
        coords_bounded(r.x as int, r.y as int, r.z as int, RESULT_LIMIT as int),
{
    let (x, y, z) = apply_coords(sop, p.x, p.y, p.z);
    PrcsPoint { x, y, z }
}

/// Moves a project-frame point into the global frame through the
/// project-wide transform.
pub fn project_to_global(p: &PrcsPoint, pop: &RigidTransform) -> (r: GlcsPoint)
    requires
        pop.wf(),
        coords_bounded(p.x as int, p.y as int, p.z as int, APPLY_LIMIT as int),
    ensures
        r.x == apply_x(*pop, p.x as int, p.y as int, p.z as int),
        r.y == apply_y(*pop, p.x as int, p.y as int, p.z as int),
        r.z == apply_z(*pop, p.x as int, p.y as int, p.z as int),
        coords_bounded(r.x as int, r.y as int, r.z as int, RESULT_LIMIT as int),
{
    let (x, y, z) = apply_coords(pop, p.x, p.y, p.z);
    GlcsPoint { x, y, z }
}

/// Moves a scanner-frame point into a camera's mount frame: first the
/// camera-origin transform, then the mount calibration.
pub fn scanner_to_camera_mount(
    p: &SocsPoint,
    cop: &RigidTransform,
    mount: &RigidTransform,
) -> (r: CmcsPoint)
    requires
        cop.wf(),
        mount.wf(),
        coords_bounded(p.x as int, p.y as int, p.z as int, POINT_LIMIT as int),
    ensures
        ({
            let mx = apply_x(*cop, p.x as int, p.y as int, p.z as int);
            let my = apply_y(*cop, p.x as int, p.y as int, p.z as int);
            let mz = apply_z(*cop, p.x as int, p.y as int, p.z as int);
            &&& r.x == apply_x(*mount, mx, my, mz)
            &&& r.y == apply_y(*mount, mx, my, mz)
            &&& r.z == apply_z(*mount, mx, my, mz)
        }),
        coords_bounded(r.x as int, r.y as int, r.z as int, RESULT_LIMIT as int),
{
    proof {
        lemma_apply_within(*cop, p.x as int, p.y as int, p.z as int, POINT_LIMIT as int);
    }
    let (mx, my, mz) = apply_coords(cop, p.x, p.y, p.z);
    let (x, y, z) = apply_coords(mount, mx, my, mz);
    CmcsPoint { x, y, z }
}

/// The inverse of a rigid transform with an orthonormal rotation: the
/// transposed rotation, and the negated back-rotated translation.
///
/// The translation must leave room for the back-rotation, which can grow
/// it by a factor of three; a quarter of `TRANS_LIMIT` is still about 274
/// kilometers.
pub fn inverse(t: &RigidTransform) -> (r: RigidTransform)
    requires
        t.wf(),
        -TRANS_LIMIT / 4 <= t.tx <= TRANS_LIMIT / 4,
        -TRANS_LIMIT / 4 <= t.ty <= TRANS_LIMIT / 4,
        -TRANS_LIMIT / 4 <= t.tz <= TRANS_LIMIT / 4,
    ensures
        r.r00 == t.r00 && r.r01 == t.r10 && r.r02 == t.r20,
        r.r10 == t.r01 && r.r11 == t.r11 && r.r12 == t.r21,
        r.r20 == t.r02 && r.r21 == t.r12 && r.r22 == t.r22,
        r.tx == -((t.r00 * t.tx + t.r10 * t.ty + t.r20 * t.tz) / (ROT_DEN as int)),
        r.ty == -((t.r01 * t.tx + t.r11 * t.ty + t.r21 * t.tz) / (ROT_DEN as int)),
        r.tz == -((t.r02 * t.tx + t.r12 * t.ty + t.r22 * t.tz) / (ROT_DEN as int)),
        is_inverse_of(r, *t),
        r.wf(),
{
    proof {
        let quarter: int = (TRANS_LIMIT / 4) as int;
        lemma_mul_bound(t.r00 as int, t.tx as int, ROT_DEN as int, quarter);
        lemma_mul_bound(t.r10 as int, t.ty as int, ROT_DEN as int, quarter);
        lemma_mul_bound(t.r20 as int, t.tz as int, ROT_DEN as int, quarter);
        lemma_mul_bound(t.r01 as int, t.tx as int, ROT_DEN as int, quarter);
        lemma_mul_bound(t.r11 as int, t.ty as int, ROT_DEN as int, quarter);
        lemma_mul_bound(t.r21 as int, t.tz as int, ROT_DEN as int, quarter);
        lemma_mul_bound(t.r02 as int, t.tx as int, ROT_DEN as int, quarter);
        lemma_mul_bound(t.r12 as int, t.ty as int, ROT_DEN as int, quarter);
        lemma_mul_bound(t.r22 as int, t.tz as int, ROT_DEN as int, quarter);
        lemma_back_translation_bounds(*t);
    }
    let tx = -floor_div_i128(
        t.r00 as i128 * t.tx as i128 + t.r10 as i128 * t.ty as i128 + t.r20 as i128 * t.tz as i128,
        ROT_DEN as i128,
    );
    let ty = -floor_div_i128(
        t.r01 as i128 * t.tx as i128 + t.r11 as i128 * t.ty as i128 + t.r21 as i128 * t.tz as i128,
        ROT_DEN as i128,
    );
    let tz = -floor_div_i128(
        t.r02 as i128 * t.tx as i128 + t.r12 as i128 * t.ty as i128 + t.r22 as i128 * t.tz as i128,
        ROT_DEN as i128,
    );
    RigidTransform {
        r00: t.r00,
        r01: t.r10,
        r02: t.r20,
        r10: t.r01,
        r11: t.r11,
        r12: t.r21,
        r20: t.r02,
        r21: t.r12,
        r22: t.r22,
        tx: tx as i64,
        ty: ty as i64,
        tz: tz as i64,
    }
}

/// The back-rotated translation of a transform whose translation is within
/// a quarter of `TRANS_LIMIT` stays within `TRANS_LIMIT`.
proof fn lemma_back_translation_bounds(t: RigidTransform)
    requires
        t.wf(),
        -TRANS_LIMIT / 4 <= t.tx <= TRANS_LIMIT / 4,
        -TRANS_LIMIT / 4 <= t.ty <= TRANS_LIMIT / 4,
        -TRANS_LIMIT / 4 <= t.tz <= TRANS_LIMIT / 4,
    ensures
        -TRANS_LIMIT <= (t.r00 * t.tx + t.r10 * t.ty + t.r20 * t.tz) / (ROT_DEN as int)
            <= TRANS_LIMIT,
        -TRANS_LIMIT <= (t.r01 * t.tx + t.r11 * t.ty + t.r21 * t.tz) / (ROT_DEN as int)
            <= TRANS_LIMIT,
        -TRANS_LIMIT <= (t.r02 * t.tx + t.r12 * t.ty + t.r22 * t.tz) / (ROT_DEN as int)
            <= TRANS_LIMIT,
{
    lemma_back_row_bound(t.r00 as int, t.r10 as int, t.r20 as int, t.tx as int, t.ty as int, t.tz as int);
    lemma_back_row_bound(t.r01 as int, t.r11 as int, t.r21 as int, t.tx as int, t.ty as int, t.tz as int);
    lemma_back_row_bound(t.r02 as int, t.r12 as int, t.r22 as int, t.tx as int, t.ty as int, t.tz as int);
}

/// One column's dot product with the translation, divided by `ROT_DEN`,
/// is within three times the translation bound plus one.
proof fn lemma_back_row_bound(a: int, b: int, c: int, tx: int, ty: int, tz: int)
    requires
        -ROT_DEN <= a <= ROT_DEN,
        -ROT_DEN <= b <= ROT_DEN,
        -ROT_DEN <= c <= ROT_DEN,
        -TRANS_LIMIT / 4 <= tx <= TRANS_LIMIT / 4,
        -TRANS_LIMIT / 4 <= ty <= TRANS_LIMIT / 4,
        -TRANS_LIMIT / 4 <= tz <= TRANS_LIMIT / 4,
    ensures
        -TRANS_LIMIT <= (a * tx + b * ty + c * tz) / (ROT_DEN as int) <= TRANS_LIMIT,
{
    let quarter: int = (TRANS_LIMIT / 4) as int;
    let lim: int = (ROT_DEN as int) * quarter;
    lemma_mul_bound(a, tx, ROT_DEN as int, quarter);
    lemma_mul_bound(b, ty, ROT_DEN as int, quarter);
    lemma_mul_bound(c, tz, ROT_DEN as int, quarter);
    lemma_div_bound(a * tx + b * ty + c * tz, ROT_DEN as int, 3 * lim);
    assert((3 * lim) / (ROT_DEN as int) == 3 * quarter) by (nonlinear_arith)
        requires
            lim == (ROT_DEN as int) * quarter,
            ROT_DEN > 0,
            quarter > 0,
    ;
}

/// The tolerance, in micrometers, within which a round trip through two
/// exactly orthonormal transforms and their inverses returns a point.
pub const ROUND_TRIP_TOL: i64 = 16;

/// `ti` is the inverse `inverse` computes for `t`: the transposed
/// rotation, and the negated back-rotated translation.
pub open spec fn is_inverse_of(ti: RigidTransform, t: RigidTransform) -> bool {
    &&& ti.r00 == t.r00 && ti.r01 == t.r10 && ti.r02 == t.r20
    &&& ti.r10 == t.r01 && ti.r11 == t.r11 && ti.r12 == t.r21
    &&& ti.r20 == t.r02 && ti.r21 == t.r12 && ti.r22 == t.r22
    &&& ti.tx == -((t.r00 * t.tx + t.r10 * t.ty + t.r20 * t.tz) / (ROT_DEN as int))
    &&& ti.ty == -((t.r01 * t.tx + t.r11 * t.ty + t.r21 * t.tz) / (ROT_DEN as int))
    &&& ti.tz == -((t.r02 * t.tx + t.r12 * t.ty + t.r22 * t.tz) / (ROT_DEN as int))
}

/// One coordinate of undoing a transform: the transformed point dotted
/// with one column of the rotation, scaled down, minus the back-rotated
/// translation component for that column.
pub open spec fn back_coord(
    t: RigidTransform,
    cm0: int,
    cm1: int,
    cm2: int,
    x: int,
    y: int,
    z: int,
) -> int {
    let q0 = apply_x(t, x, y, z);
    let q1 = apply_y(t, x, y, z);
    let q2 = apply_z(t, x, y, z);
    (cm0 * q0 + cm1 * q1 + cm2 * q2) / (ROT_DEN as int) - (cm0 * t.tx + cm1 * t.ty + cm2 * t.tz)
        / (ROT_DEN as int)
}

/// A dot product with row dot products expands bilinearly to the column
/// sums.
proof fn lemma_dot_expand(
    t: RigidTransform,
    cm0: int,
    cm1: int,
    cm2: int,
    x: int,
    y: int,
    z: int,
    u0: int,
    u1: int,
    u2: int,
)
    requires
        u0 == t.r00 * x + t.r01 * y + t.r02 * z,
        u1 == t.r10 * x + t.r11 * y + t.r12 * z,
        u2 == t.r20 * x + t.r21 * y + t.r22 * z,
    ensures
        cm0 * u0 + cm1 * u1 + cm2 * u2 == (cm0 * t.r00 + cm1 * t.r10 + cm2 * t.r20) * x + (cm0
            * t.r01 + cm1 * t.r11 + cm2 * t.r21) * y + (cm0 * t.r02 + cm1 * t.r12 + cm2 * t.r22)
            * z,
{
    broadcast use vstd::arithmetic::mul::group_mul_properties;

    assert(cm0 * u0 == (cm0 * t.r00) * x + (cm0 * t.r01) * y + (cm0 * t.r02) * z);
    assert(cm1 * u1 == (cm1 * t.r10) * x + (cm1 * t.r11) * y + (cm1 * t.r12) * z);
    assert(cm2 * u2 == (cm2 * t.r20) * x + (cm2 * t.r21) * y + (cm2 * t.r22) * z);
    assert((cm0 * t.r00) * x + (cm1 * t.r10) * x + (cm2 * t.r20) * x == (cm0 * t.r00 + cm1 * t.r10
        + cm2 * t.r20) * x);
    assert((cm0 * t.r01) * y + (cm1 * t.r11) * y + (cm2 * t.r21) * y == (cm0 * t.r01 + cm1 * t.r11
        + cm2 * t.r21) * y);
    assert((cm0 * t.r02) * z + (cm1 * t.r12) * z + (cm2 * t.r22) * z == (cm0 * t.r02 + cm1 * t.r12
        + cm2 * t.r22) * z);
}

/// One coordinate of a single-transform round trip: when the column
/// `(cm0, cm1, cm2)` is orthogonal to the other columns and has squared
/// length `ROT_DEN * ROT_DEN` against the coordinate `sel`, undoing the
/// transform lands within 4 units of `sel`. The error collects three
/// rounding residues of the forward division and two of the backward
/// ones.
proof fn lemma_single_coord(
    t: RigidTransform,
    x: int,
    y: int,
    z: int,
    cm0: int,
    cm1: int,
    cm2: int,
    ex: int,
    ey: int,
    ez: int,
    sel: int,
)
    requires
        t.wf(),
        -ROT_DEN <= cm0 <= ROT_DEN,
        -ROT_DEN <= cm1 <= ROT_DEN,
        -ROT_DEN <= cm2 <= ROT_DEN,
        cm0 * t.r00 + cm1 * t.r10 + cm2 * t.r20 == ex,
        cm0 * t.r01 + cm1 * t.r11 + cm2 * t.r21 == ey,
        cm0 * t.r02 + cm1 * t.r12 + cm2 * t.r22 == ez,
        ex * x + ey * y + ez * z == (ROT_DEN * ROT_DEN) * sel,
    ensures
        -4 <= back_coord(t, cm0, cm1, cm2, x, y, z) - sel <= 4,
{
    let den: int = ROT_DEN as int;
    let dd: int = den * den;
    let u0: int = t.r00 * x + t.r01 * y + t.r02 * z;
    let u1: int = t.r10 * x + t.r11 * y + t.r12 * z;
    let u2: int = t.r20 * x + t.r21 * y + t.r22 * z;
    lemma_dot_expand(t, cm0, cm1, cm2, x, y, z, u0, u1, u2);
    assert(cm0 * u0 + cm1 * u1 + cm2 * u2 == dd * sel) by (nonlinear_arith)
        requires
            cm0 * u0 + cm1 * u1 + cm2 * u2 == ex * x + ey * y + ez * z,
            ex * x + ey * y + ez * z == (ROT_DEN * ROT_DEN) * sel,
            dd == (ROT_DEN as int) * (ROT_DEN as int),
    ;
    let c0 = u0 / den;
    let c1 = u1 / den;
    let c2 = u2 / den;
    let a0 = u0 % den;
    let a1 = u1 % den;
    let a2 = u2 % den;
    vstd::arithmetic::div_mod::lemma_fundamental_div_mod(u0, den);
    vstd::arithmetic::div_mod::lemma_fundamental_div_mod(u1, den);
    vstd::arithmetic::div_mod::lemma_fundamental_div_mod(u2, den);
    vstd::arithmetic::div_mod::lemma_mod_bound(u0, den);
    vstd::arithmetic::div_mod::lemma_mod_bound(u1, den);
    vstd::arithmetic::div_mod::lemma_mod_bound(u2, den);
    let bigs = cm0 * c0 + cm1 * c1 + cm2 * c2;
    let err = cm0 * a0 + cm1 * a1 + cm2 * a2;
    assert(cm0 * u0 == den * (cm0 * c0) + cm0 * a0) by (nonlinear_arith)
        requires
            u0 == den * c0 + a0,
    ;
    assert(cm1 * u1 == den * (cm1 * c1) + cm1 * a1) by (nonlinear_arith)
        requires
            u1 == den * c1 + a1,
    ;
    assert(cm2 * u2 == den * (cm2 * c2) + cm2 * a2) by (nonlinear_arith)
        requires
            u2 == den * c2 + a2,
    ;
    assert(den * (cm0 * c0) + den * (cm1 * c1) + den * (cm2 * c2) == den * bigs)
        by (nonlinear_arith)
        requires
            bigs == cm0 * c0 + cm1 * c1 + cm2 * c2,
    ;
    assert(den * bigs == dd * sel - err);
    lemma_mul_bound(cm0, a0, ROT_DEN as int, den - 1);
    lemma_mul_bound(cm1, a1, ROT_DEN as int, den - 1);
    lemma_mul_bound(cm2, a2, ROT_DEN as int, den - 1);
    assert(-(3 * (den * (den - 1))) <= err <= 3 * (den * (den - 1)));
    let q0 = apply_x(t, x, y, z);
    let q1 = apply_y(t, x, y, z);
    let q2 = apply_z(t, x, y, z);
    assert(q0 == c0 + t.tx && q1 == c1 + t.ty && q2 == c2 + t.tz);
    let tdot = cm0 * t.tx + cm1 * t.ty + cm2 * t.tz;
    let bigw = cm0 * q0 + cm1 * q1 + cm2 * q2;
    assert(bigw == bigs + tdot) by (nonlinear_arith)
        requires
            q0 == c0 + t.tx,
            q1 == c1 + t.ty,
            q2 == c2 + t.tz,
            bigw == cm0 * q0 + cm1 * q1 + cm2 * q2,
            bigs == cm0 * c0 + cm1 * c1 + cm2 * c2,
            tdot == cm0 * t.tx + cm1 * t.ty + cm2 * t.tz,
    ;
    let w1 = bigw % den;
    let w2 = tdot % den;
    vstd::arithmetic::div_mod::lemma_fundamental_div_mod(bigw, den);
    vstd::arithmetic::div_mod::lemma_fundamental_div_mod(tdot, den);
    vstd::arithmetic::div_mod::lemma_mod_bound(bigw, den);
    vstd::arithmetic::div_mod::lemma_mod_bound(tdot, den);
    let res = back_coord(t, cm0, cm1, cm2, x, y, z);
    assert(res == bigw / den - tdot / den);
    assert(den * res == bigs - w1 + w2) by (nonlinear_arith)
        requires
            bigw == den * (bigw / den) + w1,
            tdot == den * (tdot / den) + w2,
            res == bigw / den - tdot / den,
            bigw == bigs + tdot,
    ;
    assert(dd * (res - sel) == -err - den * w1 + den * w2) by (nonlinear_arith)
        requires
            den * res == bigs - w1 + w2,
            den * bigs == dd * sel - err,
            dd == den * den,
    ;
    assert(0 <= den * w1 <= den * (den - 1)) by (nonlinear_arith)
        requires
            0 <= w1 <= den - 1,
            den > 0,
    ;
    assert(0 <= den * w2 <= den * (den - 1)) by (nonlinear_arith)
        requires
            0 <= w2 <= den - 1,
            den > 0,
    ;
    assert(-4 <= res - sel <= 4) by (nonlinear_arith)
        requires
            dd * (res - sel) == -err - den * w1 + den * w2,
            -(3 * (den * (den - 1))) <= err <= 3 * (den * (den - 1)),
            0 <= den * w1 <= den * (den - 1),
            0 <= den * w2 <= den * (den - 1),
            dd == den * den,
            den >= 2,
    ;
}

/// Undoing one exactly orthonormal transform returns each coordinate to
/// within 4 units.
proof fn lemma_round_trip_single(t: RigidTransform, ti: RigidTransform, x: int, y: int, z: int)
    requires
        t.wf(),
        t.orthonormal(),
        is_inverse_of(ti, t),
    ensures
        ({
            let qx = apply_x(t, x, y, z);
            let qy = apply_y(t, x, y, z);
            let qz = apply_z(t, x, y, z);
            &&& -4 <= apply_x(ti, qx, qy, qz) - x <= 4
            &&& -4 <= apply_y(ti, qx, qy, qz) - y <= 4
            &&& -4 <= apply_z(ti, qx, qy, qz) - z <= 4
        }),
{
    let dd: int = (ROT_DEN * ROT_DEN) as int;
    assert(dd * x == (dd) * x + 0 * y + 0 * z) by (nonlinear_arith);
    lemma_single_coord(
        t, x, y, z,
        t.r00 as int, t.r10 as int, t.r20 as int,
        dd, 0, 0,
        x,
    );
    lemma_single_coord(
        t, x, y, z,
        t.r01 as int, t.r11 as int, t.r21 as int,
        0, dd, 0,
        y,
    );
    lemma_single_coord(
        t, x, y, z,
        t.r02 as int, t.r12 as int, t.r22 as int,
        0, 0, dd,
        z,
    );
    let qx = apply_x(t, x, y, z);
    let qy = apply_y(t, x, y, z);
    let qz = apply_z(t, x, y, z);
    assert(apply_x(ti, qx, qy, qz) == back_coord(t, t.r00 as int, t.r10 as int, t.r20 as int, x, y, z));
    assert(apply_y(ti, qx, qy, qz) == back_coord(t, t.r01 as int, t.r11 as int, t.r21 as int, x, y, z));
    assert(apply_z(ti, qx, qy, qz) == back_coord(t, t.r02 as int, t.r12 as int, t.r22 as int, x, y, z));
}

/// Applying one transform to two nearby points keeps them nearby: each
/// output coordinate moves by at most three times the input distance.
proof fn lemma_apply_close(
    t: RigidTransform,
    x1: int, y1: int, z1: int,
    x2: int, y2: int, z2: int,
    d: int,
)
    requires
        -ROT_DEN <= t.r00 <= ROT_DEN,
        -ROT_DEN <= t.r01 <= ROT_DEN,
        -ROT_DEN <= t.r02 <= ROT_DEN,
        -ROT_DEN <= t.r10 <= ROT_DEN,
        -ROT_DEN <= t.r11 <= ROT_DEN,
        -ROT_DEN <= t.r12 <= ROT_DEN,
        -ROT_DEN <= t.r20 <= ROT_DEN,
        -ROT_DEN <= t.r21 <= ROT_DEN,
        -ROT_DEN <= t.r22 <= ROT_DEN,
        0 <= d,
        -d <= x1 - x2 <= d,
        -d <= y1 - y2 <= d,
        -d <= z1 - z2 <= d,
    ensures
        -(3 * d) <= apply_x(t, x1, y1, z1) - apply_x(t, x2, y2, z2) <= 3 * d,
        -(3 * d) <= apply_y(t, x1, y1, z1) - apply_y(t, x2, y2, z2) <= 3 * d,
        -(3 * d) <= apply_z(t, x1, y1, z1) - apply_z(t, x2, y2, z2) <= 3 * d,
{
    lemma_row_close(t.r00 as int, t.r01 as int, t.r02 as int, x1, y1, z1, x2, y2, z2, d);
    lemma_row_close(t.r10 as int, t.r11 as int, t.r12 as int, x1, y1, z1, x2, y2, z2, d);
    lemma_row_close(t.r20 as int, t.r21 as int, t.r22 as int, x1, y1, z1, x2, y2, z2, d);
}

/// One row of the closeness bound: the scaled dot products of two nearby
/// points divide down to quotients at most `3 * d` apart.
proof fn lemma_row_close(
    a: int, b: int, c: int,
    x1: int, y1: int, z1: int,
    x2: int, y2: int, z2: int,
    d: int,
)
    requires
        -ROT_DEN <= a <= ROT_DEN,
        -ROT_DEN <= b <= ROT_DEN,
        -ROT_DEN <= c <= ROT_DEN,
        0 <= d,
        -d <= x1 - x2 <= d,
        -d <= y1 - y2 <= d,
        -d <= z1 - z2 <= d,
    ensures
        -(3 * d) <= (a * x1 + b * y1 + c * z1) / (ROT_DEN as int) - (a * x2 + b * y2 + c * z2)
            / (ROT_DEN as int) <= 3 * d,
{
    let den: int = ROT_DEN as int;
    let n1 = a * x1 + b * y1 + c * z1;
    let n2 = a * x2 + b * y2 + c * z2;
    lemma_mul_bound(a, x1 - x2, den, d);
    lemma_mul_bound(b, y1 - y2, den, d);
    lemma_mul_bound(c, z1 - z2, den, d);
    assert(n1 - n2 == a * (x1 - x2) + b * (y1 - y2) + c * (z1 - z2)) by (nonlinear_arith)
        requires
            n1 == a * x1 + b * y1 + c * z1,
            n2 == a * x2 + b * y2 + c * z2,
    ;
    assert(n1 - n2 <= (3 * d) * den && n2 - n1 <= (3 * d) * den) by (nonlinear_arith)
        requires
            -(den * d) <= a * (x1 - x2) <= den * d,
            -(den * d) <= b * (y1 - y2) <= den * d,
            -(den * d) <= c * (z1 - z2) <= den * d,
            n1 - n2 == a * (x1 - x2) + b * (y1 - y2) + c * (z1 - z2),
    ;
    vstd::arithmetic::div_mod::lemma_hoist_over_denominator(n2, 3 * d, ROT_DEN as nat);
    vstd::arithmetic::div_mod::lemma_hoist_over_denominator(n1, 3 * d, ROT_DEN as nat);
    vstd::arithmetic::div_mod::lemma_div_is_ordered(n1, n2 + (3 * d) * den, den);
    vstd::arithmetic::div_mod::lemma_div_is_ordered(n2, n1 + (3 * d) * den, den);
}

/// Round trip: a scanner-frame point carried into the project frame and
/// on to the global frame, then back through the two inverse transforms,
/// returns to within `ROUND_TRIP_TOL` micrometers of the original
/// coordinates in every axis — the fixed-point analogue of agreement
/// within floating-point tolerance. The inverse chain is defined for
/// transforms whose rotation is exactly orthonormal in the fixed-point
/// representation; a rotation rounded to the grid only approximates that.
pub proof fn lemma_round_trip(
    sop: RigidTransform,
    pop: RigidTransform,
    sop_inv: RigidTransform,
    pop_inv: RigidTransform,
    x: int,
    y: int,
    z: int,
)
    requires
        sop.wf(),
        pop.wf(),
        sop.orthonormal(),
        pop.orthonormal(),
        is_inverse_of(sop_inv, sop),
        is_inverse_of(pop_inv, pop),
    ensures
        ({
            let px = apply_x(sop, x, y, z);
            let py = apply_y(sop, x, y, z);
            let pz = apply_z(sop, x, y, z);
            let gx = apply_x(pop, px, py, pz);
            let gy = apply_y(pop, px, py, pz);
            let gz = apply_z(pop, px, py, pz);
            let bx = apply_x(pop_inv, gx, gy, gz);
            let by = apply_y(pop_inv, gx, gy, gz);
            let bz = apply_z(pop_inv, gx, gy, gz);
            let rx = apply_x(sop_inv, bx, by, bz);
            let ry = apply_y(sop_inv, bx, by, bz);
            let rz = apply_z(sop_inv, bx, by, bz);
            &&& -ROUND_TRIP_TOL <= rx - x <= ROUND_TRIP_TOL
            &&& -ROUND_TRIP_TOL <= ry - y <= ROUND_TRIP_TOL
            &&& -ROUND_TRIP_TOL <= rz - z <= ROUND_TRIP_TOL
        }),
{
    let px = apply_x(sop, x, y, z);
    let py = apply_y(sop, x, y, z);
    let pz = apply_z(sop, x, y, z);
    lemma_round_trip_single(pop, pop_inv, px, py, pz);
    let gx = apply_x(pop, px, py, pz);
    let gy = apply_y(pop, px, py, pz);
    let gz = apply_z(pop, px, py, pz);
    let bx = apply_x(pop_inv, gx, gy, gz);
    let by = apply_y(pop_inv, gx, gy, gz);
    let bz = apply_z(pop_inv, gx, gy, gz);
    assert(sop_inv.r00 == sop.r00 && -ROT_DEN <= sop.r00 <= ROT_DEN);
    lemma_apply_close(sop_inv, bx, by, bz, px, py, pz, 4);
    lemma_round_trip_single(sop, sop_inv, x, y, z);
}

} // verus!
