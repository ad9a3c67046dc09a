//! Pinhole projection from a camera-mount frame into image pixel space.
//!
//! A point in front of the camera is mapped to fixed-point pixel
//! coordinates `u = fx * x / z + cx`, `v = fy * y / z + cy`. The
//! projection legitimately fails — a frequent, non-error outcome — when
//! the point lies behind the camera, outside the calibration's angular
//! mask, or outside the image bounds.

use vstd::prelude::*;
use crate::fixed::{ROT_DEN, PIX_DEN, RESULT_LIMIT, floor_div_i128, lemma_mul_bound};
use crate::frames::{CmcsPoint, coords_bounded};

verus! {

/// Largest magnitude allowed for a focal length or principal-point
/// component, in fixed-point pixels.
pub const FOCAL_LIMIT: i64 = 1099511627776;

/// Largest image dimension, in whole pixels.
pub const DIM_LIMIT: i64 = 1048576;

/// Largest angular-mask half-tangent, scaled by `ROT_DEN`.
pub const TAN_LIMIT: i64 = 1073741824;

/// Intrinsic calibration of one thermal camera: pinhole parameters in
/// fixed-point pixels (scaled by `PIX_DEN`), image bounds in whole pixels,
/// and an angular visibility mask given by half-tangents scaled by
/// `ROT_DEN`.
#[derive(Clone, Copy, PartialEq, Eq, Structural, Debug)]
pub struct CameraCalibration {
    pub fx: i64,
    pub fy: i64,
    pub cx: i64,
    pub cy: i64,
    pub width: i64,
    pub height: i64,
    pub tan_x_limit: i64,
    pub tan_y_limit: i64,
}

impl CameraCalibration {
    /// Positive focal lengths and image dimensions, everything within the
    /// fixed-point limits.
    pub open spec fn wf(self) -> bool {
        &&& 0 < self.fx <= FOCAL_LIMIT
        &&& 0 < self.fy <= FOCAL_LIMIT
        &&& -FOCAL_LIMIT <= self.cx <= FOCAL_LIMIT
        &&& -FOCAL_LIMIT <= self.cy <= FOCAL_LIMIT
        &&& 0 < self.width <= DIM_LIMIT
        &&& 0 < self.height <= DIM_LIMIT
        &&& 0 <= self.tan_x_limit <= TAN_LIMIT
        &&& 0 <= self.tan_y_limit <= TAN_LIMIT
    }
}

/// The outcome of projecting a point towards an image: fixed-point pixel
/// coordinates, or no projection at all.
#[derive(Clone, Copy, PartialEq, Eq, Structural, Debug)]
pub enum Projection {
    /// The point falls on the image, at these fixed-point pixel
    /// coordinates (scaled by `PIX_DEN`).
    Projected { u: i64, v: i64 },
    /// The point is behind the camera, outside the angular mask, or
    /// outside the image bounds.
    NotVisible,
}

/// The fixed-point horizontal pixel coordinate of `(x, y, z)`, `z > 0`.
pub open spec fn pixel_u(cal: CameraCalibration, x: int, y: int, z: int) -> int {
    (cal.fx * x) / z + cal.cx
}

/// The fixed-point vertical pixel coordinate of `(x, y, z)`, `z > 0`.
pub open spec fn pixel_v(cal: CameraCalibration, x: int, y: int, z: int) -> int {
    (cal.fy * y) / z + cal.cy
}

/// The point lies within the calibration's angular mask.
pub open spec fn in_mask(cal: CameraCalibration, x: int, y: int, z: int) -> bool {
    &&& -(cal.tan_x_limit * z) <= x * (ROT_DEN as int) <= cal.tan_x_limit * z
    &&& -(cal.tan_y_limit * z) <= y * (ROT_DEN as int) <= cal.tan_y_limit * z
}

/// The point projects onto the image: in front of the camera, inside the
/// angular mask, and its pixel coordinates inside the image bounds.
pub open spec fn visible(cal: CameraCalibration, x: int, y: int, z: int) -> bool {
    &&& z > 0
    &&& in_mask(cal, x, y, z)
    &&& 0 <= pixel_u(cal, x, y, z) < cal.width * PIX_DEN
    &&& 0 <= pixel_v(cal, x, y, z) < cal.height * PIX_DEN
}

/// Projects a camera-mount-frame point onto the image plane.
///
/// Returns `Projected` exactly when the point is visible, and then the
/// pixel coordinates are the pinhole formula's; otherwise `NotVisible`.
pub fn camera_to_image(p: &CmcsPoint, cal: &CameraCalibration) -> (r: Projection)
    requires
        cal.wf(),
        coords_bounded(p.x as int, p.y as int, p.z as int, RESULT_LIMIT as int),
    ensures
        visible(*cal, p.x as int, p.y as int, p.z as int) <==> (r is Projected),
        r matches Projection::Projected { u, v } ==> {
            &&& u == pixel_u(*cal, p.x as int, p.y as int, p.z as int)
            &&& v == pixel_v(*cal, p.x as int, p.y as int, p.z as int)
            &&& 0 <= u < cal.width * PIX_DEN
            &&& 0 <= v < cal.height * PIX_DEN
        },
{
    if p.z <= 0 {
        return Projection::NotVisible;
    }
    proof {
        lemma_mul_bound(p.x as int, ROT_DEN as int, RESULT_LIMIT as int, ROT_DEN as int);
        lemma_mul_bound(p.y as int, ROT_DEN as int, RESULT_LIMIT as int, ROT_DEN as int);
        lemma_mul_bound(cal.tan_x_limit as int, p.z as int, TAN_LIMIT as int, RESULT_LIMIT as int);
        lemma_mul_bound(cal.tan_y_limit as int, p.z as int, TAN_LIMIT as int, RESULT_LIMIT as int);
    }
    let xr: i128 = p.x as i128 * ROT_DEN as i128;
    let tzx: i128 = cal.tan_x_limit as i128 * p.z as i128;
    if xr > tzx || xr < -tzx {
        return Projection::NotVisible;
    }
    let yr: i128 = p.y as i128 * ROT_DEN as i128;
    let tzy: i128 = cal.tan_y_limit as i128 * p.z as i128;
    if yr > tzy || yr < -tzy {
        return Projection::NotVisible;
    }
    proof {
        lemma_mul_bound(cal.fx as int, p.x as int, FOCAL_LIMIT as int, RESULT_LIMIT as int);
        lemma_mul_bound(cal.fy as int, p.y as int, FOCAL_LIMIT as int, RESULT_LIMIT as int);
    }
    let qu: i128 = floor_div_i128(cal.fx as i128 * p.x as i128, p.z as i128);
    proof {
        crate::fixed::lemma_div_bound(
            (cal.fx * p.x) as int,
            p.z as int,
            (FOCAL_LIMIT as int) * (RESULT_LIMIT as int),
        );
    }
    let u: i128 = qu + cal.cx as i128;
    if u < 0 || u >= cal.width as i128 * PIX_DEN as i128 {
        return Projection::NotVisible;
    }
    let qv: i128 = floor_div_i128(cal.fy as i128 * p.y as i128, p.z as i128);
    proof {
        crate::fixed::lemma_div_bound(
            (cal.fy * p.y) as int,
            p.z as int,
            (FOCAL_LIMIT as int) * (RESULT_LIMIT as int),
        );
    }
    let v: i128 = qv + cal.cy as i128;
    if v < 0 || v >= cal.height as i128 * PIX_DEN as i128 {
        return Projection::NotVisible;
    }
    Projection::Projected { u: u as i64, v: v as i64 }
}

} // verus!
