//! Thermal rasters and the binding of one raster to its calibration.
//!
//! An image binding bundles a thermal raster with the camera calibration,
//! camera-origin transform and mount calibration needed to project a
//! scanner-frame point into that image and sample a temperature there.

use vstd::prelude::*;
use crate::fixed::{PIX_DEN, POINT_LIMIT};
use crate::frames::{SocsPoint, CmcsPoint, RigidTransform, coords_bounded, apply_x, apply_y,
    apply_z};
use crate::camera::{CameraCalibration, Projection, DIM_LIMIT, visible, pixel_u, pixel_v,
    camera_to_image};

verus! {

/// Largest temperature magnitude a raster may hold, in millidegrees.
pub const TEMP_LIMIT: i64 = 1099511627776;

/// Difference between a temperature in millikelvin and one in
/// millidegrees Celsius.
pub const KELVIN_OFFSET_MILLI: i64 = 273150;

/// A 2-D grid of absolute temperatures in millikelvin, stored row-major.
#[derive(Clone, Debug)]
pub struct ThermalRaster {
    pub width: usize,
    pub height: usize,
    pub temps: Vec<i64>,
}

impl ThermalRaster {
    /// One sample per pixel, dimensions within the pixel limit, each
    /// sample within the representable range.
    pub open spec fn wf(self) -> bool {
        &&& self.temps@.len() == self.width * self.height
        &&& self.width <= DIM_LIMIT
        &&& self.height <= DIM_LIMIT
        &&& forall|i: int|
            0 <= i < self.temps@.len() ==> 0 <= #[trigger] self.temps@[i] <= TEMP_LIMIT
    }

    /// Builds a raster, checking that the samples fill the grid exactly
    /// and are within range.
    pub fn new(width: usize, height: usize, temps: Vec<i64>) -> (r: Option<ThermalRaster>)
        ensures
            r matches Some(raster) ==> {
                &&& raster.wf()
                &&& raster.width == width
                &&& raster.height == height
                &&& raster.temps@ == temps@
            },
            r is None <==> !(ThermalRaster { width, height, temps }).wf(),
    {
        if width as u64 > DIM_LIMIT as u64 || height as u64 > DIM_LIMIT as u64 {
            return None;
        }
        proof {
            crate::fixed::lemma_mul_bound(
                width as int,
                height as int,
                DIM_LIMIT as int,
                DIM_LIMIT as int,
            );
        }
        let expected: u64 = width as u64 * height as u64;
        if temps.len() as u64 != expected {
            return None;
        }
        let mut i: usize = 0;
        while i < temps.len()
            invariant
                0 <= i <= temps.len(),
                forall|j: int| 0 <= j < i ==> 0 <= #[trigger] temps@[j] <= TEMP_LIMIT,
            decreases temps.len() - i,
        {
            if temps[i] < 0 || temps[i] > TEMP_LIMIT {
                return None;
            }
            i += 1;
        }
        Some(ThermalRaster { width, height, temps })
    }

    /// Reads the sample at pixel `(u, v)`.
    pub fn lookup(&self, u: usize, v: usize) -> (r: i64)
        requires
            self.wf(),
            u < self.width,
            v < self.height,
        ensures
            r == self.temps@[v * self.width + u],
    {
        let n = self.temps.len();
        proof {
            lemma_row_major_index(self.width as int, self.height as int, u as int, v as int);
            assert(v * self.width + u < n);
        }
        self.temps[v * self.width + u]
    }
}

/// A row-major index from in-bounds pixel coordinates is in bounds.
proof fn lemma_row_major_index(width: int, height: int, u: int, v: int)
    requires
        0 <= u < width,
        0 <= v < height,
    ensures
        0 <= v * width + u < width * height,
{
    assert(0 <= v * width + u < width * height) by (nonlinear_arith)
        requires
            0 <= u < width,
            0 <= v < height,
    ;
}

/// One temperature sampled for a point: a measurement in millidegrees
/// Celsius, or no data. No data is a frequent, expected outcome, not an
/// error.
#[derive(Clone, Copy, PartialEq, Eq, Structural, Debug)]
pub enum TempSample {
    Measured(i64),
    NoData,
}

/// Everything needed to look a scanner-frame point up in one thermal
/// image: the camera's intrinsic calibration, the camera-origin and mount
/// transforms, the raster itself, and whether the image is mounted
/// rotated by 90 degrees.
#[derive(Clone, Debug)]
pub struct ImageBinding {
    pub camera: CameraCalibration,
    pub cop: RigidTransform,
    pub mount: RigidTransform,
    pub raster: ThermalRaster,
    pub rotate: bool,
}

impl ImageBinding {
    pub open spec fn wf(self) -> bool {
        &&& self.camera.wf()
        &&& self.cop.wf()
        &&& self.mount.wf()
        &&& self.raster.wf()
    }
}

/// The camera-mount-frame coordinates of a scanner-frame point under a
/// binding's transforms.
pub open spec fn cmcs_of(b: ImageBinding, p: SocsPoint) -> (int, int, int) {
    let mx = apply_x(b.cop, p.x as int, p.y as int, p.z as int);
    let my = apply_y(b.cop, p.x as int, p.y as int, p.z as int);
    let mz = apply_z(b.cop, p.x as int, p.y as int, p.z as int);
    (apply_x(b.mount, mx, my, mz), apply_y(b.mount, mx, my, mz), apply_z(b.mount, mx, my, mz))
}

/// The whole-pixel raster coordinates a binding samples for a visible
/// point: the projected fixed-point pixel coordinates, remapped when the
/// image is rotated, then truncated to whole pixels.
pub open spec fn raster_pixel(b: ImageBinding, u: int, v: int) -> (int, int) {
    let ru = if b.rotate {
        b.camera.height * PIX_DEN - v
    } else {
        u
    };
    let rv = if b.rotate {
        u
    } else {
        v
    };
    (ru / (PIX_DEN as int), rv / (PIX_DEN as int))
}

/// What sampling a binding at a scanner-frame point yields.
///
/// The point is projected into the image; if the projection fails the
/// sample is no data. Otherwise the raster is read at the truncated pixel
/// coordinates and the absolute temperature converted to millidegrees
/// Celsius. Truncated coordinates that still miss the raster grid — a
/// calibration/raster mismatch the projection bounds cannot exclude when
/// the raster's dimensions differ from the calibration's — are downgraded
/// defensively to no data rather than treated as a fault.
pub open spec fn sample_spec(b: ImageBinding, p: SocsPoint) -> TempSample {
    let (cx, cy, cz) = cmcs_of(b, p);
    if !visible(b.camera, cx, cy, cz) {
        TempSample::NoData
    } else {
        let u = pixel_u(b.camera, cx, cy, cz);
        let v = pixel_v(b.camera, cx, cy, cz);
        let (ui, vi) = raster_pixel(b, u, v);
        if 0 <= ui < b.raster.width && 0 <= vi < b.raster.height {
            TempSample::Measured(
                (b.raster.temps@[vi * b.raster.width + ui] - KELVIN_OFFSET_MILLI) as i64,
            )
        } else {
            TempSample::NoData
        }
    }
}

/// A measured sample from a well-formed binding lies within the
/// representable temperature range.
pub proof fn lemma_sample_bounded(b: ImageBinding, p: SocsPoint)
    requires
        b.wf(),
    ensures
        sample_spec(b, p) matches TempSample::Measured(t) ==> -TEMP_LIMIT <= t <= TEMP_LIMIT,
{
    let (cx, cy, cz) = cmcs_of(b, p);
    if visible(b.camera, cx, cy, cz) {
        let u = pixel_u(b.camera, cx, cy, cz);
        let v = pixel_v(b.camera, cx, cy, cz);
        let (ui, vi) = raster_pixel(b, u, v);
        if 0 <= ui < b.raster.width && 0 <= vi < b.raster.height {
            lemma_row_major_index(b.raster.width as int, b.raster.height as int, ui, vi);
        }
    }
}

impl ImageBinding {
    /// Projects a scanner-frame point into this binding's image and
    /// samples a temperature there, as `sample_spec` describes.
    pub fn sample_temperature(&self, p: &SocsPoint) -> (r: TempSample)
        requires
            self.wf(),
            coords_bounded(p.x as int, p.y as int, p.z as int, POINT_LIMIT as int),
        ensures
            r == sample_spec(*self, *p),
    {
        let cmcs: CmcsPoint = crate::frames::scanner_to_camera_mount(p, &self.cop, &self.mount);
        match camera_to_image(&cmcs, &self.camera) {
            Projection::NotVisible => TempSample::NoData,
            Projection::Projected { u, v } => {
                let (ru, rv) = if self.rotate {
                    (self.camera.height * PIX_DEN - v, u)
                } else {
                    (u, v)
                };
                let ui: i64 = ru / PIX_DEN;
                let vi: i64 = rv / PIX_DEN;
                if ui >= 0 && ui < self.raster.width as i64 && vi >= 0 && vi
                    < self.raster.height as i64 {
                    let t = self.raster.lookup(ui as usize, vi as usize);
                    proof {
                        lemma_row_major_index(
                            self.raster.width as int,
                            self.raster.height as int,
                            ui as int,
                            vi as int,
                        );
                        assert(0 <= t <= TEMP_LIMIT);
                    }
                    TempSample::Measured(t - KELVIN_OFFSET_MILLI)
                } else {
                    TempSample::NoData
                }
            },
        }
    }
}

} // verus!
