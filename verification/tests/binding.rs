use tce::binding::{ImageBinding, TempSample, ThermalRaster, KELVIN_OFFSET_MILLI};
use tce::camera::{CameraCalibration, TAN_LIMIT};
use tce::fixed::{PIX_DEN, ROT_DEN};
use tce::frames::{RigidTransform, SocsPoint};

fn identity() -> RigidTransform {
    RigidTransform {
        r00: ROT_DEN,
        r01: 0,
        r02: 0,
        r10: 0,
        r11: ROT_DEN,
        r12: 0,
        r20: 0,
        r21: 0,
        r22: ROT_DEN,
        tx: 0,
        ty: 0,
        tz: 0,
    }
}

fn camera(width: i64, height: i64) -> CameraCalibration {
    CameraCalibration {
        fx: 100 * PIX_DEN,
        fy: 100 * PIX_DEN,
        cx: width / 2 * PIX_DEN,
        cy: height / 2 * PIX_DEN,
        width,
        height,
        tan_x_limit: TAN_LIMIT,
        tan_y_limit: TAN_LIMIT,
    }
}

fn uniform_raster(width: usize, height: usize, kelvin_milli: i64) -> ThermalRaster {
    ThermalRaster::new(width, height, vec![kelvin_milli; width * height]).unwrap()
}

fn binding(raster: ThermalRaster, rotate: bool) -> ImageBinding {
    ImageBinding { camera: camera(100, 100), cop: identity(), mount: identity(), raster, rotate }
}

#[test]
fn raster_new_rejects_wrong_sample_count() {
    assert!(ThermalRaster::new(4, 4, vec![0; 15]).is_none());
    assert!(ThermalRaster::new(4, 4, vec![0; 16]).is_some());
}

#[test]
fn raster_new_rejects_out_of_range_samples() {
    assert!(ThermalRaster::new(1, 1, vec![-1]).is_none());
}

#[test]
fn raster_lookup_is_row_major() {
    let mut temps = vec![0i64; 6];
    temps[1 * 3 + 2] = 777;
    let raster = ThermalRaster::new(3, 2, temps).unwrap();
    assert_eq!(raster.lookup(2, 1), 777);
    assert_eq!(raster.lookup(0, 0), 0);
}

#[test]
fn visible_point_samples_in_celsius() {
    // 293.15 K is exactly 20 degrees Celsius.
    let b = binding(uniform_raster(100, 100, 293_150), false);
    let p = SocsPoint { x: 0, y: 0, z: 1_000_000 };
    assert_eq!(b.sample_temperature(&p), TempSample::Measured(20_000));
}

#[test]
fn kelvin_offset_is_273_15() {
    assert_eq!(KELVIN_OFFSET_MILLI, 273_150);
}

#[test]
fn point_behind_camera_has_no_data() {
    let b = binding(uniform_raster(100, 100, 293_150), false);
    let p = SocsPoint { x: 0, y: 0, z: -1_000_000 };
    assert_eq!(b.sample_temperature(&p), TempSample::NoData);
}

#[test]
fn rotate_remaps_pixels_into_swapped_raster() {
    // The projected pixel is (60, 30); with the rotation remap it
    // becomes (100 - 30, 60) = (70, 60).
    let mut temps = vec![300_000i64; 100 * 100];
    temps[60 * 100 + 70] = 400_000;
    let raster = ThermalRaster::new(100, 100, temps).unwrap();
    let b = binding(raster, true);
    let p = SocsPoint { x: 100_000, y: -200_000, z: 1_000_000 };
    assert_eq!(
        b.sample_temperature(&p),
        TempSample::Measured(400_000 - KELVIN_OFFSET_MILLI)
    );
}

#[test]
fn raster_smaller_than_camera_degrades_to_no_data() {
    // The camera sees a 100 x 100 field, but the raster only covers
    // 40 x 40: the projected pixel (60, 30) misses the grid, which the
    // binding treats defensively as no data, not a fault.
    let b = binding(uniform_raster(40, 40, 293_150), false);
    let p = SocsPoint { x: 100_000, y: -200_000, z: 1_000_000 };
    assert_eq!(b.sample_temperature(&p), TempSample::NoData);
}
