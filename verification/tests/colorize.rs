use tce::aggregate::AggregateResult;
use tce::binding::{ImageBinding, ThermalRaster};
use tce::camera::{CameraCalibration, TAN_LIMIT};
use tce::colorize::{colorize_points, las_header, process_point, RawPoint, Rgb16};
use tce::config::Config;
use tce::fixed::{PIX_DEN, ROT_DEN};
use tce::frames::RigidTransform;

fn identity() -> RigidTransform {
    RigidTransform {
        r00: ROT_DEN,
        r01: 0,
        r02: 0,
        r10: 0,
        r11: ROT_DEN,
        r12: 0,
        r20: 0,
        r21: 0,
        r22: ROT_DEN,
        tx: 0,
        ty: 0,
        tz: 0,
    }
}

// A camera whose image covers the whole forward field used by these
// tests, centered on a 100 x 100 raster.
fn full_view_binding(kelvin_milli: i64) -> ImageBinding {
    ImageBinding {
        camera: CameraCalibration {
            fx: 100 * PIX_DEN,
            fy: 100 * PIX_DEN,
            cx: 50 * PIX_DEN,
            cy: 50 * PIX_DEN,
            width: 100,
            height: 100,
            tan_x_limit: TAN_LIMIT,
            tan_y_limit: TAN_LIMIT,
        },
        cop: identity(),
        mount: identity(),
        raster: ThermalRaster::new(100, 100, vec![kelvin_milli; 100 * 100]).unwrap(),
        rotate: false,
    }
}

fn config(keep_without_thermal: bool) -> Config {
    Config::new(
        String::from("images"),
        String::from("las"),
        0,
        1_000_000,
        0,
        40_000,
        keep_without_thermal,
        false,
        false,
        false,
        None,
    )
    .unwrap()
}

fn forward_point(reflectance: i64) -> RawPoint {
    RawPoint { x: 0, y: 0, z: 1_000_000, reflectance }
}

#[test]
fn no_images_and_keep_yields_black_sentinel_points() {
    let points = vec![forward_point(500_000), forward_point(0)];
    let bindings: Vec<ImageBinding> = Vec::new();
    let out = colorize_points(&points, &bindings, &identity(), &identity(), &config(true));
    assert_eq!(out.len(), 2);
    for op in &out {
        assert_eq!(op.color, Rgb16 { red: 0, green: 0, blue: 0 });
        assert_eq!(op.temperature, AggregateResult::NoData);
    }
}

#[test]
fn no_images_without_keep_yields_no_points() {
    let points = vec![forward_point(500_000), forward_point(0)];
    let bindings: Vec<ImageBinding> = Vec::new();
    let out = colorize_points(&points, &bindings, &identity(), &identity(), &config(false));
    assert_eq!(out.len(), 0);
}

#[test]
fn full_view_image_gives_midrange_intensity() {
    // One covering image; reflectance 0.5 of the range [0, 1] maps to
    // an intensity of 32768.
    let points = vec![forward_point(500_000)];
    let bindings = vec![full_view_binding(293_150)];
    let out = colorize_points(&points, &bindings, &identity(), &identity(), &config(false));
    assert_eq!(out.len(), 1);
    assert_eq!(out[0].intensity, 32768);
    assert_eq!(out[0].temperature, AggregateResult::Value(20_000));
}

#[test]
fn two_overlapping_images_average_to_exact_mean() {
    // Two images see the point at 10.0 and 20.0 degrees Celsius: the
    // aggregated temperature is exactly 15.0.
    let points = vec![forward_point(500_000)];
    let bindings = vec![full_view_binding(283_150), full_view_binding(293_150)];
    let out = colorize_points(&points, &bindings, &identity(), &identity(), &config(false));
    assert_eq!(out.len(), 1);
    assert_eq!(out[0].temperature, AggregateResult::Value(15_000));
}

#[test]
fn output_preserves_input_order_and_coordinates() {
    let sop = RigidTransform { tx: 1_000, ty: 2_000, tz: 3_000, ..identity() };
    let pop = RigidTransform { tx: 10, ty: 20, tz: 30, ..identity() };
    let points = vec![
        RawPoint { x: 1, y: 2, z: 1_000_000, reflectance: 0 },
        RawPoint { x: 5, y: 6, z: 2_000_000, reflectance: 0 },
    ];
    let out = colorize_points(&points, &Vec::new(), &sop, &pop, &config(true));
    assert_eq!(out.len(), 2);
    assert_eq!((out[0].x, out[0].y, out[0].z), (1_011, 2_022, 1_003_030));
    assert_eq!((out[1].x, out[1].y, out[1].z), (1_015, 2_026, 2_003_030));
}

#[test]
fn partial_coverage_drops_only_unseen_points() {
    // The covering image sees the forward point but not one far off
    // axis; with keep unset only the seen point is written.
    let seen = forward_point(0);
    let unseen = RawPoint { x: 900_000_000, y: 0, z: 1_000_000, reflectance: 0 };
    let points = vec![unseen, seen, unseen];
    let bindings = vec![full_view_binding(293_150)];
    let out = colorize_points(&points, &bindings, &identity(), &identity(), &config(false));
    assert_eq!(out.len(), 1);
    assert_eq!(out[0].temperature, AggregateResult::Value(20_000));
}

#[test]
fn process_point_colors_from_gradient() {
    // 20.0 degrees in the range [0, 40] is the midpoint: half-intensity
    // purple, widened to 16-bit channels.
    let out = process_point(
        &forward_point(0),
        &vec![full_view_binding(293_150)],
        &identity(),
        &identity(),
        &config(false),
    )
    .unwrap();
    assert_eq!(out.color, Rgb16 { red: 128 * 257, green: 0, blue: 128 * 257 });
}

#[test]
fn las_header_takes_offsets_from_global_transform() {
    let pop = RigidTransform { tx: 111, ty: -222, tz: 333, ..identity() };
    let h = las_header(&pop);
    assert_eq!(h.scale_um, 1000);
    assert_eq!((h.offset_x, h.offset_y, h.offset_z), (111, -222, 333));
}
