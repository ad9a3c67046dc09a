use tce::camera::{camera_to_image, CameraCalibration, Projection, TAN_LIMIT};
use tce::fixed::PIX_DEN;
use tce::frames::CmcsPoint;

// A pinhole camera with a focal length of 100 pixels, the principal
// point at the center of a 100 x 100 image, and a wide-open angular
// mask.
fn camera() -> CameraCalibration {
    CameraCalibration {
        fx: 100 * PIX_DEN,
        fy: 100 * PIX_DEN,
        cx: 50 * PIX_DEN,
        cy: 50 * PIX_DEN,
        width: 100,
        height: 100,
        tan_x_limit: TAN_LIMIT,
        tan_y_limit: TAN_LIMIT,
    }
}

#[test]
fn center_point_projects_to_principal_point() {
    let p = CmcsPoint { x: 0, y: 0, z: 1_000_000 };
    match camera_to_image(&p, &camera()) {
        Projection::Projected { u, v } => {
            assert_eq!(u, 50 * PIX_DEN);
            assert_eq!(v, 50 * PIX_DEN);
        },
        Projection::NotVisible => panic!("center point must project"),
    }
}

#[test]
fn offset_point_projects_linearly() {
    // x/z = 0.1: 100 pixels focal length puts it 10 pixels right of
    // center.
    let p = CmcsPoint { x: 100_000, y: -200_000, z: 1_000_000 };
    match camera_to_image(&p, &camera()) {
        Projection::Projected { u, v } => {
            assert_eq!(u, 60 * PIX_DEN);
            assert_eq!(v, 30 * PIX_DEN);
        },
        Projection::NotVisible => panic!("offset point must project"),
    }
}

#[test]
fn point_behind_camera_is_not_visible() {
    let p = CmcsPoint { x: 0, y: 0, z: -1_000_000 };
    assert_eq!(camera_to_image(&p, &camera()), Projection::NotVisible);
    let on_plane = CmcsPoint { x: 10, y: 10, z: 0 };
    assert_eq!(camera_to_image(&on_plane, &camera()), Projection::NotVisible);
}

#[test]
fn point_outside_image_bounds_is_not_visible() {
    // x/z = 1: 100 pixels right of a center 50 pixels in — off the edge.
    let p = CmcsPoint { x: 1_000_000, y: 0, z: 1_000_000 };
    assert_eq!(camera_to_image(&p, &camera()), Projection::NotVisible);
}

#[test]
fn point_outside_angular_mask_is_not_visible() {
    // A tight mask rejects a ray at 1/8 off-axis even though the pixel
    // would land inside the image.
    let mut cal = camera();
    cal.tan_x_limit = tce::fixed::ROT_DEN / 16;
    let p = CmcsPoint { x: 125_000, y: 0, z: 1_000_000 };
    assert_eq!(camera_to_image(&p, &cal), Projection::NotVisible);
    // The same ray passes a mask exactly at 1/8.
    cal.tan_x_limit = tce::fixed::ROT_DEN / 8;
    assert!(matches!(camera_to_image(&p, &cal), Projection::Projected { .. }));
}
