use tce::fixed::ROT_DEN;
use tce::frames::{
    inverse, project_to_global, scanner_to_camera_mount, scanner_to_project, RigidTransform,
    SocsPoint, ROUND_TRIP_TOL,
};

fn identity() -> RigidTransform {
    RigidTransform {
        r00: ROT_DEN,
        r01: 0,
        r02: 0,
        r10: 0,
        r11: ROT_DEN,
        r12: 0,
        r20: 0,
        r21: 0,
        r22: ROT_DEN,
        tx: 0,
        ty: 0,
        tz: 0,
    }
}

fn translation(tx: i64, ty: i64, tz: i64) -> RigidTransform {
    RigidTransform { tx, ty, tz, ..identity() }
}

// A quarter turn about the z axis: x -> y, y -> -x.
fn quarter_turn_z() -> RigidTransform {
    RigidTransform {
        r00: 0,
        r01: -ROT_DEN,
        r02: 0,
        r10: ROT_DEN,
        r11: 0,
        r12: 0,
        r20: 0,
        r21: 0,
        r22: ROT_DEN,
        tx: 0,
        ty: 0,
        tz: 0,
    }
}

#[test]
fn identity_transform_keeps_coordinates() {
    let p = SocsPoint { x: 1_234_567, y: -42, z: 999 };
    let q = scanner_to_project(&p, &identity());
    assert_eq!((q.x, q.y, q.z), (1_234_567, -42, 999));
}

#[test]
fn translation_moves_coordinates() {
    let p = SocsPoint { x: 10, y: 20, z: 30 };
    let q = scanner_to_project(&p, &translation(1_000_000, -2_000_000, 3));
    assert_eq!((q.x, q.y, q.z), (1_000_010, -1_999_980, 33));
}

#[test]
fn quarter_turn_rotates_exactly() {
    let p = SocsPoint { x: 5_000, y: 7_000, z: -1 };
    let q = scanner_to_project(&p, &quarter_turn_z());
    assert_eq!((q.x, q.y, q.z), (-7_000, 5_000, -1));
}

#[test]
fn chained_transforms_compose() {
    let p = SocsPoint { x: 100, y: 200, z: 300 };
    let prcs = scanner_to_project(&p, &translation(1, 2, 3));
    let glcs = project_to_global(&prcs, &translation(10, 20, 30));
    assert_eq!((glcs.x, glcs.y, glcs.z), (111, 222, 333));
}

#[test]
fn camera_mount_chain_applies_both_transforms() {
    let p = SocsPoint { x: 100, y: 200, z: 300 };
    let cmcs = scanner_to_camera_mount(&p, &translation(1, 1, 1), &quarter_turn_z());
    assert_eq!((cmcs.x, cmcs.y, cmcs.z), (-201, 101, 301));
}

#[test]
fn inverse_of_translation_negates_it() {
    let inv = inverse(&translation(5_000, -6_000, 7_000));
    assert_eq!((inv.tx, inv.ty, inv.tz), (-5_000, 6_000, -7_000));
}

#[test]
fn round_trip_through_two_transforms_returns_close() {
    let sop = RigidTransform { tx: 123_456, ty: -9_876, tz: 55_555, ..quarter_turn_z() };
    let pop = translation(-1_000_000, 2_000_000, -3_000_000);
    let p = SocsPoint { x: 12_345_678, y: -87_654_321, z: 19_999_999 };
    let prcs = scanner_to_project(&p, &sop);
    let glcs = project_to_global(&prcs, &pop);
    let sop_inv = inverse(&sop);
    let pop_inv = inverse(&pop);
    // Undo the chain: the inverse transforms play the same roles in
    // reverse order.
    let back_prcs = scanner_to_project(
        &SocsPoint { x: glcs.x, y: glcs.y, z: glcs.z },
        &pop_inv,
    );
    let back = scanner_to_project(
        &SocsPoint { x: back_prcs.x, y: back_prcs.y, z: back_prcs.z },
        &sop_inv,
    );
    assert!((back.x - p.x).abs() <= ROUND_TRIP_TOL);
    assert!((back.y - p.y).abs() <= ROUND_TRIP_TOL);
    assert!((back.z - p.z).abs() <= ROUND_TRIP_TOL);
}
