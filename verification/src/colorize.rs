//! The per-point colorization pipeline and its streaming driver.
//!
//! Each raw point is tagged as a scanner-frame point, sampled in every
//! image binding of its scan position, aggregated, transformed to the
//! global frame, given an intensity and a color, and assembled into an
//! output point — or skipped, when no image saw it and points without
//! thermal data are not kept. Points are processed strictly in input
//! order and never buffered.

use vstd::prelude::*;
use crate::fixed::{POINT_LIMIT, TRANS_LIMIT, APPLY_LIMIT};
use crate::frames::{SocsPoint, PrcsPoint, RigidTransform, coords_bounded, apply_x, apply_y,
    apply_z, scanner_to_project, project_to_global, lemma_apply_within};
use crate::binding::{ImageBinding, TempSample, TEMP_LIMIT, sample_spec, lemma_sample_bounded};
use crate::aggregate::{AggregateResult, aggregate, aggregate_spec, samples_bounded};
use crate::attributes::{Rgb, ATTR_LIMIT, intensity_spec, color_spec, reflectance_to_intensity,
    temperature_to_color};
use crate::config::Config;

verus! {

/// A raw point as the scanner streams it: scanner-frame coordinates in
/// micrometers and a reflectance value in fixed-point units.
#[derive(Clone, Copy, PartialEq, Eq, Structural, Debug)]
pub struct RawPoint {
    pub x: i64,
    pub y: i64,
    pub z: i64,
    pub reflectance: i64,
}

impl RawPoint {
    /// Coordinates within the scanner's range, reflectance within the
    /// fixed-point limits.
    pub open spec fn wf(self) -> bool {
        &&& coords_bounded(self.x as int, self.y as int, self.z as int, POINT_LIMIT as int)
        &&& -ATTR_LIMIT <= self.reflectance <= ATTR_LIMIT
    }

    /// The point's coordinates tagged as scanner-frame.
    pub open spec fn socs_spec(self) -> SocsPoint {
        SocsPoint { x: self.x, y: self.y, z: self.z }
    }

    /// Tags the raw coordinates as a scanner-frame point.
    pub fn socs(&self) -> (r: SocsPoint)
        ensures
            r == self.socs_spec(),
    {
        SocsPoint { x: self.x, y: self.y, z: self.z }
    }
}

/// A 16-bit display color, as the output format stores it.
#[derive(Clone, Copy, PartialEq, Eq, Structural, Debug)]
pub struct Rgb16 {
    pub red: u16,
    pub green: u16,
    pub blue: u16,
}

/// The widening of an 8-bit color to 16 bits: each channel times 257,
/// so that 255 maps to 65535 exactly.
pub open spec fn rgb16_spec(c: Rgb) -> Rgb16 {
    Rgb16 { red: (c.red * 257) as u16, green: (c.green * 257) as u16, blue: (c.blue * 257) as u16 }
}

/// Widens an 8-bit color to the 16-bit channels of the output format.
pub fn color_to_rgb16(c: &Rgb) -> (r: Rgb16)
    ensures
        r == rgb16_spec(*c),
{
    Rgb16 { red: c.red as u16 * 257, green: c.green as u16 * 257, blue: c.blue as u16 * 257 }
}

/// One enriched output point: global-frame coordinates in micrometers,
/// a 16-bit intensity, a 16-bit display color, and the aggregated
/// temperature that the writer stores in the auxiliary scalar field —
/// no data standing for the not-a-number sentinel.
#[derive(Clone, Copy, PartialEq, Eq, Structural, Debug)]
pub struct OutputPoint {
    pub x: i64,
    pub y: i64,
    pub z: i64,
    pub intensity: u16,
    pub color: Rgb16,
    pub temperature: AggregateResult,
}

/// The temperatures that the bindings, in order, measure for a point;
/// bindings that do not see the point contribute nothing.
pub open spec fn samples_spec(bindings: Seq<ImageBinding>, p: SocsPoint) -> Seq<i64>
    decreases bindings.len(),
{
    if bindings.len() == 0 {
        Seq::empty()
    } else {
        let rest = samples_spec(bindings.drop_last(), p);
        match sample_spec(bindings.last(), p) {
            TempSample::Measured(t) => rest.push(t),
            TempSample::NoData => rest,
        }
    }
}

/// Samples measured by well-formed bindings are bounded.
proof fn lemma_samples_spec_bounded(bindings: Seq<ImageBinding>, p: SocsPoint)
    requires
        forall|i: int| 0 <= i < bindings.len() ==> #[trigger] bindings[i].wf(),
    ensures
        samples_bounded(samples_spec(bindings, p)),
    decreases bindings.len(),
{
    if bindings.len() > 0 {
        lemma_samples_spec_bounded(bindings.drop_last(), p);
        lemma_sample_bounded(bindings.last(), p);
    }
}

/// Gathers the temperatures of every binding that sees the point.
fn gather_samples(bindings: &Vec<ImageBinding>, p: &SocsPoint) -> (r: Vec<i64>)
    requires
        forall|i: int| 0 <= i < bindings@.len() ==> #[trigger] bindings@[i].wf(),
        coords_bounded(p.x as int, p.y as int, p.z as int, POINT_LIMIT as int),
    ensures
        r@ == samples_spec(bindings@, *p),
{
    let mut samples: Vec<i64> = Vec::new();
    let mut i: usize = 0;
    while i < bindings.len()
        invariant
            0 <= i <= bindings@.len(),
            forall|k: int| 0 <= k < bindings@.len() ==> #[trigger] bindings@[k].wf(),
            coords_bounded(p.x as int, p.y as int, p.z as int, POINT_LIMIT as int),
            samples@ == samples_spec(bindings@.take(i as int), *p),
        decreases bindings@.len() - i,
    {
        proof {
            assert(bindings@.take(i + 1).drop_last() =~= bindings@.take(i as int));
            assert(bindings@.take(i + 1).last() == bindings@[i as int]);
        }
        match bindings[i].sample_temperature(p) {
            TempSample::Measured(t) => samples.push(t),
            TempSample::NoData => (),
        }
        i += 1;
    }
    proof {
        assert(bindings@.take(bindings@.len() as int) =~= bindings@);
    }
    samples
}

/// The global-frame coordinates of a scanner-frame point under a scan
/// position's transform followed by the project transform.
pub open spec fn glcs_spec(p: SocsPoint, sop: RigidTransform, pop: RigidTransform) -> (
    int,
    int,
    int,
) {
    let px = apply_x(sop, p.x as int, p.y as int, p.z as int);
    let py = apply_y(sop, p.x as int, p.y as int, p.z as int);
    let pz = apply_z(sop, p.x as int, p.y as int, p.z as int);
    (apply_x(pop, px, py, pz), apply_y(pop, px, py, pz), apply_z(pop, px, py, pz))
}

/// What the pipeline yields for one raw point: nothing when no image saw
/// it and points without thermal data are dropped, and otherwise the
/// enriched output point.
pub open spec fn process_spec(
    p: RawPoint,
    bindings: Seq<ImageBinding>,
    sop: RigidTransform,
    pop: RigidTransform,
    cfg: Config,
) -> Option<OutputPoint> {
    let samples = samples_spec(bindings, p.socs_spec());
    let agg = aggregate_spec(samples);
    if agg is NoData && !cfg.keep_without_thermal {
        None
    } else {
        let (gx, gy, gz) = glcs_spec(p.socs_spec(), sop, pop);
        Some(
            OutputPoint {
                x: gx as i64,
                y: gy as i64,
                z: gz as i64,
                intensity: intensity_spec(
                    p.reflectance as int,
                    cfg.min_reflectance as int,
                    cfg.max_reflectance as int,
                ),
                color: rgb16_spec(
                    color_spec(agg, cfg.min_temperature as int, cfg.max_temperature as int),
                ),
                temperature: agg,
            },
        )
    }
}

/// Runs one raw point through the whole pipeline: sample every binding,
/// aggregate, transform to the global frame, map attributes.
///
/// Yields `None` exactly when no binding measured a temperature and the
/// configuration drops points without thermal data; otherwise the output
/// point of `process_spec`.
pub fn process_point(
    p: &RawPoint,
    bindings: &Vec<ImageBinding>,
    sop: &RigidTransform,
    pop: &RigidTransform,
    cfg: &Config,
) -> (r: Option<OutputPoint>)
    requires
        p.wf(),
        forall|i: int| 0 <= i < bindings@.len() ==> #[trigger] bindings@[i].wf(),
        sop.wf(),
        pop.wf(),
        cfg.wf(),
    ensures
        r == process_spec(*p, bindings@, *sop, *pop, *cfg),
        r is None <==> (samples_spec(bindings@, p.socs_spec()).len() == 0
            && !cfg.keep_without_thermal),
{
    let socs = p.socs();
    let samples = gather_samples(bindings, &socs);
    proof {
        lemma_samples_spec_bounded(bindings@, socs);
    }
    let agg = aggregate(&samples);
    let keep = match agg {
        AggregateResult::NoData => cfg.keep_without_thermal,
        AggregateResult::Value(_) => true,
    };
    if !keep {
        return None;
    }
    proof {
        lemma_apply_within(*sop, socs.x as int, socs.y as int, socs.z as int, POINT_LIMIT as int);
        assert(3 * (POINT_LIMIT as int) + TRANS_LIMIT + 1 <= APPLY_LIMIT);
    }
    let prcs: PrcsPoint = scanner_to_project(&socs, sop);
    let glcs = project_to_global(&prcs, pop);
    let intensity = reflectance_to_intensity(
        p.reflectance,
        cfg.min_reflectance,
        cfg.max_reflectance,
    );
    let color = temperature_to_color(&agg, cfg.min_temperature, cfg.max_temperature);
    Some(
        OutputPoint {
            x: glcs.x,
            y: glcs.y,
            z: glcs.z,
            intensity,
            color: color_to_rgb16(&color),
            temperature: agg,
        },
    )
}

/// What colorizing a whole point stream yields: every point's pipeline
/// outcome, kept in input order, with skipped points leaving no trace.
pub open spec fn colorize_spec(
    points: Seq<RawPoint>,
    bindings: Seq<ImageBinding>,
    sop: RigidTransform,
    pop: RigidTransform,
    cfg: Config,
) -> Seq<OutputPoint>
    decreases points.len(),
{
    if points.len() == 0 {
        Seq::empty()
    } else {
        let rest = colorize_spec(points.drop_last(), bindings, sop, pop, cfg);
        match process_spec(points.last(), bindings, sop, pop, cfg) {
            Some(op) => rest.push(op),
            None => rest,
        }
    }
}

/// Colorizes a stream of raw points in order.
///
/// The result is exactly `colorize_spec`: the outputs of the kept points,
/// in input order; never more output points than input points.
pub fn colorize_points(
    points: &Vec<RawPoint>,
    bindings: &Vec<ImageBinding>,
    sop: &RigidTransform,
    pop: &RigidTransform,
    cfg: &Config,
) -> (r: Vec<OutputPoint>)
    requires
        forall|i: int| 0 <= i < points@.len() ==> (#[trigger] points@[i]).wf(),
        forall|i: int| 0 <= i < bindings@.len() ==> #[trigger] bindings@[i].wf(),
        sop.wf(),
        pop.wf(),
        cfg.wf(),
    ensures
        r@ == colorize_spec(points@, bindings@, *sop, *pop, *cfg),
        r@.len() <= points@.len(),
{
    let mut out: Vec<OutputPoint> = Vec::new();
    let mut i: usize = 0;
    while i < points.len()
        invariant
            0 <= i <= points@.len(),
            forall|k: int| 0 <= k < points@.len() ==> (#[trigger] points@[k]).wf(),
            forall|k: int| 0 <= k < bindings@.len() ==> #[trigger] bindings@[k].wf(),
            sop.wf(),
            pop.wf(),
            cfg.wf(),
            out@ == colorize_spec(points@.take(i as int), bindings@, *sop, *pop, *cfg),
            out@.len() <= i,
        decreases points@.len() - i,
    {
        proof {
            assert(points@.take(i + 1).drop_last() =~= points@.take(i as int));
            assert(points@.take(i + 1).last() == points@[i as int]);
        }
        match process_point(&points[i], bindings, sop, pop, cfg) {
            Some(op) => out.push(op),
            None => (),
        }
        i += 1;
    }
    proof {
        assert(points@.take(points@.len() as int) =~= points@);
    }
    out
}

/// A colorized stream never holds more points than were read.
pub proof fn lemma_output_no_longer_than_input(
    points: Seq<RawPoint>,
    bindings: Seq<ImageBinding>,
    sop: RigidTransform,
    pop: RigidTransform,
    cfg: Config,
)
    ensures
        colorize_spec(points, bindings, sop, pop, cfg).len() <= points.len(),
    decreases points.len(),
{
    if points.len() > 0 {
        lemma_output_no_longer_than_input(points.drop_last(), bindings, sop, pop, cfg);
    }
}

/// When points without thermal data are dropped, a stream holding a
/// point that no image sees colorizes to strictly fewer output points
/// than were read.
pub proof fn lemma_uncovered_point_is_dropped(
    points: Seq<RawPoint>,
    bindings: Seq<ImageBinding>,
    sop: RigidTransform,
    pop: RigidTransform,
    cfg: Config,
    i: int,
)
    requires
        !cfg.keep_without_thermal,
        0 <= i < points.len(),
        samples_spec(bindings, points[i].socs_spec()).len() == 0,
    ensures
        colorize_spec(points, bindings, sop, pop, cfg).len() < points.len(),
    decreases points.len(),
{
    let rest = colorize_spec(points.drop_last(), bindings, sop, pop, cfg);
    if i == points.len() - 1 {
        assert(process_spec(points.last(), bindings, sop, pop, cfg) is None);
        lemma_output_no_longer_than_input(points.drop_last(), bindings, sop, pop, cfg);
    } else {
        lemma_uncovered_point_is_dropped(points.drop_last(), bindings, sop, pop, cfg, i);
    }
}

/// The header of one output file: the fixed millimeter coordinate
/// resolution, and per-axis offsets taken from the global transform's
/// translation so that stored coordinates stay centered near the scan
/// origin.
#[derive(Clone, Copy, PartialEq, Eq, Structural, Debug)]
pub struct LasHeaderInfo {
    /// Coordinate resolution in micrometers: always 1000, one millimeter.
    pub scale_um: i64,
    pub offset_x: i64,
    pub offset_y: i64,
    pub offset_z: i64,
}

/// Computes the output header for a run: millimeter resolution, offsets
/// from the project transform's translation component.
pub fn las_header(pop: &RigidTransform) -> (r: LasHeaderInfo)
    ensures
        r.scale_um == 1000,
        r.offset_x == pop.tx,
        r.offset_y == pop.ty,
        r.offset_z == pop.tz,
{
    LasHeaderInfo { scale_um: 1000, offset_x: pop.tx, offset_y: pop.ty, offset_z: pop.tz }
}

} // verus!
