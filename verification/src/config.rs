//! Run configuration and the file-naming policy.
//!
//! A configuration is validated once, before any streaming begins:
//! an empty or inverted reflectance or temperature range is a fatal
//! configuration error, as is the scan-position naming policy combined
//! with a scan position that owns more than one source file.

use vstd::prelude::*;
use crate::attributes::ATTR_LIMIT;
use crate::frames::RigidTransform;

verus! {

/// A fatal error of the run: a configuration that cannot be streamed
/// with, or a name that the project does not know.
#[derive(Clone, Copy, PartialEq, Eq, Structural, Debug)]
pub enum TceError {
    /// The reflectance range is empty or inverted, so the intensity
    /// rescale would divide by zero or flip.
    InvalidReflectanceRange,
    /// The temperature range is empty or inverted, so the gradient has no
    /// extent.
    InvalidTemperatureRange,
    /// Output files are named after their scan position, but a scan
    /// position owns more than one source file: the outputs would collide
    /// on one name.
    MultipleScansForPosition,
    /// A requested scan position name is not in the project.
    UnknownScanPosition,
}

/// The validated configuration of one colorization run. Reflectance
/// bounds are in the same fixed-point units as raw reflectance values,
/// temperature bounds in millidegrees Celsius.
#[derive(Clone, Debug)]
pub struct Config {
    pub image_dir: String,
    pub las_dir: String,
    pub min_reflectance: i64,
    pub max_reflectance: i64,
    pub min_temperature: i64,
    pub max_temperature: i64,
    pub keep_without_thermal: bool,
    pub rotate: bool,
    pub sync_to_pps: bool,
    pub use_scanpos_names: bool,
    pub scan_position_names: Option<Vec<String>>,
}

impl Config {
    /// The ranges are non-empty and within the fixed-point limits.
    pub open spec fn wf(self) -> bool {
        &&& self.min_reflectance < self.max_reflectance
        &&& -ATTR_LIMIT <= self.min_reflectance <= ATTR_LIMIT
        &&& -ATTR_LIMIT <= self.max_reflectance <= ATTR_LIMIT
        &&& self.min_temperature < self.max_temperature
        &&& -ATTR_LIMIT <= self.min_temperature <= ATTR_LIMIT
        &&& -ATTR_LIMIT <= self.max_temperature <= ATTR_LIMIT
    }

    /// Validates the raw option values into a configuration.
    ///
    /// Fails with `InvalidReflectanceRange` exactly when the reflectance
    /// range is empty or inverted, and otherwise with
    /// `InvalidTemperatureRange` exactly when the temperature range is;
    /// otherwise the configuration holds the given values unchanged.
    pub fn new(
        image_dir: String,
        las_dir: String,
        min_reflectance: i64,
        max_reflectance: i64,
        min_temperature: i64,
        max_temperature: i64,
        keep_without_thermal: bool,
        rotate: bool,
        sync_to_pps: bool,
        use_scanpos_names: bool,
        scan_position_names: Option<Vec<String>>,
    ) -> (r: Result<Config, TceError>)
        requires
            -ATTR_LIMIT <= min_reflectance <= ATTR_LIMIT,
            -ATTR_LIMIT <= max_reflectance <= ATTR_LIMIT,
            -ATTR_LIMIT <= min_temperature <= ATTR_LIMIT,
            -ATTR_LIMIT <= max_temperature <= ATTR_LIMIT,
        ensures
            r matches Err(e) ==> {
                ||| (e == TceError::InvalidReflectanceRange && min_reflectance
                    >= max_reflectance)
                ||| (e == TceError::InvalidTemperatureRange && min_reflectance
                    < max_reflectance && min_temperature >= max_temperature)
            },
            r matches Ok(c) ==> {
                &&& c.wf()
                &&& c.image_dir@ == image_dir@
                &&& c.las_dir@ == las_dir@
                &&& c.min_reflectance == min_reflectance
                &&& c.max_reflectance == max_reflectance
                &&& c.min_temperature == min_temperature
                &&& c.max_temperature == max_temperature
                &&& c.keep_without_thermal == keep_without_thermal
                &&& c.rotate == rotate
                &&& c.sync_to_pps == sync_to_pps
                &&& c.use_scanpos_names == use_scanpos_names
                &&& c.scan_position_names == scan_position_names
            },
            r is Ok <==> (min_reflectance < max_reflectance && min_temperature
                < max_temperature),
    {
        if min_reflectance >= max_reflectance {
            return Err(TceError::InvalidReflectanceRange);
        }
        if min_temperature >= max_temperature {
            return Err(TceError::InvalidTemperatureRange);
        }
        Ok(Config {
            image_dir,
            las_dir,
            min_reflectance,
            max_reflectance,
            min_temperature,
            max_temperature,
            keep_without_thermal,
            rotate,
            sync_to_pps,
            use_scanpos_names,
            scan_position_names,
        })
    }
}

/// One scan position of the project: its name, its scanner-to-project
/// transform, and the source point-stream files that belong to it.
#[derive(Debug)]
pub struct ScanPosition {
    pub name: String,
    pub sop: RigidTransform,
    pub rxp_paths: Vec<String>,
}

/// An input file together with the output file its points are written
/// to.
#[derive(Clone, Debug)]
pub struct Translation {
    pub infile: String,
    pub outfile: String,
}

/// Where the file-name part of a path begins: right after the last
/// separator, or at the start when there is none.
pub open spec fn file_name_start(s: Seq<char>) -> int {
    match s.index_of_last('/') {
        Some(i) => i + 1,
        None => 0,
    }
}

/// Where a name's extension begins (the last dot at or after `from`), or
/// the end of the name when it has no extension.
pub open spec fn stem_end(s: Seq<char>, from: int) -> int {
    match s.index_of_last('.') {
        Some(i) => if i >= from {
            i
        } else {
            s.len() as int
        },
        None => s.len() as int,
    }
}

/// The output path for one input file: the output directory, a
/// separator, and the naming policy's base name with the output format's
/// extension. Under the scan-position policy the base name is the
/// position's name; otherwise it is the input file's name. Either way an
/// existing extension is replaced.
pub open spec fn outfile_spec(
    las_dir: Seq<char>,
    pos_name: Seq<char>,
    infile: Seq<char>,
    use_scanpos_names: bool,
) -> Seq<char> {
    let base = if use_scanpos_names {
        pos_name.subrange(0, stem_end(pos_name, 0))
    } else {
        let start = file_name_start(infile);
        infile.subrange(start, stem_end(infile, start))
    };
    las_dir + seq!['/'] + base + seq!['.', 'l', 'a', 's']
}

/// Finds the last occurrence of a character in a string.
fn find_last(s: &str, c: char) -> (r: Option<usize>)
    ensures
        r matches Some(i) ==> s@.index_of_last(c) == Some(i as int),
        r is None ==> s@.index_of_last(c) is None,
{
    proof {
        s@.index_of_last_ensures(c);
    }
    let n = s.unicode_len();
    let mut i: usize = n;
    while i > 0
        invariant
            0 <= i <= n,
            n == s@.len(),
            forall|j: int| i <= j < n ==> s@[j] != c,
        decreases i,
    {
        i = i - 1;
        if s.get_char(i) == c {
            proof {
                s@.index_of_last_ensures(c);
                assert(s@.contains(c)) by {
                    assert(s@[i as int] == c);
                }
                match s@.index_of_last(c) {
                    Some(k) => {
                        if k < i as int {
                            assert(s@[i as int] != c);
                        }
                        if k > i as int {
                            assert(s@[k] != c);
                        }
                    },
                    None => {
                        assert(!s@.contains(c));
                    },
                }
            }
            return Some(i);
        }
    }
    proof {
        if s@.contains(c) {
            let w = choose|w: int| 0 <= w < s@.len() && s@[w] == c;
            assert(false);
        }
    }
    None
}

/// Builds the output path for one input file under the configured naming
/// policy, as `outfile_spec` describes.
pub fn outfile(las_dir: &str, pos_name: &str, infile: &str, use_scanpos_names: bool) -> (r:
    String)
    ensures
        r@ == outfile_spec(las_dir@, pos_name@, infile@, use_scanpos_names),
{
    let mut out = String::new();
    out.append(las_dir);
    out.append("/");
    proof {
        reveal_strlit("/");
        assert("/"@ =~= seq!['/']);
    }
    if use_scanpos_names {
        let name_len = pos_name.unicode_len();
        let end = match find_last(pos_name, '.') {
            Some(i) => i,
            None => name_len,
        };
        proof {
            pos_name@.index_of_last_ensures('.');
        }
        let base = pos_name.substring_char(0, end);
        out.append(base);
    } else {
        let in_len = infile.unicode_len();
        proof {
            infile@.index_of_last_ensures('/');
            infile@.index_of_last_ensures('.');
        }
        let start = match find_last(infile, '/') {
            Some(i) => i + 1,
            None => 0,
        };
        let end = match find_last(infile, '.') {
            Some(i) => if i >= start {
                i
            } else {
                in_len
            },
            None => in_len,
        };
        let base = infile.substring_char(start, end);
        out.append(base);
    }
    out.append(".las");
    proof {
        reveal_strlit(".las");
        assert(".las"@ =~= seq!['.', 'l', 'a', 's']);
    }
    out
}

impl Config {
    /// Pairs every source file of a scan position with its output file.
    ///
    /// Fails with `MultipleScansForPosition` exactly when output files
    /// are named after the scan position but the position owns more than
    /// one source file — their outputs would collide — and does so
    /// before any file is opened. Otherwise every source file is paired,
    /// in order, with the path `outfile_spec` assigns it.
    pub fn translations(&self, pos: &ScanPosition) -> (r: Result<Vec<Translation>, TceError>)
        ensures
            r is Err <==> (self.use_scanpos_names && pos.rxp_paths@.len() > 1),
            r matches Err(e) ==> e == TceError::MultipleScansForPosition,
            r matches Ok(v) ==> {
                &&& v@.len() == pos.rxp_paths@.len()
                &&& forall|i: int|
                    0 <= i < v@.len() ==> (#[trigger] v@[i]).infile@ == pos.rxp_paths@[i]@
                        && v@[i].outfile@ == outfile_spec(
                        self.las_dir@,
                        pos.name@,
                        pos.rxp_paths@[i]@,
                        self.use_scanpos_names,
                    )
            },
    {
        if self.use_scanpos_names && pos.rxp_paths.len() > 1 {
            return Err(TceError::MultipleScansForPosition);
        }
        let mut out: Vec<Translation> = Vec::new();
        let mut i: usize = 0;
        while i < pos.rxp_paths.len()
            invariant
                0 <= i <= pos.rxp_paths@.len(),
                out@.len() == i,
                forall|k: int|
                    0 <= k < i ==> (#[trigger] out@[k]).infile@ == pos.rxp_paths@[k]@
                        && out@[k].outfile@ == outfile_spec(
                        self.las_dir@,
                        pos.name@,
                        pos.rxp_paths@[k]@,
                        self.use_scanpos_names,
                    ),
            decreases pos.rxp_paths@.len() - i,
        {
            let infile = pos.rxp_paths[i].clone();
            let outpath = outfile(
                self.las_dir.as_str(),
                pos.name.as_str(),
                infile.as_str(),
                self.use_scanpos_names,
            );
            out.push(Translation { infile, outfile: outpath });
            i += 1;
        }
        Ok(out)
    }
}

/// Lexicographic order on character sequences, by code point.
pub open spec fn lex_le(a: Seq<char>, b: Seq<char>) -> bool
    decreases a.len(),
{
    if a.len() == 0 {
        true
    } else if b.len() == 0 {
        false
    } else if (a[0] as u32) == (b[0] as u32) {
        lex_le(a.drop_first(), b.drop_first())
    } else {
        (a[0] as u32) < (b[0] as u32)
    }
}

/// The lexicographic order is total.
pub proof fn lemma_lex_le_total(a: Seq<char>, b: Seq<char>)
    ensures
        lex_le(a, b) || lex_le(b, a),
    decreases a.len(),
{
    if a.len() > 0 && b.len() > 0 && (a[0] as u32) == (b[0] as u32) {
        lemma_lex_le_total(a.drop_first(), b.drop_first());
    }
}

/// The lexicographic order is transitive.
pub proof fn lemma_lex_le_trans(a: Seq<char>, b: Seq<char>, c: Seq<char>)
    requires
        lex_le(a, b),
        lex_le(b, c),
    ensures
        lex_le(a, c),
    decreases a.len(),
{
    if a.len() == 0 {
    } else {
        if (a[0] as u32) == (b[0] as u32) && (b[0] as u32) == (c[0] as u32) {
            lemma_lex_le_trans(a.drop_first(), b.drop_first(), c.drop_first());
        }
    }
}

/// Compares two strings in lexicographic code-point order.
pub fn str_le(a: &str, b: &str) -> (r: bool)
    ensures
        r == lex_le(a@, b@),
{
    let la = a.unicode_len();
    let lb = b.unicode_len();
    let mut i: usize = 0;
    proof {
        assert(a@.skip(0) =~= a@);
        assert(b@.skip(0) =~= b@);
    }
    while i < la && i < lb
        invariant
            0 <= i <= la,
            0 <= i <= lb,
            la == a@.len(),
            lb == b@.len(),
            lex_le(a@, b@) == lex_le(a@.skip(i as int), b@.skip(i as int)),
        decreases la - i,
    {
        let ca = a.get_char(i);
        let cb = b.get_char(i);
        proof {
            assert(a@.skip(i as int)[0] == a@[i as int]);
            assert(b@.skip(i as int)[0] == b@[i as int]);
            assert(a@.skip(i as int).drop_first() =~= a@.skip(i + 1));
            assert(b@.skip(i as int).drop_first() =~= b@.skip(i + 1));
        }
        if ca as u32 != cb as u32 {
            return (ca as u32) < (cb as u32);
        }
        i += 1;
    }
    proof {
        if i >= la {
            assert(a@.skip(i as int).len() == 0);
        } else {
            assert(b@.skip(i as int).len() == 0);
            assert(a@.skip(i as int).len() > 0);
        }
    }
    i >= la
}

/// Whether a path names a thermal image file: its extension, after the
/// last dot of its file-name part, is exactly `irb`.
pub open spec fn has_irb_extension_spec(s: Seq<char>) -> bool {
    let st = stem_end(s, file_name_start(s));
    s.subrange(st, s.len() as int) == seq!['.', 'i', 'r', 'b']
}

/// Tests whether a directory entry is a thermal image by its file
/// extension, as `has_irb_extension_spec` describes.
pub fn has_irb_extension(path: &str) -> (r: bool)
    ensures
        r == has_irb_extension_spec(path@),
{
    let n = path.unicode_len();
    proof {
        path@.index_of_last_ensures('/');
        path@.index_of_last_ensures('.');
    }
    let start = match find_last(path, '/') {
        Some(i) => i + 1,
        None => 0,
    };
    let st = match find_last(path, '.') {
        Some(i) => if i >= start {
            i
        } else {
            n
        },
        None => n,
    };
    let ext = path.substring_char(st, n);
    let r = str_eq(ext, ".irb");
    proof {
        reveal_strlit(".irb");
        assert(".irb"@ =~= seq!['.', 'i', 'r', 'b']);
    }
    r
}

/// Compares two strings for character-for-character equality.
pub fn str_eq(a: &str, b: &str) -> (r: bool)
    ensures
        r == (a@ == b@),
{
    let la = a.unicode_len();
    let lb = b.unicode_len();
    if la != lb {
        return false;
    }
    let mut i: usize = 0;
    while i < la
        invariant
            0 <= i <= la,
            la == a@.len(),
            la == b@.len(),
            forall|k: int| 0 <= k < i ==> a@[k] == b@[k],
        decreases la - i,
    {
        if a.get_char(i) != b.get_char(i) {
            return false;
        }
        i += 1;
    }
    proof {
        assert(a@ =~= b@);
    }
    true
}

/// The character sequences of a path list.
pub open spec fn path_views(paths: Seq<String>) -> Seq<Seq<char>> {
    paths.map_values(|p: String| p@)
}

/// The data one scan position holds, with every string taken as its
/// character sequence: the position's name, transform and source paths.
pub open spec fn pos_view(p: ScanPosition) -> (Seq<char>, RigidTransform, Seq<Seq<char>>) {
    (p.name@, p.sop, path_views(p.rxp_paths@))
}

/// The data a whole list of scan positions holds.
pub open spec fn pos_views(s: Seq<ScanPosition>) -> Seq<
    (Seq<char>, RigidTransform, Seq<Seq<char>>),
> {
    s.map_values(|p: ScanPosition| pos_view(p))
}

impl Clone for ScanPosition {
    /// A clone holds the same name, transform and paths.
    fn clone(&self) -> (r: Self)
        ensures
            pos_view(r) == pos_view(*self),
    {
        let mut paths: Vec<String> = Vec::new();
        let mut i: usize = 0;
        while i < self.rxp_paths.len()
            invariant
                0 <= i <= self.rxp_paths@.len(),
                paths@.len() == i,
                forall|k: int| 0 <= k < i ==> (#[trigger] paths@[k])@ == self.rxp_paths@[k]@,
            decreases self.rxp_paths@.len() - i,
        {
            paths.push(self.rxp_paths[i].clone());
            i += 1;
        }
        let r = ScanPosition { name: self.name.clone(), sop: self.sop, rxp_paths: paths };
        proof {
            assert(path_views(r.rxp_paths@) =~= path_views(self.rxp_paths@));
        }
        r
    }
}

/// The first position carrying a name, as the data it holds.
pub open spec fn first_with_name(positions: Seq<ScanPosition>, name: Seq<char>) -> Option<
    (Seq<char>, RigidTransform, Seq<Seq<char>>),
>
    decreases positions.len(),
{
    if positions.len() == 0 {
        None
    } else if positions.first().name@ == name {
        Some(pos_view(positions.first()))
    } else {
        first_with_name(positions.drop_first(), name)
    }
}

/// A witness at index `i`, with no earlier carrier, pins `first_with_name`
/// down.
proof fn lemma_first_with_name_some(positions: Seq<ScanPosition>, name: Seq<char>, i: int)
    requires
        0 <= i < positions.len(),
        positions[i].name@ == name,
        forall|k: int| 0 <= k < i ==> (#[trigger] positions[k]).name@ != name,
    ensures
        first_with_name(positions, name) == Some(pos_view(positions[i])),
    decreases i,
{
    if i == 0 {
    } else {
        lemma_first_with_name_some(positions.drop_first(), name, i - 1);
    }
}

/// With no carrier at all, `first_with_name` finds nothing.
proof fn lemma_first_with_name_none(positions: Seq<ScanPosition>, name: Seq<char>)
    requires
        forall|k: int| 0 <= k < positions.len() ==> (#[trigger] positions[k]).name@ != name,
    ensures
        first_with_name(positions, name) is None,
    decreases positions.len(),
{
    if positions.len() > 0 {
        lemma_first_with_name_none(positions.drop_first(), name);
    }
}

/// The data of the positions an explicit name list selects, in list
/// order: each name's first carrier, missing names contributing nothing.
pub open spec fn selected_views(positions: Seq<ScanPosition>, names: Seq<String>) -> Seq<
    (Seq<char>, RigidTransform, Seq<Seq<char>>),
>
    decreases names.len(),
{
    if names.len() == 0 {
        Seq::empty()
    } else {
        let rest = selected_views(positions, names.drop_last());
        match first_with_name(positions, names.last()@) {
            Some(pv) => rest.push(pv),
            None => rest,
        }
    }
}

/// Finds the first scan position carrying a name.
fn lookup_position(positions: &Vec<ScanPosition>, name: &str) -> (r: Option<usize>)
    ensures
        r matches Some(i) ==> {
            &&& i < positions@.len()
            &&& positions@[i as int].name@ == name@
            &&& forall|k: int| 0 <= k < i ==> (#[trigger] positions@[k]).name@ != name@
        },
        r is None ==> forall|k: int|
            0 <= k < positions@.len() ==> (#[trigger] positions@[k]).name@ != name@,
{
    let mut i: usize = 0;
    while i < positions.len()
        invariant
            0 <= i <= positions@.len(),
            forall|k: int| 0 <= k < i ==> (#[trigger] positions@[k]).name@ != name@,
        decreases positions@.len() - i,
    {
        if str_eq(positions[i].name.as_str(), name) {
            return Some(i);
        }
        i += 1;
    }
    None
}

/// Scan positions in non-decreasing name order.
pub open spec fn positions_sorted(s: Seq<ScanPosition>) -> bool {
    forall|a: int, b: int|
        0 <= a < b < s.len() ==> lex_le(
            (#[trigger] s[a]).name@,
            (#[trigger] s[b]).name@,
        )
}

/// Replacing one element of a position list replaces its data.
proof fn lemma_pos_views_update(s: Seq<ScanPosition>, i: int, p: ScanPosition)
    requires
        0 <= i < s.len(),
    ensures
        pos_views(s.update(i, p)) =~= pos_views(s).update(i, pos_view(p)),
{
}

/// Sorts scan positions by name, keeping the same multiset of position
/// data.
fn sort_positions(v: &mut Vec<ScanPosition>)
    ensures
        positions_sorted(final(v)@),
        pos_views(final(v)@).to_multiset() == pos_views(old(v)@).to_multiset(),
        final(v)@.len() == old(v)@.len(),
{
    broadcast use vstd::seq_lib::group_to_multiset_ensures;
    broadcast use vstd::multiset::group_multiset_axioms;
    broadcast use vstd::multiset::group_multiset_properties;

    if v.len() < 2 {
        return;
    }
    let mut i: usize = 1;
    while i < v.len()
        invariant
            1 <= i <= v@.len(),
            v@.len() == old(v)@.len(),
            pos_views(v@).to_multiset() == pos_views(old(v)@).to_multiset(),
            positions_sorted(v@.take(i as int)),
        decreases v@.len() - i,
    {
        let mut j: usize = i;
        proof {
            assert forall|a: int, b: int| 0 <= a < b <= i && b != i as int implies lex_le(
                v@[a].name@,
                v@[b].name@,
            ) by {
                assert(v@.take(i as int)[a] == v@[a]);
                assert(v@.take(i as int)[b] == v@[b]);
            }
        }
        while j > 0 && !str_le(v[j - 1].name.as_str(), v[j].name.as_str())
            invariant
                0 <= j <= i < v@.len(),
                v@.len() == old(v)@.len(),
                pos_views(v@).to_multiset() == pos_views(old(v)@).to_multiset(),
                forall|a: int, b: int|
                    0 <= a < b <= i && b != j ==> lex_le(
                        (#[trigger] v@[a]).name@,
                        (#[trigger] v@[b]).name@,
                    ),
            decreases j,
        {
            proof {
                lemma_lex_le_total(v@[j - 1].name@, v@[j as int].name@);
            }
            let ghost before = v@;
            let moved = v.remove(j);
            v.insert(j - 1, moved);
            proof {
                assert(v@ =~= before.update(j - 1, before[j as int]).update(
                    j as int,
                    before[j - 1],
                ));
                let mid = before.update(j - 1, before[j as int]);
                lemma_pos_views_update(before, j - 1, before[j as int]);
                lemma_pos_views_update(mid, j as int, before[j - 1]);
                let m0 = pos_views(before);
                let pj = pos_view(before[j as int]);
                let pj1 = pos_view(before[j - 1]);
                assert(pos_views(v@) =~~= m0.update(j - 1, pj).update(j as int, pj1));
                vstd::seq_lib::to_multiset_update(m0, j - 1, pj);
                vstd::seq_lib::to_multiset_update(m0.update(j - 1, pj), j as int, pj1);
                assert(m0.update(j - 1, pj)[j as int] == pj);
                assert(m0[j - 1] == pj1);
                assert(m0.contains(pj1)) by {
                    assert(m0[j - 1] == pj1);
                }
                vstd::seq_lib::to_multiset_contains(m0, pj1);
                assert(m0.to_multiset().count(pj1) > 0);
                assert(pos_views(v@).to_multiset() =~= m0.to_multiset());
            }
            j = j - 1;
        }
        proof {
            assert forall|a: int, b: int| 0 <= a < b <= i implies lex_le(
                v@[a].name@,
                v@[b].name@,
            ) by {
                if b == j as int {
                    assert(lex_le(v@[j - 1].name@, v@[j as int].name@));
                    if a < j - 1 {
                        lemma_lex_le_trans(v@[a].name@, v@[j - 1].name@, v@[j as int].name@);
                    }
                }
            }
            assert(positions_sorted(v@.take(i + 1))) by {
                assert forall|a: int, b: int| 0 <= a < b < i + 1 implies lex_le(
                    (#[trigger] v@.take(i + 1)[a]).name@,
                    (#[trigger] v@.take(i + 1)[b]).name@,
                ) by {
                    assert(v@.take(i + 1)[a] == v@[a]);
                    assert(v@.take(i + 1)[b] == v@[b]);
                }
            }
        }
        i += 1;
    }
    proof {
        assert(v@.take(v@.len() as int) =~= v@);
    }
}

impl Config {
    /// Selects and orders the scan positions a run processes.
    ///
    /// With no explicit selection, every position of the project is
    /// taken. With an explicit name list, each name's first carrier is
    /// taken, in list order, and an unknown name is a fatal lookup error
    /// reported before any processing. Either way the selected positions
    /// are handed back sorted by name, so runs proceed in a
    /// deterministic order.
    pub fn scan_positions(&self, positions: &Vec<ScanPosition>) -> (r: Result<
        Vec<ScanPosition>,
        TceError,
    >)
        ensures
            r matches Ok(v) ==> positions_sorted(v@),
            self.scan_position_names is None ==> (r matches Ok(v) && pos_views(
                v@,
            ).to_multiset() == pos_views(positions@).to_multiset()),
            self.scan_position_names matches Some(ns) ==> {
                if forall|i: int|
                    0 <= i < ns@.len() ==> first_with_name(
                        positions@,
                        (#[trigger] ns@[i])@,
                    ) is Some {
                    r matches Ok(v) && pos_views(v@).to_multiset() == selected_views(
                        positions@,
                        ns@,
                    ).to_multiset()
                } else {
                    r == Err::<Vec<ScanPosition>, TceError>(TceError::UnknownScanPosition)
                }
            },
    {
        let mut selected: Vec<ScanPosition> = Vec::new();
        match self.scan_position_names.as_ref() {
            None => {
                let mut i: usize = 0;
                while i < positions.len()
                    invariant
                        self.scan_position_names is None,
                        0 <= i <= positions@.len(),
                        pos_views(selected@) == pos_views(positions@).take(i as int),
                    decreases positions@.len() - i,
                {
                    let ghost prev = selected@;
                    let cpos = positions[i].clone();
                    let ghost cview = pos_view(cpos);
                    selected.push(cpos);
                    proof {
                        assert(cview == pos_view(positions@[i as int]));
                        assert(pos_views(prev).len() == prev.len());
                        assert(pos_views(positions@).take(i as int).len() == i as int);
                        assert(prev.len() == i as int);
                        assert(selected@.len() == i + 1);
                        assert forall|k: int| 0 <= k < selected@.len() implies pos_views(
                            selected@,
                        )[k] =~~= pos_views(positions@).take(i + 1)[k] by {
                            assert(pos_views(selected@)[k] == pos_view(selected@[k]));
                            if k < i as int {
                                assert(selected@[k] == prev[k]);
                                assert(pos_views(prev)[k] == pos_views(positions@).take(
                                    i as int,
                                )[k]);
                                assert(pos_views(positions@).take(i as int)[k] == pos_views(
                                    positions@,
                                ).take(i + 1)[k]);
                            } else {
                                assert(pos_view(selected@[k]) == cview);
                                assert(pos_views(positions@).take(i + 1)[k] == pos_view(
                                    positions@[i as int],
                                ));
                            }
                        }
                        assert(pos_views(selected@) =~~= pos_views(positions@).take(i + 1));
                    }
                    i += 1;
                }
                proof {
                    assert(pos_views(positions@).take(positions@.len() as int) =~= pos_views(
                        positions@,
                    ));
                }
            },
            Some(ns) => {
                let mut i: usize = 0;
                while i < ns.len()
                    invariant
                        self.scan_position_names is Some,
                        self.scan_position_names->0 == *ns,
                        0 <= i <= ns@.len(),
                        forall|k: int|
                            0 <= k < i ==> first_with_name(
                                positions@,
                                (#[trigger] ns@[k])@,
                            ) is Some,
                        pos_views(selected@) == selected_views(positions@, ns@.take(i as int)),
                    decreases ns@.len() - i,
                {
                    proof {
                        assert(ns@.take(i + 1).drop_last() =~= ns@.take(i as int));
                        assert(ns@.take(i + 1).last() == ns@[i as int]);
                    }
                    match lookup_position(positions, ns[i].as_str()) {
                        None => {
                            proof {
                                lemma_first_with_name_none(positions@, ns@[i as int]@);
                                let nsv = self.scan_position_names->0;
                                assert(nsv == *ns);
                                assert(first_with_name(positions@, nsv@[i as int]@) is None);
                            }
                            return Err(TceError::UnknownScanPosition);
                        },
                        Some(k) => {
                            proof {
                                lemma_first_with_name_some(positions@, ns@[i as int]@, k as int);
                            }
                            let ghost prev = selected@;
                            let cpos = positions[k].clone();
                            let ghost cview = pos_view(cpos);
                            selected.push(cpos);
                            proof {
                                assert(cview == pos_view(positions@[k as int]));
                                assert(pos_views(prev).len() == prev.len());
                                let target = selected_views(positions@, ns@.take(i + 1));
                                assert(target == selected_views(positions@, ns@.take(i as int)).push(
                                    pos_view(positions@[k as int]),
                                ));
                                assert(prev.len() == selected_views(
                                    positions@,
                                    ns@.take(i as int),
                                ).len());
                                assert forall|m: int| 0 <= m < selected@.len() implies pos_views(
                                    selected@,
                                )[m] =~~= target[m] by {
                                    assert(pos_views(selected@)[m] == pos_view(selected@[m]));
                                    if m < prev.len() {
                                        assert(selected@[m] == prev[m]);
                                        assert(pos_views(prev)[m] == selected_views(
                                            positions@,
                                            ns@.take(i as int),
                                        )[m]);
                                    } else {
                                        assert(pos_view(selected@[m]) == cview);
                                    }
                                }
                                assert(pos_views(selected@) =~~= target);
                            }
                        },
                    }
                    i += 1;
                }
                proof {
                    assert(ns@.take(ns@.len() as int) =~= ns@);
                }
            },
        }
        sort_positions(&mut selected);
        Ok(selected)
    }
}

} // verus!
