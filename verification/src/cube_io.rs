//! FITS spectral cubes: what a header and its beam tables mean, where a channel
//! lies, and what an output cube carries.
//!
//! Supports 3D cubes (NAXIS=3: freq×dec×ra) and 4D cubes (NAXIS=4:
//! stokes×freq×dec×ra).  Per-channel beams come from, in priority order:
//!   1. the CASA BEAMS binary-table extension (CASAMBM=T in the header),
//!   2. a beamlog next to the cube, `{dir}/beamlog.{stem}.txt`,
//!   3. a single BMAJ/BMIN/BPA of the primary header, for all channels.
//!
//! Header values come in as they were read: `None` stands for a keyword that could
//! not be read.
use vstd::prelude::*;

use crate::beam::{degrees_of, major_arcsec_of, minor_arcsec_of, Beam, BeamError};
use crate::beamlog::{
    log_beams, log_kernel_is_function, read_beamlog, BeamColumn, BeamlogError, LogKernel, TINY,
};
use crate::fits_io::{
    beam_cards, beam_from_header, header_beam, header_unit, law_beam_cards_read_back, text_of,
    unit_from_header,
};
use crate::ieee::{Double, FftFloat, Single};
use crate::path::{file_stem, file_stem_of, join, joined, parent, parent_of};
use crate::plane::Plane;
use crate::smooth::BrightnessUnit;
use crate::text::{chars_of, lines, push_all, push_str, string_of, text_is, trim, trimmed};

verus! {

/// The smallest normal single-precision number, 2^-126: the axes that stand for a
/// masked channel in a BEAMS table.
pub const TINY_SINGLE: u32 = 0x0080_0000;

/// Mode for common-beam determination.
#[derive(Clone, Copy, Debug, PartialEq, Eq, Structural)]
pub enum CubeMode {
    /// Each channel gets its own common beam (written to the BEAMS extension).
    Natural,
    /// All channels share a single common beam (written to the primary header only).
    Total,
}

/// In-memory pixel precision for streaming a cube, derived from FITS `BITPIX`.
#[derive(Clone, Copy, Debug, PartialEq, Eq, Structural)]
pub enum PixelType {
    F32,
    F64,
}

impl PixelType {
    /// `-64` is double precision, everything else is worked on in single.
    pub fn from_bitpix(bitpix: i64) -> (r: PixelType)
        ensures
            r == PixelType::F64 <==> bitpix == -64,
    {
        if bitpix == -64 {
            PixelType::F64
        } else {
            PixelType::F32
        }
    }
}

/// What could not be read from a cube.
#[derive(Clone, Copy, Debug, PartialEq, Eq, Structural)]
pub enum CubeItem {
    Naxis,
    Naxis1,
    Naxis2,
    Naxis3,
    Naxis4,
    Cdelt1,
    Cdelt2,
    Column(BeamColumn),
    Beamlog,
}

#[derive(Clone, Copy, Debug, PartialEq, Eq, Structural)]
pub enum CubeError {
    /// A required item could not be read.
    Unreadable(CubeItem),
    /// The number of pixels does not match the plane.
    Shape,
    /// The beam of the header is not one.
    Beam(BeamError),
    /// Neither 3 nor 4 axes.
    UnsupportedNaxis(i64),
    /// The header announces a BEAMS extension that is not there.
    MissingBeamsTable,
    /// A beam table or beamlog does not have one row per channel.
    BeamCountMismatch { expected: usize, got: usize },
    /// The beamlog is wrong.
    Beamlog(BeamlogError),
    /// No CASAMBM, no beamlog, no header beam.
    NoBeans,
}

/// Header values of a cube.
pub struct CubeHeader {
    pub naxis: Option<i64>,
    /// x / RA
    pub naxis1: Option<i64>,
    /// y / Dec
    pub naxis2: Option<i64>,
    /// Frequency
    pub naxis3: Option<i64>,
    /// Stokes
    pub naxis4: Option<i64>,
    pub cdelt1: Option<Double>,
    pub cdelt2: Option<Double>,
    pub crpix3: Option<i64>,
    pub bitpix: Option<i64>,
    pub bunit: Option<String>,
    /// CASAMBM where it is a logical.
    pub casambm: Option<bool>,
    /// CASAMBM where it is a string.
    pub casambm_text: Option<String>,
    pub bmaj: Option<Double>,
    pub bmin: Option<Double>,
    pub bpa: Option<Double>,
}

/// What came of reading the BEAMS extension.
pub enum TableRead {
    Missing,
    Unreadable(BeamColumn),
    Columns { bmaj: Vec<Single>, bmin: Vec<Single>, bpa: Vec<Single> },
}

/// What came of reading the beamlog.
pub enum LogRead {
    Absent,
    Unreadable,
    Text(String),
}

/// Metadata for a FITS spectral cube (3D or 4D).
pub struct CubeMeta {
    pub path: String,
    /// Fastest-varying spatial axis size (RA/x pixels).
    pub nx: usize,
    /// Slower spatial axis size (Dec/y pixels).
    pub ny: usize,
    /// Number of frequency channels.
    pub nfreq: usize,
    /// Number of Stokes planes.
    pub nstokes: usize,
    /// |CDELT1| in degrees.
    pub dx_deg: Double,
    /// |CDELT2| in degrees.
    pub dy_deg: Double,
    /// 1-based reference pixel of the spectral axis.
    pub crpix_freq: i64,
    /// Per-channel beams.  `None` means the channel is masked / has no valid beam.
    pub beams: Vec<Option<Beam>>,
    /// True for 4D input (has a Stokes axis in the header).
    pub is_4d: bool,
    /// Brightness unit from BUNIT (Jy/beam if absent).
    pub unit: BrightnessUnit,
    /// Working pixel precision, derived from `BITPIX`.
    pub dtype: PixelType,
    /// `BITPIX` as stored.
    pub bitpix: i64,
}

// ── Precision ───────────────────────────────────────────────────────────────

/// Conversions between the precisions, in floating point.
pub trait TableKernel: LogKernel {
    fn widen(&self, x: Single) -> Double;

    fn single(&self, x: Double) -> Single;
}

pub open spec fn widened<K: TableKernel>(k: &K, x: Single) -> Double {
    choose|y: Double| call_ensures(K::widen, (k, x), y)
}

pub open spec fn single_of<K: TableKernel>(k: &K, x: Double) -> Single {
    choose|y: Single| call_ensures(K::single, (k, x), y)
}

pub open spec fn table_kernel_is_function<K: TableKernel>(k: &K) -> bool {
    &&& log_kernel_is_function(k)
    &&& forall|v: Single, x: Double, y: Double|
        #![trigger call_ensures(K::widen, (k, v), x), call_ensures(K::widen, (k, v), y)]
        call_ensures(K::widen, (k, v), x) && call_ensures(K::widen, (k, v), y) ==> x == y
    &&& forall|v: Double, x: Single, y: Single|
        #![trigger call_ensures(K::single, (k, v), x), call_ensures(K::single, (k, v), y)]
        call_ensures(K::single, (k, v), x) && call_ensures(K::single, (k, v), y) ==> x == y
}

// ── Beams of a table ────────────────────────────────────────────────────────

/// The beam of a table row, with axes in arcseconds: none where the major axis is
/// tiny, not finite, or makes no beam.
pub open spec fn table_beam<K: TableKernel>(k: &K, maj: Single, min: Single, pa: Single) -> Option<
    Beam,
> {
    let tiny = Double { bits: TINY };
    let maj_deg = degrees_of(k, widened(k, maj));
    let min_deg = degrees_of(k, widened(k, min));
    if maj_deg.at_most(tiny) || !maj_deg.finite() {
        None
    } else {
        match Beam::new_spec(maj_deg, min_deg.larger(tiny), widened(k, pa)) {
            Ok(b) => Some(b),
            Err(_) => None,
        }
    }
}

pub open spec fn shorter(a: nat, b: nat) -> nat {
    if a <= b {
        a
    } else {
        b
    }
}

/// The beams of a table, row by row, as far as all three columns go.
pub open spec fn table_beams<K: TableKernel>(
    k: &K,
    bmaj: Seq<Single>,
    bmin: Seq<Single>,
    bpa: Seq<Single>,
) -> Seq<Option<Beam>> {
    Seq::new(
        shorter(shorter(bmaj.len(), bmin.len()), bpa.len()),
        |i: int| table_beam(k, bmaj[i], bmin[i], bpa[i]),
    )
}

fn beam_of_table_row<K: TableKernel>(k: &K, maj: Single, min: Single, pa: Single) -> (r: Option<
    Beam,
>)
    requires
        table_kernel_is_function(k),
    ensures
        r == table_beam(k, maj, min, pa),
{
    let tiny = Double::from_bits(TINY);
    let maj_as = k.widen(maj);
    let min_as = k.widen(min);
    let maj_deg = k.degrees(maj_as);
    let min_deg = k.degrees(min_as);
    let angle = k.widen(pa);
    if maj_deg.le(&tiny) || !maj_deg.is_finite() {
        None
    } else {
        match Beam::new(maj_deg, min_deg.max(tiny), angle) {
            Ok(b) => Some(b),
            Err(_) => None,
        }
    }
}

/// Per-channel beams of the BEAMS extension: one row per channel.
pub fn read_casambm_beams<K: TableKernel>(
    k: &K,
    bmaj: &Vec<Single>,
    bmin: &Vec<Single>,
    bpa: &Vec<Single>,
    nfreq: usize,
) -> (r: Result<Vec<Option<Beam>>, CubeError>)
    requires
        table_kernel_is_function(k),
    ensures
        bmaj@.len() != nfreq ==> r == Err::<Vec<Option<Beam>>, CubeError>(
            CubeError::BeamCountMismatch { expected: nfreq, got: bmaj@.len() as usize },
        ),
        bmaj@.len() == nfreq ==> r is Ok && r->Ok_0@ == table_beams(k, bmaj@, bmin@, bpa@),
{
    if bmaj.len() != nfreq {
        return Err(CubeError::BeamCountMismatch { expected: nfreq, got: bmaj.len() });
    }
    let mut beams: Vec<Option<Beam>> = Vec::new();
    let ghost all = table_beams(k, bmaj@, bmin@, bpa@);
    let mut i: usize = 0;
    while i < bmaj.len() && i < bmin.len() && i < bpa.len()
        invariant
            i <= bmaj.len(),
            i <= bmin.len(),
            i <= bpa.len(),
            table_kernel_is_function(k),
            all == table_beams(k, bmaj@, bmin@, bpa@),
            beams@ == all.take(i as int),
        decreases bmaj.len() - i,
    {
        let b = beam_of_table_row(k, bmaj[i], bmin[i], bpa[i]);
        beams.push(b);
        assert(all.take(i + 1) =~= all.take(i as int).push(all[i as int]));
        i = i + 1;
    }
    assert(beams@ =~= all);
    Ok(beams)
}

// ── Cube metadata ───────────────────────────────────────────────────────────

/// The header announces a BEAMS extension.  CASAMBM counts as a logical, and as a
/// string `T` or `TRUE`.
pub open spec fn announces_table(h: CubeHeader) -> bool {
    match h.casambm {
        Some(b) => b,
        None => match h.casambm_text {
            Some(s) => trim(s@) == "T"@ || trim(s@) == "TRUE"@,
            None => false,
        },
    }
}

/// True where beams come from the BEAMS extension (see [`announces_table`]).
pub fn has_beam_table(header: &CubeHeader) -> (r: bool)
    ensures
        r == announces_table(*header),
{
    match header.casambm {
        Some(b) => b,
        None => match &header.casambm_text {
            Some(s) => {
                let all = chars_of(s.as_str());
                let t = trimmed(&all);
                text_is(&t, "T") || text_is(&t, "TRUE")
            },
            None => false,
        },
    }
}

/// The first thing that is wrong with a cube's header, in the order in which it is
/// read.
pub open spec fn header_fault(h: CubeHeader) -> Option<CubeError> {
    if h.naxis is None {
        Some(CubeError::Unreadable(CubeItem::Naxis))
    } else if h.naxis->0 != 3 && h.naxis->0 != 4 {
        Some(CubeError::UnsupportedNaxis(h.naxis->0))
    } else if h.naxis1 is None {
        Some(CubeError::Unreadable(CubeItem::Naxis1))
    } else if h.naxis2 is None {
        Some(CubeError::Unreadable(CubeItem::Naxis2))
    } else if h.naxis3 is None {
        Some(CubeError::Unreadable(CubeItem::Naxis3))
    } else if h.naxis->0 == 4 && h.naxis4 is None {
        Some(CubeError::Unreadable(CubeItem::Naxis4))
    } else if h.cdelt1 is None {
        Some(CubeError::Unreadable(CubeItem::Cdelt1))
    } else if h.cdelt2 is None {
        Some(CubeError::Unreadable(CubeItem::Cdelt2))
    } else {
        None
    }
}

/// One entry per beam: a masked beam, which is zero, is no beam.
pub open spec fn unmasked(bs: Seq<Beam>) -> Seq<Option<Beam>> {
    Seq::new(
        bs.len(),
        |i: int|
            if bs[i].masked() {
                None
            } else {
                Some(bs[i])
            },
    )
}

/// The per-channel beams of a cube from the source with the highest priority.
pub open spec fn cube_beams<K: TableKernel>(
    k: &K,
    h: CubeHeader,
    nfreq: usize,
    table: TableRead,
    log: LogRead,
) -> Result<Seq<Option<Beam>>, CubeError> {
    if announces_table(h) {
        match table {
            TableRead::Missing => Err(CubeError::MissingBeamsTable),
            TableRead::Unreadable(c) => Err(CubeError::Unreadable(CubeItem::Column(c))),
            TableRead::Columns { bmaj, bmin, bpa } => if bmaj@.len() != nfreq {
                Err(CubeError::BeamCountMismatch { expected: nfreq, got: bmaj@.len() as usize })
            } else {
                Ok(table_beams(k, bmaj@, bmin@, bpa@))
            },
        }
    } else {
        match log {
            LogRead::Unreadable => Err(CubeError::Unreadable(CubeItem::Beamlog)),
            LogRead::Text(s) => match log_beams(k, lines(s@)) {
                Err(e) => Err(CubeError::Beamlog(e)),
                Ok(bs) => if bs.len() != nfreq {
                    Err(CubeError::BeamCountMismatch { expected: nfreq, got: bs.len() as usize })
                } else {
                    Ok(unmasked(bs))
                },
            },
            LogRead::Absent => match h.bmaj {
                None => Err(CubeError::NoBeans),
                Some(bmaj) => match header_beam(bmaj, h.bmin, h.bpa) {
                    Err(e) => Err(CubeError::Beam(e)),
                    Ok(b) => Ok(Seq::new(nfreq as nat, |i: int| Some(b))),
                },
            },
        }
    }
}

pub open spec fn or_default(x: Option<i64>, d: int) -> int {
    match x {
        Some(v) => v as int,
        None => d,
    }
}

/// `n` channels with the same beam.
pub fn repeated(b: Option<Beam>, n: usize) -> (r: Vec<Option<Beam>>)
    ensures
        r@ == Seq::new(n as nat, |i: int| b),
{
    let mut v: Vec<Option<Beam>> = Vec::new();
    let mut i: usize = 0;
    while i < n
        invariant
            i <= n,
            v@ == Seq::new(i as nat, |j: int| b),
        decreases n - i,
    {
        v.push(b);
        assert(v@ =~= Seq::new((i + 1) as nat, |j: int| b));
        i = i + 1;
    }
    v
}

fn beams_of_cube<K: TableKernel>(
    k: &K,
    h: &CubeHeader,
    nfreq: usize,
    table: &TableRead,
    log: &LogRead,
) -> (r: Result<Vec<Option<Beam>>, CubeError>)
    requires
        table_kernel_is_function(k),
    ensures
        match cube_beams(k, *h, nfreq, *table, *log) {
            Ok(bs) => r is Ok && r->Ok_0@ == bs,
            Err(e) => r == Err::<Vec<Option<Beam>>, CubeError>(e),
        },
{
    if has_beam_table(h) {
        match table {
            TableRead::Missing => Err(CubeError::MissingBeamsTable),
            TableRead::Unreadable(c) => Err(CubeError::Unreadable(CubeItem::Column(*c))),
            TableRead::Columns { bmaj, bmin, bpa } => read_casambm_beams(
                k,
                bmaj,
                bmin,
                bpa,
                nfreq,
            ),
        }
    } else {
        match log {
            LogRead::Unreadable => Err(CubeError::Unreadable(CubeItem::Beamlog)),
            LogRead::Text(s) => match read_beamlog(k, s.as_str()) {
                Err(e) => Err(CubeError::Beamlog(e)),
                Ok(bs) => {
                    if bs.len() != nfreq {
                        return Err(
                            CubeError::BeamCountMismatch { expected: nfreq, got: bs.len() },
                        );
                    }
                    let mut beams: Vec<Option<Beam>> = Vec::new();
                    let mut i: usize = 0;
                    while i < bs.len()
                        invariant
                            i <= bs.len(),
                            beams@.len() == i,
                            forall|j: int| 0 <= j < i ==> beams@[j] == unmasked(bs@)[j],
                        decreases bs.len() - i,
                    {
                        beams.push(
                            if bs[i].is_zero() {
                                None
                            } else {
                                Some(bs[i])
                            },
                        );
                        i = i + 1;
                    }
                    assert(beams@ =~= unmasked(bs@));
                    Ok(beams)
                },
            },
            LogRead::Absent => match h.bmaj {
                None => Err(CubeError::NoBeans),
                Some(bmaj) => match beam_from_header(bmaj, h.bmin, h.bpa) {
                    Err(e) => Err(CubeError::Beam(e)),
                    Ok(b) => Ok(repeated(Some(b), nfreq)),
                },
            },
        }
    }
}

/// Make the metadata of a cube from its header and its beam sources.
///
/// `table` is looked at only where [`has_beam_table`] holds, `log` only where it
/// does not.
pub fn read_cube_meta<K: TableKernel>(
    k: &K,
    path: String,
    header: &CubeHeader,
    table: &TableRead,
    log: &LogRead,
) -> (r: Result<CubeMeta, CubeError>)
    requires
        table_kernel_is_function(k),
    ensures
        match header_fault(*header) {
            Some(e) => r == Err::<CubeMeta, CubeError>(e),
            None => {
                let nfreq = header.naxis3->0 as usize;
                match cube_beams(k, *header, nfreq, *table, *log) {
                    Err(e) => r == Err::<CubeMeta, CubeError>(e),
                    Ok(beams) => {
                        &&& r is Ok
                        &&& r->Ok_0.path == path
                        &&& r->Ok_0.nx == header.naxis1->0 as usize
                        &&& r->Ok_0.ny == header.naxis2->0 as usize
                        &&& r->Ok_0.nfreq == nfreq
                        &&& r->Ok_0.is_4d == (header.naxis->0 == 4)
                        &&& header.naxis->0 == 4 ==> r->Ok_0.nstokes == header.naxis4->0 as usize
                        &&& header.naxis->0 == 3 ==> r->Ok_0.nstokes == 1
                        &&& r->Ok_0.dx_deg == header.cdelt1->0.absolute()
                        &&& r->Ok_0.dy_deg == header.cdelt2->0.absolute()
                        &&& r->Ok_0.crpix_freq == or_default(header.crpix3, 1)
                        &&& r->Ok_0.beams@ == beams
                        &&& r->Ok_0.unit == header_unit(text_of(header.bunit))
                        &&& r->Ok_0.bitpix == or_default(header.bitpix, -32)
                        &&& r->Ok_0.dtype == PixelType::F64 <==> r->Ok_0.bitpix == -64
                    },
                }
            },
        },
{
    let naxis = match header.naxis {
        Some(n) => n,
        None => return Err(CubeError::Unreadable(CubeItem::Naxis)),
    };
    if naxis != 3 && naxis != 4 {
        return Err(CubeError::UnsupportedNaxis(naxis));
    }
    let naxis1 = match header.naxis1 {
        Some(n) => n,
        None => return Err(CubeError::Unreadable(CubeItem::Naxis1)),
    };
    let naxis2 = match header.naxis2 {
        Some(n) => n,
        None => return Err(CubeError::Unreadable(CubeItem::Naxis2)),
    };
    let naxis3 = match header.naxis3 {
        Some(n) => n,
        None => return Err(CubeError::Unreadable(CubeItem::Naxis3)),
    };
    let is_4d = naxis == 4;
    let mut nstokes: usize = 1;
    if is_4d {
        let naxis4 = match header.naxis4 {
            Some(n) => n,
            None => return Err(CubeError::Unreadable(CubeItem::Naxis4)),
        };
        nstokes = #[verifier::truncate]
        (naxis4 as usize);
    }
    #[verifier::truncate]
    let nx = naxis1 as usize;
    #[verifier::truncate]
    let ny = naxis2 as usize;
    #[verifier::truncate]
    let nfreq = naxis3 as usize;
    let cdelt1 = match header.cdelt1 {
        Some(x) => x,
        None => return Err(CubeError::Unreadable(CubeItem::Cdelt1)),
    };
    let cdelt2 = match header.cdelt2 {
        Some(x) => x,
        None => return Err(CubeError::Unreadable(CubeItem::Cdelt2)),
    };
    let crpix_freq: i64 = match header.crpix3 {
        Some(n) => n,
        None => 1,
    };
    let bitpix: i64 = match header.bitpix {
        Some(n) => n,
        None => -32,
    };
    let unit = unit_from_header(&header.bunit);
    match beams_of_cube(k, header, nfreq, table, log) {
        Err(e) => Err(e),
        Ok(beams) => Ok(
            CubeMeta {
                path,
                nx,
                ny,
                nfreq,
                nstokes,
                dx_deg: cdelt1.abs(),
                dy_deg: cdelt2.abs(),
                crpix_freq,
                beams,
                is_4d,
                unit,
                dtype: PixelType::from_bitpix(bitpix),
                bitpix,
            },
        ),
    }
}

// ── Channels ────────────────────────────────────────────────────────────────

impl CubeMeta {
    /// Pixels of one channel.
    pub open spec fn plane(self) -> int {
        self.ny * self.nx
    }

    /// Where a cube stores IEEE floats verbatim.
    pub fn is_native_float(&self) -> (r: bool)
        ensures
            r == (self.bitpix == -32 || self.bitpix == -64),
    {
        self.bitpix == -32 || self.bitpix == -64
    }

    /// Flat element range `[start, end)` of frequency channel `chan` (Stokes 0) in
    /// the primary data unit.
    pub fn channel_range(&self, chan: usize) -> (r: (usize, usize))
        requires
            (chan + 1) * self.plane() <= usize::MAX,
        ensures
            r.0 == chan * self.plane(),
            r.1 == (chan + 1) * self.plane(),
    {
        proof {
            assert((chan + 1) * self.plane() == chan * self.plane() + self.plane())
                by (nonlinear_arith);
            assert(chan * self.plane() >= 0) by (nonlinear_arith)
                requires
                    self.plane() >= 0,
            ;
        }
        let plane = self.ny * self.nx;
        let start = chan * plane;
        (start, start + plane)
    }

    /// Path of the beamlog next to the cube.
    pub fn beamlog_path(&self) -> (r: String)
        ensures
            r@ == beamlog_for(self.path@),
    {
        beamlog_path_for(self.path.as_str())
    }
}

/// `{dir}/beamlog.{stem}.txt` for the cube at `path`.
pub open spec fn beamlog_for(path: Seq<char>) -> Seq<char> {
    let dir = match parent(path) {
        Some(d) => d,
        None => seq!['.'],
    };
    let stem = match file_stem(path) {
        Some(s) => s,
        None => Seq::empty(),
    };
    join(dir, "beamlog."@ + stem + ".txt"@)
}

/// Path of the beamlog next to a cube (see [`beamlog_for`]).
pub fn beamlog_path_for(path: &str) -> (r: String)
    ensures
        r@ == beamlog_for(path@),
{
    let p = chars_of(path);
    let dir = match parent_of(&p) {
        Some(d) => d,
        None => vec!['.'],
    };
    let mut name: Vec<char> = Vec::new();
    push_str(&mut name, "beamlog.");
    if let Some(stem) = file_stem_of(&p) {
        push_all(&mut name, &stem);
    }
    push_str(&mut name, ".txt");
    proof {
        let want = match parent(path@) {
            Some(d) => d,
            None => seq!['.'],
        };
        assert(dir@ =~= want);
        let stem = match file_stem(path@) {
            Some(s) => s,
            None => Seq::empty(),
        };
        assert(name@ =~= "beamlog."@ + stem + ".txt"@);
    }
    let out = joined(&dir, &name);
    string_of(&out)
}

/// The channels of a cube lie one behind the other: none overlaps another, and
/// together they fill the data of Stokes 0.
pub proof fn law_channels_tile_the_cube(plane: int, a: int, b: int, nfreq: int)
    requires
        0 <= plane,
        0 <= a < b < nfreq,
    ensures
        (a + 1) * plane <= b * plane,
        (b + 1) * plane <= nfreq * plane,
        b == a + 1 ==> (a + 1) * plane == b * plane,
{
    assert((a + 1) * plane <= b * plane && (b + 1) * plane <= nfreq * plane) by (nonlinear_arith)
        requires
            0 <= plane,
            0 <= a < b < nfreq,
    ;
}

/// The data of a cube with the pixels of channel `c` written to its range.
pub open spec fn with_channel<T>(data: Seq<T>, plane: int, c: int, pixels: Seq<T>) -> Seq<T> {
    data.take(c * plane) + pixels + data.skip((c + 1) * plane)
}

/// The pixels of channel `c`.
pub open spec fn channel_pixels<T>(data: Seq<T>, plane: int, c: int) -> Seq<T> {
    data.subrange(c * plane, (c + 1) * plane)
}

/// A channel that was written reads back, and no other channel changes.
pub proof fn law_channel_reads_back<T>(
    data: Seq<T>,
    plane: int,
    nfreq: int,
    c: int,
    d: int,
    pixels: Seq<T>,
)
    requires
        0 <= plane,
        0 <= c < nfreq,
        0 <= d < nfreq,
        data.len() == nfreq * plane,
        pixels.len() == plane,
    ensures
        with_channel(data, plane, c, pixels).len() == data.len(),
        channel_pixels(with_channel(data, plane, c, pixels), plane, c) == pixels,
        d != c ==> channel_pixels(with_channel(data, plane, c, pixels), plane, d)
            == channel_pixels(data, plane, d),
{
    assert(0 <= c * plane && (c + 1) * plane == c * plane + plane && (c + 1) * plane <= nfreq
        * plane) by (nonlinear_arith)
        requires
            0 <= plane,
            0 <= c < nfreq,
    ;
    assert(0 <= d * plane && (d + 1) * plane == d * plane + plane && (d + 1) * plane <= nfreq
        * plane) by (nonlinear_arith)
        requires
            0 <= plane,
            0 <= d < nfreq,
    ;
    if d < c {
        law_channels_tile_the_cube(plane, d, c, nfreq);
    } else if c < d {
        law_channels_tile_the_cube(plane, c, d, nfreq);
    }
    let after = with_channel(data, plane, c, pixels);
    assert(channel_pixels(after, plane, c) =~= pixels);
    if d != c {
        assert(channel_pixels(after, plane, d) =~= channel_pixels(data, plane, d));
    }
}

/// The plane of one channel, from the pixels of its range.
pub fn read_channel_as<T: FftFloat>(meta: &CubeMeta, data: Vec<T>) -> (r: Result<
    Plane<T>,
    CubeError,
>)
    ensures
        data@.len() == meta.plane() ==> r is Ok && r->Ok_0.wf() && r->Ok_0.nrows == meta.ny
            && r->Ok_0.ncols == meta.nx && r->Ok_0.data@ == data@,
        data@.len() != meta.plane() ==> r == Err::<Plane<T>, CubeError>(CubeError::Shape),
{
    match Plane::from_shape_vec(meta.ny, meta.nx, data) {
        Ok(p) => Ok(p),
        Err(_) => Err(CubeError::Shape),
    }
}

/// Byte offset of a channel in a file whose primary data unit starts at
/// `data_offset`.
pub fn channel_offset(data_offset: u64, plane_bytes: usize, chan: usize) -> (r: u64)
    requires
        chan * plane_bytes <= usize::MAX,
        data_offset + chan * plane_bytes <= u64::MAX,
    ensures
        r == data_offset + chan * plane_bytes,
{
    data_offset + (chan * plane_bytes) as u64
}

// ── Output cube ─────────────────────────────────────────────────────────────

/// The reference channel, clamped to the range of channels.
pub open spec fn reference_channel(crpix: int, nfreq: int) -> int {
    if crpix - 1 >= nfreq {
        if nfreq > 0 {
            nfreq - 1
        } else {
            0
        }
    } else if crpix < 1 {
        0
    } else {
        crpix - 1
    }
}

/// The first beam that is there, if any is.
pub open spec fn first_beam(beams: Seq<Option<Beam>>) -> Option<Beam>
    decreases beams.len(),
{
    if beams.len() == 0 {
        None
    } else if beams[0] is Some {
        beams[0]
    } else {
        first_beam(beams.drop_first())
    }
}

/// The beam for the primary header: that of the reference channel, else the first
/// valid one, else the zero beam.
pub open spec fn reference_beam(beams: Seq<Option<Beam>>, crpix: int, nfreq: int) -> Beam {
    match beams[reference_channel(crpix, nfreq)] {
        Some(b) => b,
        None => match first_beam(beams) {
            Some(b) => b,
            None => Beam::zero_spec(),
        },
    }
}

/// The first beam that is there (see [`first_beam`]).
pub fn first_valid(beams: &Vec<Option<Beam>>) -> (r: Option<Beam>)
    ensures
        r == first_beam(beams@),
{
    let mut i: usize = 0;
    assert(beams@.skip(0) =~= beams@);
    while i < beams.len()
        invariant
            i <= beams.len(),
            first_beam(beams@) == first_beam(beams@.skip(i as int)),
        decreases beams.len() - i,
    {
        assert(beams@.skip(i as int)[0] == beams@[i as int]);
        assert(beams@.skip(i as int).drop_first() =~= beams@.skip(i + 1));
        if let Some(b) = beams[i] {
            return Some(b);
        }
        i = i + 1;
    }
    None
}

/// Reference beam for the primary header (see [`reference_beam`]).
pub fn ref_beam_for(target_beams: &Vec<Option<Beam>>, crpix_freq: i64, nfreq: usize) -> (r: Beam)
    requires
        0 < target_beams@.len(),
        nfreq <= target_beams@.len(),
    ensures
        r == reference_beam(target_beams@, crpix_freq as int, nfreq as int),
{
    let last: usize = if nfreq > 0 {
        nfreq - 1
    } else {
        0
    };
    let i: usize = if crpix_freq < 1 {
        0
    } else if (crpix_freq - 1) as u64 >= last as u64 {
        last
    } else {
        (crpix_freq - 1) as usize
    };
    match target_beams[i] {
        Some(b) => b,
        None => match first_valid(target_beams) {
            Some(b) => b,
            None => Beam::zero(),
        },
    }
}

/// A BEAMS extension: its columns and the cards that go with them.
pub struct BeamTable {
    /// Major axes in arcseconds.
    pub bmaj: Vec<Single>,
    /// Minor axes in arcseconds.
    pub bmin: Vec<Single>,
    /// Angles in degrees.
    pub bpa: Vec<Single>,
    pub chan: Vec<i32>,
    pub pol: Vec<i32>,
    /// TUNIT cards of the first three columns.
    pub units: Vec<(&'static str, &'static str)>,
    /// NCHAN and NPOL.
    pub counts: Vec<(&'static str, i64)>,
}

/// One row of the beam columns; a masked channel is marked by tiny values.
pub open spec fn table_row<K: TableKernel>(k: &K, b: Option<Beam>) -> (Single, Single, Single) {
    let tiny = Single { bits: TINY_SINGLE };
    match b {
        Some(b) => (
            single_of(k, major_arcsec_of(k, b)),
            single_of(k, minor_arcsec_of(k, b)),
            single_of(k, b.pa_deg),
        ),
        None => (tiny, tiny, tiny),
    }
}

impl BeamTable {
    /// The table holds the given beams, for `nfreq` channels of one polarisation.
    pub open spec fn holds<K: TableKernel>(self, k: &K, beams: Seq<Option<Beam>>, nfreq: usize) -> bool {
        let rows = if (nfreq as i32) < 0 {
            0
        } else {
            nfreq as i32 as int
        };
        &&& self.bmaj@ == Seq::new(beams.len(), |i: int| table_row(k, beams[i]).0)
        &&& self.bmin@ == Seq::new(beams.len(), |i: int| table_row(k, beams[i]).1)
        &&& self.bpa@ == Seq::new(beams.len(), |i: int| table_row(k, beams[i]).2)
        &&& self.chan@ == Seq::new(rows as nat, |i: int| i as i32)
        &&& self.pol@ == Seq::new(nfreq as nat, |i: int| 0i32)
        &&& self.units@ == seq![("TUNIT1", "arcsec"), ("TUNIT2", "arcsec"), ("TUNIT3", "deg")]
        &&& self.counts@ == seq![("NCHAN", nfreq as i64), ("NPOL", 1i64)]
    }
}

/// The columns of the BEAMS extension for the given beams.
pub fn beams_table<K: TableKernel>(k: &K, target_beams: &Vec<Option<Beam>>, nfreq: usize) -> (r:
    BeamTable)
    requires
        table_kernel_is_function(k),
    ensures
        r.holds(k, target_beams@, nfreq),
{
    let tiny = Single::from_bits(TINY_SINGLE);
    let mut bmaj: Vec<Single> = Vec::new();
    let mut bmin: Vec<Single> = Vec::new();
    let mut bpa: Vec<Single> = Vec::new();
    let mut i: usize = 0;
    while i < target_beams.len()
        invariant
            i <= target_beams.len(),
            table_kernel_is_function(k),
            tiny == (Single { bits: TINY_SINGLE }),
            bmaj@ == Seq::new(i as nat, |j: int| table_row(k, target_beams@[j]).0),
            bmin@ == Seq::new(i as nat, |j: int| table_row(k, target_beams@[j]).1),
            bpa@ == Seq::new(i as nat, |j: int| table_row(k, target_beams@[j]).2),
        decreases target_beams.len() - i,
    {
        match target_beams[i] {
            Some(b) => {
                let major = k.major_arcsec(&b);
                let minor = k.minor_arcsec(&b);
                let x = k.single(major);
                let y = k.single(minor);
                let z = k.single(b.pa_deg);
                bmaj.push(x);
                bmin.push(y);
                bpa.push(z);
            },
            None => {
                bmaj.push(tiny);
                bmin.push(tiny);
                bpa.push(tiny);
            },
        }
        i = i + 1;
        assert(bmaj@ =~= Seq::new(i as nat, |j: int| table_row(k, target_beams@[j]).0));
        assert(bmin@ =~= Seq::new(i as nat, |j: int| table_row(k, target_beams@[j]).1));
        assert(bpa@ =~= Seq::new(i as nat, |j: int| table_row(k, target_beams@[j]).2));
    }
    #[verifier::truncate]
    let top = nfreq as i32;
    let mut chan: Vec<i32> = Vec::new();
    let mut c: i32 = 0;
    while c < top
        invariant
            0 <= c,
            c <= top || c == 0,
            chan@ == Seq::new(c as nat, |j: int| j as i32),
        decreases top - c,
    {
        chan.push(c);
        c = c + 1;
        assert(chan@ =~= Seq::new(c as nat, |j: int| j as i32));
    }
    let mut pol: Vec<i32> = Vec::new();
    let mut n: usize = 0;
    while n < nfreq
        invariant
            n <= nfreq,
            pol@ == Seq::new(n as nat, |j: int| 0i32),
        decreases nfreq - n,
    {
        pol.push(0);
        n = n + 1;
        assert(pol@ =~= Seq::new(n as nat, |j: int| 0i32));
    }
    let mut units: Vec<(&'static str, &'static str)> = Vec::new();
    units.push(("TUNIT1", "arcsec"));
    units.push(("TUNIT2", "arcsec"));
    units.push(("TUNIT3", "deg"));
    let mut counts: Vec<(&'static str, i64)> = Vec::new();
    counts.push(
        (
            "NCHAN",
            #[verifier::truncate]
            (nfreq as i64),
        ),
    );
    counts.push(("NPOL", 1));
    assert(units@ =~= seq![("TUNIT1", "arcsec"), ("TUNIT2", "arcsec"), ("TUNIT3", "deg")]);
    assert(counts@ =~= seq![("NCHAN", nfreq as i64), ("NPOL", 1i64)]);
    BeamTable { bmaj, bmin, bpa, chan, pol, units, counts }
}

/// What an output cube carries besides its pixels and the header that it takes
/// over from its input.
pub struct OutputPlan {
    /// Primary-header cards of the reference beam, written in place.
    pub cards: Vec<(&'static str, Double)>,
    /// CASAMBM, written as a logical.
    pub casambm: bool,
    /// BEAMS extension, appended behind the primary data unit.
    pub beams: Option<BeamTable>,
}

/// What [`CubeMode`] asks of an output cube: the reference beam in the primary
/// header always, and the BEAMS extension in natural mode only.
pub fn init_output_cube<K: TableKernel>(
    k: &K,
    target_beams: &Vec<Option<Beam>>,
    mode: CubeMode,
    crpix_freq: i64,
    nfreq: usize,
) -> (r: OutputPlan)
    requires
        table_kernel_is_function(k),
        0 < target_beams@.len(),
        nfreq <= target_beams@.len(),
    ensures
        ({
            let b = reference_beam(target_beams@, crpix_freq as int, nfreq as int);
            r.cards@ == seq![("BMAJ", b.major_deg), ("BMIN", b.minor_deg), ("BPA", b.pa_deg)]
        }),
        r.casambm == (mode == CubeMode::Natural),
        r.beams is Some == (mode == CubeMode::Natural),
        r.beams matches Some(t) ==> t.holds(k, target_beams@, nfreq),
{
    let b = ref_beam_for(target_beams, crpix_freq, nfreq);
    let natural = mode == CubeMode::Natural;
    let beams = if natural {
        Some(beams_table(k, target_beams, nfreq))
    } else {
        None
    };
    OutputPlan { cards: beam_cards(&b), casambm: natural, beams }
}

/// The mark of a masked channel is read as masked.
pub open spec fn masks_survive<K: TableKernel>(k: &K) -> bool {
    degrees_of(k, widened(k, Single { bits: TINY_SINGLE })).at_most(Double { bits: TINY })
}

/// What a beam is once its numbers were stored in a BEAMS extension.
pub open spec fn stored_beam<K: TableKernel>(k: &K, b: Beam) -> Beam {
    Beam {
        major_deg: degrees_of(k, widened(k, single_of(k, major_arcsec_of(k, b)))),
        minor_deg: degrees_of(k, widened(k, single_of(k, minor_arcsec_of(k, b)))).larger(
            Double { bits: TINY },
        ),
        pa_deg: widened(k, single_of(k, b.pa_deg)),
    }
}

/// The stored numbers of a beam are still a beam that is not masked: the major axis
/// is finite and not tiny, and the minor axis, which is finite too, is no larger.
pub open spec fn survives_storing<K: TableKernel>(k: &K, b: Beam) -> bool {
    let major = degrees_of(k, widened(k, single_of(k, major_arcsec_of(k, b))));
    let minor = degrees_of(k, widened(k, single_of(k, minor_arcsec_of(k, b))));
    &&& major.finite() && !major.at_most(Double { bits: TINY })
    &&& minor.finite() && minor.units() <= major.units()
    &&& widened(k, single_of(k, b.pa_deg)).finite()
}

/// A BEAMS extension reads back with one entry per channel: a masked channel reads
/// back as masked, another as the beam of its stored numbers.  Where those are still
/// a beam the channel reads back as one, with the stored major axis and angle, and
/// with the stored minor axis unless that is tiny.
pub proof fn law_beam_table_reads_back<K: TableKernel>(
    k: &K,
    table: BeamTable,
    beams: Seq<Option<Beam>>,
    nfreq: usize,
    i: int,
)
    requires
        masks_survive(k),
        table.holds(k, beams, nfreq),
        0 <= i < beams.len(),
    ensures
        ({
            let back = table_beams(k, table.bmaj@, table.bmin@, table.bpa@);
            &&& back.len() == beams.len()
            &&& beams[i] is None ==> back[i] is None
            &&& beams[i] matches Some(b) ==> back[i] == table_beam(
                k,
                single_of(k, major_arcsec_of(k, b)),
                single_of(k, minor_arcsec_of(k, b)),
                single_of(k, b.pa_deg),
            )
            &&& beams[i] matches Some(b) ==> survives_storing(k, b) ==> back[i] == Some(
                stored_beam(k, b),
            )
        }),
{
}

/// A cube that was written in natural mode reads its beams back: one entry per
/// channel, masked exactly where the target was, and otherwise as close to the target
/// as storing its numbers keeps them.
pub proof fn law_natural_cube_reads_back<K: TableKernel>(
    k: &K,
    h: CubeHeader,
    target: Seq<Option<Beam>>,
    nfreq: usize,
    plan: OutputPlan,
    table: TableRead,
    log: LogRead,
    close: spec_fn(Double, Double) -> bool,
)
    requires
        masks_survive(k),
        target.len() == nfreq,
        plan.casambm,
        plan.beams matches Some(t) && t.holds(k, target, nfreq),
        h.casambm == Some(plan.casambm),
        table matches TableRead::Columns { bmaj, bmin, bpa } && bmaj@ == plan.beams->0.bmaj@
            && bmin@ == plan.beams->0.bmin@ && bpa@ == plan.beams->0.bpa@,
        forall|c: int|
            0 <= c < target.len() ==> (#[trigger] target[c] matches Some(b) ==> survives_storing(
                k,
                b,
            ) && b.near(stored_beam(k, b), close)),
    ensures
        cube_beams(k, h, nfreq, table, log) matches Ok(back) && back.len() == target.len()
            && forall|c: int|
            0 <= c < target.len() ==> {
                &&& #[trigger] back[c] is None <==> target[c] is None
                &&& target[c] matches Some(b) ==> back[c] matches Some(r) && b.near(r, close)
            },
{
    let t = plan.beams->0;
    let back = table_beams(k, t.bmaj@, t.bmin@, t.bpa@);
    assert forall|c: int| 0 <= c < target.len() implies {
        &&& #[trigger] back[c] is None <==> target[c] is None
        &&& target[c] matches Some(b) ==> back[c] matches Some(r) && b.near(r, close)
    } by {
        law_beam_table_reads_back(k, t, target, nfreq, c);
    }
}

/// A cube that was written in total mode reads the reference beam back for every
/// channel, where no beamlog stands next to it.
pub proof fn law_total_cube_reads_back<K: TableKernel>(
    k: &K,
    h: CubeHeader,
    target: Seq<Option<Beam>>,
    crpix: int,
    nfreq: usize,
    table: TableRead,
)
    requires
        reference_beam(target, crpix, nfreq as int).valid(),
        h.casambm == Some(false),
        h.bmaj == Some(reference_beam(target, crpix, nfreq as int).major_deg),
        h.bmin == Some(reference_beam(target, crpix, nfreq as int).minor_deg),
        h.bpa == Some(reference_beam(target, crpix, nfreq as int).pa_deg),
    ensures
        cube_beams(k, h, nfreq, table, LogRead::Absent) == Ok::<Seq<Option<Beam>>, CubeError>(
            Seq::new(nfreq as nat, |i: int| Some(reference_beam(target, crpix, nfreq as int))),
        ),
{
    law_beam_cards_read_back(reference_beam(target, crpix, nfreq as int));
}

/// A cube whose output plan says so reads its beams from the extension again.
pub proof fn law_mode_decides_beam_source(h: CubeHeader, mode: CubeMode)
    requires
        h.casambm == Some(mode == CubeMode::Natural),
    ensures
        announces_table(h) <==> mode == CubeMode::Natural,
{
}

// ── Data unit ───────────────────────────────────────────────────────────────

/// Length of a header card.
pub const CARD: usize = 80;

/// Length of a FITS block.
pub const BLOCK: usize = 2880;

/// The card at the given offset is the END card.
pub open spec fn is_end_card(bytes: Seq<u8>, at: int) -> bool {
    &&& 0 <= at <= bytes.len() - 8
    &&& bytes.subrange(at, at + 8) == seq![69u8, 78u8, 68u8, 32u8, 32u8, 32u8, 32u8, 32u8]
}

/// `offset` is where the data unit starts: the block behind the first END card.
pub open spec fn is_data_start(bytes: Seq<u8>, offset: int) -> bool {
    exists|c: int|
        {
            &&& 0 <= c
            &&& #[trigger] is_end_card(bytes, c * CARD)
            &&& forall|d: int| 0 <= d < c ==> !#[trigger] is_end_card(bytes, d * CARD)
            &&& offset % (BLOCK as int) == 0
            &&& offset - BLOCK < (c + 1) * CARD <= offset
        }
}

fn end_card_at(bytes: &Vec<u8>, at: usize) -> (r: bool)
    requires
        at + 8 <= bytes.len(),
    ensures
        r == is_end_card(bytes@, at as int),
{
    let r = bytes[at] == 69 && bytes[at + 1] == 78 && bytes[at + 2] == 68 && bytes[at + 3] == 32
        && bytes[at + 4] == 32 && bytes[at + 5] == 32 && bytes[at + 6] == 32 && bytes[at + 7] == 32;
    proof {
        let s = bytes@.subrange(at as int, at + 8);
        let e = seq![69u8, 78u8, 68u8, 32u8, 32u8, 32u8, 32u8, 32u8];
        assert(s[0] == bytes@[at as int] && s[1] == bytes@[at + 1] && s[2] == bytes@[at + 2]
            && s[3] == bytes@[at + 3] && s[4] == bytes@[at + 4] && s[5] == bytes@[at + 5]
            && s[6] == bytes@[at + 6] && s[7] == bytes@[at + 7]);
        if r {
            assert(s =~= e);
        }
        if s == e {
            assert(e[0] == 69 && e[1] == 78 && e[2] == 68 && e[3] == 32 && e[4] == 32 && e[5] == 32
                && e[6] == 32 && e[7] == 32);
        }
    }
    r
}

/// Where the primary data unit starts in a file that begins with `bytes`, if its
/// header ends within them.
pub fn primary_data_offset(bytes: &Vec<u8>) -> (r: Option<u64>)
    requires
        bytes@.len() + BLOCK <= usize::MAX,
    ensures
        match r {
            Some(n) => is_data_start(bytes@, n as int),
            None => forall|c: int| 0 <= c ==> !#[trigger] is_end_card(bytes@, c * CARD),
        },
{
    let mut c: usize = 0;
    let mut at: usize = 0;
    while at + 8 <= bytes.len()
        invariant
            at == c * CARD,
            at <= bytes.len() + CARD,
            bytes@.len() + BLOCK <= usize::MAX,
            forall|d: int| 0 <= d < c ==> !#[trigger] is_end_card(bytes@, d * CARD),
        decreases bytes.len() + CARD - at,
    {
        if end_card_at(bytes, at) {
            let end = at + CARD;
            let rest = end % BLOCK;
            let offset = if rest == 0 {
                end
            } else {
                end + (BLOCK - rest)
            };
            assert(is_end_card(bytes@, c as int * CARD));
            assert(is_data_start(bytes@, offset as int));
            return Some(offset as u64);
        }
        c = c + 1;
        at = at + CARD;
    }
    assert forall|d: int| 0 <= d implies !#[trigger] is_end_card(bytes@, d * CARD) by {
        if d >= c {
            assert(d * CARD >= c * CARD);
        }
    }
    None
}

} // verus!
