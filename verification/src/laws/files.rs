//! Laws of images, cubes and their files.
use vstd::prelude::*;

use crate::beam::{degrees_of, major_arcsec_of, minor_arcsec_of, Beam, BeamError};
use crate::beamlog::{read_beamlog, BeamlogError};
use crate::cube_io::{
    beamlog_path_for, beams_table, channel_offset, first_beam, first_valid, has_beam_table,
    init_output_cube, primary_data_offset, read_casambm_beams, read_channel_as, read_cube_meta,
    ref_beam_for, single_of, table_kernel_is_function, widened, BeamTable, CubeError, CubeHeader,
    CubeItem, CubeMeta, CubeMode, LogRead, OutputPlan, PixelType, TableKernel, TableRead,
};
use crate::fits_io::{
    beam_cards, beam_from_header, output_path, read_fits, unit_from_header, FitsError,
    FitsImageData, FitsItem, ImageHeader,
};
use crate::ieee::{big_endian, Double, FftFloat, Single};
use crate::path::{
    extension, file_name, file_stem, join, law_joined_file_name, law_sibling_has_the_same_parent,
    parent,
};
use crate::plane::{plane_to_be_bytes, Plane};
use crate::smooth::{resolve_unit, BrightnessUnit, ResolvedUnit};
use crate::text::trim;

verus! {

/// The names of the conversions stand for what the kernel returns for the same numbers.
pub proof fn law_conversion_names<K: TableKernel>(k: &K, x: Single, y: Double)
    requires
        table_kernel_is_function(k),
    ensures
        call_ensures(K::widen, (k, x), y) ==> widened(k, x) == y,
        call_ensures(K::single, (k, y), x) ==> single_of(k, y) == x,
{
}

// ── Headers ─────────────────────────────────────────────────────────────────

/// The beam of a header has BMAJ, BMIN and BPA in degrees; without BMIN it is as wide as
/// it is long, and without BPA its angle is zero.
pub proof fn law_header_beam(
    bmaj: Double,
    bmin: Option<Double>,
    bpa: Option<Double>,
    r: Result<Beam, BeamError>,
    made: Result<Beam, BeamError>,
    minor: Double,
    pa: Double,
)
    requires
        call_ensures(beam_from_header, (bmaj, bmin, bpa), r),
        minor == (if bmin is Some {
            bmin->0
        } else {
            bmaj
        }),
        pa == (if bpa is Some {
            bpa->0
        } else {
            Double::zero_spec()
        }),
        call_ensures(Beam::new, (bmaj, minor, pa), made),
    ensures
        r == made,
        bmaj.finite() && bmin is None && bpa is None ==> r is Ok,
        r matches Ok(b) ==> b.major_deg == bmaj && b.minor_deg == minor && b.pa_deg == pa,
{
}

/// The cards of a beam name each value by its keyword.
pub proof fn law_cards_of_a_beam(b: Beam, r: Vec<(&'static str, Double)>)
    requires
        call_ensures(beam_cards, (&b,), r),
    ensures
        r@.len() == 3,
        r@[0] == ("BMAJ", b.major_deg),
        r@[1] == ("BMIN", b.minor_deg),
        r@[2] == ("BPA", b.pa_deg),
{
}

/// The unit of a header is that of its BUNIT value.
pub proof fn law_header_unit(
    bunit: Option<String>,
    value: &str,
    r: BrightnessUnit,
    resolved: ResolvedUnit,
)
    requires
        call_ensures(unit_from_header, (&bunit,), r),
        bunit matches Some(s) ==> value@ == s@,
        call_ensures(
            resolve_unit,
            (if bunit is Some {
                Some(value)
            } else {
                None
            },),
            resolved,
        ),
    ensures
        r == resolved.unit,
{
}

/// How far apart pixels are: the size of CDELT, whatever its sign.
pub open spec fn is_size_of(size: Double, cdelt: Double) -> bool {
    &&& size.nan() == cdelt.nan()
    &&& size.units() == if cdelt.units() < 0 {
        -cdelt.units()
    } else {
        cdelt.units()
    }
}

pub proof fn lemma_absolute(x: Double)
    ensures
        is_size_of(x.absolute(), x),
{
    crate::ieee::law_magnitude_orders_values(0, x.magnitude() + 1, 52);
    if x.magnitude() > 0 {
        crate::ieee::law_magnitude_orders_values(0, x.magnitude(), 52);
    }
    Double::constants_are_distinct();
}

/// An image is read from a header of two or four axes, with as many pixels as NAXIS1
/// columns times NAXIS2 rows, both pixel sizes, and a beam; it has the pixels as they
/// were read, and the rows, columns, sizes, beam and unit of the header.
pub proof fn law_image_of_a_header(
    path: String,
    h: ImageHeader,
    pixels: Option<Vec<Single>>,
    r: Result<FitsImageData, FitsError>,
    beam: Result<Beam, BeamError>,
    unit: BrightnessUnit,
)
    requires
        call_ensures(read_fits, (path, h, pixels), r),
        h.bmaj matches Some(bmaj) ==> call_ensures(beam_from_header, (bmaj, h.bmin, h.bpa), beam),
        call_ensures(unit_from_header, (&h.bunit,), unit),
    ensures
        r is Ok <==> {
            &&& h.naxis == Some(2i64) || h.naxis == Some(4i64)
            &&& h.naxis1 is Some && h.naxis2 is Some
            &&& pixels is Some && pixels->0@.len() == (h.naxis2->0 as usize) * (
            h.naxis1->0 as usize)
            &&& h.cdelt1 is Some && h.cdelt2 is Some
            &&& h.bmaj is Some && beam is Ok
        },
        r matches Ok(d) ==> {
            &&& d.path == path
            &&& d.image.data@ == pixels->0@
            &&& d.image.nrows == h.naxis2->0 as usize
            &&& d.image.ncols == h.naxis1->0 as usize
            &&& d.is_4d <==> h.naxis == Some(4i64)
            &&& is_size_of(d.dx_deg, h.cdelt1->0)
            &&& is_size_of(d.dy_deg, h.cdelt2->0)
            &&& d.beam == beam->Ok_0
            &&& d.unit == unit
        },
{
    if r is Ok {
        lemma_absolute(h.cdelt1->0);
        lemma_absolute(h.cdelt2->0);
    }
}

/// What is wrong with an image is told by the first thing that is, in the order in which
/// things are read.
pub proof fn law_image_faults(
    path: String,
    h: ImageHeader,
    pixels: Option<Vec<Single>>,
    r: Result<FitsImageData, FitsError>,
    beam: Result<Beam, BeamError>,
)
    requires
        call_ensures(read_fits, (path, h, pixels), r),
        h.bmaj matches Some(bmaj) ==> call_ensures(beam_from_header, (bmaj, h.bmin, h.bpa), beam),
    ensures
        r matches Err(e) ==> {
            let axes = h.naxis is Some && h.naxis1 is Some && h.naxis2 is Some;
            let known = axes && (h.naxis->0 == 2 || h.naxis->0 == 4);
            let full = known && pixels is Some && pixels->0@.len() == (h.naxis2->0 as usize) * (
            h.naxis1->0 as usize);
            let scaled = full && h.cdelt1 is Some && h.cdelt2 is Some;
            &&& h.naxis is None <==> e == FitsError::Fitsio(FitsItem::Naxis)
            &&& h.naxis is Some && h.naxis1 is None <==> e == FitsError::Fitsio(FitsItem::Naxis1)
            &&& h.naxis is Some && h.naxis1 is Some && h.naxis2 is None <==> e
                == FitsError::Fitsio(FitsItem::Naxis2)
            &&& axes && !known ==> e == FitsError::UnsupportedNaxis(h.naxis->0)
            &&& known && pixels is None <==> e == FitsError::Fitsio(FitsItem::Pixels)
            &&& known && pixels is Some && !full <==> e == FitsError::Shape
            &&& full && h.cdelt1 is None <==> e == FitsError::Fitsio(FitsItem::Cdelt1)
            &&& full && h.cdelt1 is Some && h.cdelt2 is None <==> e == FitsError::Fitsio(
                FitsItem::Cdelt2,
            )
            &&& scaled && h.bmaj is None <==> e == FitsError::MissingKeyword
            &&& scaled && h.bmaj is Some ==> beam is Err && e == FitsError::Beam(beam->Err_0)
        },
{
}

// ── Names of output ─────────────────────────────────────────────────────────

/// Output is named by the prefix, the stem of the input, the suffix and the extension of
/// the input, with a dot in front of the suffix and of the extension, and stands in the
/// output directory, or next to the input; input without a directory stands in `.`.
pub proof fn law_output_path(
    input: &str,
    suffix: Option<&str>,
    prefix: Option<&str>,
    outdir: Option<&str>,
    r: String,
)
    requires
        call_ensures(output_path, (input, suffix, prefix, outdir), r),
    ensures
        ({
            let lead = if prefix is Some {
                prefix->0@
            } else {
                Seq::empty()
            };
            let tail = if suffix is Some {
                seq!['.'] + suffix->0@
            } else {
                Seq::empty()
            };
            let ext = if extension(input@) is Some {
                extension(input@)->0
            } else {
                Seq::empty()
            };
            let stem = if file_stem(input@) is Some {
                file_stem(input@)->0
            } else {
                Seq::empty()
            };
            let name = lead + stem + tail + seq!['.'] + ext;
            &&& outdir is Some ==> r@ == join(outdir->0@, name)
            &&& outdir is None && parent(input@) is Some ==> r@ == join(parent(input@)->0, name)
            &&& outdir is None && parent(input@) is None ==> r@ == join(seq!['.'], name)
        }),
{
}

/// The beamlog of a cube stands next to it and is named after its stem.
pub proof fn law_beamlog_name(path: &str, r: String)
    requires
        call_ensures(beamlog_path_for, (path,), r),
    ensures
        file_name(path@) is Some ==> {
            &&& file_name(r@) == Some("beamlog."@ + file_stem(path@)->0 + ".txt"@)
            &&& parent(r@) == parent(path@)
        },
        file_name(path@) is None ==> file_name(r@) == Some("beamlog."@ + ".txt"@),
{
    reveal_strlit("beamlog.");
    reveal_strlit(".txt");
    crate::path::law_file_name_is_a_component(path@);
    crate::path::law_stem_and_extension(path@);
    let f = file_name(path@)->0;
    let stem = if file_name(path@) is Some {
        file_stem(path@)->0
    } else {
        Seq::empty()
    };
    let name = "beamlog."@ + stem + ".txt"@;
    assert("beamlog."@.len() == 8 && ".txt"@.len() == 4);
    if name.contains('/') {
        let i = choose|i: int| 0 <= i < name.len() && name[i] == '/';
        if 8 <= i < 8 + stem.len() {
            assert(stem[i - 8] == '/');
            assert(f[i - 8] == '/');
            assert(f.contains('/'));
        }
    }
    let dir = if parent(path@) is Some {
        parent(path@)->0
    } else {
        seq!['.']
    };
    law_joined_file_name(dir, name);
    assert(r@ == join(dir, name));
    if file_name(path@) is Some {
        law_sibling_has_the_same_parent(path@, name);
    } else {
        assert(name =~= "beamlog."@ + ".txt"@);
    }
}

// ── Beams of a cube ─────────────────────────────────────────────────────────

/// A BEAMS extension gives one entry per row, as far as all columns go: the beam of the row's axes, which are in
/// arcseconds, and its angle; none where the major axis is tiny or no finite number, or
/// where the values are no beam.
pub proof fn law_beams_of_a_table<K: TableKernel>(
    k: &K,
    bmaj: Vec<Single>,
    bmin: Vec<Single>,
    bpa: Vec<Single>,
    nfreq: usize,
    r: Result<Vec<Option<Beam>>, CubeError>,
    i: int,
)
    requires
        call_ensures(read_casambm_beams::<K>, (k, &bmaj, &bmin, &bpa, nfreq), r),
        0 <= i < nfreq,
        i < bmin@.len(),
        i < bpa@.len(),
    ensures
        r is Ok <==> bmaj@.len() == nfreq,
        r matches Err(e) ==> e == (CubeError::BeamCountMismatch {
            expected: nfreq,
            got: bmaj@.len() as usize,
        }),
        r matches Ok(v) ==> {
            let tiny = Double { bits: 0x3810_0000_0000_0000 };
            let major = degrees_of(k, widened(k, bmaj@[i]));
            let minor = degrees_of(k, widened(k, bmin@[i]));
            let pa = widened(k, bpa@[i]);
            let least = if minor.nan() || minor.below(tiny) {
                tiny
            } else {
                minor
            };
            &&& v@.len() <= nfreq && v@.len() <= bmin@.len() && v@.len() <= bpa@.len()
            &&& v@.len() == nfreq || v@.len() == bmin@.len() || v@.len() == bpa@.len()
            &&& v@[i] is Some <==> major.finite() && !major.at_most(tiny) && least.finite()
                && pa.finite() && least.units() <= major.units()
            &&& v@[i] matches Some(b) ==> b.major_deg == major && b.minor_deg == least && b.pa_deg
                == pa
        },
{
}

/// A cube takes its beams from the BEAMS extension where its header announces one by
/// CASAMBM, as a logical or as text; else from the beamlog next to it, where a masked
/// row is no beam; and without one, from the header, the same for all channels.
pub proof fn law_beams_of_a_cube<K: TableKernel>(
    k: &K,
    path: String,
    h: CubeHeader,
    table: TableRead,
    log: LogRead,
    r: Result<CubeMeta, CubeError>,
    announced: bool,
    rows: Result<Vec<Option<Beam>>, CubeError>,
    text: &str,
    logged: Result<Vec<Beam>, BeamlogError>,
    header: Result<Beam, BeamError>,
    c: int,
)
    requires
        call_ensures(read_cube_meta::<K>, (k, path, &h, &table, &log), r),
        call_ensures(has_beam_table, (&h,), announced),
        table matches TableRead::Columns { bmaj, bmin, bpa } ==> call_ensures(
            read_casambm_beams::<K>,
            (k, &bmaj, &bmin, &bpa, h.naxis3->0 as usize),
            rows,
        ),
        log matches LogRead::Text(s) ==> text@ == s@ && call_ensures(
            read_beamlog::<K>,
            (k, text),
            logged,
        ),
        h.bmaj matches Some(x) ==> call_ensures(beam_from_header, (x, h.bmin, h.bpa), header),
        r is Ok,
        0 <= c < h.naxis3->0 as usize,
    ensures
        ({
            let beams = r->Ok_0.beams@;
            &&& announced ==> table is Columns && rows is Ok && beams == rows->Ok_0@
            &&& !announced && log is Text ==> logged is Ok && beams.len() == logged->Ok_0@.len()
                == r->Ok_0.nfreq && {
                let b = logged->Ok_0@[c];
                let empty = !b.major_deg.nan() && b.major_deg.units() == 0 && !b.minor_deg.nan()
                    && b.minor_deg.units() == 0;
                &&& empty ==> beams[c] is None
                &&& !empty ==> beams[c] == Some(b)
            }
            &&& !announced ==> !(log is Unreadable)
            &&& !announced && log is Absent ==> h.bmaj is Some && header is Ok && beams.len()
                == r->Ok_0.nfreq && beams[c] == Some(header->Ok_0)
        }),
{
}

/// Why a cube with a good header has no beams, by source.
pub proof fn law_cubes_without_beams<K: TableKernel>(
    k: &K,
    path: String,
    h: CubeHeader,
    table: TableRead,
    log: LogRead,
    r: Result<CubeMeta, CubeError>,
    announced: bool,
    rows: Result<Vec<Option<Beam>>, CubeError>,
    text: &str,
    logged: Result<Vec<Beam>, BeamlogError>,
    header: Result<Beam, BeamError>,
)
    requires
        call_ensures(read_cube_meta::<K>, (k, path, &h, &table, &log), r),
        call_ensures(has_beam_table, (&h,), announced),
        table matches TableRead::Columns { bmaj, bmin, bpa } ==> call_ensures(
            read_casambm_beams::<K>,
            (k, &bmaj, &bmin, &bpa, h.naxis3->0 as usize),
            rows,
        ),
        log matches LogRead::Text(s) ==> text@ == s@ && call_ensures(
            read_beamlog::<K>,
            (k, text),
            logged,
        ),
        h.bmaj matches Some(x) ==> call_ensures(beam_from_header, (x, h.bmin, h.bpa), header),
        h.naxis == Some(3i64) || (h.naxis == Some(4i64) && h.naxis4 is Some),
        h.naxis1 is Some && h.naxis2 is Some && h.naxis3 is Some,
        h.cdelt1 is Some && h.cdelt2 is Some,
    ensures
        announced ==> match table {
            TableRead::Missing => r == Err::<CubeMeta, CubeError>(CubeError::MissingBeamsTable),
            TableRead::Unreadable(c) => r == Err::<CubeMeta, CubeError>(
                CubeError::Unreadable(CubeItem::Column(c)),
            ),
            TableRead::Columns { .. } => match rows {
                Err(e) => r == Err::<CubeMeta, CubeError>(e),
                Ok(_) => r is Ok,
            },
        },
        !announced ==> match log {
            LogRead::Unreadable => r == Err::<CubeMeta, CubeError>(
                CubeError::Unreadable(CubeItem::Beamlog),
            ),
            LogRead::Text(_) => match logged {
                Err(e) => r == Err::<CubeMeta, CubeError>(CubeError::Beamlog(e)),
                Ok(bs) => if bs@.len() == h.naxis3->0 as usize {
                    r is Ok
                } else {
                    r == Err::<CubeMeta, CubeError>(
                        CubeError::BeamCountMismatch {
                            expected: h.naxis3->0 as usize,
                            got: bs@.len() as usize,
                        },
                    )
                },
            },
            LogRead::Absent => if h.bmaj is None {
                r == Err::<CubeMeta, CubeError>(CubeError::NoBeans)
            } else {
                match header {
                    Err(e) => r == Err::<CubeMeta, CubeError>(CubeError::Beam(e)),
                    Ok(_) => r is Ok,
                }
            },
        },
{
}

/// A header announces a BEAMS extension by a CASAMBM that is true, or, without a
/// logical, by the text `T` or `TRUE`.
pub proof fn law_announced_table(h: CubeHeader, r: bool)
    requires
        call_ensures(has_beam_table, (&h,), r),
    ensures
        h.casambm matches Some(b) ==> r == b,
        h.casambm is None && h.casambm_text is None ==> !r,
        h.casambm is None ==> (h.casambm_text matches Some(s) ==> (r <==> trim(s@) == "T"@ || trim(
            s@,
        ) == "TRUE"@)),
{
}

/// A cube has three or four axes, and its sizes, reference pixel, unit and precision are
/// those of the header.
pub proof fn law_cube_of_a_header<K: TableKernel>(
    k: &K,
    path: String,
    h: CubeHeader,
    table: TableRead,
    log: LogRead,
    r: Result<CubeMeta, CubeError>,
    unit: BrightnessUnit,
    dtype: PixelType,
)
    requires
        call_ensures(read_cube_meta::<K>, (k, path, &h, &table, &log), r),
        call_ensures(unit_from_header, (&h.bunit,), unit),
        call_ensures(
            PixelType::from_bitpix,
            (if h.bitpix is Some {
                h.bitpix->0
            } else {
                (-32) as i64
            },),
            dtype,
        ),
    ensures
        r matches Ok(m) ==> {
            &&& h.naxis == Some(3i64) || h.naxis == Some(4i64)
            &&& m.path == path
            &&& h.naxis1 is Some && m.nx == h.naxis1->0 as usize
            &&& h.naxis2 is Some && m.ny == h.naxis2->0 as usize
            &&& h.naxis3 is Some && m.nfreq == h.naxis3->0 as usize
            &&& m.is_4d <==> h.naxis == Some(4i64)
            &&& h.naxis == Some(3i64) ==> m.nstokes == 1
            &&& h.naxis == Some(4i64) ==> h.naxis4 is Some && m.nstokes == h.naxis4->0 as usize
            &&& h.cdelt1 is Some && is_size_of(m.dx_deg, h.cdelt1->0)
            &&& h.cdelt2 is Some && is_size_of(m.dy_deg, h.cdelt2->0)
            &&& m.crpix_freq == if h.crpix3 is Some {
                h.crpix3->0
            } else {
                1
            }
            &&& m.bitpix == if h.bitpix is Some {
                h.bitpix->0
            } else {
                (-32) as i64
            }
            &&& m.unit == unit
            &&& m.dtype == dtype
        },
{
    if r is Ok {
        lemma_absolute(h.cdelt1->0);
        lemma_absolute(h.cdelt2->0);
    }
}

/// What is wrong with the header of a cube is told by the first thing that is, in the
/// order in which things are read, before any source of beams is looked at.
pub proof fn law_cube_faults<K: TableKernel>(
    k: &K,
    path: String,
    h: CubeHeader,
    table: TableRead,
    log: LogRead,
    r: Result<CubeMeta, CubeError>,
)
    requires
        call_ensures(read_cube_meta::<K>, (k, path, &h, &table, &log), r),
    ensures
        ({
            let known = h.naxis == Some(3i64) || h.naxis == Some(4i64);
            let plane = known && h.naxis1 is Some && h.naxis2 is Some;
            let axes = plane && h.naxis3 is Some && (h.naxis == Some(3i64) || h.naxis4 is Some);
            let fault = |e: CubeError| r == Err::<CubeMeta, CubeError>(e);
            &&& h.naxis is None ==> fault(CubeError::Unreadable(CubeItem::Naxis))
            &&& h.naxis is Some && !known ==> fault(CubeError::UnsupportedNaxis(h.naxis->0))
            &&& known && h.naxis1 is None ==> fault(CubeError::Unreadable(CubeItem::Naxis1))
            &&& known && h.naxis1 is Some && h.naxis2 is None ==> fault(
                CubeError::Unreadable(CubeItem::Naxis2),
            )
            &&& plane && h.naxis3 is None ==> fault(CubeError::Unreadable(CubeItem::Naxis3))
            &&& plane && h.naxis3 is Some && !axes ==> fault(
                CubeError::Unreadable(CubeItem::Naxis4),
            )
            &&& axes && h.cdelt1 is None ==> fault(CubeError::Unreadable(CubeItem::Cdelt1))
            &&& axes && h.cdelt1 is Some && h.cdelt2 is None ==> fault(
                CubeError::Unreadable(CubeItem::Cdelt2),
            )
        }),
{
}

// ── Output cubes ────────────────────────────────────────────────────────────

proof fn lemma_first_beam(beams: Seq<Option<Beam>>)
    ensures
        match first_beam(beams) {
            None => forall|i: int| 0 <= i < beams.len() ==> (#[trigger] beams[i]) is None,
            Some(b) => exists|i: int|
                0 <= i < beams.len() && (#[trigger] beams[i]) == Some(b) && forall|j: int|
                    0 <= j < i ==> (#[trigger] beams[j]) is None,
        },
    decreases beams.len(),
{
    if beams.len() > 0 {
        if beams[0] is None {
            let rest = beams.drop_first();
            lemma_first_beam(rest);
            match first_beam(beams) {
                None => {
                    assert forall|i: int| 0 <= i < beams.len() implies (#[trigger] beams[i]) is None by {
                        if i > 0 {
                            assert(rest[i - 1] is None);
                        }
                    }
                },
                Some(b) => {
                    let i = choose|i: int|
                        0 <= i < rest.len() && (#[trigger] rest[i]) == Some(b) && forall|j: int|
                            0 <= j < i ==> (#[trigger] rest[j]) is None;
                    assert(beams[i + 1] == Some(b));
                    assert forall|j: int| 0 <= j < i + 1 implies (#[trigger] beams[j]) is None by {
                        if j > 0 {
                            assert(rest[j - 1] is None);
                        }
                    }
                },
            }
        } else {
            assert(beams[0] == Some(first_beam(beams)->0));
        }
    }
}

/// The first valid beam is the first that is there.
pub proof fn law_first_valid(beams: Vec<Option<Beam>>, r: Option<Beam>)
    requires
        call_ensures(first_valid, (&beams,), r),
    ensures
        match r {
            None => forall|i: int| 0 <= i < beams@.len() ==> (#[trigger] beams@[i]) is None,
            Some(b) => exists|i: int|
                0 <= i < beams@.len() && (#[trigger] beams@[i]) == Some(b) && forall|j: int|
                    0 <= j < i ==> (#[trigger] beams@[j]) is None,
        },
        r == first_beam(beams@),
{
    lemma_first_beam(beams@);
}

/// The beam for the primary header is that of the channel that the reference pixel
/// names, which counts from one, or of the nearest channel where it names none; where
/// that channel has no beam, the first valid one; and where there is none, the zero
/// beam.
pub proof fn law_reference_beam(
    beams: Vec<Option<Beam>>,
    crpix: i64,
    nfreq: usize,
    r: Beam,
    first: Option<Beam>,
    c: int,
)
    requires
        call_ensures(ref_beam_for, (&beams, crpix, nfreq), r),
        call_ensures(first_valid, (&beams,), first),
        0 < beams@.len(),
        nfreq <= beams@.len(),
        (0 <= c < nfreq && c + 1 == crpix) || (c == 0 && crpix < 1) || (0 <= c == nfreq - 1
            && crpix > nfreq) || (c == 0 && nfreq == 0),
    ensures
        beams@[c] matches Some(b) ==> r == b,
        beams@[c] is None ==> (first matches Some(b) ==> r == b),
        beams@[c] is None && first is None ==> r == Beam::zero_spec(),
{
}

/// A BEAMS extension has a row per channel: the axes of its beam in arcseconds and its
/// angle in degrees, in single precision, or the smallest normal number three times
/// where the channel is masked; and the channel numbers from zero on.
pub proof fn law_rows_of_a_table<K: TableKernel>(
    k: &K,
    beams: Vec<Option<Beam>>,
    nfreq: usize,
    r: BeamTable,
    i: int,
)
    requires
        call_ensures(beams_table::<K>, (k, &beams, nfreq), r),
        0 <= i < beams@.len(),
    ensures
        r.bmaj@.len() == beams@.len(),
        r.bmin@.len() == beams@.len(),
        r.bpa@.len() == beams@.len(),
        beams@[i] matches Some(b) ==> {
            &&& r.bmaj@[i] == single_of(k, major_arcsec_of(k, b))
            &&& r.bmin@[i] == single_of(k, minor_arcsec_of(k, b))
            &&& r.bpa@[i] == single_of(k, b.pa_deg)
        },
        beams@[i] is None ==> {
            let tiny = Single { bits: 0x0080_0000 };
            r.bmaj@[i] == tiny && r.bmin@[i] == tiny && r.bpa@[i] == tiny
        },
        nfreq <= i32::MAX ==> r.chan@.len() == nfreq && forall|c: int|
            0 <= c < nfreq ==> (#[trigger] r.chan@[c]) == c,
        r.pol@.len() == nfreq,
        forall|c: int| 0 <= c < nfreq ==> (#[trigger] r.pol@[c]) == 0,
        r.units@ == seq![("TUNIT1", "arcsec"), ("TUNIT2", "arcsec"), ("TUNIT3", "deg")],
        r.counts@ == seq![("NCHAN", nfreq as i64), ("NPOL", 1i64)],
{
}

/// An output cube carries the reference beam in its header, and a BEAMS extension,
/// announced by CASAMBM, in natural mode only.
pub proof fn law_output_cube<K: TableKernel>(
    k: &K,
    beams: Vec<Option<Beam>>,
    mode: CubeMode,
    crpix: i64,
    nfreq: usize,
    r: OutputPlan,
    reference: Beam,
    cards: Vec<(&'static str, Double)>,
    table: BeamTable,
)
    requires
        call_ensures(init_output_cube::<K>, (k, &beams, mode, crpix, nfreq), r),
        call_ensures(beams_table::<K>, (k, &beams, nfreq), table),
        call_ensures(ref_beam_for, (&beams, crpix, nfreq), reference),
        call_ensures(beam_cards, (&reference,), cards),
    ensures
        r.cards@ == cards@,
        r.casambm <==> mode == CubeMode::Natural,
        r.beams is Some <==> mode == CubeMode::Natural,
        r.beams matches Some(t) ==> {
            &&& t.bmaj@ == table.bmaj@ && t.bmin@ == table.bmin@ && t.bpa@ == table.bpa@
            &&& t.chan@ == table.chan@ && t.pol@ == table.pol@
            &&& t.units@ == table.units@ && t.counts@ == table.counts@
        },
{
}

// ── Data units ──────────────────────────────────────────────────────────────

/// The data unit starts at the first multiple of 2880 bytes behind the first card, of 80
/// bytes each, that begins with `END` and five spaces; without such a card there is no
/// telling.
pub proof fn law_data_start(bytes: Vec<u8>, r: Option<u64>, c: int)
    requires
        call_ensures(primary_data_offset, (&bytes,), r),
        0 <= c,
        80 * c + 8 <= bytes@.len(),
        bytes@.subrange(80 * c, 80 * c + 8) == seq![69u8, 78u8, 68u8, 32u8, 32u8, 32u8, 32u8, 32u8],
        forall|d: int|
            0 <= d < c ==> #[trigger] bytes@.subrange(80 * d, 80 * d + 8) != seq![
                69u8,
                78u8,
                68u8,
                32u8,
                32u8,
                32u8,
                32u8,
                32u8,
            ],
    ensures
        r matches Some(n) && n % 2880 == 0 && n - 2880 < 80 * (c + 1) <= n,
{
    lemma_end_card(bytes@, c);
    if let Some(n) = r {
        let e = choose|e: int|
            {
                &&& 0 <= e
                &&& #[trigger] crate::cube_io::is_end_card(bytes@, e * crate::cube_io::CARD)
                &&& forall|d: int|
                    0 <= d < e ==> !#[trigger] crate::cube_io::is_end_card(
                        bytes@,
                        d * crate::cube_io::CARD,
                    )
                &&& n as int % (crate::cube_io::BLOCK as int) == 0
                &&& n - crate::cube_io::BLOCK < (e + 1) * crate::cube_io::CARD <= n
            };
        if e < c {
            assert(bytes@.subrange(80 * e, 80 * e + 8) == bytes@.subrange(e * 80, e * 80 + 8));
        }
        assert(e == c);
    }
}

/// Without such a card there is no telling where the data unit starts.
pub proof fn law_no_data_start(bytes: Vec<u8>, r: Option<u64>)
    requires
        call_ensures(primary_data_offset, (&bytes,), r),
        forall|d: int|
            0 <= d && 80 * d + 8 <= bytes@.len() ==> #[trigger] bytes@.subrange(80 * d, 80 * d + 8)
                != seq![69u8, 78u8, 68u8, 32u8, 32u8, 32u8, 32u8, 32u8],
    ensures
        r is None,
{
    if let Some(n) = r {
        let e = choose|e: int|
            {
                &&& 0 <= e
                &&& #[trigger] crate::cube_io::is_end_card(bytes@, e * crate::cube_io::CARD)
                &&& forall|d: int|
                    0 <= d < e ==> !#[trigger] crate::cube_io::is_end_card(
                        bytes@,
                        d * crate::cube_io::CARD,
                    )
                &&& n as int % (crate::cube_io::BLOCK as int) == 0
                &&& n - crate::cube_io::BLOCK < (e + 1) * crate::cube_io::CARD <= n
            };
        assert(bytes@.subrange(80 * e, 80 * e + 8) == bytes@.subrange(e * 80, e * 80 + 8));
    }
}

proof fn lemma_end_card(bytes: Seq<u8>, c: int)
    requires
        0 <= c,
        80 * c + 8 <= bytes.len(),
        bytes.subrange(80 * c, 80 * c + 8) == seq![69u8, 78u8, 68u8, 32u8, 32u8, 32u8, 32u8, 32u8],
    ensures
        crate::cube_io::is_end_card(bytes, c * crate::cube_io::CARD),
{
}

/// The channels of a cube lie one behind the other, each as many pixels as a plane has;
/// in a file, as many bytes.
pub proof fn law_place_of_a_channel(
    meta: CubeMeta,
    c: usize,
    range: (usize, usize),
    next: (usize, usize),
    start: u64,
    plane_bytes: usize,
    offset: u64,
)
    requires
        call_ensures(CubeMeta::channel_range, (&meta, c), range),
        c < usize::MAX,
        call_ensures(CubeMeta::channel_range, (&meta, (c + 1) as usize), next),
        call_ensures(channel_offset, (start, plane_bytes, c), offset),
    ensures
        range.1 - range.0 == meta.ny * meta.nx,
        next.0 == range.1,
        c == 0 ==> range.0 == 0,
        offset == start + c * plane_bytes,
{
    let p = meta.ny * meta.nx;
    assert((c + 1) * p == c * p + p) by (nonlinear_arith);
    if c == 0 {
        assert(c * p == 0) by (nonlinear_arith)
            requires
                c == 0,
        ;
    }
}

/// A channel has one row per y pixel and one column per x pixel, filled row by row.
pub proof fn law_pixels_of_a_channel<T: FftFloat>(
    meta: CubeMeta,
    data: Vec<T>,
    r: Result<Plane<T>, CubeError>,
)
    requires
        call_ensures(read_channel_as::<T>, (&meta, data), r),
    ensures
        r is Ok <==> data@.len() == meta.ny * meta.nx,
        r matches Ok(p) ==> p.nrows == meta.ny && p.ncols == meta.nx && p.data@ == data@,
        r matches Err(e) ==> e == CubeError::Shape,
{
}

/// A plane of single-precision pixels is stored in four bytes each, and one of
/// double-precision pixels in eight, the most significant byte first.
pub proof fn law_bytes_of_pixels(
    single: Plane<Single>,
    double: Plane<Double>,
    r: Vec<u8>,
    s: Vec<u8>,
    q: int,
)
    requires
        call_ensures(plane_to_be_bytes::<Single>, (&single,), r),
        call_ensures(plane_to_be_bytes::<Double>, (&double,), s),
    ensures
        r@.len() == 4 * single.data@.len(),
        0 <= q < single.data@.len() ==> single.data@[q].bits == ((r@[4 * q] * 256 + r@[4 * q + 1])
            * 256 + r@[4 * q + 2]) * 256 + r@[4 * q + 3],
        s@.len() == 8 * double.data@.len(),
        0 <= q < double.data@.len() ==> double.data@[q].bits == ((((((s@[8 * q] * 256 + s@[8 * q
            + 1]) * 256 + s@[8 * q + 2]) * 256 + s@[8 * q + 3]) * 256 + s@[8 * q + 4]) * 256 + s@[8
            * q + 5]) * 256 + s@[8 * q + 6]) * 256 + s@[8 * q + 7],
{
    if 0 <= q < single.data@.len() {
        let p = crate::plane::pixel_bytes(r@, q, 4);
        assert(big_endian(p) == single.data@[q].bits);
        reveal_with_fuel(big_endian, 5);
        assert(p.drop_last().drop_last().drop_last().drop_last() =~= Seq::<u8>::empty());
    }
    if 0 <= q < double.data@.len() {
        let p = crate::plane::pixel_bytes(s@, q, 8);
        assert(big_endian(p) == double.data@[q].bits);
        reveal_with_fuel(big_endian, 9);
        let h = p.drop_last().drop_last().drop_last().drop_last();
        assert(h.drop_last().drop_last().drop_last().drop_last() =~= Seq::<u8>::empty());
    }
}

} // verus!
