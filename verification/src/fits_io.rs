//! FITS images: what a header and its pixels mean, and where output goes.
//!
//! Handles both 2D (NAXIS=2, shape [ny, nx]) and 4D (NAXIS=4, shape [1,1,ny,nx])
//! images.  Header values come in as they were read: `None` stands for a keyword
//! that could not be read.
use vstd::prelude::*;

use crate::beam::{Beam, BeamError};
use crate::ieee::{Double, FftFloat, Single};
use crate::path::{
    extension, extension_of, file_name, file_stem, file_stem_of, join, joined,
    law_file_name_is_a_component, law_joined_stem_and_extension, law_sibling_has_the_same_parent,
    law_stem_and_extension, parent, parent_of,
};
use crate::plane::Plane;
use crate::smooth::{classify, resolve_unit, BrightnessUnit};
use crate::text::{chars_of, push_all, push_str, string_of};

verus! {

/// What could not be read from a file.
#[derive(Clone, Copy, Debug, PartialEq, Eq, Structural)]
pub enum FitsItem {
    Naxis,
    Naxis1,
    Naxis2,
    Pixels,
    Cdelt1,
    Cdelt2,
}

#[derive(Clone, Copy, Debug, PartialEq, Eq, Structural)]
pub enum FitsError {
    /// A required item could not be read.
    Fitsio(FitsItem),
    /// The header has no BMAJ.
    MissingKeyword,
    /// Neither 2 nor 4 axes.
    UnsupportedNaxis(i64),
    /// The number of pixels does not match the axes.
    Shape,
    /// The header's beam is not one.
    Beam(BeamError),
}

/// Header values of an image.
pub struct ImageHeader {
    pub naxis: Option<i64>,
    /// Columns (x / RA).
    pub naxis1: Option<i64>,
    /// Rows (y / Dec).
    pub naxis2: Option<i64>,
    pub cdelt1: Option<Double>,
    pub cdelt2: Option<Double>,
    pub bmaj: Option<Double>,
    pub bmin: Option<Double>,
    pub bpa: Option<Double>,
    pub bunit: Option<String>,
}

/// An image with what is needed to smooth it.
pub struct FitsImageData {
    pub path: String,
    pub image: Plane<Single>,
    pub is_4d: bool,
    /// |CDELT1| in degrees (x / RA pixel size)
    pub dx_deg: Double,
    /// |CDELT2| in degrees (y / Dec pixel size)
    pub dy_deg: Double,
    pub beam: Beam,
    /// Full header keyword list (key, value strings) for re-writing.
    pub header_cards: Vec<(String, String)>,
    /// Brightness unit from BUNIT (Jy/beam if absent).
    pub unit: BrightnessUnit,
}

/// The beam that header values give: BMIN defaults to BMAJ, BPA to zero.
pub open spec fn header_beam(bmaj: Double, bmin: Option<Double>, bpa: Option<Double>) -> Result<
    Beam,
    BeamError,
> {
    Beam::new_spec(
        bmaj,
        match bmin {
            Some(x) => x,
            None => bmaj,
        },
        match bpa {
            Some(x) => x,
            None => Double::zero_spec(),
        },
    )
}

/// The beam of a header (see [`header_beam`]).
pub fn beam_from_header(bmaj: Double, bmin: Option<Double>, bpa: Option<Double>) -> (r: Result<
    Beam,
    BeamError,
>)
    ensures
        r == header_beam(bmaj, bmin, bpa),
{
    let minor = match bmin {
        Some(x) => x,
        None => bmaj,
    };
    let pa = match bpa {
        Some(x) => x,
        None => Double::zero(),
    };
    Beam::new(bmaj, minor, pa)
}

/// The unit of a header: absent and unrecognised values both mean Jy/beam.
pub open spec fn header_unit(bunit: Option<Seq<char>>) -> BrightnessUnit {
    match bunit {
        Some(s) => match classify(s) {
            Some(unit) => unit,
            None => BrightnessUnit::JyPerBeam,
        },
        None => BrightnessUnit::JyPerBeam,
    }
}

/// The characters of an optional string.
pub open spec fn text_of(s: Option<String>) -> Option<Seq<char>> {
    match s {
        Some(t) => Some(t@),
        None => None,
    }
}

/// The unit of a header (see [`header_unit`]).
pub fn unit_from_header(bunit: &Option<String>) -> (r: BrightnessUnit)
    ensures
        r == header_unit(text_of(*bunit)),
{
    match bunit {
        Some(s) => resolve_unit(Some(s.as_str())).unit,
        None => resolve_unit(None).unit,
    }
}

/// The first thing that is wrong with an image, in the order in which it is read.
pub open spec fn image_fault(h: ImageHeader, pixels: Option<Seq<Single>>) -> Option<FitsError> {
    if h.naxis is None {
        Some(FitsError::Fitsio(FitsItem::Naxis))
    } else if h.naxis1 is None {
        Some(FitsError::Fitsio(FitsItem::Naxis1))
    } else if h.naxis2 is None {
        Some(FitsError::Fitsio(FitsItem::Naxis2))
    } else if h.naxis->0 != 2 && h.naxis->0 != 4 {
        Some(FitsError::UnsupportedNaxis(h.naxis->0))
    } else if pixels is None {
        Some(FitsError::Fitsio(FitsItem::Pixels))
    } else if pixels->0.len() != (h.naxis2->0 as usize) * (h.naxis1->0 as usize) {
        Some(FitsError::Shape)
    } else if h.cdelt1 is None {
        Some(FitsError::Fitsio(FitsItem::Cdelt1))
    } else if h.cdelt2 is None {
        Some(FitsError::Fitsio(FitsItem::Cdelt2))
    } else if h.bmaj is None {
        Some(FitsError::MissingKeyword)
    } else {
        match header_beam(h.bmaj->0, h.bmin, h.bpa) {
            Err(e) => Some(FitsError::Beam(e)),
            Ok(_) => None,
        }
    }
}

/// The pixels that were read, as a sequence.
pub open spec fn pixels_of(pixels: Option<Vec<Single>>) -> Option<Seq<Single>> {
    match pixels {
        Some(v) => Some(v@),
        None => None,
    }
}

/// Make an image of a header and its pixels.
///
/// The pixels are in row-major order, which holds for 2D and for 4D images whose
/// extra axes have size 1.
pub fn read_fits(path: String, header: ImageHeader, pixels: Option<Vec<Single>>) -> (r: Result<
    FitsImageData,
    FitsError,
>)
    ensures
        match image_fault(header, pixels_of(pixels)) {
            Some(e) => r == Err::<FitsImageData, FitsError>(e),
            None => {
                &&& r is Ok
                &&& r->Ok_0.path == path
                &&& r->Ok_0.image.wf()
                &&& r->Ok_0.image.nrows == header.naxis2->0 as usize
                &&& r->Ok_0.image.ncols == header.naxis1->0 as usize
                &&& r->Ok_0.image.data@ == pixels->0@
                &&& r->Ok_0.is_4d == (header.naxis->0 == 4)
                &&& r->Ok_0.dx_deg == header.cdelt1->0.absolute()
                &&& r->Ok_0.dy_deg == header.cdelt2->0.absolute()
                &&& Ok::<Beam, BeamError>(r->Ok_0.beam) == header_beam(
                    header.bmaj->0,
                    header.bmin,
                    header.bpa,
                )
                &&& r->Ok_0.header_cards@.len() == 0
                &&& r->Ok_0.unit == header_unit(text_of(header.bunit))
            },
        },
{
    let naxis = match header.naxis {
        Some(n) => n,
        None => return Err(FitsError::Fitsio(FitsItem::Naxis)),
    };
    let naxis1 = match header.naxis1 {
        Some(n) => n,
        None => return Err(FitsError::Fitsio(FitsItem::Naxis1)),
    };
    let naxis2 = match header.naxis2 {
        Some(n) => n,
        None => return Err(FitsError::Fitsio(FitsItem::Naxis2)),
    };
    if naxis != 2 && naxis != 4 {
        return Err(FitsError::UnsupportedNaxis(naxis));
    }
    #[verifier::truncate]
    let nx = naxis1 as usize;
    #[verifier::truncate]
    let ny = naxis2 as usize;
    let data = match pixels {
        Some(v) => v,
        None => return Err(FitsError::Fitsio(FitsItem::Pixels)),
    };
    let image = match Plane::from_shape_vec(ny, nx, data) {
        Ok(p) => p,
        Err(_) => return Err(FitsError::Shape),
    };
    let cdelt1 = match header.cdelt1 {
        Some(x) => x,
        None => return Err(FitsError::Fitsio(FitsItem::Cdelt1)),
    };
    let cdelt2 = match header.cdelt2 {
        Some(x) => x,
        None => return Err(FitsError::Fitsio(FitsItem::Cdelt2)),
    };
    // CDELT1 is negative for RA.
    let dx_deg = cdelt1.abs();
    let dy_deg = cdelt2.abs();
    let bmaj = match header.bmaj {
        Some(x) => x,
        None => return Err(FitsError::MissingKeyword),
    };
    let beam = match beam_from_header(bmaj, header.bmin, header.bpa) {
        Ok(b) => b,
        Err(e) => return Err(FitsError::Beam(e)),
    };
    let unit = unit_from_header(&header.bunit);
    Ok(
        FitsImageData {
            path,
            image,
            is_4d: naxis == 4,
            dx_deg,
            dy_deg,
            beam,
            header_cards: Vec::new(),
            unit,
        },
    )
}

/// The header cards that carry a beam, in the order in which they are written.
pub fn beam_cards(beam: &Beam) -> (r: Vec<(&'static str, Double)>)
    ensures
        r@ == seq![("BMAJ", beam.major_deg), ("BMIN", beam.minor_deg), ("BPA", beam.pa_deg)],
{
    let mut cards: Vec<(&'static str, Double)> = Vec::new();
    cards.push(("BMAJ", beam.major_deg));
    cards.push(("BMIN", beam.minor_deg));
    cards.push(("BPA", beam.pa_deg));
    cards
}

/// Reading back the cards of a valid beam gives that beam.
pub proof fn law_beam_cards_read_back(beam: Beam)
    requires
        beam.valid(),
    ensures
        header_beam(beam.major_deg, Some(beam.minor_deg), Some(beam.pa_deg)) == Ok::<
            Beam,
            BeamError,
        >(beam),
{
}

// ── Output path ─────────────────────────────────────────────────────────────

/// The characters of an optional string slice.
pub open spec fn slice_text(s: Option<&str>) -> Option<Seq<char>> {
    match s {
        Some(t) => Some(t@),
        None => None,
    }
}

pub open spec fn or_empty(s: Option<Seq<char>>) -> Seq<char> {
    match s {
        Some(t) => t,
        None => Seq::empty(),
    }
}

/// `{prefix}{stem}.{suffix}.{ext}`, without the suffix and its dot where there is
/// none.
pub open spec fn output_name(
    input: Seq<char>,
    suffix: Option<Seq<char>>,
    prefix: Option<Seq<char>>,
) -> Seq<char> {
    let middle = match suffix {
        Some(s) => seq!['.'] + s,
        None => Seq::empty(),
    };
    or_empty(prefix) + or_empty(file_stem(input)) + middle + seq!['.'] + or_empty(extension(input))
}

/// The directory that output goes to: `outdir`, or that of the input.
pub open spec fn output_dir(input: Seq<char>, outdir: Option<Seq<char>>) -> Seq<char> {
    match outdir {
        Some(d) => d,
        None => match parent(input) {
            Some(p) => p,
            None => seq!['.'],
        },
    }
}

/// Build the output path from the input path with an optional suffix, prefix and
/// output directory.
pub fn output_path(
    input: &str,
    suffix: Option<&str>,
    prefix: Option<&str>,
    outdir: Option<&str>,
) -> (r: String)
    ensures
        r@ == join(
            output_dir(input@, slice_text(outdir)),
            output_name(input@, slice_text(suffix), slice_text(prefix)),
        ),
{
    let path = chars_of(input);
    let stem = match file_stem_of(&path) {
        Some(s) => s,
        None => Vec::new(),
    };
    let ext = match extension_of(&path) {
        Some(s) => s,
        None => Vec::new(),
    };
    let mut name: Vec<char> = Vec::new();
    if let Some(p) = prefix {
        push_str(&mut name, p);
    }
    push_all(&mut name, &stem);
    if let Some(s) = suffix {
        name.push('.');
        push_str(&mut name, s);
    }
    name.push('.');
    push_all(&mut name, &ext);
    assert(name@ =~= output_name(input@, slice_text(suffix), slice_text(prefix)));
    let dir = match outdir {
        Some(d) => chars_of(d),
        None => match parent_of(&path) {
            Some(p) => p,
            None => vec!['.'],
        },
    };
    assert(dir@ =~= output_dir(input@, slice_text(outdir)));
    let out = joined(&dir, &name);
    string_of(&out)
}

/// An output file keeps the extension of its input, and its stem is that of the
/// input between the prefix and the suffix.  Without an output directory it stands
/// next to its input.
pub proof fn law_output_keeps_name(
    input: Seq<char>,
    suffix: Option<Seq<char>>,
    prefix: Option<Seq<char>>,
    outdir: Option<Seq<char>>,
)
    requires
        file_name(input) is Some,
        suffix matches Some(s) ==> !s.contains('/'),
        prefix matches Some(p) ==> !p.contains('/'),
    ensures
        ({
            let out = join(output_dir(input, outdir), output_name(input, suffix, prefix));
            let middle = match suffix {
                Some(s) => seq!['.'] + s,
                None => Seq::empty(),
            };
            &&& file_stem(out) == Some(or_empty(prefix) + file_stem(input)->0 + middle)
            &&& extension(out) == Some(or_empty(extension(input)))
            &&& outdir is None ==> parent(out) == parent(input)
        }),
{
    law_file_name_is_a_component(input);
    law_stem_and_extension(input);
    let f = file_name(input)->0;
    let stem = file_stem(input)->0;
    let ext = or_empty(extension(input));
    let middle = match suffix {
        Some(s) => seq!['.'] + s,
        None => Seq::empty(),
    };
    let whole = or_empty(prefix) + stem + middle;
    assert forall|i: int| 0 <= i < stem.len() implies stem[i] != '/' by {
        assert(f[i] == stem[i]);
        assert(f.contains(f[i]));
    }
    assert forall|i: int| 0 <= i < ext.len() implies ext[i] != '/' by {
        assert(f[i + stem.len() + 1] == ext[i]);
        assert(f.contains(ext[i]));
    }
    if whole.contains('/') {
        let i = choose|i: int| 0 <= i < whole.len() && whole[i] == '/';
        let p = or_empty(prefix);
        if i < p.len() {
            assert(p[i] == '/');
        } else if i < p.len() + stem.len() {
            assert(stem[i - p.len()] == '/');
        } else {
            let s = suffix->0;
            assert(s[i - p.len() - stem.len() - 1] == '/');
        }
    }
    if whole == seq!['.'] && ext.len() == 0 {
        assert(stem =~= seq!['.']);
        if extension(input) is Some {
            assert(f =~= seq!['.', '.']);
        }
    }
    let name = output_name(input, suffix, prefix);
    assert(name =~= whole + seq!['.'] + ext);
    law_joined_stem_and_extension(output_dir(input, outdir), whole, ext);
    if name.contains('/') {
        let i = choose|i: int| 0 <= i < name.len() && name[i] == '/';
        if i < whole.len() {
            assert(whole[i] == '/');
        } else {
            assert(ext[i - whole.len() - 1] == '/');
        }
    }
    assert(name.len() > 1);
    law_sibling_has_the_same_parent(input, name);
}

/// Output that is input again gets its second suffix behind the first, and its second
/// prefix in front of it.
pub proof fn law_output_names_compose(
    input: Seq<char>,
    suffix: Seq<char>,
    prefix: Seq<char>,
    next_suffix: Seq<char>,
    next_prefix: Seq<char>,
)
    requires
        file_name(input) is Some,
        !suffix.contains('/'),
        !prefix.contains('/'),
    ensures
        ({
            let out = join(
                output_dir(input, None),
                output_name(input, Some(suffix), Some(prefix)),
            );
            join(output_dir(out, None), output_name(out, Some(next_suffix), Some(next_prefix)))
                == join(
                output_dir(input, None),
                output_name(
                    input,
                    Some(suffix + seq!['.'] + next_suffix),
                    Some(next_prefix + prefix),
                ),
            )
        }),
{
    law_output_keeps_name(input, Some(suffix), Some(prefix), None);
    let out = join(output_dir(input, None), output_name(input, Some(suffix), Some(prefix)));
    assert(output_name(out, Some(next_suffix), Some(next_prefix)) =~= output_name(
        input,
        Some(suffix + seq!['.'] + next_suffix),
        Some(next_prefix + prefix),
    ));
}

} // verus!
