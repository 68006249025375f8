//! Target beams of a run: which beams count, the beam they are brought to, and
//! what is reported of it.
use vstd::prelude::*;

use crate::beam::{
    beam_kernel_is_function, major_arcsec_of, minor_arcsec_of, Beam, BeamError, BeamKernel,
};
use crate::common_beam::{
    all_reach, areas_compare, common, common_beam, fits_in_beam, kernel_is_sound, CommonBeamError,
    CommonBeamKernel,
};
use crate::cube_io::{first_beam, first_valid, repeated, CubeMeta, CubeMode};
use crate::fits_io::text_of;
use crate::ieee::{Double, FftFloat};
use crate::text::{decimal, decimal_of, push_str, string_of};

verus! {

/// Why a run has no target beam.
#[derive(Clone, Copy, Debug, PartialEq, Eq, Structural)]
pub enum TargetError {
    /// Some, but not all, of the three numbers of a target beam were given.
    Incomplete,
    /// The given target is not a beam.
    InvalidTarget(BeamError),
    /// Some image or channel cannot reach the given target.
    TooSmall,
    /// All beams are flagged or invalid.
    NoValidBeams,
    /// The beams have no common beam; for one channel, or over all of them.
    NoCommonBeam { channel: Option<usize>, error: CommonBeamError },
    /// The rounded common beam is not a beam.
    Rounding(BeamError),
    /// The circular common beam is not a beam.
    Circularising(BeamError),
}

/// Decimal rounding, in floating point.
pub trait RoundingKernel: CommonBeamKernel {
    /// The smallest number with `decimals` decimals that is not below `x`.
    fn ceil_to(&self, x: Double, decimals: i32) -> Double;
}

pub open spec fn ceiled<K: RoundingKernel>(k: &K, x: Double, decimals: i32) -> Double {
    choose|y: Double| call_ensures(K::ceil_to, (k, x, decimals), y)
}

/// The same arguments give the same numbers, and the area of a beam with a size is
/// a number.
pub open spec fn rounding_kernel_is_sound<K: RoundingKernel>(k: &K) -> bool {
    &&& kernel_is_sound(k)
    &&& forall|v: Double, d: i32, x: Double, y: Double|
        #![trigger call_ensures(K::ceil_to, (k, v, d), x), call_ensures(K::ceil_to, (k, v, d), y)]
        call_ensures(K::ceil_to, (k, v, d), x) && call_ensures(K::ceil_to, (k, v, d), y) ==> x == y
    &&& forall|b: Beam, x: Double|
        b.usable() && #[trigger] call_ensures(K::area_sr, (k, &b), x) ==> !x.nan()
}

/// Settings of the common-beam search.
#[derive(Clone, Copy, Debug, PartialEq, Eq, Structural)]
pub struct FitSettings {
    /// Convergence tolerance of the ellipse fit.
    pub tolerance: Double,
    /// Boundary points per beam.
    pub nsamps: usize,
    /// Fraction by which beams are inflated.
    pub epsilon: Double,
    /// Make the result circular.
    pub circularise: bool,
}

// ── Rounding ────────────────────────────────────────────────────────────────

/// The axes are the same and the angle is zero.
pub open spec fn is_circle(b: Beam) -> bool {
    b.major_deg == b.minor_deg && b.pa_deg == Double::zero_spec()
}

/// The beam with the major axis in every direction.
pub open spec fn circular_form<K: BeamKernel>(k: &K, b: Beam) -> Result<Beam, TargetError> {
    match Beam::arcsec_spec(k, major_arcsec_of(k, b), major_arcsec_of(k, b), Double::zero_spec()) {
        Err(e) => Err(TargetError::Circularising(e)),
        Ok(c) => Ok(c),
    }
}

/// The beam with the major axis in every direction (see [`circular_form`]).
pub fn circularised<K: BeamKernel>(k: &K, b: &Beam) -> (r: Result<Beam, TargetError>)
    requires
        beam_kernel_is_function(k),
    ensures
        r == circular_form(k, *b),
        r matches Ok(c) ==> c.valid() && is_circle(c),
{
    let size = k.major_arcsec(b);
    match Beam::from_arcsec(k, size, size, Double::zero()) {
        Err(e) => Err(TargetError::Circularising(e)),
        Ok(c) => Ok(c),
    }
}

/// The common beam as it is written: axes rounded up to 0.1 arcsec and the angle
/// to 0.01 degrees, and circular where that is asked for.
pub open spec fn rounded<K: RoundingKernel>(k: &K, b: Beam, circularise: bool) -> Result<
    Beam,
    TargetError,
> {
    match Beam::arcsec_spec(
        k,
        ceiled(k, major_arcsec_of(k, b), 1),
        ceiled(k, minor_arcsec_of(k, b), 1),
        ceiled(k, b.pa_deg, 2),
    ) {
        Err(e) => Err(TargetError::Rounding(e)),
        Ok(c) => if circularise {
            circular_form(k, c)
        } else {
            Ok(c)
        },
    }
}

/// Round a common beam (see [`rounded`]).
pub fn apply_beam_rounding<K: RoundingKernel>(k: &K, b: &Beam, circularise: bool) -> (r: Result<
    Beam,
    TargetError,
>)
    requires
        rounding_kernel_is_sound(k),
    ensures
        r == rounded(k, *b, circularise),
        r matches Ok(c) ==> c.valid(),
        r matches Ok(c) ==> circularise ==> is_circle(c),
{
    let major = k.major_arcsec(b);
    let minor = k.minor_arcsec(b);
    let major_up = k.ceil_to(major, 1);
    let minor_up = k.ceil_to(minor, 1);
    let pa_up = k.ceil_to(b.pa_deg, 2);
    match Beam::from_arcsec(k, major_up, minor_up, pa_up) {
        Err(e) => Err(TargetError::Rounding(e)),
        Ok(c) => {
            if circularise {
                circularised(k, &c)
            } else {
                Ok(c)
            }
        },
    }
}

/// The target beam that was asked for, if one was: all three numbers or none.
pub fn parse_target_beam<K: BeamKernel>(
    k: &K,
    bmaj: Option<Double>,
    bmin: Option<Double>,
    bpa: Option<Double>,
) -> (r: Result<Option<Beam>, TargetError>)
    requires
        beam_kernel_is_function(k),
    ensures
        r == (match (bmaj, bmin, bpa) {
            (None, None, None) => Ok(None),
            (Some(x), Some(y), Some(z)) => match Beam::arcsec_spec(k, x, y, z) {
                Ok(b) => Ok(Some(b)),
                Err(e) => Err(TargetError::InvalidTarget(e)),
            },
            _ => Err::<Option<Beam>, TargetError>(TargetError::Incomplete),
        }),
{
    match (bmaj, bmin, bpa) {
        (None, None, None) => Ok(None),
        (Some(x), Some(y), Some(z)) => match Beam::from_arcsec(k, x, y, z) {
            Ok(b) => Ok(Some(b)),
            Err(e) => Err(TargetError::InvalidTarget(e)),
        },
        _ => Err(TargetError::Incomplete),
    }
}

// ── Which beams count ───────────────────────────────────────────────────────

/// A beam that takes part in the search: it has a size, and none above the cutoff.
pub open spec fn counts<K: BeamKernel>(k: &K, b: Beam, cutoff: Option<Double>) -> bool {
    &&& b.usable()
    &&& !b.masked()
    &&& cutoff matches Some(c) ==> major_arcsec_of(k, b).at_most(c)
}

/// The beams that take part, in order.
pub open spec fn counting<K: BeamKernel>(
    k: &K,
    beams: Seq<Option<Beam>>,
    cutoff: Option<Double>,
) -> Seq<Beam>
    decreases beams.len(),
{
    if beams.len() == 0 {
        Seq::empty()
    } else {
        let front = counting(k, beams.drop_last(), cutoff);
        match beams.last() {
            Some(b) => if counts(k, b, cutoff) {
                front.push(b)
            } else {
                front
            },
            None => front,
        }
    }
}

/// Every beam that takes part is among the given ones and counts.
pub proof fn law_counting_beams_count<K: BeamKernel>(
    k: &K,
    beams: Seq<Option<Beam>>,
    cutoff: Option<Double>,
    i: int,
)
    requires
        0 <= i < counting(k, beams, cutoff).len(),
    ensures
        counts(k, counting(k, beams, cutoff)[i], cutoff),
        beams.contains(Some(counting(k, beams, cutoff)[i])),
    decreases beams.len(),
{
    if beams.len() > 0 {
        let front = counting(k, beams.drop_last(), cutoff);
        if i < front.len() {
            law_counting_beams_count(k, beams.drop_last(), cutoff, i);
            let b = counting(k, beams, cutoff)[i];
            let j = choose|j: int|
                0 <= j < beams.drop_last().len() && beams.drop_last()[j] == Some(b);
            assert(beams[j] == Some(b));
        } else {
            assert(beams[beams.len() - 1] == beams.last());
        }
    }
}

fn beam_counts<K: BeamKernel>(k: &K, b: &Beam, cutoff: Option<Double>) -> (r: bool)
    requires
        beam_kernel_is_function(k),
    ensures
        r == counts(k, *b, cutoff),
{
    if !b.is_finite() || b.is_zero() {
        return false;
    }
    match cutoff {
        None => true,
        Some(c) => {
            let major = k.major_arcsec(b);
            major.le(&c)
        },
    }
}

/// The beams that take part in the search (see [`counting`]).
pub fn valid_beams<K: BeamKernel>(k: &K, beams: &Vec<Option<Beam>>, cutoff: Option<Double>) -> (r:
    Vec<Beam>)
    requires
        beam_kernel_is_function(k),
    ensures
        r@ == counting(k, beams@, cutoff),
{
    let mut valid: Vec<Beam> = Vec::new();
    let mut i: usize = 0;
    while i < beams.len()
        invariant
            i <= beams.len(),
            beam_kernel_is_function(k),
            valid@ == counting(k, beams@.take(i as int), cutoff),
        decreases beams.len() - i,
    {
        let ghost longer = beams@.take(i + 1);
        assert(longer.drop_last() =~= beams@.take(i as int));
        assert(longer.last() == beams@[i as int]);
        if let Some(b) = beams[i] {
            if beam_counts(k, &b, cutoff) {
                valid.push(b);
            }
        }
        i = i + 1;
    }
    assert(beams@.take(i as int) =~= beams@);
    valid
}

proof fn lemma_counting_areas<K: RoundingKernel>(
    k: &K,
    beams: Seq<Option<Beam>>,
    cutoff: Option<Double>,
)
    requires
        rounding_kernel_is_sound(k),
    ensures
        areas_compare(k, counting(k, beams, cutoff)),
{
    let valid = counting(k, beams, cutoff);
    assert forall|i: int, x: Double|
        0 <= i < valid.len() && #[trigger] call_ensures(
            K::area_sr,
            (k, &valid[i]),
            x,
        ) implies !x.nan() by {
        law_counting_beams_count(k, beams, cutoff, i);
    }
}

// ── Target beams ────────────────────────────────────────────────────────────

/// The rounded common beam of the beams that take part; none where none does.
pub open spec fn target_of<K: RoundingKernel>(
    k: &K,
    beams: Seq<Option<Beam>>,
    cutoff: Option<Double>,
    fit: FitSettings,
    channel: Option<usize>,
) -> Result<Option<Beam>, TargetError> {
    let valid = counting(k, beams, cutoff);
    if valid.len() == 0 {
        Ok(None)
    } else {
        match common(k, valid, fit.tolerance, fit.nsamps, fit.epsilon) {
            Err(error) => Err(TargetError::NoCommonBeam { channel, error }),
            Ok(b) => match rounded(k, b, fit.circularise) {
                Err(e) => Err(e),
                Ok(c) => Ok(Some(c)),
            },
        }
    }
}

/// Target beam of one set of beams (see [`target_of`]).
pub fn target_beam<K: RoundingKernel>(
    k: &K,
    beams: &Vec<Option<Beam>>,
    cutoff: Option<Double>,
    fit: &FitSettings,
    channel: Option<usize>,
) -> (r: Result<Option<Beam>, TargetError>)
    requires
        rounding_kernel_is_sound(k),
    ensures
        r == target_of(k, beams@, cutoff, *fit, channel),
{
    let valid = valid_beams(k, beams, cutoff);
    if valid.len() == 0 {
        return Ok(None);
    }
    proof {
        lemma_counting_areas(k, beams@, cutoff);
    }
    match common_beam(k, &valid, fit.tolerance, fit.nsamps, fit.epsilon) {
        Err(error) => Err(TargetError::NoCommonBeam { channel, error }),
        Ok(b) => match apply_beam_rounding(k, &b, fit.circularise) {
            Err(e) => Err(e),
            Ok(c) => Ok(Some(c)),
        },
    }
}

/// The beams of one channel over all cubes.
pub open spec fn channel_beams(metas: Seq<CubeMeta>, c: int) -> Seq<Option<Beam>> {
    Seq::new(metas.len(), |m: int| metas[m].beams@[c])
}

/// The beams of all channels, cube by cube.
pub open spec fn all_beams(metas: Seq<CubeMeta>) -> Seq<Option<Beam>>
    decreases metas.len(),
{
    if metas.len() == 0 {
        Seq::empty()
    } else {
        all_beams(metas.drop_last()) + metas.last().beams@
    }
}

/// The targets of the first `n` channels, up to the first that has an error.
pub open spec fn natural_targets<K: RoundingKernel>(
    k: &K,
    metas: Seq<CubeMeta>,
    cutoff: Option<Double>,
    fit: FitSettings,
    n: nat,
) -> Result<Seq<Option<Beam>>, TargetError>
    decreases n,
{
    if n == 0 {
        Ok(Seq::empty())
    } else {
        match natural_targets(k, metas, cutoff, fit, (n - 1) as nat) {
            Err(e) => Err(e),
            Ok(front) => match target_of(
                k,
                channel_beams(metas, n - 1),
                cutoff,
                fit,
                Some((n - 1) as usize),
            ) {
                Err(e) => Err(e),
                Ok(b) => Ok(front.push(b)),
            },
        }
    }
}

/// The target beam of every channel: its own common beam in natural mode, the
/// common beam of everything in total mode.
pub open spec fn targets<K: RoundingKernel>(
    k: &K,
    metas: Seq<CubeMeta>,
    mode: CubeMode,
    cutoff: Option<Double>,
    fit: FitSettings,
) -> Result<Seq<Option<Beam>>, TargetError> {
    let nfreq = metas[0].nfreq as nat;
    match mode {
        CubeMode::Natural => natural_targets(k, metas, cutoff, fit, nfreq),
        CubeMode::Total => match target_of(k, all_beams(metas), cutoff, fit, None) {
            Err(e) => Err(e),
            Ok(None) => Err(TargetError::NoValidBeams),
            Ok(Some(b)) => Ok(Seq::new(nfreq, |i: int| Some(b))),
        },
    }
}

fn beams_of_channel(metas: &Vec<CubeMeta>, c: usize) -> (r: Vec<Option<Beam>>)
    requires
        forall|m: int| 0 <= m < metas@.len() ==> c < (#[trigger] metas@[m]).beams@.len(),
    ensures
        r@ == channel_beams(metas@, c as int),
{
    let mut out: Vec<Option<Beam>> = Vec::new();
    let mut m: usize = 0;
    while m < metas.len()
        invariant
            m <= metas.len(),
            forall|j: int| 0 <= j < metas@.len() ==> c < (#[trigger] metas@[j]).beams@.len(),
            out@.len() == m,
            forall|j: int| 0 <= j < m ==> out@[j] == (#[trigger] metas@[j]).beams@[c as int],
        decreases metas.len() - m,
    {
        out.push(metas[m].beams[c]);
        m = m + 1;
    }
    assert(out@ =~= channel_beams(metas@, c as int));
    out
}

/// The beams of all channels, cube by cube (see [`all_beams`]).
pub fn beams_of_cubes(metas: &Vec<CubeMeta>) -> (r: Vec<Option<Beam>>)
    ensures
        r@ == all_beams(metas@),
{
    let mut out: Vec<Option<Beam>> = Vec::new();
    let mut m: usize = 0;
    while m < metas.len()
        invariant
            m <= metas.len(),
            out@ == all_beams(metas@.take(m as int)),
        decreases metas.len() - m,
    {
        let beams = &metas[m].beams;
        let ghost before = out@;
        let mut c: usize = 0;
        while c < beams.len()
            invariant
                c <= beams.len(),
                out@ == before + beams@.take(c as int),
            decreases beams.len() - c,
        {
            out.push(beams[c]);
            assert(beams@.take(c + 1) =~= beams@.take(c as int).push(beams@[c as int]));
            assert(out@ =~= before + beams@.take(c + 1));
            c = c + 1;
        }
        proof {
            assert(beams@.take(c as int) =~= beams@);
            let longer = metas@.take(m + 1);
            assert(longer.drop_last() =~= metas@.take(m as int));
            assert(longer.last() == metas@[m as int]);
        }
        m = m + 1;
    }
    assert(metas@.take(m as int) =~= metas@);
    out
}

/// Target beam of every channel (see [`targets`]).
pub fn compute_target_beams<K: RoundingKernel>(
    k: &K,
    metas: &Vec<CubeMeta>,
    mode: CubeMode,
    cutoff: Option<Double>,
    fit: &FitSettings,
) -> (r: Result<Vec<Option<Beam>>, TargetError>)
    requires
        rounding_kernel_is_sound(k),
        metas@.len() > 0,
        mode == CubeMode::Natural ==> forall|m: int|
            0 <= m < metas@.len() ==> metas@[0].nfreq <= (#[trigger] metas@[m]).beams@.len(),
    ensures
        match targets(k, metas@, mode, cutoff, *fit) {
            Ok(bs) => r is Ok && r->Ok_0@ == bs,
            Err(e) => r == Err::<Vec<Option<Beam>>, TargetError>(e),
        },
{
    let nfreq = metas[0].nfreq;
    match mode {
        CubeMode::Natural => {
            let mut out: Vec<Option<Beam>> = Vec::new();
            let mut c: usize = 0;
            while c < nfreq
                invariant
                    c <= nfreq,
                    nfreq == metas@[0].nfreq,
                    mode == CubeMode::Natural,
                    rounding_kernel_is_sound(k),
                    forall|m: int|
                        0 <= m < metas@.len() ==> nfreq <= (#[trigger] metas@[m]).beams@.len(),
                    natural_targets(k, metas@, cutoff, *fit, c as nat) == Ok::<
                        Seq<Option<Beam>>,
                        TargetError,
                    >(out@),
                decreases nfreq - c,
            {
                let beams = beams_of_channel(metas, c);
                match target_beam(k, &beams, cutoff, fit, Some(c)) {
                    Err(e) => {
                        proof {
                            lemma_natural_error(k, metas@, cutoff, *fit, (c + 1) as nat, nfreq as nat);
                        }
                        return Err(e);
                    },
                    Ok(b) => {
                        out.push(b);
                    },
                }
                c = c + 1;
            }
            Ok(out)
        },
        CubeMode::Total => {
            let beams = beams_of_cubes(metas);
            match target_beam(k, &beams, cutoff, fit, None) {
                Err(e) => Err(e),
                Ok(None) => Err(TargetError::NoValidBeams),
                Ok(Some(b)) => Ok(repeated(Some(b), nfreq)),
            }
        },
    }
}

proof fn lemma_natural_error<K: RoundingKernel>(
    k: &K,
    metas: Seq<CubeMeta>,
    cutoff: Option<Double>,
    fit: FitSettings,
    m: nat,
    n: nat,
)
    requires
        m <= n,
        natural_targets(k, metas, cutoff, fit, m) is Err,
    ensures
        natural_targets(k, metas, cutoff, fit, n) == natural_targets(k, metas, cutoff, fit, m),
    decreases n,
{
    if m < n {
        lemma_natural_error(k, metas, cutoff, fit, m, (n - 1) as nat);
    }
}

/// There is one target per channel; in total mode all channels share it, and in
/// natural mode a channel has none exactly where no beam of it counts.
pub proof fn law_targets_per_channel<K: RoundingKernel>(
    k: &K,
    metas: Seq<CubeMeta>,
    mode: CubeMode,
    cutoff: Option<Double>,
    fit: FitSettings,
    c: int,
)
    requires
        metas.len() > 0,
        0 <= c < metas[0].nfreq,
    ensures
        targets(k, metas, mode, cutoff, fit) matches Ok(bs) ==> {
            &&& bs.len() == metas[0].nfreq
            &&& mode == CubeMode::Total ==> bs[c] == bs[0] && bs[c] is Some
            &&& mode == CubeMode::Natural ==> (bs[c] is None <==> counting(
                k,
                channel_beams(metas, c),
                cutoff,
            ).len() == 0)
        },
{
    if mode == CubeMode::Natural {
        lemma_natural_targets(k, metas, cutoff, fit, metas[0].nfreq as nat, c);
    }
}

proof fn lemma_natural_targets<K: RoundingKernel>(
    k: &K,
    metas: Seq<CubeMeta>,
    cutoff: Option<Double>,
    fit: FitSettings,
    n: nat,
    c: int,
)
    requires
        0 <= c < n,
    ensures
        natural_targets(k, metas, cutoff, fit, n) matches Ok(bs) ==> {
            &&& bs.len() == n
            &&& bs[c] is None <==> counting(k, channel_beams(metas, c), cutoff).len() == 0
        },
    decreases n,
{
    if n == 1 {
        assert(natural_targets(k, metas, cutoff, fit, 0) == Ok::<Seq<Option<Beam>>, TargetError>(
            Seq::empty(),
        ));
    }
    if n > 1 {
        lemma_natural_targets(
            k,
            metas,
            cutoff,
            fit,
            (n - 1) as nat,
            if c < n - 1 {
                c
            } else {
                0
            },
        );
    }
}

proof fn lemma_natural_circles<K: RoundingKernel>(
    k: &K,
    metas: Seq<CubeMeta>,
    cutoff: Option<Double>,
    fit: FitSettings,
    n: nat,
)
    requires
        fit.circularise,
    ensures
        natural_targets(k, metas, cutoff, fit, n) matches Ok(bs) ==> forall|i: int|
            0 <= i < bs.len() ==> (#[trigger] bs[i] matches Some(c) ==> is_circle(c)),
    decreases n,
{
    if n > 0 {
        lemma_natural_circles(k, metas, cutoff, fit, (n - 1) as nat);
    }
}

/// Where circular beams are asked for, every target is one.
pub proof fn law_targets_are_circular<K: RoundingKernel>(
    k: &K,
    metas: Seq<CubeMeta>,
    mode: CubeMode,
    cutoff: Option<Double>,
    fit: FitSettings,
)
    requires
        fit.circularise,
    ensures
        targets(k, metas, mode, cutoff, fit) matches Ok(bs) ==> forall|i: int|
            0 <= i < bs.len() ==> (#[trigger] bs[i] matches Some(c) ==> is_circle(c)),
{
    if mode == CubeMode::Natural {
        lemma_natural_circles(k, metas, cutoff, fit, metas[0].nfreq as nat);
    }
}

/// Beams as entries that are all there.
pub open spec fn present(beams: Seq<Beam>) -> Seq<Option<Beam>> {
    Seq::new(beams.len(), |i: int| Some(beams[i]))
}

/// The beam that images are brought to: the given target, where all of them can
/// reach it, else their common beam; rounded either way.
pub open spec fn image_target<K: RoundingKernel>(
    k: &K,
    beams: Seq<Beam>,
    target: Option<Beam>,
    cutoff: Option<Double>,
    fit: FitSettings,
) -> Result<Beam, TargetError> {
    match target {
        Some(b) => if all_reach(k, beams, b) {
            rounded(k, b, fit.circularise)
        } else {
            Err(TargetError::TooSmall)
        },
        None => match target_of(k, present(beams), cutoff, fit, None) {
            Err(e) => Err(e),
            Ok(None) => Err(TargetError::NoValidBeams),
            Ok(Some(b)) => Ok(b),
        },
    }
}

/// The beam that images are brought to (see [`image_target`]).
pub fn image_target_beam<K: RoundingKernel>(
    k: &K,
    beams: &Vec<Beam>,
    target: Option<Beam>,
    cutoff: Option<Double>,
    fit: &FitSettings,
) -> (r: Result<Beam, TargetError>)
    requires
        rounding_kernel_is_sound(k),
    ensures
        r == image_target(k, beams@, target, cutoff, *fit),
{
    match target {
        Some(b) => {
            if !fits_in_beam(k, beams, &b) {
                return Err(TargetError::TooSmall);
            }
            apply_beam_rounding(k, &b, fit.circularise)
        },
        None => {
            let mut entries: Vec<Option<Beam>> = Vec::new();
            let mut i: usize = 0;
            while i < beams.len()
                invariant
                    i <= beams.len(),
                    entries@ == present(beams@).take(i as int),
                decreases beams.len() - i,
            {
                entries.push(Some(beams[i]));
                assert(present(beams@).take(i + 1) =~= present(beams@).take(i as int).push(
                    present(beams@)[i as int],
                ));
                i = i + 1;
            }
            assert(entries@ =~= present(beams@));
            match target_beam(k, &entries, cutoff, fit, None) {
                Err(e) => Err(e),
                Ok(None) => Err(TargetError::NoValidBeams),
                Ok(Some(b)) => Ok(b),
            }
        },
    }
}

/// The target that was given for cubes as it is used: circular where that is asked
/// for, else as it is.
pub open spec fn given_form<K: BeamKernel>(k: &K, b: Beam, circularise: bool) -> Result<
    Beam,
    TargetError,
> {
    if circularise {
        circular_form(k, b)
    } else {
        Ok(b)
    }
}

/// The target beams of cubes: the given target for every channel, where all beams
/// with a size can reach it, else those of the mode.  A given target is made circular
/// where that is asked for, and is not rounded.
pub fn cube_target_beams<K: RoundingKernel>(
    k: &K,
    metas: &Vec<CubeMeta>,
    target: Option<Beam>,
    mode: CubeMode,
    cutoff: Option<Double>,
    fit: &FitSettings,
) -> (r: Result<Vec<Option<Beam>>, TargetError>)
    requires
        rounding_kernel_is_sound(k),
        metas@.len() > 0,
        target is None && mode == CubeMode::Natural ==> forall|m: int|
            0 <= m < metas@.len() ==> metas@[0].nfreq <= (#[trigger] metas@[m]).beams@.len(),
    ensures
        match target {
            Some(b) => if all_reach(k, counting(k, all_beams(metas@), None), b) {
                match given_form(k, b, fit.circularise) {
                    Ok(c) => r is Ok && r->Ok_0@ == Seq::new(
                        metas@[0].nfreq as nat,
                        |i: int| Some(c),
                    ),
                    Err(e) => r == Err::<Vec<Option<Beam>>, TargetError>(e),
                }
            } else {
                r == Err::<Vec<Option<Beam>>, TargetError>(TargetError::TooSmall)
            },
            None => match targets(k, metas@, mode, cutoff, *fit) {
                Ok(bs) => r is Ok && r->Ok_0@ == bs,
                Err(e) => r == Err::<Vec<Option<Beam>>, TargetError>(e),
            },
        },
        fit.circularise ==> (r matches Ok(bs) ==> forall|i: int|
            0 <= i < bs@.len() ==> (#[trigger] bs@[i] matches Some(c) ==> is_circle(c))),
{
    match target {
        Some(b) => {
            let entries = beams_of_cubes(metas);
            let valid = valid_beams(k, &entries, None);
            if !fits_in_beam(k, &valid, &b) {
                return Err(TargetError::TooSmall);
            }
            if fit.circularise {
                match circularised(k, &b) {
                    Err(e) => Err(e),
                    Ok(c) => Ok(repeated(Some(c), metas[0].nfreq)),
                }
            } else {
                Ok(repeated(Some(b), metas[0].nfreq))
            }
        },
        None => {
            proof {
                if fit.circularise {
                    law_targets_are_circular(k, metas@, mode, cutoff, *fit);
                }
            }
            compute_target_beams(k, metas, mode, cutoff, fit)
        },
    }
}

// ── Report ──────────────────────────────────────────────────────────────────

/// Each beam that is there agrees with the one before it.
pub open spec fn all_same<K: BeamKernel>(k: &K, beams: Seq<Beam>) -> bool {
    forall|i: int|
        0 <= i < beams.len() - 1 ==> (#[trigger] beams[i]).close_to(k, beams[i + 1])
}

/// The beams that are there, in order.
pub open spec fn those_there(beams: Seq<Option<Beam>>) -> Seq<Beam>
    decreases beams.len(),
{
    if beams.len() == 0 {
        Seq::empty()
    } else {
        match beams.last() {
            Some(b) => those_there(beams.drop_last()).push(b),
            None => those_there(beams.drop_last()),
        }
    }
}

/// What is said about the target beams of a run.
#[derive(Clone, Copy, Debug, PartialEq, Eq, Structural)]
pub enum TargetReport {
    /// No channel has a target.
    Nothing,
    /// All channels share this one.
    Shared(Beam),
    /// The target varies; so many channels have one, and this is the first.
    Varies { valid: usize, example: Beam },
}

/// The report on the given targets.
pub open spec fn report<K: BeamKernel>(k: &K, beams: Seq<Option<Beam>>) -> TargetReport {
    match first_beam(beams) {
        None => TargetReport::Nothing,
        Some(b) => if all_same(k, those_there(beams)) {
            TargetReport::Shared(b)
        } else {
            TargetReport::Varies { valid: those_there(beams).len() as usize, example: b }
        },
    }
}

/// Report on the target beams (see [`report`]).
pub fn target_report<K: BeamKernel>(k: &K, beams: &Vec<Option<Beam>>) -> (r: TargetReport)
    requires
        beam_kernel_is_function(k),
    ensures
        r == report(k, beams@),
{
    let first = match first_valid(beams) {
        None => return TargetReport::Nothing,
        Some(b) => b,
    };
    let mut there: Vec<Beam> = Vec::new();
    let mut i: usize = 0;
    while i < beams.len()
        invariant
            i <= beams.len(),
            there@ == those_there(beams@.take(i as int)),
        decreases beams.len() - i,
    {
        let ghost longer = beams@.take(i + 1);
        assert(longer.drop_last() =~= beams@.take(i as int));
        assert(longer.last() == beams@[i as int]);
        if let Some(b) = beams[i] {
            there.push(b);
        }
        i = i + 1;
    }
    assert(beams@.take(i as int) =~= beams@);
    let mut same = true;
    let mut j: usize = 1;
    while j < there.len()
        invariant
            1 <= j,
            j <= there.len() || j == 1,
            beam_kernel_is_function(k),
            same == (forall|a: int|
                0 <= a < j - 1 ==> (#[trigger] there@[a]).close_to(k, there@[a + 1])),
        decreases there.len() - j,
    {
        let agrees = there[j - 1].approx_eq(k, &there[j]);
        let ghost before = same;
        same = same && agrees;
        proof {
            if same {
                assert forall|a: int| 0 <= a < j implies (#[trigger] there@[a]).close_to(
                    k,
                    there@[a + 1],
                ) by {
                    if a == j - 1 {
                        assert(there@[a] == there@[j - 1]);
                    }
                }
            } else if before {
                assert(!there@[j - 1].close_to(k, there@[j - 1 + 1]));
            } else {
                let a = choose|a: int|
                    0 <= a < j - 1 && !(#[trigger] there@[a]).close_to(k, there@[a + 1]);
                assert(!there@[a].close_to(k, there@[a + 1]));
            }
        }
        j = j + 1;
    }
    if same {
        TargetReport::Shared(first)
    } else {
        TargetReport::Varies { valid: there.len(), example: first }
    }
}

/// A channel's line in the dry-run listing: its number and its beam, or `masked`.
pub open spec fn dryrun_line(channel: int, shown: Option<Seq<char>>) -> Seq<char> {
    decimal(channel as nat).push(' ') + (match shown {
        Some(s) => s,
        None => "masked"@,
    })
}

/// The dry-run listing of targets that vary, given the text of each channel's beam:
/// one line per channel.
pub fn dryrun_lines(shown: &Vec<Option<String>>) -> (r: Vec<String>)
    ensures
        r@.len() == shown@.len(),
        forall|i: int|
            0 <= i < shown@.len() ==> (#[trigger] r@[i])@ == dryrun_line(i, text_of(shown@[i])),
{
    let mut out: Vec<String> = Vec::new();
    let mut i: usize = 0;
    while i < shown.len()
        invariant
            i <= shown.len(),
            out@.len() == i,
            forall|j: int|
                0 <= j < i ==> (#[trigger] out@[j])@ == dryrun_line(j, text_of(shown@[j])),
        decreases shown.len() - i,
    {
        let mut line = decimal_of(i as u64);
        line.push(' ');
        match &shown[i] {
            Some(s) => {
                push_str(&mut line, s.as_str());
            },
            None => {
                push_str(&mut line, "masked");
            },
        }
        assert(line@ =~= dryrun_line(i as int, text_of(shown@[i as int])));
        out.push(string_of(&line));
        i = i + 1;
    }
    out
}

} // verus!
