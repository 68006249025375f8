//! Laws of target beams.
use vstd::prelude::*;

use crate::beam::{degrees_of, major_arcsec_of, minor_arcsec_of, Beam, BeamError, BeamKernel};
use crate::common_beam::{
    common_beam, fits_in_beam, law_common_beam_is_reached, reaches, CommonBeamError,
};
use crate::cube_io::{first_beam, CubeMeta, CubeMode};
use crate::ieee::{Double, FftFloat};
use crate::targets::{
    all_beams, apply_beam_rounding, beams_of_cubes, ceiled, channel_beams, circularised,
    compute_target_beams, counting, counts, cube_target_beams, dryrun_lines, image_target_beam,
    natural_targets, parse_target_beam, rounding_kernel_is_sound, target_beam, target_of,
    target_report, those_there, valid_beams, FitSettings, RoundingKernel, TargetError,
    TargetReport,
};
use crate::text::decimal;

verus! {

/// The name of the rounding formula stands for what the kernel returns for the same
/// arguments.
pub proof fn law_rounding_name<K: RoundingKernel>(k: &K, x: Double, decimals: i32, y: Double)
    requires
        rounding_kernel_is_sound(k),
    ensures
        call_ensures(K::ceil_to, (k, x, decimals), y) ==> ceiled(k, x, decimals) == y,
{
}

// ── Rounding ────────────────────────────────────────────────────────────────

/// A circular beam has the major axis of the beam that it is made of in every
/// direction.
pub proof fn law_circular_form<K: BeamKernel>(
    k: &K,
    b: Beam,
    r: Result<Beam, TargetError>,
    size: Result<Beam, BeamError>,
)
    requires
        call_ensures(circularised::<K>, (k, &b), r),
        call_ensures(
            Beam::from_arcsec::<K>,
            (k, major_arcsec_of(k, b), major_arcsec_of(k, b), Double::zero_spec()),
            size,
        ),
    ensures
        match size {
            Ok(c) => r == Ok::<Beam, TargetError>(c) && c.major_deg == degrees_of(
                k,
                major_arcsec_of(k, b),
            ) && c.minor_deg == c.major_deg && c.pa_deg == Double::zero_spec(),
            Err(e) => r == Err::<Beam, TargetError>(TargetError::Circularising(e)),
        },
{
}

/// Rounding a beam rounds each of its values up by itself: the axes to a tenth of an
/// arcsecond and the angle to a hundredth of a degree.  Only then it is made circular,
/// where that is asked for.
pub proof fn law_rounding<K: RoundingKernel>(
    k: &K,
    b: Beam,
    circularise: bool,
    r: Result<Beam, TargetError>,
    up: Result<Beam, BeamError>,
    round: Result<Beam, TargetError>,
)
    requires
        call_ensures(apply_beam_rounding::<K>, (k, &b, circularise), r),
        call_ensures(
            Beam::from_arcsec::<K>,
            (
                k,
                ceiled(k, major_arcsec_of(k, b), 1),
                ceiled(k, minor_arcsec_of(k, b), 1),
                ceiled(k, b.pa_deg, 2),
            ),
            up,
        ),
        up matches Ok(c) ==> call_ensures(circularised::<K>, (k, &c), round),
    ensures
        match up {
            Err(e) => r == Err::<Beam, TargetError>(TargetError::Rounding(e)),
            Ok(c) => if circularise {
                r == round
            } else {
                r == Ok::<Beam, TargetError>(c)
            },
        },
        r matches Ok(c) ==> c.major_deg.units() >= c.minor_deg.units(),
        r matches Ok(c) ==> !circularise ==> {
            &&& c.major_deg == degrees_of(k, ceiled(k, major_arcsec_of(k, b), 1))
            &&& c.minor_deg == degrees_of(k, ceiled(k, minor_arcsec_of(k, b), 1))
            &&& c.pa_deg == ceiled(k, b.pa_deg, 2)
        },
{
}

/// A target beam is asked for by all three numbers, none asks for none, and anything
/// between is incomplete.
pub proof fn law_asked_for_target<K: BeamKernel>(
    k: &K,
    bmaj: Option<Double>,
    bmin: Option<Double>,
    bpa: Option<Double>,
    r: Result<Option<Beam>, TargetError>,
    made: Result<Beam, BeamError>,
)
    requires
        call_ensures(parse_target_beam::<K>, (k, bmaj, bmin, bpa), r),
        bmaj is Some && bmin is Some && bpa is Some ==> call_ensures(
            Beam::from_arcsec::<K>,
            (k, bmaj->0, bmin->0, bpa->0),
            made,
        ),
    ensures
        r == Ok::<Option<Beam>, TargetError>(None) <==> bmaj is None && bmin is None && bpa is None,
        r == Err::<Option<Beam>, TargetError>(TargetError::Incomplete) <==> {
            &&& bmaj is Some || bmin is Some || bpa is Some
            &&& bmaj is None || bmin is None || bpa is None
        },
        bmaj is Some && bmin is Some && bpa is Some ==> match made {
            Ok(b) => r == Ok::<Option<Beam>, TargetError>(Some(b)),
            Err(e) => r == Err::<Option<Beam>, TargetError>(TargetError::InvalidTarget(e)),
        },
{
}

// ── Which beams count ───────────────────────────────────────────────────────

/// The beam is there, has finite values and a positive major axis, and that is not
/// above the cutoff.
pub open spec fn takes_part<K: BeamKernel>(k: &K, b: Option<Beam>, cutoff: Option<Double>) -> bool {
    b matches Some(x) && x.major_deg.finite() && x.minor_deg.finite() && x.pa_deg.finite()
        && x.major_deg.units() > 0 && (cutoff matches Some(c) ==> !c.nan() && !major_arcsec_of(
        k,
        x,
    ).nan() && major_arcsec_of(k, x).units() <= c.units())
}

proof fn lemma_counting_is_a_filter<K: BeamKernel>(
    k: &K,
    beams: Seq<Option<Beam>>,
    cutoff: Option<Double>,
)
    ensures
        counting(k, beams, cutoff) == beams.filter(
            |b: Option<Beam>| takes_part(k, b, cutoff),
        ).map_values(|b: Option<Beam>| b->0),
    decreases beams.len(),
{
    let keep = |b: Option<Beam>| takes_part(k, b, cutoff);
    let bare = |b: Option<Beam>| b->0;
    reveal(Seq::filter);
    if beams.len() == 0 {
        assert(counting(k, beams, cutoff) =~= beams.filter(keep).map_values(bare));
    } else {
        let front = beams.drop_last();
        lemma_counting_is_a_filter(k, front, cutoff);
        assert(takes_part(k, beams.last(), cutoff) <==> (beams.last() matches Some(b) && counts(
            k,
            b,
            cutoff,
        )));
        if takes_part(k, beams.last(), cutoff) {
            assert(front.filter(keep).push(beams.last()).map_values(bare) =~= front.filter(
                keep,
            ).map_values(bare).push(beams.last()->0));
        }
    }
}

/// The beams that take part are those that are there and count, all of them, in their
/// order.
pub proof fn law_beams_that_take_part<K: BeamKernel>(
    k: &K,
    beams: Vec<Option<Beam>>,
    cutoff: Option<Double>,
    r: Vec<Beam>,
)
    requires
        call_ensures(valid_beams::<K>, (k, &beams, cutoff), r),
    ensures
        r@ == beams@.filter(|b: Option<Beam>| takes_part(k, b, cutoff)).map_values(
            |b: Option<Beam>| b->0,
        ),
        r@ == counting(k, beams@, cutoff),
{
    lemma_counting_is_a_filter(k, beams@, cutoff);
}

/// A beam that takes part is among those that do.
pub proof fn law_no_beam_is_lost<K: BeamKernel>(
    k: &K,
    beams: Seq<Option<Beam>>,
    cutoff: Option<Double>,
    i: int,
)
    requires
        0 <= i < beams.len(),
        takes_part(k, beams[i], cutoff),
    ensures
        counting(k, beams, cutoff).contains(beams[i]->0),
    decreases beams.len(),
{
    let x = beams[i]->0;
    let front = counting(k, beams.drop_last(), cutoff);
    let all = counting(k, beams, cutoff);
    if i < beams.len() - 1 {
        law_no_beam_is_lost(k, beams.drop_last(), cutoff, i);
        let j = choose|j: int| 0 <= j < front.len() && front[j] == x;
        assert(all[j] == x);
    } else {
        assert(counts(k, x, cutoff));
        assert(all[front.len() as int] == x);
    }
}

/// The target beam of a set of beams is the rounded common beam of those that take
/// part, and none where none does.
pub proof fn law_target_is_rounded_common_beam<K: RoundingKernel>(
    k: &K,
    beams: Vec<Option<Beam>>,
    cutoff: Option<Double>,
    fit: FitSettings,
    channel: Option<usize>,
    r: Result<Option<Beam>, TargetError>,
    valid: Vec<Beam>,
    common: Result<Beam, CommonBeamError>,
    rounded: Result<Beam, TargetError>,
)
    requires
        call_ensures(target_beam::<K>, (k, &beams, cutoff, &fit, channel), r),
        call_ensures(valid_beams::<K>, (k, &beams, cutoff), valid),
        call_ensures(common_beam::<K>, (k, &valid, fit.tolerance, fit.nsamps, fit.epsilon), common),
        common matches Ok(b) ==> call_ensures(
            apply_beam_rounding::<K>,
            (k, &b, fit.circularise),
            rounded,
        ),
    ensures
        valid@.len() == 0 <==> r == Ok::<Option<Beam>, TargetError>(None),
        valid@.len() > 0 ==> match common {
            Err(error) => r == Err::<Option<Beam>, TargetError>(
                TargetError::NoCommonBeam { channel, error },
            ),
            Ok(_) => match rounded {
                Ok(c) => r == Ok::<Option<Beam>, TargetError>(Some(c)),
                Err(e) => r == Err::<Option<Beam>, TargetError>(e),
            },
        },
{
}

// ── Cubes ───────────────────────────────────────────────────────────────────

/// How many beams the first `m` cubes have.
pub open spec fn beams_before(metas: Seq<CubeMeta>, m: int) -> int
    decreases m,
{
    if m <= 0 {
        0
    } else {
        beams_before(metas, m - 1) + metas[m - 1].beams@.len()
    }
}

proof fn lemma_beams_before(metas: Seq<CubeMeta>, n: int)
    requires
        0 <= n < metas.len(),
    ensures
        beams_before(metas.drop_last(), n) == beams_before(metas, n),
        beams_before(metas, n) >= 0,
    decreases n,
{
    if n > 0 {
        lemma_beams_before(metas, n - 1);
        assert(metas.drop_last()[n - 1] == metas[n - 1]);
    }
}

proof fn lemma_all_beams(metas: Seq<CubeMeta>, m: int, c: int)
    requires
        0 <= m < metas.len(),
        0 <= c < metas[m].beams@.len(),
    ensures
        all_beams(metas).len() == beams_before(metas, metas.len() as int),
        all_beams(metas)[beams_before(metas, m) + c] == metas[m].beams@[c],
        0 <= beams_before(metas, m) + c < all_beams(metas).len(),
    decreases metas.len(),
{
    let front = metas.drop_last();
    let n = metas.len() as int;
    lemma_all_len(front);
    lemma_beams_before(metas, n - 1);
    if m < n - 1 {
        lemma_all_beams(front, m, c);
        lemma_beams_before(metas, m);
        assert(front[m] == metas[m]);
    }
}

proof fn lemma_all_len(metas: Seq<CubeMeta>)
    ensures
        all_beams(metas).len() == beams_before(metas, metas.len() as int),
    decreases metas.len(),
{
    if metas.len() > 0 {
        lemma_all_len(metas.drop_last());
        lemma_beams_before(metas, metas.len() - 1);
    }
}

/// The beams of all cubes hold every beam of every channel of every cube, once for each
/// time that it stands there: cube by cube, and in each channel by channel.
pub proof fn law_every_beam_of_every_cube(
    metas: Vec<CubeMeta>,
    r: Vec<Option<Beam>>,
    m: int,
    c: int,
)
    requires
        call_ensures(beams_of_cubes, (&metas,), r),
        0 <= m < metas@.len(),
        0 <= c < metas@[m].beams@.len(),
    ensures
        r@.len() == beams_before(metas@, metas@.len() as int),
        r@[beams_before(metas@, m) + c] == metas@[m].beams@[c],
        r@.contains(metas@[m].beams@[c]),
{
    lemma_all_beams(metas@, m, c);
    assert(r@[beams_before(metas@, m) + c] == metas@[m].beams@[c]);
}

/// In total mode every channel has the target of the beams of all channels of all
/// cubes.
pub proof fn law_total_mode<K: RoundingKernel>(
    k: &K,
    metas: Vec<CubeMeta>,
    cutoff: Option<Double>,
    fit: FitSettings,
    r: Result<Vec<Option<Beam>>, TargetError>,
    all: Vec<Option<Beam>>,
    target: Result<Option<Beam>, TargetError>,
)
    requires
        call_ensures(compute_target_beams::<K>, (k, &metas, CubeMode::Total, cutoff, &fit), r),
        call_ensures(beams_of_cubes, (&metas,), all),
        call_ensures(target_beam::<K>, (k, &all, cutoff, &fit, None::<usize>), target),
    ensures
        match target {
            Err(e) => r == Err::<Vec<Option<Beam>>, TargetError>(e),
            Ok(None) => r == Err::<Vec<Option<Beam>>, TargetError>(TargetError::NoValidBeams),
            Ok(Some(b)) => r matches Ok(v) && v@.len() == metas@[0].nfreq && forall|c: int|
                0 <= c < v@.len() ==> (#[trigger] v@[c]) == Some(b),
        },
{
}

/// In total mode every beam of every cube that takes part can be convolved to the
/// common beam that the target is the rounded form of, but for the analytic answer for
/// two beams, which is not held against its inputs; a single one is that beam.
pub proof fn law_total_target_is_reached<K: RoundingKernel>(
    k: &K,
    metas: Vec<CubeMeta>,
    cutoff: Option<Double>,
    fit: FitSettings,
    r: Result<Vec<Option<Beam>>, TargetError>,
    all: Vec<Option<Beam>>,
    valid: Vec<Beam>,
    common: Result<Beam, CommonBeamError>,
    rounded: Result<Beam, TargetError>,
    target: Result<Option<Beam>, TargetError>,
    m: int,
    c: int,
)
    requires
        call_ensures(compute_target_beams::<K>, (k, &metas, CubeMode::Total, cutoff, &fit), r),
        call_ensures(beams_of_cubes, (&metas,), all),
        call_ensures(target_beam::<K>, (k, &all, cutoff, &fit, None::<usize>), target),
        call_ensures(valid_beams::<K>, (k, &all, cutoff), valid),
        call_ensures(common_beam::<K>, (k, &valid, fit.tolerance, fit.nsamps, fit.epsilon), common),
        common matches Ok(b) ==> call_ensures(
            apply_beam_rounding::<K>,
            (k, &b, fit.circularise),
            rounded,
        ),
        r is Ok,
        metas@[0].nfreq > 0,
        0 <= m < metas@.len(),
        0 <= c < metas@[m].beams@.len(),
        takes_part(k, metas@[m].beams@[c], cutoff),
    ensures
        common is Ok,
        rounded is Ok,
        r->Ok_0@[0] == Some(rounded->Ok_0),
        valid@.len() != 2 ==> {
            let b = metas@[m].beams@[c]->0;
            b == common->Ok_0 || reaches(k, b, common->Ok_0)
        },
{
    lemma_all_beams(metas@, m, c);
    let i = beams_before(metas@, m) + c;
    law_no_beam_is_lost(k, all@, cutoff, i);
    law_total_mode(k, metas, cutoff, fit, r, all, target);
    law_target_is_rounded_common_beam(
        k,
        all,
        cutoff,
        fit,
        None,
        target,
        valid,
        common,
        rounded,
    );
    law_common_beam_is_reached(k, valid@, fit.tolerance, fit.nsamps, fit.epsilon);
    let b = metas@[m].beams@[c]->0;
    let j = choose|j: int| 0 <= j < valid@.len() && valid@[j] == b;
    if valid@.len() != 2 && valid@.len() > 1 {
        assert(reaches(k, valid@[j], common->Ok_0));
    }
}

/// `here` holds the beam that each cube has at channel `c`.
pub open spec fn are_beams_at(metas: Seq<CubeMeta>, c: int, here: Seq<Option<Beam>>) -> bool {
    &&& here.len() == metas.len()
    &&& forall|m: int| 0 <= m < metas.len() ==> (#[trigger] here[m]) == metas[m].beams@[c]
}

proof fn lemma_natural<K: RoundingKernel>(
    k: &K,
    metas: Seq<CubeMeta>,
    cutoff: Option<Double>,
    fit: FitSettings,
    n: nat,
    c: int,
)
    requires
        0 <= c < n,
    ensures
        natural_targets(k, metas, cutoff, fit, n) matches Ok(v) ==> v.len() == n && target_of(
            k,
            channel_beams(metas, c),
            cutoff,
            fit,
            Some(c as usize),
        ) == Ok::<Option<Beam>, TargetError>(v[c]),
    decreases n,
{
    if n == 1 {
        assert(natural_targets(k, metas, cutoff, fit, 0) == Ok::<Seq<Option<Beam>>, TargetError>(
            Seq::empty(),
        ));
    }
    if n > 1 {
        lemma_natural(
            k,
            metas,
            cutoff,
            fit,
            (n - 1) as nat,
            if c < n - 1 {
                c
            } else {
                0
            },
        );
    }
}

/// In natural mode each channel has the target of the beams that the cubes have at that
/// channel, and of no others.
pub proof fn law_natural_mode<K: RoundingKernel>(
    k: &K,
    metas: Vec<CubeMeta>,
    cutoff: Option<Double>,
    fit: FitSettings,
    r: Result<Vec<Option<Beam>>, TargetError>,
    c: usize,
    here: Vec<Option<Beam>>,
    target: Result<Option<Beam>, TargetError>,
)
    requires
        call_ensures(compute_target_beams::<K>, (k, &metas, CubeMode::Natural, cutoff, &fit), r),
        c < metas@[0].nfreq,
        are_beams_at(metas@, c as int, here@),
        call_ensures(target_beam::<K>, (k, &here, cutoff, &fit, Some(c)), target),
    ensures
        r matches Ok(v) ==> v@.len() == metas@[0].nfreq && target == Ok::<
            Option<Beam>,
            TargetError,
        >(v@[c as int]),
{
    assert(here@ =~= channel_beams(metas@, c as int));
    lemma_natural(k, metas@, cutoff, fit, metas@[0].nfreq as nat, c as int);
}

/// In natural mode the run fails exactly where some channel has no target beam to be
/// found, and as the first such channel does.
pub proof fn law_natural_mode_fails_first<K: RoundingKernel>(
    k: &K,
    metas: Vec<CubeMeta>,
    cutoff: Option<Double>,
    fit: FitSettings,
    r: Result<Vec<Option<Beam>>, TargetError>,
    here: Seq<Vec<Option<Beam>>>,
    targets: Seq<Result<Option<Beam>, TargetError>>,
    c: usize,
)
    requires
        call_ensures(compute_target_beams::<K>, (k, &metas, CubeMode::Natural, cutoff, &fit), r),
        here.len() == targets.len() == c + 1,
        c < metas@[0].nfreq,
        forall|i: int|
            0 <= i <= c ==> are_beams_at(metas@, i, (#[trigger] here[i])@) && call_ensures(
                target_beam::<K>,
                (k, &here[i], cutoff, &fit, Some(i as usize)),
                targets[i],
            ),
        forall|i: int| 0 <= i < c ==> (#[trigger] targets[i]) is Ok,
    ensures
        targets[c as int] matches Err(e) ==> r == Err::<Vec<Option<Beam>>, TargetError>(e),
{
    let found = targets[c as int];
    if found is Err {
        lemma_natural_prefix(k, metas@, cutoff, fit, here, targets, c as nat);
        assert(here[c as int]@ =~= channel_beams(metas@, c as int));
        lemma_natural_err(k, metas@, cutoff, fit, (c + 1) as nat, metas@[0].nfreq as nat);
    }
}

/// In natural mode the run succeeds where every channel has a target, or none to be
/// found for want of beams.
pub proof fn law_natural_mode_succeeds<K: RoundingKernel>(
    k: &K,
    metas: Vec<CubeMeta>,
    cutoff: Option<Double>,
    fit: FitSettings,
    r: Result<Vec<Option<Beam>>, TargetError>,
    here: Seq<Vec<Option<Beam>>>,
    targets: Seq<Result<Option<Beam>, TargetError>>,
)
    requires
        call_ensures(compute_target_beams::<K>, (k, &metas, CubeMode::Natural, cutoff, &fit), r),
        here.len() == targets.len() == metas@[0].nfreq,
        forall|i: int|
            0 <= i < here.len() ==> are_beams_at(metas@, i, (#[trigger] here[i])@) && call_ensures(
                target_beam::<K>,
                (k, &here[i], cutoff, &fit, Some(i as usize)),
                targets[i],
            ),
        forall|i: int| 0 <= i < targets.len() ==> (#[trigger] targets[i]) is Ok,
    ensures
        r is Ok,
{
    let n = metas@[0].nfreq as nat;
    if n == 0 {
        assert(natural_targets(k, metas@, cutoff, fit, 0) is Ok);
    } else {
        lemma_natural_prefix(k, metas@, cutoff, fit, here, targets, (n - 1) as nat);
        assert(here[n - 1]@ =~= channel_beams(metas@, n - 1));
        assert(targets[n - 1] is Ok);
    }
}

proof fn lemma_natural_prefix<K: RoundingKernel>(
    k: &K,
    metas: Seq<CubeMeta>,
    cutoff: Option<Double>,
    fit: FitSettings,
    here: Seq<Vec<Option<Beam>>>,
    targets: Seq<Result<Option<Beam>, TargetError>>,
    n: nat,
)
    requires
        n < here.len() == targets.len(),
        here.len() <= usize::MAX,
        forall|i: int|
            0 <= i < here.len() ==> are_beams_at(metas, i, (#[trigger] here[i])@) && call_ensures(
                target_beam::<K>,
                (k, &here[i], cutoff, &fit, Some(i as usize)),
                targets[i],
            ),
        forall|i: int| 0 <= i < targets.len() - 1 ==> (#[trigger] targets[i]) is Ok,
    ensures
        natural_targets(k, metas, cutoff, fit, n) is Ok,
    decreases n,
{
    if n > 0 {
        lemma_natural_prefix(k, metas, cutoff, fit, here, targets, (n - 1) as nat);
        assert(here[n - 1]@ =~= channel_beams(metas, n - 1));
        assert(targets[n - 1] is Ok);
    }
}

proof fn lemma_natural_err<K: RoundingKernel>(
    k: &K,
    metas: Seq<CubeMeta>,
    cutoff: Option<Double>,
    fit: FitSettings,
    m: nat,
    n: nat,
)
    requires
        m <= n,
        natural_targets(k, metas, cutoff, fit, m) is Err,
    ensures
        natural_targets(k, metas, cutoff, fit, n) == natural_targets(k, metas, cutoff, fit, m),
    decreases n,
{
    if m < n {
        lemma_natural_err(k, metas, cutoff, fit, m, (n - 1) as nat);
    }
}

/// In natural mode the target of a channel does not depend on the other channels: where
/// two sets of cubes have the same beams at a channel, they have the same target there.
pub proof fn law_natural_targets_are_local<K: RoundingKernel>(
    k: &K,
    metas: Vec<CubeMeta>,
    others: Vec<CubeMeta>,
    cutoff: Option<Double>,
    fit: FitSettings,
    r: Result<Vec<Option<Beam>>, TargetError>,
    s: Result<Vec<Option<Beam>>, TargetError>,
    c: int,
)
    requires
        call_ensures(compute_target_beams::<K>, (k, &metas, CubeMode::Natural, cutoff, &fit), r),
        call_ensures(compute_target_beams::<K>, (k, &others, CubeMode::Natural, cutoff, &fit), s),
        0 <= c < metas@[0].nfreq,
        c < others@[0].nfreq,
        metas@.len() == others@.len(),
        forall|m: int|
            0 <= m < metas@.len() ==> (#[trigger] metas@[m]).beams@[c] == others@[m].beams@[c],
        r is Ok,
        s is Ok,
    ensures
        r->Ok_0@[c] == s->Ok_0@[c],
{
    assert(channel_beams(metas@, c) =~= channel_beams(others@, c));
    lemma_natural(k, metas@, cutoff, fit, metas@[0].nfreq as nat, c);
    lemma_natural(k, others@, cutoff, fit, others@[0].nfreq as nat, c);
}

/// In natural mode a single cube has, at each channel whose beam takes part, the
/// rounded form of exactly that beam, and no target at any other channel.
pub proof fn law_natural_target_of_one_cube<K: RoundingKernel>(
    k: &K,
    metas: Vec<CubeMeta>,
    cutoff: Option<Double>,
    fit: FitSettings,
    r: Result<Vec<Option<Beam>>, TargetError>,
    c: int,
    rounded: Result<Beam, TargetError>,
)
    requires
        call_ensures(compute_target_beams::<K>, (k, &metas, CubeMode::Natural, cutoff, &fit), r),
        metas@.len() == 1,
        0 <= c < metas@[0].nfreq,
        takes_part(k, metas@[0].beams@[c], cutoff) ==> call_ensures(
            apply_beam_rounding::<K>,
            (k, &metas@[0].beams@[c]->0, fit.circularise),
            rounded,
        ),
    ensures
        takes_part(k, metas@[0].beams@[c], cutoff) ==> (r matches Ok(v) ==> rounded is Ok && v@[c]
            == Some(rounded->Ok_0)),
        !takes_part(k, metas@[0].beams@[c], cutoff) ==> (r matches Ok(v) ==> v@[c] is None),
{
    let here = channel_beams(metas@, c);
    lemma_natural(k, metas@, cutoff, fit, metas@[0].nfreq as nat, c);
    assert(here.len() == 1 && here[0] == metas@[0].beams@[c]);
    assert(here.last() == here[0]);
    let front = counting(k, here.drop_last(), cutoff);
    assert(front =~= Seq::<Beam>::empty());
    let all = counting(k, here, cutoff);
    if takes_part(k, here[0], cutoff) {
        assert(counts(k, here[0]->0, cutoff));
        assert(all =~= seq![here[0]->0]);
        assert(all[0] == here[0]->0);
    } else {
        assert(all.len() == 0);
    }
}

/// A target that was given for cubes serves every channel where all beams with a size
/// can reach it, in its circular form where that is asked for; without one the mode
/// decides.
pub proof fn law_given_target_of_cubes<K: RoundingKernel>(
    k: &K,
    metas: Vec<CubeMeta>,
    target: Option<Beam>,
    mode: CubeMode,
    cutoff: Option<Double>,
    fit: FitSettings,
    r: Result<Vec<Option<Beam>>, TargetError>,
    all: Vec<Option<Beam>>,
    valid: Vec<Beam>,
    fits: bool,
    round: Result<Beam, TargetError>,
    by_mode: Result<Vec<Option<Beam>>, TargetError>,
)
    requires
        call_ensures(cube_target_beams::<K>, (k, &metas, target, mode, cutoff, &fit), r),
        call_ensures(beams_of_cubes, (&metas,), all),
        call_ensures(valid_beams::<K>, (k, &all, None::<Double>), valid),
        target matches Some(b) ==> call_ensures(fits_in_beam::<K>, (k, &valid, &b), fits),
        target matches Some(b) ==> call_ensures(circularised::<K>, (k, &b), round),
        call_ensures(compute_target_beams::<K>, (k, &metas, mode, cutoff, &fit), by_mode),
    ensures
        target matches Some(b) ==> {
            let used = if fit.circularise {
                round
            } else {
                Ok(b)
            };
            &&& !fits ==> r == Err::<Vec<Option<Beam>>, TargetError>(TargetError::TooSmall)
            &&& fits && used is Err ==> r == Err::<Vec<Option<Beam>>, TargetError>(used->Err_0)
            &&& fits && used is Ok ==> r is Ok && r->Ok_0@.len() == metas@[0].nfreq && forall|c: int|
                0 <= c < r->Ok_0@.len() ==> (#[trigger] r->Ok_0@[c]) == Some(used->Ok_0)
        },
        target is None ==> match by_mode {
            Err(e) => r == Err::<Vec<Option<Beam>>, TargetError>(e),
            Ok(v) => r matches Ok(w) && w@ == v@,
        },
{
}

// ── Images ──────────────────────────────────────────────────────────────────

/// The beam that images are brought to: the given target, rounded, where all of their
/// beams can reach it; without one the target of their beams, of which there must be
/// one that takes part.
pub proof fn law_image_target<K: RoundingKernel>(
    k: &K,
    beams: Vec<Beam>,
    target: Option<Beam>,
    cutoff: Option<Double>,
    fit: FitSettings,
    r: Result<Beam, TargetError>,
    fits: bool,
    rounded: Result<Beam, TargetError>,
    entries: Vec<Option<Beam>>,
    found: Result<Option<Beam>, TargetError>,
)
    requires
        call_ensures(image_target_beam::<K>, (k, &beams, target, cutoff, &fit), r),
        target matches Some(b) ==> call_ensures(fits_in_beam::<K>, (k, &beams, &b), fits),
        target matches Some(b) ==> call_ensures(
            apply_beam_rounding::<K>,
            (k, &b, fit.circularise),
            rounded,
        ),
        entries@.len() == beams@.len(),
        forall|i: int| 0 <= i < beams@.len() ==> (#[trigger] entries@[i]) == Some(beams@[i]),
        call_ensures(target_beam::<K>, (k, &entries, cutoff, &fit, None::<usize>), found),
    ensures
        target is Some && !fits ==> r == Err::<Beam, TargetError>(TargetError::TooSmall),
        target is Some && fits ==> r == rounded,
        target is None ==> match found {
            Err(e) => r == Err::<Beam, TargetError>(e),
            Ok(None) => r == Err::<Beam, TargetError>(TargetError::NoValidBeams),
            Ok(Some(b)) => r == Ok::<Beam, TargetError>(b),
        },
{
    assert(entries@ =~= crate::targets::present(beams@));
}

// ── Report ──────────────────────────────────────────────────────────────────

proof fn lemma_those_there(beams: Seq<Option<Beam>>)
    ensures
        those_there(beams) == beams.filter(|b: Option<Beam>| b is Some).map_values(
            |b: Option<Beam>| b->0,
        ),
        first_beam(beams) is None <==> those_there(beams).len() == 0,
    decreases beams.len(),
{
    let there = |b: Option<Beam>| b is Some;
    let bare = |b: Option<Beam>| b->0;
    reveal(Seq::filter);
    if beams.len() == 0 {
        assert(those_there(beams) =~= beams.filter(there).map_values(bare));
    } else {
        let front = beams.drop_last();
        lemma_those_there(front);
        if beams.last() is Some {
            assert(front.filter(there).push(beams.last()).map_values(bare) =~= front.filter(
                there,
            ).map_values(bare).push(beams.last()->0));
        }
        lemma_first_of_front(beams);
    }
}

proof fn lemma_first_of_front(beams: Seq<Option<Beam>>)
    requires
        beams.len() > 0,
    ensures
        first_beam(beams) == (if first_beam(beams.drop_last()) is Some {
            first_beam(beams.drop_last())
        } else {
            beams.last()
        }),
    decreases beams.len(),
{
    if beams.len() > 1 {
        lemma_first_of_front(beams.drop_first());
        assert(beams.drop_first().drop_last() =~= beams.drop_last().drop_first());
        assert(beams.drop_last()[0] == beams[0]);
        assert(beams.drop_first().last() == beams.last());
    } else {
        assert(first_beam(beams.drop_first()) is None);
        assert(first_beam(beams.drop_last()) is None);
    }
}

proof fn lemma_first_is_there(beams: Seq<Option<Beam>>)
    ensures
        first_beam(beams) matches Some(b) ==> those_there(beams).len() > 0 && those_there(beams)[0]
            == b,
    decreases beams.len(),
{
    if beams.len() > 0 {
        lemma_those_there(beams.drop_last());
        lemma_first_is_there(beams.drop_last());
        lemma_first_of_front(beams);
    }
}

/// The report on targets looks at those that are there, in their order: it says nothing
/// where there are none, gives the first as shared where each agrees with the next, and
/// otherwise says how many there are, and the first as an example.
pub proof fn law_report<K: BeamKernel>(k: &K, beams: Vec<Option<Beam>>, r: TargetReport)
    requires
        call_ensures(target_report::<K>, (k, &beams), r),
    ensures
        ({
            let there = beams@.filter(|b: Option<Beam>| b is Some).map_values(
                |b: Option<Beam>| b->0,
            );
            let same = forall|i: int|
                0 <= i < there.len() - 1 ==> (#[trigger] there[i]).close_to(k, there[i + 1]);
            &&& there.len() == 0 ==> r == TargetReport::Nothing
            &&& there.len() > 0 && same ==> r == TargetReport::Shared(there[0])
            &&& there.len() > 0 && !same ==> r == (TargetReport::Varies {
                valid: there.len() as usize,
                example: there[0],
            })
        }),
{
    lemma_those_there(beams@);
    lemma_first_is_there(beams@);
}

/// The listing of a dry run has a line per channel: its number, a space, and the text of
/// its beam, or `masked`.
pub proof fn law_listing(shown: Vec<Option<String>>, r: Vec<String>, i: int)
    requires
        call_ensures(dryrun_lines, (&shown,), r),
        0 <= i < shown@.len(),
    ensures
        r@.len() == shown@.len(),
        r@[i]@ == decimal(i as nat) + seq![' '] + (match shown@[i] {
            Some(s) => s@,
            None => "masked"@,
        }),
{
    assert(r@[i]@ == crate::targets::dryrun_line(i, crate::fits_io::text_of(shown@[i])));
    assert(decimal(i as nat).push(' ') =~= decimal(i as nat) + seq![' ']);
}

} // verus!
