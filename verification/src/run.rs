//! A smoothing run around its file work: the inputs, the checks on them, what is
//! done with each channel, and the log of a run over images.
use vstd::prelude::*;

use crate::beam::Beam;
use crate::beamlog::{log_kernel_is_function, printed, prints_as, LogKernel};
use crate::convolve_uv::{above_cutoff, filter_kernel_is_function, FilterKernel};
use crate::cube_io::CubeMeta;
use crate::fft::{FftKernel, FftPlans};
use crate::fits_io::slice_text;
use crate::ieee::{Double, FftFloat};
use crate::plane::Plane;
use crate::smooth::{convolving_beam, smooth_view, smooth_with_plans, smoothed, SmoothError};
use crate::text::{
    chars_of, joined_lines, lemma_joined_lines_push, lines, push_all, push_str, spaced, split_lines,
    string_of, texts, trim, trimmed,
};

verus! {

// ── Inputs ──────────────────────────────────────────────────────────────────

/// Why there are no inputs.
#[derive(Clone, Copy, Debug, PartialEq, Eq, Structural)]
pub enum InputError {
    /// More than one list file, or none.
    OneListFile,
    /// The list file could not be read.
    Unreadable,
    /// No input files.
    NoFiles,
}

/// The characters of each string in a list.
pub open spec fn names(v: Seq<String>) -> Seq<Seq<char>> {
    Seq::new(v.len(), |i: int| v[i]@)
}

/// The input files: the arguments, or the trimmed lines of the one list file that
/// they name.
pub open spec fn inputs(
    infile: Seq<Seq<char>>,
    listfile: bool,
    listing: Option<Seq<char>>,
) -> Result<Seq<Seq<char>>, InputError> {
    if listfile && infile.len() != 1 {
        Err(InputError::OneListFile)
    } else if listfile && listing is None {
        Err(InputError::Unreadable)
    } else {
        let files = if listfile {
            let ls = lines(listing->0);
            Seq::new(ls.len(), |i: int| trim(ls[i]))
        } else {
            infile
        };
        if files.len() == 0 {
            Err(InputError::NoFiles)
        } else {
            Ok(files)
        }
    }
}

/// The input files of a run (see [`inputs`]).  `listing` is the content of the
/// list file, and is looked at only with `listfile`.
pub fn collect_files(infile: &Vec<String>, listfile: bool, listing: Option<&str>) -> (r: Result<
    Vec<String>,
    InputError,
>)
    ensures
        match inputs(names(infile@), listfile, slice_text(listing)) {
            Ok(files) => r is Ok && names(r->Ok_0@) == files,
            Err(e) => r == Err::<Vec<String>, InputError>(e),
        },
{
    let mut files: Vec<String> = Vec::new();
    if listfile {
        if infile.len() != 1 {
            return Err(InputError::OneListFile);
        }
        let content = match listing {
            Some(s) => s,
            None => return Err(InputError::Unreadable),
        };
        let all = chars_of(content);
        let rows = split_lines(&all);
        let ghost ls = lines(content@);
        assert(texts(rows@) == ls);
        let mut i: usize = 0;
        while i < rows.len()
            invariant
                i <= rows.len(),
                ls == texts(rows@),
                files@.len() == i,
                forall|j: int| 0 <= j < i ==> (#[trigger] files@[j])@ == trim(ls[j]),
            decreases rows.len() - i,
        {
            assert(ls[i as int] == rows@[i as int]@);
            let t = trimmed(&rows[i]);
            files.push(string_of(&t));
            i = i + 1;
        }
        assert(names(files@) =~= Seq::new(ls.len(), |j: int| trim(ls[j])));
    } else {
        let mut i: usize = 0;
        while i < infile.len()
            invariant
                i <= infile.len(),
                files@.len() == i,
                forall|j: int| 0 <= j < i ==> (#[trigger] files@[j])@ == infile@[j]@,
            decreases infile.len() - i,
        {
            let name = chars_of(infile[i].as_str());
            files.push(string_of(&name));
            i = i + 1;
        }
        assert(names(files@) =~= names(infile@));
    }
    if files.len() == 0 {
        return Err(InputError::NoFiles);
    }
    Ok(files)
}

/// Why a set of cubes cannot be worked on together.
#[derive(Clone, Copy, Debug, PartialEq, Eq, Structural)]
pub enum CubeFault {
    /// This cube has another number of channels than the first.
    Channels { cube: usize, expected: usize, got: usize },
    /// This cube has several Stokes planes, of which only the first would be
    /// convolved.
    Stokes { cube: usize, nstokes: usize },
}

/// What is wrong with one cube of a set.
pub open spec fn cube_fault(metas: Seq<CubeMeta>, i: int) -> Option<CubeFault> {
    if metas[i].nfreq != metas[0].nfreq {
        Some(
            CubeFault::Channels {
                cube: i as usize,
                expected: metas[0].nfreq,
                got: metas[i].nfreq,
            },
        )
    } else if metas[i].nstokes > 1 {
        Some(CubeFault::Stokes { cube: i as usize, nstokes: metas[i].nstokes })
    } else {
        None
    }
}

/// Check that the cubes can be worked on together; the first fault counts.
pub fn check_cubes(metas: &Vec<CubeMeta>) -> (r: Option<CubeFault>)
    ensures
        match r {
            None => forall|i: int|
                0 <= i < metas@.len() ==> #[trigger] cube_fault(metas@, i) is None,
            Some(f) => exists|i: int|
                {
                    &&& 0 <= i < metas@.len()
                    &&& #[trigger] cube_fault(metas@, i) == Some(f)
                    &&& forall|j: int| 0 <= j < i ==> #[trigger] cube_fault(metas@, j) is None
                },
        },
{
    let mut i: usize = 0;
    while i < metas.len()
        invariant
            i <= metas.len(),
            forall|j: int| 0 <= j < i ==> #[trigger] cube_fault(metas@, j) is None,
        decreases metas.len() - i,
    {
        let ghost fault = cube_fault(metas@, i as int);
        if metas[i].nfreq != metas[0].nfreq {
            return Some(
                CubeFault::Channels { cube: i, expected: metas[0].nfreq, got: metas[i].nfreq },
            );
        }
        if metas[i].nstokes > 1 {
            return Some(CubeFault::Stokes { cube: i, nstokes: metas[i].nstokes });
        }
        i = i + 1;
    }
    None
}

/// How much a run tells.
#[derive(Clone, Copy, Debug, PartialEq, Eq, Structural)]
pub enum LogLevel {
    Info,
    Debug,
    Trace,
}

/// The level for a number of `-v` flags.
pub fn log_level(verbose: u8) -> (r: LogLevel)
    ensures
        r == LogLevel::Info <==> verbose == 0,
        r == LogLevel::Debug <==> verbose == 1,
        r == LogLevel::Trace <==> verbose >= 2,
{
    if verbose == 0 {
        LogLevel::Info
    } else if verbose == 1 {
        LogLevel::Debug
    } else {
        LogLevel::Trace
    }
}

// ── Channels ────────────────────────────────────────────────────────────────

/// What is done with a channel.
#[derive(Clone, Copy, Debug, PartialEq, Eq, Structural)]
pub enum ChannelPlan {
    /// The source or the target beam is missing or zero: no data.
    Blank,
    /// The source beam is above the cutoff: no data, with a warning.
    AboveCutoff { old: Beam, target: Beam, kernel: Beam },
    /// Read the channel and smooth it.
    Smooth { old: Beam, target: Beam, kernel: Beam },
}

/// The plan for a channel with the given beams.
pub open spec fn channel_plan<B: FilterKernel>(
    b: &B,
    source: Option<Beam>,
    target: Option<Beam>,
    cutoff: Option<Double>,
) -> ChannelPlan {
    match (source, target) {
        (Some(old), Some(new)) => if old.masked() || new.masked() {
            ChannelPlan::Blank
        } else {
            let kernel = convolving_beam(b, old, new);
            if above_cutoff(b, old, cutoff) {
                ChannelPlan::AboveCutoff { old, target: new, kernel }
            } else {
                ChannelPlan::Smooth { old, target: new, kernel }
            }
        },
        _ => ChannelPlan::Blank,
    }
}

/// Plan what is done with a channel (see [`channel_plan`]).
pub fn plan_channel<B: FilterKernel>(
    b: &B,
    source: Option<Beam>,
    target: Option<Beam>,
    cutoff: Option<Double>,
) -> (r: ChannelPlan)
    requires
        filter_kernel_is_function(b),
    ensures
        r == channel_plan(b, source, target, cutoff),
{
    let old = match source {
        Some(x) => x,
        None => return ChannelPlan::Blank,
    };
    if old.is_zero() {
        return ChannelPlan::Blank;
    }
    let new = match target {
        Some(x) => x,
        None => return ChannelPlan::Blank,
    };
    if new.is_zero() {
        return ChannelPlan::Blank;
    }
    let kernel = new.deconvolve_or_zero(b, &old);
    if let Some(cut) = cutoff {
        let major = b.major_arcsec(&old);
        if cut.lt(&major) {
            return ChannelPlan::AboveCutoff { old, target: new, kernel };
        }
    }
    ChannelPlan::Smooth { old, target: new, kernel }
}

/// The plane of a channel without data: NaN everywhere.
pub fn blank_channel<T: FftFloat>(meta: &CubeMeta) -> (r: Plane<T>)
    requires
        meta.plane() <= usize::MAX,
    ensures
        r.wf(),
        r.nrows == meta.ny,
        r.ncols == meta.nx,
        forall|i: int| 0 <= i < r.data@.len() ==> r.data@[i] == T::nan_spec(),
        forall|i: int| 0 <= i < r.data@.len() ==> (#[trigger] r.data@[i]).not_a_number(),
{
    proof {
        T::constants_are_distinct();
    }
    Plane::from_elem(meta.ny, meta.nx, T::nan())
}

/// Smooth the pixels of a channel that is planned to be smoothed.  This never
/// fails: the cutoff has been dealt with in the plan.
pub fn convolve_channel<T: FftFloat, B: FilterKernel, F: FftKernel<T>>(
    b: &B,
    raw: &Plane<T>,
    old: &Beam,
    target: &Beam,
    meta: &CubeMeta,
    cutoff: Option<Double>,
    plans: &FftPlans<F>,
) -> (r: Result<Plane<T>, SmoothError>)
    requires
        filter_kernel_is_function(b),
        raw.wf(),
        plans.sound::<T>(),
        !above_cutoff(b, *old, cutoff) && !old.close_to(b, *target) ==> plans.nrows == raw.nrows
            && plans.ncols == raw.ncols,
        raw.nrows <= i64::MAX,
        raw.ncols <= i64::MAX,
    ensures
        smooth_view(r) == smoothed(
            b,
            &plans.kernel,
            raw.nrows,
            raw.ncols,
            raw.data@,
            *old,
            *target,
            meta.dx_deg,
            meta.dy_deg,
            cutoff,
            meta.unit,
        ),
        r is Ok <==> !above_cutoff(b, *old, cutoff),
        r matches Ok(p) ==> p.wf() && p.nrows == raw.nrows && p.ncols == raw.ncols,
{
    smooth_with_plans(b, raw, old, target, meta.dx_deg, meta.dy_deg, cutoff, meta.unit, plans)
}

/// A channel is smoothed exactly where both beams are there, neither is zero, and
/// the source is within the cutoff.
pub proof fn law_blank_or_smoothed<B: FilterKernel>(
    b: &B,
    source: Option<Beam>,
    target: Option<Beam>,
    cutoff: Option<Double>,
)
    ensures
        channel_plan(b, source, target, cutoff) is Smooth <==> {
            &&& source matches Some(old) && !old.masked() && !above_cutoff(b, old, cutoff)
            &&& target matches Some(new) && !new.masked()
        },
        channel_plan(b, source, target, cutoff) matches ChannelPlan::Smooth { old, target: new, .. }
            ==> source == Some(old) && target == Some(new),
{
}

/// A channel without a source or a target beam, or with a zero one, is left blank.
pub proof fn law_zero_beam_is_blank<B: FilterKernel>(
    b: &B,
    other: Option<Beam>,
    cutoff: Option<Double>,
)
    ensures
        channel_plan(b, Some(Beam::zero_spec()), other, cutoff) == ChannelPlan::Blank,
        channel_plan(b, other, Some(Beam::zero_spec()), cutoff) == ChannelPlan::Blank,
        channel_plan(b, None, other, cutoff) == ChannelPlan::Blank,
        channel_plan(b, other, None, cutoff) == ChannelPlan::Blank,
{
    Double::constants_are_distinct();
}

// ── Log of a run over images ────────────────────────────────────────────────

/// What was done with one image.
pub struct ImageLogEntry {
    /// Output file.
    pub filename: String,
    pub old_beam: Beam,
    pub new_beam: Beam,
    pub conv_beam: Beam,
}

/// A beam's three numbers in degrees, as text.
pub open spec fn beam_words<K: LogKernel>(k: &K, b: Beam) -> Seq<Seq<char>> {
    seq![printed(k, b.major_deg), printed(k, b.minor_deg), printed(k, b.pa_deg)]
}

/// The fields of an entry: the file, then the three beams.
pub open spec fn entry_words<K: LogKernel>(k: &K, e: ImageLogEntry) -> Seq<Seq<char>> {
    seq![e.filename@] + beam_words(k, e.old_beam) + beam_words(k, e.new_beam) + beam_words(
        k,
        e.conv_beam,
    )
}

/// The lines of the log.
pub open spec fn image_log_lines<K: LogKernel>(k: &K, entries: Seq<ImageLogEntry>) -> Seq<Seq<char>> {
    seq![
        "# FileName OldBMAJ[deg] OldBMIN[deg] OldBPA[deg] TargetBMAJ[deg] TargetBMIN[deg] TargetBPA[deg] ConvBMAJ[deg] ConvBMIN[deg] ConvBPA[deg]"@,
    ] + Seq::new(entries.len(), |i: int| spaced(entry_words(k, entries[i])))
}

proof fn lemma_spaced_push(ws: Seq<Seq<char>>, w: Seq<char>)
    requires
        ws.len() > 0,
    ensures
        spaced(ws.push(w)) == spaced(ws).push(' ') + w,
    decreases ws.len(),
{
    assert(ws.push(w).drop_first() =~= ws.drop_first().push(w));
    if ws.len() == 1 {
        assert(ws.drop_first().push(w) =~= seq![w]);
        assert(spaced(seq![w]) == w);
    } else {
        lemma_spaced_push(ws.drop_first(), w);
    }
    assert(spaced(ws.push(w)) =~= spaced(ws).push(' ') + w);
}

/// Ten fields with one space between them.
pub proof fn lemma_spaced_ten(w: Seq<Seq<char>>)
    requires
        w.len() == 10,
    ensures
        spaced(w) == w[0].push(' ') + w[1].push(' ') + w[2].push(' ') + w[3].push(' ') + w[4].push(
            ' ',
        ) + w[5].push(' ') + w[6].push(' ') + w[7].push(' ') + w[8].push(' ') + w[9],
{
    assert(spaced(w.take(1)) == w[0]);
    lemma_spaced_take(w, 1);
    lemma_spaced_take(w, 2);
    lemma_spaced_take(w, 3);
    lemma_spaced_take(w, 4);
    lemma_spaced_take(w, 5);
    lemma_spaced_take(w, 6);
    lemma_spaced_take(w, 7);
    lemma_spaced_take(w, 8);
    lemma_spaced_take(w, 9);
    assert(w.take(10) =~= w);
    assert(spaced(w) =~= w[0].push(' ') + w[1].push(' ') + w[2].push(' ') + w[3].push(' ')
        + w[4].push(' ') + w[5].push(' ') + w[6].push(' ') + w[7].push(' ') + w[8].push(' ')
        + w[9]);
}

proof fn lemma_spaced_take(w: Seq<Seq<char>>, n: int)
    requires
        0 < n < w.len(),
    ensures
        spaced(w.take(n + 1)) == spaced(w.take(n)).push(' ') + w[n],
{
    lemma_spaced_push(w.take(n), w[n]);
    assert(w.take(n + 1) =~= w.take(n).push(w[n]));
}

fn push_number<K: LogKernel>(k: &K, out: &mut Vec<char>, x: Double)
    requires
        log_kernel_is_function(k),
    ensures
        final(out)@ == old(out)@.push(' ') + printed(k, x),
{
    out.push(' ');
    let s = k.print_number(x);
    assert(prints_as(k, x, s@));
    push_str(out, s.as_str());
}

fn push_beam<K: LogKernel>(k: &K, out: &mut Vec<char>, b: &Beam, Ghost(ws): Ghost<Seq<Seq<char>>>)
    requires
        log_kernel_is_function(k),
        ws.len() > 0,
        old(out)@ == spaced(ws),
    ensures
        final(out)@ == spaced(ws + beam_words(k, *b)),
{
    push_number(k, out, b.major_deg);
    push_number(k, out, b.minor_deg);
    push_number(k, out, b.pa_deg);
    proof {
        let w = beam_words(k, *b);
        lemma_spaced_push(ws, w[0]);
        lemma_spaced_push(ws.push(w[0]), w[1]);
        lemma_spaced_push(ws.push(w[0]).push(w[1]), w[2]);
        assert(ws + w =~= ws.push(w[0]).push(w[1]).push(w[2]));
    }
}

fn entry_line<K: LogKernel>(k: &K, e: &ImageLogEntry) -> (r: Vec<char>)
    requires
        log_kernel_is_function(k),
    ensures
        r@ == spaced(entry_words(k, *e)),
{
    let mut out = chars_of(e.filename.as_str());
    let ghost w0 = seq![e.filename@];
    assert(spaced(w0) == out@);
    push_beam(k, &mut out, &e.old_beam, Ghost(w0));
    let ghost w1 = w0 + beam_words(k, e.old_beam);
    push_beam(k, &mut out, &e.new_beam, Ghost(w1));
    let ghost w2 = w1 + beam_words(k, e.new_beam);
    push_beam(k, &mut out, &e.conv_beam, Ghost(w2));
    out
}

/// The log of a run over images as text.
pub fn image_log<K: LogKernel>(k: &K, entries: &Vec<ImageLogEntry>) -> (r: String)
    requires
        log_kernel_is_function(k),
    ensures
        r@ == joined_lines(image_log_lines(k, entries@)),
{
    let mut out: Vec<char> = Vec::new();
    push_str(
        &mut out,
        "# FileName OldBMAJ[deg] OldBMIN[deg] OldBPA[deg] TargetBMAJ[deg] TargetBMIN[deg] TargetBPA[deg] ConvBMAJ[deg] ConvBMIN[deg] ConvBPA[deg]",
    );
    out.push('\n');
    let ghost all = image_log_lines(k, entries@);
    proof {
        let none = Seq::<Seq<char>>::empty();
        assert(all.take(1) =~= none.push(all[0]));
        lemma_joined_lines_push(none, all[0]);
        assert(joined_lines(none) =~= Seq::<char>::empty());
        assert(out@ =~= joined_lines(all.take(1)));
    }
    let mut i: usize = 0;
    while i < entries.len()
        invariant
            i <= entries.len(),
            log_kernel_is_function(k),
            all == image_log_lines(k, entries@),
            out@ == joined_lines(all.take(i + 1)),
        decreases entries.len() - i,
    {
        let line = entry_line(k, &entries[i]);
        let ghost before = out@;
        push_all(&mut out, &line);
        out.push('\n');
        proof {
            assert(all[i + 1] == line@);
            assert(all.take(i + 2) =~= all.take(i + 1).push(line@));
            lemma_joined_lines_push(all.take(i + 1), line@);
            assert(out@ =~= before + line@.push('\n'));
        }
        i = i + 1;
    }
    assert(all.take(i + 1) =~= all);
    string_of(&out)
}

} // verus!
