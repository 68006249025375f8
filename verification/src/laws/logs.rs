//! Laws of beamlogs, run logs and inputs.
use vstd::prelude::*;

use crate::beam::{major_arcsec_of, minor_arcsec_of, Beam, BeamError};
use crate::beamlog::{
    in_channel_order, law_rows_by_channel, line_row, log_kernel_is_faithful,
    log_kernel_is_function, log_lines, log_rows, numbered, parsed, parses_to, printable, printed,
    prints_as, read_beamlog, write_beamlog, BeamColumn, BeamlogError, LogKernel, LogRow,
};
use crate::cube_io::CubeMeta;
use crate::ieee::Double;
use crate::run::{
    check_cubes, collect_files, cube_fault, image_log, image_log_lines, CubeFault, ImageLogEntry,
    InputError,
};
use crate::text::{
    decimal, joined_lines, law_joined_lines_split, lines, trim, unsigned_value, words,
};

verus! {

/// The names of parsing and printing stand for what the kernel returns for the same
/// text and the same number.
pub proof fn law_number_names<K: LogKernel>(
    k: &K,
    word: &str,
    x: Option<Double>,
    y: Double,
    text: String,
)
    requires
        log_kernel_is_function(k),
    ensures
        call_ensures(K::parse_number, (k, word), x) ==> parsed(k, word@) == x,
        call_ensures(K::print_number, (k, y), text) ==> printed(k, y) == text@,
{
    if call_ensures(K::parse_number, (k, word), x) {
        assert(parses_to(k, word@, x));
    }
    if call_ensures(K::print_number, (k, y), text) {
        assert(prints_as(k, y, text@));
    }
}

// ── Reading a beamlog ───────────────────────────────────────────────────────

/// A line says something: it is neither empty nor a comment.
pub open spec fn speaks(line: Seq<char>) -> bool {
    trim(line).len() > 0 && trim(line)[0] != '#'
}

/// A line with content has four fields: a channel, the axes in arcseconds and the angle
/// in degrees.  A row whose major axis is tiny or no finite number is masked; a minor
/// axis is tiny at the least.
pub proof fn law_row_of_a_line<K: LogKernel>(
    k: &K,
    text: Seq<char>,
    line: int,
    made: Result<Beam, BeamError>,
)
    requires
        ({
            let f = words(trim(text));
            let tiny = Double { bits: 0x3810_0000_0000_0000 };
            f.len() >= 4 && parsed(k, f[1]) is Some && parsed(k, f[2]) is Some && parsed(
                k,
                f[3],
            ) is Some ==> call_ensures(
                Beam::from_arcsec::<K>,
                (
                    k,
                    parsed(k, f[1])->0,
                    if parsed(k, f[2])->0.nan() || parsed(k, f[2])->0.below(tiny) {
                        tiny
                    } else {
                        parsed(k, f[2])->0
                    },
                    parsed(k, f[3])->0,
                ),
                made,
            )
        }),
    ensures
        ({
            let f = words(trim(text));
            let r = line_row(k, text, line);
            let tiny = Double { bits: 0x3810_0000_0000_0000 };
            let bad = |column: BeamColumn|
                r == Err::<LogRow, BeamlogError>(
                    BeamlogError::Number { line: line as usize, column },
                );
            let numbers = f.len() >= 4 && parsed(k, f[1]) is Some && parsed(k, f[2]) is Some
                && parsed(k, f[3]) is Some;
            let masked = parsed(k, f[1])->0.at_most(tiny) || !parsed(k, f[1])->0.finite();
            &&& f.len() < 4 ==> r == Err::<LogRow, BeamlogError>(
                BeamlogError::Fields { line: line as usize, got: f.len() as usize },
            )
            &&& f.len() >= 4 && parsed(k, f[1]) is None ==> bad(BeamColumn::Major)
            &&& f.len() >= 4 && parsed(k, f[1]) is Some && parsed(k, f[2]) is None ==> bad(
                BeamColumn::Minor,
            )
            &&& f.len() >= 4 && parsed(k, f[1]) is Some && parsed(k, f[2]) is Some && parsed(
                k,
                f[3],
            ) is None ==> bad(BeamColumn::Angle)
            &&& numbers && masked ==> r is Ok && r->Ok_0.beam == Beam::zero_spec()
            &&& numbers && !masked ==> match made {
                Ok(b) => r is Ok && r->Ok_0.beam == b,
                Err(e) => r == Err::<LogRow, BeamlogError>(BeamlogError::Beam(e)),
            }
            &&& r matches Ok(row) ==> row.channel == match unsigned_value(f[0]) {
                Some(n) => if n <= u64::MAX {
                    Some(n as u64)
                } else {
                    None
                },
                None => None,
            }
        }),
{
}

/// The lines that say something, from the top down.
pub open spec fn spoken(text: Seq<Seq<char>>) -> Seq<Seq<char>> {
    text.filter(|l: Seq<char>| speaks(l))
}

proof fn lemma_spoken_first(text: Seq<Seq<char>>)
    requires
        text.len() > 0,
    ensures
        spoken(text) == (if speaks(text[0]) {
            seq![text[0]] + spoken(text.drop_first())
        } else {
            spoken(text.drop_first())
        }),
    decreases text.len(),
{
    reveal(Seq::filter);
    let keep = |l: Seq<char>| speaks(l);
    if text.len() == 1 {
        assert(text.drop_last().filter(keep) =~= Seq::<Seq<char>>::empty());
        assert(text.drop_first().filter(keep) =~= Seq::<Seq<char>>::empty());
        assert(text.last() == text[0]);
        assert(spoken(text) =~= (if speaks(text[0]) {
            seq![text[0]] + spoken(text.drop_first())
        } else {
            spoken(text.drop_first())
        }));
    } else {
        let front = text.drop_last();
        lemma_spoken_first(front);
        assert(front.drop_first() =~= text.drop_first().drop_last());
        assert(text.drop_first().last() == text.last());
        assert(front[0] == text[0]);
        let a = spoken(text.drop_first().drop_last());
        if speaks(text.last()) {
            assert(spoken(text) == spoken(front).push(text.last()));
            assert(spoken(text.drop_first()) == a.push(text.last()));
            assert((seq![text[0]] + a).push(text.last()) =~= seq![text[0]] + a.push(text.last()));
        }
    }
}

/// The row that a line gives, where it gives one; its number matters for errors only.
pub open spec fn row_on<K: LogKernel>(k: &K, line: Seq<char>) -> LogRow {
    line_row(k, line, 0)->Ok_0
}

proof fn lemma_rows_of_lines<K: LogKernel>(k: &K, text: Seq<Seq<char>>, line: int)
    ensures
        log_rows(k, text, line) matches Ok(rows) ==> rows == spoken(text).map_values(
            |l: Seq<char>| row_on(k, l),
        ),
    decreases text.len(),
{
    let on = |l: Seq<char>| row_on(k, l);
    if text.len() == 0 {
        reveal(Seq::filter);
        assert(spoken(text) =~= Seq::<Seq<char>>::empty());
        assert(spoken(text).map_values(on) =~= Seq::<LogRow>::empty());
    } else {
        let rest = text.drop_first();
        lemma_spoken_first(text);
        lemma_rows_of_lines(k, rest, line + 1);
        if speaks(text[0]) {
            assert((seq![text[0]] + spoken(rest)).map_values(on) =~= seq![on(text[0])] + spoken(
                rest,
            ).map_values(on));
        }
    }
}

/// A line that is wrong, with all lines before it in order.
pub open spec fn first_fault<K: LogKernel>(
    k: &K,
    text: Seq<Seq<char>>,
    line: int,
    j: int,
    e: BeamlogError,
) -> bool {
    &&& 0 <= j < text.len()
    &&& speaks(text[j])
    &&& line_row(k, text[j], line + j) == Err::<LogRow, BeamlogError>(e)
    &&& forall|i: int|
        #![trigger text[i]]
        0 <= i < j && speaks(text[i]) ==> line_row(k, text[i], line + i) is Ok
}

proof fn lemma_fault_of_lines<K: LogKernel>(k: &K, text: Seq<Seq<char>>, line: int) -> (j: int)
    requires
        log_rows(k, text, line) is Err,
    ensures
        first_fault(k, text, line, j, log_rows(k, text, line)->Err_0),
    decreases text.len(),
{
    let e = log_rows(k, text, line)->Err_0;
    if speaks(text[0]) && line_row(k, text[0], line) is Err {
        assert(line + 0 == line);
        0
    } else {
        let rest = text.drop_first();
        let j = lemma_fault_of_lines(k, rest, line + 1);
        assert(text[j + 1] == rest[j]);
        assert(line + (j + 1) == line + 1 + j);
        assert forall|i: int|
            #![trigger text[i]]
            0 <= i < j + 1 && speaks(text[i]) implies line_row(k, text[i], line + i) is Ok by {
            if i > 0 {
                assert(rest[i - 1] == text[i]);
                assert(line + 1 + (i - 1) == line + i);
            } else {
                assert(line + 0 == line);
            }
        }
        j + 1
    }
}

/// A beamlog that is wrong fails as its first wrong line does; lines are numbered from
/// one.
pub proof fn law_beamlog_fails_first<K: LogKernel>(
    k: &K,
    content: &str,
    r: Result<Vec<Beam>, BeamlogError>,
) -> (j: int)
    requires
        call_ensures(read_beamlog::<K>, (k, content), r),
        r is Err,
    ensures
        first_fault(k, lines(content@), 1, j, r->Err_0),
{
    lemma_fault_of_lines(k, lines(content@), 1)
}

/// A beamlog is read line by line: each line that says something gives a row.  The beams
/// are those of the rows, in channel order: where every row names its channel, in
/// ascending order of the channels, rows of one channel as they stand, and else as the
/// rows stand.
pub proof fn law_beamlog_is_read_by_lines<K: LogKernel>(
    k: &K,
    content: &str,
    r: Result<Vec<Beam>, BeamlogError>,
) -> (ordered: Seq<LogRow>)
    requires
        call_ensures(read_beamlog::<K>, (k, content), r),
        r is Ok,
    ensures
        ({
            let rows = spoken(lines(content@)).map_values(|l: Seq<char>| row_on(k, l));
            let every = forall|i: int|
                0 <= i < rows.len() ==> (#[trigger] rows[i]).channel is Some;
            &&& ordered.len() == rows.len()
            &&& ordered.to_multiset() == rows.to_multiset()
            &&& r->Ok_0@ == ordered.map_values(|row: LogRow| row.beam)
            &&& !every ==> ordered == rows
            &&& every ==> forall|i: int, j: int|
                #![trigger ordered[i], ordered[j]]
                0 <= i < j < ordered.len() ==> ordered[i].channel->0 <= ordered[j].channel->0
            &&& every ==> forall|c: Option<u64>| #[trigger]
                ordered.filter(is_of(c)) == rows.filter(is_of(c))
        }),
{
    let text = lines(content@);
    lemma_rows_of_lines(k, text, 1);
    let rows = log_rows(k, text, 1)->Ok_0;
    let ordered = in_channel_order(rows);
    assert(r->Ok_0@ =~= ordered.map_values(|row: LogRow| row.beam));
    if numbered(rows) {
        law_rows_by_channel(rows);
        assert(crate::beamlog::ascending(ordered));
        assert forall|c: Option<u64>| #[trigger]
            ordered.filter(is_of(c)) == rows.filter(is_of(c)) by {
            assert(crate::beamlog::of_channel(ordered, c) == crate::beamlog::of_channel(rows, c));
        }
    }
    ordered
}

/// The test whether a row is of the given channel.
pub open spec fn is_of(c: Option<u64>) -> spec_fn(LogRow) -> bool {
    |r: LogRow| r.channel == c
}

// ── Writing logs ────────────────────────────────────────────────────────────

/// Fields with one space between them.
pub open spec fn in_a_row(a: Seq<char>, b: Seq<char>, c: Seq<char>) -> Seq<char> {
    a + seq![' '] + b + seq![' '] + c
}

/// Lines, each ended by a line feed, one after the other.
pub open spec fn written(ls: Seq<Seq<char>>) -> Seq<char> {
    ls.map_values(|l: Seq<char>| l.push('\n')).flatten()
}

proof fn lemma_written(ls: Seq<Seq<char>>)
    ensures
        joined_lines(ls) == written(ls),
    decreases ls.len(),
{
    let end = |l: Seq<char>| l.push('\n');
    let all = ls.map_values(end);
    if ls.len() > 0 {
        lemma_written(ls.drop_first());
        assert(all.drop_first() =~= ls.drop_first().map_values(end));
        assert(all.first() == ls[0].push('\n'));
    }
}

/// A beamlog is a heading, and then a line per channel: its number, from zero on, and
/// the axes of its beam in arcseconds and its angle in degrees, or `nan` three times.
pub proof fn law_text_of_a_beamlog<K: LogKernel>(k: &K, beams: Vec<Option<Beam>>, r: String)
    requires
        call_ensures(write_beamlog::<K>, (k, &beams), r),
    ensures
        r@ == written(
            seq!["# Channel BMAJ[arcsec] BMIN[arcsec] BPA[deg]"@] + Seq::new(
                beams@.len(),
                |i: int|
                    decimal(i as nat) + seq![' '] + match beams@[i] {
                        Some(b) => in_a_row(
                            printed(k, major_arcsec_of(k, b)),
                            printed(k, minor_arcsec_of(k, b)),
                            printed(k, b.pa_deg),
                        ),
                        None => in_a_row("nan"@, "nan"@, "nan"@),
                    },
            ),
        ),
{
    let all = log_lines(k, beams@);
    lemma_written(all);
    let want = seq!["# Channel BMAJ[arcsec] BMIN[arcsec] BPA[deg]"@] + Seq::new(
        beams@.len(),
        |i: int|
            decimal(i as nat) + seq![' '] + match beams@[i] {
                Some(b) => in_a_row(
                    printed(k, major_arcsec_of(k, b)),
                    printed(k, minor_arcsec_of(k, b)),
                    printed(k, b.pa_deg),
                ),
                None => in_a_row("nan"@, "nan"@, "nan"@),
            },
    );
    assert forall|i: int| 0 <= i < all.len() implies all[i] == want[i] by {
        if i > 0 {
            let w = crate::beamlog::row_words(k, i - 1, beams@[i - 1]);
            crate::beamlog::lemma_spaced_four(w[0], w[1], w[2], w[3]);
            assert(w =~= seq![w[0], w[1], w[2], w[3]]);
            assert(all[i] == crate::text::spaced(w));
            assert(all[i] =~= w[0] + seq![' '] + in_a_row(w[1], w[2], w[3]));
        }
    }
    assert(all =~= want);
}

/// A beamlog has a heading, and then a line per channel: its number, from zero on, and
/// the axes of its beam in arcseconds and its angle in degrees, or `nan` three times.
pub proof fn law_lines_of_a_beamlog<K: LogKernel>(
    k: &K,
    beams: Vec<Option<Beam>>,
    r: String,
    i: int,
)
    requires
        call_ensures(write_beamlog::<K>, (k, &beams), r),
        log_kernel_is_faithful(k),
        forall|j: int| 0 <= j < beams@.len() ==> printable(k, #[trigger] beams@[j]),
        0 <= i < beams@.len(),
    ensures
        lines(r@).len() == beams@.len() + 1,
        lines(r@)[0] == "# Channel BMAJ[arcsec] BMIN[arcsec] BPA[deg]"@,
        lines(r@)[i + 1] == decimal(i as nat) + seq![' '] + match beams@[i] {
            Some(b) => in_a_row(
                printed(k, major_arcsec_of(k, b)),
                printed(k, minor_arcsec_of(k, b)),
                printed(k, b.pa_deg),
            ),
            None => in_a_row("nan"@, "nan"@, "nan"@),
        },
{
    let all = log_lines(k, beams@);
    crate::beamlog::lemma_log_lines_are_lines(k, beams@);
    law_joined_lines_split(all);
    let b = beams@[i];
    let w = crate::beamlog::row_words(k, i, b);
    crate::beamlog::lemma_spaced_four(w[0], w[1], w[2], w[3]);
    assert(w =~= seq![w[0], w[1], w[2], w[3]]);
    assert(all[i + 1] == crate::text::spaced(w));
    assert(all[i + 1] =~= w[0] + seq![' '] + in_a_row(w[1], w[2], w[3]));
}

/// The log of a run over images is a heading, and then a line per image: its file and
/// its old, its new and its convolving beam, each by its axes and its angle in degrees.
pub proof fn law_text_of_an_image_log<K: LogKernel>(
    k: &K,
    entries: Vec<ImageLogEntry>,
    r: String,
)
    requires
        call_ensures(image_log::<K>, (k, &entries), r),
    ensures
        r@ == written(
            seq![
                "# FileName OldBMAJ[deg] OldBMIN[deg] OldBPA[deg] TargetBMAJ[deg] TargetBMIN[deg] TargetBPA[deg] ConvBMAJ[deg] ConvBMIN[deg] ConvBPA[deg]"@,
            ] + Seq::new(
                entries@.len(),
                |i: int|
                    entries@[i].filename@ + seq![' '] + in_a_row(
                        beam_text(k, entries@[i].old_beam),
                        beam_text(k, entries@[i].new_beam),
                        beam_text(k, entries@[i].conv_beam),
                    ),
            ),
        ),
{
    let all = image_log_lines(k, entries@);
    lemma_written(all);
    let want = seq![
        "# FileName OldBMAJ[deg] OldBMIN[deg] OldBPA[deg] TargetBMAJ[deg] TargetBMIN[deg] TargetBPA[deg] ConvBMAJ[deg] ConvBMIN[deg] ConvBPA[deg]"@,
    ] + Seq::new(
        entries@.len(),
        |i: int|
            entries@[i].filename@ + seq![' '] + in_a_row(
                beam_text(k, entries@[i].old_beam),
                beam_text(k, entries@[i].new_beam),
                beam_text(k, entries@[i].conv_beam),
            ),
    );
    assert forall|i: int| 0 <= i < all.len() implies all[i] == want[i] by {
        if i > 0 {
            lemma_entry(k, entries@[i - 1]);
            assert(all[i] == crate::text::spaced(crate::run::entry_words(k, entries@[i - 1])));
        }
    }
    assert(all =~= want);
}

/// The axes and the angle of a beam, in degrees.
pub open spec fn beam_text<K: LogKernel>(k: &K, b: Beam) -> Seq<char> {
    in_a_row(printed(k, b.major_deg), printed(k, b.minor_deg), printed(k, b.pa_deg))
}

proof fn lemma_entry<K: LogKernel>(k: &K, e: ImageLogEntry)
    ensures
        crate::text::spaced(crate::run::entry_words(k, e)) == e.filename@ + seq![' '] + in_a_row(
            beam_text(k, e.old_beam),
            beam_text(k, e.new_beam),
            beam_text(k, e.conv_beam),
        ),
{
    let w = crate::run::entry_words(k, e);
    crate::run::lemma_spaced_ten(w);
    assert(w[0] == e.filename@);
    assert(w[1] == printed(k, e.old_beam.major_deg) && w[2] == printed(k, e.old_beam.minor_deg)
        && w[3] == printed(k, e.old_beam.pa_deg));
    assert(w[4] == printed(k, e.new_beam.major_deg) && w[5] == printed(k, e.new_beam.minor_deg)
        && w[6] == printed(k, e.new_beam.pa_deg));
    assert(w[7] == printed(k, e.conv_beam.major_deg) && w[8] == printed(k, e.conv_beam.minor_deg)
        && w[9] == printed(k, e.conv_beam.pa_deg));
    assert(crate::text::spaced(w) =~= e.filename@ + seq![' '] + in_a_row(
        beam_text(k, e.old_beam),
        beam_text(k, e.new_beam),
        beam_text(k, e.conv_beam),
    ));
}

// ── Inputs ──────────────────────────────────────────────────────────────────

/// The inputs of a run are its arguments as they are, or the trimmed lines of the one
/// list file; there must be one.
pub proof fn law_inputs(
    infile: Vec<String>,
    listfile: bool,
    listing: Option<&str>,
    r: Result<Vec<String>, InputError>,
)
    requires
        call_ensures(collect_files, (&infile, listfile, listing), r),
    ensures
        listfile && infile@.len() != 1 <==> r == Err::<Vec<String>, InputError>(
            InputError::OneListFile,
        ),
        listfile && infile@.len() == 1 && listing is None <==> r == Err::<Vec<String>, InputError>(
            InputError::Unreadable,
        ),
        r == Err::<Vec<String>, InputError>(InputError::NoFiles) <==> {
            ||| !listfile && infile@.len() == 0
            ||| listfile && infile@.len() == 1 && listing is Some && lines(listing->0@).len() == 0
        },
        r matches Ok(v) ==> !listfile ==> v@.len() == infile@.len() && forall|i: int|
            0 <= i < v@.len() ==> (#[trigger] v@[i])@ == infile@[i]@,
        r matches Ok(v) ==> listfile ==> v@.len() == lines(listing->0@).len() && forall|i: int|
            0 <= i < v@.len() ==> (#[trigger] v@[i])@ == trim(lines(listing->0@)[i]),
{
    if let Ok(v) = r {
        let got = crate::run::names(v@);
        assert forall|i: int| 0 <= i < v@.len() implies (#[trigger] v@[i])@ == got[i] by {}
        if !listfile {
            let want = crate::run::names(infile@);
            assert forall|i: int| 0 <= i < v@.len() implies (#[trigger] v@[i])@ == infile@[i]@ by {
                assert(got[i] == want[i]);
            }
        }
    }
}

/// Cubes can be worked on together where all have as many channels as the first and one
/// Stokes plane at most; otherwise the first cube that does not is named, and what is
/// amiss with it, the channels before the Stokes planes.
pub proof fn law_cubes_together(metas: Vec<CubeMeta>, r: Option<CubeFault>)
    requires
        call_ensures(check_cubes, (&metas,), r),
    ensures
        r is None <==> forall|i: int|
            0 <= i < metas@.len() ==> (#[trigger] metas@[i]).nfreq == metas@[0].nfreq
                && metas@[i].nstokes <= 1,
        r matches Some(CubeFault::Channels { cube, expected, got }) ==> {
            &&& cube < metas@.len()
            &&& expected == metas@[0].nfreq
            &&& got == metas@[cube as int].nfreq
            &&& got != expected
            &&& forall|j: int|
                0 <= j < cube ==> (#[trigger] metas@[j]).nfreq == expected && metas@[j].nstokes
                    <= 1
        },
        r matches Some(CubeFault::Stokes { cube, nstokes }) ==> {
            &&& cube < metas@.len()
            &&& metas@[cube as int].nfreq == metas@[0].nfreq
            &&& nstokes == metas@[cube as int].nstokes
            &&& nstokes > 1
            &&& forall|j: int|
                0 <= j < cube ==> (#[trigger] metas@[j]).nfreq == metas@[0].nfreq
                    && metas@[j].nstokes <= 1
        },
{
    match r {
        None => {
            assert forall|i: int| 0 <= i < metas@.len() implies (#[trigger] metas@[i]).nfreq
                == metas@[0].nfreq && metas@[i].nstokes <= 1 by {
                assert(cube_fault(metas@, i) is None);
            }
        },
        Some(f) => {
            let i = choose|i: int|
                {
                    &&& 0 <= i < metas@.len()
                    &&& #[trigger] cube_fault(metas@, i) == Some(f)
                    &&& forall|j: int| 0 <= j < i ==> #[trigger] cube_fault(metas@, j) is None
                };
            assert(i < metas.len());
            assert(!(metas@[i].nfreq == metas@[0].nfreq && metas@[i].nstokes <= 1));
            assert forall|j: int| 0 <= j < i implies (#[trigger] metas@[j]).nfreq
                == metas@[0].nfreq && metas@[j].nstokes <= 1 by {
                assert(cube_fault(metas@, j) is None);
            }
        },
    }
}

} // verus!
