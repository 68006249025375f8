//! Beamlogs: plain-text tables of per-channel beams.
//!
//! ```text
//! # Channel BMAJ[arcsec] BMIN[arcsec] BPA[deg]
//! 0 20 10 10
//! 1 21 10.5 10
//! 2 nan nan nan
//! ```
//!
//! Empty lines and lines that start with `#` say nothing.  Rows may stand in any
//! order: the beams come out in the order of the channel numbers.  Where the first
//! field of some row is not a number, the rows are in channel order as they stand.
use vstd::prelude::*;

use crate::beam::{
    beam_kernel_is_function, degrees_of, major_arcsec_of, minor_arcsec_of, Beam, BeamError,
    BeamKernel,
};
use crate::ieee::{Double, FftFloat};
use crate::text::{
    chars_of, decimal, decimal_of, is_digit, is_line, is_space, is_word, joined_lines,
    law_decimal_round_trip, law_joined_lines_split, law_spaced_words_split,
    lemma_joined_lines_push, lines, parse_u64, push_all, push_str, spaced, split_lines,
    split_words, string_of, texts, trim, trimmed, unsigned_value, words,
};

verus! {

/// The smallest normal single-precision number, 2^-126, in double precision:
/// axes no larger than this are masked.
pub const TINY: u64 = 0x3810_0000_0000_0000;

/// A column of a beam table.
#[derive(Clone, Copy, Debug, PartialEq, Eq, Structural)]
pub enum BeamColumn {
    Major,
    Minor,
    Angle,
}

/// What is wrong with a beamlog.
#[derive(Clone, Copy, Debug, PartialEq, Eq, Structural)]
pub enum BeamlogError {
    /// The line has fewer than four fields.
    Fields { line: usize, got: usize },
    /// A field of the line is not a number.
    Number { line: usize, column: BeamColumn },
    /// The numbers are not a beam.
    Beam(BeamError),
}

/// A row of a beamlog: its channel, where the first field is a number, and its beam.
#[derive(Clone, Copy, Debug, PartialEq, Eq, Structural)]
pub struct LogRow {
    pub channel: Option<u64>,
    pub beam: Beam,
}

/// Numbers as text, in floating point.
pub trait LogKernel: BeamKernel {
    /// The number that a word spells, if it spells one.
    fn parse_number(&self, word: &str) -> Option<Double>;

    /// The shortest text that reads back as the number.
    fn print_number(&self, x: Double) -> String;
}

pub open spec fn parses_to<K: LogKernel>(k: &K, word: Seq<char>, x: Option<Double>) -> bool {
    exists|s: &str| s@ == word && #[trigger] call_ensures(K::parse_number, (k, s), x)
}

pub open spec fn parsed<K: LogKernel>(k: &K, word: Seq<char>) -> Option<Double> {
    choose|x: Option<Double>| parses_to(k, word, x)
}

pub open spec fn prints_as<K: LogKernel>(k: &K, x: Double, word: Seq<char>) -> bool {
    exists|s: String| s@ == word && #[trigger] call_ensures(K::print_number, (k, x), s)
}

pub open spec fn printed<K: LogKernel>(k: &K, x: Double) -> Seq<char> {
    choose|word: Seq<char>| prints_as(k, x, word)
}

/// The same words give the same numbers, and the same numbers the same words.
pub open spec fn log_kernel_is_function<K: LogKernel>(k: &K) -> bool {
    &&& beam_kernel_is_function(k)
    &&& forall|w: Seq<char>, x: Option<Double>, y: Option<Double>|
        #![trigger parses_to(k, w, x), parses_to(k, w, y)]
        parses_to(k, w, x) && parses_to(k, w, y) ==> x == y
    &&& forall|x: Double, v: Seq<char>, w: Seq<char>|
        #![trigger prints_as(k, x, v), prints_as(k, x, w)]
        prints_as(k, x, v) && prints_as(k, x, w) ==> v == w
}

// ── Reading ─────────────────────────────────────────────────────────────────

/// A line without content: empty, or a comment.
pub open spec fn is_silent(line: Seq<char>) -> bool {
    trim(line).len() == 0 || trim(line)[0] == '#'
}

/// The beam of a row: the zero beam where the major axis is tiny or not finite,
/// else the axes in arcseconds, with a tiny minor axis at the least.
pub open spec fn row_beam<K: LogKernel>(k: &K, bmaj: Double, bmin: Double, bpa: Double) -> Result<
    Beam,
    BeamlogError,
> {
    let tiny = Double { bits: TINY };
    if bmaj.at_most(tiny) || !bmaj.finite() {
        Ok(Beam::zero_spec())
    } else {
        match Beam::arcsec_spec(k, bmaj, bmin.larger(tiny), bpa) {
            Ok(b) => Ok(b),
            Err(e) => Err(BeamlogError::Beam(e)),
        }
    }
}

/// The beam of a line with content, whose number (from 1) is `line`.
pub open spec fn line_beam<K: LogKernel>(k: &K, text: Seq<char>, line: int) -> Result<
    Beam,
    BeamlogError,
> {
    let f = words(trim(text));
    if f.len() < 4 {
        Err(BeamlogError::Fields { line: line as usize, got: f.len() as usize })
    } else {
        match parsed(k, f[1]) {
            None => Err(BeamlogError::Number { line: line as usize, column: BeamColumn::Major }),
            Some(bmaj) => match parsed(k, f[2]) {
                None => Err(
                    BeamlogError::Number { line: line as usize, column: BeamColumn::Minor },
                ),
                Some(bmin) => match parsed(k, f[3]) {
                    None => Err(
                        BeamlogError::Number { line: line as usize, column: BeamColumn::Angle },
                    ),
                    Some(bpa) => row_beam(k, bmaj, bmin, bpa),
                },
            },
        }
    }
}

/// The channel that the first field of a row names.
pub open spec fn channel_of(word: Seq<char>) -> Option<u64> {
    match unsigned_value(word) {
        Some(n) => if n <= u64::MAX {
            Some(n as u64)
        } else {
            None
        },
        None => None,
    }
}

/// The row on a line with content, whose number (from 1) is `line`.
pub open spec fn line_row<K: LogKernel>(k: &K, text: Seq<char>, line: int) -> Result<
    LogRow,
    BeamlogError,
> {
    match line_beam(k, text, line) {
        Ok(beam) => Ok(LogRow { channel: channel_of(words(trim(text))[0]), beam }),
        Err(e) => Err(e),
    }
}

/// The rows on consecutive lines, the first of which has number `line`, up to
/// the first line that is wrong.
pub open spec fn log_rows<K: LogKernel>(k: &K, text: Seq<Seq<char>>, line: int) -> Result<
    Seq<LogRow>,
    BeamlogError,
>
    decreases text.len(),
{
    if text.len() == 0 {
        Ok(Seq::empty())
    } else if is_silent(text[0]) {
        log_rows(k, text.drop_first(), line + 1)
    } else {
        match line_row(k, text[0], line) {
            Err(e) => Err(e),
            Ok(r) => behind(seq![r], log_rows(k, text.drop_first(), line + 1)),
        }
    }
}

/// Rows in front of further ones; an error stays one.
pub open spec fn behind(front: Seq<LogRow>, rest: Result<Seq<LogRow>, BeamlogError>) -> Result<
    Seq<LogRow>,
    BeamlogError,
> {
    match rest {
        Ok(rs) => Ok(front + rs),
        Err(e) => Err(e),
    }
}

/// Every row names its channel.
pub open spec fn numbered(rows: Seq<LogRow>) -> bool {
    forall|i: int| 0 <= i < rows.len() ==> (#[trigger] rows[i]).channel is Some
}

/// Rows in ascending order of their channels.
pub open spec fn ascending(rows: Seq<LogRow>) -> bool {
    forall|i: int, j: int|
        #![trigger rows[i], rows[j]]
        0 <= i < j < rows.len() ==> rows[i].channel->0 <= rows[j].channel->0
}

/// A row put in its place among ordered ones, behind those of its own channel.
pub open spec fn placed(rows: Seq<LogRow>, r: LogRow) -> Seq<LogRow>
    decreases rows.len(),
{
    if rows.len() == 0 || rows.last().channel->0 <= r.channel->0 {
        rows.push(r)
    } else {
        placed(rows.drop_last(), r).push(rows.last())
    }
}

/// The rows by channel; rows of one channel stay as they stand.
pub open spec fn by_channel(rows: Seq<LogRow>) -> Seq<LogRow>
    decreases rows.len(),
{
    if rows.len() == 0 {
        Seq::empty()
    } else {
        placed(by_channel(rows.drop_last()), rows.last())
    }
}

/// The rows in channel order: by their channels where every row names one, else as
/// they stand.
pub open spec fn in_channel_order(rows: Seq<LogRow>) -> Seq<LogRow> {
    if numbered(rows) {
        by_channel(rows)
    } else {
        rows
    }
}

/// The beams of rows.
pub open spec fn row_beams(rows: Seq<LogRow>) -> Seq<Beam> {
    Seq::new(rows.len(), |i: int| rows[i].beam)
}

/// The beams of the lines of a beamlog, in channel order, or what is wrong with the
/// first line that is wrong.
pub open spec fn log_beams<K: LogKernel>(k: &K, text: Seq<Seq<char>>) -> Result<
    Seq<Beam>,
    BeamlogError,
> {
    match log_rows(k, text, 1) {
        Ok(rows) => Ok(row_beams(in_channel_order(rows))),
        Err(e) => Err(e),
    }
}

proof fn lemma_placed(rows: Seq<LogRow>, r: LogRow)
    requires
        ascending(rows),
    ensures
        placed(rows, r).len() == rows.len() + 1,
        ascending(placed(rows, r)),
        placed(rows, r).last().channel->0 == (if rows.len() > 0 && rows.last().channel->0
            > r.channel->0 {
            rows.last().channel->0
        } else {
            r.channel->0
        }),
        placed(rows, r).to_multiset() == rows.to_multiset().insert(r),
    decreases rows.len(),
{
    broadcast use vstd::seq_lib::group_to_multiset_ensures;

    if rows.len() > 0 && rows.last().channel->0 > r.channel->0 {
        let front = rows.drop_last();
        lemma_placed(front, r);
        let p = placed(front, r);
        let out = placed(rows, r);
        assert(front.push(rows.last()) =~= rows);
        assert(out.to_multiset() =~= rows.to_multiset().insert(r));
        assert forall|i: int, j: int|
            #![trigger out[i], out[j]]
            0 <= i < j < out.len() implies out[i].channel->0 <= out[j].channel->0 by {
            if j == p.len() {
                assert(p[i].channel->0 <= p.last().channel->0) by {
                    if i < p.len() - 1 {
                        assert(p[i].channel->0 <= p[p.len() - 1].channel->0);
                    }
                }
                if front.len() > 0 {
                    assert(rows[front.len() - 1].channel->0 <= rows[front.len() as int].channel->0);
                }
            } else {
                assert(p[i].channel->0 <= p[j].channel->0);
            }
        }
    } else {
        let out = placed(rows, r);
        assert forall|i: int, j: int|
            #![trigger out[i], out[j]]
            0 <= i < j < out.len() implies out[i].channel->0 <= out[j].channel->0 by {
            if j == rows.len() {
                if i < rows.len() - 1 {
                    assert(rows[i].channel->0 <= rows[rows.len() - 1].channel->0);
                }
            } else {
                assert(rows[i].channel->0 <= rows[j].channel->0);
            }
        }
    }
}

/// The rows of one channel, as they stand.
pub open spec fn of_channel(rows: Seq<LogRow>, c: Option<u64>) -> Seq<LogRow> {
    rows.filter(|r: LogRow| r.channel == c)
}

proof fn lemma_of_channel_push(rows: Seq<LogRow>, r: LogRow, c: Option<u64>)
    ensures
        of_channel(rows.push(r), c) == if r.channel == c {
            of_channel(rows, c).push(r)
        } else {
            of_channel(rows, c)
        },
{
    reveal(Seq::filter);
    assert(rows.push(r).drop_last() =~= rows);
}

proof fn lemma_placed_numbered(rows: Seq<LogRow>, r: LogRow)
    requires
        numbered(rows),
        r.channel is Some,
    ensures
        numbered(placed(rows, r)),
    decreases rows.len(),
{
    if rows.len() > 0 && rows.last().channel->0 > r.channel->0 {
        lemma_placed_numbered(rows.drop_last(), r);
    }
}

proof fn lemma_placed_keeps_channels(rows: Seq<LogRow>, r: LogRow, c: Option<u64>)
    requires
        numbered(rows),
        r.channel is Some,
    ensures
        of_channel(placed(rows, r), c) == of_channel(rows.push(r), c),
    decreases rows.len(),
{
    if rows.len() > 0 && rows.last().channel->0 > r.channel->0 {
        let front = rows.drop_last();
        let last = rows.last();
        lemma_placed_keeps_channels(front, r, c);
        assert(front.push(last) =~= rows);
        lemma_of_channel_push(placed(front, r), last, c);
        lemma_of_channel_push(rows, r, c);
        lemma_of_channel_push(front, r, c);
        lemma_of_channel_push(front, last, c);
    }
}

/// Sorting rows by channel loses none and adds none, leaves them in ascending
/// order, and leaves the rows of each channel in the order in which they stood.
pub proof fn law_rows_by_channel(rows: Seq<LogRow>)
    requires
        numbered(rows),
    ensures
        by_channel(rows).len() == rows.len(),
        by_channel(rows).to_multiset() == rows.to_multiset(),
        numbered(by_channel(rows)),
        ascending(by_channel(rows)),
        forall|c: Option<u64>|
            of_channel(by_channel(rows), c) == #[trigger] of_channel(rows, c),
    decreases rows.len(),
{
    broadcast use vstd::seq_lib::group_to_multiset_ensures;

    if rows.len() > 0 {
        let front = rows.drop_last();
        assert(numbered(front)) by {
            assert forall|i: int| 0 <= i < front.len() implies (#[trigger] front[i]).channel is Some by {
                assert(front[i] == rows[i]);
            }
        }
        law_rows_by_channel(front);
        lemma_placed(by_channel(front), rows.last());
        assert(front.push(rows.last()) =~= rows);
        lemma_placed_numbered(by_channel(front), rows.last());
        assert forall|c: Option<u64>|
            of_channel(by_channel(rows), c) == #[trigger] of_channel(rows, c) by {
            lemma_placed_keeps_channels(by_channel(front), rows.last(), c);
            assert(of_channel(by_channel(front), c) == of_channel(front, c));
            lemma_of_channel_push(by_channel(front), rows.last(), c);
            lemma_of_channel_push(front, rows.last(), c);
        }
    } else {
        assert(by_channel(rows) =~= rows);
    }
}

/// Rows that stand in ascending order stay as they are.
pub proof fn law_ascending_rows_stay(rows: Seq<LogRow>)
    requires
        ascending(rows),
    ensures
        by_channel(rows) == rows,
    decreases rows.len(),
{
    if rows.len() > 0 {
        let front = rows.drop_last();
        assert(ascending(front)) by {
            assert forall|i: int, j: int|
                #![trigger front[i], front[j]]
                0 <= i < j < front.len() implies front[i].channel->0 <= front[j].channel->0 by {
                assert(rows[i].channel->0 <= rows[j].channel->0);
            }
        }
        law_ascending_rows_stay(front);
        if front.len() > 0 {
            assert(rows[front.len() - 1].channel->0 <= rows[front.len() as int].channel->0);
        }
        assert(front.push(rows.last()) =~= rows);
    } else {
        assert(by_channel(rows) =~= rows);
    }
}

proof fn lemma_placed_at(rows: Seq<LogRow>, r: LogRow, p: int)
    requires
        0 <= p <= rows.len(),
        p > 0 ==> rows[p - 1].channel->0 <= r.channel->0,
        forall|j: int| p <= j < rows.len() ==> (#[trigger] rows[j]).channel->0 > r.channel->0,
    ensures
        placed(rows, r) == rows.insert(p, r),
    decreases rows.len(),
{
    if p < rows.len() {
        assert(rows[rows.len() - 1].channel->0 > r.channel->0);
        let front = rows.drop_last();
        assert forall|j: int| p <= j < front.len() implies (#[trigger] front[j]).channel->0
            > r.channel->0 by {
            assert(rows[j].channel->0 > r.channel->0);
        }
        lemma_placed_at(front, r, p);
        assert(front.insert(p, r).push(rows.last()) =~= rows.insert(p, r));
    } else {
        assert(rows.insert(p, r) =~= rows.push(r));
    }
}

fn place(rows: &mut Vec<LogRow>, r: LogRow, channel: u64)
    requires
        r.channel == Some(channel),
        numbered(old(rows)@),
    ensures
        final(rows)@ == placed(old(rows)@, r),
{
    let mut p: usize = rows.len();
    while p > 0
        invariant
            p <= rows.len(),
            rows@ == old(rows)@,
            numbered(rows@),
            r.channel == Some(channel),
            forall|j: int| p <= j < rows.len() ==> (#[trigger] rows@[j]).channel->0 > r.channel->0,
        ensures
            p > 0 ==> rows@[p - 1].channel->0 <= r.channel->0,
        decreases p,
    {
        assert(rows@[p - 1].channel is Some);
        if let Some(c) = rows[p - 1].channel {
            if c <= channel {
                break ;
            }
        }
        p = p - 1;
    }
    proof {
        lemma_placed_at(rows@, r, p as int);
    }
    rows.insert(p, r);
}

fn beams_of_rows(rows: &Vec<LogRow>) -> (r: Vec<Beam>)
    ensures
        r@ == row_beams(rows@),
{
    let mut r: Vec<Beam> = Vec::new();
    let mut i: usize = 0;
    while i < rows.len()
        invariant
            i <= rows.len(),
            r.len() == i,
            forall|j: int| 0 <= j < i ==> r@[j] == rows@[j].beam,
        decreases rows.len() - i,
    {
        r.push(rows[i].beam);
        i = i + 1;
    }
    assert(r@ =~= row_beams(rows@));
    r
}

fn beams_in_channel_order(rows: &Vec<LogRow>) -> (r: Vec<Beam>)
    ensures
        r@ == row_beams(in_channel_order(rows@)),
{
    let mut ordered: Vec<LogRow> = Vec::new();
    let mut i: usize = 0;
    while i < rows.len()
        invariant
            i <= rows.len(),
            ordered@ == by_channel(rows@.take(i as int)),
            numbered(rows@.take(i as int)),
        decreases rows.len() - i,
    {
        let ghost done = rows@.take(i as int);
        proof {
            let next = rows@.take(i + 1);
            assert(next.drop_last() =~= done);
            assert(next.last() == rows@[i as int]);
            law_rows_by_channel(done);
        }
        match rows[i].channel {
            Some(c) => {
                place(&mut ordered, rows[i], c);
                proof {
                    let next = rows@.take(i + 1);
                    assert forall|j: int| 0 <= j < next.len() implies (
                    #[trigger] next[j]).channel is Some by {
                        if j < i {
                            assert(done[j] == next[j]);
                        }
                    }
                }
            },
            None => {
                assert(!numbered(rows@));
                return beams_of_rows(rows);
            },
        }
        i = i + 1;
    }
    assert(rows@.take(i as int) =~= rows@);
    beams_of_rows(&ordered)
}

fn number<K: LogKernel>(k: &K, word: &Vec<char>) -> (r: Option<Double>)
    requires
        log_kernel_is_function(k),
    ensures
        r == parsed(k, word@),
{
    let s = string_of(word);
    let x = k.parse_number(s.as_str());
    assert(parses_to(k, word@, x));
    x
}

fn beam_of_row<K: LogKernel>(k: &K, bmaj: Double, bmin: Double, bpa: Double) -> (r: Result<
    Beam,
    BeamlogError,
>)
    requires
        log_kernel_is_function(k),
    ensures
        r == row_beam(k, bmaj, bmin, bpa),
{
    let tiny = Double::from_bits(TINY);
    if bmaj.le(&tiny) || !bmaj.is_finite() {
        return Ok(Beam::zero());
    }
    match Beam::from_arcsec(k, bmaj, bmin.max(tiny), bpa) {
        Ok(b) => Ok(b),
        Err(e) => Err(BeamlogError::Beam(e)),
    }
}

fn row_of_line<K: LogKernel>(k: &K, text: &Vec<char>, line: usize) -> (r: Result<
    LogRow,
    BeamlogError,
>)
    requires
        log_kernel_is_function(k),
    ensures
        r == line_row(k, text@, line as int),
{
    let t = trimmed(text);
    let f = split_words(&t);
    let ghost w = words(trim(text@));
    assert(texts(f@) == w);
    if f.len() < 4 {
        return Err(BeamlogError::Fields { line, got: f.len() });
    }
    assert(w[0] == f@[0]@ && w[1] == f@[1]@ && w[2] == f@[2]@ && w[3] == f@[3]@);
    let bmaj = match number(k, &f[1]) {
        Some(x) => x,
        None => return Err(BeamlogError::Number { line, column: BeamColumn::Major }),
    };
    let bmin = match number(k, &f[2]) {
        Some(x) => x,
        None => return Err(BeamlogError::Number { line, column: BeamColumn::Minor }),
    };
    let bpa = match number(k, &f[3]) {
        Some(x) => x,
        None => return Err(BeamlogError::Number { line, column: BeamColumn::Angle }),
    };
    match beam_of_row(k, bmaj, bmin, bpa) {
        Ok(beam) => Ok(LogRow { channel: parse_u64(&f[0]), beam }),
        Err(e) => Err(e),
    }
}

/// Read the per-channel beams of a beamlog, in channel order; a masked row is the
/// zero beam.
pub fn read_beamlog<K: LogKernel>(k: &K, content: &str) -> (r: Result<Vec<Beam>, BeamlogError>)
    requires
        log_kernel_is_function(k),
    ensures
        match log_beams(k, lines(content@)) {
            Ok(bs) => r is Ok && r->Ok_0@ == bs,
            Err(e) => r == Err::<Vec<Beam>, BeamlogError>(e),
        },
{
    let all = chars_of(content);
    let rows = split_lines(&all);
    let ghost text = lines(content@);
    assert(texts(rows@) == text);
    let mut found: Vec<LogRow> = Vec::new();
    let mut i: usize = 0;
    assert(text.skip(0) =~= text);
    proof {
        let rest = log_rows(k, text, 1);
        assert(rest matches Ok(rs) ==> found@ + rs =~= rs);
    }
    while i < rows.len()
        invariant
            i <= rows.len(),
            log_kernel_is_function(k),
            text == lines(content@),
            text == texts(rows@),
            log_rows(k, text, 1) == behind(found@, log_rows(k, text.skip(i as int), i + 1)),
        decreases rows.len() - i,
    {
        let ghost rest = text.skip(i as int);
        proof {
            assert(rest[0] == rows@[i as int]@);
            assert(rest.drop_first() =~= text.skip(i + 1));
        }
        let t = trimmed(&rows[i]);
        if t.len() == 0 || t[0] == '#' {
            i = i + 1;
            continue;
        }
        match row_of_line(k, &rows[i], i + 1) {
            Err(e) => {
                return Err(e);
            },
            Ok(r) => {
                let ghost before = found@;
                found.push(r);
                proof {
                    if let Ok(rs) = log_rows(k, text.skip(i + 1), i + 2) {
                        assert(before + (seq![r] + rs) =~= found@ + rs);
                    }
                }
            },
        }
        i = i + 1;
    }
    proof {
        assert(text.skip(i as int).len() == 0);
        assert(found@ + Seq::<LogRow>::empty() =~= found@);
    }
    Ok(beams_in_channel_order(&found))
}

/// The word in a column of a line (numbered from 1), for reports on it.
pub fn beamlog_word(content: &str, line: usize, column: BeamColumn) -> (r: Option<String>)
    ensures
        ({
            let all = lines(content@);
            let f = words(trim(all[line - 1]));
            let c: int = match column {
                BeamColumn::Major => 1,
                BeamColumn::Minor => 2,
                BeamColumn::Angle => 3,
            };
            match r {
                Some(w) => 0 < line <= all.len() && c < f.len() && w@ == f[c],
                None => line == 0 || line > all.len() || c >= f.len(),
            }
        }),
{
    let all = chars_of(content);
    let rows = split_lines(&all);
    assert(texts(rows@) == lines(content@));
    if line == 0 || line > rows.len() {
        return None;
    }
    assert(lines(content@)[line - 1] == rows@[line - 1]@);
    let t = trimmed(&rows[line - 1]);
    let f = split_words(&t);
    assert(texts(f@) == words(trim(lines(content@)[line - 1])));
    let c: usize = match column {
        BeamColumn::Major => 1,
        BeamColumn::Minor => 2,
        BeamColumn::Angle => 3,
    };
    if c < f.len() {
        Some(string_of(&f[c]))
    } else {
        None
    }
}

// ── Writing ─────────────────────────────────────────────────────────────────

/// The fields of a row: the channel, then the beam in arcseconds and degrees.
pub open spec fn row_words<K: LogKernel>(k: &K, channel: int, b: Option<Beam>) -> Seq<Seq<char>> {
    match b {
        Some(b) => seq![
            decimal(channel as nat),
            printed(k, major_arcsec_of(k, b)),
            printed(k, minor_arcsec_of(k, b)),
            printed(k, b.pa_deg),
        ],
        None => seq![decimal(channel as nat), "nan"@, "nan"@, "nan"@],
    }
}

/// The lines of a beamlog.
pub open spec fn log_lines<K: LogKernel>(k: &K, beams: Seq<Option<Beam>>) -> Seq<Seq<char>> {
    seq!["# Channel BMAJ[arcsec] BMIN[arcsec] BPA[deg]"@] + Seq::new(
        beams.len(),
        |i: int| spaced(row_words(k, i, beams[i])),
    )
}

fn print<K: LogKernel>(k: &K, out: &mut Vec<char>, x: Double)
    requires
        log_kernel_is_function(k),
    ensures
        final(out)@ == old(out)@ + printed(k, x),
{
    let s = k.print_number(x);
    assert(prints_as(k, x, s@));
    push_str(out, s.as_str());
}

pub proof fn lemma_spaced_four(a: Seq<char>, b: Seq<char>, c: Seq<char>, d: Seq<char>)
    ensures
        spaced(seq![a, b, c, d]) == a.push(' ') + b.push(' ') + c.push(' ') + d,
{
    let ws = seq![a, b, c, d];
    assert(ws.drop_first() =~= seq![b, c, d]);
    assert(seq![b, c, d].drop_first() =~= seq![c, d]);
    assert(seq![c, d].drop_first() =~= seq![d]);
    assert(spaced(seq![d]) == d);
    assert(spaced(seq![c, d]) == c.push(' ') + d);
    assert(spaced(seq![b, c, d]) == b.push(' ') + spaced(seq![c, d]));
    assert(spaced(ws) =~= a.push(' ') + b.push(' ') + c.push(' ') + d);
}

fn write_row<K: LogKernel>(k: &K, out: &mut Vec<char>, channel: usize, b: &Option<Beam>)
    requires
        log_kernel_is_function(k),
    ensures
        final(out)@ == old(out)@ + spaced(row_words(k, channel as int, *b)).push('\n'),
{
    let n = decimal_of(channel as u64);
    push_all(out, &n);
    out.push(' ');
    match b {
        Some(b) => {
            let major = k.major_arcsec(b);
            let minor = k.minor_arcsec(b);
            print(k, out, major);
            out.push(' ');
            print(k, out, minor);
            out.push(' ');
            print(k, out, b.pa_deg);
        },
        None => {
            push_str(out, "nan");
            out.push(' ');
            push_str(out, "nan");
            out.push(' ');
            push_str(out, "nan");
        },
    }
    out.push('\n');
    proof {
        let w = row_words(k, channel as int, *b);
        lemma_spaced_four(w[0], w[1], w[2], w[3]);
        assert(w =~= seq![w[0], w[1], w[2], w[3]]);
        assert(out@ =~= old(out)@ + spaced(w).push('\n'));
    }
}

/// Per-channel beams as the text of a beamlog.
pub fn write_beamlog<K: LogKernel>(k: &K, beams: &Vec<Option<Beam>>) -> (r: String)
    requires
        log_kernel_is_function(k),
    ensures
        r@ == joined_lines(log_lines(k, beams@)),
{
    let mut out: Vec<char> = Vec::new();
    push_str(&mut out, "# Channel BMAJ[arcsec] BMIN[arcsec] BPA[deg]");
    out.push('\n');
    let ghost all = log_lines(k, beams@);
    proof {
        let none = Seq::<Seq<char>>::empty();
        assert(all.take(1) =~= none.push(all[0]));
        lemma_joined_lines_push(none, all[0]);
        assert(joined_lines(none) =~= Seq::<char>::empty());
        assert(out@ =~= joined_lines(all.take(1)));
    }
    let mut i: usize = 0;
    while i < beams.len()
        invariant
            i <= beams.len(),
            log_kernel_is_function(k),
            all == log_lines(k, beams@),
            out@ == joined_lines(all.take(i + 1)),
        decreases beams.len() - i,
    {
        write_row(k, &mut out, i, &beams[i]);
        proof {
            let l = spaced(row_words(k, i as int, beams@[i as int]));
            assert(all[i + 1] == l);
            assert(all.take(i + 2) =~= all.take(i + 1).push(l));
            lemma_joined_lines_push(all.take(i + 1), l);
        }
        i = i + 1;
    }
    assert(all.take(i + 1) =~= all);
    string_of(&out)
}

// ── Round trip ──────────────────────────────────────────────────────────────

/// Every number prints as one word that reads back as the number, and `nan` reads
/// as no number.
pub open spec fn log_kernel_is_faithful<K: LogKernel>(k: &K) -> bool {
    &&& forall|x: Double|
        #![trigger printed(k, x)]
        !x.nan() ==> is_word(printed(k, x)) && parsed(k, printed(k, x)) == Some(x)
    &&& parsed(k, "nan"@) matches Some(x) && x.nan()
}

/// What a channel's beam reads back as: the beam of its printed numbers, or the
/// zero beam where the channel is masked.
pub open spec fn read_back<K: LogKernel>(k: &K, b: Option<Beam>) -> Result<Beam, BeamlogError> {
    match b {
        Some(b) => row_beam(k, major_arcsec_of(k, b), minor_arcsec_of(k, b), b.pa_deg),
        None => Ok(Beam::zero_spec()),
    }
}

/// The beam's printed numbers are numbers.
pub open spec fn printable<K: LogKernel>(k: &K, b: Option<Beam>) -> bool {
    b matches Some(b) ==> !major_arcsec_of(k, b).nan() && !minor_arcsec_of(k, b).nan()
        && !b.pa_deg.nan()
}

proof fn lemma_row<K: LogKernel>(k: &K, channel: int, b: Option<Beam>, line: int)
    requires
        log_kernel_is_faithful(k),
        printable(k, b),
    ensures
        is_line(spaced(row_words(k, channel, b))),
        !is_silent(spaced(row_words(k, channel, b))),
        line_row(k, spaced(row_words(k, channel, b)), line) == (match read_back(k, b) {
            Ok(beam) => Ok::<LogRow, BeamlogError>(
                LogRow { channel: channel_of(decimal(channel as nat)), beam },
            ),
            Err(e) => Err::<LogRow, BeamlogError>(e),
        }),
{
    reveal_strlit("nan");
    let ws = row_words(k, channel, b);
    let s = spaced(ws);
    law_decimal_round_trip(channel as nat);
    let n = decimal(channel as nat);
    assert(is_word(n)) by {
        assert forall|i: int| 0 <= i < n.len() implies !is_space(#[trigger] n[i]) by {
            assert(is_digit(n[i]));
        }
    }
    assert(is_word("nan"@));
    assert forall|i: int| 0 <= i < ws.len() implies is_word(#[trigger] ws[i]) by {
        if let Some(b) = b {
            assert(is_word(printed(k, major_arcsec_of(k, b))));
            assert(is_word(printed(k, minor_arcsec_of(k, b))));
            assert(is_word(printed(k, b.pa_deg)));
        }
    }
    law_spaced_words_split(ws);
    lemma_spaced_four(ws[0], ws[1], ws[2], ws[3]);
    assert(ws =~= seq![ws[0], ws[1], ws[2], ws[3]]);
    assert(s[0] == n[0]);
    assert(is_digit(n[0]));
    assert forall|i: int| 0 <= i < s.len() implies s[i] != '\n' by {
        let a = ws[0].len() + 1;
        let c = a + ws[1].len() + 1;
        let d = c + ws[2].len() + 1;
        if i < a - 1 {
            assert(s[i] == ws[0][i]);
        } else if a <= i < c - 1 {
            assert(s[i] == ws[1][i - a]);
        } else if c <= i < d - 1 {
            assert(s[i] == ws[2][i - c]);
        } else if d <= i {
            assert(s[i] == ws[3][i - d]);
        }
    }
    assert(s.last() == ws[3].last());
    if b is None {
        let x = parsed(k, "nan"@)->0;
        assert(!x.finite());
    }
}

/// The rows that stand for the beams from channel `i` on.
spec fn rows_back<K: LogKernel>(k: &K, beams: Seq<Option<Beam>>, i: int) -> Seq<LogRow> {
    Seq::new(
        (beams.len() - i) as nat,
        |j: int|
            LogRow {
                channel: channel_of(decimal((i + j) as nat)),
                beam: read_back(k, beams[i + j])->Ok_0,
            },
    )
}

proof fn lemma_rows<K: LogKernel>(k: &K, beams: Seq<Option<Beam>>, i: int)
    requires
        log_kernel_is_faithful(k),
        forall|j: int| 0 <= j < beams.len() ==> printable(k, #[trigger] beams[j]),
        forall|j: int| 0 <= j < beams.len() ==> read_back(k, #[trigger] beams[j]) is Ok,
        0 <= i <= beams.len(),
    ensures
        log_rows(k, log_lines(k, beams).skip(i + 1), i + 2) == Ok::<Seq<LogRow>, BeamlogError>(
            rows_back(k, beams, i),
        ),
    decreases beams.len() - i,
{
    let rest = log_lines(k, beams).skip(i + 1);
    if i < beams.len() {
        assert(printable(k, beams[i]));
        assert(read_back(k, beams[i]) is Ok);
        lemma_row(k, i, beams[i], i + 2);
        assert(rest[0] == spaced(row_words(k, i, beams[i])));
        assert(rest.drop_first() =~= log_lines(k, beams).skip(i + 2));
        lemma_rows(k, beams, i + 1);
        let first = LogRow {
            channel: channel_of(decimal(i as nat)),
            beam: read_back(k, beams[i])->Ok_0,
        };
        assert(seq![first] + rows_back(k, beams, i + 1) =~= rows_back(k, beams, i));
    } else {
        assert(rows_back(k, beams, i) =~= Seq::<LogRow>::empty());
    }
}

/// The lines of a beamlog that can be read back are single lines.
pub proof fn lemma_log_lines_are_lines<K: LogKernel>(k: &K, beams: Seq<Option<Beam>>)
    requires
        log_kernel_is_faithful(k),
        forall|j: int| 0 <= j < beams.len() ==> printable(k, #[trigger] beams[j]),
    ensures
        forall|i: int|
            0 <= i < log_lines(k, beams).len() ==> is_line(#[trigger] log_lines(k, beams)[i]),
{
    reveal_strlit("# Channel BMAJ[arcsec] BMIN[arcsec] BPA[deg]");
    let all = log_lines(k, beams);
    let head = "# Channel BMAJ[arcsec] BMIN[arcsec] BPA[deg]"@;
    assert(all[0] == head);
    assert(is_line(head)) by {
        assert(head.len() == 44);
        assert forall|i: int| 0 <= i < head.len() implies head[i] != '\n' by {}
    }
    assert forall|i: int| 0 <= i < all.len() implies is_line(#[trigger] all[i]) by {
        if i > 0 {
            assert(printable(k, beams[i - 1]));
            lemma_row(k, i - 1, beams[i - 1], 0);
        }
    }
}

/// Reading a beamlog that was written gives back every channel: the beam of the
/// numbers that were printed, and the zero beam for a masked channel.
pub proof fn law_beamlog_round_trip<K: LogKernel>(k: &K, beams: Seq<Option<Beam>>)
    requires
        log_kernel_is_faithful(k),
        forall|j: int| 0 <= j < beams.len() ==> printable(k, #[trigger] beams[j]),
        forall|j: int| 0 <= j < beams.len() ==> read_back(k, #[trigger] beams[j]) is Ok,
    ensures
        log_beams(k, lines(joined_lines(log_lines(k, beams)))) == Ok::<Seq<Beam>, BeamlogError>(
            Seq::new(beams.len(), |j: int| read_back(k, beams[j])->Ok_0),
        ),
{
    reveal_strlit("# Channel BMAJ[arcsec] BMIN[arcsec] BPA[deg]");
    let all = log_lines(k, beams);
    let head = "# Channel BMAJ[arcsec] BMIN[arcsec] BPA[deg]"@;
    assert(all[0] == head);
    lemma_log_lines_are_lines(k, beams);
    assert(trim(head) == head);
    law_joined_lines_split(all);
    assert(all.drop_first() =~= all.skip(1));
    lemma_rows(k, beams, 0);
    let rows = rows_back(k, beams, 0);
    if numbered(rows) {
        assert forall|i: int, j: int|
            #![trigger rows[i], rows[j]]
            0 <= i < j < rows.len() implies rows[i].channel->0 <= rows[j].channel->0 by {
            assert(rows[i].channel is Some && rows[j].channel is Some);
            law_decimal_round_trip(i as nat);
            law_decimal_round_trip(j as nat);
        }
        law_ascending_rows_stay(rows);
    }
    assert(row_beams(rows) =~= Seq::new(beams.len(), |j: int| read_back(k, beams[j])->Ok_0));
}

/// The printed numbers of a beam are still a beam that is not masked: both axes are
/// numbers above the tiny one, finite in degrees, and the minor is not the larger one.
pub open spec fn survives_printing<K: LogKernel>(k: &K, b: Beam) -> bool {
    let tiny = Double { bits: TINY };
    &&& tiny.below(major_arcsec_of(k, b)) && major_arcsec_of(k, b).finite()
    &&& tiny.below(minor_arcsec_of(k, b))
    &&& degrees_of(k, major_arcsec_of(k, b)).finite()
    &&& degrees_of(k, minor_arcsec_of(k, b)).finite()
    &&& degrees_of(k, minor_arcsec_of(k, b)).units() <= degrees_of(
        k,
        major_arcsec_of(k, b),
    ).units()
    &&& b.pa_deg.finite()
}

/// A beamlog keeps beams: reading one that was written gives back, for each channel,
/// a beam as close to what was written as the axes are after the way to arcseconds and
/// back, with the same angle, and the zero beam for a masked channel.
pub proof fn law_beamlog_keeps_beams<K: LogKernel>(
    k: &K,
    beams: Seq<Option<Beam>>,
    close: spec_fn(Double, Double) -> bool,
)
    requires
        log_kernel_is_faithful(k),
        forall|j: int|
            0 <= j < beams.len() ==> (#[trigger] beams[j] matches Some(b) ==> {
                &&& survives_printing(k, b)
                &&& close(b.major_deg, degrees_of(k, major_arcsec_of(k, b)))
                &&& close(b.minor_deg, degrees_of(k, minor_arcsec_of(k, b)))
            }),
    ensures
        log_beams(k, lines(joined_lines(log_lines(k, beams)))) matches Ok(back) && back.len()
            == beams.len() && forall|j: int|
            0 <= j < beams.len() ==> match beams[j] {
                Some(b) => {
                    &&& close(b.major_deg, (#[trigger] back[j]).major_deg)
                    &&& close(b.minor_deg, back[j].minor_deg)
                    &&& back[j].pa_deg == b.pa_deg
                },
                None => back[j] == Beam::zero_spec(),
            },
{
    assert forall|j: int| 0 <= j < beams.len() implies printable(k, #[trigger] beams[j])
        && read_back(k, beams[j]) is Ok by {
        if let Some(b) = beams[j] {
            assert(!b.pa_deg.nan());
        }
    }
    law_beamlog_round_trip(k, beams);
}

} // verus!
