//! Plain-text scanning: trimming, lines, words and decimal numbers.
//!
//! The definitions follow `str::trim`, `str::lines`, `str::split_whitespace`
//! and `u64::from_str` of the standard library, stated over the characters.
use vstd::prelude::*;

verus! {

/// `String::push` appends one character to the end of the string.
pub assume_specification[ String::push ](s: &mut String, c: char)
    ensures
        final(s)@ == old(s)@.push(c),
;

/// The characters that Unicode calls white space.
pub open spec fn is_space(c: char) -> bool {
    let u = c as u32;
    ||| 0x9 <= u <= 0xd
    ||| u == 0x20
    ||| u == 0x85
    ||| u == 0xa0
    ||| u == 0x1680
    ||| 0x2000 <= u <= 0x200a
    ||| u == 0x2028
    ||| u == 0x2029
    ||| u == 0x202f
    ||| u == 0x205f
    ||| u == 0x3000
}

pub open spec fn is_quote(c: char) -> bool {
    c == '\''
}

pub open spec fn is_digit(c: char) -> bool {
    '0' <= c <= '9'
}

/// `s` without the leading characters that satisfy `p`.
pub open spec fn trim_front(s: Seq<char>, p: spec_fn(char) -> bool) -> Seq<char>
    decreases s.len(),
{
    if s.len() > 0 && p(s[0]) {
        trim_front(s.drop_first(), p)
    } else {
        s
    }
}

/// `s` without the trailing characters that satisfy `p`.
pub open spec fn trim_back(s: Seq<char>, p: spec_fn(char) -> bool) -> Seq<char>
    decreases s.len(),
{
    if s.len() > 0 && p(s.last()) {
        trim_back(s.drop_last(), p)
    } else {
        s
    }
}

/// `s` without white space at either end.
pub open spec fn trim(s: Seq<char>) -> Seq<char> {
    trim_back(trim_front(s, |c: char| is_space(c)), |c: char| is_space(c))
}

/// `s` without single quotes at either end.
pub open spec fn trim_quotes(s: Seq<char>) -> Seq<char> {
    trim_back(trim_front(s, |c: char| is_quote(c)), |c: char| is_quote(c))
}

/// The ASCII upper-case form of one character.
pub open spec fn upper(c: char) -> char {
    if 'a' <= c <= 'z' {
        (c as u32 - 32) as char
    } else {
        c
    }
}

pub open spec fn uppercase(s: Seq<char>) -> Seq<char> {
    Seq::new(s.len(), |i: int| upper(s[i]))
}

proof fn lemma_trim_front_upper(s: Seq<char>, p: spec_fn(char) -> bool)
    requires
        forall|c: char| p(#[trigger] upper(c)) == p(c),
    ensures
        trim_front(uppercase(s), p) == uppercase(trim_front(s, p)),
    decreases s.len(),
{
    if s.len() > 0 {
        assert(uppercase(s)[0] == upper(s[0]));
        assert(uppercase(s).drop_first() =~= uppercase(s.drop_first()));
        lemma_trim_front_upper(s.drop_first(), p);
    }
}

proof fn lemma_trim_back_upper(s: Seq<char>, p: spec_fn(char) -> bool)
    requires
        forall|c: char| p(#[trigger] upper(c)) == p(c),
    ensures
        trim_back(uppercase(s), p) == uppercase(trim_back(s, p)),
    decreases s.len(),
{
    if s.len() > 0 {
        assert(uppercase(s).last() == upper(s.last()));
        assert(uppercase(s).drop_last() =~= uppercase(s.drop_last()));
        lemma_trim_back_upper(s.drop_last(), p);
    }
}

/// Trimming and putting in upper case may be done in either order, and a second
/// upper-casing changes nothing.
pub proof fn law_trim_keeps_case(s: Seq<char>)
    ensures
        trim(uppercase(s)) == uppercase(trim(s)),
        trim_quotes(uppercase(s)) == uppercase(trim_quotes(s)),
        uppercase(uppercase(s)) == uppercase(s),
{
    let space = |c: char| is_space(c);
    let quote = |c: char| is_quote(c);
    lemma_trim_front_upper(s, space);
    lemma_trim_back_upper(trim_front(s, space), space);
    lemma_trim_front_upper(s, quote);
    lemma_trim_back_upper(trim_front(s, quote), quote);
    assert(uppercase(uppercase(s)) =~= uppercase(s));
}

proof fn lemma_trim_front_push(s: Seq<char>, p: spec_fn(char) -> bool, c: char)
    requires
        p(c),
    ensures
        trim_front(s, p).len() == 0 ==> trim_front(s.push(c), p).len() == 0,
        trim_front(s, p).len() > 0 ==> trim_front(s.push(c), p) == trim_front(s, p).push(c),
    decreases s.len(),
{
    if s.len() > 0 && p(s[0]) {
        assert(s.push(c).drop_first() =~= s.drop_first().push(c));
        lemma_trim_front_push(s.drop_first(), p, c);
    } else if s.len() == 0 {
        assert(s.push(c).drop_first() =~= s);
    }
}

/// White space before or after a text does not change its trimmed form.
pub proof fn law_trim_ignores_padding(s: Seq<char>, c: char)
    requires
        is_space(c),
    ensures
        trim(seq![c] + s) == trim(s),
        trim(s.push(c)) == trim(s),
{
    let space = |d: char| is_space(d);
    assert((seq![c] + s).drop_first() =~= s);
    lemma_trim_front_push(s, space, c);
    let t = trim_front(s, space);
    if t.len() > 0 {
        assert(t.push(c).drop_last() =~= t);
    } else {
        assert(trim_front(s.push(c), space) =~= t);
    }
}

/// The ASCII lower-case form of one character.
pub open spec fn lower(c: char) -> char {
    if 'A' <= c <= 'Z' {
        (c as u32 + 32) as char
    } else {
        c
    }
}

pub open spec fn lowercase(s: Seq<char>) -> Seq<char> {
    Seq::new(s.len(), |i: int| lower(s[i]))
}

/// A text and its lower-case form are the same in upper case.
pub proof fn law_upper_of_lower(s: Seq<char>)
    ensures
        uppercase(lowercase(s)) == uppercase(s),
{
    assert(uppercase(lowercase(s)) =~= uppercase(s));
}

proof fn lemma_trim_back_len(s: Seq<char>, p: spec_fn(char) -> bool)
    ensures
        trim_back(s, p).len() <= s.len(),
        trim_back(s, p) == s.take(trim_back(s, p).len() as int),
        trim_back(s, p).len() > 0 ==> !p(trim_back(s, p).last()),
    decreases s.len(),
{
    if s.len() > 0 && p(s.last()) {
        lemma_trim_back_len(s.drop_last(), p);
        let n = trim_back(s, p).len() as int;
        assert(s.drop_last().take(n) =~= s.take(n));
    } else {
        assert(s =~= s.take(s.len() as int));
    }
}

proof fn lemma_trim_front_is_a_suffix(s: Seq<char>, p: spec_fn(char) -> bool)
    ensures
        trim_front(s, p).len() <= s.len(),
        trim_front(s, p) == s.skip(s.len() - trim_front(s, p).len()),
    decreases s.len(),
{
    if s.len() > 0 && p(s[0]) {
        lemma_trim_front_is_a_suffix(s.drop_first(), p);
        let n = trim_front(s, p).len() as int;
        assert(s.drop_first().skip(s.len() - 1 - n) =~= s.skip(s.len() - n));
    } else {
        assert(s =~= s.skip(0));
    }
}

/// Trimming a second time changes nothing, and trimming leaves only characters that
/// were there.
pub proof fn law_trim_settles(s: Seq<char>)
    ensures
        trim(trim(s)) == trim(s),
        forall|c: char| trim(s).contains(c) ==> #[trigger] s.contains(c),
{
    let space = |c: char| is_space(c);
    let t = trim_front(s, space);
    let u = trim(s);
    lemma_trim_front_len(s, space);
    lemma_trim_front_is_a_suffix(s, space);
    lemma_trim_back_len(t, space);
    if u.len() > 0 {
        assert(u[0] == t[0]);
        assert(trim_front(u, space) == u);
    }
    assert forall|c: char| u.contains(c) implies #[trigger] s.contains(c) by {
        let i = choose|i: int| 0 <= i < u.len() && u[i] == c;
        assert(u[i] == t[i] && t[i] == s[i + s.len() - t.len()]);
    }
}

/// `s` between single quotes.
pub open spec fn quoted(s: Seq<char>) -> Seq<char> {
    seq!['\''] + s + seq!['\'']
}

/// Quotes put round a text go again when quotes are trimmed, and white space inside
/// them stays when white space is trimmed.
pub proof fn law_quotes_come_off(s: Seq<char>)
    ensures
        trim_quotes(quoted(s)) == trim_quotes(s),
        trim(quoted(s)) == quoted(s),
        !s.contains('\'') ==> trim_quotes(s) == s,
{
    let quote = |d: char| is_quote(d);
    let q = quoted(s);
    assert(q.drop_first() =~= s.push('\''));
    lemma_trim_front_push(s, quote, '\'');
    let t = trim_front(s, quote);
    if t.len() > 0 {
        assert(t.push('\'').drop_last() =~= t);
    } else {
        assert(trim_front(s.push('\''), quote) =~= t);
    }
    assert(q[0] == '\'' && q.last() == '\'');
    if !s.contains('\'') && s.len() > 0 {
        assert(s.contains(s[0]) && s.contains(s.last()));
    }
}

/// Characters before the first one that satisfies `p`.
pub open spec fn run_len(s: Seq<char>, p: spec_fn(char) -> bool) -> nat
    decreases s.len(),
{
    if s.len() == 0 || p(s[0]) {
        0
    } else {
        1 + run_len(s.drop_first(), p)
    }
}

pub proof fn lemma_trim_front_len(s: Seq<char>, p: spec_fn(char) -> bool)
    ensures
        trim_front(s, p).len() <= s.len(),
        trim_front(s, p).len() > 0 ==> !p(trim_front(s, p)[0]),
    decreases s.len(),
{
    if s.len() > 0 && p(s[0]) {
        lemma_trim_front_len(s.drop_first(), p);
    }
}

pub proof fn lemma_run_len(s: Seq<char>, p: spec_fn(char) -> bool)
    ensures
        run_len(s, p) <= s.len(),
        forall|i: int| 0 <= i < run_len(s, p) ==> !p(#[trigger] s[i]),
        run_len(s, p) < s.len() ==> p(s[run_len(s, p) as int]),
    decreases s.len(),
{
    if s.len() > 0 && !p(s[0]) {
        lemma_run_len(s.drop_first(), p);
        assert forall|i: int| 0 <= i < run_len(s, p) implies !p(#[trigger] s[i]) by {
            if i > 0 {
                assert(s[i] == s.drop_first()[i - 1]);
            }
        }
    }
}

/// `n` characters before the first one that satisfies `p` are exactly the run.
pub proof fn lemma_run_len_is(s: Seq<char>, p: spec_fn(char) -> bool, n: nat)
    requires
        n <= s.len(),
        forall|i: int| 0 <= i < n ==> !p(#[trigger] s[i]),
        n < s.len() ==> p(s[n as int]),
    ensures
        run_len(s, p) == n,
    decreases n,
{
    if n > 0 {
        assert(!p(s[0]));
        let t = s.drop_first();
        assert forall|i: int| 0 <= i < n - 1 implies !p(#[trigger] t[i]) by {
            assert(t[i] == s[i + 1]);
        }
        lemma_run_len_is(t, p, (n - 1) as nat);
    }
}

/// The white-space separated words of `s`, in order.
pub open spec fn words(s: Seq<char>) -> Seq<Seq<char>>
    decreases s.len(),
{
    let t = trim_front(s, |c: char| is_space(c));
    if t.len() == 0 {
        Seq::empty()
    } else {
        let n = run_len(t, |c: char| is_space(c)) as int;
        proof {
            lemma_trim_front_len(s, |c: char| is_space(c));
            lemma_run_len(t, |c: char| is_space(c));
        }
        seq![t.take(n)] + words(t.skip(n))
    }
}

/// `s` without one trailing carriage return.
pub open spec fn strip_cr(s: Seq<char>) -> Seq<char> {
    if s.len() > 0 && s.last() == '\r' {
        s.drop_last()
    } else {
        s
    }
}

/// The lines of `s`: each ends at a line feed, whose carriage return goes with
/// it; the last line needs no line feed.
pub open spec fn lines(s: Seq<char>) -> Seq<Seq<char>>
    decreases s.len(),
{
    if s.len() == 0 {
        Seq::empty()
    } else {
        let n = run_len(s, |c: char| c == '\n') as int;
        proof {
            lemma_run_len(s, |c: char| c == '\n');
        }
        if n == s.len() {
            seq![s]
        } else {
            seq![strip_cr(s.take(n))] + lines(s.skip(n + 1))
        }
    }
}

/// Text made of lines, each ended by a line feed.
pub open spec fn joined_lines(ls: Seq<Seq<char>>) -> Seq<char>
    decreases ls.len(),
{
    if ls.len() == 0 {
        Seq::empty()
    } else {
        ls[0].push('\n') + joined_lines(ls.drop_first())
    }
}

/// A line that survives splitting: no line feed, and no carriage return at its end.
pub open spec fn is_line(s: Seq<char>) -> bool {
    !s.contains('\n') && (s.len() > 0 ==> s.last() != '\r')
}

pub proof fn lemma_joined_lines_push(ls: Seq<Seq<char>>, l: Seq<char>)
    ensures
        joined_lines(ls.push(l)) == joined_lines(ls) + l.push('\n'),
    decreases ls.len(),
{
    if ls.len() == 0 {
        let none = Seq::<Seq<char>>::empty();
        assert(ls.push(l).drop_first() =~= none);
        assert(joined_lines(none) =~= Seq::<char>::empty());
        assert(joined_lines(ls) + l.push('\n') =~= l.push('\n') + joined_lines(none));
    } else {
        assert(ls.push(l).drop_first() =~= ls.drop_first().push(l));
        lemma_joined_lines_push(ls.drop_first(), l);
        assert(joined_lines(ls.push(l)) =~= joined_lines(ls) + l.push('\n'));
    }
}

/// Joined lines split into the same lines.
pub proof fn law_joined_lines_split(ls: Seq<Seq<char>>)
    requires
        forall|i: int| 0 <= i < ls.len() ==> is_line(#[trigger] ls[i]),
    ensures
        lines(joined_lines(ls)) == ls,
    decreases ls.len(),
{
    if ls.len() > 0 {
        let s = joined_lines(ls);
        let l = ls[0];
        let rest = ls.drop_first();
        let p = |c: char| c == '\n';
        assert(is_line(l));
        assert forall|i: int| 0 <= i < l.len() implies !p(#[trigger] s[i]) by {
            assert(s[i] == l[i]);
            assert(l.contains(l[i]));
        }
        assert(p(s[l.len() as int]));
        lemma_run_len_is(s, p, l.len());
        assert(s.take(l.len() as int) =~= l);
        assert(s.skip(l.len() as int + 1) =~= joined_lines(rest));
        assert forall|i: int| 0 <= i < rest.len() implies is_line(#[trigger] rest[i]) by {
            assert(rest[i] == ls[i + 1]);
        }
        law_joined_lines_split(rest);
        assert(seq![l] + rest =~= ls);
    }
}

/// A word: at least one character, and no white space.
pub open spec fn is_word(w: Seq<char>) -> bool {
    &&& w.len() > 0
    &&& forall|i: int| 0 <= i < w.len() ==> !is_space(#[trigger] w[i])
}

/// Words with one space between them.
pub open spec fn spaced(ws: Seq<Seq<char>>) -> Seq<char>
    decreases ws.len(),
{
    if ws.len() == 0 {
        Seq::empty()
    } else if ws.len() == 1 {
        ws[0]
    } else {
        ws[0].push(' ') + spaced(ws.drop_first())
    }
}

proof fn lemma_spaced_ends(ws: Seq<Seq<char>>)
    requires
        ws.len() > 0,
        forall|i: int| 0 <= i < ws.len() ==> is_word(#[trigger] ws[i]),
    ensures
        spaced(ws).len() >= ws[0].len(),
        forall|i: int| 0 <= i < ws[0].len() ==> spaced(ws)[i] == ws[0][i],
        !is_space(spaced(ws).last()),
    decreases ws.len(),
{
    assert(is_word(ws[0]));
    if ws.len() > 1 {
        let rest = ws.drop_first();
        assert forall|i: int| 0 <= i < rest.len() implies is_word(#[trigger] rest[i]) by {
            assert(rest[i] == ws[i + 1]);
        }
        lemma_spaced_ends(rest);
        assert(is_word(rest[0]));
    }
}

/// Spaced words are read back as the same words, and have no padding.
pub proof fn law_spaced_words_split(ws: Seq<Seq<char>>)
    requires
        forall|i: int| 0 <= i < ws.len() ==> is_word(#[trigger] ws[i]),
    ensures
        words(spaced(ws)) == ws,
        trim(spaced(ws)) == spaced(ws),
    decreases ws.len(),
{
    let s = spaced(ws);
    let p = |c: char| is_space(c);
    if ws.len() > 0 {
        lemma_spaced_ends(ws);
        let w = ws[0];
        assert(is_word(w));
        assert(s[0] == w[0]);
        let n = w.len() as int;
        let rest = ws.drop_first();
        assert forall|i: int| 0 <= i < rest.len() implies is_word(#[trigger] rest[i]) by {
            assert(rest[i] == ws[i + 1]);
        }
        law_spaced_words_split(rest);
        lemma_run_len_is(s, p, w.len());
        assert(s.take(n) =~= w);
        if ws.len() == 1 {
            assert(s.skip(n) =~= Seq::<char>::empty());
            assert(rest =~= Seq::<Seq<char>>::empty());
            assert(words(s.skip(n)) =~= Seq::<Seq<char>>::empty());
        } else {
            assert(s.skip(n) =~= seq![' '] + spaced(rest));
            assert((seq![' '] + spaced(rest)).drop_first() =~= spaced(rest));
            assert(words(s.skip(n)) == words(spaced(rest)));
        }
        assert(seq![w] + rest =~= ws);
    }
}

/// The characters of each text in a list.
pub open spec fn texts(v: Seq<Vec<char>>) -> Seq<Seq<char>> {
    Seq::new(v.len(), |i: int| v[i]@)
}

/// The characters of a string.
pub fn chars_of(s: &str) -> (r: Vec<char>)
    ensures
        r@ == s@,
{
    let mut r: Vec<char> = Vec::new();
    for c in it: s.chars()
        invariant
            r@ == s@.take(it.index() as int),
            it.seq() == s@,
    {
        r.push(c);
        assert(s@.take(it.index() + 1) =~= s@.take(it.index() as int).push(c));
    }
    assert(s@.take(s@.len() as int) =~= s@);
    r
}

/// The string made of the given characters.
pub fn string_of(v: &Vec<char>) -> (r: String)
    ensures
        r@ == v@,
{
    let mut r = String::new();
    let mut i: usize = 0;
    while i < v.len()
        invariant
            i <= v.len(),
            r@ == v@.take(i as int),
        decreases v.len() - i,
    {
        r.push(v[i]);
        assert(v@.take(i + 1) =~= v@.take(i as int).push(v@[i as int]));
        i = i + 1;
    }
    assert(v@.take(v@.len() as int) =~= v@);
    r
}

/// Append `more` to `out`.
pub fn push_all(out: &mut Vec<char>, more: &Vec<char>)
    ensures
        final(out)@ == old(out)@ + more@,
{
    let ghost before = out@;
    let mut i: usize = 0;
    while i < more.len()
        invariant
            i <= more.len(),
            out@ == before + more@.take(i as int),
        decreases more.len() - i,
    {
        out.push(more[i]);
        assert(more@.take(i + 1) =~= more@.take(i as int).push(more@[i as int]));
        assert(out@ =~= before + more@.take(i + 1));
        i = i + 1;
    }
    assert(more@.take(more@.len() as int) =~= more@);
}

/// Append the characters of a string to `out`.
pub fn push_str(out: &mut Vec<char>, more: &str)
    ensures
        final(out)@ == old(out)@ + more@,
{
    let v = chars_of(more);
    push_all(out, &v);
}

/// The part `[from, to)` of a text.
pub fn part(v: &Vec<char>, from: usize, to: usize) -> (r: Vec<char>)
    requires
        from <= to <= v.len(),
    ensures
        r@ == v@.subrange(from as int, to as int),
{
    let mut r: Vec<char> = Vec::new();
    let mut i: usize = from;
    while i < to
        invariant
            from <= i <= to <= v.len(),
            r@ == v@.subrange(from as int, i as int),
        decreases to - i,
    {
        r.push(v[i]);
        assert(v@.subrange(from as int, i + 1) =~= v@.subrange(from as int, i as int).push(
            v@[i as int],
        ));
        i = i + 1;
    }
    r
}

/// True if both texts hold the same characters.
pub fn same_text(a: &Vec<char>, b: &Vec<char>) -> (r: bool)
    ensures
        r == (a@ == b@),
{
    if a.len() != b.len() {
        return false;
    }
    let mut i: usize = 0;
    while i < a.len()
        invariant
            i <= a.len(),
            a.len() == b.len(),
            forall|j: int| 0 <= j < i ==> a@[j] == b@[j],
        decreases a.len() - i,
    {
        if a[i] != b[i] {
            return false;
        }
        i = i + 1;
    }
    assert(a@ =~= b@);
    true
}

/// True if the text holds exactly the characters of `s`.
pub fn text_is(v: &Vec<char>, s: &str) -> (r: bool)
    ensures
        r == (v@ == s@),
{
    let w = chars_of(s);
    same_text(v, &w)
}

pub fn is_whitespace(c: char) -> (r: bool)
    ensures
        r == is_space(c),
{
    let u = c as u32;
    (0x9 <= u && u <= 0xd) || u == 0x20 || u == 0x85 || u == 0xa0 || u == 0x1680 || (0x2000 <= u
        && u <= 0x200a) || u == 0x2028 || u == 0x2029 || u == 0x202f || u == 0x205f || u == 0x3000
}

proof fn lemma_trim_front_from(s: Seq<char>, p: spec_fn(char) -> bool, lo: int)
    requires
        0 <= lo <= s.len(),
        forall|i: int| 0 <= i < lo ==> p(#[trigger] s[i]),
        lo < s.len() ==> !p(s[lo]),
    ensures
        trim_front(s, p) == s.skip(lo),
    decreases lo,
{
    if lo > 0 {
        assert(p(s[0]));
        let t = s.drop_first();
        assert forall|i: int| 0 <= i < lo - 1 implies p(#[trigger] t[i]) by {
            assert(t[i] == s[i + 1]);
        }
        lemma_trim_front_from(t, p, lo - 1);
        assert(t.skip(lo - 1) =~= s.skip(lo));
    } else {
        assert(s.skip(0) =~= s);
    }
}

proof fn lemma_trim_back_from(s: Seq<char>, p: spec_fn(char) -> bool, hi: int)
    requires
        0 <= hi <= s.len(),
        forall|i: int| hi <= i < s.len() ==> p(#[trigger] s[i]),
        hi > 0 ==> !p(s[hi - 1]),
    ensures
        trim_back(s, p) == s.take(hi),
    decreases s.len() - hi,
{
    if hi < s.len() {
        assert(p(s.last()));
        let t = s.drop_last();
        lemma_trim_back_from(t, p, hi);
        assert(t.take(hi) =~= s.take(hi));
    } else {
        assert(s.take(hi) =~= s);
    }
}

/// The text without white space at either end.
pub fn trimmed(s: &Vec<char>) -> (r: Vec<char>)
    ensures
        r@ == trim(s@),
{
    let ghost p = |c: char| is_space(c);
    let mut lo: usize = 0;
    while lo < s.len() && is_whitespace(s[lo])
        invariant
            lo <= s.len(),
            forall|i: int| 0 <= i < lo ==> is_space(#[trigger] s@[i]),
        decreases s.len() - lo,
    {
        lo = lo + 1;
    }
    let mut hi: usize = s.len();
    while hi > lo && is_whitespace(s[hi - 1])
        invariant
            lo <= hi <= s.len(),
            forall|i: int| hi <= i < s.len() ==> is_space(#[trigger] s@[i]),
        decreases hi,
    {
        hi = hi - 1;
    }
    proof {
        lemma_trim_front_from(s@, p, lo as int);
        let t = s@.skip(lo as int);
        assert forall|i: int| hi - lo <= i < t.len() implies p(#[trigger] t[i]) by {
            assert(t[i] == s@[i + lo]);
        }
        lemma_trim_back_from(t, p, hi - lo);
        assert(t.take(hi - lo) =~= s@.subrange(lo as int, hi as int));
    }
    part(s, lo, hi)
}

/// The text without single quotes at either end.
pub fn unquoted(s: &Vec<char>) -> (r: Vec<char>)
    ensures
        r@ == trim_quotes(s@),
{
    let ghost p = |c: char| is_quote(c);
    let mut lo: usize = 0;
    while lo < s.len() && s[lo] == '\''
        invariant
            lo <= s.len(),
            forall|i: int| 0 <= i < lo ==> is_quote(#[trigger] s@[i]),
        decreases s.len() - lo,
    {
        lo = lo + 1;
    }
    let mut hi: usize = s.len();
    while hi > lo && s[hi - 1] == '\''
        invariant
            lo <= hi <= s.len(),
            forall|i: int| hi <= i < s.len() ==> is_quote(#[trigger] s@[i]),
        decreases hi,
    {
        hi = hi - 1;
    }
    proof {
        lemma_trim_front_from(s@, p, lo as int);
        let t = s@.skip(lo as int);
        assert forall|i: int| hi - lo <= i < t.len() implies p(#[trigger] t[i]) by {
            assert(t[i] == s@[i + lo]);
        }
        lemma_trim_back_from(t, p, hi - lo);
        assert(t.take(hi - lo) =~= s@.subrange(lo as int, hi as int));
    }
    part(s, lo, hi)
}

/// The ASCII upper-case form of a text.
pub fn uppercased(s: &Vec<char>) -> (r: Vec<char>)
    ensures
        r@ == uppercase(s@),
{
    let mut r: Vec<char> = Vec::new();
    let mut i: usize = 0;
    while i < s.len()
        invariant
            i <= s.len(),
            r@.len() == i,
            forall|j: int| 0 <= j < i ==> r@[j] == upper(s@[j]),
        decreases s.len() - i,
    {
        let c = s[i];
        if 'a' <= c && c <= 'z' {
            r.push((c as u8 - 32) as char);
        } else {
            r.push(c);
        }
        i = i + 1;
    }
    assert(r@ =~= uppercase(s@));
    r
}

/// The white-space separated words of a text, in order.
pub fn split_words(s: &Vec<char>) -> (r: Vec<Vec<char>>)
    ensures
        texts(r@) == words(s@),
{
    let ghost p = |c: char| is_space(c);
    let mut r: Vec<Vec<char>> = Vec::new();
    let mut pos: usize = 0;
    assert(s@.skip(0) =~= s@);
    assert(texts(r@) + words(s@) =~= words(s@));
    loop
        invariant
            pos <= s.len(),
            p == (|c: char| is_space(c)),
            texts(r@) + words(s@.skip(pos as int)) == words(s@),
        ensures
            texts(r@) == words(s@),
        decreases s.len() - pos,
    {
        let mut lo: usize = pos;
        while lo < s.len() && is_whitespace(s[lo])
            invariant
                pos <= lo <= s.len(),
                forall|i: int| pos <= i < lo ==> is_space(#[trigger] s@[i]),
            decreases s.len() - lo,
        {
            lo = lo + 1;
        }
        let ghost rest = s@.skip(pos as int);
        let ghost t = s@.skip(lo as int);
        proof {
            assert forall|i: int| 0 <= i < lo - pos implies p(#[trigger] rest[i]) by {
                assert(rest[i] == s@[i + pos]);
            }
            lemma_trim_front_from(rest, p, lo - pos);
            assert(rest.skip(lo - pos) =~= t);
        }
        if lo == s.len() {
            assert(words(rest) =~= Seq::<Seq<char>>::empty());
            assert(texts(r@) =~= words(s@));
            break;
        }
        let mut hi: usize = lo;
        while hi < s.len() && !is_whitespace(s[hi])
            invariant
                lo <= hi <= s.len(),
                forall|i: int| lo <= i < hi ==> !is_space(#[trigger] s@[i]),
            decreases s.len() - hi,
        {
            hi = hi + 1;
        }
        let word = part(s, lo, hi);
        proof {
            assert forall|i: int| 0 <= i < hi - lo implies !p(#[trigger] t[i]) by {
                assert(t[i] == s@[i + lo]);
            }
            lemma_run_len_is(t, p, (hi - lo) as nat);
            assert(t.take(hi - lo) =~= word@);
            assert(t.skip(hi - lo) =~= s@.skip(hi as int));
            assert(words(rest) == seq![word@] + words(s@.skip(hi as int)));
        }
        let ghost before = r@;
        r.push(word);
        proof {
            assert(texts(r@) =~= texts(before) + seq![word@]);
            assert(texts(r@) + words(s@.skip(hi as int)) =~= texts(before) + (seq![word@] + words(
                s@.skip(hi as int),
            )));
        }
        pos = hi;
    }
    r
}

/// The lines of a text, in order.
pub fn split_lines(s: &Vec<char>) -> (r: Vec<Vec<char>>)
    ensures
        texts(r@) == lines(s@),
{
    let ghost p = |c: char| c == '\n';
    let mut r: Vec<Vec<char>> = Vec::new();
    let mut pos: usize = 0;
    assert(s@.skip(0) =~= s@);
    assert(texts(r@) + lines(s@) =~= lines(s@));
    while pos < s.len()
        invariant
            pos <= s.len(),
            p == (|c: char| c == '\n'),
            texts(r@) + lines(s@.skip(pos as int)) == lines(s@),
        decreases s.len() - pos,
    {
        let ghost rest = s@.skip(pos as int);
        let mut hi: usize = pos;
        while hi < s.len() && s[hi] != '\n'
            invariant
                pos <= hi <= s.len(),
                forall|i: int| pos <= i < hi ==> #[trigger] s@[i] != '\n',
            decreases s.len() - hi,
        {
            hi = hi + 1;
        }
        proof {
            assert forall|i: int| 0 <= i < hi - pos implies !p(#[trigger] rest[i]) by {
                assert(rest[i] == s@[i + pos]);
            }
            lemma_run_len_is(rest, p, (hi - pos) as nat);
        }
        let ghost before = r@;
        if hi == s.len() {
            let line = part(s, pos, hi);
            assert(line@ =~= rest);
            r.push(line);
            pos = hi;
            assert(s@.skip(pos as int) =~= Seq::<char>::empty());
            assert(texts(r@) + lines(s@.skip(pos as int)) =~= texts(before) + seq![rest]);
        } else {
            let mut end: usize = hi;
            if end > pos && s[end - 1] == '\r' {
                end = end - 1;
            }
            let line = part(s, pos, end);
            proof {
                assert(line@ =~= strip_cr(rest.take(hi - pos)));
                assert(rest.skip(hi - pos + 1) =~= s@.skip(hi + 1));
            }
            r.push(line);
            pos = hi + 1;
            assert(texts(r@) + lines(s@.skip(pos as int)) =~= texts(before) + (seq![line@]
                + lines(s@.skip(pos as int))));
        }
    }
    assert(s@.skip(pos as int) =~= Seq::<char>::empty());
    assert(texts(r@) + lines(s@.skip(pos as int)) =~= texts(r@));
    r
}

// ── Decimal numbers ─────────────────────────────────────────────────────────

/// The character of a decimal digit.
pub open spec fn digit_char(d: nat) -> char {
    (d + 48) as char
}

/// The number that a digit character stands for.
pub open spec fn digit_value(c: char) -> nat {
    (c as u32 - 48) as nat
}

/// `n` in decimal, without leading zeros.
pub open spec fn decimal(n: nat) -> Seq<char>
    decreases n,
{
    if n < 10 {
        seq![digit_char(n)]
    } else {
        decimal(n / 10).push(digit_char(n % 10))
    }
}

/// The number that a run of digits spells.
pub open spec fn digits_value(s: Seq<char>) -> nat
    decreases s.len(),
{
    if s.len() == 0 {
        0
    } else {
        digits_value(s.drop_last()) * 10 + digit_value(s.last())
    }
}

pub open spec fn all_digits(s: Seq<char>) -> bool {
    forall|i: int| 0 <= i < s.len() ==> is_digit(#[trigger] s[i])
}

/// An unsigned decimal number: at least one digit, after at most one `+`.
pub open spec fn unsigned_value(s: Seq<char>) -> Option<nat> {
    let body = if s.len() > 0 && s[0] == '+' {
        s.drop_first()
    } else {
        s
    };
    if body.len() > 0 && all_digits(body) {
        Some(digits_value(body))
    } else {
        None
    }
}

/// Writing a number in decimal and reading it back gives the number.
pub proof fn law_decimal_round_trip(n: nat)
    ensures
        unsigned_value(decimal(n)) == Some(n),
        all_digits(decimal(n)),
        decimal(n).len() > 0,
{
    lemma_decimal_digits(n);
    assert(is_digit(decimal(n)[0]));
}

proof fn lemma_decimal_digits(n: nat)
    ensures
        decimal(n).len() > 0,
        all_digits(decimal(n)),
        digits_value(decimal(n)) == n,
    decreases n,
{
    if n < 10 {
        let s = decimal(n);
        assert(s.drop_last() =~= Seq::<char>::empty());
        assert(digits_value(s.drop_last()) == 0);
    } else {
        lemma_decimal_digits(n / 10);
        let s = decimal(n);
        assert(s.drop_last() =~= decimal(n / 10));
        assert forall|i: int| 0 <= i < s.len() implies is_digit(#[trigger] s[i]) by {
            if i < s.len() - 1 {
                assert(s[i] == decimal(n / 10)[i]);
            }
        }
    }
}

/// `n` in decimal.
pub fn decimal_of(n: u64) -> (r: Vec<char>)
    ensures
        r@ == decimal(n as nat),
    decreases n,
{
    let d = (n % 10) as u8;
    let c = (d + 48) as char;
    if n < 10 {
        let mut r: Vec<char> = Vec::new();
        r.push(c);
        assert(r@ =~= decimal(n as nat));
        r
    } else {
        let mut r = decimal_of(n / 10);
        r.push(c);
        r
    }
}

proof fn lemma_digits_prefix(s: Seq<char>, i: int)
    requires
        0 <= i < s.len(),
    ensures
        digits_value(s.take(i + 1)) == digits_value(s.take(i)) * 10 + digit_value(s[i]),
{
    assert(s.take(i + 1).drop_last() =~= s.take(i));
}

proof fn lemma_digits_grow(s: Seq<char>, i: int)
    requires
        0 <= i <= s.len(),
    ensures
        digits_value(s.take(i)) <= digits_value(s),
    decreases s.len() - i,
{
    if i < s.len() {
        lemma_digits_prefix(s, i);
        lemma_digits_grow(s, i + 1);
    } else {
        assert(s.take(i) =~= s);
    }
}

/// Read an unsigned decimal number; `None` if the text is no such number or the
/// number does not fit 64 bits.
pub fn parse_u64(s: &Vec<char>) -> (r: Option<u64>)
    ensures
        r == (match unsigned_value(s@) {
            Some(n) => if n <= u64::MAX {
                Some(n as u64)
            } else {
                None
            },
            None => None,
        }),
{
    let mut from: usize = 0;
    if s.len() > 0 && s[0] == '+' {
        from = 1;
    }
    let ghost body = s@.skip(from as int);
    proof {
        if from == 0 {
            assert(body =~= s@);
        } else {
            assert(body =~= s@.drop_first());
        }
    }
    if from == s.len() {
        return None;
    }
    let mut i: usize = from;
    let mut n: u64 = 0;
    assert(body.take(0) =~= Seq::<char>::empty());
    while i < s.len()
        invariant
            from <= i <= s.len(),
            body == s@.skip(from as int),
            body.len() > 0,
            body == (if s@.len() > 0 && s@[0] == '+' {
                s@.drop_first()
            } else {
                s@
            }),
            forall|j: int| 0 <= j < i - from ==> is_digit(#[trigger] body[j]),
            n == digits_value(body.take(i - from)),
        decreases s.len() - i,
    {
        let c = s[i];
        assert(body[i - from] == c);
        if !('0' <= c && c <= '9') {
            return None;
        }
        let d = (c as u32 - 48) as u64;
        proof {
            lemma_digits_prefix(body, i - from);
            lemma_digits_grow(body, i - from + 1);
        }
        if n > (u64::MAX - d) / 10 {
            assert(n * 10 + d > u64::MAX);
            proof {
                if all_digits(body) {
                    assert(digits_value(body) > u64::MAX);
                }
            }
            return None;
        }
        n = n * 10 + d;
        i = i + 1;
    }
    assert(body.take(i - from) =~= body);
    Some(n)
}

} // verus!
