//! Laws of text.
use vstd::prelude::*;

use crate::text::{
    decimal, decimal_of, is_digit, is_space, is_whitespace, lemma_run_len, lemma_run_len_is,
    lemma_trim_front_len, lines, parse_u64, run_len, split_lines, split_words, texts, trim,
    trim_back, trim_front, trim_quotes, trimmed, unquoted, unsigned_value, uppercased, words,
};

verus! {

/// White space is what Unicode calls so.
pub proof fn law_white_space(c: char, r: bool)
    requires
        call_ensures(is_whitespace, (c,), r),
    ensures
        r <==> ({
            let u = c as u32;
            ||| 0x9 <= u <= 0xd || u == 0x20 || u == 0x85 || u == 0xa0 || u == 0x1680
            ||| 0x2000 <= u <= 0x200a || u == 0x2028 || u == 0x2029 || u == 0x202f
            ||| u == 0x205f || u == 0x3000
        }),
        r == is_space(c),
{
}

// ── Trimming ────────────────────────────────────────────────────────────────

proof fn lemma_trim_both(s: Seq<char>, p: spec_fn(char) -> bool) -> (ends: (int, int))
    ensures
        0 <= ends.0 <= ends.1 <= s.len(),
        trim_back(trim_front(s, p), p) == s.subrange(ends.0, ends.1),
        forall|i: int| 0 <= i < ends.0 ==> p(#[trigger] s[i]),
        forall|i: int| ends.1 <= i < s.len() ==> p(#[trigger] s[i]),
        ends.0 < ends.1 ==> !p(s[ends.0]) && !p(s[ends.1 - 1]),
{
    let a = lemma_trim_start(s, p);
    let t = s.skip(a);
    let b = lemma_trim_end(t, p);
    assert(t.take(b) =~= s.subrange(a, a + b));
    assert forall|i: int| a + b <= i < s.len() implies p(#[trigger] s[i]) by {
        assert(t[i - a] == s[i]);
    }
    if b > 0 {
        assert(t[0] == s[a] && t[b - 1] == s[a + b - 1]);
    }
    (a, a + b)
}

proof fn lemma_trim_start(s: Seq<char>, p: spec_fn(char) -> bool) -> (a: int)
    ensures
        0 <= a <= s.len(),
        trim_front(s, p) == s.skip(a),
        forall|i: int| 0 <= i < a ==> p(#[trigger] s[i]),
        a < s.len() ==> !p(s[a]),
    decreases s.len(),
{
    if s.len() > 0 && p(s[0]) {
        let rest = s.drop_first();
        let a = lemma_trim_start(rest, p);
        assert(rest.skip(a) =~= s.skip(a + 1));
        assert forall|i: int| 0 <= i < a + 1 implies p(#[trigger] s[i]) by {
            if i > 0 {
                assert(rest[i - 1] == s[i]);
            }
        }
        if a < rest.len() {
            assert(rest[a] == s[a + 1]);
        }
        a + 1
    } else {
        assert(s.skip(0) =~= s);
        0
    }
}

proof fn lemma_trim_end(s: Seq<char>, p: spec_fn(char) -> bool) -> (b: int)
    ensures
        0 <= b <= s.len(),
        trim_back(s, p) == s.take(b),
        forall|i: int| b <= i < s.len() ==> p(#[trigger] s[i]),
        b > 0 ==> !p(s[b - 1]),
    decreases s.len(),
{
    if s.len() > 0 && p(s.last()) {
        let front = s.drop_last();
        let b = lemma_trim_end(front, p);
        assert(front.take(b) =~= s.take(b));
        assert forall|i: int| b <= i < s.len() implies p(#[trigger] s[i]) by {
            if i < front.len() {
                assert(front[i] == s[i]);
            }
        }
        b
    } else {
        assert(s.take(s.len() as int) =~= s);
        s.len() as int
    }
}

/// A trimmed text is the part of the text from its first to its last character that is
/// not white space.
pub proof fn law_trimmed(s: Vec<char>, r: Vec<char>) -> (ends: (int, int))
    requires
        call_ensures(trimmed, (&s,), r),
    ensures
        0 <= ends.0 <= ends.1 <= s@.len(),
        r@ == s@.subrange(ends.0, ends.1),
        forall|i: int| 0 <= i < ends.0 ==> is_space(#[trigger] s@[i]),
        forall|i: int| ends.1 <= i < s@.len() ==> is_space(#[trigger] s@[i]),
        ends.0 < ends.1 ==> !is_space(s@[ends.0]) && !is_space(s@[ends.1 - 1]),
        r@ == trim(s@),
{
    lemma_trim_both(s@, |c: char| is_space(c))
}

/// An unquoted text is the part of the text from its first to its last character that is
/// not a single quote.
pub proof fn law_unquoted(s: Vec<char>, r: Vec<char>) -> (ends: (int, int))
    requires
        call_ensures(unquoted, (&s,), r),
    ensures
        0 <= ends.0 <= ends.1 <= s@.len(),
        r@ == s@.subrange(ends.0, ends.1),
        forall|i: int| 0 <= i < ends.0 ==> (#[trigger] s@[i]) == '\'',
        forall|i: int| ends.1 <= i < s@.len() ==> (#[trigger] s@[i]) == '\'',
        ends.0 < ends.1 ==> s@[ends.0] != '\'' && s@[ends.1 - 1] != '\'',
        r@ == trim_quotes(s@),
{
    lemma_trim_both(s@, |c: char| crate::text::is_quote(c))
}

/// Upper case moves the letters `a` to `z` to `A` to `Z`, and nothing else.
pub proof fn law_upper_case(s: Vec<char>, r: Vec<char>, i: int)
    requires
        call_ensures(uppercased, (&s,), r),
        0 <= i < s@.len(),
    ensures
        r@.len() == s@.len(),
        'a' <= s@[i] <= 'z' ==> r@[i] as u32 == s@[i] as u32 - 32,
        !('a' <= s@[i] <= 'z') ==> r@[i] == s@[i],
{
}

// ── Words and lines ─────────────────────────────────────────────────────────

proof fn lemma_trim_front_settles(s: Seq<char>)
    ensures
        trim_front(trim_front(s, |c: char| is_space(c)), |c: char| is_space(c)) == trim_front(
            s,
            |c: char| is_space(c),
        ),
        words(trim_front(s, |c: char| is_space(c))) == words(s),
{
    lemma_trim_front_len(s, |c: char| is_space(c));
}

proof fn lemma_trim_front_joined(a: Seq<char>, c: char, b: Seq<char>)
    requires
        is_space(c),
    ensures
        ({
            let p = |d: char| is_space(d);
            let t = trim_front(a, p);
            trim_front(a.push(c) + b, p) == if t.len() == 0 {
                trim_front(b, p)
            } else {
                t.push(c) + b
            }
        }),
    decreases a.len(),
{
    let p = |d: char| is_space(d);
    let s = a.push(c) + b;
    if a.len() == 0 {
        assert(s.drop_first() =~= b);
    } else if p(a[0]) {
        assert(s.drop_first() =~= a.drop_first().push(c) + b);
        lemma_trim_front_joined(a.drop_first(), c, b);
    }
}

proof fn lemma_words_joined(a: Seq<char>, c: char, b: Seq<char>)
    requires
        is_space(c),
    ensures
        words(a.push(c) + b) == words(a) + words(b),
    decreases a.len(),
{
    let p = |d: char| is_space(d);
    let t = trim_front(a, p);
    let s = a.push(c) + b;
    lemma_trim_front_joined(a, c, b);
    lemma_trim_front_settles(s);
    lemma_trim_front_settles(b);
    lemma_trim_front_len(a, p);
    if t.len() == 0 {
        assert(words(a) =~= Seq::<Seq<char>>::empty());
        assert(words(a) + words(b) =~= words(b));
    } else {
        lemma_run_len(t, p);
        let n = run_len(t, p) as int;
        let u = t.push(c) + b;
        assert forall|i: int| 0 <= i < n implies !p(#[trigger] u[i]) by {
            assert(u[i] == t[i]);
        }
        if n < t.len() {
            assert(u[n] == t[n]);
        } else {
            assert(u[n] == c);
        }
        lemma_run_len_is(u, p, n as nat);
        assert(u.take(n) =~= t.take(n));
        let rest = t.skip(n);
        assert(u.skip(n) =~= rest.push(c) + b);
        assert(n > 0) by {
            assert(!p(t[0]));
        }
        lemma_words_joined(rest, c, b);
        assert(seq![t.take(n)] + (words(rest) + words(b)) =~= (seq![t.take(n)] + words(rest))
            + words(b));
    }
}

/// Words are what white space parts: a text without white space is one word, an empty
/// one is none, and the words of two texts with white space between them are those of
/// the first and then those of the second.
pub proof fn law_words(
    a: Vec<char>,
    c: char,
    b: Vec<char>,
    s: Vec<char>,
    ra: Vec<Vec<char>>,
    rb: Vec<Vec<char>>,
    r: Vec<Vec<char>>,
)
    requires
        is_space(c),
        s@ == a@ + seq![c] + b@,
        call_ensures(split_words, (&a,), ra),
        call_ensures(split_words, (&b,), rb),
        call_ensures(split_words, (&s,), r),
    ensures
        texts(r@) == texts(ra@) + texts(rb@),
        a@.len() == 0 ==> ra@.len() == 0,
        a@.len() > 0 && (forall|i: int| 0 <= i < a@.len() ==> !is_space(#[trigger] a@[i]))
            ==> ra@.len() == 1 && ra@[0]@ == a@,
        texts(r@) == words(s@),
{
    assert(s@ =~= a@.push(c) + b@);
    lemma_words_joined(a@, c, b@);
    let p = |d: char| is_space(d);
    if a@.len() == 0 {
        assert(words(a@).len() == 0);
        assert(texts(ra@).len() == ra@.len());
    } else if forall|i: int| 0 <= i < a@.len() ==> !is_space(#[trigger] a@[i]) {
        assert(!is_space(a@[0]));
        lemma_run_len_is(a@, p, a@.len());
        assert(a@.take(a@.len() as int) =~= a@);
        assert(a@.skip(a@.len() as int) =~= Seq::<char>::empty());
        assert(words(Seq::<char>::empty()).len() == 0);
        assert(words(a@) =~= seq![a@]);
        assert(texts(ra@)[0] == a@);
    }
}

/// Lines end at line feeds, and a carriage return in front of one goes with it: the lines
/// of a text are what stands before its first line feed, and then the lines of what
/// stands behind it.  What stands behind the last line feed is a line where it is not
/// empty.
pub proof fn law_lines(
    l: Seq<char>,
    rest: Vec<char>,
    s: Vec<char>,
    last: Vec<char>,
    rrest: Vec<Vec<char>>,
    r: Vec<Vec<char>>,
    rlast: Vec<Vec<char>>,
)
    requires
        !l.contains('\n'),
        last@ == l,
        s@ == l + seq!['\n'] + rest@,
        call_ensures(split_lines, (&rest,), rrest),
        call_ensures(split_lines, (&s,), r),
        call_ensures(split_lines, (&last,), rlast),
    ensures
        texts(r@) == seq![
            if l.len() > 0 && l.last() == '\r' {
                l.drop_last()
            } else {
                l
            },
        ] + texts(rrest@),
        l.len() == 0 ==> rlast@.len() == 0,
        l.len() > 0 ==> rlast@.len() == 1 && rlast@[0]@ == l,
        texts(r@) == lines(s@),
{
    let p = |c: char| c == '\n';
    let n = l.len() as int;
    assert forall|i: int| 0 <= i < n implies !p(#[trigger] s@[i]) by {
        assert(s@[i] == l[i]);
        assert(l.contains(l[i]));
    }
    assert(s@[n] == '\n');
    lemma_run_len_is(s@, p, n as nat);
    assert(s@.take(n) =~= l);
    assert(s@.skip(n + 1) =~= rest@);
    if n > 0 {
        assert forall|i: int| 0 <= i < n implies !p(#[trigger] l[i]) by {
            assert(l.contains(l[i]));
        }
        lemma_run_len_is(l, p, n as nat);
        assert(lines(l) =~= seq![l]);
        assert(texts(rlast@)[0] == l);
    } else {
        assert(lines(l).len() == 0);
        assert(texts(rlast@).len() == rlast@.len());
    }
}

// ── Numbers ─────────────────────────────────────────────────────────────────

/// Reading a number goes digit by digit: a further digit makes it ten times as large and
/// adds itself, a single digit is itself, one sign `+` may stand in front, and anything
/// else is no number.
pub proof fn law_digits(s: Seq<char>, c: char)
    ensures
        is_digit(c) <==> 0x30 <= c as u32 <= 0x39,
        is_digit(c) && unsigned_value(s) is Some ==> unsigned_value(s.push(c)) == Some(
            (unsigned_value(s)->0 * 10 + (c as u32 - 0x30)) as nat,
        ),
        is_digit(c) ==> unsigned_value(seq![c]) == Some((c as u32 - 0x30) as nat),
        unsigned_value(s) is Some && s[0] != '+' ==> unsigned_value(seq!['+'] + s)
            == unsigned_value(s),
        !is_digit(c) ==> unsigned_value(s.push(c)) is None,
        s.len() == 0 ==> unsigned_value(s) is None,
{
    let plus = s.len() > 0 && s[0] == '+';
    let body = if plus {
        s.drop_first()
    } else {
        s
    };
    let more = s.push(c);
    if s.len() > 0 {
        assert(more[0] == s[0]);
        let longer = if plus {
            more.drop_first()
        } else {
            more
        };
        assert(longer =~= body.push(c));
        assert(longer.drop_last() =~= body);
        assert(longer[longer.len() - 1] == c);
        if crate::text::all_digits(body) && is_digit(c) {
            assert forall|i: int| 0 <= i < longer.len() implies is_digit(#[trigger] longer[i]) by {
                if i < body.len() {
                    assert(longer[i] == body[i]);
                }
            }
        }
    } else {
        assert(more =~= seq![c]);
        if !is_digit(c) {
            assert(more[0] == c);
            if c == '+' {
                assert(more.drop_first().len() == 0);
            } else {
                assert(!crate::text::all_digits(more));
            }
        }
    }
    let one = seq![c];
    if is_digit(c) {
        assert(one[0] == c);
        assert(one.drop_last().len() == 0);
        assert(crate::text::digits_value(one.drop_last()) == 0);
    }
    assert((seq!['+'] + s).drop_first() =~= s);
}

/// Parsing gives the number that the text spells where it fits 64 bits, and printing a
/// number gives the text that spells it.
pub proof fn law_numbers(s: Vec<char>, r: Option<u64>, n: u64, printed: Vec<char>)
    requires
        call_ensures(parse_u64, (&s,), r),
        call_ensures(decimal_of, (n,), printed),
    ensures
        r matches Some(x) ==> unsigned_value(s@) == Some(x as nat),
        r is None ==> (unsigned_value(s@) matches Some(x) ==> x > u64::MAX),
        unsigned_value(printed@) == Some(n as nat),
        printed@ == decimal(n as nat),
        printed@.len() > 0 && is_digit(printed@[0]),
        n > 0 ==> printed@[0] != '0',
        n == 0 ==> printed@.len() == 1,
{
    crate::text::law_decimal_round_trip(n as nat);
    assert(is_digit(printed@[0]));
    lemma_no_leading_zero(n as nat);
}

proof fn lemma_no_leading_zero(n: nat)
    ensures
        decimal(n).len() > 0,
        n > 0 ==> decimal(n)[0] != '0',
    decreases n,
{
    if n >= 10 {
        lemma_no_leading_zero(n / 10);
    }
}

} // verus!
