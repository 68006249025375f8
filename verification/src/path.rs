//! Slash-separated paths as text: file name, stem, extension, parent and join.
//!
//! The definitions follow `std::path::Path` on Unix: repeated slashes and `.`
//! components are skipped (but for a leading `.`), a trailing slash changes
//! nothing, and `..` is not a file name.
use vstd::prelude::*;

use crate::text::{part, push_all};

verus! {

/// Length of the part of a path that no component can be removed from: the root
/// slash, or a leading `.` component.
pub open spec fn anchor(s: Seq<char>) -> int {
    if s.len() > 0 && (s[0] == '/' || (s[0] == '.' && (s.len() == 1 || s[1] == '/'))) {
        1
    } else {
        0
    }
}

/// Where the last component of `s` starts, looking no further back than `b`.
pub open spec fn component_start(s: Seq<char>, b: int) -> int
    decreases s.len(),
{
    if s.len() <= b || s.len() == 0 || s.last() == '/' {
        s.len() as int
    } else {
        component_start(s.drop_last(), b)
    }
}

/// The last component of `s` behind its anchor `b`.
pub open spec fn last_component(s: Seq<char>, b: int) -> Seq<char> {
    s.skip(component_start(s, b))
}

/// `s` without its last component and the slash in front of it.
pub open spec fn without_last(s: Seq<char>, b: int) -> Seq<char> {
    let c = component_start(s, b);
    if c > b {
        s.take(c - 1)
    } else {
        s.take(b)
    }
}

pub proof fn lemma_component_start(s: Seq<char>, b: int)
    requires
        0 <= b <= s.len(),
    ensures
        b <= component_start(s, b) <= s.len(),
        forall|i: int| component_start(s, b) <= i < s.len() ==> #[trigger] s[i] != '/',
        component_start(s, b) > b ==> s[component_start(s, b) - 1] == '/',
    decreases s.len(),
{
    if !(s.len() <= b || s.last() == '/') {
        let t = s.drop_last();
        lemma_component_start(t, b);
        assert forall|i: int| component_start(s, b) <= i < s.len() implies #[trigger] s[i]
            != '/' by {
            if i < s.len() - 1 {
                assert(t[i] == s[i]);
            }
        }
    }
}

/// `s` without trailing components that name nothing (empty or `.`).
pub open spec fn trim_tail(s: Seq<char>, b: int) -> Seq<char>
    decreases s.len(),
{
    if 0 <= b < s.len() && (last_component(s, b).len() == 0 || last_component(s, b) == seq!['.']) {
        proof {
            lemma_component_start(s, b);
        }
        trim_tail(without_last(s, b), b)
    } else {
        s
    }
}

/// The final component of a path, unless it ends in `..` or has no component.
pub open spec fn file_name(s: Seq<char>) -> Option<Seq<char>> {
    let b = anchor(s);
    let t = trim_tail(s, b);
    if t.len() <= b || last_component(t, b) == seq!['.', '.'] {
        None
    } else {
        Some(last_component(t, b))
    }
}

/// The path without its final component; `None` for the root and the empty path.
pub open spec fn parent(s: Seq<char>) -> Option<Seq<char>> {
    let b = anchor(s);
    let t = trim_tail(s, b);
    if t.len() > b {
        Some(trim_tail(without_last(t, b), b))
    } else if s.len() > 0 && s[0] == '.' {
        Some(Seq::empty())
    } else {
        None
    }
}

/// Position of the last dot, or -1.
pub open spec fn last_dot(s: Seq<char>) -> int
    decreases s.len(),
{
    if s.len() == 0 {
        -1
    } else if s.last() == '.' {
        s.len() - 1
    } else {
        last_dot(s.drop_last())
    }
}

/// The file name before its last dot; the whole name where the only dot leads.
pub open spec fn file_stem(s: Seq<char>) -> Option<Seq<char>> {
    match file_name(s) {
        Some(f) => if last_dot(f) <= 0 {
            Some(f)
        } else {
            Some(f.take(last_dot(f)))
        },
        None => None,
    }
}

/// The file name after its last dot; none where the only dot leads.
pub open spec fn extension(s: Seq<char>) -> Option<Seq<char>> {
    match file_name(s) {
        Some(f) => if last_dot(f) <= 0 {
            None
        } else {
            Some(f.skip(last_dot(f) + 1))
        },
        None => None,
    }
}

/// `name` inside the directory `dir`; an absolute `name` stands for itself.
pub open spec fn join(dir: Seq<char>, name: Seq<char>) -> Seq<char> {
    if name.len() > 0 && name[0] == '/' {
        name
    } else if dir.len() == 0 || dir.last() == '/' {
        dir + name
    } else {
        dir.push('/') + name
    }
}

proof fn lemma_trim_tail(s: Seq<char>, b: int)
    requires
        0 <= b <= s.len(),
    ensures
        b <= trim_tail(s, b).len() <= s.len(),
        trim_tail(s, b).len() > b ==> last_component(trim_tail(s, b), b).len() > 0,
        trim_tail(s, b).len() > b ==> last_component(trim_tail(s, b), b) != seq!['.'],
    decreases s.len(),
{
    if b < s.len() && (last_component(s, b).len() == 0 || last_component(s, b) == seq!['.']) {
        lemma_component_start(s, b);
        lemma_trim_tail(without_last(s, b), b);
    }
}

/// A file name is a single component that names something.
pub proof fn law_file_name_is_a_component(s: Seq<char>)
    ensures
        file_name(s) matches Some(f) ==> f.len() > 0 && f != seq!['.'] && f != seq!['.', '.']
            && !f.contains('/'),
{
    let b = anchor(s);
    let t = trim_tail(s, b);
    lemma_trim_tail(s, b);
    lemma_component_start(t, b);
    let f = last_component(t, b);
    if f.contains('/') {
        let i = choose|i: int| 0 <= i < f.len() && f[i] == '/';
        assert(f[i] == t[i + component_start(t, b)]);
    }
}

proof fn lemma_component_after_slash(p: Seq<char>, name: Seq<char>, b: int)
    requires
        !name.contains('/'),
        0 <= b <= p.len(),
        p.len() == 0 || p.last() == '/' || p.len() == b,
    ensures
        component_start(p + name, b) == p.len(),
    decreases name.len(),
{
    let s = p + name;
    if name.len() == 0 {
        assert(s =~= p);
    } else {
        assert(s.last() == name.last());
        assert(name.contains(name.last()));
        assert(s.drop_last() =~= p + name.drop_last());
        assert forall|c: char| name.drop_last().contains(c) implies name.contains(c) by {
            let i = choose|i: int| 0 <= i < name.drop_last().len() && name.drop_last()[i] == c;
            assert(name[i] == c);
        }
        lemma_component_after_slash(p, name.drop_last(), b);
    }
}

/// The file name of `name` inside a directory is `name`.
pub proof fn law_joined_file_name(dir: Seq<char>, name: Seq<char>)
    requires
        name.len() > 0,
        !name.contains('/'),
        name != seq!['.'],
        name != seq!['.', '.'],
    ensures
        file_name(join(dir, name)) == Some(name),
{
    let s = join(dir, name);
    let b = anchor(s);
    assert(name.contains(name[0]));
    let p = if dir.len() == 0 || dir.last() == '/' {
        dir
    } else {
        dir.push('/')
    };
    assert(s == p + name);
    if p.len() == 0 {
        assert(s =~= name);
        if s.len() == 1 && s[0] == '.' {
            assert(name =~= seq!['.']);
        }
        if s.len() > 1 {
            assert(name.contains(s[1]));
        }
        assert(b == 0);
    }
    lemma_component_after_slash(p, name, b);
    assert(last_component(s, b) =~= name);
}

proof fn lemma_trim_tail_is_a_prefix(s: Seq<char>, b: int)
    requires
        0 <= b <= s.len(),
    ensures
        b <= trim_tail(s, b).len() <= s.len(),
        trim_tail(s, b) == s.take(trim_tail(s, b).len() as int),
    decreases s.len(),
{
    if b < s.len() && (last_component(s, b).len() == 0 || last_component(s, b) == seq!['.']) {
        lemma_component_start(s, b);
        let w = without_last(s, b);
        lemma_trim_tail_is_a_prefix(w, b);
        let n = trim_tail(w, b).len() as int;
        assert(w.take(n) =~= s.take(n));
    } else {
        assert(s =~= s.take(s.len() as int));
    }
}

/// Another file in the directory of a file has the same parent.
pub proof fn law_sibling_has_the_same_parent(s: Seq<char>, name: Seq<char>)
    requires
        file_name(s) is Some,
        name.len() > 0,
        !name.contains('/'),
        name != seq!['.'],
    ensures
        parent(s) is Some,
        parent(join(parent(s)->0, name)) == parent(s),
{
    let b = anchor(s);
    let t = trim_tail(s, b);
    lemma_trim_tail_is_a_prefix(s, b);
    lemma_component_start(t, b);
    let w = without_last(t, b);
    lemma_trim_tail_is_a_prefix(w, b);
    lemma_trim_tail(w, b);
    let dir = trim_tail(w, b);
    assert(parent(s) == Some(dir));
    assert forall|i: int| 0 <= i < dir.len() implies dir[i] == s[i] by {
        assert(dir[i] == w[i] && w[i] == t[i] && t[i] == s[i]);
    }
    assert(name.contains(name[0]));
    let front = if dir.len() == 0 || dir.last() == '/' {
        dir
    } else {
        dir.push('/')
    };
    let out = join(dir, name);
    assert(out == front + name);
    if dir.len() > b && dir.last() == '/' {
        lemma_component_start(dir, b);
        assert(last_component(dir, b).len() == 0);
    }
    if dir.len() == 0 {
        assert(out =~= name);
        if name.len() == 1 && name[0] == '.' {
            assert(name =~= seq!['.']);
        }
        if name.len() > 1 {
            assert(name.contains(name[1]));
        }
    } else if b == 0 && dir.len() == 1 && dir[0] == '.' {
        assert(component_start(dir, 0) == 0) by {
            assert(component_start(dir.drop_last(), 0) == 0);
        }
        assert(last_component(dir, 0) =~= seq!['.']);
    } else if dir.len() > 1 {
        assert(out[1] == dir[1]);
    }
    assert(anchor(out) == b);
    lemma_component_after_slash(front, name, b);
    assert(last_component(out, b) =~= name);
    assert(without_last(out, b) =~= dir);
}

proof fn lemma_last_dot(s: Seq<char>)
    ensures
        -1 <= last_dot(s) < s.len(),
        last_dot(s) >= 0 ==> s[last_dot(s)] == '.',
        forall|i: int| last_dot(s) < i < s.len() ==> #[trigger] s[i] != '.',
    decreases s.len(),
{
    if s.len() > 0 && s.last() != '.' {
        let t = s.drop_last();
        lemma_last_dot(t);
        assert forall|i: int| last_dot(s) < i < s.len() implies #[trigger] s[i] != '.' by {
            if i < t.len() {
                assert(t[i] == s[i]);
            }
        }
    }
}

proof fn lemma_last_dot_is(s: Seq<char>, k: int)
    requires
        0 <= k < s.len(),
        s[k] == '.',
        forall|i: int| k < i < s.len() ==> #[trigger] s[i] != '.',
    ensures
        last_dot(s) == k,
    decreases s.len(),
{
    if k < s.len() - 1 {
        assert(s.last() != '.');
        let t = s.drop_last();
        assert forall|i: int| k < i < t.len() implies #[trigger] t[i] != '.' by {
            assert(t[i] == s[i]);
        }
        lemma_last_dot_is(t, k);
    }
}

/// A stem is not empty, an extension holds no dot, and the
/// two make up the file name.
pub proof fn law_stem_and_extension(s: Seq<char>)
    ensures
        extension(s) matches Some(e) ==> !e.contains('.') && file_name(s) == Some(
            file_stem(s)->0 + seq!['.'] + e,
        ),
        extension(s) is None ==> file_name(s) == file_stem(s),
        file_stem(s) matches Some(t) ==> t.len() > 0,
{
    law_file_name_is_a_component(s);
    if let Some(f) = file_name(s) {
        lemma_last_dot(f);
        if last_dot(f) > 0 {
            let e = f.skip(last_dot(f) + 1);
            if e.contains('.') {
                let i = choose|i: int| 0 <= i < e.len() && e[i] == '.';
                assert(e[i] == f[i + last_dot(f) + 1]);
            }
            assert(f =~= f.take(last_dot(f)) + seq!['.'] + e);
        }
    }
}

/// A path in a directory made of a stem, a dot and an extension has that stem and
/// that extension.
pub proof fn law_joined_stem_and_extension(dir: Seq<char>, stem: Seq<char>, ext: Seq<char>)
    requires
        stem.len() > 0,
        !stem.contains('/'),
        !ext.contains('/'),
        !ext.contains('.'),
        stem != seq!['.'] || ext.len() > 0,
    ensures
        file_stem(join(dir, stem + seq!['.'] + ext)) == Some(stem),
        extension(join(dir, stem + seq!['.'] + ext)) == Some(ext),
{
    let name = stem + seq!['.'] + ext;
    let k = stem.len() as int;
    if name.contains('/') {
        let i = choose|i: int| 0 <= i < name.len() && name[i] == '/';
        if i < k {
            assert(stem[i] == '/');
        } else {
            assert(i > k);
            assert(ext[i - k - 1] == '/');
        }
    }
    if name == seq!['.', '.'] {
        assert(stem =~= seq![name[0]]);
    }
    law_joined_file_name(dir, name);
    assert forall|i: int| k < i < name.len() implies #[trigger] name[i] != '.' by {
        assert(ext[i - k - 1] == name[i]);
    }
    assert(name[k] == '.');
    lemma_last_dot_is(name, k);
    assert(name.take(k) =~= stem);
    assert(name.skip(k + 1) =~= ext);
}

fn anchor_len(s: &Vec<char>) -> (r: usize)
    ensures
        r == anchor(s@),
        r <= s.len(),
{
    if s.len() > 0 && (s[0] == '/' || (s[0] == '.' && (s.len() == 1 || s[1] == '/'))) {
        1
    } else {
        0
    }
}

/// Where the last component of the first `len` characters starts.
fn component_start_of(s: &Vec<char>, len: usize, b: usize) -> (r: usize)
    requires
        b <= len <= s.len(),
    ensures
        r == component_start(s@.take(len as int), b as int),
        b <= r <= len,
{
    let mut i: usize = len;
    while i > b && s[i - 1] != '/'
        invariant
            b <= i <= len <= s.len(),
            component_start(s@.take(len as int), b as int) == component_start(
                s@.take(i as int),
                b as int,
            ),
        decreases i,
    {
        assert(s@.take(i as int).drop_last() =~= s@.take(i - 1));
        i = i - 1;
    }
    proof {
        if i > b {
            assert(s@.take(i as int).last() == '/');
        }
    }
    i
}

/// Length of the path once trailing components that name nothing are gone.
fn tail_trimmed(s: &Vec<char>, len: usize, b: usize) -> (r: usize)
    requires
        b <= len <= s.len(),
    ensures
        b <= r <= len,
        s@.take(r as int) == trim_tail(s@.take(len as int), b as int),
    decreases len,
{
    if len == b {
        return len;
    }
    let ghost t = s@.take(len as int);
    let c = component_start_of(s, len, b);
    let idle = c == len || (c + 1 == len && s[c] == '.');
    proof {
        let comp = last_component(t, b as int);
        assert(comp.len() == len - c);
        if c + 1 == len {
            assert(comp[0] == s@[c as int]);
            if s@[c as int] == '.' {
                assert(comp =~= seq!['.']);
            } else {
                assert(comp != seq!['.']) by {
                    assert(seq!['.'][0] == '.');
                }
            }
        }
        assert(idle == (comp.len() == 0 || comp == seq!['.'])) by {
            assert(seq!['.'].len() == 1);
        }
    }
    if !idle {
        return len;
    }
    if c > b {
        assert(t.take(c - 1) =~= s@.take(c - 1));
        tail_trimmed(s, c - 1, b)
    } else {
        assert(t.take(b as int) =~= s@.take(b as int));
        tail_trimmed(s, b, b)
    }
}

/// The final component of a path (see [`file_name`]).
pub fn file_name_of(s: &Vec<char>) -> (r: Option<Vec<char>>)
    ensures
        match file_name(s@) {
            Some(f) => r matches Some(v) && v@ == f,
            None => r is None,
        },
{
    let b = anchor_len(s);
    assert(s@.take(s@.len() as int) =~= s@);
    let len = tail_trimmed(s, s.len(), b);
    if len == b {
        return None;
    }
    let c = component_start_of(s, len, b);
    let ghost comp = last_component(s@.take(len as int), b as int);
    let name = part(s, c, len);
    assert(name@ =~= comp);
    if name.len() == 2 && name[0] == '.' && name[1] == '.' {
        assert(name@ =~= seq!['.', '.']);
        None
    } else {
        proof {
            let dots = seq!['.', '.'];
            assert(dots.len() == 2 && dots[0] == '.' && dots[1] == '.');
            assert(comp != dots);
        }
        Some(name)
    }
}

/// The path without its final component (see [`parent`]).
pub fn parent_of(s: &Vec<char>) -> (r: Option<Vec<char>>)
    ensures
        match parent(s@) {
            Some(p) => r matches Some(v) && v@ == p,
            None => r is None,
        },
{
    let b = anchor_len(s);
    assert(s@.take(s@.len() as int) =~= s@);
    let len = tail_trimmed(s, s.len(), b);
    let ghost t = s@.take(len as int);
    if len > b {
        let c = component_start_of(s, len, b);
        let cut = if c > b {
            c - 1
        } else {
            b
        };
        assert(without_last(t, b as int) =~= s@.take(cut as int));
        let end = tail_trimmed(s, cut, b);
        let dir = part(s, 0, end);
        assert(dir@ =~= s@.take(end as int));
        Some(dir)
    } else if s.len() > 0 && s[0] == '.' {
        let dir: Vec<char> = Vec::new();
        assert(dir@ =~= Seq::<char>::empty());
        Some(dir)
    } else {
        None
    }
}

fn last_dot_of(f: &Vec<char>) -> (r: Option<usize>)
    ensures
        match r {
            Some(d) => d == last_dot(f@) && d < f.len(),
            None => last_dot(f@) == -1,
        },
{
    let mut i: usize = f.len();
    assert(f@.take(f@.len() as int) =~= f@);
    while i > 0
        invariant
            i <= f.len(),
            last_dot(f@) == last_dot(f@.take(i as int)),
        decreases i,
    {
        if f[i - 1] == '.' {
            assert(f@.take(i as int).last() == '.');
            return Some(i - 1);
        }
        assert(f@.take(i as int).drop_last() =~= f@.take(i - 1));
        i = i - 1;
    }
    None
}

/// The file name before its last dot (see [`file_stem`]).
pub fn file_stem_of(s: &Vec<char>) -> (r: Option<Vec<char>>)
    ensures
        match file_stem(s@) {
            Some(f) => r matches Some(v) && v@ == f,
            None => r is None,
        },
{
    match file_name_of(s) {
        Some(f) => match last_dot_of(&f) {
            Some(d) => if d == 0 {
                Some(f)
            } else {
                let stem = part(&f, 0, d);
                assert(stem@ =~= f@.take(d as int));
                Some(stem)
            },
            None => Some(f),
        },
        None => None,
    }
}

/// The file name after its last dot (see [`extension`]).
pub fn extension_of(s: &Vec<char>) -> (r: Option<Vec<char>>)
    ensures
        match extension(s@) {
            Some(e) => r matches Some(v) && v@ == e,
            None => r is None,
        },
{
    match file_name_of(s) {
        Some(f) => match last_dot_of(&f) {
            Some(d) => if d == 0 {
                None
            } else {
                let n = f.len();
                let ext = part(&f, d + 1, n);
                assert(ext@ =~= f@.skip(d + 1));
                Some(ext)
            },
            None => None,
        },
        None => None,
    }
}

/// `name` inside the directory `dir` (see [`join`]).
pub fn joined(dir: &Vec<char>, name: &Vec<char>) -> (r: Vec<char>)
    ensures
        r@ == join(dir@, name@),
{
    let mut r: Vec<char> = Vec::new();
    if !(name.len() > 0 && name[0] == '/') {
        push_all(&mut r, dir);
        assert(r@ =~= dir@);
        if dir.len() > 0 && dir[dir.len() - 1] != '/' {
            r.push('/');
        }
    }
    push_all(&mut r, name);
    assert(r@ =~= join(dir@, name@));
    r
}

} // verus!
