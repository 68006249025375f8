//! How many convolved planes may be in flight between the convolvers and the
//! writer of a cube.
use vstd::prelude::*;

use crate::fits_io::slice_text;
use crate::text::{
    chars_of, lines, parse_u64, split_lines, split_words, texts, trim, trimmed, unsigned_value,
    words,
};

verus! {

/// `rayon::current_num_threads`, the number of threads in the current thread pool.
///
/// How many there are depends on the machine and the environment.  A pool has at
/// least one thread, and at most `THREADS_MAX` = 2^16 - 1 of them.
#[verifier::external_body]
fn current_num_threads() -> (r: usize)
    ensures
        1 <= r <= 0xffff,
{
    rayon::current_num_threads()
}

/// `rayon::current_num_threads` may return `threads`: the current pool may have so
/// many.
pub closed spec fn pool_may_have(threads: usize) -> bool {
    call_ensures(current_num_threads, (), threads)
}

/// A pool has at least one thread, and fewer than 2^16.
pub proof fn law_pool_size(threads: usize)
    requires
        pool_may_have(threads),
    ensures
        1 <= threads <= 0xffff,
{
}

pub open spec fn clamped(x: int, low: int, high: int) -> int {
    if x < low {
        low
    } else if x > high {
        high
    } else {
        x
    }
}

/// Planes of `plane_bytes` that fit in `budget`, kept within `[4, ceiling]`.
pub open spec fn cap(budget: u64, plane_bytes: usize, ceiling: int) -> int {
    let plane: u64 = if plane_bytes == 0 {
        1
    } else {
        plane_bytes as u64
    };
    clamped((budget / plane) as usize as int, 4, ceiling)
}

/// How many planes fit in `budget`, at least 4 and at most `ceiling`.
pub fn cap_from_budget(budget: u64, plane_bytes: usize, ceiling: usize) -> (r: usize)
    requires
        ceiling >= 4,
    ensures
        r == cap(budget, plane_bytes, ceiling as int),
{
    let plane: u64 = if plane_bytes == 0 {
        1
    } else {
        plane_bytes as u64
    };
    let by_budget = #[verifier::truncate]
    ((budget / plane) as usize);
    if by_budget < 4 {
        4
    } else if by_budget > ceiling {
        ceiling
    } else {
        by_budget
    }
}

/// The queue never holds more bytes than the budget, beyond the four planes that
/// every queue may hold.
pub proof fn law_queue_fits_the_budget(budget: u64, plane_bytes: usize, ceiling: int)
    requires
        ceiling >= 4,
    ensures
        4 <= cap(budget, plane_bytes, ceiling) <= ceiling,
        cap(budget, plane_bytes, ceiling) > 4 && budget <= usize::MAX ==> cap(
            budget,
            plane_bytes,
            ceiling,
        ) * plane_bytes <= budget,
{
    if cap(budget, plane_bytes, ceiling) > 4 && budget <= usize::MAX && plane_bytes > 0 {
        let p = plane_bytes as int;
        let q = budget as int / p;
        assert(q <= budget && q * p <= budget) by (nonlinear_arith)
            requires
                p > 0,
                q == budget as int / p,
        ;
        let n = cap(budget, plane_bytes, ceiling);
        assert(n * p <= q * p) by (nonlinear_arith)
            requires
                n <= q,
                p > 0,
        ;
    }
}

/// The most planes that keep `threads` convolvers fed.
pub open spec fn thread_ceiling(threads: int) -> int {
    if threads * 2 > 4 {
        threads * 2
    } else {
        4
    }
}

/// Queue depth for convolved planes, for a pool of `threads` threads.
pub fn cap_for_threads(budget: u64, plane_bytes: usize, threads: usize) -> (r: usize)
    requires
        threads * 2 <= usize::MAX,
    ensures
        r == cap(budget, plane_bytes, thread_ceiling(threads as int)),
{
    let twice = threads * 2;
    cap_from_budget(
        budget,
        plane_bytes,
        if twice > 4 {
            twice
        } else {
            4
        },
    )
}

/// Queue depth for convolved planes, chosen so that the bounded channel blocks
/// before a cube is buffered whole: as many planes as fit in the budget, at most
/// two per thread of the current pool, and at least four.
///
/// How many threads the pool has depends on the machine; [`cap_for_threads`] says what
/// comes of each number of them.
pub fn channel_cap(budget: u64, plane_bytes: usize) -> (r: usize)
    ensures
        exists|threads: usize| #[trigger]
            pool_may_have(threads) && r == cap(
                budget,
                plane_bytes,
                thread_ceiling(threads as int),
            ),
{
    let threads = current_num_threads();
    assert(pool_may_have(threads));
    cap_for_threads(budget, plane_bytes, threads)
}

pub open spec fn saturated(x: int) -> u64 {
    if x > u64::MAX {
        u64::MAX
    } else {
        x as u64
    }
}

/// `a * b`, or the largest number where that does not fit.
fn times(a: u64, b: u64) -> (r: u64)
    ensures
        r == saturated(a * b),
{
    match a.checked_mul(b) {
        Some(x) => x,
        None => u64::MAX,
    }
}

/// The first line that starts with `prefix`.
pub open spec fn line_with(ls: Seq<Seq<char>>, prefix: Seq<char>) -> Option<Seq<char>>
    decreases ls.len(),
{
    if ls.len() == 0 {
        None
    } else if prefix.is_prefix_of(ls[0]) {
        Some(ls[0])
    } else {
        line_with(ls.drop_first(), prefix)
    }
}

/// The unsigned 64-bit number that a text spells.
pub open spec fn word_value(s: Seq<char>) -> Option<u64> {
    match unsigned_value(s) {
        Some(n) => if n <= u64::MAX {
            Some(n as u64)
        } else {
            None
        },
        None => None,
    }
}

/// Bytes of available memory according to the text of `/proc/meminfo`: the second
/// word of the `MemAvailable:` line, in kB.
pub open spec fn available_memory(meminfo: Seq<char>) -> Option<u64> {
    match line_with(lines(meminfo), "MemAvailable:"@) {
        None => None,
        Some(l) => if words(l).len() < 2 {
            None
        } else {
            match word_value(words(l)[1]) {
                None => None,
                Some(kb) => Some(saturated(kb * 1024)),
            }
        },
    }
}

fn has_prefix(line: &Vec<char>, prefix: &Vec<char>) -> (r: bool)
    ensures
        r == prefix@.is_prefix_of(line@),
{
    if prefix.len() > line.len() {
        return false;
    }
    let mut i: usize = 0;
    while i < prefix.len()
        invariant
            i <= prefix.len() <= line.len(),
            forall|j: int| 0 <= j < i ==> prefix@[j] == line@[j],
        decreases prefix.len() - i,
    {
        if prefix[i] != line[i] {
            assert(prefix@[i as int] != line@.subrange(0, prefix@.len() as int)[i as int]);
            return false;
        }
        i = i + 1;
    }
    assert(prefix@ =~= line@.subrange(0, prefix@.len() as int));
    true
}

/// Available system memory in bytes (see [`available_memory`]).
pub fn available_memory_bytes(meminfo: &str) -> (r: Option<u64>)
    ensures
        r == available_memory(meminfo@),
{
    let all = chars_of(meminfo);
    let rows = split_lines(&all);
    let prefix = chars_of("MemAvailable:");
    let ghost ls = lines(meminfo@);
    assert(texts(rows@) == ls);
    assert(ls.skip(0) =~= ls);
    let mut i: usize = 0;
    while i < rows.len()
        invariant
            i <= rows.len(),
            ls == lines(meminfo@),
            ls == texts(rows@),
            prefix@ == "MemAvailable:"@,
            line_with(ls, prefix@) == line_with(ls.skip(i as int), prefix@),
        decreases rows.len() - i,
    {
        assert(ls.skip(i as int)[0] == rows@[i as int]@);
        assert(ls.skip(i as int).drop_first() =~= ls.skip(i + 1));
        if has_prefix(&rows[i], &prefix) {
            let f = split_words(&rows[i]);
            assert(texts(f@) == words(rows@[i as int]@));
            if f.len() < 2 {
                return None;
            }
            assert(words(rows@[i as int]@)[1] == f@[1]@);
            return match parse_u64(&f[1]) {
                Some(kb) => Some(times(kb, 1024)),
                None => None,
            };
        }
        i = i + 1;
    }
    None
}

/// Memory budget (bytes) for the queue of planes.
///
/// A positive number of MiB in `setting` wins; otherwise a quarter of the available
/// memory, but at least 1 GiB; 4 GiB where that is not known.
pub open spec fn memory_budget(setting: Option<Seq<char>>, meminfo: Option<Seq<char>>) -> u64 {
    let wanted = match setting {
        Some(s) => match word_value(trim(s)) {
            Some(mb) => mb,
            None => 0,
        },
        None => 0,
    };
    let available = match meminfo {
        Some(m) => available_memory(m),
        None => None,
    };
    if wanted > 0 {
        saturated(wanted * 0x10_0000)
    } else {
        match available {
            None => 0x1_0000_0000,
            Some(bytes) => if bytes / 4 > 0x4000_0000 {
                bytes / 4
            } else {
                0x4000_0000
            },
        }
    }
}

/// Memory budget for the queue of planes (see [`memory_budget`]).
pub fn mem_budget_bytes(setting: Option<&str>, meminfo: Option<&str>) -> (r: u64)
    ensures
        r == memory_budget(slice_text(setting), slice_text(meminfo)),
{
    if let Some(s) = setting {
        let all = chars_of(s);
        let t = trimmed(&all);
        if let Some(mb) = parse_u64(&t) {
            if mb > 0 {
                return times(mb, 0x10_0000);
            }
        }
    }
    let available = match meminfo {
        Some(m) => available_memory_bytes(m),
        None => None,
    };
    match available {
        None => 0x1_0000_0000,
        Some(bytes) => {
            let quarter = bytes / 4;
            if quarter > 0x4000_0000 {
                quarter
            } else {
                0x4000_0000
            }
        },
    }
}

} // verus!
