//! Laws of the memory budget.
use vstd::prelude::*;

use crate::queue::{
    available_memory_bytes, cap_for_threads, cap_from_budget, channel_cap, line_with,
    mem_budget_bytes, pool_may_have, word_value,
};
use crate::text::{lines, trim, unsigned_value, words};

verus! {

/// The queue holds as many planes as fit in the budget, at least four, and at most the
/// ceiling.
pub proof fn law_queue_depth(budget: u64, plane_bytes: usize, ceiling: usize, r: usize)
    requires
        call_ensures(cap_from_budget, (budget, plane_bytes, ceiling), r),
        ceiling >= 4,
        budget <= usize::MAX,
    ensures
        4 <= r <= ceiling,
        plane_bytes > 0 && r > 4 ==> r * plane_bytes <= budget,
        plane_bytes > 0 && r < ceiling ==> budget < (r + 1) * plane_bytes,
        plane_bytes == 0 && r < ceiling ==> budget <= r,
{
    if plane_bytes > 0 {
        let p = plane_bytes as int;
        let q = budget as int / p;
        vstd::arithmetic::div_mod::lemma_fundamental_div_mod(budget as int, p);
        vstd::arithmetic::div_mod::lemma_mod_bound(budget as int, p);
        assert(q <= budget && q * p <= budget && budget < (q + 1) * p && q >= 0) by (nonlinear_arith)
            requires
                budget == p * q + budget as int % p,
                0 <= budget as int % p < p,
                p > 0,
        ;
        if r <= q {
            assert(r * p <= q * p) by (nonlinear_arith)
                requires
                    r <= q,
                    p > 0,
            ;
        }
        if q <= r {
            assert((q + 1) * p <= (r + 1) * p) by (nonlinear_arith)
                requires
                    q <= r,
                    p > 0,
            ;
        }
    }
}

/// The ceiling for a pool is two planes per thread, and four for the smallest pools.
pub proof fn law_queue_for_a_pool(
    budget: u64,
    plane_bytes: usize,
    threads: usize,
    r: usize,
    ceiling: usize,
    s: usize,
)
    requires
        call_ensures(cap_for_threads, (budget, plane_bytes, threads), r),
        ceiling == 2 * threads || (ceiling == 4 && threads < 2),
        ceiling >= 4,
        call_ensures(cap_from_budget, (budget, plane_bytes, ceiling), s),
    ensures
        r == s,
{
}

/// The queue of a run is that of the pool that it runs in.
pub proof fn law_queue_of_the_current_pool(budget: u64, plane_bytes: usize, r: usize) -> (threads:
    usize)
    requires
        call_ensures(channel_cap, (budget, plane_bytes), r),
    ensures
        pool_may_have(threads),
        forall|s: usize| #[trigger]
            call_ensures(cap_for_threads, (budget, plane_bytes, threads), s) ==> r == s,
{
    choose|threads: usize| #[trigger]
        pool_may_have(threads) && r == crate::queue::cap(
            budget,
            plane_bytes,
            crate::queue::thread_ceiling(threads as int),
        )
}

proof fn lemma_line_with(ls: Seq<Seq<char>>, prefix: Seq<char>, j: int)
    requires
        0 <= j <= ls.len(),
        forall|i: int| 0 <= i < j ==> !prefix.is_prefix_of(#[trigger] ls[i]),
        j < ls.len() ==> prefix.is_prefix_of(ls[j]),
    ensures
        line_with(ls, prefix) == if j < ls.len() {
            Some(ls[j])
        } else {
            None
        },
    decreases ls.len(),
{
    if ls.len() > 0 && j > 0 {
        let rest = ls.drop_first();
        assert(!prefix.is_prefix_of(ls[0]));
        assert forall|i: int| 0 <= i < j - 1 implies !prefix.is_prefix_of(#[trigger] rest[i]) by {
            assert(rest[i] == ls[i + 1]);
        }
        lemma_line_with(rest, prefix, j - 1);
    }
}

/// The memory that is available is told, in units of 1024 bytes, by the second word of
/// the first line that starts with `MemAvailable:`, where that is a number.
pub proof fn law_available_memory(meminfo: &str, r: Option<u64>, j: int)
    requires
        call_ensures(available_memory_bytes, (meminfo,), r),
        0 <= j <= lines(meminfo@).len(),
        forall|i: int|
            0 <= i < j ==> !"MemAvailable:"@.is_prefix_of(#[trigger] lines(meminfo@)[i]),
        j < lines(meminfo@).len() ==> "MemAvailable:"@.is_prefix_of(lines(meminfo@)[j]),
    ensures
        j == lines(meminfo@).len() ==> r is None,
        j < lines(meminfo@).len() ==> {
            let w = words(lines(meminfo@)[j]);
            let told = w.len() >= 2 && unsigned_value(w[1]) is Some && unsigned_value(w[1])->0
                <= u64::MAX;
            &&& r is Some <==> told
            &&& told && unsigned_value(w[1])->0 * 1024 <= u64::MAX ==> r->0 == unsigned_value(
                w[1],
            )->0 * 1024
            &&& told && unsigned_value(w[1])->0 * 1024 > u64::MAX ==> r->0 == u64::MAX
        },
{
    lemma_line_with(lines(meminfo@), "MemAvailable:"@, j);
}

/// The budget is the number of MiB that was set, where that is a positive number; else a
/// quarter of the memory that is available, and no less than 1 GiB; and 4 GiB where that
/// is not known.
pub proof fn law_budget(
    setting: Option<&str>,
    meminfo: Option<&str>,
    r: u64,
    available: Option<u64>,
)
    requires
        call_ensures(mem_budget_bytes, (setting, meminfo), r),
        meminfo matches Some(m) ==> call_ensures(available_memory_bytes, (m,), available),
        meminfo is None ==> available is None,
    ensures
        ({
            let set = setting is Some && unsigned_value(trim(setting->0@)) is Some && 0
                < unsigned_value(trim(setting->0@))->0 <= u64::MAX;
            let mib = unsigned_value(trim(setting->0@))->0;
            &&& set && mib * 1048576 <= u64::MAX ==> r == mib * 1048576
            &&& set && mib * 1048576 > u64::MAX ==> r == u64::MAX
            &&& !set && available is None ==> r == 4294967296
            &&& !set && available is Some && available->0 / 4 >= 1073741824 ==> r == available->0
                / 4
            &&& !set && available is Some && available->0 / 4 < 1073741824 ==> r == 1073741824
        }),
{
    if let Some(s) = setting {
        assert(word_value(trim(s@)) is Some <==> unsigned_value(trim(s@)) is Some && unsigned_value(
            trim(s@),
        )->0 <= u64::MAX);
    }
}

} // verus!
