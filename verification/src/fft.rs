//! Two-dimensional real FFT built from one-dimensional transforms.
//!
//! The real transform runs along the rows, so only the non-negative half of the
//! column frequencies is kept; the complex transform then runs down each column
//! of that half spectrum.  The one-dimensional transforms are an [`FftKernel`]'s.
use vstd::arithmetic::mul::lemma_mul_is_distributive_add;
use vstd::prelude::*;

use crate::ieee::{Double, FftFloat};
use crate::plane::{lemma_cell, lemma_place};

verus! {

/// A complex number.
#[derive(Clone, Copy, Debug, PartialEq, Eq)]
pub struct Complex<T> {
    pub re: T,
    pub im: T,
}

/// One-dimensional transforms and the arithmetic of a spectrum.
pub trait FftKernel<T: FftFloat> {
    /// Real-to-complex transform of a row.
    fn forward_row(&self, row: &Vec<T>) -> Vec<Complex<T>>;

    /// Complex-to-real transform of the half spectrum of a row, un-normalised.
    fn inverse_row(&self, row: &Vec<Complex<T>>) -> Vec<T>;

    /// Complex transform of a column.
    fn forward_column(&self, column: &Vec<Complex<T>>) -> Vec<Complex<T>>;

    /// Inverse complex transform of a column, un-normalised.
    fn inverse_column(&self, column: &Vec<Complex<T>>) -> Vec<Complex<T>>;

    /// A spectrum value times a real gain.
    fn scale(&self, s: Complex<T>, gain: T) -> Complex<T>;

    /// A pixel divided by the number of pixels.
    fn normalise(&self, v: T) -> T;

    /// A gain in the precision of the image.
    fn narrow(&self, gain: Double) -> T;

    /// The product of two pixel values.
    fn multiply(&self, a: T, b: T) -> T;
}

pub open spec fn forward_row_is<T: FftFloat, K: FftKernel<T>>(
    k: &K,
    row: Seq<T>,
    r: Seq<Complex<T>>,
) -> bool {
    exists|x: Vec<T>, y: Vec<Complex<T>>|
        x@ == row && y@ == r && #[trigger] call_ensures(
            <K as FftKernel<T>>::forward_row,
            (k, &x),
            y,
        )
}

pub open spec fn inverse_row_is<T: FftFloat, K: FftKernel<T>>(
    k: &K,
    row: Seq<Complex<T>>,
    r: Seq<T>,
) -> bool {
    exists|x: Vec<Complex<T>>, y: Vec<T>|
        x@ == row && y@ == r && #[trigger] call_ensures(
            <K as FftKernel<T>>::inverse_row,
            (k, &x),
            y,
        )
}

pub open spec fn forward_column_is<T: FftFloat, K: FftKernel<T>>(
    k: &K,
    column: Seq<Complex<T>>,
    r: Seq<Complex<T>>,
) -> bool {
    exists|x: Vec<Complex<T>>, y: Vec<Complex<T>>|
        x@ == column && y@ == r && #[trigger] call_ensures(
            <K as FftKernel<T>>::forward_column,
            (k, &x),
            y,
        )
}

pub open spec fn inverse_column_is<T: FftFloat, K: FftKernel<T>>(
    k: &K,
    column: Seq<Complex<T>>,
    r: Seq<Complex<T>>,
) -> bool {
    exists|x: Vec<Complex<T>>, y: Vec<Complex<T>>|
        x@ == column && y@ == r && #[trigger] call_ensures(
            <K as FftKernel<T>>::inverse_column,
            (k, &x),
            y,
        )
}

pub open spec fn forward_row_of<T: FftFloat, K: FftKernel<T>>(k: &K, row: Seq<T>) -> Seq<
    Complex<T>,
> {
    choose|r: Seq<Complex<T>>| forward_row_is(k, row, r)
}

pub open spec fn inverse_row_of<T: FftFloat, K: FftKernel<T>>(k: &K, row: Seq<Complex<T>>) -> Seq<
    T,
> {
    choose|r: Seq<T>| inverse_row_is(k, row, r)
}

pub open spec fn forward_column_of<T: FftFloat, K: FftKernel<T>>(
    k: &K,
    column: Seq<Complex<T>>,
) -> Seq<Complex<T>> {
    choose|r: Seq<Complex<T>>| forward_column_is(k, column, r)
}

pub open spec fn inverse_column_of<T: FftFloat, K: FftKernel<T>>(
    k: &K,
    column: Seq<Complex<T>>,
) -> Seq<Complex<T>> {
    choose|r: Seq<Complex<T>>| inverse_column_is(k, column, r)
}

pub open spec fn scale_of<T: FftFloat, K: FftKernel<T>>(k: &K, s: Complex<T>, gain: T) -> Complex<
    T,
> {
    choose|r: Complex<T>| call_ensures(<K as FftKernel<T>>::scale, (k, s, gain), r)
}

pub open spec fn normalise_of<T: FftFloat, K: FftKernel<T>>(k: &K, v: T) -> T {
    choose|r: T| call_ensures(<K as FftKernel<T>>::normalise, (k, v), r)
}

pub open spec fn narrow_of<T: FftFloat, K: FftKernel<T>>(k: &K, gain: Double) -> T {
    choose|r: T| call_ensures(<K as FftKernel<T>>::narrow, (k, gain), r)
}

pub open spec fn product_of<T: FftFloat, K: FftKernel<T>>(k: &K, a: T, b: T) -> T {
    choose|r: T| call_ensures(<K as FftKernel<T>>::multiply, (k, a, b), r)
}

/// The same arguments give the same results.
pub open spec fn fft_kernel_is_function<T: FftFloat, K: FftKernel<T>>(k: &K) -> bool {
    &&& forall|s: Seq<T>, x: Seq<Complex<T>>, y: Seq<Complex<T>>|
        #![trigger forward_row_is(k, s, x), forward_row_is(k, s, y)]
        forward_row_is(k, s, x) && forward_row_is(k, s, y) ==> x == y
    &&& forall|s: Seq<Complex<T>>, x: Seq<T>, y: Seq<T>|
        #![trigger inverse_row_is(k, s, x), inverse_row_is(k, s, y)]
        inverse_row_is(k, s, x) && inverse_row_is(k, s, y) ==> x == y
    &&& forall|s: Seq<Complex<T>>, x: Seq<Complex<T>>, y: Seq<Complex<T>>|
        #![trigger forward_column_is(k, s, x), forward_column_is(k, s, y)]
        forward_column_is(k, s, x) && forward_column_is(k, s, y) ==> x == y
    &&& forall|s: Seq<Complex<T>>, x: Seq<Complex<T>>, y: Seq<Complex<T>>|
        #![trigger inverse_column_is(k, s, x), inverse_column_is(k, s, y)]
        inverse_column_is(k, s, x) && inverse_column_is(k, s, y) ==> x == y
    &&& forall|s: Complex<T>, g: T, x: Complex<T>, y: Complex<T>|
        #![trigger call_ensures(<K as FftKernel<T>>::scale, (k, s, g), x), call_ensures(<K as FftKernel<T>>::scale, (k, s, g), y)]
        call_ensures(<K as FftKernel<T>>::scale, (k, s, g), x) && call_ensures(
            <K as FftKernel<T>>::scale,
            (k, s, g),
            y,
        ) ==> x == y
    &&& forall|v: T, x: T, y: T|
        #![trigger call_ensures(<K as FftKernel<T>>::normalise, (k, v), x), call_ensures(<K as FftKernel<T>>::normalise, (k, v), y)]
        call_ensures(<K as FftKernel<T>>::normalise, (k, v), x) && call_ensures(
            <K as FftKernel<T>>::normalise,
            (k, v),
            y,
        ) ==> x == y
    &&& forall|g: Double, x: T, y: T|
        #![trigger call_ensures(<K as FftKernel<T>>::narrow, (k, g), x), call_ensures(<K as FftKernel<T>>::narrow, (k, g), y)]
        call_ensures(<K as FftKernel<T>>::narrow, (k, g), x) && call_ensures(
            <K as FftKernel<T>>::narrow,
            (k, g),
            y,
        ) ==> x == y
    &&& forall|a: T, b: T, x: T, y: T|
        #![trigger call_ensures(<K as FftKernel<T>>::multiply, (k, a, b), x), call_ensures(<K as FftKernel<T>>::multiply, (k, a, b), y)]
        call_ensures(<K as FftKernel<T>>::multiply, (k, a, b), x) && call_ensures(
            <K as FftKernel<T>>::multiply,
            (k, a, b),
            y,
        ) ==> x == y
}

/// The transforms are those of an `nrows × ncols` image.
pub open spec fn fft_kernel_fits<T: FftFloat, K: FftKernel<T>>(
    k: &K,
    nrows: nat,
    ncols: nat,
) -> bool {
    &&& forall|s: Seq<T>, r: Seq<Complex<T>>| #[trigger]
        forward_row_is(k, s, r) && s.len() == ncols ==> r.len() == ncols / 2 + 1
    &&& forall|s: Seq<Complex<T>>, r: Seq<T>| #[trigger]
        inverse_row_is(k, s, r) && s.len() == ncols / 2 + 1 ==> r.len() == ncols
    &&& forall|s: Seq<Complex<T>>, r: Seq<Complex<T>>| #[trigger]
        forward_column_is(k, s, r) && s.len() == nrows ==> r.len() == nrows
    &&& forall|s: Seq<Complex<T>>, r: Seq<Complex<T>>| #[trigger]
        inverse_column_is(k, s, r) && s.len() == nrows ==> r.len() == nrows
}

/// Transforms for a fixed `(nrows, ncols)` image size, to be shared by all
/// images of that size.
pub struct FftPlans<K> {
    pub nrows: usize,
    pub ncols: usize,
    pub nhalf: usize,
    pub kernel: K,
}

impl<K> FftPlans<K> {
    /// The half spectrum has the size that belongs to the rows, and the
    /// transforms are those of the image size.
    pub open spec fn sound<T: FftFloat>(self) -> bool where K: FftKernel<T> {
        &&& self.nhalf == self.ncols / 2 + 1
        &&& fft_kernel_is_function::<T, K>(&self.kernel)
        &&& fft_kernel_fits::<T, K>(&self.kernel, self.nrows as nat, self.ncols as nat)
    }

    /// Plans for an `nrows × ncols` image.
    pub fn new(nrows: usize, ncols: usize, kernel: K) -> (r: Self)
        ensures
            r.nrows == nrows,
            r.ncols == ncols,
            r.nhalf == ncols / 2 + 1,
            r.kernel == kernel,
    {
        FftPlans { nrows, ncols, nhalf: ncols / 2 + 1, kernel }
    }

    /// Image dimensions `(nrows, ncols)` these plans were built for.
    pub fn dim(&self) -> (r: (usize, usize))
        ensures
            r == (self.nrows, self.ncols),
    {
        (self.nrows, self.ncols)
    }
}

/// Row `i` of a grid of `m` columns.
pub open spec fn row<A>(grid: Seq<A>, m: int, i: int) -> Seq<A> {
    grid.subrange(i * m, i * m + m)
}

/// Column `j` of an `n × m` grid.
pub open spec fn column<A>(grid: Seq<A>, n: nat, m: int, j: int) -> Seq<A> {
    Seq::new(n, |i: int| grid[i * m + j])
}

/// The row transforms of an image, as an `nrows × nhalf` grid.
pub open spec fn row_spectra<T: FftFloat, K: FftKernel<T>>(
    k: &K,
    nrows: nat,
    ncols: nat,
    data: Seq<T>,
) -> Seq<Complex<T>> {
    let nhalf = (ncols / 2 + 1) as int;
    Seq::new(
        (nrows * nhalf) as nat,
        |q: int| forward_row_of(k, row(data, ncols as int, q / nhalf))[q % nhalf],
    )
}

/// The half spectrum of an image: its row transforms, transformed down each
/// column.
pub open spec fn rfft2_spec<T: FftFloat, K: FftKernel<T>>(
    k: &K,
    nrows: nat,
    ncols: nat,
    data: Seq<T>,
) -> Seq<Complex<T>> {
    let nhalf = (ncols / 2 + 1) as int;
    let half = row_spectra(k, nrows, ncols, data);
    Seq::new(
        (nrows * nhalf) as nat,
        |q: int| forward_column_of(k, column(half, nrows, nhalf, q % nhalf))[q / nhalf],
    )
}

/// A spectrum, transformed back down each column.
pub open spec fn column_inverses<T: FftFloat, K: FftKernel<T>>(
    k: &K,
    nrows: nat,
    nhalf: int,
    spectrum: Seq<Complex<T>>,
) -> Seq<Complex<T>> {
    Seq::new(
        (nrows * nhalf) as nat,
        |q: int| inverse_column_of(k, column(spectrum, nrows, nhalf, q % nhalf))[q / nhalf],
    )
}

/// A complex number without its imaginary part.
pub open spec fn real_only<T: FftFloat>(c: Complex<T>) -> Complex<T> {
    Complex { re: c.re, im: T::zero_spec() }
}

/// A half-spectrum row whose first bin, and for an even row length whose last
/// bin, is real.
pub open spec fn pinned<T: FftFloat>(r: Seq<Complex<T>>, ncols: nat) -> Seq<Complex<T>> {
    let first = r.update(0, real_only(r[0]));
    if ncols % 2 == 0 {
        first.update(r.len() - 1, real_only(first[r.len() - 1]))
    } else {
        first
    }
}

/// The image of a half spectrum: columns back, rows back with their real bins
/// pinned, then normalised.
pub open spec fn irfft2_spec<T: FftFloat, K: FftKernel<T>>(
    k: &K,
    nrows: nat,
    ncols: nat,
    spectrum: Seq<Complex<T>>,
) -> Seq<T> {
    let nhalf = (ncols / 2 + 1) as int;
    let half = column_inverses(k, nrows, nhalf, spectrum);
    Seq::new(
        nrows * ncols,
        |q: int|
            normalise_of(
                k,
                inverse_row_of(k, pinned(row(half, nhalf, q / (ncols as int)), ncols))[q % (
                ncols as int)],
            ),
    )
}

fn take_row<A: Copy>(grid: &Vec<A>, n: usize, m: usize, i: usize) -> (r: Vec<A>)
    requires
        i < n,
        0 < m,
        grid@.len() == n * m,
    ensures
        r@ == row(grid@, m as int, i as int),
        r@.len() == m,
{
    let total = grid.len();
    proof {
        lemma_cell(i as int, 0, n as int, m as int);
    }
    let start = i * m;
    let mut r: Vec<A> = Vec::new();
    let mut j: usize = 0;
    while j < m
        invariant
            j <= m,
            start == i * m,
            start + m <= total == grid@.len(),
            r@ == grid@.subrange(start as int, start + j),
        decreases m - j,
    {
        r.push(grid[start + j]);
        assert(r@ =~= grid@.subrange(start as int, start + j + 1));
        j = j + 1;
    }
    r
}

fn take_column<A: Copy>(grid: &Vec<A>, n: usize, m: usize, j: usize) -> (r: Vec<A>)
    requires
        j < m,
        grid@.len() == n * m,
    ensures
        r@ == column(grid@, n as nat, m as int, j as int),
        r@.len() == n,
{
    let total = grid.len();
    let mut r: Vec<A> = Vec::new();
    let mut i: usize = 0;
    while i < n
        invariant
            i <= n,
            j < m,
            total == grid@.len(),
            grid@.len() == n * m,
            r@ == column(grid@, n as nat, m as int, j as int).take(i as int),
        decreases n - i,
    {
        proof {
            lemma_cell(i as int, j as int, n as int, m as int);
        }
        r.push(grid[i * m + j]);
        proof {
            let all = column(grid@, n as nat, m as int, j as int);
            assert(all.take(i + 1) =~= all.take(i as int).push(all[i as int]));
        }
        i = i + 1;
    }
    assert(r@ =~= column(grid@, n as nat, m as int, j as int));
    r
}

/// Overwrite column `j` of an `n × m` grid.
fn put_column<A: Copy>(grid: &mut Vec<A>, n: usize, m: usize, j: usize, values: &Vec<A>)
    requires
        j < m,
        old(grid)@.len() == n * m,
        values@.len() == n,
    ensures
        final(grid)@.len() == n * m,
        forall|i: int, c: int|
            #![trigger final(grid)@[i * m + c]]
            0 <= i < n && 0 <= c < m ==> final(grid)@[i * m + c] == (if c == j {
                values@[i]
            } else {
                old(grid)@[i * m + c]
            }),
{
    let ghost before = grid@;
    let total = grid.len();
    let mut i: usize = 0;
    while i < n
        invariant
            i <= n,
            j < m,
            total == n * m,
            before.len() == n * m,
            grid@.len() == n * m,
            values@.len() == n,
            forall|a: int, c: int|
                #![trigger grid@[a * m + c]]
                0 <= a < n && 0 <= c < m ==> grid@[a * m + c] == (if c == j && a < i {
                    values@[a]
                } else {
                    before[a * m + c]
                }),
        decreases n - i,
    {
        proof {
            lemma_cell(i as int, j as int, n as int, m as int);
        }
        let ghost prev = grid@;
        grid.set(i * m + j, values[i]);
        proof {
            assert forall|a: int, c: int|
                #![trigger grid@[a * m + c]]
                0 <= a < n && 0 <= c < m implies grid@[a * m + c] == (if c == j && a < i + 1 {
                values@[a]
            } else {
                before[a * m + c]
            }) by {
                lemma_cell(a, c, n as int, m as int);
                assert(prev[a * m + c] == (if c == j && a < i {
                    values@[a]
                } else {
                    before[a * m + c]
                }));
                if a * m + c == i * m + j {
                    assert(a == i && c == j);
                }
            }
        }
        i = i + 1;
    }
}

/// 2D forward FFT of a real-valued image stored row by row.
///
/// Returns the `nrows × nhalf` half spectrum (`nhalf = ncols/2 + 1`), row by row.
pub fn rfft2<T: FftFloat, K: FftKernel<T>>(plans: &FftPlans<K>, data: &Vec<T>) -> (r: Vec<
    Complex<T>,
>)
    requires
        plans.sound::<T>(),
        plans.ncols > 0,
        data@.len() == plans.nrows * plans.ncols,
    ensures
        r@ == rfft2_spec(&plans.kernel, plans.nrows as nat, plans.ncols as nat, data@),
        r@.len() == plans.nrows * plans.nhalf,
{
    let k = &plans.kernel;
    let n = plans.nrows;
    let m = plans.nhalf;
    let ghost half = row_spectra(k, n as nat, plans.ncols as nat, data@);
    let mut spectrum: Vec<Complex<T>> = Vec::new();
    // Row-wise real-to-complex transforms.
    let mut i: usize = 0;
    while i < n
        invariant
            i <= n,
            plans.sound::<T>(),
            plans.ncols > 0,
            n == plans.nrows,
            m == plans.nhalf,
            k == plans.kernel,
            data@.len() == n * plans.ncols,
            half == row_spectra(k, n as nat, plans.ncols as nat, data@),
            spectrum@.len() == i * m,
            forall|q: int| 0 <= q < i * m ==> spectrum@[q] == half[q],
        decreases n - i,
    {
        let input = take_row(data, n, plans.ncols, i);
        let out = k.forward_row(&input);
        proof {
            assert(forward_row_is(k, input@, out@));
            assert(out@ == forward_row_of(k, row(data@, plans.ncols as int, i as int)));
            lemma_cell(i as int, 0, n as int, m as int);
        }
        let ghost before = spectrum@;
        let mut j: usize = 0;
        while j < m
            invariant
                j <= m,
                i < n,
                m > 0,
                out@.len() == m,
                before.len() == i * m,
                spectrum@ == before + out@.take(j as int),
            decreases m - j,
        {
            spectrum.push(out[j]);
            assert(out@.take(j + 1) =~= out@.take(j as int).push(out@[j as int]));
            assert(spectrum@ =~= before + out@.take(j + 1));
            j = j + 1;
        }
        proof {
            assert(out@.take(m as int) =~= out@);
            assert forall|q: int| 0 <= q < (i + 1) * m implies spectrum@[q] == half[q] by {
                lemma_place(q, (i + 1) as int, m as int);
                if q < i * m {
                    assert(spectrum@[q] == before[q]);
                } else {
                    let c = q - i * m;
                    lemma_cell(i as int, c, n as int, m as int);
                    assert(spectrum@[q] == out@[c]);
                }
            }
        }
        i = i + 1;
    }
    assert(spectrum@ =~= half);
    // Column-wise complex transforms (gather, transform, scatter).
    let ghost target = rfft2_spec(k, n as nat, plans.ncols as nat, data@);
    let mut j: usize = 0;
    while j < m
        invariant
            j <= m,
            plans.sound::<T>(),
            n == plans.nrows,
            m == plans.nhalf,
            k == plans.kernel,
            half == row_spectra(k, n as nat, plans.ncols as nat, data@),
            half.len() == n * m,
            target == rfft2_spec(k, n as nat, plans.ncols as nat, data@),
            spectrum@.len() == n * m,
            forall|a: int, c: int|
                #![trigger spectrum@[a * m + c]]
                0 <= a < n && 0 <= c < m ==> spectrum@[a * m + c] == (if c < j {
                    target[a * m + c]
                } else {
                    half[a * m + c]
                }),
        decreases m - j,
    {
        let input = take_column(&spectrum, n, m, j);
        assert(input@ =~= column(half, n as nat, m as int, j as int));
        let out = k.forward_column(&input);
        proof {
            assert(forward_column_is(k, input@, out@));
            assert(out@ == forward_column_of(k, column(half, n as nat, m as int, j as int)));
        }
        let ghost before = spectrum@;
        put_column(&mut spectrum, n, m, j, &out);
        proof {
            assert forall|a: int, c: int|
                #![trigger spectrum@[a * m + c]]
                0 <= a < n && 0 <= c < m implies spectrum@[a * m + c] == (if c < j + 1 {
                target[a * m + c]
            } else {
                half[a * m + c]
            }) by {
                lemma_cell(a, c, n as int, m as int);
                assert(before[a * m + c] == (if c < j {
                    target[a * m + c]
                } else {
                    half[a * m + c]
                }));
            }
        }
        j = j + 1;
    }
    proof {
        assert forall|q: int| 0 <= q < n * m implies spectrum@[q] == target[q] by {
            lemma_place(q, n as int, m as int);
            assert(spectrum@[(q / (m as int)) * m + q % (m as int)] == target[(q / (m as int)) * m
                + q % (m as int)]);
        }
        assert(spectrum@ =~= target);
    }
    spectrum
}

/// 2D inverse of [`rfft2`]: the image of an `nrows × nhalf` half spectrum.
pub fn irfft2<T: FftFloat, K: FftKernel<T>>(plans: &FftPlans<K>, spectrum: Vec<Complex<T>>) -> (r:
    Vec<T>)
    requires
        plans.sound::<T>(),
        plans.ncols > 0,
        spectrum@.len() == plans.nrows * plans.nhalf,
    ensures
        r@ == irfft2_spec(&plans.kernel, plans.nrows as nat, plans.ncols as nat, spectrum@),
        r@.len() == plans.nrows * plans.ncols,
{
    let k = &plans.kernel;
    let n = plans.nrows;
    let m = plans.nhalf;
    let ncols = plans.ncols;
    let ghost source = spectrum@;
    let ghost half = column_inverses(k, n as nat, m as int, source);
    let mut grid = spectrum;
    // Column-wise inverse complex transforms.
    let mut j: usize = 0;
    while j < m
        invariant
            j <= m,
            plans.sound::<T>(),
            n == plans.nrows,
            m == plans.nhalf,
            k == plans.kernel,
            source.len() == n * m,
            half == column_inverses(k, n as nat, m as int, source),
            grid@.len() == n * m,
            forall|a: int, c: int|
                #![trigger grid@[a * m + c]]
                0 <= a < n && 0 <= c < m ==> grid@[a * m + c] == (if c < j {
                    half[a * m + c]
                } else {
                    source[a * m + c]
                }),
        decreases m - j,
    {
        let input = take_column(&grid, n, m, j);
        assert(input@ =~= column(source, n as nat, m as int, j as int));
        let out = k.inverse_column(&input);
        proof {
            assert(inverse_column_is(k, input@, out@));
            assert(out@ == inverse_column_of(k, column(source, n as nat, m as int, j as int)));
        }
        let ghost before = grid@;
        put_column(&mut grid, n, m, j, &out);
        proof {
            assert forall|a: int, c: int|
                #![trigger grid@[a * m + c]]
                0 <= a < n && 0 <= c < m implies grid@[a * m + c] == (if c < j + 1 {
                half[a * m + c]
            } else {
                source[a * m + c]
            }) by {
                lemma_cell(a, c, n as int, m as int);
                assert(before[a * m + c] == (if c < j {
                    half[a * m + c]
                } else {
                    source[a * m + c]
                }));
            }
        }
        j = j + 1;
    }
    proof {
        assert forall|q: int| 0 <= q < n * m implies grid@[q] == half[q] by {
            lemma_place(q, n as int, m as int);
            assert(grid@[(q / (m as int)) * m + q % (m as int)] == half[(q / (m as int)) * m + q % (
            m as int)]);
        }
        assert(grid@ =~= half);
    }
    // Row-wise complex-to-real transforms, each normalised.
    let ghost target = irfft2_spec(k, n as nat, ncols as nat, source);
    let mut out: Vec<T> = Vec::new();
    let mut i: usize = 0;
    while i < n
        invariant
            i <= n,
            plans.sound::<T>(),
            n == plans.nrows,
            m == plans.nhalf,
            ncols == plans.ncols,
            ncols > 0,
            k == plans.kernel,
            grid@ == half,
            half.len() == n * m,
            half == column_inverses(k, n as nat, m as int, source),
            target == irfft2_spec(k, n as nat, ncols as nat, source),
            out@.len() == i * ncols,
            forall|q: int| 0 <= q < i * ncols ==> out@[q] == target[q],
        decreases n - i,
    {
        let mut line = take_row(&grid, n, m, i);
        let ghost raw = line@;
        // The zero-frequency bin, and for an even row length the last one, are
        // real up to rounding.
        let first = line[0];
        line.set(0, Complex { re: first.re, im: T::zero() });
        if ncols % 2 == 0 {
            let last = line[m - 1];
            line.set(m - 1, Complex { re: last.re, im: T::zero() });
        }
        assert(line@ =~= pinned(raw, ncols as nat));
        let pixels = k.inverse_row(&line);
        proof {
            assert(inverse_row_is(k, line@, pixels@));
            assert(pixels@ == inverse_row_of(k, pinned(row(half, m as int, i as int), ncols as nat)));
            lemma_cell(i as int, 0, n as int, ncols as int);
        }
        let mut c: usize = 0;
        while c < ncols
            invariant
                c <= ncols,
                i < n,
                fft_kernel_is_function::<T, K>(k),
                ncols > 0,
                m as int == ncols as int / 2 + 1,
                pixels@.len() == ncols,
                half == column_inverses(k, n as nat, m as int, source),
                pixels@ == inverse_row_of(
                    k,
                    pinned(row(half, m as int, i as int), ncols as nat),
                ),
                target == irfft2_spec(k, n as nat, ncols as nat, source),
                out@.len() == i * ncols + c,
                forall|q: int| 0 <= q < i * ncols + c ==> out@[q] == target[q],
            decreases ncols - c,
        {
            let v = k.normalise(pixels[c]);
            proof {
                assert(v == normalise_of(k, pixels@[c as int]));
                lemma_cell(i as int, c as int, n as int, ncols as int);
                assert(target[i * ncols + c] == v);
            }
            out.push(v);
            c = c + 1;
        }
        i = i + 1;
    }
    assert(out@ =~= target);
    out
}

/// Column by column, transforming the row spectra of an image forth and back gives
/// values that are `grown` from them: larger by the factor of a transform that is not
/// normalised, and as close to that as the arithmetic comes.
pub open spec fn columns_come_back<T: FftFloat, K: FftKernel<T>>(
    k: &K,
    nrows: nat,
    ncols: nat,
    data: Seq<T>,
    grown: spec_fn(Complex<T>, Complex<T>) -> bool,
) -> bool {
    let nhalf = (ncols / 2 + 1) as int;
    let half = row_spectra(k, nrows, ncols, data);
    forall|j: int|
        0 <= j < nhalf ==> {
            let v = #[trigger] column(half, nrows, nhalf, j);
            let back = inverse_column_of(k, forward_column_of(k, v));
            &&& forward_column_of(k, v).len() == nrows
            &&& forall|i: int| 0 <= i < nrows ==> grown(v[i], #[trigger] back[i])
        }
}

/// Row by row, transforming back any half spectrum that is `grown` from that of a row,
/// and normalising, gives pixels `close` to those of the row.
pub open spec fn rows_come_back<T: FftFloat, K: FftKernel<T>>(
    k: &K,
    nrows: nat,
    ncols: nat,
    data: Seq<T>,
    grown: spec_fn(Complex<T>, Complex<T>) -> bool,
    close: spec_fn(T, T) -> bool,
) -> bool {
    let nhalf = (ncols / 2 + 1) as int;
    forall|i: int, s: Seq<Complex<T>>, j: int|
        #![trigger row(data, ncols as int, i)[j], inverse_row_of(k, pinned(s, ncols))]
        0 <= i < nrows && 0 <= j < ncols && s.len() == nhalf && (forall|c: int|
            0 <= c < nhalf ==> grown(
                forward_row_of(k, row(data, ncols as int, i))[c],
                #[trigger] s[c],
            )) ==> close(
            row(data, ncols as int, i)[j],
            normalise_of(k, inverse_row_of(k, pinned(s, ncols))[j]),
        )
}

/// If the inverse of each one-dimensional transform gives its input back, as closely
/// as `grown` and `close` say and up to the factor that the normalisation takes out
/// again, then the inverse of the two-dimensional transform gives back an image that
/// is close to the first at every pixel, and the same image where only equal pixels
/// are close.
pub proof fn law_inverse_undoes_forward<T: FftFloat, K: FftKernel<T>>(
    k: &K,
    nrows: nat,
    ncols: nat,
    data: Seq<T>,
    grown: spec_fn(Complex<T>, Complex<T>) -> bool,
    close: spec_fn(T, T) -> bool,
)
    requires
        ncols > 0,
        data.len() == nrows * ncols,
        columns_come_back(k, nrows, ncols, data, grown),
        rows_come_back(k, nrows, ncols, data, grown, close),
    ensures
        ({
            let image = irfft2_spec(k, nrows, ncols, rfft2_spec(k, nrows, ncols, data));
            &&& image.len() == data.len()
            &&& forall|q: int| 0 <= q < data.len() ==> close(data[q], #[trigger] image[q])
            &&& (forall|a: T, b: T| #[trigger] close(a, b) ==> a == b) ==> image == data
        }),
{
    let nhalf = (ncols / 2 + 1) as int;
    let n = nrows as int;
    let m = ncols as int;
    let half = row_spectra(k, nrows, ncols, data);
    let spectrum = rfft2_spec(k, nrows, ncols, data);
    let back = column_inverses(k, nrows, nhalf, spectrum);
    assert(n * nhalf >= 0) by (nonlinear_arith)
        requires
            n >= 0,
            nhalf >= 0,
    ;
    assert forall|j: int| 0 <= j < nhalf implies #[trigger] column(spectrum, nrows, nhalf, j)
        == forward_column_of(k, column(half, nrows, nhalf, j)) by {
        let out = forward_column_of(k, column(half, nrows, nhalf, j));
        assert forall|i: int| 0 <= i < n implies column(spectrum, nrows, nhalf, j)[i] == out[i] by {
            lemma_cell(i, j, n, nhalf);
        }
        assert(column(spectrum, nrows, nhalf, j) =~= out);
    }
    assert forall|i: int, j: int|
        #![trigger back[i * nhalf + j]]
        0 <= i < n && 0 <= j < nhalf implies grown(
        half[i * nhalf + j],
        back[i * nhalf + j],
    ) by {
        lemma_cell(i, j, n, nhalf);
        let v = column(half, nrows, nhalf, j);
        assert(column(spectrum, nrows, nhalf, j) == forward_column_of(k, v));
        let w = inverse_column_of(k, forward_column_of(k, v));
        assert(back[i * nhalf + j] == w[i]);
    }
    let image = irfft2_spec(k, nrows, ncols, spectrum);
    assert forall|q: int| 0 <= q < n * m implies close(data[q], #[trigger] image[q]) by {
        lemma_place(q, n, m);
        let i = q / m;
        let j = q % m;
        lemma_cell(i, j, n, m);
        lemma_cell(i, 0, n, nhalf);
        let r = row(data, m, i);
        let line = row(back, nhalf, i);
        assert forall|c: int| 0 <= c < nhalf implies grown(
            forward_row_of(k, r)[c],
            #[trigger] line[c],
        ) by {
            lemma_cell(i, c, n, nhalf);
            assert(line[c] == back[i * nhalf + c]);
            assert(half[i * nhalf + c] == forward_row_of(k, r)[c]);
        }
        assert(row(data, ncols as int, i)[j] == data[q]);
        assert(image[q] == normalise_of(k, inverse_row_of(k, pinned(line, ncols))[j]));
    }
    if forall|a: T, b: T| #[trigger] close(a, b) ==> a == b {
        assert(image =~= data);
    }
}

/// The sum of the pixels' values.
pub open spec fn total<T: FftFloat>(s: Seq<T>) -> int
    decreases s.len(),
{
    if s.len() == 0 {
        0
    } else {
        total(s.drop_last()) + s.last().value()
    }
}

/// The real parts of complex numbers.
pub open spec fn real_parts<T: FftFloat>(s: Seq<Complex<T>>) -> Seq<T> {
    Seq::new(s.len(), |i: int| s[i].re)
}

proof fn lemma_total_of_both<T: FftFloat>(a: Seq<T>, b: Seq<T>)
    ensures
        total(a + b) == total(a) + total(b),
    decreases b.len(),
{
    if b.len() == 0 {
        assert(a + b =~= a);
    } else {
        lemma_total_of_both(a, b.drop_last());
        assert((a + b).drop_last() =~= a + b.drop_last());
    }
}

/// Two numbers are no further apart than `slack`.
pub open spec fn within(a: int, b: int, slack: int) -> bool {
    -slack <= a - b <= slack
}

proof fn lemma_total_by_rows<T: FftFloat>(
    data: Seq<T>,
    m: nat,
    n: nat,
    sums: Seq<T>,
    a: int,
    c: int,
    slack: int,
)
    requires
        data.len() == n * m,
        sums.len() == n,
        forall|i: int|
            0 <= i < n ==> within(
                c * (#[trigger] sums[i]).value(),
                a * total(row(data, m as int, i)),
                slack,
            ),
    ensures
        within(c * total(sums), a * total(data), n * slack),
    decreases n,
{
    if n > 0 {
        let above = data.take((n - 1) * m);
        let last = row(data, m as int, n - 1);
        assert((n - 1) * m + m == n * m) by (nonlinear_arith);
        assert((n - 1) * slack + slack == n * slack) by (nonlinear_arith);
        assert(0 <= (n - 1) * m) by (nonlinear_arith)
            requires
                n > 0,
                m >= 0,
        ;
        assert forall|i: int| 0 <= i < n - 1 implies within(
            c * (#[trigger] sums.drop_last()[i]).value(),
            a * total(row(above, m as int, i)),
            slack,
        ) by {
            assert(within(c * sums[i].value(), a * total(row(data, m as int, i)), slack));
            assert(0 <= i * m && i * m + m <= (n - 1) * m) by (nonlinear_arith)
                requires
                    0 <= i < n - 1,
                    m >= 0,
            ;
            assert(row(above, m as int, i) =~= row(data, m as int, i));
        }
        lemma_total_by_rows(above, m, (n - 1) as nat, sums.drop_last(), a, c, slack);
        lemma_total_of_both(above, last);
        assert(above + last =~= data);
        assert(within(c * sums[n - 1].value(), a * total(last), slack));
        lemma_mul_is_distributive_add(c, total(sums.drop_last()), sums.last().value());
        lemma_mul_is_distributive_add(a, total(above), total(last));
    } else {
        assert(n * slack == 0 && c * 0 == 0 && a * 0 == 0) by (nonlinear_arith)
            requires
                n == 0,
        ;
    }
}

/// Scaling two numbers scales how far they are apart.
pub proof fn law_within_scales(a: int, b: int, slack: int, c: int)
    requires
        within(a, b, slack),
        c >= 0,
    ensures
        within(c * a, c * b, c * slack),
{
    assert(-(c * slack) <= c * a - c * b <= c * slack) by (nonlinear_arith)
        requires
            -slack <= a - b <= slack,
            c >= 0,
    ;
}

/// The first bin of the spectrum is the sum of the image, up to the rounding of the
/// transforms: where the first bin of each row's transform is the sum of the row
/// within `row_slack`, and that of the first column's transform the sum of the column
/// within `column_slack`.  The spectrum holds one half row per row of the image, and
/// the image of a spectrum has the image's size.
pub proof fn law_first_bin_is_the_sum<T: FftFloat, K: FftKernel<T>>(
    k: &K,
    nrows: nat,
    ncols: nat,
    data: Seq<T>,
    row_slack: int,
    column_slack: int,
)
    requires
        nrows > 0,
        data.len() == nrows * ncols,
        forall|i: int|
            0 <= i < nrows ==> within(
                (#[trigger] forward_row_of(k, row(data, ncols as int, i)))[0].re.value(),
                total(row(data, ncols as int, i)),
                row_slack,
            ),
        ({
            let first = column(
                row_spectra(k, nrows, ncols, data),
                nrows,
                (ncols / 2 + 1) as int,
                0,
            );
            within(
                forward_column_of(k, first)[0].re.value(),
                total(real_parts(first)),
                column_slack,
            )
        }),
    ensures
        rfft2_spec(k, nrows, ncols, data).len() == nrows * (ncols / 2 + 1),
        within(
            rfft2_spec(k, nrows, ncols, data)[0].re.value(),
            total(data),
            column_slack + nrows * row_slack,
        ),
        irfft2_spec(k, nrows, ncols, rfft2_spec(k, nrows, ncols, data)).len() == nrows * ncols,
{
    let nhalf = (ncols / 2 + 1) as int;
    let half = row_spectra(k, nrows, ncols, data);
    let first = column(half, nrows, nhalf, 0);
    let sums = real_parts(first);
    assert(0 < nrows * nhalf) by (nonlinear_arith)
        requires
            nrows > 0,
            nhalf > 0,
    ;
    assert(0int / nhalf == 0 && 0int % nhalf == 0) by (nonlinear_arith)
        requires
            nhalf > 0,
    ;
    assert forall|i: int| 0 <= i < nrows implies within(
        (#[trigger] sums[i]).value(),
        total(row(data, ncols as int, i)),
        row_slack,
    ) by {
        lemma_cell(i, 0, nrows as int, nhalf);
        assert(half[i * nhalf + 0] == forward_row_of(k, row(data, ncols as int, i))[0]);
    }
    lemma_total_by_rows(data, ncols, nrows, sums, 1, 1, row_slack);
}

/// The image of a half spectrum sums to the first bin, up to the rounding of the
/// transforms: where, with `n` pixels in all, `n` times the sum of each row of the
/// image is the length of a row times the first bin of the row's half spectrum within
/// `row_slack`, and the first column, transformed back, sums to its length times the
/// first bin within `column_slack`.
pub proof fn law_image_sums_to_the_first_bin<T: FftFloat, K: FftKernel<T>>(
    k: &K,
    nrows: nat,
    ncols: nat,
    spectrum: Seq<Complex<T>>,
    row_slack: int,
    column_slack: int,
)
    requires
        ({
            let nhalf = (ncols / 2 + 1) as int;
            let n = (nrows * ncols) as int;
            let half = column_inverses(k, nrows, nhalf, spectrum);
            let image = irfft2_spec(k, nrows, ncols, spectrum);
            let first = inverse_column_of(k, column(spectrum, nrows, nhalf, 0));
            &&& first.len() == nrows
            &&& within(
                total(real_parts(first)),
                nrows * spectrum[0].re.value(),
                column_slack,
            )
            &&& forall|i: int|
                0 <= i < nrows ==> within(
                    ncols * (#[trigger] row(half, nhalf, i))[0].re.value(),
                    n * total(row(image, ncols as int, i)),
                    row_slack,
                )
        }),
    ensures
        within(
            (nrows * ncols) * total(irfft2_spec(k, nrows, ncols, spectrum)),
            (nrows * ncols) * spectrum[0].re.value(),
            nrows * row_slack + ncols * column_slack,
        ),
{
    let nhalf = (ncols / 2 + 1) as int;
    let n = (nrows * ncols) as int;
    let half = column_inverses(k, nrows, nhalf, spectrum);
    let image = irfft2_spec(k, nrows, ncols, spectrum);
    let first = inverse_column_of(k, column(spectrum, nrows, nhalf, 0));
    let sums = real_parts(first);
    let bin = spectrum[0].re.value();
    assert forall|i: int| 0 <= i < nrows implies within(
        ncols * (#[trigger] sums[i]).value(),
        n * total(row(image, ncols as int, i)),
        row_slack,
    ) by {
        lemma_cell(i, 0, nrows as int, nhalf);
        assert(row(half, nhalf, i)[0] == half[i * nhalf + 0]);
        assert(half[i * nhalf + 0] == first[i]);
    }
    lemma_total_by_rows(image, ncols, nrows, sums, n, ncols as int, row_slack);
    law_within_scales(total(sums), nrows * bin, column_slack, ncols as int);
    assert(ncols * (nrows * bin) == (nrows * ncols) * bin) by (nonlinear_arith);
}

} // verus!
