//! Laws of the two-dimensional transforms.
use vstd::prelude::*;

use crate::fft::{
    fft_kernel_is_function, forward_column_is, forward_column_of, forward_row_is, forward_row_of,
    inverse_column_is, inverse_column_of, inverse_row_is, inverse_row_of, irfft2, narrow_of,
    normalise_of, product_of, rfft2, scale_of, Complex, FftKernel, FftPlans,
};
use crate::ieee::{Double, FftFloat};
use crate::plane::lemma_cell;

verus! {

/// The names of the one-dimensional transforms stand for what the kernel returns for
/// the same values.
pub proof fn law_transform_names<T: FftFloat, K: FftKernel<T>>(
    k: &K,
    row: Vec<T>,
    line: Vec<Complex<T>>,
    bins: Vec<Complex<T>>,
    pixels: Vec<T>,
)
    requires
        fft_kernel_is_function::<T, K>(k),
    ensures
        call_ensures(<K as FftKernel<T>>::forward_row, (k, &row), bins) ==> forward_row_of(
            k,
            row@,
        ) == bins@,
        call_ensures(<K as FftKernel<T>>::inverse_row, (k, &line), pixels) ==> inverse_row_of(
            k,
            line@,
        ) == pixels@,
        call_ensures(<K as FftKernel<T>>::forward_column, (k, &line), bins) ==> forward_column_of(
            k,
            line@,
        ) == bins@,
        call_ensures(<K as FftKernel<T>>::inverse_column, (k, &line), bins) ==> inverse_column_of(
            k,
            line@,
        ) == bins@,
{
    if call_ensures(<K as FftKernel<T>>::forward_row, (k, &row), bins) {
        assert(forward_row_is(k, row@, bins@));
    }
    if call_ensures(<K as FftKernel<T>>::inverse_row, (k, &line), pixels) {
        assert(inverse_row_is(k, line@, pixels@));
    }
    if call_ensures(<K as FftKernel<T>>::forward_column, (k, &line), bins) {
        assert(forward_column_is(k, line@, bins@));
    }
    if call_ensures(<K as FftKernel<T>>::inverse_column, (k, &line), bins) {
        assert(inverse_column_is(k, line@, bins@));
    }
}

/// The names of the arithmetic of a spectrum stand for what the kernel returns for the
/// same arguments.
pub proof fn law_arithmetic_names<T: FftFloat, K: FftKernel<T>>(
    k: &K,
    s: Complex<T>,
    scaled: Complex<T>,
    a: T,
    b: T,
    x: T,
    gain: Double,
)
    requires
        fft_kernel_is_function::<T, K>(k),
    ensures
        call_ensures(<K as FftKernel<T>>::scale, (k, s, a), scaled) ==> scale_of(k, s, a) == scaled,
        call_ensures(<K as FftKernel<T>>::normalise, (k, a), x) ==> normalise_of(k, a) == x,
        call_ensures(<K as FftKernel<T>>::narrow, (k, gain), x) ==> narrow_of::<T, K>(k, gain) == x,
        call_ensures(<K as FftKernel<T>>::multiply, (k, a, b), x) ==> product_of(k, a, b) == x,
{
}

/// The half spectrum of an image: bin `(i, j)` is bin `i` of the transform of the
/// column that bin `j` of each row's transform makes, from the first row down.
pub proof fn law_spectrum_is_rows_then_columns<T: FftFloat, K: FftKernel<T>>(
    plans: FftPlans<K>,
    data: Vec<T>,
    s: Vec<Complex<T>>,
    rows: Seq<Seq<Complex<T>>>,
    i: int,
    j: int,
)
    requires
        call_ensures(rfft2::<T, K>, (&plans, &data), s),
        plans.ncols > 0,
        data@.len() == plans.nrows * plans.ncols,
        rows.len() == plans.nrows,
        forall|a: int|
            0 <= a < plans.nrows ==> #[trigger] rows[a] == forward_row_of(
                &plans.kernel,
                Seq::new(plans.ncols as nat, |c: int| data@[a * plans.ncols + c]),
            ),
        0 <= i < plans.nrows,
        0 <= j < plans.ncols as int / 2 + 1,
    ensures
        s@.len() == plans.nrows * (plans.ncols as int / 2 + 1),
        s@[i * (plans.ncols as int / 2 + 1) + j] == forward_column_of(
            &plans.kernel,
            Seq::new(plans.nrows as nat, |a: int| rows[a][j]),
        )[i],
{
    let n = plans.nrows as int;
    let m = plans.ncols as int;
    let h = m / 2 + 1;
    lemma_cell(i, j, n, h);
    let half = crate::fft::row_spectra(&plans.kernel, n as nat, m as nat, data@);
    assert(crate::fft::column(half, n as nat, h, j) =~= Seq::new(
        plans.nrows as nat,
        |a: int| rows[a][j],
    )) by {
        assert forall|a: int| 0 <= a < n implies crate::fft::column(half, n as nat, h, j)[a]
            == rows[a][j] by {
            lemma_cell(a, j, n, h);
            lemma_cell(a, 0, n, m);
            assert(crate::fft::row(data@, m, a) =~= Seq::new(
                plans.ncols as nat,
                |c: int| data@[a * plans.ncols + c],
            ));
        }
    }
}

/// `pin` is `line` with real bins where the spectrum of real pixels has them: the first
/// one, and for an even number of pixels the last one.
pub open spec fn pins<T: FftFloat>(line: Seq<Complex<T>>, pixels: nat, pin: Seq<Complex<T>>) -> bool {
    &&& pin.len() == line.len()
    &&& forall|c: int|
        0 <= c < line.len() ==> (#[trigger] pin[c]).re == line[c].re && pin[c].im == if c == 0 || (
        pixels % 2 == 0 && c == line.len() - 1) {
            T::zero_spec()
        } else {
            line[c].im
        }
}

/// The image of a half spectrum: pixel `(i, j)` is pixel `j` of row `i` transformed
/// back, normalised, where that row holds element `i` of each column transformed back,
/// with its real bins pinned.
pub proof fn law_image_is_columns_then_rows<T: FftFloat, K: FftKernel<T>>(
    plans: FftPlans<K>,
    s: Vec<Complex<T>>,
    image: Vec<T>,
    columns: Seq<Seq<Complex<T>>>,
    pin: Seq<Complex<T>>,
    i: int,
    j: int,
)
    requires
        call_ensures(irfft2::<T, K>, (&plans, s), image),
        plans.ncols > 0,
        columns.len() == plans.ncols as int / 2 + 1,
        forall|c: int|
            0 <= c < columns.len() ==> #[trigger] columns[c] == inverse_column_of(
                &plans.kernel,
                Seq::new(
                    plans.nrows as nat,
                    |a: int| s@[a * (plans.ncols as int / 2 + 1) + c],
                ),
            ),
        0 <= i < plans.nrows,
        0 <= j < plans.ncols,
        pins(
            Seq::new((plans.ncols as int / 2 + 1) as nat, |c: int| columns[c][i]),
            plans.ncols as nat,
            pin,
        ),
    ensures
        image@.len() == plans.nrows * plans.ncols,
        image@[i * plans.ncols + j] == normalise_of(
            &plans.kernel,
            inverse_row_of(&plans.kernel, pin)[j],
        ),
{
    let n = plans.nrows as int;
    let m = plans.ncols as int;
    let h = m / 2 + 1;
    lemma_cell(i, j, n, m);
    let half = crate::fft::column_inverses(&plans.kernel, n as nat, h, s@);
    let line = Seq::new(h as nat, |c: int| columns[c][i]);
    assert(crate::fft::row(half, h, i) =~= line) by {
        lemma_cell(i, 0, n, h);
        assert forall|c: int| 0 <= c < h implies crate::fft::row(half, h, i)[c] == line[c] by {
            lemma_cell(i, c, n, h);
            assert(crate::fft::column(s@, n as nat, h, c) =~= Seq::new(
                plans.nrows as nat,
                |a: int| s@[a * h + c],
            ));
        }
    }
    let want = crate::fft::pinned(line, m as nat);
    assert forall|c: int| 0 <= c < h implies pin[c] == want[c] by {
        assert(pin[c].re == line[c].re);
    }
    assert(pin =~= want);
}

/// Plans are for the size that they are made for.
pub proof fn law_plans_keep_their_size<K>(nrows: usize, ncols: usize, kernel: K, r: FftPlans<K>)
    requires
        call_ensures(FftPlans::<K>::new, (nrows, ncols, kernel), r),
    ensures
        r.nrows == nrows,
        r.ncols == ncols,
        r.nhalf == ncols as int / 2 + 1,
        r.kernel == kernel,
{
}

} // verus!
