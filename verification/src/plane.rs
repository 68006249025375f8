//! Row-major image planes.
use vstd::prelude::*;

use crate::ieee::{big_endian, FftFloat};

verus! {

/// An `nrows × ncols` image, stored row by row.
pub struct Plane<T> {
    pub nrows: usize,
    pub ncols: usize,
    pub data: Vec<T>,
}

/// The number of pixels does not match the shape.
#[derive(Clone, Copy, Debug, PartialEq, Eq, Structural)]
pub struct ShapeError {
    pub nrows: usize,
    pub ncols: usize,
    pub got: usize,
}

/// Position `(i, j)` of a grid of `m` columns lies in the grid and is found
/// again by division.
pub proof fn lemma_cell(i: int, j: int, n: int, m: int)
    requires
        0 <= i < n,
        0 <= j < m,
    ensures
        0 <= i * m + j < n * m,
        (i * m + j) / m == i,
        (i * m + j) % m == j,
        (i + 1) * m == i * m + m,
        0 <= i * m,
        i * m + m <= n * m,
{
    assert(i * m + j < n * m && i * m + m <= n * m && 0 <= i * m && (i + 1) * m == i * m + m)
        by (nonlinear_arith)
        requires
            0 <= i < n,
            0 <= j < m,
    ;
    vstd::arithmetic::div_mod::lemma_fundamental_div_mod_converse(i * m + j, m, i, j);
}

/// Every place of a grid is row `q / m` and column `q % m`.
pub proof fn lemma_place(q: int, n: int, m: int)
    requires
        0 <= q < n * m,
        0 <= n,
        0 < m,
    ensures
        0 <= q / m < n,
        0 <= q % m < m,
        q == (q / m) * m + q % m,
{
    vstd::arithmetic::div_mod::lemma_fundamental_div_mod(q, m);
    vstd::arithmetic::div_mod::lemma_mod_bound(q, m);
    let i = q / m;
    assert(i >= 0 && i < n) by (nonlinear_arith)
        requires
            q == m * i + q % m,
            0 <= q % m < m,
            0 <= q < n * m,
            m > 0,
    ;
    assert(m * i == i * m) by (nonlinear_arith);
}

impl<T> Plane<T> {
    /// There is one pixel for each position.
    pub open spec fn wf(self) -> bool {
        self.data@.len() == self.nrows * self.ncols
    }

    /// The pixel in row `i` and column `j`.
    pub open spec fn at(self, i: int, j: int) -> T {
        self.data@[i * self.ncols + j]
    }

    /// An image of the given shape; fails if the number of pixels does not match.
    pub fn from_shape_vec(nrows: usize, ncols: usize, data: Vec<T>) -> (r: Result<
        Plane<T>,
        ShapeError,
    >)
        ensures
            r is Ok <==> nrows * ncols == data@.len(),
            r matches Ok(p) ==> p.wf() && p.nrows == nrows && p.ncols == ncols && p.data == data,
            r matches Err(e) ==> e == (ShapeError { nrows, ncols, got: data.len() }),
    {
        let got = data.len();
        match nrows.checked_mul(ncols) {
            Some(n) => if n == got {
                Ok(Plane { nrows, ncols, data })
            } else {
                Err(ShapeError { nrows, ncols, got })
            },
            None => Err(ShapeError { nrows, ncols, got }),
        }
    }

    /// `(nrows, ncols)`
    pub fn dim(&self) -> (r: (usize, usize))
        ensures
            r == (self.nrows, self.ncols),
    {
        (self.nrows, self.ncols)
    }
}

impl<T: Copy> Plane<T> {
    /// An image with the same pixel everywhere.
    pub fn from_elem(nrows: usize, ncols: usize, x: T) -> (r: Plane<T>)
        requires
            nrows * ncols <= usize::MAX,
        ensures
            r.wf(),
            r.nrows == nrows,
            r.ncols == ncols,
            forall|q: int| 0 <= q < r.data@.len() ==> r.data@[q] == x,
    {
        let n = nrows * ncols;
        let mut data: Vec<T> = Vec::new();
        let mut i: usize = 0;
        while i < n
            invariant
                i <= n,
                n == nrows * ncols,
                data@.len() == i,
                forall|q: int| 0 <= q < i ==> data@[q] == x,
            decreases n - i,
        {
            data.push(x);
            i = i + 1;
        }
        Plane { nrows, ncols, data }
    }

    /// A copy of the image.
    pub fn copy(&self) -> (r: Plane<T>)
        ensures
            r.nrows == self.nrows,
            r.ncols == self.ncols,
            r.data@ == self.data@,
    {
        let mut data: Vec<T> = Vec::new();
        let mut i: usize = 0;
        while i < self.data.len()
            invariant
                i <= self.data.len(),
                data@ == self.data@.take(i as int),
            decreases self.data.len() - i,
        {
            data.push(self.data[i]);
            assert(self.data@.take(i + 1) =~= self.data@.take(i as int).push(self.data@[i as int]));
            i = i + 1;
        }
        assert(self.data@.take(self.data@.len() as int) =~= self.data@);
        Plane { nrows: self.nrows, ncols: self.ncols, data }
    }
}

/// The bytes of pixel `q` in a data unit of pixels `width` bytes wide.
pub open spec fn pixel_bytes(bytes: Seq<u8>, q: int, width: nat) -> Seq<u8> {
    bytes.subrange(q * width, q * width + width)
}

/// The bytes are those of the pixels in FITS byte order: each pixel's pattern, most
/// significant byte first.
pub open spec fn encodes<T: FftFloat>(bytes: Seq<u8>, data: Seq<T>) -> bool {
    &&& bytes.len() == data.len() * T::width()
    &&& forall|q: int|
        0 <= q < data.len() ==> big_endian(#[trigger] pixel_bytes(bytes, q, T::width()))
            == data[q].pattern()
}

/// The bytes of a plane determine its pixels.
pub proof fn law_bytes_determine_pixels<T: FftFloat>(bytes: Seq<u8>, a: Seq<T>, b: Seq<T>)
    requires
        encodes(bytes, a),
        encodes(bytes, b),
        a.len() == b.len(),
    ensures
        a == b,
{
    assert forall|q: int| 0 <= q < a.len() implies a[q] == b[q] by {
        assert(big_endian(pixel_bytes(bytes, q, T::width())) == a[q].pattern());
        T::pattern_is_faithful(a[q], b[q]);
    }
    assert(a =~= b);
}

/// A plane in FITS byte order.
pub fn plane_to_be_bytes<T: FftFloat>(plane: &Plane<T>) -> (r: Vec<u8>)
    ensures
        encodes(r@, plane.data@),
{
    let mut r: Vec<u8> = Vec::new();
    let ghost w = T::width() as int;
    let mut i: usize = 0;
    while i < plane.data.len()
        invariant
            i <= plane.data.len(),
            w == T::width(),
            w >= 0,
            r@.len() == i * w,
            forall|q: int|
                0 <= q < i ==> big_endian(#[trigger] pixel_bytes(r@, q, T::width()))
                    == plane.data@[q].pattern(),
        decreases plane.data.len() - i,
    {
        let ghost before = r@;
        plane.data[i].push_be_bytes(&mut r);
        proof {
            assert((i + 1) * w == i * w + w) by (nonlinear_arith);
            assert forall|q: int| 0 <= q < i + 1 implies big_endian(
                #[trigger] pixel_bytes(r@, q, T::width()),
            ) == plane.data@[q].pattern() by {
                if q < i {
                    assert(q * w + w <= i * w && 0 <= q * w) by (nonlinear_arith)
                        requires
                            0 <= q < i,
                            w >= 0,
                    ;
                    assert(pixel_bytes(r@, q, T::width()) =~= pixel_bytes(before, q, T::width())) by {
                        assert forall|t: int| q * w <= t < q * w + w implies r@[t] == before[t] by {
                            assert(r@.take(before.len() as int)[t] == before[t]);
                        }
                    }
                } else {
                    assert(pixel_bytes(r@, q, T::width()) =~= r@.skip(before.len() as int));
                }
            }
        }
        i = i + 1;
    }
    r
}

} // verus!
