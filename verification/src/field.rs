//! The toroidal field: an owned, fixed-size two-dimensional array of cell
//! values, addressed by absolute coordinates with wraparound on both axes.
//! Storage is a dense flat buffer in column-major order (all of column 0,
//! then all of column 1, and so on), matching the scan order of `render`.

use vstd::prelude::*;
use vstd::arithmetic::div_mod::{
    lemma_fundamental_div_mod, lemma_fundamental_div_mod_converse, lemma_mod_bound,
    lemma_mod_multiples_vanish, lemma_mod_twice, lemma_small_mod,
};

verus! {

/// Cell values are small copyable data with a decidable equality that agrees
/// with mathematical equality. Rule matching compares cells through this
/// trait.
pub trait Cell: Copy + Sized {
    /// Value equality; the result is exactly mathematical equality of the
    /// two cells.
    fn cell_eq(&self, other: &Self) -> (r: bool)
        ensures
            r == (*self == *other),
    ;
}

impl Cell for bool {
    fn cell_eq(&self, other: &Self) -> (r: bool) {
        *self == *other
    }
}

impl Cell for u8 {
    fn cell_eq(&self, other: &Self) -> (r: bool) {
        *self == *other
    }
}

impl Cell for u16 {
    fn cell_eq(&self, other: &Self) -> (r: bool) {
        *self == *other
    }
}

/// Largest accepted field dimension. The bound keeps coordinate and buffer
/// arithmetic inside machine integer ranges.
pub const MAX_DIM: usize = 0x4000;

/// A `width x height` toroidal grid of cell values. Dimensions are fixed at
/// construction; every integer coordinate `(x, y)` resolves to the cell at
/// `(x mod width, y mod height)` with non-negative modulo, so reads and
/// writes are total.
pub struct Field<T> {
    width: usize,
    height: usize,
    cells: Vec<T>,
}

impl<T> Field<T> {
    /// Field width as a mathematical integer.
    pub closed spec fn width(self) -> int {
        self.width as int
    }

    /// Field height as a mathematical integer.
    pub closed spec fn height(self) -> int {
        self.height as int
    }

    /// The fixed dimensions, as `(width, height)`.
    pub fn dims(&self) -> (d: (usize, usize))
        ensures
            d.0 == self.width(),
            d.1 == self.height(),
    {
        (self.width, self.height)
    }

    /// Well-formedness: positive bounded dimensions and a fully populated
    /// buffer (every coordinate holds exactly one cell; there are no holes).
    pub closed spec fn wf(self) -> bool {
        &&& 1 <= self.width <= MAX_DIM
        &&& 1 <= self.height <= MAX_DIM
        &&& self.cells@.len() == (self.width as int) * (self.height as int)
    }

    /// The cell value at an arbitrary integer coordinate, after toroidal
    /// wraparound. This is the abstraction every contract speaks of.
    pub closed spec fn at(self, x: int, y: int) -> T {
        self.cells@[(x % (self.width as int)) * (self.height as int) + (y % (self.height as int))]
    }

    /// Whether a coordinate pair lies in the canonical rectangle
    /// `[0, width) x [0, height)`.
    pub open spec fn in_range(self, x: int, y: int) -> bool {
        0 <= x < self.width() && 0 <= y < self.height()
    }

    /// Two fields are congruent when they have the same dimensions and the
    /// same contents at every canonical coordinate.
    pub open spec fn congruent(self, other: Field<T>) -> bool {
        &&& self.width() == other.width()
        &&& self.height() == other.height()
        &&& forall|i: int, j: int|
            self.in_range(i, j) ==> self.at(i, j) == #[trigger] other.at(i, j)
    }

    /// A well-formed field's dimensions are positive and bounded by
    /// `MAX_DIM`.
    pub proof fn lemma_wf_bounds(self)
        requires
            self.wf(),
        ensures
            1 <= self.width() <= MAX_DIM as int,
            1 <= self.height() <= MAX_DIM as int,
    {
    }

    /// Reading any coordinate is the same as reading its wrapped canonical
    /// coordinate, which lies in range.
    pub proof fn lemma_at_wrap(self, x: int, y: int)
        requires
            self.wf(),
        ensures
            self.at(x, y) == self.at(x % self.width(), y % self.height()),
            self.in_range(x % self.width(), y % self.height()),
    {
        lemma_mod_twice(x, self.width());
        lemma_mod_twice(y, self.height());
        lemma_mod_bound(x, self.width());
        lemma_mod_bound(y, self.height());
    }

    /// Wraparound totality: shifting a coordinate by any whole number of
    /// field widths or heights reads the same cell.
    pub proof fn lemma_toroidal(self, x: int, y: int, k: int, m: int)
        requires
            self.wf(),
        ensures
            self.at(x + k * self.width(), y + m * self.height()) == self.at(x, y),
    {
        lemma_mod_multiples_vanish(k, x, self.width());
        lemma_mod_multiples_vanish(m, y, self.height());
    }

    /// Congruent fields agree at every integer coordinate, not only at the
    /// canonical ones.
    pub proof fn lemma_congruent_at(self, other: Field<T>, x: int, y: int)
        requires
            self.wf(),
            other.wf(),
            self.congruent(other),
        ensures
            self.at(x, y) == other.at(x, y),
    {
        self.lemma_at_wrap(x, y);
        other.lemma_at_wrap(x, y);
    }
}

/// Wraps one signed coordinate onto `[0, len)` with non-negative modulo.
fn wrap_coord(coord: i64, len: usize) -> (r: usize)
    requires
        1 <= len <= MAX_DIM,
        -0x7FFF_FFFF_FFFF <= coord <= 0x7FFF_FFFF_FFFF,
    ensures
        r == coord as int % len as int,
        r < len,
{
    if coord >= 0 {
        proof {
            lemma_mod_bound(coord as int, len as int);
        }
        (coord as u64 % len as u64) as usize
    } else {
        let n = (-coord) as u64;
        let k = (n % len as u64) as usize;
        proof {
            let l = len as int;
            let ni = n as int;
            let c = coord as int;
            lemma_fundamental_div_mod(ni, l);
            lemma_mod_bound(ni, l);
            let q = ni / l;
            assert(ni == l * q + ni % l);
            assert(c == -ni);
            if k == 0 {
                assert((-q) * l == -(l * q)) by (nonlinear_arith);
                lemma_fundamental_div_mod_converse(c, l, -q, 0);
            } else {
                assert((-q - 1) * l == -(l * q) - l) by (nonlinear_arith);
                lemma_fundamental_div_mod_converse(c, l, -q - 1, l - k);
            }
        }
        if k == 0 {
            0
        } else {
            len - k
        }
    }
}

impl<T: Copy> Field<T> {
    /// Builds a field of the given dimensions with every cell holding
    /// `fill`.
    pub fn new(width: usize, height: usize, fill: T) -> (r: Field<T>)
        requires
            1 <= width <= MAX_DIM,
            1 <= height <= MAX_DIM,
        ensures
            r.wf(),
            r.width() == width,
            r.height() == height,
            forall|i: int, j: int| r.in_range(i, j) ==> #[trigger] r.at(i, j) == fill,
    {
        proof {
            assert(width * height <= 0x4000 * 0x4000) by (nonlinear_arith)
                requires
                    width <= 0x4000,
                    height <= 0x4000,
            ;
        }
        let n = width * height;
        let mut cells: Vec<T> = Vec::new();
        let mut k: usize = 0;
        while k < n
            invariant
                k <= n,
                cells@.len() == k,
                forall|m: int| 0 <= m < k ==> cells@[m] == fill,
            decreases n - k,
        {
            cells.push(fill);
            k = k + 1;
        }
        let r = Field { width, height, cells };
        proof {
            assert forall|i: int, j: int| r.in_range(i, j) implies #[trigger] r.at(i, j)
                == fill by {
                lemma_small_mod(i as nat, width as nat);
                lemma_small_mod(j as nat, height as nat);
                assert(i * height + j < width * height) by (nonlinear_arith)
                    requires
                        0 <= i < width,
                        0 <= j < height,
                ;
            }
        }
        r
    }

    /// Builds a field from a caller-supplied seed buffer in column-major
    /// order; rejects dimensions out of range or a buffer whose length does
    /// not cover the grid exactly.
    pub fn from_cells(width: usize, height: usize, cells: Vec<T>) -> (r: Option<Field<T>>)
        ensures
            r is Some <==> (1 <= width <= MAX_DIM && 1 <= height <= MAX_DIM && cells@.len()
                == width * height),
            r is Some ==> r.unwrap().wf() && r.unwrap().width() == width && r.unwrap().height()
                == height,
            r is Some ==> forall|i: int, j: int|
                r.unwrap().in_range(i, j) ==> #[trigger] r.unwrap().at(i, j) == cells@[i * height
                    + j],
    {
        if width < 1 || width > MAX_DIM || height < 1 || height > MAX_DIM {
            return None;
        }
        proof {
            assert(width * height <= MAX_DIM * MAX_DIM) by (nonlinear_arith)
                requires
                    width <= MAX_DIM,
                    height <= MAX_DIM,
            ;
        }
        if cells.len() != width * height {
            return None;
        }
        let ghost gcells = cells@;
        let r = Field { width, height, cells };
        proof {
            assert forall|i: int, j: int| r.in_range(i, j) implies #[trigger] r.at(i, j)
                == gcells[i * height + j] by {
                lemma_small_mod(i as nat, width as nat);
                lemma_small_mod(j as nat, height as nat);
            }
        }
        Some(r)
    }

    /// A fresh field with the same dimensions and contents.
    pub fn duplicate(&self) -> (r: Field<T>)
        requires
            self.wf(),
        ensures
            r.wf(),
            r.width() == self.width(),
            r.height() == self.height(),
            forall|i: int, j: int| #[trigger] r.at(i, j) == self.at(i, j),
    {
        let n = self.cells.len();
        let mut cells: Vec<T> = Vec::new();
        let mut k: usize = 0;
        while k < n
            invariant
                k <= n,
                n == self.cells@.len(),
                cells@.len() == k,
                forall|m: int| 0 <= m < k ==> cells@[m] == self.cells@[m],
            decreases n - k,
        {
            cells.push(self.cells[k]);
            k = k + 1;
        }
        proof {
            assert(cells@ =~= self.cells@);
        }
        Field { width: self.width, height: self.height, cells }
    }

    /// Reads the cell at `(x mod width, y mod height)`; total for every
    /// integer coordinate.
    pub fn get(&self, x: i32, y: i32) -> (r: T)
        requires
            self.wf(),
        ensures
            r == self.at(x as int, y as int),
    {
        self.get_wide(x as i64, y as i64)
    }

    /// Reads a cell addressed by wide coordinates, so that a bounded offset
    /// added to any `i32` position stays in range of the arithmetic.
    pub(crate) fn get_wide(&self, x: i64, y: i64) -> (r: T)
        requires
            self.wf(),
            -0x7FFF_FFFF_FFFF <= x <= 0x7FFF_FFFF_FFFF,
            -0x7FFF_FFFF_FFFF <= y <= 0x7FFF_FFFF_FFFF,
        ensures
            r == self.at(x as int, y as int),
    {
        let xi = wrap_coord(x, self.width);
        let yi = wrap_coord(y, self.height);
        proof {
            assert(xi * self.height() + yi < self.width() * self.height() && xi * self.height()
                <= 0x4000 * 0x4000) by (nonlinear_arith)
                requires
                    0 <= xi < self.width(),
                    0 <= yi < self.height(),
                    self.height() <= 0x4000,
                    self.width() <= 0x4000,
            ;
        }
        self.cells[xi * self.height + yi]
    }

    /// Writes the cell at `(x mod width, y mod height)`; every other cell is
    /// untouched.
    pub fn set(&mut self, x: i32, y: i32, value: T)
        requires
            old(self).wf(),
        ensures
            final(self).wf(),
            final(self).width() == old(self).width(),
            final(self).height() == old(self).height(),
            forall|i: int, j: int|
                old(self).in_range(i, j) ==> #[trigger] final(self).at(i, j) == (if i == x as int
                    % old(self).width() && j == y as int % old(self).height() {
                    value
                } else {
                    old(self).at(i, j)
                }),
    {
        let xi = wrap_coord(x as i64, self.width);
        let yi = wrap_coord(y as i64, self.height);
        proof {
            assert(xi * self.height() + yi < self.width() * self.height() && xi * self.height()
                <= 0x4000 * 0x4000) by (nonlinear_arith)
                requires
                    0 <= xi < self.width(),
                    0 <= yi < self.height(),
                    self.height() <= 0x4000,
                    self.width() <= 0x4000,
            ;
        }
        let idx = xi * self.height + yi;
        self.cells[idx] = value;
        proof {
            let w = old(self).width();
            let h = old(self).height();
            assert forall|i: int, j: int| old(self).in_range(i, j) implies #[trigger]
            final(self).at(i, j) == (if i == x as int % w && j == y as int % h {
                value
            } else {
                old(self).at(i, j)
            }) by {
                lemma_small_mod(i as nat, w as nat);
                lemma_small_mod(j as nat, h as nat);
                assert(i * h + j < w * h) by (nonlinear_arith)
                    requires
                        0 <= i < w,
                        0 <= j < h,
                ;
                if i * h + j == idx {
                    lemma_fundamental_div_mod_converse(i * h + j, h, i, j);
                    lemma_fundamental_div_mod_converse(idx as int, h, xi as int, yi as int);
                }
            }
        }
    }
}

impl Field<bool> {
    /// Projects the field to a flat pixel buffer, four bytes per cell in
    /// storage scan order: opaque white for a live cell, opaque black for a
    /// dead one. Pure and deterministic; the field is not touched.
    pub fn render(&self) -> (r: Vec<u8>)
        requires
            self.wf(),
        ensures
            r@.len() == 4 * self.width() * self.height(),
            forall|i: int, j: int|
                self.in_range(i, j) ==> pixel_bytes(r@, i * self.height() + j, #[trigger] self.at(
                    i,
                    j,
                )),
    {
        let n = self.cells.len();
        let mut out: Vec<u8> = Vec::new();
        let mut k: usize = 0;
        while k < n
            invariant
                k <= n,
                n == self.cells@.len(),
                out@.len() == 4 * k,
                forall|m: int| 0 <= m < k ==> pixel_bytes(out@, m, #[trigger] self.cells@[m]),
            decreases n - k,
        {
            let live = self.cells[k];
            if live {
                out.push(0xFF);
                out.push(0xFF);
                out.push(0xFF);
            } else {
                out.push(0x00);
                out.push(0x00);
                out.push(0x00);
            }
            out.push(0xFF);
            k = k + 1;
        }
        proof {
            assert(4 * (self.width() * self.height()) == 4 * self.width() * self.height())
                by (nonlinear_arith);
            assert forall|i: int, j: int| self.in_range(i, j) implies pixel_bytes(
                out@,
                i * self.height() + j,
                #[trigger] self.at(i, j),
            ) by {
                lemma_small_mod(i as nat, self.width as nat);
                lemma_small_mod(j as nat, self.height as nat);
                assert(i * self.height() + j < self.width() * self.height()) by (nonlinear_arith)
                    requires
                        0 <= i < self.width(),
                        0 <= j < self.height(),
                ;
            }
        }
        out
    }
}

impl Field<[u8; 4]> {
    /// Flattens a pixel grid to one byte sequence in storage scan order
    /// (column by column), four bytes per cell. Pure and deterministic.
    pub fn to_bytes(&self) -> (r: Vec<u8>)
        requires
            self.wf(),
        ensures
            r@.len() == 4 * self.width() * self.height(),
            forall|i: int, j: int|
                self.in_range(i, j) ==> color_bytes_at(r@, i * self.height() + j, #[trigger] self.at(
                    i,
                    j,
                )),
    {
        let n = self.cells.len();
        let mut out: Vec<u8> = Vec::new();
        let mut k: usize = 0;
        while k < n
            invariant
                k <= n,
                n == self.cells@.len(),
                out@.len() == 4 * k,
                forall|m: int| 0 <= m < k ==> color_bytes_at(out@, m, #[trigger] self.cells@[m]),
            decreases n - k,
        {
            let pixel = self.cells[k];
            out.push(pixel[0]);
            out.push(pixel[1]);
            out.push(pixel[2]);
            out.push(pixel[3]);
            k = k + 1;
        }
        proof {
            assert(4 * (self.width() * self.height()) == 4 * self.width() * self.height())
                by (nonlinear_arith);
            assert forall|i: int, j: int| self.in_range(i, j) implies color_bytes_at(
                out@,
                i * self.height() + j,
                #[trigger] self.at(i, j),
            ) by {
                lemma_small_mod(i as nat, self.width as nat);
                lemma_small_mod(j as nat, self.height as nat);
                assert(i * self.height() + j < self.width() * self.height()) by (nonlinear_arith)
                    requires
                        0 <= i < self.width(),
                        0 <= j < self.height(),
                ;
            }
        }
        out
    }
}

/// The four bytes starting at slot `4*m` of a buffer are one cell's pixel
/// channels in order.
pub open spec fn color_bytes_at(bytes: Seq<u8>, m: int, pixel: [u8; 4]) -> bool {
    &&& bytes[4 * m] == pixel[0]
    &&& bytes[4 * m + 1] == pixel[1]
    &&& bytes[4 * m + 2] == pixel[2]
    &&& bytes[4 * m + 3] == pixel[3]
}

/// The four bytes starting at slot `4*m` of a pixel buffer encode a live
/// cell as opaque white and a dead cell as opaque black.
pub open spec fn pixel_bytes(bytes: Seq<u8>, m: int, live: bool) -> bool {
    &&& bytes[4 * m] == (if live {
        0xFFu8
    } else {
        0x00u8
    })
    &&& bytes[4 * m + 1] == (if live {
        0xFFu8
    } else {
        0x00u8
    })
    &&& bytes[4 * m + 2] == (if live {
        0xFFu8
    } else {
        0x00u8
    })
    &&& bytes[4 * m + 3] == 0xFFu8
}

} // verus!
