//! Rectangular tables: rows are samples, columns are features.

use vstd::prelude::*;
use crate::error::InvalidArgument;

verus! {

/// A rectangular table stored row after row.
///
/// The entry type is left open: the table only moves entries around.
pub struct Table<T> {
    cells: Vec<T>,
    height: usize,
    width: usize,
}

/// Place of the entry in row `r` and column `c` when a table of width `w` is
/// stored row after row.
pub open spec fn cell_index(w: int, r: int, c: int) -> int {
    r * w + c
}

/// An entry inside an `h` by `w` table has a place inside the row-major buffer.
pub proof fn lemma_cell_in_bounds(h: int, w: int, r: int, c: int)
    requires
        0 <= r < h,
        0 <= c < w,
    ensures
        0 <= r * w + c < h * w,
        r * w + c < (r + 1) * w,
        (r + 1) * w <= h * w,
{
    assert(r * w >= 0) by (nonlinear_arith)
        requires
            r >= 0,
            w >= 0,
    ;
    assert((r + 1) * w == r * w + w) by (nonlinear_arith);
    assert((r + 1) * w <= h * w) by (nonlinear_arith)
        requires
            r + 1 <= h,
            w >= 0,
    ;
}

impl<T> Table<T> {
    #[verifier::type_invariant]
    spec fn well_formed(&self) -> bool {
        self.cells.len() == self.height * self.width
    }

    /// Number of rows.
    pub closed spec fn height(&self) -> nat {
        self.height as nat
    }

    /// Number of columns.
    pub closed spec fn width(&self) -> nat {
        self.width as nat
    }

    /// The entry in row `r` and column `c`.
    pub closed spec fn at(&self, r: int, c: int) -> T {
        self.cells@[cell_index(self.width as int, r, c)]
    }
}

impl<T: Copy> Table<T> {
    /// Reads a buffer as a table of `rows` by `cols`, row after row. The buffer
    /// must hold exactly `rows * cols` entries.
    pub fn from_flat(cells: Vec<T>, rows: usize, cols: usize) -> (out: Result<Table<T>, InvalidArgument>)
        ensures
            out.is_ok() <==> cells.len() == rows * cols,
            out.is_err() ==> out == Err::<Table<T>, InvalidArgument>(
                InvalidArgument::ShapeMismatch { rows, cols, len: cells.len() },
            ),
            out.is_ok() ==> {
                let t = out.unwrap();
                &&& t.height() == rows
                &&& t.width() == cols
                &&& forall|r: int, c: int|
                    0 <= r < rows && 0 <= c < cols ==> #[trigger] t.at(r, c) == cells[cell_index(
                        cols as int,
                        r,
                        c,
                    )]
            },
    {
        let len = cells.len();
        let fits = match rows.checked_mul(cols) {
            Some(n) => n == len,
            None => false,
        };
        if fits {
            Ok(Table { cells, height: rows, width: cols })
        } else {
            Err(InvalidArgument::ShapeMismatch { rows, cols, len })
        }
    }

    /// Number of rows.
    pub fn rows(&self) -> (n: usize)
        ensures
            n == self.height(),
    {
        self.height
    }

    /// Number of columns.
    pub fn cols(&self) -> (n: usize)
        ensures
            n == self.width(),
    {
        self.width
    }

    /// The entry in row `r` and column `c`.
    pub fn get(&self, r: usize, c: usize) -> (x: T)
        requires
            r < self.height(),
            c < self.width(),
        ensures
            x == self.at(r as int, c as int),
    {
        proof {
            use_type_invariant(self);
            lemma_cell_in_bounds(self.height as int, self.width as int, r as int, c as int);
        }
        self.cells[r * self.width + c]
    }

    /// The entries of row `r`, left to right.
    pub fn row(&self, r: usize) -> (out: Vec<T>)
        requires
            r < self.height(),
        ensures
            out.len() == self.width(),
            forall|c: int| 0 <= c < self.width() ==> #[trigger] out[c] == self.at(r as int, c),
    {
        let mut out: Vec<T> = Vec::new();
        let mut c: usize = 0;
        while c < self.width
            invariant
                r < self.height(),
                c <= self.width,
                out.len() == c,
                forall|k: int| 0 <= k < c ==> out[k] == self.at(r as int, k),
            decreases self.width - c,
        {
            out.push(self.get(r, c));
            c += 1;
        }
        out
    }

    /// The entries of column `c`, top to bottom.
    pub fn column(&self, c: usize) -> (out: Vec<T>)
        requires
            c < self.width(),
        ensures
            out.len() == self.height(),
            forall|r: int| 0 <= r < self.height() ==> #[trigger] out[r] == self.at(r, c as int),
    {
        let mut out: Vec<T> = Vec::new();
        let mut r: usize = 0;
        while r < self.height
            invariant
                c < self.width(),
                r <= self.height,
                out.len() == r,
                forall|k: int| 0 <= k < r ==> out[k] == self.at(k, c as int),
            decreases self.height - r,
        {
            out.push(self.get(r, c));
            r += 1;
        }
        out
    }
}

/// Number of pairs `(i, j)` with `i <= j < n`: the entries on and above the
/// diagonal of an `n` by `n` table.
pub open spec fn pair_count(n: int) -> int {
    (n * (n + 1)) / 2
}

/// Slot of the first pair of row `i` when the pairs are listed row by row.
pub open spec fn row_start(n: int, i: int) -> int {
    i * n - (i * (i - 1)) / 2
}

/// Slot of the pair `(i, j)`, `i <= j < n`, when the pairs are listed row by
/// row: `(0, 0), (0, 1), .., (0, n - 1), (1, 1), ..`.
pub open spec fn pair_slot(n: int, i: int, j: int) -> int {
    row_start(n, i) + (j - i)
}

/// Slot of the pair that the entry `(a, b)` of a symmetric table is read from:
/// the pair itself on and above the diagonal, its mirror image below.
pub open spec fn mirror_slot(n: int, a: int, b: int) -> int {
    if a <= b {
        pair_slot(n, a, b)
    } else {
        pair_slot(n, b, a)
    }
}

proof fn lemma_consecutive_product_even(i: int)
    requires
        i >= 0,
    ensures
        (i * (i - 1)) % 2 == 0,
        i * (i - 1) >= 0,
    decreases i,
{
    if i == 0 {
        assert(0 * (0 - 1) == 0) by (nonlinear_arith);
    } else {
        lemma_consecutive_product_even(i - 1);
        let a = (i - 1) * (i - 2);
        assert(i * (i - 1) == a + 2 * (i - 1)) by (nonlinear_arith)
            requires
                a == (i - 1) * (i - 2),
        ;
    }
}

/// Row `i` holds the `n - i` pairs `(i, i), .., (i, n - 1)`; the next row
/// starts right after them. The first row starts at slot 0 and the rows
/// together fill `pair_count(n)` slots.
pub proof fn lemma_row_start(n: int, i: int)
    requires
        0 <= i <= n,
    ensures
        row_start(n, 0) == 0,
        row_start(n, i + 1) == row_start(n, i) + (n - i),
        0 <= row_start(n, i) <= row_start(n, n),
        row_start(n, n) == pair_count(n),
    decreases n - i,
{
    assert(row_start(n, 0) == 0) by {
        assert(0 * n == 0) by (nonlinear_arith);
        assert(0 * (0 - 1) == 0) by (nonlinear_arith);
    }
    assert(row_start(n, i + 1) == row_start(n, i) + (n - i)) by {
        let a = i * (i - 1);
        assert((i + 1) * i == a + 2 * i) by (nonlinear_arith)
            requires
                a == i * (i - 1),
        ;
        assert((i + 1) * n == i * n + n) by (nonlinear_arith);
    }
    assert(row_start(n, n) == pair_count(n)) by {
        lemma_consecutive_product_even(n);
        let a = n * (n - 1);
        assert(n * (n + 1) == 2 * (n * n) - a) by (nonlinear_arith)
            requires
                a == n * (n - 1),
        ;
    }
    assert(row_start(n, i) >= 0) by {
        lemma_consecutive_product_even(i);
        let a = i * (i - 1);
        assert(2 * (i * n) >= a) by (nonlinear_arith)
            requires
                a == i * (i - 1),
                0 <= i <= n,
        ;
    }
    if i < n {
        lemma_row_start(n, i + 1);
    }
}

/// Every pair has its slot among the `pair_count(n)` slots.
pub proof fn lemma_pair_slot_in_bounds(n: int, i: int, j: int)
    requires
        0 <= i <= j < n,
    ensures
        0 <= pair_slot(n, i, j) < pair_count(n),
{
    lemma_row_start(n, i);
    lemma_row_start(n, i + 1);
}

/// Slots follow the row-by-row order of the pairs.
pub proof fn lemma_pair_slot_order(n: int, a: int, b: int, i: int, j: int)
    requires
        0 <= a <= b < n,
        0 <= i <= j <= n,
        i < n,
        a < i || (a == i && b < j),
    ensures
        pair_slot(n, a, b) < pair_slot(n, i, j),
    decreases i - a,
{
    if a < i {
        lemma_row_start(n, a);
        if a + 1 < i {
            lemma_pair_slot_order(n, a + 1, a + 1, i, j);
        }
    }
}

/// Lists the pairs `(i, j)` with `i <= j < n` row by row, each at its slot.
pub fn upper_pairs(n: usize) -> (out: Vec<(usize, usize)>)
    ensures
        out.len() == pair_count(n as int),
        forall|i: int, j: int|
            0 <= i <= j < n ==> out[#[trigger] pair_slot(n as int, i, j)] == (i as usize, j as usize),
{
    let mut out: Vec<(usize, usize)> = Vec::new();
    let mut i: usize = 0;
    proof {
        lemma_row_start(n as int, 0);
    }
    while i < n
        invariant
            i <= n,
            out.len() == row_start(n as int, i as int),
            forall|a: int, b: int|
                0 <= a <= b < n && a < i ==> out[#[trigger] pair_slot(n as int, a, b)] == (
                    a as usize,
                    b as usize,
                ),
        decreases n - i,
    {
        let mut j: usize = i;
        while j < n
            invariant
                i < n,
                i <= j <= n,
                out.len() == pair_slot(n as int, i as int, j as int),
                forall|a: int, b: int|
                    0 <= a <= b < n && (a < i || (a == i && b < j)) ==> out[#[trigger] pair_slot(
                        n as int,
                        a,
                        b,
                    )] == (a as usize, b as usize),
            decreases n - j,
        {
            proof {
                assert forall|a: int, b: int|
                    0 <= a <= b < n && (a < i || (a == i && b < j)) implies 0 <= #[trigger] pair_slot(
                    n as int,
                    a,
                    b,
                ) < out.len() by {
                    lemma_pair_slot_order(n as int, a, b, i as int, j as int);
                    lemma_pair_slot_in_bounds(n as int, a, b);
                }
            }
            out.push((i, j));
            j += 1;
        }
        proof {
            lemma_row_start(n as int, i as int);
        }
        i += 1;
    }
    proof {
        lemma_row_start(n as int, n as int);
    }
    out
}

impl<T: Copy> Table<T> {
    /// Builds the symmetric `n` by `n` table whose entries on and above the
    /// diagonal are given row by row in `upper`; the entries below mirror them.
    pub fn symmetric(n: usize, upper: &Vec<T>) -> (out: Result<Table<T>, InvalidArgument>)
        ensures
            out.is_ok() <==> upper.len() == pair_count(n as int) && n * n <= usize::MAX,
            upper.len() != pair_count(n as int) ==> out == Err::<Table<T>, InvalidArgument>(
                InvalidArgument::ShapeMismatch { rows: n, cols: n, len: upper.len() },
            ),
            upper.len() == pair_count(n as int) && n * n > usize::MAX ==> out == Err::<
                Table<T>,
                InvalidArgument,
            >(InvalidArgument::TooLarge),
            out.is_ok() ==> {
                let t = out.unwrap();
                &&& t.height() == n
                &&& t.width() == n
                &&& forall|i: int, j: int|
                    0 <= i <= j < n ==> #[trigger] t.at(i, j) == upper[pair_slot(n as int, i, j)]
                &&& forall|i: int, j: int| 0 <= i < n && 0 <= j < n ==> #[trigger] t.at(i, j) == t.at(j, i)
            },
    {
        let wide: u128 = n as u128;
        assert(wide * (wide + 1) <= 0xffff_ffff_ffff_ffff * 0x1_0000_0000_0000_0000) by (nonlinear_arith)
            requires
                0 <= wide <= 0xffff_ffff_ffff_ffff,
        ;
        let pairs: u128 = wide * (wide + 1) / 2;
        if upper.len() as u128 != pairs {
            return Err(InvalidArgument::ShapeMismatch { rows: n, cols: n, len: upper.len() });
        }
        let total = match n.checked_mul(n) {
            Some(t) => t,
            None => {
                return Err(InvalidArgument::TooLarge);
            },
        };
        let mut cells: Vec<T> = Vec::new();
        let mut r: usize = 0;
        proof {
            assert(0 * n == 0) by (nonlinear_arith);
        }
        while r < n
            invariant
                r <= n,
                total == n * n,
                upper.len() == pair_count(n as int),
                cells.len() == r * n,
                forall|a: int, b: int|
                    0 <= a < r && 0 <= b < n ==> cells[#[trigger] cell_index(n as int, a, b)]
                        == upper[mirror_slot(n as int, a, b)],
            decreases n - r,
        {
            let mut c: usize = 0;
            while c < n
                invariant
                    r < n,
                    c <= n,
                    total == n * n,
                    upper.len() == pair_count(n as int),
                    cells.len() == r * n + c,
                    forall|a: int, b: int|
                        0 <= a < n && 0 <= b < n && (a < r || (a == r && b < c)) ==> cells[#[trigger] cell_index(
                            n as int,
                            a,
                            b,
                        )] == upper[mirror_slot(n as int, a, b)],
                decreases n - c,
            {
                let i = if r <= c { r } else { c };
                let j = if r <= c { c } else { r };
                proof {
                    lemma_pair_slot_in_bounds(n as int, i as int, j as int);
                    lemma_row_start(n as int, i as int);
                    lemma_consecutive_product_even(i as int);
                    assert(i * n <= n * n) by (nonlinear_arith)
                        requires
                            0 <= i < n,
                    ;
                    assert(i * (i - 1) <= i * n) by (nonlinear_arith)
                        requires
                            0 <= i < n,
                    ;
                    assert(mirror_slot(n as int, r as int, c as int) == pair_slot(n as int, i as int, j as int));
                    assert forall|a: int, b: int|
                        0 <= a < n && 0 <= b < n && (a < r || (a == r && b < c)) implies #[trigger] cell_index(
                        n as int,
                        a,
                        b,
                    ) < cells.len() by {
                        lemma_cell_in_bounds(n as int, n as int, a, b);
                        if a < r {
                            assert((a + 1) * n <= r * n) by (nonlinear_arith)
                                requires
                                    a + 1 <= r,
                                    n >= 0,
                            ;
                        }
                    }
                    assert(cell_index(n as int, r as int, c as int) == cells.len());
                }
                let below = if i == 0 {
                    0
                } else {
                    i * (i - 1) / 2
                };
                let slot = i * n - below + (j - i);
                assert(slot == pair_slot(n as int, i as int, j as int));
                cells.push(upper[slot]);
                c += 1;
            }
            proof {
                assert((r + 1) * n == r * n + n) by (nonlinear_arith);
            }
            r += 1;
        }
        let t = Table { cells, height: n, width: n };
        proof {
            assert forall|i: int, j: int| 0 <= i <= j < n implies #[trigger] t.at(i, j) == upper[pair_slot(
                n as int,
                i,
                j,
            )] by {
                assert(mirror_slot(n as int, i, j) == pair_slot(n as int, i, j));
                assert(t.at(i, j) == t.cells@[cell_index(n as int, i, j)]);
            }
            assert forall|i: int, j: int| 0 <= i < n && 0 <= j < n implies #[trigger] t.at(i, j) == t.at(
                j,
                i,
            ) by {
                assert(t.at(i, j) == t.cells@[cell_index(n as int, i, j)]);
                assert(t.at(j, i) == t.cells@[cell_index(n as int, j, i)]);
                assert(mirror_slot(n as int, i, j) == mirror_slot(n as int, j, i));
            }
        }
        Ok(t)
    }
}

} // verus!
