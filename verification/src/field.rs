//! A fixed-size flattened 2D array with one ghost cell on each side.
//!
//! A field of resolution `n` stores `(n + 2) * (n + 2)` cells, row-major:
//! cell `(x, y)` lives at linear index `x + (n + 2) * y`. Cells with a
//! coordinate equal to `0` or `n + 1` are ghost cells; the physical domain is
//! `(1..=n) x (1..=n)`.

use vstd::prelude::*;
use vstd::arithmetic::div_mod::{
    lemma_fundamental_div_mod, lemma_fundamental_div_mod_converse, lemma_mod_bound,
};

verus! {

/// Largest supported grid resolution (interior cells per axis).
pub const MAX_N: usize = 1000;

/// Linear index of cell (x, y) on a grid of resolution n.
pub open spec fn ix(n: int, x: int, y: int) -> int {
    x + (n + 2) * y
}

/// Number of cells a field of resolution n stores, ghost border included.
pub open spec fn grid_len(n: int) -> int {
    (n + 2) * (n + 2)
}

/// The physical domain: ghost cells excluded.
pub open spec fn interior(n: int, x: int, y: int) -> bool {
    1 <= x <= n && 1 <= y <= n
}

/// Any stored cell, ghost border included.
pub open spec fn in_grid(n: int, x: int, y: int) -> bool {
    0 <= x <= n + 1 && 0 <= y <= n + 1
}

/// The all-zero contents of a field of resolution n.
pub open spec fn zero_seq(n: int) -> Seq<i64> {
    Seq::new(grid_len(n) as nat, |t: int| 0i64)
}

pub proof fn lemma_grid_len_bounds(n: int)
    requires
        1 <= n <= MAX_N as int,
    ensures
        9 <= grid_len(n) <= 1004004,
{
    assert(9 <= (n + 2) * (n + 2) <= 1004004) by (nonlinear_arith)
        requires
            1 <= n <= 1000,
    ;
}

pub proof fn lemma_ix_bounds(n: int, x: int, y: int)
    requires
        1 <= n,
        in_grid(n, x, y),
    ensures
        0 <= ix(n, x, y) < grid_len(n),
        0 <= (n + 2) * y <= ix(n, x, y),
{
    assert(0 <= (n + 2) * y && x + (n + 2) * y < (n + 2) * (n + 2)) by (nonlinear_arith)
        requires
            1 <= n,
            0 <= x <= n + 1,
            0 <= y <= n + 1,
    ;
}

pub proof fn lemma_ix_decompose(n: int, x: int, y: int)
    requires
        1 <= n,
        in_grid(n, x, y),
    ensures
        ix(n, x, y) % (n + 2) == x,
        ix(n, x, y) / (n + 2) == y,
{
    assert(ix(n, x, y) == y * (n + 2) + x) by (nonlinear_arith);
    lemma_fundamental_div_mod_converse(ix(n, x, y), n + 2, y, x);
}

pub proof fn lemma_ix_inj(n: int, x1: int, y1: int, x2: int, y2: int)
    requires
        1 <= n,
        in_grid(n, x1, y1),
        in_grid(n, x2, y2),
    ensures
        ix(n, x1, y1) == ix(n, x2, y2) ==> (x1 == x2 && y1 == y2),
{
    if ix(n, x1, y1) == ix(n, x2, y2) {
        lemma_ix_decompose(n, x1, y1);
        lemma_ix_decompose(n, x2, y2);
    }
}

/// A linear index decodes to grid coordinates, and the decoding inverts `ix`.
pub proof fn lemma_decode(n: int, t: int)
    requires
        1 <= n,
        0 <= t < grid_len(n),
    ensures
        in_grid(n, t % (n + 2), t / (n + 2)),
        ix(n, t % (n + 2), t / (n + 2)) == t,
{
    lemma_fundamental_div_mod(t, n + 2);
    lemma_mod_bound(t, n + 2);
    let q = t / (n + 2);
    let r = t % (n + 2);
    assert(0 <= q && q <= n + 1) by (nonlinear_arith)
        requires
            t == (n + 2) * q + r,
            0 <= r < n + 2,
            0 <= t < (n + 2) * (n + 2),
            1 <= n,
    ;
}

/// A scalar field, or one axis of a vector field: resolution plus cells.
pub struct Field {
    n: usize,
    cells: Vec<i64>,
}

impl View for Field {
    type V = Seq<i64>;

    closed spec fn view(&self) -> Seq<i64> {
        self.cells@
    }
}

impl Field {
    /// Grid resolution, as a mathematical integer.
    pub closed spec fn n_int(&self) -> int {
        self.n as int
    }

    /// A field is well formed when its resolution is in range and it stores
    /// exactly one cell per grid position, ghost border included.
    pub open spec fn wf(&self) -> bool {
        1 <= self.n_int() <= MAX_N as int && self@.len() == grid_len(self.n_int())
    }

    /// A zero-initialized field of resolution n.
    pub fn new(n: usize) -> (f: Field)
        requires
            1 <= n <= MAX_N,
        ensures
            f.wf(),
            f.n_int() == n,
            f@ == zero_seq(n as int),
    {
        proof {
            lemma_grid_len_bounds(n as int);
        }
        let len = (n + 2) * (n + 2);
        let mut cells: Vec<i64> = Vec::new();
        while cells.len() < len
            invariant
                cells@.len() <= len,
                len == grid_len(n as int),
                forall|t: int| 0 <= t < cells@.len() ==> cells@[t] == 0i64,
            decreases len - cells@.len(),
        {
            cells.push(0);
        }
        let f = Field { n, cells };
        proof {
            assert(f@ =~= zero_seq(n as int));
        }
        f
    }

    /// The resolution.
    pub fn n(&self) -> (r: usize)
        ensures
            r == self.n_int(),
    {
        self.n
    }

    /// Read cell (x, y), ghost border included.
    pub fn get(&self, x: usize, y: usize) -> (r: i64)
        requires
            self.wf(),
            x <= self.n_int() + 1,
            y <= self.n_int() + 1,
        ensures
            r == self@[ix(self.n_int(), x as int, y as int)],
    {
        proof {
            lemma_ix_bounds(self.n_int(), x as int, y as int);
            lemma_grid_len_bounds(self.n_int());
        }
        self.cells[x + (self.n + 2) * y]
    }

    /// Write cell (x, y), ghost border included.
    pub fn set(&mut self, x: usize, y: usize, val: i64)
        requires
            old(self).wf(),
            x <= old(self).n_int() + 1,
            y <= old(self).n_int() + 1,
        ensures
            final(self).wf(),
            final(self).n_int() == old(self).n_int(),
            final(self)@ == old(self)@.update(
                ix(old(self).n_int(), x as int, y as int),
                val,
            ),
    {
        proof {
            lemma_ix_bounds(self.n_int(), x as int, y as int);
            lemma_grid_len_bounds(self.n_int());
        }
        let idx = x + (self.n + 2) * y;
        self.cells.set(idx, val);
    }
}

} // verus!
