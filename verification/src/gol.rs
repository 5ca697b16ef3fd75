use vstd::prelude::*;
use rand::Rng;
use vstd::arithmetic::div_mod::{
    lemma_fundamental_div_mod,
    lemma_fundamental_div_mod_converse_div,
    lemma_fundamental_div_mod_converse_mod,
    lemma_div_pos_is_pos,
    lemma_mod_division_less_than_divisor,
};

verus! {

// ---------------------------------------------------------------------------
// The model of a board.
//
// A board of `h` rows and `w` columns is a flat sequence of `h * w` cells,
// row by row: cell (i, j) lives at index `w * i + j`.
// ---------------------------------------------------------------------------

/// The index of cell (i, j) on a board of `w` columns.
pub open spec fn cell_index(w: int, i: int, j: int) -> int {
    w * i + j
}

/// Cell (i, j) is on the board and alive; anything off the board is dead.
pub open spec fn alive_at(cells: Seq<bool>, h: int, w: int, i: int, j: int) -> bool {
    0 <= i < h && 0 <= j < w && cells[cell_index(w, i, j)]
}

/// One for true, zero for false.
pub open spec fn bit(b: bool) -> int {
    if b {
        1
    } else {
        0
    }
}

/// The number of live cells among the eight neighbours of (i, j).
pub open spec fn live_neighbours(cells: Seq<bool>, h: int, w: int, i: int, j: int) -> int {
    bit(alive_at(cells, h, w, i - 1, j - 1)) + bit(alive_at(cells, h, w, i - 1, j)) + bit(
        alive_at(cells, h, w, i - 1, j + 1),
    ) + bit(alive_at(cells, h, w, i, j - 1)) + bit(alive_at(cells, h, w, i, j + 1)) + bit(
        alive_at(cells, h, w, i + 1, j - 1),
    ) + bit(alive_at(cells, h, w, i + 1, j)) + bit(alive_at(cells, h, w, i + 1, j + 1))
}

/// Conway's rule: a live cell survives with two or three live neighbours,
/// a dead cell comes alive with exactly three.
pub open spec fn conway(alive: bool, n: int) -> bool {
    if alive {
        n == 2 || n == 3
    } else {
        n == 3
    }
}

/// One generation of the board: the cell at index `p`, in row `p / w` and
/// column `p % w`, takes Conway's rule from the board as it stood.
pub open spec fn next_generation(cells: Seq<bool>, h: int, w: int) -> Seq<bool> {
    Seq::new(
        cells.len(),
        |p: int| conway(cells[p], live_neighbours(cells, h, w, p / w, p % w)),
    )
}

/// `n` dead cells.
pub open spec fn dead_cells(n: nat) -> Seq<bool> {
    Seq::new(n, |p: int| false)
}

/// The board after seeding: a cell is alive when it was alive or its coin,
/// the one at its index, came up.
pub open spec fn seeded(cells: Seq<bool>, coins: Seq<bool>) -> Seq<bool> {
    Seq::new(cells.len(), |p: int| cells[p] || coins[p])
}

/// The term that offset (di, dj) of the 3x3 window around (i, j) adds to
/// the count: nothing for the centre and for offsets past the top or left
/// edge, else whether that neighbour lives.
spec fn window_term(cells: Seq<bool>, h: int, w: int, i: int, j: int, di: int, dj: int) -> int {
    if (di == 1 && dj == 1) || i + di < 1 || j + dj < 1 {
        0
    } else {
        bit(alive_at(cells, h, w, i + di - 1, j + dj - 1))
    }
}

/// The terms of window row `di` with column offset below `upto`.
spec fn window_row(cells: Seq<bool>, h: int, w: int, i: int, j: int, di: int, upto: int) -> int {
    (if upto > 0 {
        window_term(cells, h, w, i, j, di, 0)
    } else {
        0
    }) + (if upto > 1 {
        window_term(cells, h, w, i, j, di, 1)
    } else {
        0
    }) + (if upto > 2 {
        window_term(cells, h, w, i, j, di, 2)
    } else {
        0
    })
}

/// The terms of the window rows above `upto`.
spec fn window_rows(cells: Seq<bool>, h: int, w: int, i: int, j: int, upto: int) -> int {
    (if upto > 0 {
        window_row(cells, h, w, i, j, 0, 3)
    } else {
        0
    }) + (if upto > 1 {
        window_row(cells, h, w, i, j, 1, 3)
    } else {
        0
    }) + (if upto > 2 {
        window_row(cells, h, w, i, j, 2, 3)
    } else {
        0
    })
}

// ---------------------------------------------------------------------------
// Arithmetic facts about the layout.
// ---------------------------------------------------------------------------

/// The sides of a board with cells are no larger than its area.
proof fn lemma_sides(h: int, w: int)
    requires
        0 < h,
        0 < w,
        h * w <= isize::MAX,
    ensures
        h <= isize::MAX,
        w <= isize::MAX,
{
    assert(h <= h * w && w <= h * w) by (nonlinear_arith)
        requires
            0 < h,
            0 < w,
    ;
}

/// The index of a cell lies inside the board, and the next cell's index
/// follows it.
proof fn lemma_index_bounds(h: int, w: int, i: int, j: int)
    requires
        0 <= i < h,
        0 <= j < w,
    ensures
        0 <= w * i + j < h * w,
        w * i + j + 1 <= h * w,
{
    assert(0 <= w * i && w * i + w <= w * h) by (nonlinear_arith)
        requires
            0 <= i < h,
            0 <= j < w,
    ;
    assert(w * h == h * w) by (nonlinear_arith);
}

/// Different cells have different indices.
proof fn lemma_index_unique(w: int, a: int, b: int, i: int, j: int)
    requires
        0 <= b < w,
        0 <= j < w,
        w * a + b == w * i + j,
    ensures
        a == i,
        b == j,
{
    assert(w * (a - i) == j - b) by (nonlinear_arith)
        requires
            w * a + b == w * i + j,
    ;
    if a > i {
        assert(w * (a - i) >= w) by (nonlinear_arith)
            requires
                a - i >= 1,
                w > 0,
        ;
    } else if a < i {
        assert(w * (i - a) >= w) by (nonlinear_arith)
            requires
                i - a >= 1,
                w > 0,
        ;
        assert(w * (a - i) == -(w * (i - a))) by (nonlinear_arith);
    }
}

/// Index `p` of a board is the index of the cell in row `p / w`, column
/// `p % w`.
proof fn lemma_index_split(h: int, w: int, p: int)
    requires
        0 <= h,
        0 <= p < h * w,
    ensures
        0 <= p / w < h,
        0 <= p % w < w,
        cell_index(w, p / w, p % w) == p,
{
    if w <= 0 {
        assert(h * w <= 0) by (nonlinear_arith)
            requires
                w <= 0,
                h >= 0,
        ;
    }
    lemma_fundamental_div_mod(p, w);
    lemma_div_pos_is_pos(p, w);
    lemma_mod_division_less_than_divisor(p, w);
    let q = p / w;
    if q >= h {
        assert(w * q >= w * h) by (nonlinear_arith)
            requires
                q >= h,
                w > 0,
        ;
        assert(w * h == h * w) by (nonlinear_arith);
    }
}

/// The cell at (i, j) has row `p / w` and column `p % w` of its index `p`.
proof fn lemma_index_row_col(w: int, i: int, j: int)
    requires
        0 <= i,
        0 <= j < w,
    ensures
        cell_index(w, i, j) / w == i,
        cell_index(w, i, j) % w == j,
{
    let p = cell_index(w, i, j);
    assert(p == i * w + j) by (nonlinear_arith)
        requires
            p == w * i + j,
    ;
    lemma_fundamental_div_mod_converse_div(p, w, i, j);
    lemma_fundamental_div_mod_converse_mod(p, w, i, j);
}

// ---------------------------------------------------------------------------
// Laws of a generation.
// ---------------------------------------------------------------------------

/// Every cell (i, j) of the next generation is Conway's rule applied to the
/// cell and its eight neighbours.
pub proof fn lemma_generation_cell(cells: Seq<bool>, h: int, w: int, i: int, j: int)
    requires
        cells.len() == h * w,
        0 <= i < h,
        0 <= j < w,
    ensures
        next_generation(cells, h, w)[cell_index(w, i, j)] == conway(
            alive_at(cells, h, w, i, j),
            live_neighbours(cells, h, w, i, j),
        ),
{
    lemma_index_bounds(h, w, i, j);
    lemma_index_row_col(w, i, j);
}

/// Conway's rule, cell by cell: a cell is alive in the next generation
/// exactly when it has three live neighbours, or it is alive and has two.
/// So a live cell with fewer than two live neighbours dies of loneliness,
/// one with four or more dies of overpopulation, one with two or three
/// survives, and a dead cell with exactly three comes to life.
pub proof fn lemma_generation_rule(cells: Seq<bool>, h: int, w: int, i: int, j: int)
    requires
        cells.len() == h * w,
        0 <= i < h,
        0 <= j < w,
    ensures
        next_generation(cells, h, w)[cell_index(w, i, j)] <==> (live_neighbours(cells, h, w, i, j)
            == 3 || (alive_at(cells, h, w, i, j) && live_neighbours(cells, h, w, i, j) == 2)),
        alive_at(cells, h, w, i, j) && live_neighbours(cells, h, w, i, j) < 2
            ==> !next_generation(cells, h, w)[cell_index(w, i, j)],
        alive_at(cells, h, w, i, j) && live_neighbours(cells, h, w, i, j) >= 4
            ==> !next_generation(cells, h, w)[cell_index(w, i, j)],
        alive_at(cells, h, w, i, j) && 2 <= live_neighbours(cells, h, w, i, j) <= 3
            ==> next_generation(cells, h, w)[cell_index(w, i, j)],
        !alive_at(cells, h, w, i, j) ==> (next_generation(cells, h, w)[cell_index(w, i, j)]
            <==> live_neighbours(cells, h, w, i, j) == 3),
{
    lemma_generation_cell(cells, h, w, i, j);
}

/// A board with no live cell stays without one.
pub proof fn lemma_empty_stays_empty(cells: Seq<bool>, h: int, w: int)
    requires
        0 <= h,
        0 <= w,
        cells.len() == h * w,
        forall|p: int| 0 <= p < cells.len() ==> !#[trigger] cells[p],
    ensures
        forall|p: int| 0 <= p < cells.len() ==> !#[trigger] next_generation(cells, h, w)[p],
{
    assert forall|p: int| 0 <= p < cells.len() implies !#[trigger] next_generation(
        cells,
        h,
        w,
    )[p] by {
        assert(live_neighbours(cells, h, w, p / w, p % w) == 0) by {
            assert forall|a: int, b: int| !#[trigger] alive_at(cells, h, w, a, b) by {
                if 0 <= a < h && 0 <= b < w {
                    lemma_index_bounds(h, w, a, b);
                    assert(!cells[cell_index(w, a, b)]);
                }
            }
        }
    }
}

/// Mirroring a square board left to right and taking a generation gives
/// the mirror of the generation: the rule favours no side.
pub proof fn lemma_generation_mirrors_columns(c: Seq<bool>, d: Seq<bool>, n: int)
    requires
        c.len() == n * n,
        d.len() == n * n,
        forall|i: int, j: int|
            #![trigger d[cell_index(n, i, j)]]
            0 <= i < n && 0 <= j < n ==> d[cell_index(n, i, j)] == c[cell_index(n, i, n - 1 - j)],
    ensures
        forall|i: int, j: int|
            #![trigger next_generation(d, n, n)[cell_index(n, i, j)]]
            0 <= i < n && 0 <= j < n ==> next_generation(d, n, n)[cell_index(n, i, j)]
                == next_generation(c, n, n)[cell_index(n, i, n - 1 - j)],
{
    assert forall|a: int, b: int| #[trigger] alive_at(d, n, n, a, b) == alive_at(c, n, n, a, n - 1 - b) by {
        if 0 <= a < n && 0 <= b < n {
            assert(d[cell_index(n, a, b)] == c[cell_index(n, a, n - 1 - b)]);
        }
    }
    assert forall|i: int, j: int|
        0 <= i < n && 0 <= j < n implies #[trigger] next_generation(d, n, n)[cell_index(n, i, j)]
        == next_generation(c, n, n)[cell_index(n, i, n - 1 - j)] by {
        lemma_generation_cell(d, n, n, i, j);
        lemma_generation_cell(c, n, n, i, n - 1 - j);
        assert(alive_at(d, n, n, i - 1, j - 1) == alive_at(c, n, n, i - 1, n - 1 - (j - 1)));
        assert(alive_at(d, n, n, i - 1, j) == alive_at(c, n, n, i - 1, n - 1 - j));
        assert(alive_at(d, n, n, i - 1, j + 1) == alive_at(c, n, n, i - 1, n - 1 - (j + 1)));
        assert(alive_at(d, n, n, i, j - 1) == alive_at(c, n, n, i, n - 1 - (j - 1)));
        assert(alive_at(d, n, n, i, j) == alive_at(c, n, n, i, n - 1 - j));
        assert(alive_at(d, n, n, i, j + 1) == alive_at(c, n, n, i, n - 1 - (j + 1)));
        assert(alive_at(d, n, n, i + 1, j - 1) == alive_at(c, n, n, i + 1, n - 1 - (j - 1)));
        assert(alive_at(d, n, n, i + 1, j) == alive_at(c, n, n, i + 1, n - 1 - j));
        assert(alive_at(d, n, n, i + 1, j + 1) == alive_at(c, n, n, i + 1, n - 1 - (j + 1)));
    }
}

/// Mirroring a square board top to bottom and taking a generation gives the
/// mirror of the generation.
pub proof fn lemma_generation_mirrors_rows(c: Seq<bool>, d: Seq<bool>, n: int)
    requires
        c.len() == n * n,
        d.len() == n * n,
        forall|i: int, j: int|
            #![trigger d[cell_index(n, i, j)]]
            0 <= i < n && 0 <= j < n ==> d[cell_index(n, i, j)] == c[cell_index(n, n - 1 - i, j)],
    ensures
        forall|i: int, j: int|
            #![trigger next_generation(d, n, n)[cell_index(n, i, j)]]
            0 <= i < n && 0 <= j < n ==> next_generation(d, n, n)[cell_index(n, i, j)]
                == next_generation(c, n, n)[cell_index(n, n - 1 - i, j)],
{
    assert forall|a: int, b: int| #[trigger] alive_at(d, n, n, a, b) == alive_at(c, n, n, n - 1 - a, b) by {
        if 0 <= a < n && 0 <= b < n {
            assert(d[cell_index(n, a, b)] == c[cell_index(n, n - 1 - a, b)]);
        }
    }
    assert forall|i: int, j: int|
        0 <= i < n && 0 <= j < n implies #[trigger] next_generation(d, n, n)[cell_index(n, i, j)]
        == next_generation(c, n, n)[cell_index(n, n - 1 - i, j)] by {
        lemma_generation_cell(d, n, n, i, j);
        lemma_generation_cell(c, n, n, n - 1 - i, j);
        assert(alive_at(d, n, n, i - 1, j - 1) == alive_at(c, n, n, n - 1 - (i - 1), j - 1));
        assert(alive_at(d, n, n, i - 1, j) == alive_at(c, n, n, n - 1 - (i - 1), j));
        assert(alive_at(d, n, n, i - 1, j + 1) == alive_at(c, n, n, n - 1 - (i - 1), j + 1));
        assert(alive_at(d, n, n, i, j - 1) == alive_at(c, n, n, n - 1 - i, j - 1));
        assert(alive_at(d, n, n, i, j) == alive_at(c, n, n, n - 1 - i, j));
        assert(alive_at(d, n, n, i, j + 1) == alive_at(c, n, n, n - 1 - i, j + 1));
        assert(alive_at(d, n, n, i + 1, j - 1) == alive_at(c, n, n, n - 1 - (i + 1), j - 1));
        assert(alive_at(d, n, n, i + 1, j) == alive_at(c, n, n, n - 1 - (i + 1), j));
        assert(alive_at(d, n, n, i + 1, j + 1) == alive_at(c, n, n, n - 1 - (i + 1), j + 1));
    }
}

/// Transposing a square board and taking a generation gives the transpose
/// of the generation.
pub proof fn lemma_generation_transposes(c: Seq<bool>, d: Seq<bool>, n: int)
    requires
        c.len() == n * n,
        d.len() == n * n,
        forall|i: int, j: int|
            #![trigger d[cell_index(n, i, j)]]
            0 <= i < n && 0 <= j < n ==> d[cell_index(n, i, j)] == c[cell_index(n, j, i)],
    ensures
        forall|i: int, j: int|
            #![trigger next_generation(d, n, n)[cell_index(n, i, j)]]
            0 <= i < n && 0 <= j < n ==> next_generation(d, n, n)[cell_index(n, i, j)]
                == next_generation(c, n, n)[cell_index(n, j, i)],
{
    assert forall|a: int, b: int| #[trigger] alive_at(d, n, n, a, b) == alive_at(c, n, n, b, a) by {
        if 0 <= a < n && 0 <= b < n {
            assert(d[cell_index(n, a, b)] == c[cell_index(n, b, a)]);
        }
    }
    assert forall|i: int, j: int|
        0 <= i < n && 0 <= j < n implies #[trigger] next_generation(d, n, n)[cell_index(n, i, j)]
        == next_generation(c, n, n)[cell_index(n, j, i)] by {
        lemma_generation_cell(d, n, n, i, j);
        lemma_generation_cell(c, n, n, j, i);
        assert(alive_at(d, n, n, i - 1, j - 1) == alive_at(c, n, n, j - 1, i - 1));
        assert(alive_at(d, n, n, i - 1, j) == alive_at(c, n, n, j, i - 1));
        assert(alive_at(d, n, n, i - 1, j + 1) == alive_at(c, n, n, j + 1, i - 1));
        assert(alive_at(d, n, n, i, j - 1) == alive_at(c, n, n, j - 1, i));
        assert(alive_at(d, n, n, i, j) == alive_at(c, n, n, j, i));
        assert(alive_at(d, n, n, i, j + 1) == alive_at(c, n, n, j + 1, i));
        assert(alive_at(d, n, n, i + 1, j - 1) == alive_at(c, n, n, j - 1, i + 1));
        assert(alive_at(d, n, n, i + 1, j) == alive_at(c, n, n, j, i + 1));
        assert(alive_at(d, n, n, i + 1, j + 1) == alive_at(c, n, n, j + 1, i + 1));
    }
}

// ---------------------------------------------------------------------------
// Randomness.
// ---------------------------------------------------------------------------

#[verifier::external_type_specification]
#[verifier::external_body]
pub struct ExThreadRng(rand::rngs::ThreadRng);

/// `rand::thread_rng`: a handle on the thread-local generator. Nothing is
/// claimed of its state.
#[verifier::external_body]
fn thread_rng() -> rand::rngs::ThreadRng {
    rand::thread_rng()
}

/// `rand::Rng::gen_ratio`: true with probability `numerator / denominator`.
/// It panics when `denominator` is zero or smaller than `numerator`, so
/// those inputs are excluded. The outcome is chance; the only claims are the
/// two certain cases, which `Bernoulli::from_ratio` and its `sample` decide
/// before drawing (a zero ratio never succeeds, a whole one always does).
#[verifier::external_body]
fn gen_ratio(rng: &mut rand::rngs::ThreadRng, numerator: u32, denominator: u32) -> (hit: bool)
    requires
        0 < denominator,
        numerator <= denominator,
    ensures
        numerator == 0 ==> !hit,
        numerator == denominator ==> hit,
{
    rng.gen_ratio(numerator, denominator)
}

// ---------------------------------------------------------------------------
// The board.
// ---------------------------------------------------------------------------

/// A Game of Life board of `dims.0` rows and `dims.1` columns.
pub struct GameOfLife {
    grid: Vec<bool>,
    dims: (usize, usize),
}

impl GameOfLife {
    #[verifier::type_invariant]
    spec fn well_formed(self) -> bool {
        &&& self.grid.len() == self.dims.0 * self.dims.1
        &&& self.dims.0 * self.dims.1 <= isize::MAX
    }

    /// The cells, row by row, at the indices that `cell_index` gives.
    pub closed spec fn cells(self) -> Seq<bool> {
        self.grid@
    }

    /// The number of rows.
    pub closed spec fn height(self) -> nat {
        self.dims.0 as nat
    }

    /// The number of columns.
    pub closed spec fn width(self) -> nat {
        self.dims.1 as nat
    }

    /// Return a random GOL of specified dimensions: every cell is alive or
    /// dead by the toss of a fair coin. A board whose cells would not fit in
    /// memory is refused.
    pub fn with_size(h: usize, w: usize) -> (game: Self)
        requires
            h * w <= isize::MAX,
        ensures
            game.height() == h,
            game.width() == w,
            game.cells().len() == h * w,
            exists|coins: Seq<bool>|
                coins.len() == h * w && game.cells() == #[trigger] seeded(
                    dead_cells((h * w) as nat),
                    coins,
                ),
    {
        let mut g: Vec<bool> = Vec::with_capacity(h * w);
        g.resize(h * w, false);
        assert(g@ =~= dead_cells((h * w) as nat)) by {
            assert forall|p: int| 0 <= p < h * w implies !#[trigger] g@[p] by {
                assert(cloned::<bool>(false, g@[p]));
            }
        }
        let mut game = GameOfLife { grid: g, dims: (h, w) };
        game.randomize();
        game
    }

    /// Bring each cell to life with probability one half; cells that are
    /// alive stay alive.
    pub fn randomize(&mut self)
        ensures
            final(self).height() == old(self).height(),
            final(self).width() == old(self).width(),
            final(self).cells().len() == old(self).cells().len(),
            exists|coins: Seq<bool>|
                coins.len() == old(self).cells().len() && final(self).cells() == #[trigger] seeded(
                    old(self).cells(),
                    coins,
                ),
            forall|p: int|
                0 <= p < old(self).cells().len() && #[trigger] old(self).cells()[p]
                    ==> final(self).cells()[p],
    {
        proof {
            use_type_invariant(&*self);
        }
        let mut rng = thread_rng();
        let h = self.dims.0;
        let w = self.dims.1;
        // One fair coin per cell, in the order of the cells.
        let mut coins: Vec<bool> = Vec::new();
        assert(w * 0 == 0) by (nonlinear_arith);
        for i in 0..h
            invariant
                h == self.dims.0,
                w == self.dims.1,
                h * w <= isize::MAX,
                coins.len() == w * i,
        {
            for j in 0..w
                invariant
                    h == self.dims.0,
                    w == self.dims.1,
                    i < h,
                    h * w <= isize::MAX,
                    coins.len() == w * i + j,
            {
                proof {
                    lemma_index_bounds(h as int, w as int, i as int, j as int);
                }
                coins.push(gen_ratio(&mut rng, 1, 2));
            }
            assert(w * i + w == w * (i + 1)) by (nonlinear_arith);
        }
        assert(w * h == h * w) by (nonlinear_arith);
        self.seed(&coins);
    }

    /// Bring to life each cell whose coin, the one at the cell's index, came
    /// up: a cell ends alive when it was alive or its coin came up.
    pub fn seed(&mut self, coins: &Vec<bool>)
        requires
            coins.len() == old(self).cells().len(),
        ensures
            final(self).height() == old(self).height(),
            final(self).width() == old(self).width(),
            final(self).cells() == seeded(old(self).cells(), coins@),
    {
        proof {
            use_type_invariant(&*self);
        }
        let h = self.dims.0;
        let w = self.dims.1;
        let mut g = self.grid.clone();
        assert(g@ =~= self.grid@) by {
            assert forall|p: int| 0 <= p < g.len() implies g@[p] == self.grid@[p] by {
                assert(cloned::<bool>(self.grid@[p], g@[p]));
            }
        }
        assert(w * 0 == 0) by (nonlinear_arith);
        for i in 0..h
            invariant
                h == self.dims.0,
                w == self.dims.1,
                self.grid.len() == h * w,
                h * w <= isize::MAX,
                coins.len() == h * w,
                g.len() == h * w,
                forall|p: int|
                    0 <= p < h * w ==> #[trigger] g@[p] == (self.grid@[p] || (p < w * i
                        && coins@[p])),
        {
            for j in 0..w
                invariant
                    h == self.dims.0,
                    w == self.dims.1,
                    i < h,
                    self.grid.len() == h * w,
                    h * w <= isize::MAX,
                    coins.len() == h * w,
                    g.len() == h * w,
                    forall|p: int|
                        0 <= p < h * w ==> #[trigger] g@[p] == (self.grid@[p] || (p < w * i + j
                            && coins@[p])),
            {
                proof {
                    lemma_index_bounds(h as int, w as int, i as int, j as int);
                }
                let p = self.pos(i, j);
                if coins[p] {
                    g.set(p, true);
                }
            }
            assert(w * i + w == w * (i + 1)) by (nonlinear_arith);
        }
        assert(w * h == h * w) by (nonlinear_arith);
        assert(g@ =~= seeded(self.grid@, coins@));
        self.grid = g;
    }

    /// A board of `h` rows and `w` columns with the given cells, row by row,
    /// when there are `h * w` of them.
    pub fn from_cells(grid: Vec<bool>, h: usize, w: usize) -> (game: Option<Self>)
        ensures
            game is Some <==> (grid.len() == h * w && h * w <= isize::MAX),
            game matches Some(g) ==> g.cells() == grid@ && g.height() == h && g.width() == w,
    {
        match h.checked_mul(w) {
            Some(n) => {
                if n == grid.len() && n <= isize::MAX as usize {
                    Some(GameOfLife { grid: grid, dims: (h, w) })
                } else {
                    None
                }
            },
            None => None,
        }
    }

    /// The number of rows and of columns.
    pub fn dims(&self) -> (d: (usize, usize))
        ensures
            d.0 == self.height(),
            d.1 == self.width(),
            self.height() * self.width() <= isize::MAX,
    {
        proof {
            use_type_invariant(self);
        }
        self.dims
    }

    /// The cells, row by row.
    pub fn grid(&self) -> (g: &Vec<bool>)
        ensures
            g@ == self.cells(),
            g.len() == self.height() * self.width(),
            self.height() * self.width() <= isize::MAX,
    {
        proof {
            use_type_invariant(self);
        }
        &self.grid
    }

    /// Return the position in the vector for the (i, j) coords of the cell.
    pub fn pos(&self, i: usize, j: usize) -> (p: usize)
        requires
            self.width() * i + j <= usize::MAX,
        ensures
            p == cell_index(self.width() as int, i as int, j as int),
    {
        self.dims.1 * i + j
    }

    /// Return the state of a particular cell; cells off the board are dead.
    pub fn get(&self, i: usize, j: usize) -> (alive: bool)
        ensures
            alive == alive_at(self.cells(), self.height() as int, self.width() as int, i as int, j as int),
    {
        proof {
            use_type_invariant(self);
        }
        if i >= self.dims.0 {
            return false;
        } else if j >= self.dims.1 {
            return false;
        }
        proof {
            lemma_index_bounds(self.dims.0 as int, self.dims.1 as int, i as int, j as int);
        }
        return self.grid[self.pos(i, j)];
    }

    /// Return the count of neighbors for a particular cell.
    pub fn count(&self, i: usize, j: usize) -> (n: usize)
        requires
            i + 2 <= usize::MAX,
            j + 2 <= usize::MAX,
        ensures
            n == live_neighbours(self.cells(), self.height() as int, self.width() as int, i as int, j as int),
    {
        let ghost cells = self.cells();
        let ghost h = self.height() as int;
        let ghost w = self.width() as int;
        let mut count: usize = 0;
        for di in 0..3usize
            invariant
                i + 2 <= usize::MAX,
                j + 2 <= usize::MAX,
                cells == self.cells(),
                h == self.height() as int,
                w == self.width() as int,
                count == window_rows(cells, h, w, i as int, j as int, di as int),
                count <= 3 * di,
        {
            for dj in 0..3usize
                invariant
                    i + 2 <= usize::MAX,
                    j + 2 <= usize::MAX,
                    di < 3,
                    cells == self.cells(),
                    h == self.height() as int,
                    w == self.width() as int,
                    count == window_rows(cells, h, w, i as int, j as int, di as int) + window_row(
                        cells,
                        h,
                        w,
                        i as int,
                        j as int,
                        di as int,
                        dj as int,
                    ),
                    count <= 3 * di + dj,
            {
                // The centre is no neighbour; offsets past the top or left
                // edge name no cell.
                let skip = (di == 1 && dj == 1) || i + di < 1 || j + dj < 1;
                if !skip {
                    let alive = self.get(i + di - 1, j + dj - 1);
                    if alive {
                        count += 1;
                    }
                }
            }
        }
        count
    }

    /// The neighbour count of every cell, at the cell's index.
    fn neighbour_counts(&self) -> (counts: Vec<usize>)
        ensures
            counts.len() == self.cells().len(),
            forall|a: int, b: int|
                #![trigger cell_index(self.width() as int, a, b)]
                0 <= a < self.height() && 0 <= b < self.width() ==> counts@[cell_index(
                    self.width() as int,
                    a,
                    b,
                )] as int == live_neighbours(self.cells(), self.height() as int, self.width() as int, a, b),
    {
        proof {
            use_type_invariant(self);
        }
        let h = self.dims.0;
        let w = self.dims.1;
        let mut counts: Vec<usize> = Vec::with_capacity(h * w);
        counts.resize(h * w, 0);
        assert(w * 0 == 0) by (nonlinear_arith);
        for i in 0..h
            invariant
                h == self.dims.0,
                w == self.dims.1,
                self.grid.len() == h * w,
                h * w <= isize::MAX,
                counts.len() == h * w,
                forall|a: int, b: int|
                    #![trigger cell_index(w as int, a, b)]
                    0 <= a < h && 0 <= b < w && cell_index(w as int, a, b) < w * i
                        ==> counts@[cell_index(w as int, a, b)] as int == live_neighbours(
                        self.grid@,
                        h as int,
                        w as int,
                        a,
                        b,
                    ),
        {
            for j in 0..w
                invariant
                    h == self.dims.0,
                    w == self.dims.1,
                    i < h,
                    self.grid.len() == h * w,
                    h * w <= isize::MAX,
                    counts.len() == h * w,
                    forall|a: int, b: int|
                        #![trigger cell_index(w as int, a, b)]
                        0 <= a < h && 0 <= b < w && cell_index(w as int, a, b) < w * i + j
                            ==> counts@[cell_index(w as int, a, b)] as int == live_neighbours(
                            self.grid@,
                            h as int,
                            w as int,
                            a,
                            b,
                        ),
            {
                proof {
                    lemma_index_bounds(h as int, w as int, i as int, j as int);
                    lemma_sides(h as int, w as int);
                }
                let p = self.pos(i, j);
                let c = self.count(i, j);
                let ghost prev = counts@;
                counts.set(p, c);
                assert forall|a: int, b: int|
                    0 <= a < h && 0 <= b < w && cell_index(w as int, a, b) < w * i + j + 1 implies
                    #[trigger] counts@[cell_index(w as int, a, b)] as int == live_neighbours(
                    self.grid@,
                    h as int,
                    w as int,
                    a,
                    b,
                ) by {
                    if cell_index(w as int, a, b) == p {
                        lemma_index_unique(w as int, a, b, i as int, j as int);
                    } else {
                        assert(counts@[cell_index(w as int, a, b)] == prev[cell_index(w as int, a, b)]);
                    }
                }
            }
            assert(w * i + w == w * (i + 1)) by (nonlinear_arith);
        }
        assert(w * h == h * w) by (nonlinear_arith);
        assert forall|a: int, b: int| 0 <= a < h && 0 <= b < w implies #[trigger] cell_index(w as int, a, b) < w * h by {
            lemma_index_bounds(h as int, w as int, a, b);
        }
        counts
    }
}

/// A world that takes updates from the outside and advances by ticks.
pub trait World {
    /// Update with some information from the outside world.
    fn update(&self, msg: String);

    /// Advance the world by one step.
    fn tick(&mut self);
}

impl World for GameOfLife {
    /// Updates from the outside leave the board as it is.
    fn update(&self, msg: String) {
    }

    /// Update the gameboard with a new generation.
    fn tick(&mut self)
        ensures
            final(self).height() == old(self).height(),
            final(self).width() == old(self).width(),
            final(self).cells() == next_generation(
                old(self).cells(),
                old(self).height() as int,
                old(self).width() as int,
            ),
    {
        proof {
            use_type_invariant(&*self);
        }
        let h = self.dims.0;
        let w = self.dims.1;
        // Pass one: the neighbour counts, taken from the board as it stands.
        let counts = self.neighbour_counts();
        // Pass two: the new generation.
        let mut next = self.grid.clone();
        assert(next@ =~= self.grid@) by {
            assert forall|p: int| 0 <= p < next.len() implies next@[p] == self.grid@[p] by {
                assert(cloned::<bool>(self.grid@[p], next@[p]));
            }
        }
        assert(w * 0 == 0) by (nonlinear_arith);
        for i in 0..h
            invariant
                h == self.dims.0,
                w == self.dims.1,
                self.grid.len() == h * w,
                h * w <= isize::MAX,
                counts.len() == h * w,
                next.len() == h * w,
                forall|p: int|
                    0 <= p < h * w ==> #[trigger] next@[p] == if p < w * i {
                        conway(self.grid@[p], counts@[p] as int)
                    } else {
                        self.grid@[p]
                    },
        {
            for j in 0..w
                invariant
                    h == self.dims.0,
                    w == self.dims.1,
                    i < h,
                    self.grid.len() == h * w,
                    h * w <= isize::MAX,
                    counts.len() == h * w,
                    next.len() == h * w,
                    forall|p: int|
                        0 <= p < h * w ==> #[trigger] next@[p] == if p < w * i + j {
                            conway(self.grid@[p], counts@[p] as int)
                        } else {
                            self.grid@[p]
                        },
            {
                proof {
                    lemma_index_bounds(h as int, w as int, i as int, j as int);
                }
                let p = self.pos(i, j);
                let alive = next[p];
                let c = counts[p];
                if alive {
                    if c < 2 || c > 3 {
                        next.set(p, false);
                    } else {
                        next.set(p, true);
                    }
                } else {
                    if c == 3 {
                        next.set(p, true);
                    }
                }
            }
            assert(w * i + w == w * (i + 1)) by (nonlinear_arith);
        }
        assert(w * h == h * w) by (nonlinear_arith);
        assert(next@ =~= next_generation(self.grid@, h as int, w as int)) by {
            assert forall|p: int| 0 <= p < next.len() implies next@[p] == next_generation(
                self.grid@,
                h as int,
                w as int,
            )[p] by {
                lemma_index_split(h as int, w as int, p);
                let a = p / (w as int);
                let b = p % (w as int);
                assert(0 <= a < self.height() && 0 <= b < self.width());
                assert(cell_index(self.width() as int, a, b) == p);
                assert(counts@[cell_index(w as int, a, b)] as int == live_neighbours(
                    self.grid@,
                    h as int,
                    w as int,
                    a,
                    b,
                ));
            }
        }
        self.grid = next;
    }
}

} // verus!
