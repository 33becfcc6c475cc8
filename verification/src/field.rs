//! The ground truth of a board: where the mines are, and for every other
//! cell how many of its neighbours are mines.

use crate::chance::pick;
use crate::laws::lemma_mines_within_draws;
use crate::tally::count_grid;
use crate::tally::count_row;
use crate::tally::lemma_count_grid_push;
use crate::tally::lemma_count_row_push;
use rand::thread_rng;
use vstd::prelude::*;

verus! {

/// What a cell really holds.
#[derive(Clone, Copy, Debug, PartialEq, Eq, Structural)]
pub enum TileState {
    Mine,
    Number(u32),
}

/// `(x, y)` occurs in the list of drawn positions.
pub open spec fn listed(positions: Seq<(u32, u32)>, x: int, y: int) -> bool {
    exists|i: int| 0 <= i < positions.len() && (#[trigger] positions[i]).0 == x && positions[i].1 == y
}

/// `(x, y)` is a cell of a `width` by `height` grid and was drawn as a mine.
pub open spec fn planted(positions: Seq<(u32, u32)>, width: int, height: int, x: int, y: int) -> bool {
    0 <= x < width && 0 <= y < height && listed(positions, x, y)
}

/// One if `(x, y)` is a planted mine, else zero.
pub open spec fn planted_one(positions: Seq<(u32, u32)>, width: int, height: int, x: int, y: int) -> nat {
    if planted(positions, width, height, x, y) {
        1
    } else {
        0
    }
}

/// How many of the up to eight cells around `(x, y)` are planted mines.
/// Neighbours outside the grid do not count.
pub open spec fn adjacent_mines(
    positions: Seq<(u32, u32)>,
    width: int,
    height: int,
    x: int,
    y: int,
) -> nat {
    planted_one(positions, width, height, x - 1, y - 1)
        + planted_one(positions, width, height, x, y - 1)
        + planted_one(positions, width, height, x + 1, y - 1)
        + planted_one(positions, width, height, x - 1, y)
        + planted_one(positions, width, height, x + 1, y)
        + planted_one(positions, width, height, x - 1, y + 1)
        + planted_one(positions, width, height, x, y + 1)
        + planted_one(positions, width, height, x + 1, y + 1)
}

/// The fact that generation assigns to cell `(x, y)`.
pub open spec fn fact_for(
    positions: Seq<(u32, u32)>,
    width: int,
    height: int,
    x: int,
    y: int,
) -> TileState {
    if listed(positions, x, y) {
        TileState::Mine
    } else {
        TileState::Number(adjacent_mines(positions, width, height, x, y) as u32)
    }
}

/// `facts` is the `width` by `height` grid generated from `positions`.
pub open spec fn laid_out(
    facts: Seq<Seq<TileState>>,
    width: int,
    height: int,
    positions: Seq<(u32, u32)>,
) -> bool {
    &&& facts.len() == height
    &&& forall|y: int| 0 <= y < height ==> (#[trigger] facts[y]).len() == width
    &&& forall|x: int, y: int|
        0 <= x < width && 0 <= y < height ==> #[trigger] facts[y][x] == fact_for(
            positions,
            width,
            height,
            x,
            y,
        )
}

/// `(x, y)` is a cell of the grid and holds a mine.
pub open spec fn mine_at(facts: Seq<Seq<TileState>>, x: int, y: int) -> bool {
    0 <= y < facts.len() && 0 <= x < facts[y].len() && facts[y][x] == TileState::Mine
}

/// One if `(x, y)` holds a mine, else zero.
pub open spec fn mine_one(facts: Seq<Seq<TileState>>, x: int, y: int) -> nat {
    if mine_at(facts, x, y) {
        1
    } else {
        0
    }
}

/// How many of the up to eight in-grid cells around `(x, y)` hold a mine.
#[verifier::opaque]
pub open spec fn mines_around(facts: Seq<Seq<TileState>>, x: int, y: int) -> nat {
    mine_one(facts, x - 1, y - 1) + mine_one(facts, x, y - 1) + mine_one(facts, x + 1, y - 1)
        + mine_one(facts, x - 1, y) + mine_one(facts, x + 1, y) + mine_one(facts, x - 1, y + 1)
        + mine_one(facts, x, y + 1) + mine_one(facts, x + 1, y + 1)
}

/// The predicate "is a mine" on facts.
pub open spec fn mine_fact() -> spec_fn(TileState) -> bool {
    |t: TileState| t == TileState::Mine
}

/// The number of mines that the grid holds.
pub open spec fn mine_total(facts: Seq<Seq<TileState>>) -> nat {
    count_grid(facts, mine_fact())
}

/// `positions` is a possible outcome of drawing `mines` cells of a `width`
/// by `height` grid: that many pairs, each inside the grid. A grid without
/// cells offers nothing to draw, and then the list is empty.
pub open spec fn drawn(positions: Seq<(u32, u32)>, width: int, height: int, mines: int) -> bool {
    &&& positions.len() == if width > 0 && height > 0 {
        mines
    } else {
        0
    }
    &&& forall|i: int|
        0 <= i < positions.len() ==> (#[trigger] positions[i]).0 < width && positions[i].1 < height
}

/// The numbers `0, 1, .., n - 1` in order.
fn span(n: u32) -> (range: Vec<u32>)
    ensures
        range@.len() == n,
        forall|i: int| 0 <= i < n ==> #[trigger] range@[i] == i,
{
    let mut range: Vec<u32> = Vec::new();
    let mut k: u32 = 0;
    while k < n
        invariant
            k <= n,
            range@.len() == k,
            forall|i: int| 0 <= i < k ==> #[trigger] range@[i] == i,
        decreases n - k,
    {
        range.push(k);
        k = k + 1;
    }
    range
}

/// Counts the mines of one row.
fn row_mines(row: &Vec<TileState>) -> (n: usize)
    ensures
        n == count_row(row@, mine_fact()),
        n <= row@.len(),
{
    let mut n: usize = 0;
    let mut x: usize = 0;
    while x < row.len()
        invariant
            x <= row.len(),
            n <= x,
            n == count_row(row@.take(x as int), mine_fact()),
        decreases row.len() - x,
    {
        proof {
            lemma_count_row_push(row@.take(x as int), row@[x as int], mine_fact());
            assert(row@.take(x as int).push(row@[x as int]) =~= row@.take(x + 1));
        }
        if row[x] == TileState::Mine {
            n = n + 1;
        }
        x = x + 1;
    }
    assert(row@.take(row@.len() as int) =~= row@);
    n
}

/// Whether `(x, y)` is among the drawn positions.
pub fn is_mine(positions: &Vec<(u32, u32)>, x: u32, y: u32) -> (found: bool)
    ensures
        found == listed(positions@, x as int, y as int),
{
    let mut i: usize = 0;
    while i < positions.len()
        invariant
            i <= positions.len(),
            forall|j: int| 0 <= j < i ==> !((#[trigger] positions@[j]).0 == x && positions@[j].1 == y),
        decreases positions.len() - i,
    {
        let p = positions[i];
        if p.0 == x && p.1 == y {
            return true;
        }
        i = i + 1;
    }
    false
}

/// Whether the cell at signed coordinates `(x, y)` lies in the grid and was
/// drawn as a mine.
fn mine_near(positions: &Vec<(u32, u32)>, width: u32, height: u32, x: i64, y: i64) -> (found: bool)
    ensures
        found == planted(positions@, width as int, height as int, x as int, y as int),
{
    if 0 <= x && x < width as i64 && 0 <= y && y < height as i64 {
        is_mine(positions, x as u32, y as u32)
    } else {
        false
    }
}

/// Counts the drawn mines among the in-grid neighbours of `(x, y)`.
pub fn count_mines(positions: &Vec<(u32, u32)>, width: u32, height: u32, x: u32, y: u32) -> (n: u32)
    ensures
        n == adjacent_mines(positions@, width as int, height as int, x as int, y as int),
{
    let cx: i64 = x as i64;
    let cy: i64 = y as i64;
    let mut n: u32 = 0;
    if mine_near(positions, width, height, cx - 1, cy - 1) {
        n = n + 1;
    }
    if mine_near(positions, width, height, cx, cy - 1) {
        n = n + 1;
    }
    if mine_near(positions, width, height, cx + 1, cy - 1) {
        n = n + 1;
    }
    if mine_near(positions, width, height, cx - 1, cy) {
        n = n + 1;
    }
    if mine_near(positions, width, height, cx + 1, cy) {
        n = n + 1;
    }
    if mine_near(positions, width, height, cx - 1, cy + 1) {
        n = n + 1;
    }
    if mine_near(positions, width, height, cx, cy + 1) {
        n = n + 1;
    }
    if mine_near(positions, width, height, cx + 1, cy + 1) {
        n = n + 1;
    }
    n
}

/// The immutable mine layout of one game.
#[derive(Clone, Debug, PartialEq, Eq)]
pub struct Field(Vec<Vec<TileState>>);

impl View for Field {
    type V = Seq<Seq<TileState>>;

    closed spec fn view(&self) -> Seq<Seq<TileState>> {
        Seq::new(self.0@.len(), |y: int| self.0@[y]@)
    }
}

impl Field {
    /// Number of rows.
    pub open spec fn rows(&self) -> nat {
        self@.len()
    }

    /// Number of columns: the length of the first row, zero without rows.
    pub open spec fn cols(&self) -> nat {
        if self@.len() > 0 {
            self@[0].len()
        } else {
            0
        }
    }

    /// The grid is rectangular, its sides fit in 32 bits, and every number
    /// is the count of the mines around its cell.
    pub open spec fn wf(&self) -> bool {
        &&& self.rows() <= u32::MAX
        &&& self.cols() <= u32::MAX
        &&& forall|y: int| 0 <= y < self.rows() ==> (#[trigger] self@[y]).len() == self.cols()
        &&& forall|x: int, y: int|
            0 <= x < self.cols() && 0 <= y < self.rows() ==> match #[trigger] self@[y][x] {
                TileState::Mine => true,
                TileState::Number(k) => k == mines_around(self@, x, y),
            }
    }

    /// Builds the layout of a `width` by `height` grid from the drawn
    /// positions. A position may occur more than once and then plants one
    /// mine; one outside the grid plants none.
    pub fn with_mines(width: u32, height: u32, positions: &Vec<(u32, u32)>) -> (field: Field)
        ensures
            field.wf(),
            laid_out(field@, width as int, height as int, positions@),
    {
        let mut tiles: Vec<Vec<TileState>> = Vec::new();
        let mut y: u32 = 0;
        while y < height
            invariant
                y <= height,
                tiles@.len() == y,
                forall|j: int| 0 <= j < y ==> (#[trigger] tiles@[j])@.len() == width,
                forall|i: int, j: int|
                    0 <= i < width && 0 <= j < y ==> #[trigger] tiles@[j]@[i] == fact_for(
                        positions@,
                        width as int,
                        height as int,
                        i,
                        j,
                    ),
            decreases height - y,
        {
            let mut row: Vec<TileState> = Vec::new();
            let mut x: u32 = 0;
            while x < width
                invariant
                    x <= width,
                    y < height,
                    row@.len() == x,
                    forall|i: int|
                        0 <= i < x ==> #[trigger] row@[i] == fact_for(
                            positions@,
                            width as int,
                            height as int,
                            i,
                            y as int,
                        ),
                decreases width - x,
            {
                let tile = if is_mine(positions, x, y) {
                    TileState::Mine
                } else {
                    TileState::Number(count_mines(positions, width, height, x, y))
                };
                row.push(tile);
                x = x + 1;
            }
            tiles.push(row);
            y = y + 1;
        }
        let field = Field(tiles);
        proof {
            assert(laid_out(field@, width as int, height as int, positions@));
            lemma_laid_out_counts(field@, width as int, height as int, positions@);
        }
        field
    }

    /// Draws `mines` cells of the grid at random, each draw independent of
    /// the others, and builds the layout from them. Two draws may name the
    /// same cell, so fewer than `mines` mines may be planted.
    pub fn new(width: u32, height: u32, mines: usize) -> (field: Field)
        ensures
            field.wf(),
            mine_total(field@) <= mines,
            exists|positions: Seq<(u32, u32)>|
                drawn(positions, width as int, height as int, mines as int) && #[trigger] laid_out(
                    field@,
                    width as int,
                    height as int,
                    positions,
                ),
    {
        let mut rng = thread_rng();
        let width_range = span(width);
        let height_range = span(height);
        let mut mine_positions: Vec<(u32, u32)> = Vec::new();
        if width > 0 && height > 0 {
            let mut i: usize = 0;
            while i < mines
                invariant
                    i <= mines,
                    width > 0,
                    height > 0,
                    width_range@.len() == width,
                    height_range@.len() == height,
                    forall|j: int| 0 <= j < width ==> #[trigger] width_range@[j] == j,
                    forall|j: int| 0 <= j < height ==> #[trigger] height_range@[j] == j,
                    mine_positions@.len() == i,
                    forall|j: int|
                        0 <= j < i ==> (#[trigger] mine_positions@[j]).0 < width
                            && mine_positions@[j].1 < height,
                decreases mines - i,
            {
                let x = pick(&mut rng, &width_range);
                let y = pick(&mut rng, &height_range);
                if let (Some(x), Some(y)) = (x, y) {
                    mine_positions.push((x, y));
                }
                i = i + 1;
            }
        }
        let field = Field::with_mines(width, height, &mine_positions);
        proof {
            assert(drawn(mine_positions@, width as int, height as int, mines as int));
            lemma_mines_within_draws(field@, width as int, height as int, mine_positions@);
        }
        field
    }

    /// The number of mines in the grid.
    pub fn mine_count(&self) -> (n: u64)
        requires
            self.wf(),
        ensures
            n == mine_total(self@),
            n <= self.rows() * self.cols(),
    {
        let mut n: u64 = 0;
        let mut y: usize = 0;
        let ghost cols = self.cols();
        while y < self.0.len()
            invariant
                self.wf(),
                cols == self.cols(),
                y <= self.0.len(),
                self.0@.len() == self.rows(),
                n == count_grid(self@.take(y as int), mine_fact()),
                n <= cols * y,
            decreases self.0.len() - y,
        {
            let k = row_mines(&self.0[y]);
            proof {
                lemma_count_grid_push(self@.take(y as int), self@[y as int], mine_fact());
                assert(self@.take(y as int).push(self@[y as int]) =~= self@.take(y + 1));
                assert(self@[y as int].len() == cols);
                assert(cols * (y + 1) == cols * y + cols) by (nonlinear_arith);
                assert(cols * (y + 1) <= 0xffff_ffff * 0xffff_ffff) by (nonlinear_arith)
                    requires
                        cols <= 0xffff_ffff,
                        y + 1 <= 0xffff_ffff,
                ;
            }
            n = n + k as u64;
            y = y + 1;
        }
        proof {
            assert(self@.take(self@.len() as int) =~= self@);
            assert(cols * self.rows() == self.rows() * cols) by (nonlinear_arith);
        }
        n
    }

    /// Number of rows.
    pub fn height(&self) -> (h: usize)
        ensures
            h == self.rows(),
    {
        self.0.len()
    }

    /// Number of columns.
    pub fn width(&self) -> (w: usize)
        ensures
            w == self.cols(),
    {
        if self.0.len() > 0 {
            self.0[0].len()
        } else {
            0
        }
    }

    /// The fact at column `x`, row `y`, if there is such a cell.
    pub fn fact(&self, x: usize, y: usize) -> (t: Option<TileState>)
        ensures
            t == if y < self.rows() && x < self@[y as int].len() {
                Some(self@[y as int][x as int])
            } else {
                None
            },
    {
        if y < self.0.len() && x < self.0[y].len() {
            Some(self.0[y][x])
        } else {
            None
        }
    }

    /// The fact at column `x`, row `y`.
    pub(crate) fn get(&self, x: usize, y: usize) -> (t: TileState)
        requires
            y < self.rows(),
            x < self@[y as int].len(),
        ensures
            t == self@[y as int][x as int],
    {
        self.0[y][x]
    }
}

/// In a generated grid the mines are the planted positions, so counting
/// neighbours in the grid and among the positions agree.
pub proof fn lemma_laid_out_counts(
    facts: Seq<Seq<TileState>>,
    width: int,
    height: int,
    positions: Seq<(u32, u32)>,
)
    requires
        laid_out(facts, width, height, positions),
    ensures
        forall|x: int, y: int|
            mine_at(facts, x, y) == planted(positions, width, height, x, y),
        forall|x: int, y: int|
            mines_around(facts, x, y) == adjacent_mines(positions, width, height, x, y),
{
    reveal(mines_around);
    assert forall|x: int, y: int|
        mine_at(facts, x, y) == planted(positions, width, height, x, y) by {
        if 0 <= y < height && 0 <= x < width {
            assert(facts[y][x] == fact_for(positions, width, height, x, y));
        }
    }
}

} // verus!
