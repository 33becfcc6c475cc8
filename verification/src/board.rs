//! The player's view of a board and the actions that change it.

use crate::cascade::adjacent;
use crate::cascade::blown;
use crate::cascade::closed_at;
use crate::cascade::closed_total;
use crate::cascade::detonated;
use crate::cascade::in_grid;
use crate::cascade::lemma_no_start;
use crate::cascade::lemma_open_cell;
use crate::cascade::lemma_put_down;
use crate::cascade::lemma_ring_cells;
use crate::cascade::ring_cell;
use crate::cascade::ring_offset;
use crate::cascade::lemma_sweep_begin;
use crate::cascade::lemma_take_in_hand;
use crate::cascade::lemma_reach_start;
use crate::cascade::lemma_sweep_done;
use crate::cascade::reached;
use crate::cascade::ring;
use crate::cascade::sweep_inv;
use crate::cascade::swept;
use crate::cascade::toggled;
use crate::column::column_index;
use crate::column::get_col_num;
use crate::field::drawn;
use crate::field::laid_out;
use crate::field::mine_total;
use crate::field::Field;
use crate::field::TileState;
use crate::cascade::flag_tile;
use crate::cascade::flag_total;
use crate::tally::count_grid;
use crate::tally::count_row;
use crate::tally::lemma_count_grid_push;
use crate::tally::lemma_count_row_push;
use vstd::prelude::*;

verus! {

/// What the player sees of a cell.
#[derive(Clone, Copy, Debug, PartialEq, Eq, Structural)]
pub enum Tile {
    Flag,
    Mark,
    Closed,
    Open,
}

/// A board in play: the tiles the player sees over the layout they hide.
#[derive(Clone, Debug, PartialEq, Eq)]
pub struct FieldView {
    view: Vec<Vec<Tile>>,
    field: Field,
    game_over: bool,
    mines: u64,
}

/// The `k`-th of the eight steps from a cell to the cells around it.
fn ring_step(k: usize) -> (d: (i8, i8))
    requires
        k < 8,
    ensures
        d.0 == ring_offset(k as int).0,
        d.1 == ring_offset(k as int).1,
{
    if k == 0 {
        (0, 1)
    } else if k == 1 {
        (1, 0)
    } else if k == 2 {
        (1, 1)
    } else if k == 3 {
        (-1, 0)
    } else if k == 4 {
        (-1, 1)
    } else if k == 5 {
        (0, -1)
    } else if k == 6 {
        (1, -1)
    } else {
        (-1, -1)
    }
}

/// The index one step from `i`, if there is one: `d` is -1, 0 or 1.
fn shift(i: usize, d: i8) -> (j: Option<usize>)
    requires
        -1 <= d <= 1,
    ensures
        match j {
            Some(v) => v == i + d,
            None => i + d < 0 || i + d > usize::MAX,
        },
{
    if d < 0 {
        if i == 0 {
            None
        } else {
            Some(i - 1)
        }
    } else if d > 0 {
        if i == usize::MAX {
            None
        } else {
            Some(i + 1)
        }
    } else {
        Some(i)
    }
}

/// Counts the flags of one row.
fn row_flags(row: &Vec<Tile>) -> (n: usize)
    ensures
        n == count_row(row@, flag_tile()),
        n <= row@.len(),
{
    let mut n: usize = 0;
    let mut x: usize = 0;
    while x < row.len()
        invariant
            x <= row.len(),
            n <= x,
            n == count_row(row@.take(x as int), flag_tile()),
        decreases row.len() - x,
    {
        proof {
            lemma_count_row_push(row@.take(x as int), row@[x as int], flag_tile());
            assert(row@.take(x as int).push(row@[x as int]) =~= row@.take(x + 1));
        }
        if row[x] == Tile::Flag {
            n = n + 1;
        }
        x = x + 1;
    }
    assert(row@.take(row@.len() as int) =~= row@);
    n
}

impl FieldView {
    /// The tiles, row by row.
    pub closed spec fn tiles(&self) -> Seq<Seq<Tile>> {
        Seq::new(self.view@.len(), |y: int| self.view@[y]@)
    }

    /// The layout under the tiles.
    pub closed spec fn field(&self) -> Field {
        self.field
    }

    /// The facts of the layout, row by row.
    pub open spec fn facts(&self) -> Seq<Seq<TileState>> {
        self.field()@
    }

    /// Whether a mine has been opened.
    pub closed spec fn over(&self) -> bool {
        self.game_over
    }

    /// The recorded number of mines.
    pub closed spec fn mine_tally(&self) -> nat {
        self.mines as nat
    }

    /// The layout is well formed, the tiles cover it cell for cell, and the
    /// recorded number of mines is the number of mines in the layout.
    pub open spec fn wf(&self) -> bool {
        &&& self.field().wf()
        &&& self.tiles().len() == self.field().rows()
        &&& forall|y: int|
            0 <= y < self.tiles().len() ==> (#[trigger] self.tiles()[y]).len() == self.field().cols()
        &&& self.mine_tally() == mine_total(self.facts())
    }

    /// The actions leave the layout and the mine count alone.
    pub open spec fn same_layout(&self, other: &FieldView) -> bool {
        self.field() == other.field() && self.mine_tally() == other.mine_tally()
    }

    /// `after` is this board once the closed cells among `starts` were
    /// opened and every cascade has run. A mine among the opened cells ends
    /// the game; a game that was over stays over.
    pub open spec fn opens(&self, after: &FieldView, starts: Set<(int, int)>) -> bool {
        &&& after.wf()
        &&& after.same_layout(self)
        &&& after.tiles() == swept(self.tiles(), self.facts(), starts)
        &&& after.over() == (self.over() || detonated(self.tiles(), self.facts(), starts))
    }

    /// `after` is this board once `marker` was toggled on the cell `p`.
    pub open spec fn toggles(&self, after: &FieldView, p: (int, int), marker: Tile) -> bool {
        &&& after.wf()
        &&& after.same_layout(self)
        &&& after.over() == self.over()
        &&& after.tiles() == toggled(self.tiles(), p, marker)
        &&& after.tiles() == self.tiles() ==> *after == *self
    }

    /// A cascade from `before` is under way in this board.
    #[verifier::opaque]
    spec fn sweeping(
        &self,
        before: Seq<Seq<Tile>>,
        starts: Set<(int, int)>,
        was_over: bool,
        pending: Seq<(usize, usize)>,
        busy: Option<(int, int)>,
    ) -> bool {
        &&& sweep_inv(before, self.tiles(), self.facts(), starts, pending, busy)
        &&& self.over() == (was_over || blown(before, self.tiles(), self.facts()))
    }

    /// A board over `field` with every cell closed.
    pub fn with_field(field: Field) -> (board: FieldView)
        requires
            field.wf(),
        ensures
            board.wf(),
            board.field() == field,
            !board.over(),
            forall|x: int, y: int|
                0 <= y < field.rows() && 0 <= x < field.cols() ==> #[trigger] board.tiles()[y][x]
                    == Tile::Closed,
    {
        let height = field.height();
        let width = field.width();
        let mut tiles: Vec<Vec<Tile>> = Vec::new();
        let mut y: usize = 0;
        while y < height
            invariant
                y <= height,
                tiles@.len() == y,
                forall|j: int| 0 <= j < y ==> (#[trigger] tiles@[j])@.len() == width,
                forall|i: int, j: int|
                    0 <= j < y && 0 <= i < width ==> #[trigger] tiles@[j]@[i] == Tile::Closed,
            decreases height - y,
        {
            let mut row: Vec<Tile> = Vec::new();
            let mut x: usize = 0;
            while x < width
                invariant
                    x <= width,
                    row@.len() == x,
                    forall|i: int| 0 <= i < x ==> #[trigger] row@[i] == Tile::Closed,
                decreases width - x,
            {
                row.push(Tile::Closed);
                x = x + 1;
            }
            tiles.push(row);
            y = y + 1;
        }
        let mines = field.mine_count();
        FieldView { view: tiles, field: field, game_over: false, mines: mines }
    }

    /// A fresh board of `width` by `height` closed cells over a layout for
    /// which `mines` cells were drawn at random.
    pub fn new(width: u32, height: u32, mines: usize) -> (board: FieldView)
        ensures
            board.wf(),
            !board.over(),
            board.mine_tally() <= mines,
            board.tiles().len() == height,
            forall|x: int, y: int|
                0 <= y < height && 0 <= x < width ==> #[trigger] board.tiles()[y][x]
                    == Tile::Closed,
            exists|positions: Seq<(u32, u32)>|
                drawn(positions, width as int, height as int, mines as int) && #[trigger] laid_out(
                    board.facts(),
                    width as int,
                    height as int,
                    positions,
                ),
    {
        let field = Field::new(width, height, mines);
        FieldView::with_field(field)
    }

    /// Whether no mine has been opened yet.
    pub fn in_play(&self) -> (playing: bool)
        ensures
            playing == !self.over(),
    {
        self.game_over == false
    }

    /// Number of rows.
    pub fn height(&self) -> (h: usize)
        ensures
            h == self.tiles().len(),
    {
        self.view.len()
    }

    /// Number of columns: the length of the first row, zero without rows.
    pub fn width(&self) -> (w: usize)
        ensures
            w == if self.tiles().len() > 0 {
                self.tiles()[0].len()
            } else {
                0
            },
    {
        if self.view.len() > 0 {
            self.view[0].len()
        } else {
            0
        }
    }

    /// The number of mines in the layout.
    pub fn mines(&self) -> (n: u64)
        ensures
            n == self.mine_tally(),
    {
        self.mines
    }

    /// The number of flags that the player has set.
    pub fn flags(&self) -> (n: u64)
        requires
            self.wf(),
        ensures
            n == flag_total(self.tiles()),
            n <= self.field().rows() * self.field().cols(),
    {
        let mut n: u64 = 0;
        let mut y: usize = 0;
        let ghost cols = self.field().cols();
        while y < self.view.len()
            invariant
                self.wf(),
                cols == self.field().cols(),
                y <= self.view.len(),
                self.view@.len() == self.field().rows(),
                n == count_grid(self.tiles().take(y as int), flag_tile()),
                n <= cols * y,
            decreases self.view.len() - y,
        {
            let k = row_flags(&self.view[y]);
            proof {
                let tiles = self.tiles();
                lemma_count_grid_push(tiles.take(y as int), tiles[y as int], flag_tile());
                assert(tiles.take(y as int).push(tiles[y as int]) =~= tiles.take(y + 1));
                assert(tiles[y as int].len() == cols);
                assert(cols * (y + 1) == cols * y + cols) by (nonlinear_arith);
                assert(cols * (y + 1) <= 0xffff_ffff * 0xffff_ffff) by (nonlinear_arith)
                    requires
                        cols <= 0xffff_ffff,
                        y + 1 <= 0xffff_ffff,
                ;
            }
            n = n + k as u64;
            y = y + 1;
        }
        proof {
            assert(self.tiles().take(self.tiles().len() as int) =~= self.tiles());
            assert(cols * self.field().rows() == self.field().rows() * cols) by (nonlinear_arith);
        }
        n
    }

    /// The tile at column `x`, row `y`, if there is such a cell.
    pub fn tile(&self, x: usize, y: usize) -> (t: Option<Tile>)
        ensures
            t == if in_grid(self.tiles(), (x as int, y as int)) {
                Some(self.tiles()[y as int][x as int])
            } else {
                None
            },
    {
        if y < self.view.len() && x < self.view[y].len() {
            Some(self.view[y][x])
        } else {
            None
        }
    }

    /// The fact under the cell at column `x`, row `y`, if that cell is open.
    /// The fact of any other cell stays hidden.
    pub fn revealed(&self, x: usize, y: usize) -> (t: Option<TileState>)
        requires
            self.wf(),
        ensures
            t == if in_grid(self.tiles(), (x as int, y as int)) && self.tiles()[y as int][x as int]
                == Tile::Open {
                Some(self.facts()[y as int][x as int])
            } else {
                None
            },
    {
        if y < self.view.len() && x < self.view[y].len() && self.view[y][x] == Tile::Open {
            assert(self.tiles()[y as int].len() == self.field().cols());
            Some(self.field.get(x, y))
        } else {
            None
        }
    }

    /// Opens the cell `(x, y)` if it is a closed cell of the grid, notes a
    /// mine, and lists the cell if its surroundings are to be opened too.
    fn visit(
        &mut self,
        pending: &mut Vec<(usize, usize)>,
        x: usize,
        y: usize,
        Ghost(before): Ghost<Seq<Seq<Tile>>>,
        Ghost(starts): Ghost<Set<(int, int)>>,
        Ghost(was_over): Ghost<bool>,
        Ghost(busy): Ghost<Option<(int, int)>>,
    )
        requires
            old(self).wf(),
            old(self).sweeping(before, starts, was_over, old(pending)@, busy),
            closed_at(before, (x as int, y as int)) ==> reached(
                before,
                old(self).facts(),
                starts,
                (x as int, y as int),
            ),
        ensures
            final(self).wf(),
            final(self).sweeping(before, starts, was_over, final(pending)@, busy),
            final(self).same_layout(old(self)),
            !closed_at(final(self).tiles(), (x as int, y as int)),
            forall|q: (int, int)|
                !closed_at(old(self).tiles(), q) ==> !#[trigger] closed_at(final(self).tiles(), q),
            closed_total(final(self).tiles()) <= closed_total(old(self).tiles()),
            closed_total(final(self).tiles()) == closed_total(old(self).tiles()) ==> final(pending)@
                == old(pending)@,
    {
        reveal(FieldView::sweeping);
        if y < self.view.len() && x < self.view[y].len() {
            if self.view[y][x] == Tile::Closed {
                let ghost prior = self.tiles();
                assert(prior[y as int].len() == self.field().cols());
                self.view[y][x] = Tile::Open;
                proof {
                    assert(self.tiles() =~~= prior.update(
                        y as int,
                        prior[y as int].update(x as int, Tile::Open),
                    ));
                    lemma_open_cell(before, prior, self.facts(), starts, pending@, busy, x, y);
                }
                match self.field.get(x, y) {
                    TileState::Mine => {
                        self.game_over = true;
                    },
                    TileState::Number(k) => {
                        if k == 0 {
                            pending.push((x, y));
                        }
                    },
                }
            }
        }
    }

    /// Visits the place `(c + dx, r + dy)`, which may lie outside the grid.
    fn visit_beside(
        &mut self,
        pending: &mut Vec<(usize, usize)>,
        c: usize,
        r: usize,
        dx: i8,
        dy: i8,
        Ghost(before): Ghost<Seq<Seq<Tile>>>,
        Ghost(starts): Ghost<Set<(int, int)>>,
        Ghost(was_over): Ghost<bool>,
        Ghost(busy): Ghost<Option<(int, int)>>,
    )
        requires
            old(self).wf(),
            old(self).sweeping(before, starts, was_over, old(pending)@, busy),
            -1 <= dx <= 1,
            -1 <= dy <= 1,
            closed_at(before, (c + dx, r + dy)) ==> reached(
                before,
                old(self).facts(),
                starts,
                (c + dx, r + dy),
            ),
        ensures
            final(self).wf(),
            final(self).sweeping(before, starts, was_over, final(pending)@, busy),
            final(self).same_layout(old(self)),
            !closed_at(final(self).tiles(), (c + dx, r + dy)),
            forall|q: (int, int)|
                !closed_at(old(self).tiles(), q) ==> !#[trigger] closed_at(final(self).tiles(), q),
            closed_total(final(self).tiles()) <= closed_total(old(self).tiles()),
            closed_total(final(self).tiles()) == closed_total(old(self).tiles()) ==> final(pending)@
                == old(pending)@,
    {
        let x = shift(c, dx);
        let y = shift(r, dy);
        if x.is_some() && y.is_some() {
            self.visit(
                pending,
                x.unwrap(),
                y.unwrap(),
                Ghost(before),
                Ghost(starts),
                Ghost(was_over),
                Ghost(busy),
            );
        } else {
            proof {
                let q = (c + dx, r + dy);
                if in_grid(self.tiles(), q) {
                    assert(self.tiles()[q.1].len() == self.field().cols());
                }
            }
        }
    }

    /// Opens the closed cells around `(c, r)`.
    fn open_around(
        &mut self,
        pending: &mut Vec<(usize, usize)>,
        c: usize,
        r: usize,
        Ghost(before): Ghost<Seq<Seq<Tile>>>,
        Ghost(starts): Ghost<Set<(int, int)>>,
        Ghost(was_over): Ghost<bool>,
        Ghost(busy): Ghost<Option<(int, int)>>,
    )
        requires
            old(self).wf(),
            old(self).sweeping(before, starts, was_over, old(pending)@, busy),
            forall|q: (int, int)|
                #[trigger] adjacent((c as int, r as int), q) && closed_at(before, q) ==> reached(
                    before,
                    old(self).facts(),
                    starts,
                    q,
                ),
        ensures
            final(self).wf(),
            final(self).sweeping(before, starts, was_over, final(pending)@, busy),
            final(self).same_layout(old(self)),
            forall|q: (int, int)|
                #[trigger] adjacent((c as int, r as int), q) ==> !closed_at(final(self).tiles(), q),
            forall|q: (int, int)|
                !closed_at(old(self).tiles(), q) ==> !#[trigger] closed_at(final(self).tiles(), q),
            closed_total(final(self).tiles()) <= closed_total(old(self).tiles()),
            closed_total(final(self).tiles()) == closed_total(old(self).tiles()) ==> final(pending)@
                == old(pending)@,
    {
        let ghost centre = (c as int, r as int);
        let mut k: usize = 0;
        while k < 8
            invariant
                k <= 8,
                centre == (c as int, r as int),
                self.wf(),
                self.sweeping(before, starts, was_over, pending@, busy),
                self.same_layout(old(self)),
                forall|q: (int, int)|
                    #[trigger] adjacent(centre, q) && closed_at(before, q) ==> reached(
                        before,
                        self.facts(),
                        starts,
                        q,
                    ),
                forall|j: int|
                    0 <= j < k ==> !closed_at(self.tiles(), #[trigger] ring_cell(centre, j)),
                forall|q: (int, int)|
                    !closed_at(old(self).tiles(), q) ==> !#[trigger] closed_at(self.tiles(), q),
                closed_total(self.tiles()) <= closed_total(old(self).tiles()),
                closed_total(self.tiles()) == closed_total(old(self).tiles()) ==> pending@ == old(pending)@,
            decreases 8 - k,
        {
            let d = ring_step(k);
            assert(adjacent(centre, ring_cell(centre, k as int)));
            self.visit_beside(
                pending,
                c,
                r,
                d.0,
                d.1,
                Ghost(before),
                Ghost(starts),
                Ghost(was_over),
                Ghost(busy),
            );
            k = k + 1;
        }
        proof {
            assert forall|q: (int, int)| #[trigger] adjacent(centre, q) implies !closed_at(
                self.tiles(),
                q,
            ) by {
                lemma_ring_cells(centre, q);
            }
        }
    }

    /// Runs the cascade to its end: opens the surroundings of every listed
    /// cell, and of every cell that this lists in turn.
    fn drain(
        &mut self,
        pending: Vec<(usize, usize)>,
        Ghost(before): Ghost<Seq<Seq<Tile>>>,
        Ghost(starts): Ghost<Set<(int, int)>>,
        Ghost(was_over): Ghost<bool>,
    )
        requires
            old(self).wf(),
            old(self).sweeping(before, starts, was_over, pending@, None),
            forall|s: (int, int)| starts.contains(s) ==> !closed_at(old(self).tiles(), s),
        ensures
            final(self).wf(),
            final(self).same_layout(old(self)),
            final(self).tiles() == swept(before, old(self).facts(), starts),
            final(self).over() == (was_over || detonated(before, old(self).facts(), starts)),
    {
        let mut pending = pending;
        while pending.len() > 0
            invariant
                self.wf(),
                self.sweeping(before, starts, was_over, pending@, None),
                self.same_layout(old(self)),
                forall|s: (int, int)| starts.contains(s) ==> !closed_at(self.tiles(), s),
            decreases closed_total(self.tiles()), pending.len(),
        {
            let ghost listed_before = pending@;
            let cell = pending.pop().unwrap();
            let ghost p = (cell.0 as int, cell.1 as int);
            proof {
                reveal(FieldView::sweeping);
                lemma_take_in_hand(before, self.tiles(), self.facts(), starts, listed_before);
            }
            self.open_around(
                &mut pending,
                cell.0,
                cell.1,
                Ghost(before),
                Ghost(starts),
                Ghost(was_over),
                Ghost(Some(p)),
            );
            proof {
                reveal(FieldView::sweeping);
                lemma_put_down(before, self.tiles(), self.facts(), starts, pending@, p);
            }
        }
        proof {
            reveal(FieldView::sweeping);
            assert(pending@ =~= Seq::empty());
            lemma_sweep_done(before, self.tiles(), self.facts(), starts);
        }
    }

    /// Opens the cell at column `col`, row `row`, if it is a closed cell of
    /// the grid, and lets the opening cascade: around every opened cell
    /// that has no mine next to it, the closed cells are opened too.
    /// Opening a mine ends the game.
    pub fn select_square(&mut self, col: usize, row: usize)
        requires
            old(self).wf(),
        ensures
            old(self).opens(final(self), set![(col as int, row as int)]),
            closed_at(old(self).tiles(), (col as int, row as int)) ==> final(self).tiles()[row as int][col as int] == Tile::Open,
            !closed_at(old(self).tiles(), (col as int, row as int)) ==> *final(self) == *old(self),
    {
        let ghost before = self.tiles();
        let ghost starts = set![(col as int, row as int)];
        let ghost was_over = self.over();
        if row < self.view.len() && col < self.view[0].len() {
            assert(self.tiles()[0].len() == self.field().cols());
            assert(self.tiles()[row as int].len() == self.field().cols());
            let tile = self.view[row][col];
            if tile == Tile::Closed {
                let mut pending: Vec<(usize, usize)> = Vec::new();
                proof {
                    reveal(FieldView::sweeping);
                    lemma_sweep_begin(before, self.facts(), starts);
                    lemma_reach_start(before, self.facts(), starts, (col as int, row as int));
                }
                self.visit(
                    &mut pending,
                    col,
                    row,
                    Ghost(before),
                    Ghost(starts),
                    Ghost(was_over),
                    Ghost(None),
                );
                self.drain(pending, Ghost(before), Ghost(starts), Ghost(was_over));
                proof {
                    lemma_reach_start(before, self.facts(), starts, (col as int, row as int));
                }
                return ;
            }
        }
        proof {
            assert(self.tiles().len() > 0 ==> self.tiles()[0].len() == self.field().cols());
            assert(!closed_at(before, (col as int, row as int)));
            lemma_no_start(before, self.facts(), starts);
        }
    }

    /// Opens the closed cells around column `c`, row `r`, whatever the cell
    /// there holds and whether or not there is one, each with its cascade.
    pub fn select_surrounding(&mut self, c: usize, r: usize)
        requires
            old(self).wf(),
        ensures
            old(self).opens(final(self), ring(c as int, r as int)),
            r > old(self).tiles().len() || c > old(self).field().cols() ==> *final(self) == *old(self),
    {
        let ghost before = self.tiles();
        let ghost starts = ring(c as int, r as int);
        let ghost was_over = self.over();
        let height = self.view.len();
        assert(self.tiles().len() > 0 ==> self.tiles()[0].len() == self.field().cols());
        if height == 0 || r > height || c > self.view[0].len() {
            proof {
                assert(self.tiles().len() > 0 ==> self.tiles()[0].len() == self.field().cols());
                assert forall|s: (int, int)| starts.contains(s) implies !closed_at(before, s) by {
                    if in_grid(before, s) {
                        assert(before[s.1].len() == self.field().cols());
                    }
                }
                lemma_no_start(before, self.facts(), starts);
            }
            return ;
        }
        let mut pending: Vec<(usize, usize)> = Vec::new();
        proof {
            reveal(FieldView::sweeping);
            lemma_sweep_begin(before, self.facts(), starts);
            assert forall|q: (int, int)| #[trigger]
                adjacent((c as int, r as int), q) && closed_at(before, q) implies reached(
                before,
                self.facts(),
                starts,
                q,
            ) by {
                lemma_reach_start(before, self.facts(), starts, q);
            }
        }
        self.open_around(
            &mut pending,
            c,
            r,
            Ghost(before),
            Ghost(starts),
            Ghost(was_over),
            Ghost(None),
        );
        self.drain(pending, Ghost(before), Ghost(starts), Ghost(was_over));
    }

    /// Toggles `marker` on the cell `(c, r)`.
    fn toggle(&mut self, c: usize, r: usize, marker: Tile)
        requires
            old(self).wf(),
            marker == Tile::Flag || marker == Tile::Mark,
        ensures
            old(self).toggles(final(self), (c as int, r as int), marker),
    {
        let ghost prior = self.tiles();
        if r < self.view.len() && c < self.view[0].len() {
            assert(self.tiles()[0].len() == self.field().cols());
            assert(self.tiles()[r as int].len() == self.field().cols());
            let tile = self.view[r][c];
            if tile == Tile::Closed {
                self.view[r][c] = marker;
                assert(self.tiles() =~~= prior.update(
                    r as int,
                    prior[r as int].update(c as int, marker),
                ));
                assert(self.tiles()[r as int][c as int] != prior[r as int][c as int]);
            } else if tile == marker {
                self.view[r][c] = Tile::Closed;
                assert(self.tiles() =~~= prior.update(
                    r as int,
                    prior[r as int].update(c as int, Tile::Closed),
                ));
                assert(self.tiles()[r as int][c as int] != prior[r as int][c as int]);
            }
        } else {
            assert(self.tiles().len() > 0 ==> self.tiles()[0].len() == self.field().cols());
            assert(!in_grid(prior, (c as int, r as int)));
        }
    }

    /// Opens the cell in the column named `col` at row `row`, with its
    /// cascade. A cell that is not closed, and a place outside the grid,
    /// leave the board as it is.
    pub fn select(&mut self, col: String, row: u32)
        requires
            old(self).wf(),
        ensures
            old(self).opens(final(self), set![(column_index(col@), row as int)]),
            closed_at(old(self).tiles(), (column_index(col@), row as int)) ==> final(self).tiles()[row as int][column_index(col@)] == Tile::Open,
            !closed_at(old(self).tiles(), (column_index(col@), row as int)) ==> *final(self) == *old(self),
    {
        let c = get_col_num(col) as usize;
        let r = row as usize;
        self.select_square(c, r);
    }

    /// Toggles the question mark of the cell in the column named `col` at
    /// row `row`: a closed cell is marked, a marked cell is closed again,
    /// and any other cell or place leaves the board as it is.
    pub fn mark(&mut self, col: String, row: u32)
        requires
            old(self).wf(),
        ensures
            old(self).toggles(final(self), (column_index(col@), row as int), Tile::Mark),
    {
        let c = get_col_num(col) as usize;
        let r = row as usize;
        self.toggle(c, r, Tile::Mark);
    }

    /// Toggles the flag of the cell in the column named `col` at row `row`:
    /// a closed cell is flagged, a flagged cell is closed again, and any
    /// other cell or place leaves the board as it is.
    pub fn flag(&mut self, col: String, row: u32)
        requires
            old(self).wf(),
        ensures
            old(self).toggles(final(self), (column_index(col@), row as int), Tile::Flag),
    {
        let c = get_col_num(col) as usize;
        let r = row as usize;
        self.toggle(c, r, Tile::Flag);
    }

    /// Opens the closed cells around the place in the column named `col` at
    /// row `row`, each with its cascade. The place itself is left alone and
    /// need not be a cell of the grid.
    pub fn unfold(&mut self, col: String, row: u32)
        requires
            old(self).wf(),
        ensures
            old(self).opens(final(self), ring(column_index(col@), row as int)),
            row > old(self).tiles().len() || column_index(col@) > old(self).field().cols()
                ==> *final(self) == *old(self),
    {
        let c = get_col_num(col) as usize;
        let r = row as usize;
        self.select_surrounding(c, r);
    }
}

} // verus!
