//! One game session: a board of the standard size and the player's moves.

use crate::board::FieldView;
use crate::board::Tile;
use crate::cascade::closed_at;
use crate::cascade::ring;
use crate::column::column_index;
use crate::command::Command;
use crate::command::Request;
use crate::field::drawn;
use crate::field::laid_out;
use vstd::prelude::*;

verus! {

/// Columns of the standard board.
pub const BOARD_WIDTH: u32 = 10;

/// Rows of the standard board.
pub const BOARD_HEIGHT: u32 = 10;

/// Cells drawn as mines for the standard board.
pub const MINE_DRAWS: usize = 30;

/// A game in progress.
pub struct Game {
    board: FieldView,
}

impl Game {
    /// The board that is played on.
    pub closed spec fn board(&self) -> FieldView {
        self.board
    }

    /// The board is well formed.
    pub open spec fn wf(&self) -> bool {
        self.board().wf()
    }

    /// A game on a fresh standard board: ten by ten closed cells over a
    /// layout for which thirty cells were drawn at random.
    pub fn new() -> (game: Game)
        ensures
            game.wf(),
            !game.board().over(),
            game.board().mine_tally() <= MINE_DRAWS,
            game.board().tiles().len() == BOARD_HEIGHT,
            forall|x: int, y: int|
                0 <= y < BOARD_HEIGHT && 0 <= x < BOARD_WIDTH
                    ==> #[trigger] game.board().tiles()[y][x] == Tile::Closed,
            exists|positions: Seq<(u32, u32)>|
                drawn(positions, BOARD_WIDTH as int, BOARD_HEIGHT as int, MINE_DRAWS as int)
                    && #[trigger] laid_out(
                    game.board().facts(),
                    BOARD_WIDTH as int,
                    BOARD_HEIGHT as int,
                    positions,
                ),
    {
        Game { board: FieldView::new(BOARD_WIDTH, BOARD_HEIGHT, MINE_DRAWS) }
    }

    /// A game on the given board.
    pub fn with_board(board: FieldView) -> (game: Game)
        requires
            board.wf(),
        ensures
            game.wf(),
            game.board() == board,
    {
        Game { board: board }
    }

    /// The board, to look at.
    pub fn field_view(&self) -> (board: &FieldView)
        ensures
            *board == self.board(),
    {
        &self.board
    }

    /// Opens the cell in the column named `col` at row `row`, with its
    /// cascade.
    pub fn select(&mut self, col: String, row: u32)
        requires
            old(self).wf(),
        ensures
            old(self).board().opens(&final(self).board(), set![(column_index(col@), row as int)]),
            !closed_at(old(self).board().tiles(), (column_index(col@), row as int)) ==> *final(self)
                == *old(self),
    {
        self.board.select(col, row);
    }

    /// Toggles the question mark of the cell in the column named `col` at
    /// row `row`.
    pub fn mark(&mut self, col: String, row: u32)
        requires
            old(self).wf(),
        ensures
            old(self).board().toggles(
                &final(self).board(),
                (column_index(col@), row as int),
                Tile::Mark,
            ),
    {
        self.board.mark(col, row);
    }

    /// Toggles the flag of the cell in the column named `col` at row `row`.
    pub fn flag(&mut self, col: String, row: u32)
        requires
            old(self).wf(),
        ensures
            old(self).board().toggles(
                &final(self).board(),
                (column_index(col@), row as int),
                Tile::Flag,
            ),
    {
        self.board.flag(col, row);
    }

    /// Opens the closed cells around the place in the column named `col` at
    /// row `row`, each with its cascade.
    pub fn unfold(&mut self, col: String, row: u32)
        requires
            old(self).wf(),
        ensures
            old(self).board().opens(&final(self).board(), ring(column_index(col@), row as int)),
            row > old(self).board().tiles().len() || column_index(col@) > old(self).board().field().cols() ==> *final(self) == *old(self),
    {
        self.board.unfold(col, row);
    }

    /// This game after `request` was carried out: a move acts on the
    /// board, and anything else leaves the game as it is.
    pub open spec fn performs(&self, after: &Game, request: Request) -> bool {
        match request {
            Request::Select(col, row) => self.board().opens(
                &after.board(),
                set![(column_index(col), row as int)],
            ),
            Request::Flag(col, row) => self.board().toggles(
                &after.board(),
                (column_index(col), row as int),
                Tile::Flag,
            ),
            Request::Mark(col, row) => self.board().toggles(
                &after.board(),
                (column_index(col), row as int),
                Tile::Mark,
            ),
            Request::Unfold(col, row) => self.board().opens(
                &after.board(),
                ring(column_index(col), row as int),
            ),
            Request::Exit => *after == *self,
            Request::Nothing => *after == *self,
        }
    }

    /// Carries out a command, and tells whether the session goes on: it
    /// ends when the player asks to leave or opens a mine.
    pub fn perform(&mut self, command: Command) -> (go_on: bool)
        requires
            old(self).wf(),
        ensures
            final(self).wf(),
            old(self).performs(final(self), command@),
            go_on == (!(command@ is Exit) && !final(self).board().over()),
    {
        match command {
            Command::Exit => {
                return false;
            },
            Command::Select(col, row) => self.select(col, row),
            Command::Mark(col, row) => self.mark(col, row),
            Command::Flag(col, row) => self.flag(col, row),
            Command::Unfold(col, row) => self.unfold(col, row),
            Command::Nothing => {},
        }
        self.in_play()
    }

    /// Whether the game goes on: no mine has been opened yet.
    pub fn in_play(&self) -> (playing: bool)
        ensures
            playing == !self.board().over(),
    {
        self.board.in_play()
    }
}

} // verus!
