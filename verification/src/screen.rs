//! The board as text: the counts, a line of letters, and one line per row.

use crate::board::FieldView;
use crate::board::Tile;
use crate::cascade::flag_total;
use crate::field::Field;
use crate::field::TileState;
use vstd::prelude::*;

verus! {

/// The most rows that the line of letters can label.
pub const LETTERS: usize = 26;

/// The character of the digit `d`.
pub open spec fn digit_glyph(d: nat) -> char {
    (48 + d) as u8 as char
}

/// The `i`-th lower-case letter.
pub open spec fn letter_glyph(i: nat) -> char {
    (97 + i) as u8 as char
}

/// `n` written in base ten, without leading zeros.
pub open spec fn number_text(n: nat) -> Seq<char>
    decreases n,
{
    if n < 10 {
        seq![digit_glyph(n)]
    } else {
        number_text(n / 10).push(digit_glyph(n % 10))
    }
}

/// A fact as the player sees it once the cell is open.
pub open spec fn fact_text(fact: TileState) -> Seq<char> {
    match fact {
        TileState::Mine => seq!['♦', ' '],
        TileState::Number(n) => number_text(n as nat).push(' '),
    }
}

/// A cell as the player sees it. Only an open cell shows its fact.
pub open spec fn cell_text(tile: Tile, fact: TileState) -> Seq<char> {
    match tile {
        Tile::Closed => seq!['█', ' '],
        Tile::Mark => seq!['?', ' '],
        Tile::Flag => seq!['o', ' '],
        Tile::Open => fact_text(fact),
    }
}

/// The first `n` cells of a row of the board.
pub open spec fn cells_text(tiles: Seq<Tile>, facts: Seq<TileState>, n: int) -> Seq<char>
    decreases n,
{
    if n <= 0 {
        Seq::empty()
    } else {
        cells_text(tiles, facts, n - 1) + cell_text(tiles[n - 1], facts[n - 1])
    }
}

/// The first `n` facts of a row of the layout.
pub open spec fn facts_text(facts: Seq<TileState>, n: int) -> Seq<char>
    decreases n,
{
    if n <= 0 {
        Seq::empty()
    } else {
        facts_text(facts, n - 1) + fact_text(facts[n - 1])
    }
}

/// The first `n` letters, a blank after each.
pub open spec fn letters_text(n: int) -> Seq<char>
    decreases n,
{
    if n <= 0 {
        Seq::empty()
    } else {
        letters_text(n - 1) + seq![letter_glyph((n - 1) as nat), ' ']
    }
}

/// The first `n` rows of the board, each with its number in front.
pub open spec fn rows_text(tiles: Seq<Seq<Tile>>, facts: Seq<Seq<TileState>>, n: int) -> Seq<char>
    decreases n,
{
    if n <= 0 {
        Seq::empty()
    } else {
        rows_text(tiles, facts, n - 1) + number_text((n - 1) as nat) + seq![' '] + cells_text(
            tiles[n - 1],
            facts[n - 1],
            tiles[n - 1].len() as int,
        ) + seq!['\n']
    }
}

/// The first `n` rows of the layout, each with its number in front.
pub open spec fn layout_rows_text(facts: Seq<Seq<TileState>>, n: int) -> Seq<char>
    decreases n,
{
    if n <= 0 {
        Seq::empty()
    } else {
        layout_rows_text(facts, n - 1) + number_text((n - 1) as nat) + seq![' '] + facts_text(
            facts[n - 1],
            facts[n - 1].len() as int,
        ) + seq!['\n']
    }
}

/// The line of letters over a grid of `rows` rows. It holds one letter per
/// row, which labels the columns of a square board.
pub open spec fn heading_text(rows: int) -> Seq<char> {
    seq![' ', ' '] + letters_text(rows) + seq!['\n']
}

/// The board as the player sees it.
pub open spec fn board_text(
    tiles: Seq<Seq<Tile>>,
    facts: Seq<Seq<TileState>>,
    mines: nat,
    flags: nat,
) -> Seq<char> {
    seq!['m', 'i', 'n', 'e', 's', ' ', ':', ' '] + number_text(mines) + seq!['\n'] + seq![
        'f',
        'l',
        'a',
        'g',
        's',
        ' ',
        ':',
        ' ',
    ] + number_text(flags) + seq!['\n'] + heading_text(tiles.len() as int) + rows_text(
        tiles,
        facts,
        tiles.len() as int,
    ) + seq!['\n', '\n']
}

/// The layout with nothing hidden.
pub open spec fn layout_text(facts: Seq<Seq<TileState>>) -> Seq<char> {
    heading_text(facts.len() as int) + layout_rows_text(facts, facts.len() as int) + seq![
        '\n',
        '\n',
    ]
}

/// `String::from_iter` over the characters of `chars`: the string that
/// holds exactly these characters, in this order.
#[verifier::external_body]
fn text_of(chars: &Vec<char>) -> (text: String)
    ensures
        text@ == chars@,
{
    String::from_iter(chars.iter())
}

/// Appends `n` in base ten.
fn push_number(out: &mut Vec<char>, n: u64)
    ensures
        final(out)@ == old(out)@ + number_text(n as nat),
    decreases n,
{
    if n >= 10 {
        push_number(out, n / 10);
    }
    out.push((48u8 + (n % 10) as u8) as char);
    assert(out@ =~= old(out)@ + number_text(n as nat));
}

/// Appends an open cell's fact.
fn push_fact(out: &mut Vec<char>, fact: TileState)
    ensures
        final(out)@ == old(out)@ + fact_text(fact),
{
    match fact {
        TileState::Mine => {
            out.push('♦');
            out.push(' ');
        },
        TileState::Number(n) => {
            push_number(out, n as u64);
            out.push(' ');
        },
    }
    assert(out@ =~= old(out)@ + fact_text(fact));
}

/// Appends the line of letters.
fn push_heading(out: &mut Vec<char>, rows: usize)
    requires
        rows <= LETTERS,
    ensures
        final(out)@ == old(out)@ + heading_text(rows as int),
{
    out.push(' ');
    out.push(' ');
    let mut i: usize = 0;
    while i < rows
        invariant
            i <= rows <= LETTERS,
            out@ == old(out)@ + seq![' ', ' '] + letters_text(i as int),
        decreases rows - i,
    {
        out.push((97u8 + i as u8) as char);
        out.push(' ');
        i = i + 1;
        assert(out@ =~= old(out)@ + seq![' ', ' '] + letters_text(i as int));
    }
    out.push('\n');
    assert(out@ =~= old(out)@ + heading_text(rows as int));
}

impl Field {
    /// The layout as text, nothing hidden: the line of letters, then each
    /// row with its number in front, then an empty line.
    pub fn render(&self) -> (text: String)
        requires
            self.wf(),
            self.rows() <= LETTERS,
        ensures
            text@ == layout_text(self@),
    {
        let mut out: Vec<char> = Vec::new();
        let height = self.height();
        let width = self.width();
        push_heading(&mut out, height);
        let ghost head = out@;
        let mut y: usize = 0;
        while y < height
            invariant
                self.wf(),
                y <= height == self.rows(),
                width == self.cols(),
                out@ == head + layout_rows_text(self@, y as int),
            decreases height - y,
        {
            let ghost start = out@;
            push_number(&mut out, y as u64);
            out.push(' ');
            let ghost lead = out@;
            let mut x: usize = 0;
            assert(self@[y as int].len() == width);
            while x < width
                invariant
                    self.wf(),
                    y < height == self.rows(),
                    x <= width == self.cols(),
                    self@[y as int].len() == width,
                    out@ == lead + facts_text(self@[y as int], x as int),
                decreases width - x,
            {
                push_fact(&mut out, self.get(x, y));
                x = x + 1;
                assert(out@ =~= lead + facts_text(self@[y as int], x as int));
            }
            out.push('\n');
            y = y + 1;
            assert(out@ =~= head + layout_rows_text(self@, y as int));
        }
        out.push('\n');
        out.push('\n');
        assert(out@ =~= layout_text(self@));
        text_of(&out)
    }
}

impl FieldView {
    /// The board as text: the number of mines, the number of flags, the
    /// line of letters, then each row with its number in front, then an
    /// empty line. A closed, flagged or marked cell does not show what it
    /// holds.
    pub fn render(&self) -> (text: String)
        requires
            self.wf(),
            self.tiles().len() <= LETTERS,
        ensures
            text@ == board_text(
                self.tiles(),
                self.facts(),
                self.mine_tally(),
                flag_total(self.tiles()),
            ),
    {
        let mut out: Vec<char> = Vec::new();
        let height = self.height();
        let width = self.width();
        assert(self.tiles().len() > 0 ==> self.tiles()[0].len() == self.field().cols());
        out.push('m');
        out.push('i');
        out.push('n');
        out.push('e');
        out.push('s');
        out.push(' ');
        out.push(':');
        out.push(' ');
        push_number(&mut out, self.mines());
        out.push('\n');
        out.push('f');
        out.push('l');
        out.push('a');
        out.push('g');
        out.push('s');
        out.push(' ');
        out.push(':');
        out.push(' ');
        push_number(&mut out, self.flags());
        out.push('\n');
        push_heading(&mut out, height);
        let ghost head = out@;
        let mut y: usize = 0;
        while y < height
            invariant
                self.wf(),
                y <= height == self.tiles().len(),
                height > 0 ==> width == self.field().cols(),
                out@ == head + rows_text(self.tiles(), self.facts(), y as int),
            decreases height - y,
        {
            push_number(&mut out, y as u64);
            out.push(' ');
            let ghost lead = out@;
            let mut x: usize = 0;
            assert(self.tiles()[y as int].len() == width);
            while x < width
                invariant
                    self.wf(),
                    y < height == self.tiles().len(),
                    x <= width == self.field().cols(),
                    self.tiles()[y as int].len() == width,
                    out@ == lead + cells_text(
                        self.tiles()[y as int],
                        self.facts()[y as int],
                        x as int,
                    ),
                decreases width - x,
            {
                let ghost cell_start = out@;
                match self.tile(x, y) {
                    Some(Tile::Mark) => {
                        out.push('?');
                        out.push(' ');
                    },
                    Some(Tile::Flag) => {
                        out.push('o');
                        out.push(' ');
                    },
                    Some(Tile::Open) => {
                        if let Some(fact) = self.revealed(x, y) {
                            push_fact(&mut out, fact);
                        }
                    },
                    _ => {
                        out.push('█');
                        out.push(' ');
                    },
                }
                assert(out@ =~= cell_start + cell_text(
                    self.tiles()[y as int][x as int],
                    self.facts()[y as int][x as int],
                ));
                x = x + 1;
                assert(out@ =~= lead + cells_text(
                    self.tiles()[y as int],
                    self.facts()[y as int],
                    x as int,
                ));
            }
            out.push('\n');
            y = y + 1;
            assert(out@ =~= head + rows_text(self.tiles(), self.facts(), y as int));
        }
        out.push('\n');
        out.push('\n');
        assert(out@ =~= board_text(
            self.tiles(),
            self.facts(),
            self.mine_tally(),
            flag_total(self.tiles()),
        ));
        text_of(&out)
    }
}

} // verus!
