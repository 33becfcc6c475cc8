//! Laws of the rules, stated over the grids that the actions' contracts
//! speak of.

use crate::board::FieldView;
use crate::board::Tile;
use crate::cascade::adjacent;
use crate::cascade::cascade_path;
use crate::cascade::closed_at;
use crate::cascade::detonated;
use crate::cascade::in_grid;
use crate::cascade::lemma_no_start;
use crate::cascade::lemma_reach_start;
use crate::cascade::lemma_reached_closed;
use crate::cascade::reached;
use crate::cascade::ring;
use crate::cascade::swept;
use crate::cascade::toggled;
use crate::cascade::zero_at;
use crate::field::adjacent_mines;
use crate::field::laid_out;
use crate::field::lemma_laid_out_counts;
use crate::field::listed;
use crate::field::mine_at;
use crate::field::mine_fact;
use crate::field::mine_one;
use crate::field::mine_total;
use crate::field::mines_around;
use crate::field::Field;
use crate::field::TileState;
use crate::field::fact_for;
use crate::field::planted;
use crate::tally::count_grid;
use crate::tally::lemma_count_grid_bound;
use crate::tally::lemma_count_grid_none;
use crate::tally::lemma_count_grid_same;
use crate::tally::lemma_count_grid_update;
use crate::tally::lemma_count_row_update;
use vstd::prelude::*;

verus! {

/// In a generated layout a cell holds a mine exactly if it was drawn, and
/// the number of any other cell is the count of the mines among the cells
/// of the grid around it.
pub proof fn lemma_numbers_count_mines(
    facts: Seq<Seq<TileState>>,
    width: int,
    height: int,
    positions: Seq<(u32, u32)>,
    x: int,
    y: int,
)
    requires
        laid_out(facts, width, height, positions),
        0 <= x < width,
        0 <= y < height,
    ensures
        facts[y][x] == TileState::Mine <==> listed(positions, x, y),
        !listed(positions, x, y) ==> facts[y][x] == TileState::Number(
            mines_around(facts, x, y) as u32,
        ),
        mines_around(facts, x, y) == adjacent_mines(positions, width, height, x, y),
        mines_around(facts, x, y) <= 8,
{
    reveal(mines_around);
    lemma_laid_out_counts(facts, width, height, positions);
}

/// A layout holds at most as many mines as it has cells, however many
/// were asked for.
pub proof fn lemma_mines_fit(field: Field)
    requires
        field.wf(),
    ensures
        mine_total(field@) <= field.cols() * field.rows(),
{
    lemma_count_grid_bound(field@, field.cols(), mine_fact());
}

/// For every cell of the grid, whether it was drawn as a mine.
pub open spec fn mine_mask(positions: Seq<(u32, u32)>, width: int, height: int) -> Seq<Seq<bool>> {
    Seq::new(
        height as nat,
        |y: int| Seq::new(width as nat, |x: int| planted(positions, width, height, x, y)),
    )
}

/// The predicate "is true" on booleans.
pub open spec fn is_set() -> spec_fn(bool) -> bool {
    |b: bool| b
}

/// Each draw plants at most one mine: the drawn cells of a grid are at
/// most as many as the draws.
pub proof fn lemma_mask_within_draws(positions: Seq<(u32, u32)>, width: int, height: int)
    requires
        0 <= width,
        0 <= height,
    ensures
        count_grid(mine_mask(positions, width, height), is_set()) <= positions.len(),
    decreases positions.len(),
{
    let now = mine_mask(positions, width, height);
    if positions.len() == 0 {
        lemma_count_grid_none(now, is_set());
    } else {
        let rest = positions.drop_last();
        let last = positions[positions.len() - 1];
        let was = mine_mask(rest, width, height);
        lemma_mask_within_draws(rest, width, height);
        assert forall|x: int, y: int|
            listed(positions, x, y) == (listed(rest, x, y) || (last.0 == x && last.1 == y)) by {
            if listed(rest, x, y) {
                let i = choose|i: int|
                    0 <= i < rest.len() && (#[trigger] rest[i]).0 == x && rest[i].1 == y;
                assert(positions[i] == rest[i]);
            }
            if listed(positions, x, y) && !(last.0 == x && last.1 == y) {
                let i = choose|i: int|
                    0 <= i < positions.len() && (#[trigger] positions[i]).0 == x && positions[i].1
                        == y;
                assert(rest[i] == positions[i]);
            }
        }
        if last.0 < width && last.1 < height {
            let x = last.0 as int;
            let y = last.1 as int;
            let row = was[y].update(x, true);
            assert(now =~~= was.update(y, row));
            lemma_count_row_update(was[y], x, true, is_set());
            lemma_count_grid_update(was, y, row, is_set());
        } else {
            assert(now =~~= was);
        }
    }
}

/// Where every draw names a cell of the grid, the drawn cells are as many
/// as the distinct draws.
pub proof fn lemma_mask_counts_distinct(positions: Seq<(u32, u32)>, width: int, height: int)
    requires
        0 <= width,
        0 <= height,
        forall|i: int|
            0 <= i < positions.len() ==> (#[trigger] positions[i]).0 < width && positions[i].1
                < height,
    ensures
        positions.to_set().finite(),
        count_grid(mine_mask(positions, width, height), is_set()) == positions.to_set().len(),
    decreases positions.len(),
{
    broadcast use vstd::seq_lib::seq_to_set_is_finite;

    let now = mine_mask(positions, width, height);
    if positions.len() == 0 {
        lemma_count_grid_none(now, is_set());
        assert(positions.to_set() =~= Set::empty());
    } else {
        let rest = positions.drop_last();
        let last = positions[positions.len() - 1];
        let was = mine_mask(rest, width, height);
        assert forall|i: int| 0 <= i < rest.len() implies (#[trigger] rest[i]).0 < width
            && rest[i].1 < height by {
            assert(rest[i] == positions[i]);
        }
        lemma_mask_counts_distinct(rest, width, height);
        assert(positions =~= rest.push(last));
        rest.lemma_push_to_set_commute(last);
        assert(positions.to_set() == rest.to_set().insert(last));
        assert forall|x: int, y: int|
            listed(positions, x, y) == (listed(rest, x, y) || (last.0 == x && last.1 == y)) by {
            if listed(rest, x, y) {
                let i = choose|i: int|
                    0 <= i < rest.len() && (#[trigger] rest[i]).0 == x && rest[i].1 == y;
                assert(positions[i] == rest[i]);
            }
            if listed(positions, x, y) && !(last.0 == x && last.1 == y) {
                let i = choose|i: int|
                    0 <= i < positions.len() && (#[trigger] positions[i]).0 == x && positions[i].1
                        == y;
                assert(rest[i] == positions[i]);
            }
        }
        let x = last.0 as int;
        let y = last.1 as int;
        if rest.to_set().contains(last) {
            let i = choose|i: int| 0 <= i < rest.len() && rest[i] == last;
            assert(rest[i].0 == x && rest[i].1 == y);
            assert(listed(rest, x, y));
            assert(now =~~= was);
        } else {
            if listed(rest, x, y) {
                let i = choose|i: int|
                    0 <= i < rest.len() && (#[trigger] rest[i]).0 == x && rest[i].1 == y;
                assert(rest[i] == last);
                assert(rest.to_set().contains(rest[i]));
            }
            assert(!was[y][x]);
            let row = was[y].update(x, true);
            assert(now =~~= was.update(y, row));
            lemma_count_row_update(was[y], x, true, is_set());
            lemma_count_grid_update(was, y, row, is_set());
        }
    }
}

/// A layout generated from draws inside the grid holds exactly as many
/// mines as there are distinct draws.
pub proof fn lemma_mines_are_distinct_draws(
    facts: Seq<Seq<TileState>>,
    width: int,
    height: int,
    positions: Seq<(u32, u32)>,
)
    requires
        0 <= width,
        0 <= height,
        laid_out(facts, width, height, positions),
        forall|i: int|
            0 <= i < positions.len() ==> (#[trigger] positions[i]).0 < width && positions[i].1
                < height,
    ensures
        positions.to_set().finite(),
        mine_total(facts) == positions.to_set().len(),
{
    let mask = mine_mask(positions, width, height);
    assert forall|x: int, y: int| 0 <= y < facts.len() && 0 <= x < facts[y].len() implies mine_fact()(
        #[trigger] facts[y][x],
    ) == is_set()(mask[y][x]) by {
        assert(facts[y][x] == fact_for(positions, width, height, x, y));
    }
    lemma_count_grid_same(facts, mine_fact(), mask, is_set());
    lemma_mask_counts_distinct(positions, width, height);
}

/// A generated layout holds at most as many mines as cells were drawn for
/// it: draws that name one cell twice plant one mine.
pub proof fn lemma_mines_within_draws(
    facts: Seq<Seq<TileState>>,
    width: int,
    height: int,
    positions: Seq<(u32, u32)>,
)
    requires
        0 <= width,
        0 <= height,
        laid_out(facts, width, height, positions),
    ensures
        mine_total(facts) <= positions.len(),
{
    let mask = mine_mask(positions, width, height);
    assert forall|x: int, y: int| 0 <= y < facts.len() && 0 <= x < facts[y].len() implies mine_fact()(
        #[trigger] facts[y][x],
    ) == is_set()(mask[y][x]) by {
        assert(facts[y][x] == fact_for(positions, width, height, x, y));
    }
    lemma_count_grid_same(facts, mine_fact(), mask, is_set());
    lemma_mask_within_draws(positions, width, height);
}

/// Opening a closed cell opens it; opening the same cell once more changes
/// nothing.
pub proof fn lemma_select_twice(
    tiles: Seq<Seq<Tile>>,
    facts: Seq<Seq<TileState>>,
    p: (int, int),
)
    ensures
        closed_at(tiles, p) ==> swept(tiles, facts, set![p])[p.1][p.0] == Tile::Open,
        swept(swept(tiles, facts, set![p]), facts, set![p]) == swept(tiles, facts, set![p]),
        !detonated(swept(tiles, facts, set![p]), facts, set![p]),
{
    let once = swept(tiles, facts, set![p]);
    if closed_at(tiles, p) {
        lemma_reach_start(tiles, facts, set![p], p);
    } else if reached(tiles, facts, set![p], p) {
        lemma_reached_closed(tiles, facts, set![p], p);
    }
    assert(!closed_at(once, p));
    lemma_no_start(once, facts, set![p]);
}

/// A cascade leaves every cell that is not closed as it is: an open cell
/// is not opened again, and a flag or a mark stops the cascade.
pub proof fn lemma_sweep_keeps(
    tiles: Seq<Seq<Tile>>,
    facts: Seq<Seq<TileState>>,
    starts: Set<(int, int)>,
    p: (int, int),
)
    requires
        in_grid(tiles, p),
        tiles[p.1][p.0] != Tile::Closed,
    ensures
        swept(tiles, facts, starts)[p.1][p.0] == tiles[p.1][p.0],
{
    if reached(tiles, facts, starts, p) {
        lemma_reached_closed(tiles, facts, starts, p);
    }
}

/// A cascade opens the whole region without mines around it that hangs
/// together with a start, and the closed cells that border the region:
/// whatever closed cell touches an opened cell with no mine around it is
/// opened too.
pub proof fn lemma_sweep_spreads(
    tiles: Seq<Seq<Tile>>,
    facts: Seq<Seq<TileState>>,
    starts: Set<(int, int)>,
    p: (int, int),
    q: (int, int),
)
    requires
        reached(tiles, facts, starts, p),
        zero_at(facts, p),
        adjacent(p, q),
        closed_at(tiles, q),
    ensures
        swept(tiles, facts, starts)[q.1][q.0] == Tile::Open,
{
    crate::cascade::lemma_reach_step(tiles, facts, starts, p, q);
}

/// A cascade does not spread from a cell with a mine around it: a cell
/// that is opened without being a start touches an opened cell that has no
/// mine around it.
pub proof fn lemma_sweep_stops(
    tiles: Seq<Seq<Tile>>,
    facts: Seq<Seq<TileState>>,
    starts: Set<(int, int)>,
    q: (int, int),
)
    requires
        reached(tiles, facts, starts, q),
        !starts.contains(q),
    ensures
        exists|p: (int, int)|
            #[trigger] reached(tiles, facts, starts, p) && zero_at(facts, p) && adjacent(p, q),
{
    let path = choose|path: Seq<(int, int)>|
        #[trigger] cascade_path(tiles, facts, path) && starts.contains(path[0]) && path.last() == q;
    let n = path.len() - 1;
    assert(n > 0);
    let shorter = path.take(n);
    let p = path[n - 1];
    assert forall|i: int| 0 <= i < shorter.len() implies closed_at(tiles, #[trigger] shorter[i]) by {
        assert(shorter[i] == path[i]);
    }
    assert forall|i: int| 0 <= i < shorter.len() - 1 implies zero_at(facts, #[trigger] shorter[i])
        && adjacent(shorter[i], shorter[i + 1]) by {
        assert(shorter[i] == path[i]);
        assert(shorter[i + 1] == path[i + 1]);
    }
    assert(cascade_path(tiles, facts, shorter));
    assert(shorter[0] == path[0]);
    assert(shorter.last() == p);
    assert(reached(tiles, facts, starts, p));
    assert(zero_at(facts, p) && adjacent(p, path[n - 1 + 1]));
}

/// Opening a closed cell that holds a mine ends the game.
pub proof fn lemma_mine_detonates(
    tiles: Seq<Seq<Tile>>,
    facts: Seq<Seq<TileState>>,
    p: (int, int),
)
    requires
        closed_at(tiles, p),
        mine_at(facts, p.0, p.1),
    ensures
        detonated(tiles, facts, set![p]),
        swept(tiles, facts, set![p])[p.1][p.0] == Tile::Open,
{
    lemma_reach_start(tiles, facts, set![p], p);
}

/// Where the count of mines around a cell is zero, no cell next to it
/// holds a mine.
pub proof fn lemma_no_mines_around(facts: Seq<Seq<TileState>>, z: (int, int), q: (int, int))
    requires
        mines_around(facts, z.0, z.1) == 0,
        adjacent(z, q),
    ensures
        !mine_at(facts, q.0, q.1),
{
    reveal(mines_around);
    let dx = q.0 - z.0;
    let dy = q.1 - z.1;
    assert(q == (z.0 + dx, z.1 + dy));
    assert(mine_one(facts, z.0 + dx, z.1 + dy) == 0);
}

/// Over a well-formed layout no mine lies next to a cell whose number is
/// zero.
pub proof fn lemma_zero_has_safe_ring(field: Field, z: (int, int), q: (int, int))
    requires
        field.wf(),
        zero_at(field@, z),
        adjacent(z, q),
    ensures
        !mine_at(field@, q.0, q.1),
{
    let facts = field@;
    assert(mines_around(facts, z.0, z.1) == 0) by {
        assert(facts[z.1].len() == field.cols());
        assert(facts[z.1][z.0] == TileState::Number(0));
    }
    lemma_no_mines_around(facts, z, q);
}

/// Over a well-formed layout, opening a cell with no mine around it never
/// ends the game: its cascade opens no mine.
pub proof fn lemma_zero_start_safe(tiles: Seq<Seq<Tile>>, field: Field, p: (int, int))
    requires
        field.wf(),
        zero_at(field@, p),
    ensures
        !detonated(tiles, field@, set![p]),
{
    let facts = field@;
    let starts = set![p];
    if detonated(tiles, facts, starts) {
        let q = choose|q: (int, int)|
            #[trigger] reached(tiles, facts, starts, q) && mine_at(facts, q.0, q.1);
        if starts.contains(q) {
            assert(q == p);
        } else {
            lemma_sweep_stops(tiles, facts, starts, q);
            let z = choose|z: (int, int)|
                #[trigger] reached(tiles, facts, starts, z) && zero_at(facts, z) && adjacent(z, q);
            lemma_zero_has_safe_ring(field, z, q);
        }
    }
}

/// A game that is over stays over, whatever is opened or toggled next.
pub proof fn lemma_over_is_final(
    before: FieldView,
    after: FieldView,
    starts: Set<(int, int)>,
    p: (int, int),
    marker: Tile,
)
    requires
        before.over(),
        before.opens(&after, starts) || before.toggles(&after, p, marker),
    ensures
        after.over(),
{
}

/// Toggling a flag or a mark twice gives back the grid: a closed cell is
/// closed again, and so is any other.
pub proof fn lemma_toggle_twice(tiles: Seq<Seq<Tile>>, p: (int, int), marker: Tile)
    requires
        marker == Tile::Flag || marker == Tile::Mark,
    ensures
        toggled(toggled(tiles, p, marker), p, marker) == tiles,
{
    assert(toggled(toggled(tiles, p, marker), p, marker) =~~= tiles);
}

/// A flag cannot be put on a marked or an open cell, nor a mark on a
/// flagged or an open one, and a place outside the grid takes neither.
pub proof fn lemma_toggle_blocked(tiles: Seq<Seq<Tile>>, p: (int, int), marker: Tile)
    requires
        !in_grid(tiles, p) || (tiles[p.1][p.0] != Tile::Closed && tiles[p.1][p.0] != marker),
    ensures
        toggled(tiles, p, marker) == tiles,
{
}

/// Opening the surroundings of a place opens every closed cell around it,
/// and ends the game if one of them holds a mine.
pub proof fn lemma_unfold_opens_ring(
    tiles: Seq<Seq<Tile>>,
    facts: Seq<Seq<TileState>>,
    c: int,
    r: int,
    q: (int, int),
)
    requires
        adjacent((c, r), q),
        closed_at(tiles, q),
    ensures
        swept(tiles, facts, ring(c, r))[q.1][q.0] == Tile::Open,
        mine_at(facts, q.0, q.1) ==> detonated(tiles, facts, ring(c, r)),
{
    lemma_reach_start(tiles, facts, ring(c, r), q);
}

/// An action on a place outside the grid opens nothing, and one on the
/// surroundings of a place that no cell of the grid touches opens nothing
/// either.
pub proof fn lemma_outside_is_idle(
    tiles: Seq<Seq<Tile>>,
    facts: Seq<Seq<TileState>>,
    starts: Set<(int, int)>,
)
    requires
        forall|s: (int, int)| starts.contains(s) ==> !in_grid(tiles, s),
    ensures
        swept(tiles, facts, starts) == tiles,
        !detonated(tiles, facts, starts),
{
    lemma_no_start(tiles, facts, starts);
}

} // verus!
