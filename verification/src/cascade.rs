//! What opening cells does to a board, stated over grids of tiles and
//! facts: which cells a cascade reaches, and the grid it leaves behind.

use crate::board::Tile;
use crate::field::mine_at;
use crate::field::TileState;
use crate::tally::count_grid;
use crate::tally::lemma_count_grid_update;
use crate::tally::lemma_count_row_update;
use vstd::prelude::*;

verus! {

/// `b` is one of the eight cells around `a`.
pub open spec fn adjacent(a: (int, int), b: (int, int)) -> bool {
    &&& a != b
    &&& a.0 - 1 <= b.0 <= a.0 + 1
    &&& a.1 - 1 <= b.1 <= a.1 + 1
}

/// `p`, as (column, row), is a cell of the grid.
pub open spec fn in_grid(tiles: Seq<Seq<Tile>>, p: (int, int)) -> bool {
    0 <= p.1 < tiles.len() && 0 <= p.0 < tiles[p.1].len()
}

/// `p` is a cell of the grid and is closed.
pub open spec fn closed_at(tiles: Seq<Seq<Tile>>, p: (int, int)) -> bool {
    in_grid(tiles, p) && tiles[p.1][p.0] == Tile::Closed
}

/// `p` is a cell of the grid with no mine around it.
pub open spec fn zero_at(facts: Seq<Seq<TileState>>, p: (int, int)) -> bool {
    0 <= p.1 < facts.len() && 0 <= p.0 < facts[p.1].len() && facts[p.1][p.0] == TileState::Number(
        0,
    )
}

/// A route that a cascade can take: every cell on it is closed, and every
/// cell but the last has no mine around it and touches the next.
pub open spec fn cascade_path(
    tiles: Seq<Seq<Tile>>,
    facts: Seq<Seq<TileState>>,
    path: Seq<(int, int)>,
) -> bool {
    &&& path.len() > 0
    &&& forall|i: int| 0 <= i < path.len() ==> closed_at(tiles, #[trigger] path[i])
    &&& forall|i: int|
        0 <= i < path.len() - 1 ==> zero_at(facts, #[trigger] path[i]) && adjacent(
            path[i],
            path[i + 1],
        )
}

/// Opening the closed cells among `starts` opens `p`, at once or by
/// cascading.
pub open spec fn reached(
    tiles: Seq<Seq<Tile>>,
    facts: Seq<Seq<TileState>>,
    starts: Set<(int, int)>,
    p: (int, int),
) -> bool {
    exists|path: Seq<(int, int)>|
        #[trigger] cascade_path(tiles, facts, path) && starts.contains(path[0]) && path.last() == p
}

/// The grid after the closed cells among `starts` were opened and every
/// cascade has run: what was reached is open, the rest is as it was.
pub open spec fn swept(
    tiles: Seq<Seq<Tile>>,
    facts: Seq<Seq<TileState>>,
    starts: Set<(int, int)>,
) -> Seq<Seq<Tile>> {
    Seq::new(
        tiles.len(),
        |y: int|
            Seq::new(
                tiles[y].len(),
                |x: int|
                    if reached(tiles, facts, starts, (x, y)) {
                        Tile::Open
                    } else {
                        tiles[y][x]
                    },
            ),
    )
}

/// Opening the closed cells among `starts` opens a mine.
pub open spec fn detonated(
    tiles: Seq<Seq<Tile>>,
    facts: Seq<Seq<TileState>>,
    starts: Set<(int, int)>,
) -> bool {
    exists|p: (int, int)| #[trigger] reached(tiles, facts, starts, p) && mine_at(facts, p.0, p.1)
}

/// The `k`-th of the eight steps, as (columns, rows), from a cell to the
/// cells around it.
pub open spec fn ring_offset(k: int) -> (int, int) {
    if k == 0 {
        (0, 1)
    } else if k == 1 {
        (1, 0)
    } else if k == 2 {
        (1, 1)
    } else if k == 3 {
        (-1, 0)
    } else if k == 4 {
        (-1, 1)
    } else if k == 5 {
        (0, -1)
    } else if k == 6 {
        (1, -1)
    } else {
        (-1, -1)
    }
}

/// The `k`-th place around `p`.
pub open spec fn ring_cell(p: (int, int), k: int) -> (int, int) {
    (p.0 + ring_offset(k).0, p.1 + ring_offset(k).1)
}

/// The eight steps lead to the places around `p`, and to all of them.
pub proof fn lemma_ring_cells(p: (int, int), q: (int, int))
    ensures
        adjacent(p, q) <==> exists|k: int| 0 <= k < 8 && q == #[trigger] ring_cell(p, k),
{
    if adjacent(p, q) {
        let dx = q.0 - p.0;
        let dy = q.1 - p.1;
        let k: int = if dx == 0 && dy == 1 {
            0
        } else if dx == 1 && dy == 0 {
            1
        } else if dx == 1 && dy == 1 {
            2
        } else if dx == -1 && dy == 0 {
            3
        } else if dx == -1 && dy == 1 {
            4
        } else if dx == 0 && dy == -1 {
            5
        } else if dx == 1 && dy == -1 {
            6
        } else {
            7
        };
        assert(q == ring_cell(p, k));
    }
}

/// The cells around `(c, r)`.
pub open spec fn ring(c: int, r: int) -> Set<(int, int)> {
    Set::new(|q: (int, int)| adjacent((c, r), q))
}

/// The grid after the marker of cell `p` was toggled: a closed cell takes
/// the marker, a cell that carries it is closed again, any other cell and
/// any `p` outside the grid leave the grid as it is.
pub open spec fn toggled(tiles: Seq<Seq<Tile>>, p: (int, int), marker: Tile) -> Seq<Seq<Tile>> {
    if closed_at(tiles, p) {
        tiles.update(p.1, tiles[p.1].update(p.0, marker))
    } else if in_grid(tiles, p) && tiles[p.1][p.0] == marker {
        tiles.update(p.1, tiles[p.1].update(p.0, Tile::Closed))
    } else {
        tiles
    }
}

/// The predicate "is closed" on tiles.
pub open spec fn closed_tile() -> spec_fn(Tile) -> bool {
    |t: Tile| t == Tile::Closed
}

/// The number of closed cells.
pub open spec fn closed_total(tiles: Seq<Seq<Tile>>) -> nat {
    count_grid(tiles, closed_tile())
}

/// The predicate "carries a flag" on tiles.
pub open spec fn flag_tile() -> spec_fn(Tile) -> bool {
    |t: Tile| t == Tile::Flag
}

/// The number of flagged cells.
pub open spec fn flag_total(tiles: Seq<Seq<Tile>>) -> nat {
    count_grid(tiles, flag_tile())
}

/// `p` was closed in `before` and is no longer closed in `now`.
pub open spec fn opened(before: Seq<Seq<Tile>>, now: Seq<Seq<Tile>>, p: (int, int)) -> bool {
    closed_at(before, p) && !closed_at(now, p)
}

/// No cell around `p` that was closed in `before` is still closed in `now`.
pub open spec fn settled(before: Seq<Seq<Tile>>, now: Seq<Seq<Tile>>, p: (int, int)) -> bool {
    forall|q: (int, int)| #[trigger] adjacent(p, q) && closed_at(before, q) ==> !closed_at(now, q)
}

/// `p` is on the list of cells whose surroundings are still to be opened.
pub open spec fn queued(pending: Seq<(usize, usize)>, p: (int, int)) -> bool {
    exists|i: int| 0 <= i < pending.len() && (#[trigger] pending[i]).0 == p.0 && pending[i].1 == p.1
}

/// A mine was opened between `before` and `now`.
pub open spec fn blown(
    before: Seq<Seq<Tile>>,
    now: Seq<Seq<Tile>>,
    facts: Seq<Seq<TileState>>,
) -> bool {
    exists|p: (int, int)| #[trigger] opened(before, now, p) && mine_at(facts, p.0, p.1)
}

/// The state of a cascade under way. Only reached cells have changed, and
/// they are open; every listed cell was opened and has no mine around it;
/// and every opened cell without a mine around it is listed, is the one in
/// hand, or has had its surroundings opened.
pub open spec fn sweep_inv(
    before: Seq<Seq<Tile>>,
    now: Seq<Seq<Tile>>,
    facts: Seq<Seq<TileState>>,
    starts: Set<(int, int)>,
    pending: Seq<(usize, usize)>,
    busy: Option<(int, int)>,
) -> bool {
    &&& now.len() == before.len()
    &&& forall|y: int| 0 <= y < before.len() ==> (#[trigger] now[y]).len() == before[y].len()
    &&& forall|x: int, y: int|
        0 <= y < before.len() && 0 <= x < before[y].len() ==> #[trigger] now[y][x] == before[y][x]
            || (before[y][x] == Tile::Closed && now[y][x] == Tile::Open && reached(
            before,
            facts,
            starts,
            (x, y),
        ))
    &&& forall|i: int|
        0 <= i < pending.len() ==> opened(
            before,
            now,
            ((#[trigger] pending[i]).0 as int, pending[i].1 as int),
        ) && zero_at(facts, (pending[i].0 as int, pending[i].1 as int))
    &&& forall|p: (int, int)|
        #[trigger] opened(before, now, p) && zero_at(facts, p) ==> busy == Some(p) || queued(
            pending,
            p,
        ) || settled(before, now, p)
}

/// Before anything is opened a cascade is under way with nothing listed,
/// and no mine has been opened.
pub proof fn lemma_sweep_begin(
    before: Seq<Seq<Tile>>,
    facts: Seq<Seq<TileState>>,
    starts: Set<(int, int)>,
)
    ensures
        sweep_inv(before, before, facts, starts, Seq::empty(), None),
        !blown(before, before, facts),
{
}

/// Opening one closed cell that is reached keeps the cascade's state, with
/// the cell listed if it has no mine around it. One cell fewer is closed,
/// and a mine has been opened if one had been or the cell holds one.
pub proof fn lemma_open_cell(
    before: Seq<Seq<Tile>>,
    prior: Seq<Seq<Tile>>,
    facts: Seq<Seq<TileState>>,
    starts: Set<(int, int)>,
    pending: Seq<(usize, usize)>,
    busy: Option<(int, int)>,
    x: usize,
    y: usize,
)
    requires
        sweep_inv(before, prior, facts, starts, pending, busy),
        closed_at(prior, (x as int, y as int)),
        closed_at(before, (x as int, y as int)) ==> reached(
            before,
            facts,
            starts,
            (x as int, y as int),
        ),
    ensures
        ({
            let now = prior.update(y as int, prior[y as int].update(x as int, Tile::Open));
            let listed = if zero_at(facts, (x as int, y as int)) {
                pending.push((x, y))
            } else {
                pending
            };
            &&& sweep_inv(before, now, facts, starts, listed, busy)
            &&& blown(before, now, facts) == (blown(before, prior, facts) || mine_at(
                facts,
                x as int,
                y as int,
            ))
            &&& closed_total(now) + 1 == closed_total(prior)
            &&& !closed_at(now, (x as int, y as int))
            &&& forall|q: (int, int)| !closed_at(prior, q) ==> !#[trigger] closed_at(now, q)
        }),
{
    let p = (x as int, y as int);
    let now = prior.update(y as int, prior[y as int].update(x as int, Tile::Open));
    let listed = if zero_at(facts, p) {
        pending.push((x, y))
    } else {
        pending
    };
    assert(prior[p.1][p.0] == before[p.1][p.0]);
    lemma_count_row_update(prior[y as int], x as int, Tile::Open, closed_tile());
    lemma_count_grid_update(
        prior,
        y as int,
        prior[y as int].update(x as int, Tile::Open),
        closed_tile(),
    );
    assert forall|q: (int, int)| !closed_at(prior, q) implies !#[trigger] closed_at(now, q) by {}
    assert forall|q: (int, int)| opened(before, now, q) implies q == p || opened(
        before,
        prior,
        q,
    ) by {}
    assert(opened(before, now, p));
    if blown(before, now, facts) && !mine_at(facts, p.0, p.1) {
        let w = choose|w: (int, int)| #[trigger] opened(before, now, w) && mine_at(facts, w.0, w.1);
        assert(opened(before, prior, w));
    }
    if blown(before, prior, facts) {
        let w = choose|w: (int, int)|
            #[trigger] opened(before, prior, w) && mine_at(facts, w.0, w.1);
        assert(opened(before, now, w));
    }
    if zero_at(facts, p) {
        assert(listed[pending.len() as int] == (x, y));
        assert(queued(listed, p));
    }
    assert forall|i: int| 0 <= i < listed.len() implies opened(
        before,
        now,
        ((#[trigger] listed[i]).0 as int, listed[i].1 as int),
    ) && zero_at(facts, (listed[i].0 as int, listed[i].1 as int)) by {
        if i < pending.len() {
            assert(listed[i] == pending[i]);
            assert(opened(before, prior, (pending[i].0 as int, pending[i].1 as int)));
        }
    }
    assert forall|c: (int, int)| #[trigger]
        opened(before, now, c) && zero_at(facts, c) implies busy == Some(c) || queued(listed, c)
        || settled(before, now, c) by {
        if c != p {
            assert(opened(before, prior, c));
            if queued(pending, c) {
                let i = choose|i: int|
                    0 <= i < pending.len() && (#[trigger] pending[i]).0 == c.0 && pending[i].1
                        == c.1;
                assert(listed[i] == pending[i]);
            }
        }
    }
}

/// Taking the last listed cell in hand keeps the cascade's state, and every
/// closed cell around that cell is reached.
pub proof fn lemma_take_in_hand(
    before: Seq<Seq<Tile>>,
    now: Seq<Seq<Tile>>,
    facts: Seq<Seq<TileState>>,
    starts: Set<(int, int)>,
    pending: Seq<(usize, usize)>,
)
    requires
        pending.len() > 0,
        sweep_inv(before, now, facts, starts, pending, None),
    ensures
        sweep_inv(
            before,
            now,
            facts,
            starts,
            pending.drop_last(),
            Some((pending.last().0 as int, pending.last().1 as int)),
        ),
        forall|q: (int, int)|
            #[trigger] adjacent((pending.last().0 as int, pending.last().1 as int), q) && closed_at(
                before,
                q,
            ) ==> reached(before, facts, starts, q),
{
    let rest = pending.drop_last();
    let cell = pending[pending.len() - 1];
    let p = (cell.0 as int, cell.1 as int);
    assert(opened(before, now, p) && zero_at(facts, p));
    assert(now[p.1][p.0] != before[p.1][p.0]);
    assert(reached(before, facts, starts, p));
    assert forall|q: (int, int)| #[trigger] adjacent(p, q) && closed_at(before, q) implies reached(
        before,
        facts,
        starts,
        q,
    ) by {
        lemma_reach_step(before, facts, starts, p, q);
    }
    assert forall|i: int| 0 <= i < rest.len() implies opened(
        before,
        now,
        ((#[trigger] rest[i]).0 as int, rest[i].1 as int),
    ) && zero_at(facts, (rest[i].0 as int, rest[i].1 as int)) by {
        assert(rest[i] == pending[i]);
    }
    assert forall|c: (int, int)| #[trigger]
        opened(before, now, c) && zero_at(facts, c) implies Some(p) == Some(c) || queued(rest, c)
        || settled(before, now, c) by {
        if queued(pending, c) && c != p {
            let i = choose|i: int|
                0 <= i < pending.len() && (#[trigger] pending[i]).0 == c.0 && pending[i].1 == c.1;
            assert(rest[i] == pending[i]);
        }
    }
}

/// Once the surroundings of the cell in hand are open, the cell can be put
/// down.
pub proof fn lemma_put_down(
    before: Seq<Seq<Tile>>,
    now: Seq<Seq<Tile>>,
    facts: Seq<Seq<TileState>>,
    starts: Set<(int, int)>,
    pending: Seq<(usize, usize)>,
    p: (int, int),
)
    requires
        sweep_inv(before, now, facts, starts, pending, Some(p)),
        forall|q: (int, int)| #[trigger] adjacent(p, q) ==> !closed_at(now, q),
    ensures
        sweep_inv(before, now, facts, starts, pending, None),
{
    assert(settled(before, now, p));
}

/// A closed start is reached.
pub proof fn lemma_reach_start(
    tiles: Seq<Seq<Tile>>,
    facts: Seq<Seq<TileState>>,
    starts: Set<(int, int)>,
    p: (int, int),
)
    requires
        starts.contains(p),
        closed_at(tiles, p),
    ensures
        reached(tiles, facts, starts, p),
{
    let path = seq![p];
    assert(cascade_path(tiles, facts, path));
    assert(path[0] == p && path.last() == p);
}

/// A closed cell next to a reached cell without a mine around it is reached.
pub proof fn lemma_reach_step(
    tiles: Seq<Seq<Tile>>,
    facts: Seq<Seq<TileState>>,
    starts: Set<(int, int)>,
    p: (int, int),
    q: (int, int),
)
    requires
        reached(tiles, facts, starts, p),
        zero_at(facts, p),
        adjacent(p, q),
        closed_at(tiles, q),
    ensures
        reached(tiles, facts, starts, q),
{
    let path = choose|path: Seq<(int, int)>|
        #[trigger] cascade_path(tiles, facts, path) && starts.contains(path[0]) && path.last() == p;
    let longer = path.push(q);
    assert forall|i: int| 0 <= i < longer.len() implies closed_at(tiles, #[trigger] longer[i]) by {
        if i < path.len() {
            assert(longer[i] == path[i]);
        }
    }
    assert forall|i: int| 0 <= i < longer.len() - 1 implies zero_at(facts, #[trigger] longer[i])
        && adjacent(longer[i], longer[i + 1]) by {
        assert(longer[i] == path[i]);
        if i < path.len() - 1 {
            assert(longer[i + 1] == path[i + 1]);
        }
    }
    assert(cascade_path(tiles, facts, longer));
    assert(longer[0] == path[0]);
    assert(longer.last() == q);
}

/// Only closed cells are reached.
pub proof fn lemma_reached_closed(
    tiles: Seq<Seq<Tile>>,
    facts: Seq<Seq<TileState>>,
    starts: Set<(int, int)>,
    p: (int, int),
)
    requires
        reached(tiles, facts, starts, p),
    ensures
        closed_at(tiles, p),
{
    let path = choose|path: Seq<(int, int)>|
        #[trigger] cascade_path(tiles, facts, path) && starts.contains(path[0]) && path.last() == p;
    assert(closed_at(tiles, path[path.len() - 1]));
}

/// Where no start is closed, nothing is reached.
pub proof fn lemma_no_start(
    tiles: Seq<Seq<Tile>>,
    facts: Seq<Seq<TileState>>,
    starts: Set<(int, int)>,
)
    requires
        forall|s: (int, int)| starts.contains(s) ==> !closed_at(tiles, s),
    ensures
        forall|p: (int, int)| !reached(tiles, facts, starts, p),
        swept(tiles, facts, starts) == tiles,
        !detonated(tiles, facts, starts),
{
    assert forall|p: (int, int)| !reached(tiles, facts, starts, p) by {
        if reached(tiles, facts, starts, p) {
            let path = choose|path: Seq<(int, int)>|
                #[trigger] cascade_path(tiles, facts, path) && starts.contains(path[0])
                    && path.last() == p;
            assert(closed_at(tiles, path[0]));
        }
    }
    assert(swept(tiles, facts, starts) =~~= tiles);
}

/// Once every start is open and every opened cell without a mine around it
/// has had its surroundings opened, each cell along a cascade route is open.
proof fn lemma_path_opened(
    before: Seq<Seq<Tile>>,
    now: Seq<Seq<Tile>>,
    facts: Seq<Seq<TileState>>,
    starts: Set<(int, int)>,
    path: Seq<(int, int)>,
    i: int,
)
    requires
        cascade_path(before, facts, path),
        starts.contains(path[0]),
        0 <= i < path.len(),
        forall|s: (int, int)| starts.contains(s) ==> !closed_at(now, s),
        forall|p: (int, int)|
            #[trigger] opened(before, now, p) && zero_at(facts, p) ==> settled(before, now, p),
    ensures
        !closed_at(now, path[i]),
    decreases i,
{
    if i > 0 {
        lemma_path_opened(before, now, facts, starts, path, i - 1);
        let p = path[i - 1];
        let q = path[i];
        assert(closed_at(before, p));
        assert(opened(before, now, p));
        assert(zero_at(facts, p));
        assert(settled(before, now, p));
        assert(adjacent(p, q));
        assert(closed_at(before, q));
    }
}

/// A cascade that has nothing left to do has opened exactly the reached
/// cells, and has opened a mine exactly if one was reached.
pub proof fn lemma_sweep_done(
    before: Seq<Seq<Tile>>,
    now: Seq<Seq<Tile>>,
    facts: Seq<Seq<TileState>>,
    starts: Set<(int, int)>,
)
    requires
        sweep_inv(before, now, facts, starts, Seq::empty(), None),
        forall|s: (int, int)| starts.contains(s) ==> !closed_at(now, s),
    ensures
        now == swept(before, facts, starts),
        blown(before, now, facts) == detonated(before, facts, starts),
{
    assert forall|p: (int, int)|
        #[trigger] opened(before, now, p) && zero_at(facts, p) implies settled(before, now, p) by {
        assert(!queued(Seq::<(usize, usize)>::empty(), p));
    }
    assert forall|p: (int, int)| reached(before, facts, starts, p) implies opened(before, now, p) by {
        let path = choose|path: Seq<(int, int)>|
            #[trigger] cascade_path(before, facts, path) && starts.contains(path[0]) && path.last()
                == p;
        lemma_path_opened(before, now, facts, starts, path, path.len() - 1);
        assert(closed_at(before, path[path.len() - 1]));
    }
    assert forall|x: int, y: int| 0 <= y < before.len() && 0 <= x < before[y].len() implies now[y][x]
        == swept(before, facts, starts)[y][x] by {
        if reached(before, facts, starts, (x, y)) {
            assert(opened(before, now, (x, y)));
        }
    }
    assert(now =~~= swept(before, facts, starts));
    if blown(before, now, facts) {
        let p = choose|p: (int, int)| #[trigger] opened(before, now, p) && mine_at(facts, p.0, p.1);
        assert(now[p.1][p.0] != before[p.1][p.0]);
        assert(reached(before, facts, starts, p));
    }
    if detonated(before, facts, starts) {
        let p = choose|p: (int, int)|
            #[trigger] reached(before, facts, starts, p) && mine_at(facts, p.0, p.1);
        assert(opened(before, now, p));
    }
}

} // verus!
