//! Counting the cells of a rectangular grid that satisfy a predicate.

use vstd::prelude::*;

verus! {

/// Number of elements of `row` that satisfy `p`.
pub open spec fn count_row<T>(row: Seq<T>, p: spec_fn(T) -> bool) -> nat
    decreases row.len(),
{
    if row.len() == 0 {
        0
    } else {
        count_row(row.drop_last(), p) + if p(row.last()) { 1nat } else { 0nat }
    }
}

/// Number of cells of `grid`, over all rows, that satisfy `p`.
pub open spec fn count_grid<T>(grid: Seq<Seq<T>>, p: spec_fn(T) -> bool) -> nat
    decreases grid.len(),
{
    if grid.len() == 0 {
        0
    } else {
        count_grid(grid.drop_last(), p) + count_row(grid.last(), p)
    }
}

/// A row holds at most as many matching cells as it has cells.
pub proof fn lemma_count_row_bound<T>(row: Seq<T>, p: spec_fn(T) -> bool)
    ensures
        count_row(row, p) <= row.len(),
    decreases row.len(),
{
    if row.len() > 0 {
        lemma_count_row_bound(row.drop_last(), p);
    }
}

/// A grid whose rows all have `width` cells holds at most `width * height`
/// matching cells.
pub proof fn lemma_count_grid_bound<T>(grid: Seq<Seq<T>>, width: nat, p: spec_fn(T) -> bool)
    requires
        forall|y: int| 0 <= y < grid.len() ==> (#[trigger] grid[y]).len() == width,
    ensures
        count_grid(grid, p) <= width * grid.len(),
    decreases grid.len(),
{
    if grid.len() > 0 {
        lemma_count_grid_bound(grid.drop_last(), width, p);
        lemma_count_row_bound(grid.last(), p);
        assert(width * grid.len() == width * (grid.len() - 1) + width) by (nonlinear_arith);
    }
}

/// Two rows that agree, place by place, on whether the predicate holds
/// have the same count.
pub proof fn lemma_count_row_same<A, B>(
    a: Seq<A>,
    p: spec_fn(A) -> bool,
    b: Seq<B>,
    q: spec_fn(B) -> bool,
)
    requires
        a.len() == b.len(),
        forall|i: int| 0 <= i < a.len() ==> p(#[trigger] a[i]) == q(b[i]),
    ensures
        count_row(a, p) == count_row(b, q),
    decreases a.len(),
{
    if a.len() > 0 {
        assert forall|i: int| 0 <= i < a.drop_last().len() implies p(#[trigger] a.drop_last()[i])
            == q(b.drop_last()[i]) by {
            assert(a.drop_last()[i] == a[i]);
            assert(b.drop_last()[i] == b[i]);
        }
        lemma_count_row_same(a.drop_last(), p, b.drop_last(), q);
        assert(p(a[a.len() - 1]) == q(b[a.len() - 1]));
    }
}

/// Two grids of one shape that agree, cell by cell, on whether the
/// predicate holds have the same count.
pub proof fn lemma_count_grid_same<A, B>(
    a: Seq<Seq<A>>,
    p: spec_fn(A) -> bool,
    b: Seq<Seq<B>>,
    q: spec_fn(B) -> bool,
)
    requires
        a.len() == b.len(),
        forall|y: int| 0 <= y < a.len() ==> (#[trigger] a[y]).len() == b[y].len(),
        forall|x: int, y: int|
            0 <= y < a.len() && 0 <= x < a[y].len() ==> p(#[trigger] a[y][x]) == q(b[y][x]),
    ensures
        count_grid(a, p) == count_grid(b, q),
    decreases a.len(),
{
    if a.len() > 0 {
        let n = a.len() - 1;
        assert forall|y: int| 0 <= y < n implies (#[trigger] a.drop_last()[y]).len()
            == b.drop_last()[y].len() by {
            assert(a.drop_last()[y] == a[y]);
            assert(b.drop_last()[y] == b[y]);
        }
        assert forall|x: int, y: int| 0 <= y < n && 0 <= x < a.drop_last()[y].len() implies p(
            #[trigger] a.drop_last()[y][x],
        ) == q(b.drop_last()[y][x]) by {
            assert(a.drop_last()[y] == a[y]);
            assert(b.drop_last()[y] == b[y]);
            assert(p(a[y][x]) == q(b[y][x]));
        }
        lemma_count_grid_same(a.drop_last(), p, b.drop_last(), q);
        assert(a[n].len() == b[n].len());
        assert forall|i: int| 0 <= i < a[n].len() implies p(#[trigger] a[n][i]) == q(b[n][i]) by {
            assert(p(a[n][i]) == q(b[n][i]));
        }
        lemma_count_row_same(a[n], p, b[n], q);
    }
}

/// A row without a matching element counts zero.
pub proof fn lemma_count_row_none<T>(row: Seq<T>, p: spec_fn(T) -> bool)
    requires
        forall|i: int| 0 <= i < row.len() ==> !p(#[trigger] row[i]),
    ensures
        count_row(row, p) == 0,
    decreases row.len(),
{
    if row.len() > 0 {
        assert forall|i: int| 0 <= i < row.drop_last().len() implies !p(
            #[trigger] row.drop_last()[i],
        ) by {
            assert(row.drop_last()[i] == row[i]);
        }
        lemma_count_row_none(row.drop_last(), p);
        assert(!p(row[row.len() - 1]));
    }
}

/// A grid without a matching cell counts zero.
pub proof fn lemma_count_grid_none<T>(grid: Seq<Seq<T>>, p: spec_fn(T) -> bool)
    requires
        forall|x: int, y: int| 0 <= y < grid.len() && 0 <= x < grid[y].len() ==> !p(#[trigger] grid[y][x]),
    ensures
        count_grid(grid, p) == 0,
    decreases grid.len(),
{
    if grid.len() > 0 {
        let n = grid.len() - 1;
        assert forall|x: int, y: int| 0 <= y < n && 0 <= x < grid.drop_last()[y].len() implies !p(
            #[trigger] grid.drop_last()[y][x],
        ) by {
            assert(grid.drop_last()[y] == grid[y]);
            assert(!p(grid[y][x]));
        }
        lemma_count_grid_none(grid.drop_last(), p);
        assert forall|i: int| 0 <= i < grid[n].len() implies !p(#[trigger] grid[n][i]) by {
            assert(!p(grid[n][i]));
        }
        lemma_count_row_none(grid[n], p);
    }
}

/// Replacing one element changes the count by the difference of the two
/// elements' contributions.
pub proof fn lemma_count_row_update<T>(row: Seq<T>, i: int, v: T, p: spec_fn(T) -> bool)
    requires
        0 <= i < row.len(),
    ensures
        count_row(row.update(i, v), p) + (if p(row[i]) { 1nat } else { 0nat })
            == count_row(row, p) + (if p(v) { 1nat } else { 0nat }),
    decreases row.len(),
{
    if i == row.len() - 1 {
        assert(row.update(i, v).drop_last() =~= row.drop_last());
    } else {
        lemma_count_row_update(row.drop_last(), i, v, p);
        assert(row.update(i, v).drop_last() =~= row.drop_last().update(i, v));
    }
}

/// Replacing one row changes the count by the difference of the two rows'
/// counts.
pub proof fn lemma_count_grid_update<T>(
    grid: Seq<Seq<T>>,
    y: int,
    row: Seq<T>,
    p: spec_fn(T) -> bool,
)
    requires
        0 <= y < grid.len(),
    ensures
        count_grid(grid.update(y, row), p) + count_row(grid[y], p) == count_grid(grid, p)
            + count_row(row, p),
    decreases grid.len(),
{
    if y == grid.len() - 1 {
        assert(grid.update(y, row).drop_last() =~= grid.drop_last());
    } else {
        lemma_count_grid_update(grid.drop_last(), y, row, p);
        assert(grid.update(y, row).drop_last() =~= grid.drop_last().update(y, row));
    }
}

/// Appending an element adds its contribution to the count.
pub proof fn lemma_count_row_push<T>(row: Seq<T>, v: T, p: spec_fn(T) -> bool)
    ensures
        count_row(row.push(v), p) == count_row(row, p) + (if p(v) { 1nat } else { 0nat }),
{
    assert(row.push(v).drop_last() =~= row);
}

/// Appending a row adds its count to the grid's.
pub proof fn lemma_count_grid_push<T>(grid: Seq<Seq<T>>, row: Seq<T>, p: spec_fn(T) -> bool)
    ensures
        count_grid(grid.push(row), p) == count_grid(grid, p) + count_row(row, p),
{
    assert(grid.push(row).drop_last() =~= grid);
}

} // verus!
