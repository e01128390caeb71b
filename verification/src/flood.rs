//! Flood reveal: discovering a cell with no bomb around it discovers the
//! whole region of such cells that it is connected to, and that region's
//! border of numbered cells.

use crate::cell::{Cell, Item};
use crate::count::{count_grid, hidden_and_empty, lemma_count_set_cell, undiscovered_empty};
use crate::grid::{
    adjacent, grid_of, has_bomb, inside, rectangular, same_items, set_cell, width_of, Grid, Pos,
};
use std::collections::VecDeque;
use vstd::prelude::*;

verus! {

/// A hidden cell without a bomb: the only kind of cell that a flood discovers.
pub open spec fn floodable(g: Grid, p: Pos) -> bool {
    inside(g, p.x, p.y) && g[p.y][p.x] is Hidden && g[p.y][p.x].item() is Empty
}

/// A hidden cell with no bomb around it: a flood that arrives here goes on
/// to the neighbours.
pub open spec fn spreads(g: Grid, p: Pos) -> bool {
    inside(g, p.x, p.y) && g[p.y][p.x] == Cell::Hidden(Item::Empty(0))
}

/// A way that a flood can take: every position on it is floodable, and
/// every position but the last spreads to the one after it, its neighbour.
pub open spec fn flood_path(g: Grid, path: Seq<Pos>) -> bool {
    &&& path.len() > 0
    &&& forall|i: int| 0 <= i < path.len() ==> floodable(g, #[trigger] path[i])
    &&& forall|i: int|
        0 <= i < path.len() - 1 ==> spreads(g, #[trigger] path[i])
            && adjacent(path[i], path[i + 1])
}

/// A flood that starts at `from` arrives at `to`.
pub open spec fn reaches(g: Grid, from: Pos, to: Pos) -> bool {
    exists|path: Seq<Pos>| #[trigger] flood_path(g, path) && path[0] == from && path.last() == to
}

/// The grid after a flood from `from`: every cell that the flood reaches is
/// discovered, with its content as it was; every other cell is as before.
pub open spec fn flood(g: Grid, from: Pos) -> Grid {
    Seq::new(
        g.len(),
        |y: int|
            Seq::new(
                g[y].len(),
                |x: int|
                    if reaches(g, from, Pos { x, y }) {
                        Cell::Discovered(g[y][x].item())
                    } else {
                        g[y][x]
                    },
            ),
    )
}

/// The position that a queue entry, a row and a column, stands for.
pub open spec fn pos_of(entry: (usize, usize)) -> Pos {
    Pos { x: entry.1 as int, y: entry.0 as int }
}

/// A flood reaches the floodable cell that it starts from.
pub proof fn lemma_reaches_start(g: Grid, from: Pos)
    requires
        floodable(g, from),
    ensures
        reaches(g, from, from),
{
    let path = seq![from];
    assert(flood_path(g, path));
}

/// A flood that reaches a spreading cell reaches its floodable neighbours.
pub proof fn lemma_reaches_step(g: Grid, from: Pos, via: Pos, to: Pos)
    requires
        reaches(g, from, via),
        spreads(g, via),
        adjacent(via, to),
        floodable(g, to),
    ensures
        reaches(g, from, to),
{
    let path = choose|path: Seq<Pos>|
        #[trigger] flood_path(g, path) && path[0] == from && path.last() == via;
    let longer = path.push(to);
    assert(flood_path(g, longer));
}

/// A flood changes no content: it discovers the cells that it reaches, all
/// of them floodable and so without a bomb, and leaves every other cell as
/// it was.
pub proof fn lemma_flood_cells(g: Grid, from: Pos)
    ensures
        same_items(g, flood(g, from)),
        forall|x: int, y: int|
            inside(g, x, y) && reaches(g, from, Pos { x, y }) ==> floodable(g, Pos { x, y })
                && #[trigger] flood(g, from)[y][x] == Cell::Discovered(g[y][x].item()),
        forall|x: int, y: int|
            inside(g, x, y) && !reaches(g, from, Pos { x, y })
                ==> #[trigger] flood(g, from)[y][x] == g[y][x],
        forall|x: int, y: int|
            inside(g, x, y) && !floodable(g, Pos { x, y })
                ==> #[trigger] flood(g, from)[y][x] == g[y][x],
{}

/// The marks of the cells that have been put into the queue, as rows of
/// truth values.
spec fn table_of(explored: Seq<Vec<bool>>) -> Seq<Seq<bool>> {
    Seq::new(explored.len(), |y: int| explored[y]@)
}

/// The cell at `p` was floodable in `before` and is discovered in `now`.
spec fn opened(before: Grid, now: Grid, p: Pos) -> bool {
    floodable(before, p) && now[p.y][p.x] == Cell::Discovered(before[p.y][p.x].item())
}

/// The cell at `p` is in `now` as it was in `before`.
spec fn kept(before: Grid, now: Grid, p: Pos) -> bool {
    now[p.y][p.x] == before[p.y][p.x]
}

/// The position `p` is in the queue.
spec fn waiting(queue: Seq<(usize, usize)>, p: Pos) -> bool {
    exists|i: int| 0 <= i < queue.len() && pos_of(#[trigger] queue[i]) == p
}

/// The position `p` has been marked.
spec fn marked(marks: Seq<Seq<bool>>, p: Pos) -> bool {
    marks[p.y][p.x]
}

/// What holds of the field, the queue and the marks all through a flood
/// that started at `start` on the grid `before`:
/// - every cell is as it was, or was floodable and is now discovered;
/// - every discovered one of these is reached by the flood;
/// - the queue holds cells that are still hidden and that the flood
///   reaches, each once and each of them marked, but for the start;
/// - every marked cell is in the queue or has been discovered.
spec fn sweeping(
    before: Grid,
    now: Grid,
    start: Pos,
    queue: Seq<(usize, usize)>,
    marks: Seq<Seq<bool>>,
) -> bool {
    &&& now.len() == before.len()
    &&& marks.len() == before.len()
    &&& forall|y: int| 0 <= y < before.len() ==> (#[trigger] now[y]).len() == before[y].len()
    &&& forall|y: int| 0 <= y < before.len() ==> (#[trigger] marks[y]).len() == before[y].len()
    &&& forall|p: Pos|
        inside(before, p.x, p.y) ==> #[trigger] kept(before, now, p) || opened(before, now, p)
    &&& forall|p: Pos| #[trigger] opened(before, now, p) ==> reaches(before, start, p)
    &&& forall|i: int|
        0 <= i < queue.len() ==> {
            let p = pos_of(#[trigger] queue[i]);
            &&& floodable(now, p)
            &&& reaches(before, start, p)
            &&& marked(marks, p) || p == start
        }
    &&& queue.no_duplicates()
    &&& forall|p: Pos|
        inside(before, p.x, p.y) && #[trigger] marked(marks, p)
            ==> waiting(queue, p) || opened(before, now, p)
}

/// Every discovered cell that spreads, but for the one at `busy`, has
/// brought each of its floodable neighbours into the queue or has seen it
/// discovered.
spec fn spread_out(
    before: Grid,
    now: Grid,
    queue: Seq<(usize, usize)>,
    busy: Option<Pos>,
) -> bool {
    forall|p: Pos, d: Pos|
        opened(before, now, p) && spreads(before, p) && #[trigger] adjacent(p, d)
            && floodable(before, d) && busy != Some(p)
            ==> opened(before, now, d) || waiting(queue, d)
}

/// The column offset of the `k`-th of the eight directions.
spec fn step_x(k: int) -> int {
    if k == 1 || k == 4 || k == 7 {
        1
    } else if k == 3 || k == 5 || k == 6 {
        -1
    } else {
        0
    }
}

/// The row offset of the `k`-th of the eight directions.
spec fn step_y(k: int) -> int {
    if k == 0 || k == 4 || k == 6 {
        1
    } else if k == 2 || k == 5 || k == 7 {
        -1
    } else {
        0
    }
}

/// The neighbour of `p` in the `k`-th direction.
spec fn toward(p: Pos, k: int) -> Pos {
    Pos { x: p.x + step_x(k), y: p.y + step_y(k) }
}

/// The eight directions lead to the adjacent positions, and to all of them.
proof fn lemma_directions(p: Pos, d: Pos)
    ensures
        adjacent(p, d) <==> exists|k: int| 0 <= k < 8 && #[trigger] toward(p, k) == d,
{
    if adjacent(p, d) {
        let dx = d.x - p.x;
        let dy = d.y - p.y;
        let k: int = if dy == 1 {
            if dx == 0 {
                0
            } else if dx == 1 {
                4
            } else {
                6
            }
        } else if dy == 0 {
            if dx == 1 {
                1
            } else {
                3
            }
        } else {
            if dx == 0 {
                2
            } else if dx == -1 {
                5
            } else {
                7
            }
        };
        assert(toward(p, k) == d);
    }
}

/// The counter has gone down from `at_first` to `left` by the number of
/// cells discovered from `before` to `now`, and is no lower than the number
/// of hidden cells without a bomb. Cells under a pin are as they were, so
/// both ways of counting the cells left to discover have gone down alike.
spec fn counting_down(before: Grid, now: Grid, at_first: int, left: int) -> bool {
    &&& left >= count_grid(now, hidden_and_empty())
    &&& at_first - left == count_grid(before, hidden_and_empty()) - count_grid(
        now,
        hidden_and_empty(),
    )
    &&& at_first - left == count_grid(before, undiscovered_empty()) - count_grid(
        now,
        undiscovered_empty(),
    )
}

/// Before the first step of a flood, with the start alone in the queue and
/// nothing marked, all is in order.
proof fn lemma_sweep_start(before: Grid, entry: (usize, usize), marks: Seq<Seq<bool>>)
    requires
        floodable(before, pos_of(entry)),
        marks.len() == before.len(),
        forall|y: int| 0 <= y < before.len() ==> (#[trigger] marks[y]).len() == before[y].len(),
        forall|x: int, y: int| inside(before, x, y) ==> !(#[trigger] marks[y][x]),
    ensures
        sweeping(before, before, pos_of(entry), seq![entry], marks),
        spread_out(before, before, seq![entry], None),
{
    let start = pos_of(entry);
    lemma_reaches_start(before, start);
}

/// The first cell of the queue is taken out and discovered. All stays in
/// order, but that this cell has yet to spread out; one cell less is left
/// to discover.
proof fn lemma_sweep_open(
    before: Grid,
    was: Grid,
    now: Grid,
    start: Pos,
    queued: Seq<(usize, usize)>,
    rest: Seq<(usize, usize)>,
    marks: Seq<Seq<bool>>,
)
    requires
        sweeping(before, was, start, queued, marks),
        spread_out(before, was, queued, None),
        opened(before, was, start) || (queued.len() == 1 && pos_of(queued[0]) == start),
        queued.len() > 0,
        rest == queued.subrange(1, queued.len() as int),
        now == set_cell(
            was,
            pos_of(queued[0]).x,
            pos_of(queued[0]).y,
            Cell::Discovered(was[pos_of(queued[0]).y][pos_of(queued[0]).x].item()),
        ),
    ensures
        sweeping(before, now, start, rest, marks),
        spread_out(before, now, rest, Some(pos_of(queued[0]))),
        opened(before, now, start),
        opened(before, now, pos_of(queued[0])),
        spreads(before, pos_of(queued[0])) <==> now[pos_of(queued[0]).y][pos_of(queued[0]).x]
            == Cell::Discovered(Item::Empty(0)),
        count_grid(now, undiscovered_empty()) == count_grid(was, undiscovered_empty()) - 1,
        count_grid(now, hidden_and_empty()) == count_grid(was, hidden_and_empty()) - 1,
{
    let here = pos_of(queued[0]);
    assert(kept(before, was, here) || opened(before, was, here));
    lemma_count_set_cell(was, here.x, here.y, now[here.y][here.x], undiscovered_empty());
    lemma_count_set_cell(was, here.x, here.y, now[here.y][here.x], hidden_and_empty());
    assert forall|p: Pos| inside(before, p.x, p.y) implies #[trigger] kept(before, now, p)
        || opened(before, now, p) by {
        assert(kept(before, was, p) || opened(before, was, p));
    }
    assert forall|p: Pos| #[trigger] opened(before, now, p) implies reaches(before, start, p) by {
        if p != here {
            assert(opened(before, was, p));
        }
    }
    assert forall|p: Pos| #[trigger] waiting(queued, p) implies waiting(rest, p) || p == here by {
        let i = choose|i: int| 0 <= i < queued.len() && pos_of(#[trigger] queued[i]) == p;
        if i > 0 {
            assert(rest[i - 1] == queued[i]);
        }
    }
}

/// A hidden, unmarked neighbour of the cell that is spreading out is put
/// into the queue and marked. All stays in order, and what was in the
/// queue still is.
proof fn lemma_sweep_push(
    before: Grid,
    now: Grid,
    start: Pos,
    queued: Seq<(usize, usize)>,
    marks: Seq<Seq<bool>>,
    here: Pos,
    entry: (usize, usize),
    marks_after: Seq<Seq<bool>>,
)
    requires
        sweeping(before, now, start, queued, marks),
        spread_out(before, now, queued, Some(here)),
        opened(before, now, start),
        opened(before, now, here),
        spreads(before, here),
        adjacent(here, pos_of(entry)),
        floodable(now, pos_of(entry)),
        !marked(marks, pos_of(entry)),
        marks_after == marks.update(
            pos_of(entry).y,
            marks[pos_of(entry).y].update(pos_of(entry).x, true),
        ),
    ensures
        sweeping(before, now, start, queued.push(entry), marks_after),
        spread_out(before, now, queued.push(entry), Some(here)),
        waiting(queued.push(entry), pos_of(entry)),
        forall|p: Pos| #[trigger] waiting(queued, p) ==> waiting(queued.push(entry), p),
{
    let there = pos_of(entry);
    let queue = queued.push(entry);
    assert(kept(before, now, there) || opened(before, now, there));
    lemma_reaches_step(before, start, here, there);
    assert forall|p: Pos| #[trigger] waiting(queued, p) implies waiting(queue, p) by {
        let i = choose|i: int| 0 <= i < queued.len() && pos_of(#[trigger] queued[i]) == p;
        assert(queue[i] == queued[i]);
    }
    assert(queue[queued.len() as int] == entry);
    assert forall|p: Pos| inside(before, p.x, p.y) && #[trigger] marked(marks_after, p) implies
        waiting(queue, p) || opened(before, now, p) by {
        if p != there {
            assert(marked(marks, p));
        }
    }
}

/// A neighbour that is not put into the queue, because it is not a hidden
/// cell without a bomb or because it is marked, is in the queue or is
/// discovered, if it was floodable at all.
proof fn lemma_sweep_skip(
    before: Grid,
    now: Grid,
    start: Pos,
    queue: Seq<(usize, usize)>,
    marks: Seq<Seq<bool>>,
    there: Pos,
)
    requires
        sweeping(before, now, start, queue, marks),
        inside(before, there.x, there.y),
        !floodable(now, there) || marked(marks, there),
    ensures
        floodable(before, there) ==> opened(before, now, there) || waiting(queue, there),
{
    assert(kept(before, now, there) || opened(before, now, there));
}

/// Once the cell at `here` has looked in all eight directions, it has
/// spread out like every other.
proof fn lemma_sweep_around(before: Grid, now: Grid, queue: Seq<(usize, usize)>, here: Pos)
    requires
        spread_out(before, now, queue, Some(here)),
        forall|k: int|
            0 <= k < 8 && floodable(before, #[trigger] toward(here, k)) ==> opened(
                before,
                now,
                toward(here, k),
            ) || waiting(queue, toward(here, k)),
    ensures
        spread_out(before, now, queue, None),
{
    assert forall|p: Pos, d: Pos|
        opened(before, now, p) && spreads(before, p) && #[trigger] adjacent(p, d)
            && floodable(before, d) implies opened(before, now, d) || waiting(queue, d) by {
        if p == here {
            lemma_directions(here, d);
        }
    }
}

/// Along a way that the flood can take from the start, every cell has been
/// discovered, once nothing is waiting and every discovered cell has
/// spread out.
proof fn lemma_sweep_covers(before: Grid, now: Grid, start: Pos, path: Seq<Pos>, upto: int)
    requires
        opened(before, now, start),
        spread_out(before, now, Seq::empty(), None),
        flood_path(before, path),
        path[0] == start,
        0 <= upto < path.len(),
    ensures
        opened(before, now, path[upto]),
    decreases upto,
{
    if upto > 0 {
        lemma_sweep_covers(before, now, start, path, upto - 1);
    }
}

/// With the queue empty, the field is what the flood makes of the grid
/// that it started on.
proof fn lemma_sweep_end(before: Grid, now: Grid, start: Pos, marks: Seq<Seq<bool>>)
    requires
        sweeping(before, now, start, Seq::empty(), marks),
        spread_out(before, now, Seq::empty(), None),
        opened(before, now, start),
    ensures
        now == flood(before, start),
{
    let flooded = flood(before, start);
    assert forall|y: int| 0 <= y < now.len() implies #[trigger] now[y] =~= flooded[y] by {
        assert forall|x: int| 0 <= x < now[y].len() implies now[y][x] == flooded[y][x] by {
            let p = Pos { x, y };
            assert(kept(before, now, p) || opened(before, now, p));
            if reaches(before, start, p) {
                let path = choose|path: Seq<Pos>|
                    #[trigger] flood_path(before, path) && path[0] == start && path.last() == p;
                lemma_sweep_covers(before, now, start, path, path.len() - 1);
            }
        }
    }
}

/// `at` moved by `by`, where that stays below `limit`.
fn shifted(at: usize, by: i8, limit: usize) -> (moved: Option<usize>)
    requires
        at < limit,
        -1 <= by <= 1,
    ensures
        match moved {
            Some(v) => v == at + by && v < limit,
            None => !(0 <= at + by < limit),
        },
{
    if by < 0 {
        if at > 0 {
            Some(at - 1)
        } else {
            None
        }
    } else if by == 0 {
        Some(at)
    } else if at + 1 < limit {
        Some(at + 1)
    } else {
        None
    }
}

/// The row and column offsets of the `k`-th direction: down, right, up,
/// left, then the four diagonals.
fn direction(k: usize) -> (offsets: (i8, i8))
    requires
        k < 8,
    ensures
        offsets.0 == step_y(k as int),
        offsets.1 == step_x(k as int),
{
    match k {
        0 => (1, 0),
        1 => (0, 1),
        2 => (-1, 0),
        3 => (0, -1),
        4 => (1, 1),
        5 => (-1, -1),
        6 => (1, -1),
        _ => (-1, 1),
    }
}

/// The neighbour of `(row, col)` in the `k`-th direction, if the field of
/// `rows` by `cols` cells has one there.
fn neighbour(
    row: usize,
    col: usize,
    k: usize,
    rows: usize,
    cols: usize,
) -> (found: Option<(usize, usize)>)
    requires
        row < rows,
        col < cols,
        k < 8,
    ensures
        match found {
            Some(entry) => {
                &&& pos_of(entry) == toward(pos_of((row, col)), k as int)
                &&& entry.0 < rows
                &&& entry.1 < cols
            },
            None => {
                let d = toward(pos_of((row, col)), k as int);
                !(0 <= d.y < rows && 0 <= d.x < cols)
            },
        },
{
    let (down, right) = direction(k);
    match shifted(row, down, rows) {
        Some(r) => match shifted(col, right, cols) {
            Some(c) => Some((r, c)),
            None => None,
        },
        None => None,
    }
}

/// A table of `rows` by `cols` marks, none of them set.
fn unmarked(rows: usize, cols: usize) -> (marks: Vec<Vec<bool>>)
    ensures
        marks@.len() == rows,
        forall|y: int| 0 <= y < rows ==> (#[trigger] marks@[y])@.len() == cols,
        forall|y: int, x: int| 0 <= y < rows && 0 <= x < cols ==> !(#[trigger] marks@[y]@[x]),
{
    let mut marks: Vec<Vec<bool>> = Vec::new();
    let mut y: usize = 0;
    while y < rows
        invariant
            y <= rows,
            marks@.len() == y,
            forall|r: int| 0 <= r < y ==> (#[trigger] marks@[r])@.len() == cols,
            forall|r: int, x: int| 0 <= r < y && 0 <= x < cols ==> !(#[trigger] marks@[r]@[x]),
        decreases rows - y,
    {
        let mut line: Vec<bool> = Vec::new();
        let mut x: usize = 0;
        while x < cols
            invariant
                x <= cols,
                line@.len() == x,
                forall|i: int| 0 <= i < x ==> !(#[trigger] line@[i]),
            decreases cols - x,
        {
            line.push(false);
            x += 1;
        }
        marks.push(line);
        y += 1;
    }
    marks
}

/// Discovers the cell at `start_row`, `start_col` and, where no bomb lies
/// around it, the cells around it, and so on from each of those with no
/// bomb around it. Cells with a bomb, with a pin or already discovered are
/// left as they are. `hidden_count` goes down by the number of cells
/// discovered; it is to start no lower than the number of hidden cells
/// without a bomb.
///
/// The cells are taken in the order in which the flood comes to them: a
/// queue holds those that it has come to and not yet discovered, and a
/// table of marks keeps a cell from getting into the queue twice.
pub fn fill_area(
    field: &mut Vec<Vec<Cell>>,
    start_row: usize,
    start_col: usize,
    hidden_count: &mut usize,
)
    requires
        rectangular(grid_of(old(field)@)),
        floodable(grid_of(old(field)@), pos_of((start_row, start_col))),
        *old(hidden_count) >= count_grid(grid_of(old(field)@), hidden_and_empty()),
    ensures
        grid_of(final(field)@) == flood(grid_of(old(field)@), pos_of((start_row, start_col))),
        // the counter goes down by the number of cells discovered
        *final(hidden_count) == *old(hidden_count) - (count_grid(
            grid_of(old(field)@),
            hidden_and_empty(),
        ) - count_grid(grid_of(final(field)@), hidden_and_empty())),
        // and is right afterwards if it was right before
        *old(hidden_count) == count_grid(grid_of(old(field)@), undiscovered_empty())
            ==> *final(hidden_count) == count_grid(grid_of(final(field)@), undiscovered_empty()),
        same_items(grid_of(old(field)@), grid_of(final(field)@)),
        forall|x: int, y: int|
            has_bomb(grid_of(old(field)@), x, y)
                ==> #[trigger] grid_of(final(field)@)[y][x] == grid_of(old(field)@)[y][x],
        forall|x: int, y: int|
            inside(grid_of(old(field)@), x, y)
                && reaches(grid_of(old(field)@), pos_of((start_row, start_col)), Pos { x, y })
                ==> #[trigger] grid_of(final(field)@)[y][x] is Discovered,
        // next to a cell with no bomb around it that the call has discovered,
        // no hidden cell without a bomb is left
        forall|p: Pos, d: Pos|
            spreads(grid_of(old(field)@), p) && grid_of(final(field)@)[p.y][p.x] is Discovered
                && #[trigger] adjacent(p, d) ==> !floodable(grid_of(final(field)@), d),
{
    let ghost before = grid_of(field@);
    let ghost start = pos_of((start_row, start_col));
    let ghost at_first = *hidden_count;
    let rows = field.len();
    let cols = field[0].len();
    let mut explored = unmarked(rows, cols);
    let mut queue: VecDeque<(usize, usize)> = VecDeque::new();
    queue.push_back((start_row, start_col));
    proof {
        lemma_sweep_start(before, (start_row, start_col), table_of(explored@));
    }
    while queue.len() > 0
        invariant
            rectangular(before),
            rows == before.len(),
            cols == width_of(before),
            sweeping(before, grid_of(field@), start, queue@, table_of(explored@)),
            spread_out(before, grid_of(field@), queue@, None),
            opened(before, grid_of(field@), start)
                || (queue@.len() == 1 && pos_of(queue@[0]) == start),
            counting_down(before, grid_of(field@), at_first as int, *hidden_count as int),
        decreases *hidden_count,
    {
        let ghost was = grid_of(field@);
        let ghost queued = queue@;
        let (row, col) = queue.pop_front().unwrap();
        let ghost here = pos_of((row, col));
        let shown = field[row][col].turn_discovered();
        field[row][col] = shown;
        proof {
            assert(grid_of(field@) =~~= set_cell(was, col as int, row as int, shown));
            lemma_sweep_open(
                before,
                was,
                grid_of(field@),
                start,
                queued,
                queue@,
                table_of(explored@),
            );
        }
        *hidden_count -= 1;
        let spreading = match shown.get_item() {
            Item::Empty(count) => count == 0,
            Item::Bomb => false,
        };
        if spreading {
            let mut k: usize = 0;
            while k < 8
                invariant
                    k <= 8,
                    rectangular(before),
                    rows == before.len(),
                    cols == width_of(before),
                    row < rows,
                    col < cols,
                    here == pos_of((row, col)),
                    sweeping(before, grid_of(field@), start, queue@, table_of(explored@)),
                    spread_out(before, grid_of(field@), queue@, Some(here)),
                    opened(before, grid_of(field@), start),
                    opened(before, grid_of(field@), here),
                    spreads(before, here),
                    forall|j: int|
                        0 <= j < k && floodable(before, #[trigger] toward(here, j)) ==> opened(
                            before,
                            grid_of(field@),
                            toward(here, j),
                        ) || waiting(queue@, toward(here, j)),
                    counting_down(before, grid_of(field@), at_first as int, *hidden_count as int),
                decreases 8 - k,
            {
                let ghost now = grid_of(field@);
                let ghost there = toward(here, k as int);
                let ghost queued = queue@;
                let ghost marks = table_of(explored@);
                match neighbour(row, col, k, rows, cols) {
                    Some((r, c)) => {
                        proof {
                            assert(now[r as int].len() == cols);
                            assert(marks[r as int].len() == cols);
                        }
                        let fresh = match field[r][c] {
                            Cell::Hidden(Item::Empty(_)) => !explored[r][c],
                            _ => false,
                        };
                        if fresh {
                            queue.push_back((r, c));
                            explored[r][c] = true;
                            proof {
                                let marks_after = marks.update(
                                    r as int,
                                    marks[r as int].update(c as int, true),
                                );
                                assert(table_of(explored@) =~~= marks_after);
                                lemma_sweep_push(
                                    before,
                                    now,
                                    start,
                                    queued,
                                    marks,
                                    here,
                                    (r, c),
                                    marks_after,
                                );
                            }
                        } else {
                            proof {
                                lemma_sweep_skip(before, now, start, queued, marks, there);
                            }
                        }
                    },
                    None => {},
                }
                k += 1;
            }
            proof {
                lemma_sweep_around(before, grid_of(field@), queue@, here);
            }
        }
    }
    proof {
        lemma_sweep_end(before, grid_of(field@), start, table_of(explored@));
        assert forall|p: Pos, d: Pos|
            spreads(before, p) && grid_of(field@)[p.y][p.x] is Discovered
                && #[trigger] adjacent(p, d) implies !floodable(grid_of(field@), d) by {
            // the flood has come to `p`, and so to each floodable neighbour
            if floodable(before, d) {
                lemma_reaches_step(before, start, p, d);
            }
        }
    }
}

} // verus!
