use vstd::prelude::*;
use crate::gem::{Cell, GemType};
use crate::board::{GameBoard, cell_at, column_of, grid_set, in_bounds, lemma_grid_set_cell, is_grid, swap_cells, lemma_grid_ext, is_full, covers, random_kinds};
use crate::detect::{find_matches, is_matched, has_match};
use crate::drag::{DragState, is_adjacent, is_valid_swap};
use crate::scoreboard::{Scoreboard, next_total};

verus! {

/// The gems of a column, top to bottom, with the empty cells left out.
pub open spec fn occupied_cells(col: Seq<Cell>) -> Seq<Cell> {
    col.filter(|c: Cell| c.is_occupied())
}

/// A column after gravity: its gems keep their order and rest at the bottom
/// (the highest row index), and the empty cells gather at the top.
pub open spec fn settle(col: Seq<Cell>) -> Seq<Cell> {
    Seq::new((col.len() - occupied_cells(col).len()) as nat, |i: int| Cell::Empty)
        + occupied_cells(col)
}

/// A `width` by `height` grid after gravity: every column settled.
pub open spec fn settle_grid(g: Seq<Seq<Cell>>, width: int, height: int) -> Seq<Seq<Cell>> {
    Seq::new(
        height as nat,
        |y: int| Seq::new(width as nat, |x: int| settle(column_of(g, x))[y]),
    )
}

/// A grid after refill from `draws`: each empty cell `(x, y)` holds
/// `draws[y][x]`, every other cell is kept.
pub open spec fn refill_grid(g: Seq<Seq<Cell>>, draws: Seq<Vec<GemType>>) -> Seq<Seq<Cell>> {
    Seq::new(
        g.len(),
        |y: int|
            Seq::new(
                g[y].len(),
                |x: int|
                    if g[y][x].is_occupied() {
                        g[y][x]
                    } else {
                        Cell::Occupied(draws[y]@[x])
                    },
            ),
    )
}

/// A `width` by `height` grid with its matched cells emptied.
pub open spec fn clear_grid(g: Seq<Seq<Cell>>, width: int, height: int) -> Seq<Seq<Cell>> {
    Seq::new(
        height as nat,
        |y: int|
            Seq::new(
                width as nat,
                |x: int|
                    if is_matched(g, (x as usize, y as usize)) {
                        Cell::Empty
                    } else {
                        g[y][x]
                    },
            ),
    )
}

/// The matched positions of a `width` by `height` grid.
pub open spec fn matched_set(g: Seq<Seq<Cell>>, width: int, height: int) -> Set<(usize, usize)> {
    Set::new(|p: (usize, usize)| in_bounds(width, height, p) && is_matched(g, p))
}

/// How many cells of a `width` by `height` grid are matched.
pub open spec fn matched_count(g: Seq<Seq<Cell>>, width: int, height: int) -> nat {
    matched_set(g, width, height).len()
}

/// One round of the cascade on a grid: gravity, then refill from `draws`.
pub open spec fn drop_and_refill(
    g: Seq<Seq<Cell>>,
    draws: Seq<Vec<GemType>>,
    width: int,
    height: int,
) -> Seq<Seq<Cell>> {
    refill_grid(settle_grid(g, width, height), draws)
}

/// No empty cell lies below a gem in the same column.
pub open spec fn no_gaps(col: Seq<Cell>) -> bool {
    forall|i: int, j: int|
        0 <= i < j < col.len() && (#[trigger] col[i]).is_occupied() ==> (#[trigger] col[j]).is_occupied()
}

/// A settled column has the same length as before, and no empty cell lies
/// below a gem.
pub proof fn lemma_settled_column(col: Seq<Cell>)
    ensures
        settle(col).len() == col.len(),
        no_gaps(settle(col)),
{
    let kept = occupied_cells(col);
    col.lemma_filter_len(|c: Cell| c.is_occupied());
    let gap = col.len() - kept.len();
    let s = settle(col);
    assert forall|i: int, j: int|
        0 <= i < j < s.len() && (#[trigger] s[i]).is_occupied() implies (#[trigger] s[j]).is_occupied() by {
        assert(j >= gap);
        col.lemma_filter_pred(|c: Cell| c.is_occupied(), j - gap);
    }
}

/// On a full grid no empty cell lies below a gem in any column.
pub proof fn lemma_full_has_no_gaps(g: Seq<Seq<Cell>>, width: int, height: int)
    requires
        width <= usize::MAX,
        height <= usize::MAX,
        is_grid(g, width, height),
        is_full(g, width, height),
    ensures
        forall|x: int| 0 <= x < width ==> no_gaps(#[trigger] column_of(g, x)),
{
    assert forall|x: int| 0 <= x < width implies no_gaps(#[trigger] column_of(g, x)) by {
        let col = column_of(g, x);
        assert forall|i: int, j: int|
            0 <= i < j < col.len() && (#[trigger] col[i]).is_occupied() implies (#[trigger] col[j]).is_occupied() by {
            assert(cell_at(g, (x as usize, j as usize)).is_occupied());
        }
    }
}

/// The gems of `col` in order.
fn occupied_of(col: &Vec<Cell>) -> (r: Vec<Cell>)
    ensures
        r@ == occupied_cells(col@),
{
    let mut r: Vec<Cell> = Vec::new();
    let mut i: usize = 0;
    while i < col.len()
        invariant
            i <= col@.len(),
            r@ == occupied_cells(col@.take(i as int)),
        decreases col@.len() - i,
    {
        proof {
            assert(col@.take(i + 1).drop_last() =~= col@.take(i as int));
            reveal(Seq::filter);
        }
        if col[i].occupied() {
            r.push(col[i]);
        }
        i = i + 1;
    }
    assert(col@.take(col@.len() as int) =~= col@);
    r
}

/// Empties the cells at the given positions.
pub fn clear_cells(board: &mut GameBoard, cells: &Vec<(usize, usize)>)
    requires
        old(board).wf(),
        forall|i: int| 0 <= i < cells@.len() ==> old(board).contains(#[trigger] cells@[i]),
    ensures
        final(board).wf(),
        final(board).spec_width() == old(board).spec_width(),
        final(board).spec_height() == old(board).spec_height(),
        forall|p: (usize, usize)|
            old(board).contains(p) ==> #[trigger] cell_at(final(board)@, p) == if cells@.contains(
                p,
            ) {
                Cell::Empty
            } else {
                cell_at(old(board)@, p)
            },
{
    let ghost g0 = board@;
    let mut i: usize = 0;
    while i < cells.len()
        invariant
            board.wf(),
            board.spec_width() == old(board).spec_width(),
            board.spec_height() == old(board).spec_height(),
            g0 == old(board)@,
            i <= cells@.len(),
            forall|j: int| 0 <= j < cells@.len() ==> old(board).contains(#[trigger] cells@[j]),
            forall|p: (usize, usize)|
                old(board).contains(p) ==> #[trigger] cell_at(board@, p) == if cells@.take(
                    i as int,
                ).contains(p) {
                    Cell::Empty
                } else {
                    cell_at(g0, p)
                },
        decreases cells@.len() - i,
    {
        let q = cells[i];
        let ghost before = board@;
        board.put(q, Cell::Empty);
        proof {
            assert forall|p: (usize, usize)| old(board).contains(p) implies #[trigger] cell_at(
                board@,
                p,
            ) == if cells@.take(i + 1).contains(p) {
                Cell::Empty
            } else {
                cell_at(g0, p)
            } by {
                assert(cells@.take(i + 1) =~= cells@.take(i as int).push(q));
                assert(cells@.take(i + 1)[i as int] == q);
                lemma_grid_set_cell(
                    before,
                    board.spec_width() as int,
                    board.spec_height() as int,
                    q,
                    Cell::Empty,
                    p,
                );
                if p != q && cells@.take(i + 1).contains(p) {
                    let k = choose|k: int| 0 <= k < i + 1 && #[trigger] cells@.take(i + 1)[k] == p;
                    assert(cells@.take(i as int)[k] == p);
                }
            }
        }
        i = i + 1;
    }
    assert(cells@.take(cells@.len() as int) =~= cells@);
}

/// Gravity: in every column the gems drop to the bottom, keeping their
/// order, and the empty cells rise to the top. One call compacts each column
/// completely, whatever the size of its gaps.
pub fn fall_system(board: &mut GameBoard)
    requires
        old(board).wf(),
    ensures
        final(board).wf(),
        final(board).spec_width() == old(board).spec_width(),
        final(board).spec_height() == old(board).spec_height(),
        forall|x: int|
            0 <= x < old(board).spec_width() ==> #[trigger] column_of(final(board)@, x) == settle(
                column_of(old(board)@, x),
            ),
        final(board)@ == settle_grid(
            old(board)@,
            old(board).spec_width() as int,
            old(board).spec_height() as int,
        ),
{
    let ghost g0 = board@;
    let w = board.width();
    let h = board.height();
    let mut x: usize = 0;
    while x < w
        invariant
            board.wf(),
            g0 == old(board)@,
            is_grid(g0, w as int, h as int),
            w == board.spec_width() == old(board).spec_width(),
            h == board.spec_height() == old(board).spec_height(),
            x <= w,
            forall|p: (usize, usize)|
                in_bounds(w as int, h as int, p) ==> #[trigger] cell_at(board@, p) == if p.0 < x {
                    settle(column_of(g0, p.0 as int))[p.1 as int]
                } else {
                    cell_at(g0, p)
                },
        decreases w - x,
    {
        let col = board.column(x);
        assert(col@ =~= column_of(g0, x as int)) by {
            assert forall|y: int| 0 <= y < h implies col@[y] == column_of(g0, x as int)[y] by {
                assert(cell_at(board@, (x, y as usize)) == cell_at(g0, (x, y as usize)));
            }
        }
        let kept = occupied_of(&col);
        proof {
            lemma_settled_column(col@);
            col@.lemma_filter_len(|c: Cell| c.is_occupied());
        }
        let gap = h - kept.len();
        let mut y: usize = 0;
        while y < h
            invariant
                board.wf(),
                g0 == old(board)@,
                is_grid(g0, w as int, h as int),
                w == board.spec_width(),
                h == board.spec_height(),
                x < w,
                y <= h,
                kept@ == occupied_cells(col@),
                col@ == column_of(g0, x as int),
                gap == h - kept@.len(),
                forall|p: (usize, usize)|
                    in_bounds(w as int, h as int, p) ==> #[trigger] cell_at(board@, p) == if p.0
                        < x || (p.0 == x && p.1 < y) {
                        settle(column_of(g0, p.0 as int))[p.1 as int]
                    } else {
                        cell_at(g0, p)
                    },
            decreases h - y,
        {
            let c = if y < gap {
                Cell::Empty
            } else {
                kept[y - gap]
            };
            assert(c == settle(col@)[y as int]);
            let ghost before = board@;
            board.put((x, y), c);
            proof {
                assert forall|p: (usize, usize)| in_bounds(w as int, h as int, p) implies #[trigger] cell_at(
                    board@,
                    p,
                ) == if p.0 < x || (p.0 == x && p.1 < y + 1) {
                    settle(column_of(g0, p.0 as int))[p.1 as int]
                } else {
                    cell_at(g0, p)
                } by {
                    lemma_grid_set_cell(before, w as int, h as int, (x, y), c, p);
                }
            }
            y = y + 1;
        }
        x = x + 1;
    }
    proof {
        assert forall|cx: int| 0 <= cx < w implies #[trigger] column_of(board@, cx) == settle(
            column_of(g0, cx),
        ) by {
            lemma_settled_column(column_of(g0, cx));
            assert forall|y: int| 0 <= y < h implies column_of(board@, cx)[y] == settle(
                column_of(g0, cx),
            )[y] by {
                assert(cell_at(board@, (cx as usize, y as usize)) == settle(column_of(g0, cx))[y]);
            }
            assert(column_of(board@, cx) =~= settle(column_of(g0, cx)));
        }
        let sg = settle_grid(g0, w as int, h as int);
        assert forall|y: int| 0 <= y < h implies #[trigger] sg[y].len() == w by {}
        lemma_grid_ext(board@, sg, w as int, h as int);
    }
}

/// Refill: every empty cell `(x, y)` receives the gem `draws[y][x]`; cells
/// that hold a gem keep it.
pub fn refill_with(board: &mut GameBoard, draws: &Vec<Vec<GemType>>)
    requires
        old(board).wf(),
        covers(draws@, old(board).spec_width() as int, old(board).spec_height() as int),
    ensures
        final(board).wf(),
        final(board).spec_width() == old(board).spec_width(),
        final(board).spec_height() == old(board).spec_height(),
        forall|p: (usize, usize)|
            old(board).contains(p) ==> #[trigger] cell_at(final(board)@, p) == if cell_at(
                old(board)@,
                p,
            ).is_occupied() {
                cell_at(old(board)@, p)
            } else {
                Cell::Occupied(draws@[p.1 as int]@[p.0 as int])
            },
        final(board)@ == refill_grid(old(board)@, draws@),
{
    let ghost g0 = board@;
    let w = board.width();
    let h = board.height();
    let mut y: usize = 0;
    while y < h
        invariant
            board.wf(),
            g0 == old(board)@,
            w == board.spec_width() == old(board).spec_width(),
            h == board.spec_height() == old(board).spec_height(),
            covers(draws@, w as int, h as int),
            y <= h,
            forall|p: (usize, usize)|
                in_bounds(w as int, h as int, p) ==> #[trigger] cell_at(board@, p) == if p.1 < y
                    && !cell_at(g0, p).is_occupied() {
                    Cell::Occupied(draws@[p.1 as int]@[p.0 as int])
                } else {
                    cell_at(g0, p)
                },
        decreases h - y,
    {
        let mut x: usize = 0;
        while x < w
            invariant
                board.wf(),
                g0 == old(board)@,
                w == board.spec_width(),
                h == board.spec_height(),
                covers(draws@, w as int, h as int),
                y < h,
                x <= w,
                forall|p: (usize, usize)|
                    in_bounds(w as int, h as int, p) ==> #[trigger] cell_at(board@, p) == if (p.1
                        < y || (p.1 == y && p.0 < x)) && !cell_at(g0, p).is_occupied() {
                        Cell::Occupied(draws@[p.1 as int]@[p.0 as int])
                    } else {
                        cell_at(g0, p)
                    },
            decreases w - x,
        {
            let current = board.get((x, y));
            assert(cell_at(board@, (x, y)) == cell_at(g0, (x, y)));
            if let Ok(Cell::Empty) = current {
                let c = Cell::Occupied(draws[y][x]);
                let ghost before = board@;
                board.put((x, y), c);
                proof {
                    assert forall|p: (usize, usize)| in_bounds(w as int, h as int, p) implies #[trigger] cell_at(
                        board@,
                        p,
                    ) == if (p.1 < y || (p.1 == y && p.0 < x + 1)) && !cell_at(g0, p).is_occupied() {
                        Cell::Occupied(draws@[p.1 as int]@[p.0 as int])
                    } else {
                        cell_at(g0, p)
                    } by {
                        lemma_grid_set_cell(before, w as int, h as int, (x, y), c, p);
                    }
                }
            }
            x = x + 1;
        }
        y = y + 1;
    }
    proof {
        let rg = refill_grid(g0, draws@);
        assert forall|j: int| 0 <= j < h implies #[trigger] rg[j].len() == w by {}
        lemma_grid_ext(board@, rg, w as int, h as int);
    }
}

/// Refill with random gems: afterwards every cell holds a gem, and the
/// cells that held one before still hold the same.
pub fn refill_system(board: &mut GameBoard)
    requires
        old(board).wf(),
    ensures
        final(board).wf(),
        final(board).spec_width() == old(board).spec_width(),
        final(board).spec_height() == old(board).spec_height(),
        is_full(final(board)@, old(board).spec_width() as int, old(board).spec_height() as int),
        forall|p: (usize, usize)|
            old(board).contains(p) && cell_at(old(board)@, p).is_occupied() ==> #[trigger] cell_at(
                final(board)@,
                p,
            ) == cell_at(old(board)@, p),
{
    let draws = random_kinds(board.width(), board.height());
    refill_with(board, &draws);
}

/// Detection and clearing: finds every matched cell, counts them on the
/// scoreboard, and empties them. Returns the matched positions, each once.
pub fn match_system(board: &mut GameBoard, scoreboard: &mut Scoreboard) -> (r: Vec<(usize, usize)>)
    requires
        old(board).wf(),
        old(scoreboard).wf(),
    ensures
        final(board).wf(),
        final(board).spec_width() == old(board).spec_width(),
        final(board).spec_height() == old(board).spec_height(),
        final(scoreboard).wf(),
        r@.no_duplicates(),
        forall|p: (usize, usize)|
            #[trigger] r@.contains(p) <==> old(board).contains(p) && is_matched(old(board)@, p),
        forall|p: (usize, usize)|
            old(board).contains(p) ==> #[trigger] cell_at(final(board)@, p) == if is_matched(
                old(board)@,
                p,
            ) {
                Cell::Empty
            } else {
                cell_at(old(board)@, p)
            },
        final(scoreboard).spec_total() == next_total(old(scoreboard).spec_total(), r@.len()),
        final(scoreboard).spec_total() >= old(scoreboard).spec_total(),
        r@.len() == 0 <==> !has_match(
            old(board)@,
            old(board).spec_width() as int,
            old(board).spec_height() as int,
        ),
        r@.len() == 0 ==> final(board)@ == old(board)@,
        r@.len() == 0 ==> final(scoreboard).spec_total() == old(scoreboard).spec_total(),
        r@.len() == matched_count(
            old(board)@,
            old(board).spec_width() as int,
            old(board).spec_height() as int,
        ),
        final(board)@ == clear_grid(
            old(board)@,
            old(board).spec_width() as int,
            old(board).spec_height() as int,
        ),
{
    let matches = find_matches(board);
    scoreboard.record_cleared(matches.len());
    let ghost g0 = board@;
    clear_cells(board, &matches);
    proof {
        let w = board.spec_width() as int;
        let h = board.spec_height() as int;
        assert(matches@.to_set() =~= matched_set(g0, w, h));
        matches@.unique_seq_to_set();
        let cg = clear_grid(g0, w, h);
        assert forall|j: int| 0 <= j < h implies #[trigger] cg[j].len() == w by {}
        assert forall|p: (usize, usize)| in_bounds(w, h, p) implies #[trigger] cell_at(board@, p)
            == cell_at(cg, p) by {}
        lemma_grid_ext(board@, cg, w, h);
        if matches@.len() == 0 {
            assert forall|p: (usize, usize)|
                in_bounds(board.spec_width() as int, board.spec_height() as int, p) implies #[trigger] cell_at(
                board@,
                p,
            ) == cell_at(g0, p) by {
                assert(!matches@.contains(p));
            }
            lemma_grid_ext(
                board@,
                g0,
                board.spec_width() as int,
                board.spec_height() as int,
            );
        }
    }
    matches
}

/// One round of the cascade with the given new gems: gravity, refill from
/// `draws`, then detection, scoring and clearing on the refilled board.
/// Returns the matched positions of the refilled board, each once.
pub fn cascade_round(
    board: &mut GameBoard,
    scoreboard: &mut Scoreboard,
    draws: &Vec<Vec<GemType>>,
) -> (r: Vec<(usize, usize)>)
    requires
        old(board).wf(),
        old(scoreboard).wf(),
        covers(draws@, old(board).spec_width() as int, old(board).spec_height() as int),
    ensures
        final(board).wf(),
        final(board).spec_width() == old(board).spec_width(),
        final(board).spec_height() == old(board).spec_height(),
        final(scoreboard).wf(),
        is_full(
            drop_and_refill(
                old(board)@,
                draws@,
                old(board).spec_width() as int,
                old(board).spec_height() as int,
            ),
            old(board).spec_width() as int,
            old(board).spec_height() as int,
        ),
        r@.no_duplicates(),
        forall|p: (usize, usize)|
            #[trigger] r@.contains(p) <==> old(board).contains(p) && is_matched(
                drop_and_refill(
                    old(board)@,
                    draws@,
                    old(board).spec_width() as int,
                    old(board).spec_height() as int,
                ),
                p,
            ),
        final(board)@ == clear_grid(
            drop_and_refill(
                old(board)@,
                draws@,
                old(board).spec_width() as int,
                old(board).spec_height() as int,
            ),
            old(board).spec_width() as int,
            old(board).spec_height() as int,
        ),
        r@.len() == 0 <==> !has_match(
            drop_and_refill(
                old(board)@,
                draws@,
                old(board).spec_width() as int,
                old(board).spec_height() as int,
            ),
            old(board).spec_width() as int,
            old(board).spec_height() as int,
        ),
        r@.len() == 0 ==> final(board)@ == drop_and_refill(
            old(board)@,
            draws@,
            old(board).spec_width() as int,
            old(board).spec_height() as int,
        ),
        r@.len() == matched_count(
            drop_and_refill(
                old(board)@,
                draws@,
                old(board).spec_width() as int,
                old(board).spec_height() as int,
            ),
            old(board).spec_width() as int,
            old(board).spec_height() as int,
        ),
        final(scoreboard).spec_total() == next_total(old(scoreboard).spec_total(), r@.len()),
        final(scoreboard).spec_total() >= old(scoreboard).spec_total(),
{
    fall_system(board);
    refill_with(board, draws);
    match_system(board, scoreboard)
}

/// The gesture `d` ends in a legal move on a `width` by `height` board: it
/// was released, both ends are known, on the board, and orthogonal
/// neighbours.
pub open spec fn swap_is_due(d: DragState, width: int, height: int) -> bool {
    &&& !d.is_dragging
    &&& d.start is Some
    &&& d.end is Some
    &&& is_adjacent(d.start.unwrap(), d.end.unwrap())
    &&& in_bounds(width, height, d.start.unwrap())
    &&& in_bounds(width, height, d.end.unwrap())
}

/// Resolves a released gesture: swaps its two cells where the move is legal,
/// and in any case returns the gesture to idle. While the pointer is still
/// down nothing happens. Returns whether the board changed.
pub fn handle_drag_swap(board: &mut GameBoard, drag: &mut DragState) -> (swapped: bool)
    requires
        old(board).wf(),
    ensures
        final(board).wf(),
        final(board).spec_width() == old(board).spec_width(),
        final(board).spec_height() == old(board).spec_height(),
        old(drag).is_dragging ==> *final(drag) == *old(drag),
        !old(drag).is_dragging ==> final(drag).is_idle(),
        swapped == swap_is_due(
            *old(drag),
            old(board).spec_width() as int,
            old(board).spec_height() as int,
        ),
        swapped ==> final(board)@ == swap_cells(
            old(board)@,
            old(drag).start.unwrap(),
            old(drag).end.unwrap(),
        ),
        !swapped ==> final(board)@ == old(board)@,
{
    if drag.is_dragging {
        return false;
    }
    let mut swapped = false;
    if let (Some(start), Some(end)) = (drag.start, drag.end) {
        if is_valid_swap(start, end) {
            let r = board.swap(start, end);
            swapped = r.is_ok();
        }
    }
    drag.reset();
    swapped
}

} // verus!
