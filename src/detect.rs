use vstd::prelude::*;
use crate::gem::Cell;
use crate::board::{GameBoard, column_of, is_grid};

verus! {

/// Cells `s`, `s + 1` and `s + 2` of a line hold one and the same gem.
pub open spec fn triple_at(line: Seq<Cell>, s: int) -> bool {
    &&& 0 <= s
    &&& s + 2 < line.len()
    &&& line[s].is_occupied()
    &&& line[s + 1] == line[s]
    &&& line[s + 2] == line[s]
}

/// Cell `i` of a line lies in a run of three or more equal gems.
pub open spec fn in_run(line: Seq<Cell>, i: int) -> bool {
    triple_at(line, i - 2) || triple_at(line, i - 1) || triple_at(line, i)
}

/// The cell at `p` lies in a run of three or more equal gems along its row
/// or along its column.
pub open spec fn is_matched(g: Seq<Seq<Cell>>, p: (usize, usize)) -> bool {
    in_run(g[p.1 as int], p.0 as int) || in_run(column_of(g, p.0 as int), p.1 as int)
}

/// Some cell of the `width` by `height` grid is matched.
pub open spec fn has_match(g: Seq<Seq<Cell>>, width: int, height: int) -> bool {
    exists|p: (usize, usize)| p.0 < width && p.1 < height && #[trigger] is_matched(g, p)
}

/// Cells `s` to `e - 1` of a line hold one value, and neither neighbour of
/// that stretch holds it too.
pub open spec fn is_maximal_run(line: Seq<Cell>, s: int, e: int) -> bool {
    &&& 0 <= s < e <= line.len()
    &&& forall|j: int| s <= j < e ==> #[trigger] line[j] == line[s]
    &&& s > 0 ==> line[s - 1] != line[s]
    &&& e < line.len() ==> line[e] != line[s]
}

/// No row and no column of the grid holds three equal gems in a row.
pub open spec fn no_three_in_a_row(g: Seq<Seq<Cell>>, width: int) -> bool {
    &&& forall|y: int, s: int| 0 <= y < g.len() ==> !#[trigger] triple_at(g[y], s)
    &&& forall|x: int, s: int| 0 <= x < width ==> !#[trigger] triple_at(column_of(g, x), s)
}

/// A maximal run of equal cells is matched as a whole or not at all: each of
/// its cells lies in a run of three or more exactly when the run holds a gem
/// and is at least three long. So a run of four or five is reported with all
/// of its cells, and a shorter one with none.
pub proof fn lemma_maximal_run(line: Seq<Cell>, s: int, e: int)
    requires
        is_maximal_run(line, s, e),
    ensures
        forall|k: int|
            s <= k < e ==> #[trigger] in_run(line, k) == (line[s].is_occupied() && e - s >= 3),
{
    let c = line[s];
    let hit = c.is_occupied() && e - s >= 3;
    assert forall|k: int| s <= k < e implies in_run(line, k) == hit by {
        assert(line[k] == c);
        if hit {
            if k + 2 < e {
                assert(line[k + 1] == c);
                assert(line[k + 2] == c);
                assert(triple_at(line, k));
            } else if k + 1 < e {
                assert(line[k - 1] == c);
                assert(line[k + 1] == c);
                assert(triple_at(line, k - 1));
            } else {
                assert(line[k - 1] == c);
                assert(line[k - 2] == c);
                assert(triple_at(line, k - 2));
            }
        } else if in_run(line, k) {
            if e < line.len() {
                assert(line[e - 1] == c);
            }
            if s + 1 < e {
                assert(line[s + 1] == c);
            }
            if s + 2 < e {
                assert(line[s + 2] == c);
            }
            if e - 2 >= s {
                assert(line[e - 2] == c);
            }
        }
    }
}

/// A grid without three equal gems in a row along any row or column has no
/// matched cell.
pub proof fn lemma_no_run_no_match(g: Seq<Seq<Cell>>, width: int)
    requires
        is_grid(g, width, g.len() as int),
        no_three_in_a_row(g, width),
    ensures
        !has_match(g, width, g.len() as int),
{
    assert forall|p: (usize, usize)| p.0 < width && p.1 < g.len() implies !#[trigger] is_matched(
        g,
        p,
    ) by {
        let row = g[p.1 as int];
        let col = column_of(g, p.0 as int);
        assert(!triple_at(row, p.0 - 2) && !triple_at(row, p.0 - 1) && !triple_at(row, p.0 as int));
        assert(!triple_at(col, p.1 - 2) && !triple_at(col, p.1 - 1) && !triple_at(col, p.1 as int));
    }
}

/// For each cell of a line, whether it lies in a run of three or more equal
/// gems. One pass from left to right: each maximal run is measured once and
/// all its cells are marked together when it ends.
pub fn scan_line(line: &Vec<Cell>) -> (marks: Vec<bool>)
    ensures
        marks@.len() == line@.len(),
        forall|i: int| 0 <= i < line@.len() ==> #[trigger] marks@[i] == in_run(line@, i),
{
    let n = line.len();
    let mut marks: Vec<bool> = Vec::new();
    let mut start: usize = 0;
    while start < n
        invariant
            n == line@.len(),
            start <= n,
            marks@.len() == start,
            forall|i: int| 0 <= i < start ==> #[trigger] marks@[i] == in_run(line@, i),
            0 < start < n ==> line@[start - 1] != line@[start as int],
        decreases n - start,
    {
        let c = line[start];
        let mut end: usize = start + 1;
        while end < n && line[end] == c
            invariant
                n == line@.len(),
                start < end <= n,
                c == line@[start as int],
                forall|j: int| start <= j < end ==> #[trigger] line@[j] == c,
            decreases n - end,
        {
            end = end + 1;
        }
        let hit = c.occupied() && end - start >= 3;
        proof {
            lemma_maximal_run(line@, start as int, end as int);
        }
        let mut k: usize = start;
        while k < end
            invariant
                start <= k <= end,
                marks@.len() == k,
                forall|i: int| 0 <= i < start ==> #[trigger] marks@[i] == in_run(line@, i),
                forall|i: int| start <= i < k ==> #[trigger] marks@[i] == hit,
            decreases end - k,
        {
            marks.push(hit);
            k = k + 1;
        }
        start = end;
    }
    marks
}

/// Every position of the board that lies in a run of three or more equal
/// gems along a row or a column, each listed once.
pub fn find_matches(board: &GameBoard) -> (r: Vec<(usize, usize)>)
    requires
        board.wf(),
    ensures
        r@.no_duplicates(),
        forall|i: int| 0 <= i < r@.len() ==> board.contains(#[trigger] r@[i]),
        forall|p: (usize, usize)|
            board.contains(p) ==> (r@.contains(p) <==> #[trigger] is_matched(board@, p)),
        r@.len() == 0 <==> !has_match(
            board@,
            board.spec_width() as int,
            board.spec_height() as int,
        ),
{
    let w = board.width();
    let h = board.height();
    let mut row_marks: Vec<Vec<bool>> = Vec::new();
    let mut y: usize = 0;
    while y < h
        invariant
            board.wf(),
            w == board.spec_width(),
            h == board.spec_height(),
            y <= h,
            row_marks@.len() == y,
            forall|j: int, i: int|
                0 <= j < y && 0 <= i < w ==> (#[trigger] row_marks@[j]@[i] == in_run(
                    board@[j],
                    i,
                )),
            forall|j: int| 0 <= j < y ==> #[trigger] row_marks@[j]@.len() == w,
        decreases h - y,
    {
        row_marks.push(scan_line(board.row(y)));
        y = y + 1;
    }
    let mut col_marks: Vec<Vec<bool>> = Vec::new();
    let mut x: usize = 0;
    while x < w
        invariant
            board.wf(),
            w == board.spec_width(),
            h == board.spec_height(),
            x <= w,
            col_marks@.len() == x,
            forall|i: int, j: int|
                0 <= i < x && 0 <= j < h ==> (#[trigger] col_marks@[i]@[j] == in_run(
                    column_of(board@, i),
                    j,
                )),
            forall|i: int| 0 <= i < x ==> #[trigger] col_marks@[i]@.len() == h,
        decreases w - x,
    {
        let col = board.column(x);
        col_marks.push(scan_line(&col));
        x = x + 1;
    }
    let mut r: Vec<(usize, usize)> = Vec::new();
    let mut y: usize = 0;
    while y < h
        invariant
            board.wf(),
            w == board.spec_width(),
            h == board.spec_height(),
            y <= h,
            row_marks@.len() == h,
            col_marks@.len() == w,
            forall|j: int, i: int|
                0 <= j < h && 0 <= i < w ==> (#[trigger] row_marks@[j]@[i] == in_run(
                    board@[j],
                    i,
                )),
            forall|j: int| 0 <= j < h ==> #[trigger] row_marks@[j]@.len() == w,
            forall|i: int, j: int|
                0 <= i < w && 0 <= j < h ==> (#[trigger] col_marks@[i]@[j] == in_run(
                    column_of(board@, i),
                    j,
                )),
            forall|i: int| 0 <= i < w ==> #[trigger] col_marks@[i]@.len() == h,
            r@.no_duplicates(),
            forall|i: int| 0 <= i < r@.len() ==> (#[trigger] r@[i]).1 < y && r@[i].0 < w,
            forall|i: int| 0 <= i < r@.len() ==> is_matched(board@, #[trigger] r@[i]),
            forall|p: (usize, usize)|
                p.0 < w && p.1 < y && #[trigger] is_matched(board@, p) ==> r@.contains(p),
        decreases h - y,
    {
        let mut x: usize = 0;
        while x < w
            invariant
                board.wf(),
                w == board.spec_width(),
                h == board.spec_height(),
                y < h,
                x <= w,
                row_marks@.len() == h,
                col_marks@.len() == w,
                forall|j: int, i: int|
                    0 <= j < h && 0 <= i < w ==> (#[trigger] row_marks@[j]@[i] == in_run(
                        board@[j],
                        i,
                    )),
                forall|j: int| 0 <= j < h ==> #[trigger] row_marks@[j]@.len() == w,
                forall|i: int, j: int|
                    0 <= i < w && 0 <= j < h ==> (#[trigger] col_marks@[i]@[j] == in_run(
                        column_of(board@, i),
                        j,
                    )),
                forall|i: int| 0 <= i < w ==> #[trigger] col_marks@[i]@.len() == h,
                r@.no_duplicates(),
                forall|i: int|
                    0 <= i < r@.len() ==> ((#[trigger] r@[i]).1 < y || (r@[i].1 == y && r@[i].0
                        < x)) && r@[i].0 < w,
                forall|i: int| 0 <= i < r@.len() ==> is_matched(board@, #[trigger] r@[i]),
                forall|p: (usize, usize)|
                    p.0 < w && (p.1 < y || (p.1 == y && p.0 < x)) && #[trigger] is_matched(
                        board@,
                        p,
                    ) ==> r@.contains(p),
            decreases w - x,
        {
            let in_row = row_marks[y][x];
            let in_col = col_marks[x][y];
            if in_row || in_col {
                let ghost old_r = r@;
                r.push((x, y));
                proof {
                    assert(r@.last() == (x, y));
                    assert forall|p: (usize, usize)|
                        p.0 < w && (p.1 < y || (p.1 == y && p.0 < x)) && #[trigger] is_matched(
                            board@,
                            p,
                        ) implies r@.contains(p) by {
                        if p == (x, y) {
                            assert(r@[r@.len() - 1] == p);
                        } else {
                            assert(old_r.contains(p));
                            let k = choose|k: int| 0 <= k < old_r.len() && old_r[k] == p;
                            assert(r@[k] == p);
                        }
                    }
                }
            }
            x = x + 1;
        }
        y = y + 1;
    }
    proof {
        if r@.len() > 0 {
            assert(is_matched(board@, r@[0]));
        }
    }
    r
}

} // verus!
