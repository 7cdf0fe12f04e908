use vstd::prelude::*;
use crate::gem::{Cell, GemType};

verus! {

/// Number of columns of the standard board.
pub const BOARD_WIDTH: usize = 8;
/// Number of rows of the standard board.
pub const BOARD_HEIGHT: usize = 8;

/// Failure of a board access.
#[derive(Clone, Copy, Debug, PartialEq, Eq, Structural)]
pub enum BoardError {
    /// A position lies outside the grid.
    OutOfRange,
}

/// A grid of cells, stored row by row: `grid[y][x]`.
#[derive(Debug)]
pub struct GameBoard {
    grid: Vec<Vec<Cell>>,
    width: usize,
    height: usize,
}

/// Whether `(x, y)` lies on a `width` by `height` grid.
pub open spec fn in_bounds(width: int, height: int, p: (usize, usize)) -> bool {
    p.0 < width && p.1 < height
}

/// `grid[y]` is row `y`, and each row has `width` cells.
pub open spec fn is_grid(g: Seq<Seq<Cell>>, width: int, height: int) -> bool {
    &&& g.len() == height
    &&& forall|y: int| 0 <= y < height ==> #[trigger] g[y].len() == width
}

/// `draws` has a kind for every cell of a `width` by `height` grid.
pub open spec fn covers(draws: Seq<Vec<GemType>>, width: int, height: int) -> bool {
    &&& draws.len() == height
    &&& forall|y: int| 0 <= y < height ==> #[trigger] draws[y]@.len() == width
}

/// A freshly drawn kind for every cell of a `width` by `height` grid.
pub fn random_kinds(width: usize, height: usize) -> (r: Vec<Vec<GemType>>)
    ensures
        covers(r@, width as int, height as int),
{
    let mut r: Vec<Vec<GemType>> = Vec::new();
    let mut y: usize = 0;
    while y < height
        invariant
            y <= height,
            covers(r@, width as int, y as int),
        decreases height - y,
    {
        let mut row: Vec<GemType> = Vec::new();
        let mut x: usize = 0;
        while x < width
            invariant
                x <= width,
                row@.len() == x,
            decreases width - x,
        {
            row.push(GemType::random());
            x = x + 1;
        }
        r.push(row);
        y = y + 1;
    }
    r
}

/// The grid whose cell `(x, y)` holds the gem `draws[y][x]`.
pub open spec fn grid_of_kinds(draws: Seq<Vec<GemType>>, width: int, height: int) -> Seq<Seq<Cell>> {
    Seq::new(
        height as nat,
        |y: int| Seq::new(width as nat, |x: int| Cell::Occupied(draws[y]@[x])),
    )
}

/// The cell at `p` of a grid.
pub open spec fn cell_at(g: Seq<Seq<Cell>>, p: (usize, usize)) -> Cell {
    g[p.1 as int][p.0 as int]
}

/// Column `x` of a grid, top to bottom.
pub open spec fn column_of(g: Seq<Seq<Cell>>, x: int) -> Seq<Cell> {
    Seq::new(g.len(), |y: int| g[y][x])
}

/// The grid with the cell at `p` replaced by `c`.
pub open spec fn grid_set(g: Seq<Seq<Cell>>, p: (usize, usize), c: Cell) -> Seq<Seq<Cell>> {
    g.update(p.1 as int, g[p.1 as int].update(p.0 as int, c))
}

/// The grid with the cells at `a` and `b` exchanged.
pub open spec fn swap_cells(g: Seq<Seq<Cell>>, a: (usize, usize), b: (usize, usize)) -> Seq<
    Seq<Cell>,
> {
    grid_set(grid_set(g, a, cell_at(g, b)), b, cell_at(g, a))
}

/// Writing one cell of a grid changes that cell and no other.
pub proof fn lemma_grid_set_cell(
    g: Seq<Seq<Cell>>,
    width: int,
    height: int,
    q: (usize, usize),
    c: Cell,
    p: (usize, usize),
)
    requires
        is_grid(g, width, height),
        in_bounds(width, height, q),
        in_bounds(width, height, p),
    ensures
        is_grid(grid_set(g, q, c), width, height),
        cell_at(grid_set(g, q, c), p) == if p == q {
            c
        } else {
            cell_at(g, p)
        },
{
    let g2 = grid_set(g, q, c);
    assert forall|y: int| 0 <= y < height implies #[trigger] g2[y].len() == width by {
        if y != q.1 {
            assert(g2[y] == g[y]);
        }
    }
}

/// Every cell of a `width` by `height` grid holds a gem.
pub open spec fn is_full(g: Seq<Seq<Cell>>, width: int, height: int) -> bool {
    forall|p: (usize, usize)| in_bounds(width, height, p) ==> #[trigger] cell_at(g, p).is_occupied()
}

/// Two grids of one shape that agree on every cell are equal.
pub proof fn lemma_grid_ext(g1: Seq<Seq<Cell>>, g2: Seq<Seq<Cell>>, width: int, height: int)
    requires
        width <= usize::MAX,
        height <= usize::MAX,
        is_grid(g1, width, height),
        is_grid(g2, width, height),
        forall|p: (usize, usize)| in_bounds(width, height, p) ==> #[trigger] cell_at(g1, p) == cell_at(g2, p),
    ensures
        g1 == g2,
{
    assert forall|y: int| 0 <= y < height implies g1[y] == g2[y] by {
        assert forall|x: int| 0 <= x < width implies g1[y][x] == g2[y][x] by {
            assert(cell_at(g1, (x as usize, y as usize)) == cell_at(g2, (x as usize, y as usize)));
        }
        assert(g1[y] =~= g2[y]);
    }
    assert(g1 =~= g2);
}

/// Exchanging two cells of a full grid leaves it full.
pub proof fn lemma_swap_keeps_full(
    g: Seq<Seq<Cell>>,
    width: int,
    height: int,
    a: (usize, usize),
    b: (usize, usize),
)
    requires
        is_grid(g, width, height),
        is_full(g, width, height),
        in_bounds(width, height, a),
        in_bounds(width, height, b),
    ensures
        is_grid(swap_cells(g, a, b), width, height),
        is_full(swap_cells(g, a, b), width, height),
{
    let g1 = grid_set(g, a, cell_at(g, b));
    lemma_grid_set_cell(g, width, height, a, cell_at(g, b), a);
    assert forall|p: (usize, usize)| in_bounds(width, height, p) implies #[trigger] cell_at(
        swap_cells(g, a, b),
        p,
    ).is_occupied() by {
        lemma_grid_set_cell(g, width, height, a, cell_at(g, b), p);
        lemma_grid_set_cell(g1, width, height, b, cell_at(g, a), p);
    }
}

impl View for GameBoard {
    type V = Seq<Seq<Cell>>;

    closed spec fn view(&self) -> Seq<Seq<Cell>> {
        self.grid@.map_values(|r: Vec<Cell>| r@)
    }
}

impl GameBoard {
    pub closed spec fn spec_width(&self) -> nat {
        self.width as nat
    }

    pub closed spec fn spec_height(&self) -> nat {
        self.height as nat
    }

    /// The board's shape agrees with its dimensions.
    pub open spec fn wf(&self) -> bool {
        &&& is_grid(self@, self.spec_width() as int, self.spec_height() as int)
        &&& self.spec_width() <= usize::MAX
        &&& self.spec_height() <= usize::MAX
    }

    pub open spec fn contains(&self, p: (usize, usize)) -> bool {
        in_bounds(self.spec_width() as int, self.spec_height() as int, p)
    }

    pub fn width(&self) -> (r: usize)
        ensures
            r == self.spec_width(),
    {
        self.width
    }

    pub fn height(&self) -> (r: usize)
        ensures
            r == self.spec_height(),
    {
        self.height
    }

    /// A `width` by `height` board whose every cell is `cell`.
    pub fn filled(width: usize, height: usize, cell: Cell) -> (b: GameBoard)
        ensures
            b.wf(),
            b.spec_width() == width,
            b.spec_height() == height,
            forall|p: (usize, usize)| b.contains(p) ==> cell_at(b@, p) == cell,
    {
        let mut grid: Vec<Vec<Cell>> = Vec::new();
        let mut y: usize = 0;
        while y < height
            invariant
                y <= height,
                grid@.len() == y,
                forall|j: int|
                    0 <= j < y ==> #[trigger] grid@[j]@ == Seq::new(width as nat, |i: int| cell),
            decreases height - y,
        {
            let mut row: Vec<Cell> = Vec::new();
            let mut x: usize = 0;
            while x < width
                invariant
                    x <= width,
                    row@ == Seq::new(x as nat, |i: int| cell),
                decreases width - x,
            {
                row.push(cell);
                x = x + 1;
                assert(row@ =~= Seq::new(x as nat, |i: int| cell));
            }
            grid.push(row);
            y = y + 1;
        }
        GameBoard { grid, width, height }
    }

    /// A `width` by `height` board whose cell `(x, y)` holds the gem
    /// `draws[y][x]`.
    pub fn from_kinds(width: usize, height: usize, draws: &Vec<Vec<GemType>>) -> (b: GameBoard)
        requires
            covers(draws@, width as int, height as int),
        ensures
            b.wf(),
            b.spec_width() == width,
            b.spec_height() == height,
            b@ == grid_of_kinds(draws@, width as int, height as int),
    {
        let mut grid: Vec<Vec<Cell>> = Vec::new();
        let mut y: usize = 0;
        while y < height
            invariant
                covers(draws@, width as int, height as int),
                y <= height,
                grid@.len() == y,
                forall|j: int|
                    0 <= j < y ==> #[trigger] grid@[j]@ == grid_of_kinds(
                        draws@,
                        width as int,
                        height as int,
                    )[j],
            decreases height - y,
        {
            let mut row: Vec<Cell> = Vec::new();
            let mut x: usize = 0;
            while x < width
                invariant
                    covers(draws@, width as int, height as int),
                    y < height,
                    x <= width,
                    row@ =~= grid_of_kinds(draws@, width as int, height as int)[y as int].take(
                        x as int,
                    ),
                decreases width - x,
            {
                row.push(Cell::Occupied(draws[y][x]));
                x = x + 1;
                assert(row@ =~= grid_of_kinds(draws@, width as int, height as int)[y as int].take(
                    x as int,
                ));
            }
            assert(row@ =~= grid_of_kinds(draws@, width as int, height as int)[y as int]);
            grid.push(row);
            y = y + 1;
        }
        let b = GameBoard { grid, width, height };
        assert(b@ =~= grid_of_kinds(draws@, width as int, height as int));
        b
    }

    /// A `width` by `height` board whose every cell holds a randomly drawn gem.
    pub fn new_random(width: usize, height: usize) -> (b: GameBoard)
        ensures
            b.wf(),
            b.spec_width() == width,
            b.spec_height() == height,
            is_full(b@, width as int, height as int),
    {
        let draws = random_kinds(width, height);
        GameBoard::from_kinds(width, height, &draws)
    }

    /// The cell at `p`, or `OutOfRange` where `p` is off the board.
    pub fn get(&self, p: (usize, usize)) -> (r: Result<Cell, BoardError>)
        requires
            self.wf(),
        ensures
            self.contains(p) ==> r == Ok::<Cell, BoardError>(cell_at(self@, p)),
            !self.contains(p) ==> r == Err::<Cell, BoardError>(BoardError::OutOfRange),
    {
        if p.0 < self.width && p.1 < self.height {
            assert(self.grid@[p.1 as int]@ == self@[p.1 as int]);
            Ok(self.grid[p.1][p.0])
        } else {
            Err(BoardError::OutOfRange)
        }
    }

    /// Row `y`, left to right.
    pub fn row(&self, y: usize) -> (r: &Vec<Cell>)
        requires
            self.wf(),
            y < self.spec_height(),
        ensures
            r@ == self@[y as int],
    {
        &self.grid[y]
    }

    /// Column `x`, top to bottom.
    pub fn column(&self, x: usize) -> (r: Vec<Cell>)
        requires
            self.wf(),
            x < self.spec_width(),
        ensures
            r@ == column_of(self@, x as int),
    {
        let mut r: Vec<Cell> = Vec::new();
        let mut y: usize = 0;
        while y < self.height
            invariant
                self.wf(),
                x < self.width,
                y <= self.height,
                r@ =~= column_of(self@, x as int).take(y as int),
            decreases self.height - y,
        {
            assert(self.grid@[y as int]@ == self@[y as int]);
            r.push(self.grid[y][x]);
            y = y + 1;
            assert(r@ =~= column_of(self@, x as int).take(y as int));
        }
        r
    }

    /// Writes `c` at `p`; off the board, `OutOfRange` and no change.
    pub fn set(&mut self, p: (usize, usize), c: Cell) -> (r: Result<(), BoardError>)
        requires
            old(self).wf(),
        ensures
            final(self).wf(),
            final(self).spec_width() == old(self).spec_width(),
            final(self).spec_height() == old(self).spec_height(),
            old(self).contains(p) ==> r is Ok && final(self)@ == grid_set(old(self)@, p, c),
            !old(self).contains(p) ==> r == Err::<(), BoardError>(BoardError::OutOfRange)
                && final(self)@ == old(self)@,
    {
        if p.0 < self.width && p.1 < self.height {
            self.put(p, c);
            Ok(())
        } else {
            Err(BoardError::OutOfRange)
        }
    }

    /// Writes `c` at `p`, which lies on the board.
    pub fn put(&mut self, p: (usize, usize), c: Cell)
        requires
            old(self).wf(),
            old(self).contains(p),
        ensures
            final(self).wf(),
            final(self).spec_width() == old(self).spec_width(),
            final(self).spec_height() == old(self).spec_height(),
            final(self)@ == grid_set(old(self)@, p, c),
    {
        assert(self.grid@[p.1 as int]@ == self@[p.1 as int]);
        self.grid[p.1][p.0] = c;
        assert(self@ =~= grid_set(old(self)@, p, c));
    }

    /// Exchanges the cells at `a` and `b`; where either lies off the board,
    /// `OutOfRange` and no change.
    pub fn swap(&mut self, a: (usize, usize), b: (usize, usize)) -> (r: Result<(), BoardError>)
        requires
            old(self).wf(),
        ensures
            final(self).wf(),
            final(self).spec_width() == old(self).spec_width(),
            final(self).spec_height() == old(self).spec_height(),
            old(self).contains(a) && old(self).contains(b) ==> r is Ok && final(self)@ == swap_cells(
                old(self)@,
                a,
                b,
            ),
            !(old(self).contains(a) && old(self).contains(b)) ==> r == Err::<(), BoardError>(
                BoardError::OutOfRange,
            ) && final(self)@ == old(self)@,
    {
        if a.0 < self.width && a.1 < self.height && b.0 < self.width && b.1 < self.height {
            assert(self.grid@[a.1 as int]@ == self@[a.1 as int]);
            assert(self.grid@[b.1 as int]@ == self@[b.1 as int]);
            let ca = self.grid[a.1][a.0];
            let cb = self.grid[b.1][b.0];
            self.put(a, cb);
            self.put(b, ca);
            Ok(())
        } else {
            Err(BoardError::OutOfRange)
        }
    }
}

impl Default for GameBoard {
    /// A standard-size board of random gems.
    fn default() -> (b: GameBoard)
        ensures
            b.wf(),
            b.spec_width() == BOARD_WIDTH,
            b.spec_height() == BOARD_HEIGHT,
            is_full(b@, BOARD_WIDTH as int, BOARD_HEIGHT as int),
    {
        GameBoard::new_random(BOARD_WIDTH, BOARD_HEIGHT)
    }
}

} // verus!
