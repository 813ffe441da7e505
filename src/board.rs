use vstd::prelude::*;

use crate::block::{kind_index, Block};
use crate::ambient::random_below;

verus! {

pub const BOARD_WIDTH: usize = 10;

pub const BOARD_HEIGHT: usize = 20;

/// The colour code of a garbage cell.
pub const GARBAGE_COLOR: i32 = 8;

/// One square of the board: empty, or filled with a colour code.
#[derive(Clone, Copy, Debug, PartialEq, Eq, Structural)]
pub enum Cell {
    Empty,
    Filled(i32),
}

impl Cell {
    /// `None` for an empty cell, the colour code for a filled one.
    pub fn to_option(&self) -> (r: Option<i32>)
        ensures
            r == cell_option(*self),
    {
        match self {
            Cell::Empty => None,
            Cell::Filled(value) => Some(*value),
        }
    }

    /// The cell that `to_option` maps to `opt`.
    pub fn from_option(opt: Option<i32>) -> (r: Cell)
        ensures
            r == option_cell(opt),
            cell_option(r) == opt,
    {
        match opt {
            None => Cell::Empty,
            Some(value) => Cell::Filled(value),
        }
    }
}

pub open spec fn cell_option(c: Cell) -> Option<i32> {
    match c {
        Cell::Empty => None,
        Cell::Filled(v) => Some(v),
    }
}

pub open spec fn option_cell(o: Option<i32>) -> Cell {
    match o {
        None => Cell::Empty,
        Some(v) => Cell::Filled(v),
    }
}

/// A row of empty cells.
pub open spec fn empty_row() -> Seq<Cell> {
    Seq::new(BOARD_WIDTH as nat, |x: int| Cell::Empty)
}

/// Every cell of the row is filled.
pub open spec fn row_complete(r: Seq<Cell>) -> bool {
    forall|x: int| 0 <= x < r.len() ==> #[trigger] r[x] is Filled
}

/// The rows that are not complete, in their order.
pub open spec fn kept_rows(rows: Seq<Seq<Cell>>) -> Seq<Seq<Cell>>
    decreases rows.len(),
{
    if rows.len() == 0 {
        Seq::empty()
    } else if row_complete(rows.last()) {
        kept_rows(rows.drop_last())
    } else {
        kept_rows(rows.drop_last()).push(rows.last())
    }
}

/// `n` empty rows.
pub open spec fn empty_rows(n: nat) -> Seq<Seq<Cell>> {
    Seq::new(n, |i: int| empty_row())
}

/// The rows after complete ones are removed: the others keep their order
/// and drop to the bottom, and empty rows fill the top.
pub open spec fn cleared(rows: Seq<Seq<Cell>>) -> Seq<Seq<Cell>> {
    empty_rows((rows.len() - kept_rows(rows).len()) as nat) + kept_rows(rows)
}

/// A garbage row: filled with the garbage colour but for an empty `hole`.
pub open spec fn garbage_row(hole: int) -> Seq<Cell> {
    Seq::new(
        BOARD_WIDTH as nat,
        |x: int|
            if x == hole {
                Cell::Empty
            } else {
                Cell::Filled(GARBAGE_COLOR)
            },
    )
}

/// The rows after one garbage row with the given hole comes in at row 0:
/// every row moves one step toward the bottom and the bottom row is lost.
pub open spec fn with_garbage(rows: Seq<Seq<Cell>>, hole: int) -> Seq<Seq<Cell>> {
    seq![garbage_row(hole)] + rows.drop_last()
}

/// The square `(x, y)` of the piece is inside the board and free, or above
/// the board.
pub open spec fn fits(rows: Seq<Seq<Cell>>, p: (int, int)) -> bool {
    &&& 0 <= p.0 < BOARD_WIDTH
    &&& p.1 < 0 || (p.1 < BOARD_HEIGHT && rows[p.1][p.0] is Empty)
}

/// Every square of the piece fits.
pub open spec fn valid_position(rows: Seq<Seq<Cell>>, b: Block) -> bool {
    forall|i: int| 0 <= i < 4 ==> fits(rows, #[trigger] b.cell(i))
}

/// How many squares of the piece, in order, come before the first one above
/// the board (4 when none is above it).
pub open spec fn placed_count(b: Block) -> int {
    if b.cell(0).1 < 0 {
        0
    } else if b.cell(1).1 < 0 {
        1
    } else if b.cell(2).1 < 0 {
        2
    } else if b.cell(3).1 < 0 {
        3
    } else {
        4
    }
}

/// The rows with the first `k` squares of the piece filled in its colour.
pub open spec fn with_squares(rows: Seq<Seq<Cell>>, b: Block, k: int) -> Seq<Seq<Cell>> {
    Seq::new(
        rows.len(),
        |y: int|
            Seq::new(
                rows[y].len(),
                |x: int|
                    if exists|i: int| 0 <= i < k && #[trigger] b.cell(i) == (x, y) {
                        Cell::Filled(kind_index(b.kind) as i32)
                    } else {
                        rows[y][x]
                    },
            ),
    )
}

/// A row of `fill` cells but for an empty `hole` (no hole when `hole` is
/// past the end).
pub open spec fn row_with_hole(hole: int, fill: Cell) -> Seq<Cell> {
    Seq::new(
        BOARD_WIDTH as nat,
        |x: int|
            if x == hole {
                Cell::Empty
            } else {
                fill
            },
    )
}

/// The rows after rows `0..y` each moved one step down over row `y`, row 0
/// staying as it was.
pub open spec fn shifted_down(rows: Seq<Seq<Cell>>, y: int) -> Seq<Seq<Cell>> {
    seq![rows[0]] + rows.take(y) + rows.skip(y + 1)
}

/// A garbage row with some hole.
pub open spec fn is_garbage_row(r: Seq<Cell>) -> bool {
    exists|h: int| 0 <= h < BOARD_WIDTH && r == garbage_row(h)
}

/// The rows after `count` garbage rows came in at the top, whatever their
/// holes: the old rows moved `count` steps down, those pushed past the
/// bottom are lost, and the rows above them are garbage.
pub open spec fn after_garbage(old_rows: Seq<Seq<Cell>>, new_rows: Seq<Seq<Cell>>, count: int) -> bool {
    &&& new_rows.len() == old_rows.len()
    &&& forall|y: int| 0 <= y < new_rows.len() && y < count ==> is_garbage_row(#[trigger] new_rows[y])
    &&& forall|y: int| 0 <= y < new_rows.len() && y >= count ==> #[trigger] new_rows[y] == old_rows[y - count]
}

/// The rows after an update from the network: each cell that `cells` has
/// is replaced, the others are kept.
pub open spec fn network_update(rows: Seq<Seq<Cell>>, cells: Seq<Seq<Option<i32>>>) -> Seq<Seq<Cell>> {
    Seq::new(
        rows.len(),
        |y: int|
            Seq::new(
                rows[y].len(),
                |x: int|
                    if y < cells.len() && x < cells[y].len() {
                        option_cell(cells[y][x])
                    } else {
                        rows[y][x]
                    },
            ),
    )
}

proof fn lemma_kept_rows(rows: Seq<Seq<Cell>>)
    ensures
        kept_rows(rows).len() <= rows.len(),
        forall|i: int| 0 <= i < kept_rows(rows).len() ==> !row_complete(#[trigger] kept_rows(rows)[i]),
    decreases rows.len(),
{
    if rows.len() > 0 {
        lemma_kept_rows(rows.drop_last());
    }
}

/// The playing field: `BOARD_HEIGHT` rows of `BOARD_WIDTH` cells, row 0 at
/// the top.
#[derive(Clone, Debug, PartialEq, Eq)]
pub struct Board {
    cells: Vec<Vec<Cell>>,
}

impl View for Board {
    type V = Seq<Seq<Cell>>;

    closed spec fn view(&self) -> Seq<Seq<Cell>> {
        self.cells@.map_values(|r: Vec<Cell>| r@)
    }
}

/// The board has its full size.
pub open spec fn full_size(rows: Seq<Seq<Cell>>) -> bool {
    &&& rows.len() == BOARD_HEIGHT
    &&& forall|y: int| 0 <= y < rows.len() ==> #[trigger] rows[y].len() == BOARD_WIDTH
}

impl Board {
    pub open spec fn wf(&self) -> bool {
        full_size(self@)
    }

    /// An empty board.
    pub fn new() -> (r: Board)
        ensures
            r.wf(),
            r@ == empty_rows(BOARD_HEIGHT as nat),
    {
        let mut cells: Vec<Vec<Cell>> = Vec::new();
        for y in 0..BOARD_HEIGHT
            invariant
                cells@.map_values(|r: Vec<Cell>| r@) == empty_rows(y as nat),
        {
            let mut row: Vec<Cell> = Vec::new();
            for x in 0..BOARD_WIDTH
                invariant
                    row@ == Seq::new(x as nat, |i: int| Cell::Empty),
            {
                row.push(Cell::Empty);
                assert(row@ =~= Seq::new((x + 1) as nat, |i: int| Cell::Empty));
            }
            assert(row@ =~= empty_row());
            let ghost before = cells@;
            cells.push(row);
            assert(cells@.map_values(|r: Vec<Cell>| r@) =~= before.map_values(|r: Vec<Cell>| r@).push(
                empty_row(),
            ));
            assert(cells@.map_values(|r: Vec<Cell>| r@) =~= empty_rows((y + 1) as nat));
        }
        let r = Board { cells };
        assert(r@ == empty_rows(BOARD_HEIGHT as nat));
        r
    }

    /// The cell at `(row, col)`.
    fn cell_at(&self, row: usize, col: usize) -> (r: Cell)
        requires
            self.wf(),
            row < BOARD_HEIGHT,
            col < BOARD_WIDTH,
        ensures
            r == self@[row as int][col as int],
    {
        assert(self.cells@[row as int]@ == self@[row as int]);
        self.cells[row][col]
    }

    /// Overwrites the cell at `(row, col)`.
    fn set_cell(&mut self, row: usize, col: usize, c: Cell)
        requires
            old(self).wf(),
            row < BOARD_HEIGHT,
            col < BOARD_WIDTH,
        ensures
            final(self).wf(),
            final(self)@ == old(self)@.update(row as int, old(self)@[row as int].update(col as int, c)),
    {
        let ghost v0 = self@;
        assert(self.cells@[row as int]@ == v0[row as int]);
        self.cells[row].set(col, c);
        assert(self@ =~= v0.update(row as int, v0[row as int].update(col as int, c)));
    }

    /// Overwrites row `y` with `fill` cells but for an empty `hole`.
    fn fill_row(&mut self, y: usize, hole: usize, fill: Cell)
        requires
            old(self).wf(),
            y < BOARD_HEIGHT,
        ensures
            final(self).wf(),
            final(self)@ == old(self)@.update(y as int, row_with_hole(hole as int, fill)),
    {
        let ghost v0 = self@;
        for x in 0..BOARD_WIDTH
            invariant
                self.wf(),
                y < BOARD_HEIGHT,
                self@.len() == v0.len(),
                forall|k: int| 0 <= k < self@.len() && k != y ==> #[trigger] self@[k] == v0[k],
                forall|c: int| 0 <= c < x ==> #[trigger] self@[y as int][c] == row_with_hole(hole as int, fill)[c],
        {
            let c = if x == hole {
                Cell::Empty
            } else {
                fill
            };
            self.set_cell(y, x, c);
        }
        assert(self@[y as int] =~= row_with_hole(hole as int, fill));
        assert(self@ =~= v0.update(y as int, row_with_hole(hole as int, fill)));
    }

    /// Copies row `from` over row `to`.
    fn copy_row(&mut self, from: usize, to: usize)
        requires
            old(self).wf(),
            from < BOARD_HEIGHT,
            to < BOARD_HEIGHT,
            from != to,
        ensures
            final(self).wf(),
            final(self)@ == old(self)@.update(to as int, old(self)@[from as int]),
    {
        let ghost v0 = self@;
        for x in 0..BOARD_WIDTH
            invariant
                self.wf(),
                from < BOARD_HEIGHT,
                to < BOARD_HEIGHT,
                from != to,
                self@.len() == v0.len(),
                forall|k: int| 0 <= k < self@.len() && k != to ==> #[trigger] self@[k] == v0[k],
                forall|c: int| 0 <= c < x ==> #[trigger] self@[to as int][c] == v0[from as int][c],
        {
            let c = self.cell_at(from, x);
            self.set_cell(to, x, c);
        }
        assert(self@[to as int] =~= v0[from as int]);
        assert(self@ =~= v0.update(to as int, v0[from as int]));
    }

    /// Moves rows `0..y` one step down over row `y`; row 0 stays as it was.
    fn shift_down(&mut self, y: usize)
        requires
            old(self).wf(),
            y < BOARD_HEIGHT,
        ensures
            final(self).wf(),
            final(self)@ == shifted_down(old(self)@, y as int),
    {
        let ghost v0 = self@;
        let mut row = y;
        while row > 0
            invariant
                self.wf(),
                row <= y < BOARD_HEIGHT,
                v0.len() == BOARD_HEIGHT,
                forall|j: int| row < j <= y ==> #[trigger] self@[j] == v0[j - 1],
                forall|j: int| (0 <= j <= row || y < j < BOARD_HEIGHT) ==> #[trigger] self@[j] == v0[j],
            decreases row,
        {
            self.copy_row(row - 1, row);
            row = row - 1;
        }
        assert(self@ =~= shifted_down(v0, y as int));
    }

    /// Whether every cell of row `y` is filled.
    fn is_line_complete(&self, y: usize) -> (r: bool)
        requires
            self.wf(),
            y < BOARD_HEIGHT,
        ensures
            r == row_complete(self@[y as int]),
    {
        for x in 0..BOARD_WIDTH
            invariant
                self.wf(),
                y < BOARD_HEIGHT,
                forall|c: int| 0 <= c < x ==> #[trigger] self@[y as int][c] is Filled,
        {
            match self.cell_at(y, x) {
                Cell::Empty => {
                    return false;
                },
                Cell::Filled(_) => {},
            }
        }
        true
    }

    /// Removes row `y`: the rows above it move one step down and an empty row
    /// comes in at the top.
    fn remove_line(&mut self, y: usize)
        requires
            old(self).wf(),
            y < BOARD_HEIGHT,
        ensures
            final(self).wf(),
            final(self)@ == seq![empty_row()] + old(self)@.take(y as int) + old(self)@.skip(y + 1),
    {
        let ghost v0 = self@;
        self.shift_down(y);
        self.fill_row(0, BOARD_WIDTH, Cell::Empty);
        assert(row_with_hole(BOARD_WIDTH as int, Cell::Empty) =~= empty_row());
        assert(self@ =~= seq![empty_row()] + v0.take(y as int) + v0.skip(y + 1));
    }

    /// Removes every complete row; the other rows keep their order and drop to
    /// the bottom, and empty rows fill the top. Returns how many rows went.
    pub fn clear_lines(&mut self) -> (r: u32)
        requires
            old(self).wf(),
        ensures
            final(self).wf(),
            final(self)@ == cleared(old(self)@),
            r == old(self)@.len() - kept_rows(old(self)@).len(),
    {
        let ghost orig = self@;
        let mut lines_cleared: u32 = 0;
        let mut y: usize = 0;
        let ghost mut p: int = 0;
        proof {
            assert(orig.take(0) =~= Seq::<Seq<Cell>>::empty());
            assert(self@ =~= empty_rows(0) + kept_rows(orig.take(0)) + orig.skip(0));
        }
        while y < BOARD_HEIGHT
            invariant
                self.wf(),
                orig.len() == BOARD_HEIGHT,
                0 <= y <= p <= y + 1,
                p <= BOARD_HEIGHT,
                self@ == empty_rows(lines_cleared as nat) + kept_rows(orig.take(p)) + orig.skip(p),
                lines_cleared + kept_rows(orig.take(p)).len() == p,
                p == y + 1 ==> !row_complete(self@[y as int]),
            decreases 2 * BOARD_HEIGHT - y - p,
        {
            let ghost cur = self@;
            let ghost k = kept_rows(orig.take(p));
            proof {
                lemma_kept_rows(orig.take(p));
            }
            if self.is_line_complete(y) {
                assert(p == y);
                assert(cur[y as int] == orig[p]);
                self.remove_line(y);
                proof {
                    assert(orig.take(p + 1).drop_last() =~= orig.take(p));
                    assert(kept_rows(orig.take(p + 1)) == k);
                    assert(cur.take(y as int) =~= empty_rows(lines_cleared as nat) + k);
                    assert(cur.skip(y + 1) =~= orig.skip(p + 1));
                    assert(self@ =~= empty_rows((lines_cleared + 1) as nat) + k + orig.skip(p + 1));
                    lemma_kept_rows(orig.take(p + 1));
                    if k.len() > 0 {
                        assert(self@[y as int] == k[k.len() - 1]);
                    } else {
                        assert(self@[y as int] == empty_row());
                        assert(empty_row()[0] is Empty);
                    }
                    p = p + 1;
                }
                lines_cleared = lines_cleared + 1;
            } else {
                proof {
                    if p == y {
                        assert(cur[y as int] == orig[p]);
                        assert(orig.take(p + 1).drop_last() =~= orig.take(p));
                        assert(kept_rows(orig.take(p + 1)) == k.push(orig[p]));
                        assert(self@ =~= empty_rows(lines_cleared as nat) + k.push(orig[p]) + orig.skip(p + 1));
                        p = p + 1;
                    }
                }
                y = y + 1;
            }
        }
        assert(orig.take(p) =~= orig);
        assert(orig.skip(p) =~= Seq::<Seq<Cell>>::empty());
        assert(self@ =~= cleared(orig));
        lines_cleared
    }

    /// The cell at `(row, col)`, or `None` outside the board.
    pub fn get_cell(&self, row: usize, col: usize) -> (r: Option<Cell>)
        requires
            self.wf(),
        ensures
            r == (if row < BOARD_HEIGHT && col < BOARD_WIDTH {
                Some(self@[row as int][col as int])
            } else {
                None
            }),
    {
        if row < BOARD_HEIGHT && col < BOARD_WIDTH {
            Some(self.cell_at(row, col))
        } else {
            None
        }
    }

    /// Whether every square of the piece is inside the board's columns, and
    /// either above the board or on a free cell of it.
    pub fn is_valid_position(&self, block: &Block) -> (r: bool)
        requires
            self.wf(),
            block.in_range(),
        ensures
            r == valid_position(self@, *block),
    {
        let squares = block.blocks();
        for i in 0..4
            invariant
                self.wf(),
                block.in_range(),
                forall|k: int|
                    0 <= k < 4 ==> (#[trigger] squares@[k]).0 == block.cell(k).0 && squares@[k].1
                        == block.cell(k).1,
                forall|k: int| 0 <= k < i ==> fits(self@, #[trigger] block.cell(k)),
        {
            let (x, y) = squares[i];
            assert(block.cell(i as int) == (x as int, y as int));
            if x < 0 || x >= BOARD_WIDTH as i32 {
                return false;
            }
            if y >= 0 {
                if y >= BOARD_HEIGHT as i32 {
                    return false;
                }
                match self.cell_at(y as usize, x as usize) {
                    Cell::Empty => {},
                    Cell::Filled(_) => {
                        return false;
                    },
                }
            }
        }
        true
    }

    /// Writes the piece into the board in its colour. Nothing is written and
    /// `false` comes back when the position is not valid. Otherwise the
    /// squares are written in order up to the first one above the board; the
    /// result says whether all four were written.
    pub fn place_block(&mut self, block: &Block) -> (r: bool)
        requires
            old(self).wf(),
            block.in_range(),
        ensures
            final(self).wf(),
            r == (valid_position(old(self)@, *block) && placed_count(*block) == 4),
            !valid_position(old(self)@, *block) ==> final(self)@ == old(self)@,
            valid_position(old(self)@, *block) ==> final(self)@ == with_squares(
                old(self)@,
                *block,
                placed_count(*block),
            ),
    {
        if !self.is_valid_position(block) {
            return false;
        }
        let ghost v0 = self@;
        let squares = block.blocks();
        let color = block.kind.color() as i32;
        proof {
            assert forall|yy: int| 0 <= yy < v0.len() implies #[trigger] with_squares(v0, *block, 0)[yy]
                =~= v0[yy] by {}
            assert(v0 =~= with_squares(v0, *block, 0));
        }
        for i in 0..4
            invariant
                self.wf(),
                block.in_range(),
                full_size(v0),
                v0 == old(self)@,
                valid_position(v0, *block),
                color == kind_index(block.kind),
                forall|k: int|
                    0 <= k < 4 ==> (#[trigger] squares@[k]).0 == block.cell(k).0 && squares@[k].1
                        == block.cell(k).1,
                forall|k: int| 0 <= k < i ==> (#[trigger] block.cell(k)).1 >= 0,
                self@ == with_squares(v0, *block, i as int),
        {
            let (x, y) = squares[i];
            assert(block.cell(i as int) == (x as int, y as int));
            assert(fits(v0, block.cell(i as int)));
            if y < 0 {
                assert(placed_count(*block) == i);
                return false;
            }
            self.set_cell(y as usize, x as usize, Cell::Filled(color));
            proof {
                let next = with_squares(v0, *block, i + 1);
                assert forall|yy: int| 0 <= yy < BOARD_HEIGHT implies #[trigger] self@[yy] =~= next[yy] by {
                    assert forall|xx: int| 0 <= xx < BOARD_WIDTH implies self@[yy][xx] == next[yy][xx] by {
                        if block.cell(i as int) == (xx, yy) {
                        } else {
                            if exists|k: int| 0 <= k < i + 1 && #[trigger] block.cell(k) == (xx, yy) {
                                let k = choose|k: int| 0 <= k < i + 1 && #[trigger] block.cell(k) == (xx, yy);
                                assert(k < i);
                            }
                        }
                    }
                }
                assert(self@ =~= next);
            }
        }
        assert(placed_count(*block) == 4);
        true
    }

    /// Brings in one garbage row at row 0 with an empty cell at `hole`: every
    /// row moves one step down and the bottom row is lost.
    pub fn add_garbage_line(&mut self, hole: usize)
        requires
            old(self).wf(),
            hole < BOARD_WIDTH,
        ensures
            final(self).wf(),
            final(self)@ == with_garbage(old(self)@, hole as int),
    {
        let ghost v0 = self@;
        self.shift_down(BOARD_HEIGHT - 1);
        self.fill_row(0, hole, Cell::Filled(GARBAGE_COLOR));
        assert(row_with_hole(hole as int, Cell::Filled(GARBAGE_COLOR)) =~= garbage_row(hole as int));
        assert(self@ =~= with_garbage(v0, hole as int));
    }

    /// Brings in `count` garbage rows, each with its hole at a random column
    /// (none when `count` is not positive).
    pub fn add_garbage_lines(&mut self, count: i32)
        requires
            old(self).wf(),
        ensures
            final(self).wf(),
            after_garbage(old(self)@, final(self)@, if count > 0 { count as int } else { 0 }),
    {
        let ghost v0 = self@;
        let mut i: i32 = 0;
        while i < count
            invariant
                self.wf(),
                full_size(v0),
                0 <= i,
                i <= count || count <= 0,
                count <= 0 ==> i == 0,
                after_garbage(v0, self@, i as int),
            decreases count - i,
        {
            let ghost before = self@;
            let hole = random_below(BOARD_WIDTH);
            self.add_garbage_line(hole);
            proof {
                assert(is_garbage_row(self@[0]));
                assert forall|y: int| 0 <= y < self@.len() && y >= i + 1 implies #[trigger] self@[y]
                    == v0[y - (i + 1)] by {
                    assert(self@[y] == before[y - 1]);
                }
                assert forall|y: int| 0 <= y < self@.len() && y < i + 1 implies is_garbage_row(
                    #[trigger] self@[y],
                ) by {
                    if y > 0 {
                        assert(self@[y] == before[y - 1]);
                    }
                }
            }
            i = i + 1;
        }
    }

    /// The cells as `None` (empty) or the colour code, row by row.
    pub fn get_cells_for_network(&self) -> (r: Vec<Vec<Option<i32>>>)
        requires
            self.wf(),
        ensures
            r@.len() == BOARD_HEIGHT,
            forall|y: int|
                0 <= y < BOARD_HEIGHT ==> (#[trigger] r@[y])@ == self@[y].map_values(
                    |c: Cell| cell_option(c),
                ),
    {
        let mut result: Vec<Vec<Option<i32>>> = Vec::new();
        for y in 0..BOARD_HEIGHT
            invariant
                self.wf(),
                result@.len() == y,
                forall|k: int|
                    0 <= k < y ==> (#[trigger] result@[k])@ == self@[k].map_values(
                        |c: Cell| cell_option(c),
                    ),
        {
            let mut row: Vec<Option<i32>> = Vec::new();
            for x in 0..BOARD_WIDTH
                invariant
                    self.wf(),
                    y < BOARD_HEIGHT,
                    row@ == self@[y as int].take(x as int).map_values(|c: Cell| cell_option(c)),
            {
                let c = self.cell_at(y, x);
                row.push(c.to_option());
                assert(self@[y as int].take(x + 1) =~= self@[y as int].take(x as int).push(c));
                assert(row@ =~= self@[y as int].take(x + 1).map_values(|c: Cell| cell_option(c)));
            }
            assert(self@[y as int].take(BOARD_WIDTH as int) =~= self@[y as int]);
            result.push(row);
        }
        result
    }

    /// Replaces each cell that `cells` holds a value for (`None` empty, a
    /// colour code filled); cells past the given rows or columns are kept.
    pub fn update_from_network(&mut self, cells: Vec<Vec<Option<i32>>>)
        requires
            old(self).wf(),
        ensures
            final(self).wf(),
            final(self)@ == network_update(old(self)@, cells@.map_values(|r: Vec<Option<i32>>| r@)),
    {
        let ghost v0 = self@;
        let ghost given = cells@.map_values(|r: Vec<Option<i32>>| r@);
        let ghost target = network_update(v0, given);
        for y in 0..BOARD_HEIGHT
            invariant
                self.wf(),
                full_size(v0),
                given == cells@.map_values(|r: Vec<Option<i32>>| r@),
                target == network_update(v0, given),
                forall|k: int| 0 <= k < y ==> #[trigger] self@[k] == target[k],
                forall|k: int| y <= k < BOARD_HEIGHT ==> #[trigger] self@[k] == v0[k],
        {
            for x in 0..BOARD_WIDTH
                invariant
                    self.wf(),
                    full_size(v0),
                    y < BOARD_HEIGHT,
                    given == cells@.map_values(|r: Vec<Option<i32>>| r@),
                    target == network_update(v0, given),
                    forall|k: int| 0 <= k < y ==> #[trigger] self@[k] == target[k],
                    forall|k: int| y < k < BOARD_HEIGHT ==> #[trigger] self@[k] == v0[k],
                    forall|c: int| 0 <= c < x ==> #[trigger] self@[y as int][c] == target[y as int][c],
                    forall|c: int| x <= c < BOARD_WIDTH ==> #[trigger] self@[y as int][c] == v0[y as int][c],
            {
                if y < cells.len() && x < cells[y].len() {
                    let c = Cell::from_option(cells[y][x]);
                    self.set_cell(y, x, c);
                }
            }
            assert(self@[y as int] =~= target[y as int]);
        }
        assert(self@ =~= target);
    }
}

} // verus!
