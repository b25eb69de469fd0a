use vstd::prelude::*;
use crate::direction::Direction;
use crate::position::Position;
use rand::seq::SliceRandom;

verus! {

/// What one grid cell holds. `Wall` is never stored in a field: it is the
/// marker reported for any coordinate outside the field's extent.
#[derive(Clone, Copy, PartialEq, Eq, Structural, Debug)]
pub enum Block {
    Empty,
    Snake,
    Head(Direction),
    Wall,
    Food,
}

/// A bounded rectangular playing field of width x height cells.
pub struct Field {
    pub width: usize,
    pub height: usize,
    pub content: Vec<Vec<Block>>,
}

/// How many cells of `row` hold the marker `b`.
pub open spec fn count_in_row(row: Seq<Block>, b: Block) -> nat
    decreases row.len(),
{
    if row.len() == 0 {
        0
    } else {
        count_in_row(row.drop_last(), b) + (if row.last() == b {
            1nat
        } else {
            0nat
        })
    }
}

/// How many cells of the whole grid `rows` hold the marker `b`.
pub open spec fn count_in_grid(rows: Seq<Seq<Block>>, b: Block) -> nat
    decreases rows.len(),
{
    if rows.len() == 0 {
        0
    } else {
        count_in_grid(rows.drop_last(), b) + count_in_row(rows.last(), b)
    }
}

/// Updating one cell of a row adjusts its count of any marker by whether the
/// old and the new cell match that marker.
pub proof fn lemma_count_row_update(row: Seq<Block>, x: int, m: Block, b: Block)
    requires
        0 <= x < row.len(),
    ensures
        count_in_row(row.update(x, m), b) + (if row[x] == b {
            1nat
        } else {
            0nat
        }) == count_in_row(row, b) + (if m == b {
            1nat
        } else {
            0nat
        }),
    decreases row.len(),
{
    let upd = row.update(x, m);
    if x == row.len() - 1 {
        assert(upd.drop_last() =~= row.drop_last());
    } else {
        assert(upd.drop_last() =~= row.drop_last().update(x, m));
        lemma_count_row_update(row.drop_last(), x, m, b);
        assert(upd.last() == row.last());
    }
}

/// Updating one cell of a grid adjusts its count of any marker by whether the
/// old and the new cell match that marker.
pub proof fn lemma_count_grid_update(rows: Seq<Seq<Block>>, y: int, x: int, m: Block, b: Block)
    requires
        0 <= y < rows.len(),
        0 <= x < rows[y].len(),
    ensures
        count_in_grid(rows.update(y, rows[y].update(x, m)), b) + (if rows[y][x] == b {
            1nat
        } else {
            0nat
        }) == count_in_grid(rows, b) + (if m == b {
            1nat
        } else {
            0nat
        }),
    decreases rows.len(),
{
    let upd = rows.update(y, rows[y].update(x, m));
    if y == rows.len() - 1 {
        assert(upd.drop_last() =~= rows.drop_last());
        assert(upd.last() == rows[y].update(x, m));
        lemma_count_row_update(rows[y], x, m, b);
    } else {
        assert(upd.drop_last() =~= rows.drop_last().update(y, rows[y].update(x, m)));
        lemma_count_grid_update(rows.drop_last(), y, x, m, b);
        assert(upd.last() == rows.last());
    }
}

/// A row none of whose cells holds the marker counts zero of it.
pub proof fn lemma_count_row_zero(row: Seq<Block>, b: Block)
    requires
        forall|x: int| 0 <= x < row.len() ==> row[x] != b,
    ensures
        count_in_row(row, b) == 0,
    decreases row.len(),
{
    if row.len() > 0 {
        lemma_count_row_zero(row.drop_last(), b);
    }
}

/// A grid none of whose cells holds the marker counts zero of it.
pub proof fn lemma_count_grid_zero(rows: Seq<Seq<Block>>, b: Block)
    requires
        forall|y: int, x: int|
            0 <= y < rows.len() && 0 <= x < rows[y].len() ==> rows[y][x] != b,
    ensures
        count_in_grid(rows, b) == 0,
    decreases rows.len(),
{
    if rows.len() > 0 {
        lemma_count_grid_zero(rows.drop_last(), b);
        lemma_count_row_zero(rows.last(), b);
    }
}

/// A row every cell of which holds the marker counts its whole length.
pub proof fn lemma_count_row_full(row: Seq<Block>, b: Block)
    requires
        forall|x: int| 0 <= x < row.len() ==> row[x] == b,
    ensures
        count_in_row(row, b) == row.len(),
    decreases row.len(),
{
    if row.len() > 0 {
        lemma_count_row_full(row.drop_last(), b);
    }
}

/// A rectangular grid every cell of which holds the marker counts all of its
/// cells.
pub proof fn lemma_count_grid_full(rows: Seq<Seq<Block>>, width: nat, b: Block)
    requires
        forall|y: int| 0 <= y < rows.len() ==> (#[trigger] rows[y]).len() == width,
        forall|y: int, x: int|
            0 <= y < rows.len() && 0 <= x < rows[y].len() ==> rows[y][x] == b,
    ensures
        count_in_grid(rows, b) == rows.len() * width,
    decreases rows.len(),
{
    if rows.len() == 0 {
        assert(count_in_grid(rows, b) == 0);
    } else {
        lemma_count_grid_full(rows.drop_last(), width, b);
        lemma_count_row_full(rows.last(), b);
        assert((rows.len() as int) * width == (rows.len() - 1) * width + width)
            by (nonlinear_arith);
    }
}

/// A positive row count means some cell of the row holds the marker.
pub proof fn lemma_count_row_positive(row: Seq<Block>, b: Block)
    requires
        count_in_row(row, b) > 0,
    ensures
        exists|x: int| 0 <= x < row.len() && row[x] == b,
    decreases row.len(),
{
    if row.last() == b {
        assert(row[row.len() - 1] == b);
    } else {
        lemma_count_row_positive(row.drop_last(), b);
        let x = choose|x: int| 0 <= x < row.drop_last().len() && row.drop_last()[x] == b;
        assert(row[x] == b);
    }
}

/// A positive grid count means some cell of the grid holds the marker.
pub proof fn lemma_count_grid_positive(rows: Seq<Seq<Block>>, b: Block)
    requires
        count_in_grid(rows, b) > 0,
    ensures
        exists|y: int, x: int|
            0 <= y < rows.len() && 0 <= x < rows[y].len() && rows[y][x] == b,
    decreases rows.len(),
{
    if count_in_row(rows.last(), b) > 0 {
        lemma_count_row_positive(rows.last(), b);
        let x = choose|x: int| 0 <= x < rows.last().len() && rows.last()[x] == b;
        assert(rows[rows.len() - 1][x] == b);
    } else {
        lemma_count_grid_positive(rows.drop_last(), b);
        let (y, x) = choose|y: int, x: int|
            0 <= y < rows.drop_last().len() && 0 <= x < rows.drop_last()[y].len()
                && rows.drop_last()[y][x] == b;
        assert(rows[y][x] == b);
    }
}

/// Any coordinate outside the field's extent - in particular any head
/// coordinate one step beyond it - reads as the virtual `Wall`.
pub proof fn lemma_boundary_is_wall(f: Field, p: Position)
    requires
        !f.in_bounds(p),
    ensures
        f.marker_at(p) == Block::Wall,
{
}

/// `post` is `pre` with the single `Empty` cell `p` turned into `Food`.
pub open spec fn food_placed_at(pre: Field, post: Field, p: Position) -> bool {
    &&& pre.in_bounds(p)
    &&& pre.cell(p) == Block::Empty
    &&& post.cell(p) == Block::Food
    &&& forall|q: Position| pre.in_bounds(q) && q != p ==> post.cell(q) == pre.cell(q)
}

/// Relies on rand's `SliceRandom::choose` with `thread_rng`: on a non-empty
/// slice it returns a uniformly chosen element of the slice.
#[verifier::external_body]
fn choose_position(candidates: &Vec<Position>) -> (p: Position)
    requires
        candidates@.len() > 0,
    ensures
        candidates@.contains(p),
{
    *candidates.as_slice().choose(&mut rand::thread_rng()).unwrap()
}

impl Field {
    /// The grid as a sequence of rows of cell markers.
    pub open spec fn grid(self) -> Seq<Seq<Block>> {
        Seq::new(self.content@.len(), |y: int| self.content@[y]@)
    }

    /// The field is a well-formed rectangle. Its extent is bounded by what a
    /// terminal can report for its size, so coordinate arithmetic and cell
    /// counts stay far from any machine limit.
    pub open spec fn wf(self) -> bool {
        &&& 1 <= self.width <= u16::MAX as usize
        &&& 1 <= self.height <= u16::MAX as usize
        &&& self.content@.len() == self.height
        &&& forall|y: int|
            0 <= y < self.height ==> (#[trigger] self.content@[y])@.len() == self.width
    }

    pub open spec fn in_bounds(self, p: Position) -> bool {
        0 <= p.x < self.width && 0 <= p.y < self.height
    }

    /// The stored marker at an in-bounds coordinate.
    pub open spec fn cell(self, p: Position) -> Block {
        self.content@[p.y as int]@[p.x as int]
    }

    /// The marker reported for any coordinate: the stored cell inside the
    /// extent, `Wall` for everything outside it.
    pub open spec fn marker_at(self, p: Position) -> Block {
        if self.in_bounds(p) {
            self.cell(p)
        } else {
            Block::Wall
        }
    }

    /// How many cells of the field hold the marker `b`.
    pub open spec fn count(self, b: Block) -> nat {
        count_in_grid(self.grid(), b)
    }

    /// Allocate a width x height field with every cell `Empty`.
    pub fn new(width: usize, height: usize) -> (f: Field)
        requires
            1 <= width <= u16::MAX as usize,
            1 <= height <= u16::MAX as usize,
        ensures
            f.wf(),
            f.width == width,
            f.height == height,
            forall|p: Position| f.in_bounds(p) ==> f.cell(p) == Block::Empty,
    {
        Field { width, height, content: vec![vec![Block::Empty; width]; height] }
    }

    /// Store `block` at an in-bounds coordinate, leaving every other cell as
    /// it was.
    pub fn set_position(&mut self, position: &Position, block: Block)
        requires
            old(self).wf(),
            old(self).in_bounds(*position),
        ensures
            final(self).wf(),
            final(self).width == old(self).width,
            final(self).height == old(self).height,
            final(self).cell(*position) == block,
            forall|q: Position|
                old(self).in_bounds(q) && q != *position ==> final(self).cell(q) == old(self).cell(
                    q,
                ),
            final(self).grid() == old(self).grid().update(
                position.y as int,
                old(self).grid()[position.y as int].update(position.x as int, block),
            ),
    {
        let x = position.x as usize;
        let y = position.y as usize;
        self.content[y][x] = block;
        proof {
            assert(self.grid() =~= old(self).grid().update(
                position.y as int,
                old(self).grid()[position.y as int].update(position.x as int, block),
            ));
        }
    }

    /// Report the marker at any coordinate, `Wall` outside the extent.
    pub fn get_position(&self, position: &Position) -> (b: Block)
        requires
            self.wf(),
        ensures
            b == self.marker_at(*position),
    {
        if position.x < 0 || position.x >= self.width as isize {
            return Block::Wall;
        }
        if position.y < 0 || position.y >= self.height as isize {
            return Block::Wall;
        }
        let x = position.x as usize;
        let y = position.y as usize;
        self.content[y][x]
    }

    /// Count the `Empty` cells of the field, row by row.
    pub fn count_empty(&self) -> (n: usize)
        requires
            self.wf(),
        ensures
            n == self.count(Block::Empty),
    {
        let mut n: usize = 0;
        let mut y: usize = 0;
        while y < self.height
            invariant
                self.wf(),
                y <= self.height,
                n == count_in_grid(self.grid().take(y as int), Block::Empty),
                n <= y * self.width,
            decreases self.height - y,
        {
            let mut x: usize = 0;
            let mut rn: usize = 0;
            while x < self.width
                invariant
                    self.wf(),
                    y < self.height,
                    x <= self.width,
                    rn == count_in_row(self.grid()[y as int].take(x as int), Block::Empty),
                    rn <= x,
                decreases self.width - x,
            {
                let p = Position { x: x as isize, y: y as isize };
                let b = self.get_position(&p);
                proof {
                    let row = self.grid()[y as int];
                    assert(row.take(x as int + 1).drop_last() =~= row.take(x as int));
                    assert(row.take(x as int + 1).last() == row[x as int]);
                    assert(row[x as int] == self.cell(p));
                }
                if let Block::Empty = b {
                    rn = rn + 1;
                }
                x = x + 1;
            }
            proof {
                let rows = self.grid();
                let w = self.width as int;
                let h = self.height as int;
                let yy = y as int;
                assert(rows[yy].take(w) =~= rows[yy]);
                assert(rows.take(yy + 1).drop_last() =~= rows.take(yy));
                assert(rows.take(yy + 1).last() == rows[yy]);
                assert((yy + 1) * w == yy * w + w) by (nonlinear_arith);
                assert((yy + 1) * w <= h * w) by (nonlinear_arith)
                    requires
                        yy + 1 <= h,
                        w >= 0,
                ;
                assert(h * w <= 65535 * 65535) by (nonlinear_arith)
                    requires
                        0 <= h <= 65535,
                        0 <= w <= 65535,
                ;
            }
            n = n + rn;
            y = y + 1;
        }
        proof {
            assert(self.grid().take(self.height as int) =~= self.grid());
        }
        n
    }

    /// Turn one uniformly chosen `Empty` cell into `Food`, leaving every
    /// other cell unchanged. A field with no `Empty` cell left is outside
    /// this game's reachable states and is excluded by precondition.
    pub fn place_food(&mut self)
        requires
            old(self).wf(),
            old(self).count(Block::Empty) > 0,
        ensures
            final(self).wf(),
            final(self).width == old(self).width,
            final(self).height == old(self).height,
            exists|p: Position| food_placed_at(*old(self), *final(self), p),
            final(self).count(Block::Food) == old(self).count(Block::Food) + 1,
            final(self).count(Block::Empty) + 1 == old(self).count(Block::Empty),
            forall|b: Block|
                b != Block::Empty && b != Block::Food ==> #[trigger] final(self).count(b) == old(
                    self,
                ).count(b),
    {
        let mut allowed: Vec<Position> = Vec::new();
        let mut y: usize = 0;
        while y < self.height
            invariant
                *self == *old(self),
                self.wf(),
                y <= self.height,
                forall|i: int|
                    0 <= i < allowed@.len() ==> self.in_bounds(#[trigger] allowed@[i])
                        && self.cell(allowed@[i]) == Block::Empty,
                forall|p: Position|
                    self.in_bounds(p) && p.y < y && self.cell(p) == Block::Empty
                        ==> allowed@.contains(p),
            decreases self.height - y,
        {
            let mut x: usize = 0;
            while x < self.width
                invariant
                    *self == *old(self),
                    self.wf(),
                    y < self.height,
                    x <= self.width,
                    forall|i: int|
                        0 <= i < allowed@.len() ==> self.in_bounds(#[trigger] allowed@[i])
                            && self.cell(allowed@[i]) == Block::Empty,
                    forall|p: Position|
                        self.in_bounds(p) && (p.y < y || (p.y == y && p.x < x)) && self.cell(p)
                            == Block::Empty ==> allowed@.contains(p),
                decreases self.width - x,
            {
                let position = Position { x: x as isize, y: y as isize };
                let here = self.get_position(&position);
                let ghost prev = allowed@;
                if let Block::Empty = here {
                    allowed.push(position);
                }
                proof {
                    assert forall|p: Position|
                        self.in_bounds(p) && (p.y < y || (p.y == y && p.x < x + 1)) && self.cell(p)
                            == Block::Empty implies allowed@.contains(p) by {
                        if p.y < y || (p.y == y && p.x < x) {
                            let i = choose|i: int| 0 <= i < prev.len() && prev[i] == p;
                            assert(allowed@[i] == p);
                        } else {
                            assert(p == position);
                            assert(here == Block::Empty);
                            assert(allowed@[allowed@.len() - 1] == p);
                        }
                    }
                }
                x = x + 1;
            }
            y = y + 1;
        }
        proof {
            lemma_count_grid_positive(self.grid(), Block::Empty);
            let (ey, ex) = choose|ey: int, ex: int|
                0 <= ey < self.grid().len() && 0 <= ex < self.grid()[ey].len()
                    && self.grid()[ey][ex] == Block::Empty;
            let w = Position { x: ex as isize, y: ey as isize };
            assert(self.in_bounds(w) && self.cell(w) == Block::Empty);
            assert(allowed@.contains(w));
        }
        let chosen = choose_position(&allowed);
        proof {
            let i = choose|i: int| 0 <= i < allowed@.len() && allowed@[i] == chosen;
            assert(self.in_bounds(chosen) && self.cell(chosen) == Block::Empty);
        }
        self.set_position(&chosen, Block::Food);
        proof {
            assert(food_placed_at(*old(self), *self, chosen));
            assert forall|b: Block| true implies count_in_grid(self.grid(), b) + (if old(
                self,
            ).cell(chosen) == b {
                1nat
            } else {
                0nat
            }) == count_in_grid(old(self).grid(), b) + (if Block::Food == b {
                1nat
            } else {
                0nat
            }) by {
                lemma_count_grid_update(
                    old(self).grid(),
                    chosen.y as int,
                    chosen.x as int,
                    Block::Food,
                    b,
                );
            }
        }
    }
}

} // verus!
