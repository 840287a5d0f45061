//! A dense two-dimensional array addressed by cell coordinates.

use vstd::prelude::*;

use crate::vector::Vec2;

verus! {

/// A `width` by `height` array of cells, stored row by row.
pub struct Grid<T> {
    width: u32,
    height: u32,
    cells: Vec<T>,
}

/// A cell below row `height` and left of column `width` has a row-major
/// offset below `width * height`.
pub proof fn lemma_offset_in_range(x: int, y: int, width: int, height: int)
    requires
        0 <= x < width,
        0 <= y < height,
    ensures
        0 <= y * width + x < width * height,
{
    assert(y * width + x < width * height) by (nonlinear_arith)
        requires
            0 <= x < width,
            0 <= y < height,
    {
        assert((y + 1) * width <= height * width);
    }
    assert(0 <= y * width) by (nonlinear_arith)
        requires
            0 <= y,
            0 <= width,
    ;
}

/// Two cells inside the grid share a row-major offset only if they are the
/// same cell.
pub proof fn lemma_offset_injective(x0: int, y0: int, x1: int, y1: int, width: int)
    requires
        0 <= x0 < width,
        0 <= x1 < width,
        0 <= y0,
        0 <= y1,
        y0 * width + x0 == y1 * width + x1,
    ensures
        x0 == x1,
        y0 == y1,
{
    if y0 < y1 {
        assert((y0 + 1) * width <= y1 * width) by (nonlinear_arith)
            requires
                y0 + 1 <= y1,
                0 <= width,
        ;
        assert((y0 + 1) * width == y0 * width + width) by (nonlinear_arith);
    } else if y1 < y0 {
        assert((y1 + 1) * width <= y0 * width) by (nonlinear_arith)
            requires
                y1 + 1 <= y0,
                0 <= width,
        ;
        assert((y1 + 1) * width == y1 * width + width) by (nonlinear_arith);
    }
}

impl<T: Copy> Grid<T> {
    /// The dimensions agree with the number of stored cells.
    pub closed spec fn wf(&self) -> bool {
        self.cells@.len() == self.width as int * self.height as int
    }

    pub closed spec fn spec_width(&self) -> u32 {
        self.width
    }

    pub closed spec fn spec_height(&self) -> u32 {
        self.height
    }

    /// Whether `(x, y)` names a cell of this grid.
    pub open spec fn in_bounds(&self, x: int, y: int) -> bool {
        0 <= x < self.spec_width() && 0 <= y < self.spec_height()
    }

    /// The value held at cell `(x, y)`.
    pub closed spec fn at(&self, x: int, y: int) -> T {
        self.cells@[y * self.width as int + x]
    }

    /// A grid in which every cell holds `fill`, or `None` when that many
    /// cells cannot be addressed on this machine.
    pub fn new(width: u32, height: u32, fill: T) -> (grid: Option<Self>)
        ensures
            grid is Some <==> width as int * height as int <= usize::MAX,
            grid matches Some(g) ==> {
                &&& g.wf()
                &&& g.spec_width() == width
                &&& g.spec_height() == height
                &&& forall|x: int, y: int| g.in_bounds(x, y) ==> g.at(x, y) == fill
            },
    {
        let count = match (width as usize).checked_mul(height as usize) {
            Some(count) => count,
            None => {
                return None;
            },
        };
        let mut cells: Vec<T> = Vec::new();
        let mut filled: usize = 0;
        while filled < count
            invariant
                filled <= count,
                cells@.len() == filled,
                forall|i: int| 0 <= i < filled ==> cells@[i] == fill,
            decreases count - filled,
        {
            cells.push(fill);
            filled = filled + 1;
        }
        let grid = Grid { width, height, cells };
        proof {
            assert forall|x: int, y: int| grid.in_bounds(x, y) implies grid.at(x, y) == fill by {
                lemma_offset_in_range(x, y, width as int, height as int);
            }
        }
        Some(grid)
    }

    /// The cells of a well-formed grid can be counted on this machine.
    pub proof fn lemma_fits(&self)
        requires
            self.wf(),
        ensures
            self.spec_width() as int * self.spec_height() as int <= usize::MAX,
    {
        assert(self.cells@.len() == self.cells.len());
    }

    pub fn width(&self) -> (w: u32)
        ensures
            w == self.spec_width(),
    {
        self.width
    }

    pub fn height(&self) -> (h: u32)
        ensures
            h == self.spec_height(),
    {
        self.height
    }

    /// Whether `pos` names a cell of this grid.
    pub fn contains(&self, pos: Vec2<u32>) -> (inside: bool)
        ensures
            inside == self.in_bounds(pos.x as int, pos.y as int),
    {
        pos.x < self.width && pos.y < self.height
    }

    /// The value held at `pos`.
    pub fn read(&self, pos: Vec2<u32>) -> (value: T)
        requires
            self.wf(),
            self.in_bounds(pos.x as int, pos.y as int),
        ensures
            value == self.at(pos.x as int, pos.y as int),
    {
        proof {
            lemma_offset_in_range(
                pos.x as int,
                pos.y as int,
                self.width as int,
                self.height as int,
            );
            assert(self.cells@.len() == self.cells.len());
            assert((pos.y as int) * (self.width as int) + (pos.x as int) < self.cells@.len() as int);
            assert(0 <= pos.y as int * self.width as int) by (nonlinear_arith);
        }
        let offset = pos.y as usize * self.width as usize + pos.x as usize;
        self.cells[offset]
    }

    /// Replaces the value held at `pos`, leaving every other cell as it was.
    pub fn write(&mut self, pos: Vec2<u32>, value: T)
        requires
            old(self).wf(),
            old(self).in_bounds(pos.x as int, pos.y as int),
        ensures
            final(self).wf(),
            final(self).spec_width() == old(self).spec_width(),
            final(self).spec_height() == old(self).spec_height(),
            forall|x: int, y: int|
                old(self).in_bounds(x, y) ==> #[trigger] final(self).at(x, y) == (if x == pos.x
                    && y == pos.y {
                    value
                } else {
                    old(self).at(x, y)
                }),
    {
        proof {
            lemma_offset_in_range(
                pos.x as int,
                pos.y as int,
                self.width as int,
                self.height as int,
            );
            assert(self.cells@.len() == self.cells.len());
            assert((pos.y as int) * (self.width as int) + (pos.x as int) < self.cells@.len() as int);
            assert(0 <= pos.y as int * self.width as int) by (nonlinear_arith);
        }
        let offset = pos.y as usize * self.width as usize + pos.x as usize;
        self.cells.set(offset, value);
        proof {
            assert forall|x: int, y: int| old(self).in_bounds(x, y) implies #[trigger] self.at(
                x,
                y,
            ) == (if x == pos.x && y == pos.y {
                value
            } else {
                old(self).at(x, y)
            }) by {
                lemma_offset_in_range(x, y, self.width as int, self.height as int);
                if y * self.width as int + x == offset as int {
                    lemma_offset_injective(
                        x,
                        y,
                        pos.x as int,
                        pos.y as int,
                        self.width as int,
                    );
                }
            }
        }
    }
}

} // verus!
