//! The decisions of a ray's walk through the voxel scene.
//!
//! A ray crosses the scene cell by cell where colours change and tile by
//! tile where they do not. The arithmetic on ray parameters is the caller's;
//! what is decided from them is decided here. A ray parameter reaches these
//! functions as a key: an unsigned integer that orders as the parameter does
//! (for a non-negative binary32 number, its bit pattern).

use vstd::prelude::*;

use crate::color::{Color, Fluence, Transmittance, ZERO};
use crate::vector::{Vec2, Vec3};
use crate::voxel::{Block, BlockType, VoxelTracer, BLOCK_SIZE};

verus! {

/// Transmittance below which remaining light counts as fully absorbed: the
/// pattern of `0.001`.
pub const TRANSMITTANCE_CUTOFF: u32 = 0x3A83_126F;

/// The key of the nearer of the two grid lines ahead, one per axis.
pub open spec fn nearest(side: Vec2<u32>) -> u32 {
    if side.x <= side.y {
        side.x
    } else {
        side.y
    }
}

/// Whether the ray's interval ends at or before the nearest grid line.
pub open spec fn spec_exhausted(side: Vec2<u32>, end: u32) -> bool {
    nearest(side) >= end
}

/// The axes along which the next step moves: each axis whose grid line is
/// no farther than the other's. On a tie the step is diagonal.
pub open spec fn spec_step_mask(side: Vec2<u32>) -> Vec2<bool> {
    Vec2 { x: side.x <= side.y, y: side.y <= side.x }
}

/// Where a step from `at` leads: one unit of `ray_step` along each masked
/// axis.
pub open spec fn moved(at: Vec2<u32>, mask: Vec2<bool>, ray_step: Vec2<i32>) -> (int, int) {
    (
        at.x + if mask.x {
            ray_step.x as int
        } else {
            0
        },
        at.y + if mask.y {
            ray_step.y as int
        } else {
            0
        },
    )
}

/// Whether every channel has fallen below the cutoff.
pub open spec fn spec_absorbed(transmittance: Transmittance) -> bool {
    transmittance.x < TRANSMITTANCE_CUTOFF && transmittance.y < TRANSMITTANCE_CUTOFF
        && transmittance.z < TRANSMITTANCE_CUTOFF
}

/// The cell at which a ray enters `block` along one axis: the low edge when
/// it travels forward, the high edge otherwise.
pub open spec fn entry_edge(block: u32, step: i32) -> int {
    block * BLOCK_SIZE + if step > 0 {
        0int
    } else {
        BLOCK_SIZE - 1
    }
}

/// What the fine walk does at the cell it stands on.
#[derive(Clone, Copy, Debug, PartialEq, Eq)]
pub enum FineMove {
    /// The tile has no marked cell: leave the fine walk for the coarse one.
    EnterCoarse,
    /// Composite the segment that ends at the nearest grid line, or at the
    /// interval's end if that comes first, in this cell's colour.
    Composite,
    /// Nothing changes here: step to the next cell.
    Advance,
}

/// How the fine walk goes on once a segment has been composited.
#[derive(Clone, Copy, Debug, PartialEq, Eq)]
pub enum Settled {
    /// Too little light survives: the walk ends, transmittance set to zero.
    Absorbed,
    /// The interval has ended: the walk ends.
    Exited,
    /// Step to the next cell.
    Advance,
}

/// What the coarse walk does at the tile it stands on.
#[derive(Clone, Copy, Debug, PartialEq, Eq)]
pub enum CoarseMove {
    /// The interval ends inside uniform colour: composite what is left of
    /// it, and the walk ends.
    Finish,
    /// The next tile is uniform too: go on from it.
    Continue(Vec2<u32>),
    /// The next tile has marked cells: resume the fine walk inside it.
    Land(Vec2<u32>),
    /// The step leaves the scene: the walk ends.
    Lost,
}

/// Whether the ray's interval ends at or before the nearest grid line.
pub fn exhausted(side: Vec2<u32>, end: u32) -> (done: bool)
    ensures
        done == spec_exhausted(side, end),
{
    if side.x <= side.y {
        side.x >= end
    } else {
        side.y >= end
    }
}

/// The axes along which the next step moves.
pub fn step_mask(side: Vec2<u32>) -> (mask: Vec2<bool>)
    ensures
        mask == spec_step_mask(side),
{
    Vec2 { x: side.x <= side.y, y: side.y <= side.x }
}

/// One coordinate after a step, if it is still below `limit`.
fn step_axis(at: u32, masked: bool, step: i32, limit: u32) -> (to: Option<u32>)
    ensures
        to == (if 0 <= at + (if masked {
            step as int
        } else {
            0
        }) < limit {
            Some((at + (if masked {
                step as int
            } else {
                0
            })) as u32)
        } else {
            None
        }),
{
    let delta: i64 = if masked {
        step as i64
    } else {
        0
    };
    let to: i64 = at as i64 + delta;
    if 0 <= to && to < limit as i64 {
        Some(to as u32)
    } else {
        None
    }
}

/// Ends the walk if too little light survives.
///
/// When every channel of the transmittance is below the cutoff it is set to
/// zero and the walk is absorbed. Otherwise the fluence is left alone, and
/// the walk exits if the interval has ended and advances if not.
pub fn settle(fluence: &mut Fluence, side: Vec2<u32>, end: u32) -> (outcome: Settled)
    ensures
        final(fluence).radiance == old(fluence).radiance,
        old(fluence).wf() ==> final(fluence).wf(),
        spec_absorbed(old(fluence).transmittance) ==> {
            &&& outcome == Settled::Absorbed
            &&& final(fluence).transmittance == (Vec3 { x: ZERO, y: ZERO, z: ZERO })
        },
        !spec_absorbed(old(fluence).transmittance) ==> {
            &&& *final(fluence) == *old(fluence)
            &&& outcome == (if spec_exhausted(side, end) {
                Settled::Exited
            } else {
                Settled::Advance
            })
        },
{
    if fluence.transmittance.x < TRANSMITTANCE_CUTOFF && fluence.transmittance.y
        < TRANSMITTANCE_CUTOFF && fluence.transmittance.z < TRANSMITTANCE_CUTOFF {
        fluence.transmittance = Vec3 { x: ZERO, y: ZERO, z: ZERO };
        Settled::Absorbed
    } else if exhausted(side, end) {
        Settled::Exited
    } else {
        Settled::Advance
    }
}

impl VoxelTracer {
    /// Whether the cache marks no cell of tile `(bx, by)`.
    pub open spec fn tile_clear(&self, bx: int, by: int) -> bool {
        forall|dx: int, dy: int|
            0 <= dx < BLOCK_SIZE && 0 <= dy < BLOCK_SIZE ==> !#[trigger] self.block_at(
                bx,
                by,
            ).marked(dx, dy)
    }

    /// What the fine walk does at `pos`, as the cache has it.
    pub open spec fn spec_fine_move(&self, pos: Vec2<u32>, side: Vec2<u32>, end: u32) -> FineMove {
        if self.tile_clear(pos.x as int / BLOCK_SIZE as int, pos.y as int / BLOCK_SIZE as int) {
            FineMove::EnterCoarse
        } else if self.cell_marked(pos.x as int, pos.y as int) || spec_exhausted(side, end) {
            FineMove::Composite
        } else {
            FineMove::Advance
        }
    }

    /// What the coarse walk does at `block`, as the cache has it.
    pub open spec fn spec_coarse_move(
        &self,
        block: Vec2<u32>,
        side: Vec2<u32>,
        end: u32,
        ray_step: Vec2<i32>,
    ) -> CoarseMove {
        let to = moved(block, spec_step_mask(side), ray_step);
        if spec_exhausted(side, end) {
            CoarseMove::Finish
        } else if !self.has_block(to.0, to.1) {
            CoarseMove::Lost
        } else if self.block_flagged(to.0, to.1) {
            CoarseMove::Land(Vec2 { x: to.0 as u32, y: to.1 as u32 })
        } else {
            CoarseMove::Continue(Vec2 { x: to.0 as u32, y: to.1 as u32 })
        }
    }

    /// The cell in which the fine walk resumes inside `block`: along each
    /// axis that the last coarse step moved, the edge by which the ray
    /// enters; along the other, the coordinate of `landing`.
    pub open spec fn spec_landing(
        block: Vec2<u32>,
        mask: Vec2<bool>,
        ray_step: Vec2<i32>,
        landing: Vec2<u32>,
    ) -> (int, int) {
        (
            if mask.x {
                entry_edge(block.x, ray_step.x)
            } else {
                landing.x as int
            },
            if mask.y {
                entry_edge(block.y, ray_step.y)
            } else {
                landing.y as int
            },
        )
    }

    /// Through a scene of one colour a ray composites a single segment:
    /// with a valid cache the fine walk leaves every cell for the coarse
    /// walk at once, and the coarse walk never lands in a tile.
    pub proof fn lemma_uniform_walk(
        &self,
        color: Color,
        pos: Vec2<u32>,
        block: Vec2<u32>,
        side: Vec2<u32>,
        end: u32,
        ray_step: Vec2<i32>,
    )
        requires
            self.wf(),
            self.cache_valid(),
            forall|x: int, y: int| self.has_cell(x, y) ==> #[trigger] self.color_at(x, y) == color,
            self.has_cell(pos.x as int, pos.y as int),
        ensures
            self.spec_fine_move(pos, side, end) == FineMove::EnterCoarse,
            !(self.spec_coarse_move(block, side, end, ray_step) is Land),
    {
        self.lemma_uniform(color);
        self.lemma_cell_tile(pos.x as int, pos.y as int);
        self.lemma_cached_tile(pos.x as int / BLOCK_SIZE as int, pos.y as int / BLOCK_SIZE as int);
        let to = moved(block, spec_step_mask(side), ray_step);
        if self.has_block(to.0, to.1) {
            self.lemma_cached_tile(to.0, to.1);
        }
    }

    /// Whether `pos` names a cell of the scene.
    pub fn contains(&self, pos: Vec2<u32>) -> (inside: bool)
        ensures
            inside == self.has_cell(pos.x as int, pos.y as int),
    {
        let size = self.size();
        pos.x < size.x && pos.y < size.y
    }

    /// Decides what the fine walk does at the cell `pos`.
    ///
    /// `side` holds the keys of the next grid line along each axis and `end`
    /// the key of the interval's end. With a valid cache the walk leaves for
    /// the coarse walk exactly when no cell of the tile differs from a
    /// neighbour, and otherwise composites exactly when this cell does or
    /// the interval ends in it.
    pub fn fine_move(&self, pos: Vec2<u32>, side: Vec2<u32>, end: u32) -> (m: FineMove)
        requires
            self.wf(),
            self.has_cell(pos.x as int, pos.y as int),
        ensures
            m == self.spec_fine_move(pos, side, end),
            self.cache_valid() ==> (m == FineMove::EnterCoarse <==> !self.tile_differs(
                pos.x as int / BLOCK_SIZE as int,
                pos.y as int / BLOCK_SIZE as int,
            )),
            self.cache_valid() && m != FineMove::EnterCoarse ==> (m == FineMove::Composite
                <==> self.differs(pos.x as int, pos.y as int) || spec_exhausted(side, end)),
    {
        let block = Vec2 { x: pos.x / BLOCK_SIZE, y: pos.y / BLOCK_SIZE };
        let within = Vec2 { x: pos.x % BLOCK_SIZE, y: pos.y % BLOCK_SIZE };
        proof {
            self.lemma_cell_tile(pos.x as int, pos.y as int);
        }
        let word = self.block(block);
        proof {
            if self.cache_valid() {
                self.lemma_cached_cell(pos.x as int, pos.y as int);
                self.lemma_cached_tile(block.x as int, block.y as int);
            }
        }
        if BlockType::is_empty(word) {
            FineMove::EnterCoarse
        } else if BlockType::get(word, within) || exhausted(side, end) {
            FineMove::Composite
        } else {
            FineMove::Advance
        }
    }

    /// Steps the fine walk from the cell `pos` along the axes that `side`
    /// selects. Gives the cell reached, or `None` when the step leaves the
    /// scene.
    pub fn advance(&self, pos: Vec2<u32>, side: Vec2<u32>, ray_step: Vec2<i32>) -> (to: Option<
        Vec2<u32>,
    >)
        ensures
            to == ({
                let m = moved(pos, spec_step_mask(side), ray_step);
                if self.has_cell(m.0, m.1) {
                    Some(Vec2 { x: m.0 as u32, y: m.1 as u32 })
                } else {
                    None
                }
            }),
    {
        let size = self.size();
        let mask = step_mask(side);
        match (step_axis(pos.x, mask.x, ray_step.x, size.x), step_axis(
            pos.y,
            mask.y,
            ray_step.y,
            size.y,
        )) {
            (Some(x), Some(y)) => Some(Vec2 { x, y }),
            _ => None,
        }
    }

    /// Decides what the coarse walk does at the tile `block`.
    ///
    /// `side` holds the keys of the next tile boundary along each axis and
    /// `end` the key of the interval's end.
    pub fn coarse_move(
        &self,
        block: Vec2<u32>,
        side: Vec2<u32>,
        end: u32,
        ray_step: Vec2<i32>,
    ) -> (m: CoarseMove)
        requires
            self.wf(),
        ensures
            m == self.spec_coarse_move(block, side, end, ray_step),
            m matches CoarseMove::Land(to) ==> self.has_block(to.x as int, to.y as int),
            m matches CoarseMove::Continue(to) ==> self.has_block(to.x as int, to.y as int),
            self.cache_valid() ==> (m matches CoarseMove::Land(to) ==> self.tile_differs(
                to.x as int,
                to.y as int,
            )),
            self.cache_valid() ==> (m matches CoarseMove::Continue(to) ==> !self.tile_differs(
                to.x as int,
                to.y as int,
            )),
    {
        if exhausted(side, end) {
            return CoarseMove::Finish;
        }
        let size = self.size();
        let mask = step_mask(side);
        let tiles = Vec2 { x: size.x / BLOCK_SIZE, y: size.y / BLOCK_SIZE };
        match (step_axis(block.x, mask.x, ray_step.x, tiles.x), step_axis(
            block.y,
            mask.y,
            ray_step.y,
            tiles.y,
        )) {
            (Some(x), Some(y)) => {
                let to = Vec2 { x, y };
                proof {
                    if self.cache_valid() {
                        self.lemma_cached_tile(x as int, y as int);
                    }
                }
                if self.block_flag(to) {
                    CoarseMove::Land(to)
                } else {
                    CoarseMove::Continue(to)
                }
            },
            _ => CoarseMove::Lost,
        }
    }

    /// Finds the cell in which the fine walk resumes after the coarse walk
    /// has stepped into `block`.
    ///
    /// `mask` names the axes of that last step and `landing` is the cell
    /// that the caller's arithmetic puts the ray in. The result is `None`,
    /// and the walk ends, when the cell found does not lie in `block`.
    pub fn land(
        &self,
        block: Vec2<u32>,
        mask: Vec2<bool>,
        ray_step: Vec2<i32>,
        landing: Vec2<u32>,
    ) -> (pos: Option<Vec2<u32>>)
        requires
            self.wf(),
            self.has_block(block.x as int, block.y as int),
        ensures
            pos == ({
                let at = Self::spec_landing(block, mask, ray_step, landing);
                if at.0 / BLOCK_SIZE as int == block.x && at.1 / BLOCK_SIZE as int == block.y {
                    Some(Vec2 { x: at.0 as u32, y: at.1 as u32 })
                } else {
                    None
                }
            }),
            pos matches Some(p) ==> self.has_cell(p.x as int, p.y as int),
    {
        proof {
            crate::voxel::lemma_tile_cell(
                self.spec_size(),
                block.x as int,
                block.y as int,
                0,
                0,
            );
            crate::voxel::lemma_tile_cell(
                self.spec_size(),
                block.x as int,
                block.y as int,
                BLOCK_SIZE as int - 1,
                BLOCK_SIZE as int - 1,
            );
        }
        let x = if mask.x {
            block.x * BLOCK_SIZE + if ray_step.x > 0 {
                0
            } else {
                BLOCK_SIZE - 1
            }
        } else {
            landing.x
        };
        let y = if mask.y {
            block.y * BLOCK_SIZE + if ray_step.y > 0 {
                0
            } else {
                BLOCK_SIZE - 1
            }
        } else {
            landing.y
        };
        if x / BLOCK_SIZE == block.x && y / BLOCK_SIZE == block.y {
            Some(Vec2 { x, y })
        } else {
            None
        }
    }
}

} // verus!
