//! The voxel scene: a grid of cell colours and the per-block cache of
//! colour boundaries that lets a ray skip uniform regions.

use vstd::prelude::*;

use crate::color::{all_nonnegative, channels_valid, Color, Emission, Opacity, ZERO};
use crate::grid::Grid;
use crate::vector::{Vec2, Vec3};

verus! {

/// A square tile of one-bit marks, one per cell, packed into a word.
pub trait Block: Sized + Copy {
    /// The form in which a tile is held in a grid of tiles.
    type Storage: Copy;

    /// Side length of the tile, in cells.
    spec fn spec_size() -> u32;

    /// Whether the cell at `(x, y)` of the tile is marked.
    spec fn marked(self, x: int, y: int) -> bool;

    /// The stored form of a tile.
    spec fn packed(self) -> Self::Storage;

    /// The tile that a stored form stands for.
    spec fn unpacked(stored: Self::Storage) -> Self;

    /// Storing a tile and loading it again gives the tile back.
    proof fn lemma_round_trip(block: Self)
        ensures
            Self::unpacked(block.packed()) == block,
    ;

    /// Side length of the tile, in cells.
    fn size() -> (n: u32)
        ensures
            n == Self::spec_size(),
            n > 0,
    ;

    /// Loads the tile stored at `offset`.
    fn read(storage: &Grid<Self::Storage>, offset: Vec2<u32>) -> (block: Self)
        requires
            storage.wf(),
            storage.in_bounds(offset.x as int, offset.y as int),
        ensures
            block == Self::unpacked(storage.at(offset.x as int, offset.y as int)),
    ;

    /// Stores `value` at `offset`, leaving every other tile as it was.
    fn write(storage: &mut Grid<Self::Storage>, offset: Vec2<u32>, value: Self)
        requires
            old(storage).wf(),
            old(storage).in_bounds(offset.x as int, offset.y as int),
        ensures
            final(storage).wf(),
            final(storage).spec_width() == old(storage).spec_width(),
            final(storage).spec_height() == old(storage).spec_height(),
            forall|x: int, y: int|
                old(storage).in_bounds(x, y) ==> #[trigger] final(storage).at(x, y) == (if x
                    == offset.x && y == offset.y {
                    value.packed()
                } else {
                    old(storage).at(x, y)
                }),
    ;

    /// Whether the cell at `offset` is marked.
    fn get(this: Self, offset: Vec2<u32>) -> (bit: bool)
        requires
            offset.x < Self::spec_size(),
            offset.y < Self::spec_size(),
        ensures
            bit == this.marked(offset.x as int, offset.y as int),
    ;

    /// Marks the cell at `offset`; every other cell keeps its mark.
    fn set(this: &mut Self, offset: Vec2<u32>)
        requires
            offset.x < Self::spec_size(),
            offset.y < Self::spec_size(),
        ensures
            forall|x: int, y: int|
                0 <= x < Self::spec_size() && 0 <= y < Self::spec_size() ==> (
                #[trigger] final(this).marked(x, y) <==> old(this).marked(x, y) || (x == offset.x
                    && y == offset.y)),
    ;

    /// Whether no cell of the tile is marked.
    fn is_empty(this: Self) -> (none: bool)
        ensures
            none <==> forall|x: int, y: int|
                0 <= x < Self::spec_size() && 0 <= y < Self::spec_size() ==> !#[trigger] this.marked(
                    x,
                    y,
                ),
    ;

    /// The tile with no cell marked.
    fn empty() -> (block: Self)
        ensures
            forall|x: int, y: int|
                0 <= x < Self::spec_size() && 0 <= y < Self::spec_size() ==> !#[trigger] block.marked(
                    x,
                    y,
                ),
    ;
}

impl Block for bool {
    type Storage = bool;

    open spec fn spec_size() -> u32 {
        1
    }

    open spec fn marked(self, x: int, y: int) -> bool {
        self
    }

    open spec fn packed(self) -> bool {
        self
    }

    open spec fn unpacked(stored: bool) -> bool {
        stored
    }

    proof fn lemma_round_trip(block: bool) {
    }

    fn size() -> (n: u32) {
        1
    }

    fn read(storage: &Grid<bool>, offset: Vec2<u32>) -> (block: bool) {
        storage.read(offset)
    }

    fn write(storage: &mut Grid<bool>, offset: Vec2<u32>, value: bool) {
        storage.write(offset, value);
    }

    fn get(this: bool, offset: Vec2<u32>) -> (bit: bool) {
        this
    }

    fn set(this: &mut bool, offset: Vec2<u32>) {
        *this = true;
    }

    fn is_empty(this: bool) -> (none: bool) {
        assert(this ==> this.marked(0, 0));
        !this
    }

    fn empty() -> (block: bool) {
        false
    }
}

/// Marking bit `j` of a word marks that bit and changes no other.
proof fn lemma_mark_u64(v: u64, i: u64, j: u64)
    by (bit_vector)
    requires
        i < 64,
        j < 64,
    ensures
        ((v | (1u64 << j)) & (1u64 << i) != 0) == ((v & (1u64 << i) != 0) || i == j),
{
}

/// If bit `k` is clear and nothing is set above it, nothing is set from
/// `k` upwards.
proof fn lemma_clear_step_u64(v: u64, k: u64)
    by (bit_vector)
    requires
        k < 64,
        v & (1u64 << k) == 0,
        k < 63 ==> v >> ((k + 1) as u64) == 0,
    ensures
        v >> k == 0,
{
}

/// If every bit from `k` upwards is clear, shifting out the bits below `k`
/// leaves zero.
proof fn lemma_clear_from_u64(v: u64, k: u64)
    requires
        k < 64,
        forall|i: u64| k <= i < 64 ==> v & (1u64 << i) == 0,
    ensures
        v >> k == 0,
    decreases 64 - k,
{
    if k < 63 {
        lemma_clear_from_u64(v, (k + 1) as u64);
    }
    lemma_clear_step_u64(v, k);
}

/// A word with no bit set is zero.
proof fn lemma_no_bits_u64(v: u64)
    requires
        forall|i: u64| i < 64 ==> v & (1u64 << i) == 0,
    ensures
        v == 0,
{
    lemma_clear_from_u64(v, 0);
    assert(v >> 0u64 == v) by (bit_vector);
}

/// The zero word has no bit set.
proof fn lemma_zero_bits_u64(i: u64)
    by (bit_vector)
    requires
        i < 64,
    ensures
        0u64 & (1u64 << i) == 0,
{
}

/// Splitting a word into halves and joining them gives the word back.
proof fn lemma_halves_u64(v: u64)
    by (bit_vector)
    ensures
        (v & 0xFFFF_FFFF) <= 0xFFFF_FFFF,
        (v >> 32) <= 0xFFFF_FFFF,
        ((v & 0xFFFF_FFFF) as u32) as u64 | ((((v >> 32) as u32) as u64) << 32) == v,
{
}

impl Block for u64 {
    type Storage = Vec2<u32>;

    open spec fn spec_size() -> u32 {
        8
    }

    open spec fn marked(self, x: int, y: int) -> bool {
        self & (1u64 << ((x + y * 8) as u64)) != 0
    }

    open spec fn packed(self) -> Vec2<u32> {
        Vec2 { x: (self & 0xFFFF_FFFF) as u32, y: (self >> 32) as u32 }
    }

    open spec fn unpacked(stored: Vec2<u32>) -> u64 {
        stored.x as u64 | ((stored.y as u64) << 32)
    }

    proof fn lemma_round_trip(block: u64) {
        lemma_halves_u64(block);
    }

    fn size() -> (n: u32) {
        8
    }

    fn read(storage: &Grid<Vec2<u32>>, offset: Vec2<u32>) -> (block: u64) {
        let stored = storage.read(offset);
        stored.x as u64 | ((stored.y as u64) << 32)
    }

    fn write(storage: &mut Grid<Vec2<u32>>, offset: Vec2<u32>, value: u64) {
        proof {
            lemma_halves_u64(value);
        }
        let low = (value & 0xFFFF_FFFF) as u32;
        let high = (value >> 32) as u32;
        storage.write(offset, Vec2 { x: low, y: high });
    }

    fn get(this: u64, offset: Vec2<u32>) -> (bit: bool) {
        let index: u64 = (offset.x + offset.y * 8) as u64;
        this & (1u64 << index) != 0
    }

    fn set(this: &mut u64, offset: Vec2<u32>) {
        let index: u64 = (offset.x + offset.y * 8) as u64;
        let before: u64 = *this;
        *this = before | (1u64 << index);
        proof {
            assert forall|x: int, y: int| 0 <= x < 8 && 0 <= y < 8 implies (#[trigger] this.marked(
                x,
                y,
            ) <==> before.marked(x, y) || (x == offset.x && y == offset.y)) by {
                lemma_mark_u64(before, (x + y * 8) as u64, index);
            }
        }
    }

    fn is_empty(this: u64) -> (none: bool) {
        proof {
            if this == 0 {
                assert forall|x: int, y: int| 0 <= x < 8 && 0 <= y < 8 implies !#[trigger] this.marked(
                    x,
                    y,
                ) by {
                    lemma_zero_bits_u64((x + y * 8) as u64);
                }
            }
            if forall|x: int, y: int| 0 <= x < 8 && 0 <= y < 8 ==> !#[trigger] this.marked(x, y) {
                assert forall|i: u64| i < 64 implies this & (1u64 << i) == 0 by {
                    let x = (i % 8) as int;
                    let y = (i / 8) as int;
                    assert(!this.marked(x, y));
                    assert((x + y * 8) as u64 == i);
                }
                lemma_no_bits_u64(this);
            }
        }
        this == 0
    }

    fn empty() -> (block: u64) {
        proof {
            assert forall|x: int, y: int| 0 <= x < 8 && 0 <= y < 8 implies !#[trigger] 0u64.marked(
                x,
                y,
            ) by {
                lemma_zero_bits_u64((x + y * 8) as u64);
            }
        }
        0
    }
}

/// Marking bit `j` of a half-word marks that bit and changes no other.
proof fn lemma_mark_u16(v: u16, i: u16, j: u16)
    by (bit_vector)
    requires
        i < 16,
        j < 16,
    ensures
        ((v | (1u16 << j)) & (1u16 << i) != 0) == ((v & (1u16 << i) != 0) || i == j),
{
}

/// If bit `k` is clear and nothing is set above it, nothing is set from
/// `k` upwards.
proof fn lemma_clear_step_u16(v: u16, k: u16)
    by (bit_vector)
    requires
        k < 16,
        v & (1u16 << k) == 0,
        k < 15 ==> v >> ((k + 1) as u16) == 0,
    ensures
        v >> k == 0,
{
}

/// If every bit from `k` upwards is clear, shifting out the bits below `k`
/// leaves zero.
proof fn lemma_clear_from_u16(v: u16, k: u16)
    requires
        k < 16,
        forall|i: u16| k <= i < 16 ==> v & (1u16 << i) == 0,
    ensures
        v >> k == 0,
    decreases 16 - k,
{
    if k < 15 {
        lemma_clear_from_u16(v, (k + 1) as u16);
    }
    lemma_clear_step_u16(v, k);
}

/// A half-word with no bit set is zero.
proof fn lemma_no_bits_u16(v: u16)
    requires
        forall|i: u16| i < 16 ==> v & (1u16 << i) == 0,
    ensures
        v == 0,
{
    lemma_clear_from_u16(v, 0);
    assert(v >> 0u16 == v) by (bit_vector);
}

/// The zero half-word has no bit set.
proof fn lemma_zero_bits_u16(i: u16)
    by (bit_vector)
    requires
        i < 16,
    ensures
        0u16 & (1u16 << i) == 0,
{
}

/// Widening a half-word and keeping the low sixteen bits gives it back.
proof fn lemma_widen_u16(v: u16)
    by (bit_vector)
    ensures
        ((v as u32) & 0xFFFF) as u16 == v,
{
}

/// The low sixteen bits of a word fit a half-word.
proof fn lemma_low_half_u32(s: u32)
    by (bit_vector)
    ensures
        (s & 0xFFFF) <= 0xFFFF,
{
}

impl Block for u16 {
    type Storage = u32;

    open spec fn spec_size() -> u32 {
        4
    }

    open spec fn marked(self, x: int, y: int) -> bool {
        self & (1u16 << ((x + y * 4) as u16)) != 0
    }

    open spec fn packed(self) -> u32 {
        self as u32
    }

    open spec fn unpacked(stored: u32) -> u16 {
        (stored & 0xFFFF) as u16
    }

    proof fn lemma_round_trip(block: u16) {
        lemma_widen_u16(block);
    }

    fn size() -> (n: u32) {
        4
    }

    fn read(storage: &Grid<u32>, offset: Vec2<u32>) -> (block: u16) {
        let stored = storage.read(offset);
        proof {
            lemma_low_half_u32(stored);
        }
        (stored & 0xFFFF) as u16
    }

    fn write(storage: &mut Grid<u32>, offset: Vec2<u32>, value: u16) {
        storage.write(offset, value as u32);
    }

    fn get(this: u16, offset: Vec2<u32>) -> (bit: bool) {
        let index: u16 = (offset.x + offset.y * 4) as u16;
        this & (1u16 << index) != 0
    }

    fn set(this: &mut u16, offset: Vec2<u32>) {
        let index: u16 = (offset.x + offset.y * 4) as u16;
        let before: u16 = *this;
        *this = before | (1u16 << index);
        proof {
            assert forall|x: int, y: int| 0 <= x < 4 && 0 <= y < 4 implies (#[trigger] this.marked(
                x,
                y,
            ) <==> before.marked(x, y) || (x == offset.x && y == offset.y)) by {
                lemma_mark_u16(before, (x + y * 4) as u16, index);
            }
        }
    }

    fn is_empty(this: u16) -> (none: bool) {
        proof {
            if this == 0 {
                assert forall|x: int, y: int| 0 <= x < 4 && 0 <= y < 4 implies !#[trigger] this.marked(
                    x,
                    y,
                ) by {
                    lemma_zero_bits_u16((x + y * 4) as u16);
                }
            }
            if forall|x: int, y: int| 0 <= x < 4 && 0 <= y < 4 ==> !#[trigger] this.marked(x, y) {
                assert forall|i: u16| i < 16 implies this & (1u16 << i) == 0 by {
                    let x = (i % 4) as int;
                    let y = (i / 4) as int;
                    assert(!this.marked(x, y));
                    assert((x + y * 4) as u16 == i);
                }
                lemma_no_bits_u16(this);
            }
        }
        this == 0
    }

    fn empty() -> (block: u16) {
        proof {
            assert forall|x: int, y: int| 0 <= x < 4 && 0 <= y < 4 implies !#[trigger] 0u16.marked(
                x,
                y,
            ) by {
                lemma_zero_bits_u16((x + y * 4) as u16);
            }
        }
        0
    }
}

/// The tile type that the voxel scene's cache is built from.
pub type BlockType = u64;

/// Side length, in cells, of the tiles that the cache is built from.
pub const BLOCK_SIZE: u32 = 8;

/// Why a voxel scene could not be built.
#[derive(Clone, Copy, Debug, PartialEq, Eq)]
pub enum SceneError {
    /// The emission and opacity arrays differ in size.
    SizeMismatch,
    /// A side of the scene is not a whole number of tiles.
    Misaligned,
    /// A channel of some cell is not a non-negative number.
    InvalidColor,
    /// The scene has more cells than this machine can address.
    TooLarge,
}

/// A grid of cell colours with its cache of colour boundaries.
///
/// The cache holds, for every cell, whether its colour differs from that of
/// an axis neighbour, and for every tile, whether any of its cells does. It
/// is derived data: writing a cell leaves it stale until
/// [`VoxelTracer::compute_diff`] runs again.
pub struct VoxelTracer {
    emission: Grid<Emission>,
    opacity: Grid<Opacity>,
    diff: Grid<Vec2<u32>>,
    diff_blocks: Grid<bool>,
    size: Vec2<u32>,
}

/// The reason, if any, for which a scene of this size cannot be built.
pub open spec fn size_error(size: Vec2<u32>) -> Option<SceneError> {
    if size.x % BLOCK_SIZE != 0 || size.y % BLOCK_SIZE != 0 {
        Some(SceneError::Misaligned)
    } else if size.x as int * size.y as int > usize::MAX {
        Some(SceneError::TooLarge)
    } else {
        None
    }
}

/// Whether every cell of the array holds non-negative channels.
pub open spec fn all_valid(cells: Grid<Vec3<u32>>) -> bool {
    forall|x: int, y: int| cells.in_bounds(x, y) ==> all_nonnegative(#[trigger] cells.at(x, y))
}

/// Whether every cell of the array holds non-negative channels.
fn check_all_valid(cells: &Grid<Vec3<u32>>) -> (valid: bool)
    requires
        cells.wf(),
    ensures
        valid == all_valid(*cells),
{
    let width = cells.width();
    let height = cells.height();
    let mut y: u32 = 0;
    while y < height
        invariant
            cells.wf(),
            width == cells.spec_width(),
            height == cells.spec_height(),
            y <= height,
            forall|cx: int, cy: int|
                0 <= cx < width && 0 <= cy < y ==> all_nonnegative(#[trigger] cells.at(cx, cy)),
        decreases height - y,
    {
        let mut x: u32 = 0;
        while x < width
            invariant
                cells.wf(),
                width == cells.spec_width(),
                height == cells.spec_height(),
                y < height,
                x <= width,
                forall|cx: int, cy: int|
                    0 <= cx < width && (0 <= cy < y || (cy == y && cx < x)) ==> all_nonnegative(
                        #[trigger] cells.at(cx, cy),
                    ),
            decreases width - x,
        {
            if !channels_valid(cells.read(Vec2 { x, y })) {
                assert(!all_nonnegative(cells.at(x as int, y as int)));
                return false;
            }
            x = x + 1;
        }
        y = y + 1;
    }
    true
}

/// A tile count times the tile side does not exceed the side it was
/// divided from, and the tiles of a scene are no more than its cells.
proof fn lemma_tiles_fit(width: u32, height: u32)
    ensures
        (width / BLOCK_SIZE) as int * (height / BLOCK_SIZE) as int <= width as int * height as int,
{
    let tw = (width / BLOCK_SIZE) as int;
    let th = (height / BLOCK_SIZE) as int;
    assert(tw * th <= width as int * height as int) by (nonlinear_arith)
        requires
            0 <= tw <= width as int,
            0 <= th <= height as int,
    ;
}

impl VoxelTracer {
    /// The arrays agree with the scene's size, and each side is a whole
    /// number of tiles.
    pub closed spec fn wf(&self) -> bool {
        &&& self.emission.wf()
        &&& self.opacity.wf()
        &&& self.diff.wf()
        &&& self.diff_blocks.wf()
        &&& self.emission.spec_width() == self.size.x
        &&& self.emission.spec_height() == self.size.y
        &&& self.opacity.spec_width() == self.size.x
        &&& self.opacity.spec_height() == self.size.y
        &&& self.size.x % BLOCK_SIZE == 0
        &&& self.size.y % BLOCK_SIZE == 0
        &&& self.diff.spec_width() == self.size.x / BLOCK_SIZE
        &&& self.diff.spec_height() == self.size.y / BLOCK_SIZE
        &&& self.diff_blocks.spec_width() == self.size.x / BLOCK_SIZE
        &&& self.diff_blocks.spec_height() == self.size.y / BLOCK_SIZE
        &&& all_valid(self.emission)
        &&& all_valid(self.opacity)
    }

    /// The number of cells along each axis.
    pub closed spec fn spec_size(&self) -> Vec2<u32> {
        self.size
    }

    /// Whether `(x, y)` names a cell of the scene.
    pub open spec fn has_cell(&self, x: int, y: int) -> bool {
        0 <= x < self.spec_size().x && 0 <= y < self.spec_size().y
    }

    /// Whether `(bx, by)` names a tile of the scene.
    pub open spec fn has_block(&self, bx: int, by: int) -> bool {
        0 <= bx < self.spec_size().x / BLOCK_SIZE && 0 <= by < self.spec_size().y / BLOCK_SIZE
    }

    /// The emission stored at cell `(x, y)`.
    pub closed spec fn emission_at(&self, x: int, y: int) -> Emission {
        self.emission.at(x, y)
    }

    /// The opacity stored at cell `(x, y)`.
    pub closed spec fn opacity_at(&self, x: int, y: int) -> Opacity {
        self.opacity.at(x, y)
    }

    /// The colour of cell `(x, y)`.
    pub open spec fn color_at(&self, x: int, y: int) -> Color {
        Color { emission: self.emission_at(x, y), opacity: self.opacity_at(x, y) }
    }

    /// Whether `(nx, ny)` is a cell whose colour is not that of `(x, y)`.
    pub open spec fn unlike(&self, x: int, y: int, nx: int, ny: int) -> bool {
        self.has_cell(nx, ny) && self.color_at(nx, ny) != self.color_at(x, y)
    }

    /// Whether the colour of cell `(x, y)` differs from that of one of its
    /// four axis neighbours inside the scene.
    pub open spec fn differs(&self, x: int, y: int) -> bool {
        ||| self.unlike(x, y, x + 1, y)
        ||| self.unlike(x, y, x - 1, y)
        ||| self.unlike(x, y, x, y + 1)
        ||| self.unlike(x, y, x, y - 1)
    }

    /// Whether some cell of tile `(bx, by)` differs from a neighbour.
    pub open spec fn tile_differs(&self, bx: int, by: int) -> bool {
        exists|dx: int, dy: int|
            0 <= dx < BLOCK_SIZE && 0 <= dy < BLOCK_SIZE && #[trigger] self.differs(
                bx * BLOCK_SIZE + dx,
                by * BLOCK_SIZE + dy,
            )
    }

    /// The cached word of marks for tile `(bx, by)`.
    pub closed spec fn block_at(&self, bx: int, by: int) -> BlockType {
        BlockType::unpacked(self.diff.at(bx, by))
    }

    /// The cached mark of cell `(x, y)`.
    pub open spec fn cell_marked(&self, x: int, y: int) -> bool {
        self.block_at(x / BLOCK_SIZE as int, y / BLOCK_SIZE as int).marked(
            x % BLOCK_SIZE as int,
            y % BLOCK_SIZE as int,
        )
    }

    /// The cached flag of tile `(bx, by)`.
    pub closed spec fn block_flagged(&self, bx: int, by: int) -> bool {
        self.diff_blocks.at(bx, by)
    }

    /// Whether the cache entries of tile `(bx, by)` say what the colours say.
    pub open spec fn tile_cached(&self, bx: int, by: int) -> bool {
        &&& forall|dx: int, dy: int|
            0 <= dx < BLOCK_SIZE && 0 <= dy < BLOCK_SIZE ==> (#[trigger] self.block_at(
                bx,
                by,
            ).marked(dx, dy) <==> self.differs(bx * BLOCK_SIZE + dx, by * BLOCK_SIZE + dy))
        &&& self.block_flagged(bx, by) <==> self.tile_differs(bx, by)
    }

    /// Whether the whole cache says what the colours say.
    pub open spec fn cache_valid(&self) -> bool {
        forall|bx: int, by: int| self.has_block(bx, by) ==> #[trigger] self.tile_cached(bx, by)
    }

    /// Whether no mark and no flag is set anywhere in the cache.
    pub open spec fn cache_clear(&self) -> bool {
        forall|bx: int, by: int|
            self.has_block(bx, by) ==> #[trigger] self.block_at(bx, by) == 0 && !self.block_flagged(
                bx,
                by,
            )
    }

    /// The first reason, if any, for which no scene can be built over the
    /// given arrays.
    pub open spec fn storage_error(emission: Grid<Emission>, opacity: Grid<Opacity>) -> Option<
        SceneError,
    > {
        if emission.spec_width() != opacity.spec_width() || emission.spec_height()
            != opacity.spec_height() {
            Some(SceneError::SizeMismatch)
        } else if emission.spec_width() % BLOCK_SIZE != 0 || emission.spec_height() % BLOCK_SIZE
            != 0 {
            Some(SceneError::Misaligned)
        } else if !all_valid(emission) || !all_valid(opacity) {
            Some(SceneError::InvalidColor)
        } else {
            None
        }
    }

    /// Builds a scene over the given arrays, with a clear cache.
    ///
    /// Fails when the arrays differ in size, a side is not a whole number
    /// of tiles, or a channel of some cell is not a non-negative number.
    /// The cache is not built: call [`VoxelTracer::compute_diff`] before
    /// walking the scene.
    pub fn with_storage(emission: Grid<Emission>, opacity: Grid<Opacity>) -> (scene: Result<
        Self,
        SceneError,
    >)
        requires
            emission.wf(),
            opacity.wf(),
        ensures
            scene matches Err(e) ==> Self::storage_error(emission, opacity) == Some(e),
            scene is Ok <==> Self::storage_error(emission, opacity) is None,
            scene matches Ok(s) ==> {
                &&& s.wf()
                &&& s.spec_size().x == emission.spec_width()
                &&& s.spec_size().y == emission.spec_height()
                &&& forall|x: int, y: int|
                    s.has_cell(x, y) ==> #[trigger] s.color_at(x, y) == (Color {
                        emission: emission.at(x, y),
                        opacity: opacity.at(x, y),
                    })
                &&& s.cache_clear()
            },
    {
        let size = Vec2 { x: emission.width(), y: emission.height() };
        if opacity.width() != size.x || opacity.height() != size.y {
            return Err(SceneError::SizeMismatch);
        }
        if size.x % BLOCK_SIZE != 0 || size.y % BLOCK_SIZE != 0 {
            return Err(SceneError::Misaligned);
        }
        if !check_all_valid(&emission) || !check_all_valid(&opacity) {
            return Err(SceneError::InvalidColor);
        }
        proof {
            emission.lemma_fits();
            lemma_tiles_fit(size.x, size.y);
        }
        let tiles = Vec2 { x: size.x / BLOCK_SIZE, y: size.y / BLOCK_SIZE };
        let diff = match Grid::new(tiles.x, tiles.y, Vec2 { x: 0u32, y: 0u32 }) {
            Some(diff) => diff,
            None => vstd::pervasive::unreached(),
        };
        let diff_blocks = match Grid::new(tiles.x, tiles.y, false) {
            Some(diff_blocks) => diff_blocks,
            None => vstd::pervasive::unreached(),
        };
        let scene = VoxelTracer { emission, opacity, diff, diff_blocks, size };
        proof {
            assert(0u32 as u64 | ((0u32 as u64) << 32) == 0) by (bit_vector);
        }
        Ok(scene)
    }

    /// Builds a scene of the given size in which every cell is vacuum.
    ///
    /// Fails when a side is not a whole number of tiles or the cells cannot
    /// be addressed. Every cell has the colour of every other, so the clear
    /// cache the scene starts with is the right one.
    pub fn new(size: Vec2<u32>) -> (scene: Result<Self, SceneError>)
        ensures
            scene matches Err(e) ==> size_error(size) == Some(e),
            scene is Ok <==> size_error(size) is None,
            scene matches Ok(s) ==> {
                &&& s.wf()
                &&& s.spec_size() == size
                &&& forall|x: int, y: int| s.has_cell(x, y) ==> #[trigger] s.color_at(x, y) == (Color {
                    emission: Vec3 { x: ZERO, y: ZERO, z: ZERO },
                    opacity: Vec3 { x: ZERO, y: ZERO, z: ZERO },
                })
                &&& s.cache_clear()
                &&& s.cache_valid()
            },
    {
        if size.x % BLOCK_SIZE != 0 || size.y % BLOCK_SIZE != 0 {
            return Err(SceneError::Misaligned);
        }
        let vacuum = Color::empty();
        let emission = match Grid::new(size.x, size.y, vacuum.emission) {
            Some(emission) => emission,
            None => {
                return Err(SceneError::TooLarge);
            },
        };
        let opacity = match Grid::new(size.x, size.y, vacuum.opacity) {
            Some(opacity) => opacity,
            None => {
                return Err(SceneError::TooLarge);
            },
        };
        let scene = Self::with_storage(emission, opacity);
        proof {
            if scene is Ok {
                scene->Ok_0.lemma_uniform_cache(vacuum);
            }
        }
        scene
    }

    /// The number of cells along each axis.
    pub fn size(&self) -> (size: Vec2<u32>)
        ensures
            size == self.spec_size(),
    {
        self.size
    }

    /// The colour of the cell at `pos`.
    pub fn read(&self, pos: Vec2<u32>) -> (color: Color)
        requires
            self.wf(),
            self.has_cell(pos.x as int, pos.y as int),
        ensures
            color == self.color_at(pos.x as int, pos.y as int),
            color.wf(),
    {
        Color { emission: self.emission.read(pos), opacity: self.opacity.read(pos) }
    }

    /// Every cell of a scene holds a colour with non-negative channels.
    pub proof fn lemma_colors_valid(&self, x: int, y: int)
        requires
            self.wf(),
            self.has_cell(x, y),
        ensures
            self.color_at(x, y).wf(),
    {
    }

    /// The emission of the cell at `pos`.
    pub fn read_emission(&self, pos: Vec2<u32>) -> (emission: Emission)
        requires
            self.wf(),
            self.has_cell(pos.x as int, pos.y as int),
        ensures
            emission == self.emission_at(pos.x as int, pos.y as int),
    {
        self.emission.read(pos)
    }

    /// The opacity of the cell at `pos`.
    pub fn read_opacity(&self, pos: Vec2<u32>) -> (opacity: Opacity)
        requires
            self.wf(),
            self.has_cell(pos.x as int, pos.y as int),
        ensures
            opacity == self.opacity_at(pos.x as int, pos.y as int),
    {
        self.opacity.read(pos)
    }

    /// Whether `self` is `before` with the emission of `changed` replaced,
    /// the cache untouched.
    pub open spec fn emission_written(
        &self,
        before: &Self,
        changed: Vec2<u32>,
        emission: Emission,
    ) -> bool {
        &&& self.wf()
        &&& self.spec_size() == before.spec_size()
        &&& forall|x: int, y: int|
            before.has_cell(x, y) ==> #[trigger] self.emission_at(x, y) == (if x == changed.x && y
                == changed.y {
                emission
            } else {
                before.emission_at(x, y)
            })
        &&& forall|bx: int, by: int|
            before.has_block(bx, by) ==> #[trigger] self.block_at(bx, by) == before.block_at(bx, by)
        &&& forall|bx: int, by: int|
            before.has_block(bx, by) ==> #[trigger] self.block_flagged(bx, by)
                == before.block_flagged(bx, by)
    }

    /// Whether `self` is `before` with the opacity of `changed` replaced,
    /// the cache untouched.
    pub open spec fn opacity_written(
        &self,
        before: &Self,
        changed: Vec2<u32>,
        opacity: Opacity,
    ) -> bool {
        &&& self.wf()
        &&& self.spec_size() == before.spec_size()
        &&& forall|x: int, y: int|
            before.has_cell(x, y) ==> #[trigger] self.opacity_at(x, y) == (if x == changed.x && y
                == changed.y {
                opacity
            } else {
                before.opacity_at(x, y)
            })
        &&& forall|bx: int, by: int|
            before.has_block(bx, by) ==> #[trigger] self.block_at(bx, by) == before.block_at(bx, by)
        &&& forall|bx: int, by: int|
            before.has_block(bx, by) ==> #[trigger] self.block_flagged(bx, by)
                == before.block_flagged(bx, by)
    }

    /// Whether `self` and `before` hold the same emission in every cell.
    pub open spec fn same_emission(&self, before: &Self) -> bool {
        forall|x: int, y: int|
            before.has_cell(x, y) ==> #[trigger] self.emission_at(x, y) == before.emission_at(x, y)
    }

    /// Whether `self` and `before` hold the same opacity in every cell.
    pub open spec fn same_opacity(&self, before: &Self) -> bool {
        forall|x: int, y: int|
            before.has_cell(x, y) ==> #[trigger] self.opacity_at(x, y) == before.opacity_at(x, y)
    }

    /// Replaces the colour of the cell at `pos`. The cache is left as it
    /// was, and may no longer say what the colours say.
    pub fn write(&mut self, pos: Vec2<u32>, color: Color)
        requires
            old(self).wf(),
            old(self).has_cell(pos.x as int, pos.y as int),
            color.wf(),
        ensures
            final(self).emission_written(old(self), pos, color.emission),
            final(self).opacity_written(old(self), pos, color.opacity),
    {
        self.emission.write(pos, color.emission);
        self.opacity.write(pos, color.opacity);
    }

    /// Replaces the emission of the cell at `pos`, leaving its opacity and
    /// the cache as they were.
    pub fn write_emission(&mut self, pos: Vec2<u32>, emission: Emission)
        requires
            old(self).wf(),
            old(self).has_cell(pos.x as int, pos.y as int),
            all_nonnegative(emission),
        ensures
            final(self).emission_written(old(self), pos, emission),
            final(self).same_opacity(old(self)),
    {
        self.emission.write(pos, emission);
    }

    /// Replaces the opacity of the cell at `pos`, leaving its emission and
    /// the cache as they were.
    pub fn write_opacity(&mut self, pos: Vec2<u32>, opacity: Opacity)
        requires
            old(self).wf(),
            old(self).has_cell(pos.x as int, pos.y as int),
            all_nonnegative(opacity),
        ensures
            final(self).opacity_written(old(self), pos, opacity),
            final(self).same_emission(old(self)),
    {
        self.opacity.write(pos, opacity);
    }

    /// The cached word of marks for the tile at `block`.
    pub fn block(&self, block: Vec2<u32>) -> (word: BlockType)
        requires
            self.wf(),
            self.has_block(block.x as int, block.y as int),
        ensures
            word == self.block_at(block.x as int, block.y as int),
    {
        BlockType::read(&self.diff, block)
    }

    /// The cached flag of the tile at `block`.
    pub fn block_flag(&self, block: Vec2<u32>) -> (flag: bool)
        requires
            self.wf(),
            self.has_block(block.x as int, block.y as int),
        ensures
            flag == self.block_flagged(block.x as int, block.y as int),
    {
        self.diff_blocks.read(block)
    }

    /// Whether the colour of the cell at `pos` differs from that of an axis
    /// neighbour inside the scene.
    pub fn cell_differs(&self, pos: Vec2<u32>) -> (differs: bool)
        requires
            self.wf(),
            self.has_cell(pos.x as int, pos.y as int),
        ensures
            differs == self.differs(pos.x as int, pos.y as int),
    {
        let color = self.read(pos);
        if pos.x + 1 < self.size.x {
            if !self.read(Vec2 { x: pos.x + 1, y: pos.y }).same(&color) {
                return true;
            }
        }
        if pos.x > 0 {
            if !self.read(Vec2 { x: pos.x - 1, y: pos.y }).same(&color) {
                return true;
            }
        }
        if pos.y + 1 < self.size.y {
            if !self.read(Vec2 { x: pos.x, y: pos.y + 1 }).same(&color) {
                return true;
            }
        }
        if pos.y > 0 {
            if !self.read(Vec2 { x: pos.x, y: pos.y - 1 }).same(&color) {
                return true;
            }
        }
        false
    }

    /// The word of marks that the colours call for in the tile at `block`.
    pub fn tile_diff(&self, block: Vec2<u32>) -> (word: BlockType)
        requires
            self.wf(),
            self.has_block(block.x as int, block.y as int),
        ensures
            forall|dx: int, dy: int|
                0 <= dx < BLOCK_SIZE && 0 <= dy < BLOCK_SIZE ==> (#[trigger] word.marked(dx, dy)
                    <==> self.differs(block.x * BLOCK_SIZE + dx, block.y * BLOCK_SIZE + dy)),
    {
        let mut word: BlockType = BlockType::empty();
        let mut dx: u32 = 0;
        while dx < BLOCK_SIZE
            invariant
                self.wf(),
                self.has_block(block.x as int, block.y as int),
                dx <= BLOCK_SIZE,
                forall|x: int, y: int|
                    0 <= x < BLOCK_SIZE && 0 <= y < BLOCK_SIZE ==> (#[trigger] word.marked(x, y)
                        <==> x < dx && self.differs(
                        block.x * BLOCK_SIZE + x,
                        block.y * BLOCK_SIZE + y,
                    )),
            decreases BLOCK_SIZE - dx,
        {
            let mut dy: u32 = 0;
            while dy < BLOCK_SIZE
                invariant
                    self.wf(),
                    self.has_block(block.x as int, block.y as int),
                    dx < BLOCK_SIZE,
                    dy <= BLOCK_SIZE,
                    forall|x: int, y: int|
                        0 <= x < BLOCK_SIZE && 0 <= y < BLOCK_SIZE ==> (#[trigger] word.marked(x, y)
                            <==> (x < dx || (x == dx && y < dy)) && self.differs(
                            block.x * BLOCK_SIZE + x,
                            block.y * BLOCK_SIZE + y,
                        )),
                decreases BLOCK_SIZE - dy,
            {
                proof {
                    lemma_tile_cell(
                        self.spec_size(),
                        block.x as int,
                        block.y as int,
                        dx as int,
                        dy as int,
                    );
                }
                let pos = Vec2 { x: block.x * BLOCK_SIZE + dx, y: block.y * BLOCK_SIZE + dy };
                if self.cell_differs(pos) {
                    BlockType::set(&mut word, Vec2 { x: dx, y: dy });
                }
                dy = dy + 1;
            }
            dx = dx + 1;
        }
        word
    }

    /// Whether `self` holds the same colours as `before`.
    pub open spec fn same_colors(&self, before: &Self) -> bool {
        &&& self.spec_size() == before.spec_size()
        &&& self.same_emission(before)
        &&& self.same_opacity(before)
    }

    /// Rebuilds the whole cache from the colours.
    ///
    /// Afterwards every cell's mark says whether the cell differs from an
    /// axis neighbour, and every tile's flag whether any of its cells does.
    /// The colours are not touched.
    pub fn compute_diff(&mut self)
        requires
            old(self).wf(),
        ensures
            final(self).wf(),
            final(self).same_colors(old(self)),
            final(self).cache_valid(),
    {
        let tiles = Vec2 { x: self.size.x / BLOCK_SIZE, y: self.size.y / BLOCK_SIZE };
        let mut by: u32 = 0;
        while by < tiles.y
            invariant
                self.wf(),
                self.size == old(self).size,
                self.emission == old(self).emission,
                self.opacity == old(self).opacity,
                tiles.x == self.size.x / BLOCK_SIZE,
                tiles.y == self.size.y / BLOCK_SIZE,
                by <= tiles.y,
                forall|tx: int, ty: int|
                    0 <= tx < tiles.x && 0 <= ty < by ==> #[trigger] self.tile_cached(tx, ty),
            decreases tiles.y - by,
        {
            let mut bx: u32 = 0;
            while bx < tiles.x
                invariant
                    self.wf(),
                    self.size == old(self).size,
                    self.emission == old(self).emission,
                    self.opacity == old(self).opacity,
                    tiles.x == self.size.x / BLOCK_SIZE,
                    tiles.y == self.size.y / BLOCK_SIZE,
                    by < tiles.y,
                    bx <= tiles.x,
                    forall|tx: int, ty: int|
                        0 <= tx < tiles.x && (0 <= ty < by || (ty == by && tx < bx))
                            ==> #[trigger] self.tile_cached(tx, ty),
                decreases tiles.x - bx,
            {
                let block = Vec2 { x: bx, y: by };
                let word = self.tile_diff(block);
                let flag = !BlockType::is_empty(word);
                let ghost before = *self;
                BlockType::write(&mut self.diff, block, word);
                self.diff_blocks.write(block, flag);
                proof {
                    BlockType::lemma_round_trip(word);
                    assert(self.block_at(bx as int, by as int) == word);
                    assert(self.block_flagged(bx as int, by as int) == flag);
                    assert forall|x: int, y: int| #[trigger] self.differs(x, y) == before.differs(
                        x,
                        y,
                    ) by {}
                    assert(self.tile_differs(bx as int, by as int) == flag) by {
                        if flag {
                            let (dx, dy) = choose|dx: int, dy: int|
                                0 <= dx < BLOCK_SIZE && 0 <= dy < BLOCK_SIZE && #[trigger] word.marked(
                                    dx,
                                    dy,
                                );
                            assert(self.differs(bx * BLOCK_SIZE + dx, by * BLOCK_SIZE + dy));
                        } else {
                            assert forall|dx: int, dy: int|
                                0 <= dx < BLOCK_SIZE && 0 <= dy < BLOCK_SIZE implies !#[trigger] self.differs(
                                bx * BLOCK_SIZE + dx,
                                by * BLOCK_SIZE + dy,
                            ) by {
                                assert(!word.marked(dx, dy));
                            }
                        }
                    }
                    assert(self.tile_cached(bx as int, by as int));
                    assert forall|tx: int, ty: int|
                        0 <= tx < tiles.x && (0 <= ty < by || (ty == by && tx < bx + 1))
                        implies #[trigger] self.tile_cached(tx, ty) by {
                        if !(tx == bx && ty == by) {
                            assert(before.tile_cached(tx, ty));
                            assert(self.block_at(tx, ty) == before.block_at(tx, ty));
                            assert(self.block_flagged(tx, ty) == before.block_flagged(tx, ty));
                            if self.tile_differs(tx, ty) {
                                let (dx, dy) = choose|dx: int, dy: int|
                                    0 <= dx < BLOCK_SIZE && 0 <= dy < BLOCK_SIZE
                                        && #[trigger] self.differs(
                                        tx * BLOCK_SIZE + dx,
                                        ty * BLOCK_SIZE + dy,
                                    );
                                assert(before.differs(tx * BLOCK_SIZE + dx, ty * BLOCK_SIZE + dy));
                            }
                            if before.tile_differs(tx, ty) {
                                let (dx, dy) = choose|dx: int, dy: int|
                                    0 <= dx < BLOCK_SIZE && 0 <= dy < BLOCK_SIZE
                                        && #[trigger] before.differs(
                                        tx * BLOCK_SIZE + dx,
                                        ty * BLOCK_SIZE + dy,
                                    );
                                assert(self.differs(tx * BLOCK_SIZE + dx, ty * BLOCK_SIZE + dy));
                            }
                        }
                    }
                }
                bx = bx + 1;
            }
            by = by + 1;
        }
    }

    /// Every cell of the scene lies in one of its tiles.
    pub proof fn lemma_cell_tile(&self, x: int, y: int)
        requires
            self.wf(),
            self.has_cell(x, y),
        ensures
            self.has_block(x / BLOCK_SIZE as int, y / BLOCK_SIZE as int),
    {
    }

    /// With a valid cache, the mark of a cell says whether the cell differs
    /// from a neighbour.
    pub proof fn lemma_cached_cell(&self, x: int, y: int)
        requires
            self.wf(),
            self.cache_valid(),
            self.has_cell(x, y),
        ensures
            self.cell_marked(x, y) <==> self.differs(x, y),
    {
        self.lemma_cell_tile(x, y);
        let bx = x / BLOCK_SIZE as int;
        let by = y / BLOCK_SIZE as int;
        let dx = x % BLOCK_SIZE as int;
        let dy = y % BLOCK_SIZE as int;
        assert(self.tile_cached(bx, by));
        assert(self.block_at(bx, by).marked(dx, dy) <==> self.differs(
            bx * BLOCK_SIZE + dx,
            by * BLOCK_SIZE + dy,
        ));
    }

    /// With a valid cache, a tile has a marked cell exactly when one of its
    /// cells differs from a neighbour, and its flag says so too.
    pub proof fn lemma_cached_tile(&self, bx: int, by: int)
        requires
            self.cache_valid(),
            self.has_block(bx, by),
        ensures
            self.block_flagged(bx, by) <==> self.tile_differs(bx, by),
            self.tile_differs(bx, by) <==> exists|dx: int, dy: int|
                0 <= dx < BLOCK_SIZE && 0 <= dy < BLOCK_SIZE && #[trigger] self.block_at(
                    bx,
                    by,
                ).marked(dx, dy),
    {
        assert(self.tile_cached(bx, by));
        if self.tile_differs(bx, by) {
            let (dx, dy) = choose|dx: int, dy: int|
                0 <= dx < BLOCK_SIZE && 0 <= dy < BLOCK_SIZE && #[trigger] self.differs(
                    bx * BLOCK_SIZE + dx,
                    by * BLOCK_SIZE + dy,
                );
            assert(self.block_at(bx, by).marked(dx, dy));
        }
        if exists|dx: int, dy: int|
            0 <= dx < BLOCK_SIZE && 0 <= dy < BLOCK_SIZE && #[trigger] self.block_at(bx, by).marked(
                dx,
                dy,
            ) {
            let (dx, dy) = choose|dx: int, dy: int|
                0 <= dx < BLOCK_SIZE && 0 <= dy < BLOCK_SIZE && #[trigger] self.block_at(
                    bx,
                    by,
                ).marked(dx, dy);
            assert(self.differs(bx * BLOCK_SIZE + dx, by * BLOCK_SIZE + dy));
        }
    }

    /// In a scene of one colour no cell differs from a neighbour, and no
    /// tile holds a cell that does.
    pub proof fn lemma_uniform(&self, color: Color)
        requires
            forall|x: int, y: int| self.has_cell(x, y) ==> #[trigger] self.color_at(x, y) == color,
        ensures
            forall|x: int, y: int| self.has_cell(x, y) ==> !#[trigger] self.differs(x, y),
            forall|bx: int, by: int| self.has_block(bx, by) ==> !#[trigger] self.tile_differs(bx, by),
    {
        assert forall|x: int, y: int| self.has_cell(x, y) implies !#[trigger] self.differs(x, y) by {
            assert(self.color_at(x, y) == color);
        }
        assert forall|bx: int, by: int| self.has_block(bx, by) implies !#[trigger] self.tile_differs(
            bx,
            by,
        ) by {
            assert forall|dx: int, dy: int|
                0 <= dx < BLOCK_SIZE && 0 <= dy < BLOCK_SIZE implies !#[trigger] self.differs(
                bx * BLOCK_SIZE + dx,
                by * BLOCK_SIZE + dy,
            ) by {
                lemma_tile_cell(self.spec_size(), bx, by, dx, dy);
            }
        }
    }

    /// In a scene of one colour a clear cache is the right one.
    pub proof fn lemma_uniform_cache(&self, color: Color)
        requires
            self.cache_clear(),
            forall|x: int, y: int| self.has_cell(x, y) ==> #[trigger] self.color_at(x, y) == color,
        ensures
            self.cache_valid(),
    {
        self.lemma_uniform(color);
        assert forall|bx: int, by: int| self.has_block(bx, by) implies #[trigger] self.tile_cached(
            bx,
            by,
        ) by {
            assert(self.block_at(bx, by) == 0);
            assert(!self.tile_differs(bx, by));
            assert forall|dx: int, dy: int| 0 <= dx < BLOCK_SIZE && 0 <= dy < BLOCK_SIZE implies (
            #[trigger] self.block_at(bx, by).marked(dx, dy) <==> self.differs(
                bx * BLOCK_SIZE + dx,
                by * BLOCK_SIZE + dy,
            )) by {
                lemma_zero_bits_u64((dx + dy * 8) as u64);
                lemma_tile_cell(self.spec_size(), bx, by, dx, dy);
            }
        }
    }
}

/// Cell `(dx, dy)` of tile `(bx, by)` is a cell of the scene, and dividing
/// its coordinates by the tile side gives the tile and the place in it back.
pub proof fn lemma_tile_cell(size: Vec2<u32>, bx: int, by: int, dx: int, dy: int)
    requires
        0 <= bx < size.x / BLOCK_SIZE,
        0 <= by < size.y / BLOCK_SIZE,
        0 <= dx < BLOCK_SIZE,
        0 <= dy < BLOCK_SIZE,
    ensures
        0 <= bx * BLOCK_SIZE + dx < size.x,
        0 <= by * BLOCK_SIZE + dy < size.y,
        (bx * BLOCK_SIZE + dx) / BLOCK_SIZE as int == bx,
        (by * BLOCK_SIZE + dy) / BLOCK_SIZE as int == by,
        (bx * BLOCK_SIZE + dx) % BLOCK_SIZE as int == dx,
        (by * BLOCK_SIZE + dy) % BLOCK_SIZE as int == dy,
{
}

} // verus!
