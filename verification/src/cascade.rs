//! Probe storage for a hierarchy of radiance cascades.
//!
//! A cascade is one level of the hierarchy. Each level halves the spatial
//! resolution of the one below it and multiplies its angular resolution, so
//! that every level needs no more room than the base level does. All levels
//! share one flat buffer of brightness samples, level after level.

use vstd::prelude::*;
use vstd::arithmetic::power2::{lemma_pow2_adds, lemma_pow2_pos, lemma_pow2_strictly_increases, pow2};
use vstd::bits::{lemma_u32_shl_is_mul, lemma_u32_shr_is_div};

use crate::grid::{lemma_offset_in_range, lemma_offset_injective};
use crate::vector::Vec2;

verus! {

/// Why a cascade storage could not be built.
#[derive(Clone, Copy, Debug, PartialEq, Eq)]
pub enum StorageError {
    /// The hierarchy has no level.
    NoCascades,
    /// The base level has no angular bucket.
    NoAngles,
    /// The angular resolution grows faster than the spatial one shrinks.
    ScaleTooSteep,
    /// The base grid cannot be halved once per further level.
    TooFewProbes,
    /// The samples cannot be indexed by a 32-bit offset.
    TooLarge,
}

/// The fixed shape of a cascade hierarchy.
#[derive(Clone, Copy, Debug, PartialEq, Eq)]
pub struct Layout {
    /// Probes along each axis at level zero.
    pub base_size: Vec2<u32>,
    /// Angular buckets per probe at level zero.
    pub base_angles: u32,
    /// Binary logarithm of the growth in angular buckets per level.
    pub angular_scale: u32,
    /// Number of levels.
    pub num_cascades: u32,
}

impl Layout {
    /// Samples that one level has room for.
    pub open spec fn spec_cascade_size(&self) -> int {
        self.base_size.x * self.base_size.y * self.base_angles
    }

    /// Probe columns at level `cascade`.
    pub open spec fn cols_at(&self, cascade: int) -> int {
        self.base_size.x as int / pow2(cascade as nat) as int
    }

    /// Probe rows at level `cascade`.
    pub open spec fn rows_at(&self, cascade: int) -> int {
        self.base_size.y as int / pow2(cascade as nat) as int
    }

    /// Angular buckets per probe at level `cascade`.
    pub open spec fn angles_at(&self, cascade: int) -> int {
        self.base_angles * pow2((cascade * self.angular_scale) as nat)
    }

    /// The first problem with this shape, if it has one.
    pub open spec fn error(&self) -> Option<StorageError> {
        if self.num_cascades == 0 {
            Some(StorageError::NoCascades)
        } else if self.base_angles == 0 {
            Some(StorageError::NoAngles)
        } else if self.angular_scale > 2 {
            Some(StorageError::ScaleTooSteep)
        } else if self.num_cascades > 32 || self.cols_at(self.num_cascades - 1) == 0
            || self.rows_at(self.num_cascades - 1) == 0 {
            Some(StorageError::TooFewProbes)
        } else if self.num_cascades * self.spec_cascade_size() > u32::MAX {
            Some(StorageError::TooLarge)
        } else {
            None
        }
    }

    /// The shape is one that a storage can have.
    pub open spec fn wf(&self) -> bool {
        self.error() is None
    }

    /// A level of the hierarchy and an angular bucket of that level.
    pub open spec fn valid(&self, cascade: int, angle: int) -> bool {
        0 <= cascade < self.num_cascades && 0 <= angle < self.angles_at(cascade)
    }

    /// The probe that stands for `pos` at level `cascade`: `pos` itself, or
    /// the nearest probe of the level when `pos` lies beyond its last one.
    pub open spec fn clamped(&self, cascade: int, pos: Vec2<u32>) -> (int, int) {
        (
            if pos.x < self.cols_at(cascade) {
                pos.x as int
            } else {
                self.cols_at(cascade) - 1
            },
            if pos.y < self.rows_at(cascade) {
                pos.y as int
            } else {
                self.rows_at(cascade) - 1
            },
        )
    }

    /// The flat offset of a sample: the level's base offset, then column by
    /// column, row by row, bucket by bucket.
    pub open spec fn spec_index(&self, cascade: int, pos: Vec2<u32>, angle: int) -> int {
        let (x, y) = self.clamped(cascade, pos);
        cascade * self.spec_cascade_size() + x * (self.rows_at(cascade) * self.angles_at(cascade)) + y
            * self.angles_at(cascade) + angle
    }

    /// Every level has at least one probe and fits the room of one level.
    pub proof fn lemma_level_fits(&self, cascade: int)
        requires
            self.wf(),
            0 <= cascade < self.num_cascades,
        ensures
            1 <= self.cols_at(cascade) <= self.base_size.x,
            1 <= self.rows_at(cascade) <= self.base_size.y,
            1 <= self.angles_at(cascade),
            self.cols_at(cascade) * self.rows_at(cascade) * self.angles_at(cascade)
                <= self.spec_cascade_size(),
            self.rows_at(cascade) * self.angles_at(cascade) <= self.spec_cascade_size(),
            self.angles_at(cascade) <= self.spec_cascade_size(),
            self.spec_cascade_size() <= u32::MAX,
            self.num_cascades * self.spec_cascade_size() <= u32::MAX,
            cascade * self.angular_scale < 32,
    {
        let last = (self.num_cascades - 1) as nat;
        let c = cascade as nat;
        let p = pow2(c) as int;
        let q = pow2((cascade * self.angular_scale) as nat) as int;
        let sx = self.base_size.x as int;
        let sy = self.base_size.y as int;
        let a = self.base_angles as int;
        let cols = sx / p;
        let rows = sy / p;
        lemma_pow2_pos(c);
        lemma_pow2_pos(last);
        lemma_pow2_pos((cascade * self.angular_scale) as nat);
        if c < last {
            lemma_pow2_strictly_increases(c, last);
        }
        let pl = pow2(last) as int;
        assert(sx >= pl && sy >= pl) by {
            if sx < pl {
                vstd::arithmetic::div_mod::lemma_basic_div(sx, pl);
            }
            if sy < pl {
                vstd::arithmetic::div_mod::lemma_basic_div(sy, pl);
            }
        }
        assert(cols >= 1 && cols * p <= sx && cols <= sx) by {
            vstd::arithmetic::div_mod::lemma_fundamental_div_mod(sx, p);
            vstd::arithmetic::div_mod::lemma_div_non_zero(sx, p);
            vstd::arithmetic::div_mod::lemma_div_is_ordered_by_denominator(sx, 1, p);
            assert(p * cols == cols * p) by (nonlinear_arith);
        }
        assert(rows >= 1 && rows * p <= sy && rows <= sy) by {
            vstd::arithmetic::div_mod::lemma_fundamental_div_mod(sy, p);
            vstd::arithmetic::div_mod::lemma_div_non_zero(sy, p);
            vstd::arithmetic::div_mod::lemma_div_is_ordered_by_denominator(sy, 1, p);
            assert(p * rows == rows * p) by (nonlinear_arith);
        }
        assert(cascade * self.angular_scale <= cascade + cascade) by (nonlinear_arith)
            requires
                0 <= cascade,
                0 <= self.angular_scale <= 2,
        ;
        assert(q <= p * p) by {
            lemma_pow2_adds(c, c);
            if cascade * self.angular_scale < cascade + cascade {
                lemma_pow2_strictly_increases((cascade * self.angular_scale) as nat, c + c);
            }
        }
        assert(cols * rows * (a * q) <= sx * sy * a) by (nonlinear_arith)
            requires
                1 <= cols,
                1 <= rows,
                1 <= a,
                1 <= q <= p * p,
                cols * p <= sx,
                rows * p <= sy,
                1 <= p,
        {
            assert(cols * rows * (a * q) <= cols * rows * (a * (p * p)));
            assert(cols * rows * (a * (p * p)) == (cols * p) * (rows * p) * a);
            assert((cols * p) * (rows * p) <= sx * sy);
        }
        assert(self.spec_cascade_size() <= self.num_cascades * self.spec_cascade_size()) by (nonlinear_arith)
            requires
                self.num_cascades >= 1,
                self.spec_cascade_size() >= 0,
        ;
        assert(self.spec_cascade_size() >= 0) by (nonlinear_arith)
            requires
                self.spec_cascade_size() == sx * sy * a,
                sx >= 0,
                sy >= 0,
                a >= 0,
        ;
        assert(a * q >= 1 && q <= a * q) by (nonlinear_arith)
            requires
                a >= 1,
                q >= 1,
        ;
        assert(a * q <= rows * (a * q) <= cols * rows * (a * q)) by (nonlinear_arith)
            requires
                cols >= 1,
                rows >= 1,
                a * q >= 1,
        ;
        if cascade * self.angular_scale >= 32 {
            vstd::arithmetic::power2::lemma2_to64();
            if cascade * self.angular_scale > 32 {
                lemma_pow2_strictly_increases(32, (cascade * self.angular_scale) as nat);
            }
        }
    }

    /// The offset of a valid sample lies in the stretch of the buffer that
    /// belongs to its level.
    pub proof fn lemma_index_in_level(&self, cascade: int, pos: Vec2<u32>, angle: int)
        requires
            self.wf(),
            self.valid(cascade, angle),
        ensures
            cascade * self.spec_cascade_size() <= self.spec_index(cascade, pos, angle) < (cascade + 1)
                * self.spec_cascade_size(),
            0 <= self.spec_index(cascade, pos, angle) < self.num_cascades * self.spec_cascade_size(),
    {
        self.lemma_level_fits(cascade);
        let (x, y) = self.clamped(cascade, pos);
        let rows = self.rows_at(cascade);
        let cols = self.cols_at(cascade);
        let angles = self.angles_at(cascade);
        let size = self.spec_cascade_size();
        lemma_offset_in_range(angle, y, angles, rows);
        lemma_offset_in_range(y * angles + angle, x, rows * angles, cols);
        assert(cols * (rows * angles) == cols * rows * angles) by (nonlinear_arith);
        assert((cascade + 1) * size == cascade * size + size) by (nonlinear_arith);
        assert((cascade + 1) * size <= self.num_cascades * size) by (nonlinear_arith)
            requires
                cascade + 1 <= self.num_cascades,
                size >= 0,
        ;
        assert(0 <= cascade * size) by (nonlinear_arith)
            requires
                cascade >= 0,
                size >= 0,
        ;
    }

    /// Within one level, two valid samples share an offset only if they
    /// belong to the same probe and the same bucket.
    pub proof fn lemma_index_injective(
        &self,
        cascade: int,
        pos: Vec2<u32>,
        angle: int,
        other_pos: Vec2<u32>,
        other_angle: int,
    )
        requires
            self.wf(),
            self.valid(cascade, angle),
            self.valid(cascade, other_angle),
            self.spec_index(cascade, pos, angle) == self.spec_index(cascade, other_pos, other_angle),
        ensures
            self.clamped(cascade, pos) == self.clamped(cascade, other_pos),
            angle == other_angle,
    {
        self.lemma_level_fits(cascade);
        let (x, y) = self.clamped(cascade, pos);
        let (u, v) = self.clamped(cascade, other_pos);
        let rows = self.rows_at(cascade);
        let angles = self.angles_at(cascade);
        lemma_offset_in_range(angle, y, angles, rows);
        lemma_offset_in_range(other_angle, v, angles, rows);
        lemma_offset_injective(
            y * angles + angle,
            x,
            v * angles + other_angle,
            u,
            rows * angles,
        );
        lemma_offset_injective(angle, y, other_angle, v, angles);
    }

    /// Valid samples of different levels never share an offset.
    pub proof fn lemma_levels_disjoint(
        &self,
        cascade: int,
        pos: Vec2<u32>,
        angle: int,
        other_cascade: int,
        other_pos: Vec2<u32>,
        other_angle: int,
    )
        requires
            self.wf(),
            self.valid(cascade, angle),
            self.valid(other_cascade, other_angle),
            cascade != other_cascade,
        ensures
            self.spec_index(cascade, pos, angle) != self.spec_index(other_cascade, other_pos, other_angle),
    {
        self.lemma_index_in_level(cascade, pos, angle);
        self.lemma_index_in_level(other_cascade, other_pos, other_angle);
        let size = self.spec_cascade_size();
        if cascade < other_cascade {
            assert((cascade + 1) * size <= other_cascade * size) by (nonlinear_arith)
                requires
                    cascade + 1 <= other_cascade,
                    size >= 0,
            ;
        } else {
            assert((other_cascade + 1) * size <= cascade * size) by (nonlinear_arith)
                requires
                    other_cascade + 1 <= cascade,
                    size >= 0,
            ;
        }
    }
}

impl Layout {
    /// Checks the shape, reporting the first problem found.
    pub fn validate(&self) -> (checked: Result<(), StorageError>)
        ensures
            checked is Ok <==> self.wf(),
            checked matches Err(e) ==> self.error() == Some(e),
    {
        if self.num_cascades == 0 {
            return Err(StorageError::NoCascades);
        }
        if self.base_angles == 0 {
            return Err(StorageError::NoAngles);
        }
        if self.angular_scale > 2 {
            return Err(StorageError::ScaleTooSteep);
        }
        if self.num_cascades > 32 {
            return Err(StorageError::TooFewProbes);
        }
        let last: u32 = self.num_cascades - 1;
        proof {
            lemma_u32_shr_is_div(self.base_size.x, last);
            lemma_u32_shr_is_div(self.base_size.y, last);
        }
        if (self.base_size.x >> last) == 0 || (self.base_size.y >> last) == 0 {
            return Err(StorageError::TooFewProbes);
        }
        let sx = self.base_size.x as u64;
        let sy = self.base_size.y as u64;
        let a = self.base_angles as u64;
        let n = self.num_cascades as u64;
        assert(sx * sy <= u64::MAX) by (nonlinear_arith)
            requires
                sx <= u32::MAX,
                sy <= u32::MAX,
        ;
        let cells: u64 = sx * sy;
        let size = match cells.checked_mul(a) {
            Some(size) => size,
            None => {
                assert(n * (sx * sy * a) > u32::MAX) by (nonlinear_arith)
                    requires
                        n >= 1,
                        sx * sy * a > u64::MAX,
                ;
                return Err(StorageError::TooLarge);
            },
        };
        let total = match size.checked_mul(n) {
            Some(total) => total,
            None => {
                assert(n * (sx * sy * a) > u32::MAX) by (nonlinear_arith)
                    requires
                        (sx * sy * a) * n > u64::MAX,
                ;
                return Err(StorageError::TooLarge);
            },
        };
        assert(total == n * (sx * sy * a)) by (nonlinear_arith)
            requires
                total == (sx * sy * a) * n,
        ;
        if total > u32::MAX as u64 {
            return Err(StorageError::TooLarge);
        }
        Ok(())
    }

    /// Samples that one level has room for.
    pub fn cascade_size(&self) -> (size: u32)
        requires
            self.wf(),
        ensures
            size == self.spec_cascade_size(),
    {
        proof {
            self.lemma_level_fits(0);
            let sx = self.base_size.x as int;
            let sy = self.base_size.y as int;
            let a = self.base_angles as int;
            assert(0 <= sx * sy <= sx * sy * a) by (nonlinear_arith)
                requires
                    sx >= 0,
                    sy >= 0,
                    a >= 1,
            ;
        }
        self.base_size.x * self.base_size.y * self.base_angles
    }

    /// Angular buckets per probe at level `cascade`.
    pub fn angles(&self, cascade: u32) -> (angles: u32)
        requires
            self.wf(),
            cascade < self.num_cascades,
        ensures
            angles == self.angles_at(cascade as int),
    {
        proof {
            self.lemma_level_fits(cascade as int);
            assert(cascade * self.angular_scale <= 31 * 2) by (nonlinear_arith)
                requires
                    cascade <= 31,
                    self.angular_scale <= 2,
            ;
        }
        let shift: u32 = cascade * self.angular_scale;
        proof {
            lemma_u32_shl_is_mul(self.base_angles, shift);
        }
        self.base_angles << shift
    }

    /// The last probe of level `cascade` along each axis.
    pub fn extent(&self, cascade: u32) -> (last: Vec2<u32>)
        requires
            self.wf(),
            cascade < self.num_cascades,
        ensures
            last.x == self.cols_at(cascade as int) - 1,
            last.y == self.rows_at(cascade as int) - 1,
    {
        proof {
            self.lemma_level_fits(cascade as int);
            lemma_u32_shr_is_div(self.base_size.x, cascade);
            lemma_u32_shr_is_div(self.base_size.y, cascade);
        }
        Vec2 { x: (self.base_size.x >> cascade) - 1, y: (self.base_size.y >> cascade) - 1 }
    }

    /// The flat offset of the sample for bucket `angle` of the probe that
    /// stands for `pos` at level `cascade`.
    pub fn index(&self, cascade: u32, pos: Vec2<u32>, angle: u32) -> (offset: u32)
        requires
            self.wf(),
            self.valid(cascade as int, angle as int),
        ensures
            offset == self.spec_index(cascade as int, pos, angle as int),
            offset < self.num_cascades * self.spec_cascade_size(),
    {
        let last = self.extent(cascade);
        let x = if pos.x < last.x {
            pos.x
        } else {
            last.x
        };
        let y = if pos.y < last.y {
            pos.y
        } else {
            last.y
        };
        let angles = self.angles(cascade);
        let size = self.cascade_size();
        proof {
            self.lemma_level_fits(cascade as int);
            self.lemma_index_in_level(cascade as int, pos, angle as int);
            lemma_u32_shr_is_div(self.base_size.y, cascade);
            let rows = self.rows_at(cascade as int);
            assert(0 <= x * (rows * angles)) by (nonlinear_arith)
                requires
                    x >= 0,
                    rows >= 0,
                    angles >= 0,
            ;
            assert(0 <= y * angles) by (nonlinear_arith)
                requires
                    y >= 0,
                    angles >= 0,
            ;
            assert(0 <= cascade * size) by (nonlinear_arith)
                requires
                    cascade >= 0,
                    size >= 0,
            ;
        }
        let stride: u32 = (self.base_size.y >> cascade) * angles;
        cascade * size + x * stride + y * angles + angle
    }
}

/// The four probes around a fractional probe position whose whole part is
/// `cell`: the cell itself, its neighbour along x, its neighbour along y,
/// and the one diagonally across. Coordinates wrap at the end of the range.
pub fn bilinear(cell: Vec2<u32>) -> (taps: [Vec2<u32>; 4])
    ensures
        taps[0] == cell,
        taps[1] == (Vec2 { x: vstd::wrapping::u32_specs::wrapping_add(cell.x, 1), y: cell.y }),
        taps[2] == (Vec2 { x: cell.x, y: vstd::wrapping::u32_specs::wrapping_add(cell.y, 1) }),
        taps[3] == (Vec2 {
            x: vstd::wrapping::u32_specs::wrapping_add(cell.x, 1),
            y: vstd::wrapping::u32_specs::wrapping_add(cell.y, 1),
        }),
{
    let right = cell.x.wrapping_add(1);
    let below = cell.y.wrapping_add(1);
    [
        cell,
        Vec2 { x: right, y: cell.y },
        Vec2 { x: cell.x, y: below },
        Vec2 { x: right, y: below },
    ]
}

/// The brightness samples of every probe of every level, with the shape
/// that says where each one lies.
pub struct CascadeStorage {
    data: Vec<u32>,
    layout: Layout,
    base_spacing: u32,
}

impl CascadeStorage {
    /// The shape is sound and the buffer has room for every level.
    pub closed spec fn wf(&self) -> bool {
        &&& self.layout.wf()
        &&& self.data@.len() == self.layout.num_cascades * self.layout.spec_cascade_size()
    }

    /// The shape of the hierarchy.
    pub closed spec fn spec_layout(&self) -> Layout {
        self.layout
    }

    /// The distance between neighbouring probes of level zero, as a
    /// binary32 bit pattern.
    pub closed spec fn spec_base_spacing(&self) -> u32 {
        self.base_spacing
    }

    /// All samples, in buffer order.
    pub closed spec fn samples(&self) -> Seq<u32> {
        self.data@
    }

    /// Builds a storage of the given shape in which every sample is `fill`.
    pub fn new(layout: Layout, base_spacing: u32, fill: u32) -> (storage: Result<
        Self,
        StorageError,
    >)
        ensures
            storage is Ok <==> layout.wf(),
            storage matches Err(e) ==> layout.error() == Some(e),
            storage matches Ok(s) ==> {
                &&& s.wf()
                &&& s.spec_layout() == layout
                &&& s.spec_base_spacing() == base_spacing
                &&& s.samples().len() == layout.num_cascades * layout.spec_cascade_size()
                &&& forall|i: int| 0 <= i < s.samples().len() ==> s.samples()[i] == fill
            },
    {
        match layout.validate() {
            Err(e) => {
                return Err(e);
            },
            Ok(()) => {},
        }
        let size = layout.cascade_size();
        proof {
            layout.lemma_level_fits(0);
        }
        let total: u32 = layout.num_cascades * size;
        let mut data: Vec<u32> = Vec::new();
        let mut filled: u32 = 0;
        while filled < total
            invariant
                filled <= total,
                data@.len() == filled,
                forall|i: int| 0 <= i < filled ==> data@[i] == fill,
            decreases total - filled,
        {
            data.push(fill);
            filled = filled + 1;
        }
        Ok(CascadeStorage { data, layout, base_spacing })
    }

    /// The shape of the hierarchy.
    pub fn layout(&self) -> (layout: Layout)
        ensures
            layout == self.spec_layout(),
    {
        self.layout
    }

    /// The distance between neighbouring probes of level zero, as a
    /// binary32 bit pattern.
    pub fn base_spacing(&self) -> (spacing: u32)
        ensures
            spacing == self.spec_base_spacing(),
    {
        self.base_spacing
    }

    /// Samples that one level has room for.
    pub fn cascade_size(&self) -> (size: u32)
        requires
            self.wf(),
        ensures
            size == self.spec_layout().spec_cascade_size(),
    {
        self.layout.cascade_size()
    }

    /// The flat offset of the sample for bucket `angle` of the probe that
    /// stands for `pos` at level `cascade`.
    pub fn index(&self, cascade: u32, pos: Vec2<u32>, angle: u32) -> (offset: u32)
        requires
            self.wf(),
            self.spec_layout().valid(cascade as int, angle as int),
        ensures
            offset == self.spec_layout().spec_index(cascade as int, pos, angle as int),
            offset < self.samples().len(),
    {
        self.layout.index(cascade, pos, angle)
    }

    /// The number of samples.
    pub fn len(&self) -> (len: usize)
        ensures
            len == self.samples().len(),
    {
        self.data.len()
    }

    /// The sample at a flat offset.
    pub fn read(&self, offset: u32) -> (value: u32)
        requires
            offset < self.samples().len(),
        ensures
            value == self.samples()[offset as int],
    {
        self.data[offset as usize]
    }

    /// Replaces the sample at a flat offset, leaving every other as it was.
    pub fn write(&mut self, offset: u32, value: u32)
        requires
            offset < old(self).samples().len(),
        ensures
            final(self).samples() == old(self).samples().update(offset as int, value),
            final(self).spec_layout() == old(self).spec_layout(),
            final(self).spec_base_spacing() == old(self).spec_base_spacing(),
            old(self).wf() ==> final(self).wf(),
    {
        self.data.set(offset as usize, value);
    }

    /// The sample for bucket `angle` of the probe that stands for `pos` at
    /// level `cascade`.
    pub fn get(&self, cascade: u32, pos: Vec2<u32>, angle: u32) -> (value: u32)
        requires
            self.wf(),
            self.spec_layout().valid(cascade as int, angle as int),
        ensures
            value == self.samples()[self.spec_layout().spec_index(
                cascade as int,
                pos,
                angle as int,
            )],
    {
        let offset = self.index(cascade, pos, angle);
        self.read(offset)
    }

    /// Replaces the sample for bucket `angle` of the probe that stands for
    /// `pos` at level `cascade`, leaving every other sample as it was.
    pub fn put(&mut self, cascade: u32, pos: Vec2<u32>, angle: u32, value: u32)
        requires
            old(self).wf(),
            old(self).spec_layout().valid(cascade as int, angle as int),
        ensures
            final(self).wf(),
            final(self).spec_layout() == old(self).spec_layout(),
            final(self).spec_base_spacing() == old(self).spec_base_spacing(),
            final(self).samples() == old(self).samples().update(
                old(self).spec_layout().spec_index(cascade as int, pos, angle as int),
                value,
            ),
    {
        let offset = self.index(cascade, pos, angle);
        self.write(offset, value);
    }
}

} // verus!
