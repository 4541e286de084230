//! Axis-aligned bounding boxes over order keys, and their union.
use vstd::prelude::*;
use crate::axis::Axis;
use crate::key::{INFINITY_KEY, NEG_INFINITY_KEY, ZERO_KEY, is_nan_key, merge_zeros, nan_key, zero_as_one};

verus! {

/// A point whose coordinates are order keys (see `key`).
#[derive(Clone, Copy, Debug, PartialEq, Eq, Structural)]
pub struct KeyPoint {
    pub x: u64,
    pub y: u64,
    pub z: u64,
}

impl KeyPoint {
    pub fn new(x: u64, y: u64, z: u64) -> (r: KeyPoint)
        ensures
            r == (KeyPoint { x, y, z }),
    {
        KeyPoint { x, y, z }
    }

    pub open spec fn spec_coord(self, a: Axis) -> u64 {
        match a {
            Axis::X => self.x,
            Axis::Y => self.y,
            Axis::Z => self.z,
        }
    }

    /// The coordinate along axis `a`.
    pub fn coord(&self, a: Axis) -> (r: u64)
        ensures
            r == self.spec_coord(a),
    {
        match a {
            Axis::X => self.x,
            Axis::Y => self.y,
            Axis::Z => self.z,
        }
    }
}

pub open spec fn min_u64(a: u64, b: u64) -> u64 {
    if a <= b { a } else { b }
}

pub open spec fn max_u64(a: u64, b: u64) -> u64 {
    if a >= b { a } else { b }
}

/// A box given by its minimum and maximum corners.
#[derive(Clone, Copy, Debug, PartialEq, Eq, Structural)]
pub struct AABB {
    pub minimum: KeyPoint,
    pub maximum: KeyPoint,
}

impl AABB {
    pub fn new(minimum: KeyPoint, maximum: KeyPoint) -> (r: AABB)
        ensures
            r == (AABB { minimum, maximum }),
    {
        AABB { minimum, maximum }
    }

    /// The minimum corner lies at or below the maximum corner on every axis
    /// (a box of zero thickness along an axis is allowed).
    pub open spec fn wf(self) -> bool {
        forall|a: Axis| self.minimum.spec_coord(a) <= #[trigger] self.maximum.spec_coord(a)
    }

    /// `inner` lies within `self` on every axis.
    pub open spec fn encloses(self, inner: AABB) -> bool {
        forall|a: Axis|
            self.minimum.spec_coord(a) <= #[trigger] inner.minimum.spec_coord(a)
                && inner.maximum.spec_coord(a) <= self.maximum.spec_coord(a)
    }

    /// Whether the corners are ordered on every axis.
    pub fn is_valid(&self) -> (r: bool)
        ensures
            r == self.wf(),
    {
        proof {
            assert(self.wf() <==> (self.minimum.spec_coord(Axis::X) <= self.maximum.spec_coord(Axis::X)
                && self.minimum.spec_coord(Axis::Y) <= self.maximum.spec_coord(Axis::Y)
                && self.minimum.spec_coord(Axis::Z) <= self.maximum.spec_coord(Axis::Z)));
        }
        self.minimum.x <= self.maximum.x && self.minimum.y <= self.maximum.y
            && self.minimum.z <= self.maximum.z
    }
}

/// The smaller of two coordinates; a NaN is dropped, as `f64::min` drops
/// it (of two NaNs, the lower key stays).
pub open spec fn min_coord_key(a: u64, b: u64) -> u64 {
    if is_nan_key(a) && !is_nan_key(b) {
        b
    } else if is_nan_key(b) && !is_nan_key(a) {
        a
    } else {
        min_u64(a, b)
    }
}

/// The larger of two coordinates; a NaN is dropped, as `f64::max` drops it.
pub open spec fn max_coord_key(a: u64, b: u64) -> u64 {
    if is_nan_key(a) && !is_nan_key(b) {
        b
    } else if is_nan_key(b) && !is_nan_key(a) {
        a
    } else {
        max_u64(a, b)
    }
}

impl AABB {
    /// No coordinate of the box is a NaN.
    pub open spec fn no_nan(self) -> bool {
        &&& !is_nan_key(self.minimum.x) && !is_nan_key(self.minimum.y) && !is_nan_key(self.minimum.z)
        &&& !is_nan_key(self.maximum.x) && !is_nan_key(self.maximum.y) && !is_nan_key(self.maximum.z)
    }
}

/// The smallest box that holds both boxes: per axis the smaller minimum and
/// the larger maximum.
pub open spec fn spec_surrounding_box(box0: AABB, box1: AABB) -> AABB {
    AABB {
        minimum: KeyPoint {
            x: min_coord_key(box0.minimum.x, box1.minimum.x),
            y: min_coord_key(box0.minimum.y, box1.minimum.y),
            z: min_coord_key(box0.minimum.z, box1.minimum.z),
        },
        maximum: KeyPoint {
            x: max_coord_key(box0.maximum.x, box1.maximum.x),
            y: max_coord_key(box0.maximum.y, box1.maximum.y),
            z: max_coord_key(box0.maximum.z, box1.maximum.z),
        },
    }
}

fn min_key(a: u64, b: u64) -> (r: u64)
    ensures
        r == min_u64(a, b),
{
    if a <= b { a } else { b }
}

fn max_key(a: u64, b: u64) -> (r: u64)
    ensures
        r == max_u64(a, b),
{
    if a >= b { a } else { b }
}

fn min_coord(a: u64, b: u64) -> (r: u64)
    ensures
        r == min_coord_key(a, b),
{
    let a_nan = nan_key(a);
    let b_nan = nan_key(b);
    if a_nan && !b_nan {
        b
    } else if b_nan && !a_nan {
        a
    } else {
        min_key(a, b)
    }
}

fn max_coord(a: u64, b: u64) -> (r: u64)
    ensures
        r == max_coord_key(a, b),
{
    let a_nan = nan_key(a);
    let b_nan = nan_key(b);
    if a_nan && !b_nan {
        b
    } else if b_nan && !a_nan {
        a
    } else {
        max_key(a, b)
    }
}

/// The union of two boxes.
pub fn surrounding_box(box0: AABB, box1: AABB) -> (r: AABB)
    ensures
        r == spec_surrounding_box(box0, box1),
{
    let small = KeyPoint::new(
        min_coord(box0.minimum.x, box1.minimum.x),
        min_coord(box0.minimum.y, box1.minimum.y),
        min_coord(box0.minimum.z, box1.minimum.z),
    );
    let big = KeyPoint::new(
        max_coord(box0.maximum.x, box1.maximum.x),
        max_coord(box0.maximum.y, box1.maximum.y),
        max_coord(box0.maximum.z, box1.maximum.z),
    );
    AABB::new(small, big)
}

/// The union does not depend on the order of the boxes. Where neither box
/// has a NaN coordinate, the union has none, encloses both boxes, and is
/// well formed when they are.
pub proof fn lemma_surrounding_box(box0: AABB, box1: AABB)
    ensures
        spec_surrounding_box(box0, box1) == spec_surrounding_box(box1, box0),
        box0.no_nan() && box1.no_nan() ==> {
            &&& spec_surrounding_box(box0, box1).no_nan()
            &&& spec_surrounding_box(box0, box1).encloses(box0)
            &&& spec_surrounding_box(box0, box1).encloses(box1)
            &&& box0.wf() && box1.wf() ==> spec_surrounding_box(box0, box1).wf()
        },
{
    let u = spec_surrounding_box(box0, box1);
    if box0.no_nan() && box1.no_nan() {
        assert forall|a: Axis| #![auto]
            u.minimum.spec_coord(a) <= box0.minimum.spec_coord(a)
                && box0.maximum.spec_coord(a) <= u.maximum.spec_coord(a)
                && u.minimum.spec_coord(a) <= box1.minimum.spec_coord(a)
                && box1.maximum.spec_coord(a) <= u.maximum.spec_coord(a)
                && !is_nan_key(u.minimum.spec_coord(a)) && !is_nan_key(u.maximum.spec_coord(a)) by {
            match a {
                Axis::X => {},
                Axis::Y => {},
                Axis::Z => {},
            }
        }
        if box0.wf() && box1.wf() {
            assert forall|a: Axis| u.minimum.spec_coord(a) <= #[trigger] u.maximum.spec_coord(a) by {
                assert(box0.minimum.spec_coord(a) <= box0.maximum.spec_coord(a));
                assert(u.minimum.spec_coord(a) <= box0.minimum.spec_coord(a));
                assert(box0.maximum.spec_coord(a) <= u.maximum.spec_coord(a));
            }
        }
    }
}

/// Enclosure is transitive.
pub proof fn lemma_encloses_trans(a: AABB, b: AABB, c: AABB)
    requires
        a.encloses(b),
        b.encloses(c),
    ensures
        a.encloses(c),
{
    assert forall|x: Axis|
        a.minimum.spec_coord(x) <= #[trigger] c.minimum.spec_coord(x)
            && c.maximum.spec_coord(x) <= a.maximum.spec_coord(x) by {
        assert(a.minimum.spec_coord(x) <= b.minimum.spec_coord(x));
        assert(b.minimum.spec_coord(x) <= c.minimum.spec_coord(x));
    }
}

/// The nearer end of a slab: the pair of distances at which the ray
/// crosses the box's two planes on one axis, in either order. A NaN
/// distance is dropped, as `f64::min` drops it; a slab of two NaNs
/// imposes nothing, its nearer end being the lowest key. `-0.0` is taken
/// as `+0.0`.
pub open spec fn slab_near(s: (u64, u64)) -> u64 {
    if is_nan_key(s.0) && is_nan_key(s.1) {
        0
    } else if is_nan_key(s.0) {
        zero_as_one(s.1)
    } else if is_nan_key(s.1) {
        zero_as_one(s.0)
    } else {
        min_u64(zero_as_one(s.0), zero_as_one(s.1))
    }
}

/// The farther end of a slab, NaNs dropped and zeros merged in the same
/// way; a slab of two NaNs has the highest key as its farther end.
pub open spec fn slab_far(s: (u64, u64)) -> u64 {
    if is_nan_key(s.0) && is_nan_key(s.1) {
        u64::MAX
    } else if is_nan_key(s.0) {
        zero_as_one(s.1)
    } else if is_nan_key(s.1) {
        zero_as_one(s.0)
    } else {
        max_u64(zero_as_one(s.0), zero_as_one(s.1))
    }
}

/// The lower end of the search interval as the narrowing starts from it:
/// a NaN is dropped (as `f64::max` drops it) and `-0.0` is `+0.0`.
pub open spec fn lower_end(t_min: u64) -> u64 {
    if is_nan_key(t_min) { 0 } else { zero_as_one(t_min) }
}

/// The upper end of the search interval, likewise.
pub open spec fn upper_end(t_max: u64) -> u64 {
    if is_nan_key(t_max) { u64::MAX } else { zero_as_one(t_max) }
}

/// The lower end of `[t_min, t_max]` narrowed by the three slabs.
pub open spec fn narrowed_lo(slabs: [(u64, u64); 3], t_min: u64) -> u64 {
    max_u64(max_u64(max_u64(lower_end(t_min), slab_near(slabs[0])), slab_near(slabs[1])), slab_near(slabs[2]))
}

/// The upper end of `[t_min, t_max]` narrowed by the three slabs.
pub open spec fn narrowed_hi(slabs: [(u64, u64); 3], t_max: u64) -> u64 {
    min_u64(min_u64(min_u64(upper_end(t_max), slab_far(slabs[0])), slab_far(slabs[1])), slab_far(slabs[2]))
}

/// The narrowed interval holds a point at a finite distance: it is not
/// empty, its lower end is below `+inf` and its upper end above `-inf`.
/// A closed interval of one point is not empty, so a box of zero
/// thickness along an axis still meets a ray that crosses its plane.
pub open spec fn slabs_meet(slabs: [(u64, u64); 3], t_min: u64, t_max: u64) -> bool {
    let lo = narrowed_lo(slabs, t_min);
    let hi = narrowed_hi(slabs, t_max);
    lo <= hi && lo < INFINITY_KEY && NEG_INFINITY_KEY < hi
}

fn near_end(s: (u64, u64)) -> (r: u64)
    ensures
        r == slab_near(s),
{
    let (p, q) = s;
    let p_nan = nan_key(p);
    let q_nan = nan_key(q);
    if p_nan && q_nan {
        0
    } else if p_nan {
        merge_zeros(q)
    } else if q_nan {
        merge_zeros(p)
    } else {
        min_key(merge_zeros(p), merge_zeros(q))
    }
}

fn far_end(s: (u64, u64)) -> (r: u64)
    ensures
        r == slab_far(s),
{
    let (p, q) = s;
    let p_nan = nan_key(p);
    let q_nan = nan_key(q);
    if p_nan && q_nan {
        u64::MAX
    } else if p_nan {
        merge_zeros(q)
    } else if q_nan {
        merge_zeros(p)
    } else {
        max_key(merge_zeros(p), merge_zeros(q))
    }
}

/// The slab test, given the keys of the distances at which the ray crosses
/// the box's planes (computed by the caller, infinities and NaNs included):
/// each slab is put in order, the interval is narrowed to each slab in
/// turn, and the test fails as soon as it is empty (its upper end below
/// its lower end). The two zeros count as one number, as in IEEE
/// comparison. A ray parallel to an axis crosses that axis's planes at
/// infinite distances: outside the slab both are the same infinity, which
/// narrows the interval to an infinite end and so misses.
pub fn slab_overlap(slabs: &[(u64, u64); 3], t_min: u64, t_max: u64) -> (r: bool)
    ensures
        r == slabs_meet(*slabs, t_min, t_max),
{
    let mut lo = if nan_key(t_min) { 0 } else { merge_zeros(t_min) };
    let mut hi = if nan_key(t_max) { u64::MAX } else { merge_zeros(t_max) };
    let mut a: usize = 0;
    while a < 3
        invariant
            a <= 3,
            lo == narrowed_lo_upto(*slabs, t_min, a as int),
            hi == narrowed_hi_upto(*slabs, t_max, a as int),
            a > 0 ==> lo <= hi,
        decreases 3 - a,
    {
        lo = max_key(lo, near_end(slabs[a]));
        hi = min_key(hi, far_end(slabs[a]));
        if hi < lo {
            proof {
                lemma_narrowing_monotone(*slabs, t_min, t_max, a as int + 1);
            }
            return false;
        }
        a = a + 1;
    }
    proof {
        reveal_with_fuel(narrowed_lo_upto, 4);
        reveal_with_fuel(narrowed_hi_upto, 4);
    }
    lo < INFINITY_KEY && NEG_INFINITY_KEY < hi
}

/// The lower end after the first `n` slabs.
pub open spec fn narrowed_lo_upto(slabs: [(u64, u64); 3], t_min: u64, n: int) -> u64
    decreases n,
{
    if n <= 0 {
        lower_end(t_min)
    } else {
        max_u64(narrowed_lo_upto(slabs, t_min, n - 1), slab_near(slabs[n - 1]))
    }
}

/// The upper end after the first `n` slabs.
pub open spec fn narrowed_hi_upto(slabs: [(u64, u64); 3], t_max: u64, n: int) -> u64
    decreases n,
{
    if n <= 0 {
        upper_end(t_max)
    } else {
        min_u64(narrowed_hi_upto(slabs, t_max, n - 1), slab_far(slabs[n - 1]))
    }
}

proof fn lemma_narrowing_monotone(slabs: [(u64, u64); 3], t_min: u64, t_max: u64, n: int)
    requires
        1 <= n <= 3,
    ensures
        narrowed_lo_upto(slabs, t_min, n) <= narrowed_lo(slabs, t_min),
        narrowed_hi(slabs, t_max) <= narrowed_hi_upto(slabs, t_max, n),
{
    reveal_with_fuel(narrowed_lo_upto, 4);
    reveal_with_fuel(narrowed_hi_upto, 4);
}

/// A ray whose origin lies strictly inside the box crosses, on every axis,
/// one plane at or behind its origin and the other strictly ahead of it.
/// Such a ray meets the box over any interval that starts at `0` and
/// reaches beyond it.
pub proof fn lemma_slab_from_inside(slabs: [(u64, u64); 3], t_max: u64)
    requires
        forall|a: int|
            0 <= a < 3 ==> #[trigger] slab_near(slabs[a]) <= ZERO_KEY && ZERO_KEY < slab_far(slabs[a]),
        ZERO_KEY < t_max,
        !is_nan_key(t_max),
    ensures
        slabs_meet(slabs, ZERO_KEY, t_max),
{
    assert(slab_near(slabs[0]) <= ZERO_KEY && ZERO_KEY < slab_far(slabs[0]));
    assert(slab_near(slabs[1]) <= ZERO_KEY && ZERO_KEY < slab_far(slabs[1]));
    assert(slab_near(slabs[2]) <= ZERO_KEY && ZERO_KEY < slab_far(slabs[2]));
}

/// A ray that crosses both planes of some axis before the interval starts
/// (it lies outside the box and points away from it) misses the box.
pub proof fn lemma_slab_behind(slabs: [(u64, u64); 3], t_min: u64, t_max: u64, a: int)
    requires
        0 <= a < 3,
        slab_far(slabs[a]) < lower_end(t_min),
    ensures
        !slabs_meet(slabs, t_min, t_max),
{
}

/// A ray parallel to an axis and outside the box's slab on it crosses both
/// planes at the same infinity, and misses the box whatever the interval.
pub proof fn lemma_slab_parallel_outside(slabs: [(u64, u64); 3], t_min: u64, t_max: u64, a: int)
    requires
        0 <= a < 3,
        slabs[a] == (INFINITY_KEY, INFINITY_KEY) || slabs[a] == (NEG_INFINITY_KEY, NEG_INFINITY_KEY),
    ensures
        !slabs_meet(slabs, t_min, t_max),
{
}

/// Widening the search interval never turns a hit into a miss. The order
/// here is that of the numbers (no NaN ends; the two zeros equal).
pub proof fn lemma_slab_widening(
    slabs: [(u64, u64); 3],
    t_min: u64,
    t_max: u64,
    t_min2: u64,
    t_max2: u64,
)
    requires
        !is_nan_key(t_min),
        !is_nan_key(t_max),
        !is_nan_key(t_min2),
        !is_nan_key(t_max2),
        zero_as_one(t_min) <= zero_as_one(t_min2),
        zero_as_one(t_max2) <= zero_as_one(t_max),
        slabs_meet(slabs, t_min2, t_max2),
    ensures
        slabs_meet(slabs, t_min, t_max),
{
}

} // verus!
