//! Bounding-volume hierarchy over the scene's objects.
//!
//! The objects themselves stay with the caller; the tree refers to them by
//! their index in the list of boxes it was built from.
use vstd::prelude::*;
use crate::aabb::{AABB, lemma_encloses_trans, lemma_surrounding_box, spec_surrounding_box, surrounding_box};
use crate::axis::Axis;
use crate::hittable::{
    agrees, dist, hit_in, is_closest, lemma_closest_unique, lemma_narrow, lemma_scan_closest, nearest_in_interval,
    objects_below, scan,
};

verus! {

broadcast use vstd::seq_lib::group_to_multiset_ensures;

pub enum BvhNode {
    /// One object, with its own box.
    Leaf { object: usize, bbox: AABB },
    /// Two subtrees; the objects on the left have their minimum corner at
    /// or below those on the right along `axis`, and the left holds half
    /// of the objects (rounded down). `bbox` is the union of the children's
    /// boxes.
    Branch { axis: Axis, left: Box<BvhNode>, right: Box<BvhNode>, bbox: AABB },
}

/// Why a hierarchy could not be built.
#[derive(Clone, Copy, Debug, PartialEq, Eq, Structural)]
pub enum BuildError {
    /// There is no object to put in it.
    Empty,
    /// The object at `index` (the first such) has no bounding box.
    MissingBox { index: usize },
}

impl BvhNode {
    pub open spec fn spec_bbox(self) -> AABB {
        match self {
            BvhNode::Leaf { bbox, .. } => bbox,
            BvhNode::Branch { bbox, .. } => bbox,
        }
    }

    /// The objects of the subtree, left to right.
    pub open spec fn leaves(self) -> Seq<usize>
        decreases self,
    {
        match self {
            BvhNode::Leaf { object, .. } => seq![object],
            BvhNode::Branch { left, right, .. } => left.leaves() + right.leaves(),
        }
    }

    /// The subtree is built correctly over `boxes`, the boxes of the objects.
    pub open spec fn wf(self, boxes: Seq<AABB>) -> bool
        decreases self,
    {
        match self {
            BvhNode::Leaf { object, bbox } => object < boxes.len() && bbox == boxes[object as int],
            BvhNode::Branch { axis, left, right, bbox } => {
                &&& left.wf(boxes)
                &&& right.wf(boxes)
                &&& bbox == spec_surrounding_box(left.spec_bbox(), right.spec_bbox())
                &&& split_along(left.leaves(), right.leaves(), axis, boxes)
                &&& left.leaves().len() == (left.leaves().len() + right.leaves().len()) / 2
            },
        }
    }

    /// The node's box.
    pub fn bounding_box(&self) -> (r: AABB)
        ensures
            r == self.spec_bbox(),
    {
        match self {
            BvhNode::Leaf { bbox, .. } => *bbox,
            BvhNode::Branch { bbox, .. } => *bbox,
        }
    }
}

/// Every object of `lo` has its minimum corner at or below that of every
/// object of `hi` along `axis`.
pub open spec fn split_along(lo: Seq<usize>, hi: Seq<usize>, axis: Axis, boxes: Seq<AABB>) -> bool {
    forall|i: usize, j: usize|
        #![trigger lo.contains(i), hi.contains(j)]
        lo.contains(i) && hi.contains(j) ==> boxes[i as int].minimum.spec_coord(axis)
            <= boxes[j as int].minimum.spec_coord(axis)
}

pub open spec fn min_coord(boxes: Seq<AABB>, i: usize, axis: Axis) -> u64 {
    boxes[i as int].minimum.spec_coord(axis)
}

/// The coordinate along `axis` of the minimum corner of box `i`.
fn min_coord_of(boxes: &Vec<AABB>, i: usize, axis: Axis) -> (r: u64)
    requires
        i < boxes.len(),
    ensures
        r == min_coord(boxes@, i, axis),
{
    boxes[i].minimum.coord(axis)
}

/// Relies on std's `slice::sort_by_key`: afterwards the slice holds the same
/// items, in the order of their keys. The key of an item is read by
/// `min_coord_of`, whose index is in bounds for every item.
#[verifier::external_body]
fn sort_by_min_coord(items: &mut Vec<usize>, boxes: &Vec<AABB>, axis: Axis)
    requires
        forall|k: int| 0 <= k < old(items).len() ==> old(items)[k] < boxes.len(),
    ensures
        final(items)@.to_multiset() == old(items)@.to_multiset(),
        forall|k: int, l: int|
            0 <= k < l < final(items).len() ==> min_coord(boxes@, final(items)[k], axis)
                <= min_coord(boxes@, final(items)[l], axis),
{
    items.sort_by_key(|i| min_coord_of(boxes, *i, axis))
}

fn leaf(boxes: &Vec<AABB>, object: usize) -> (r: BvhNode)
    requires
        object < boxes.len(),
    ensures
        r == (BvhNode::Leaf { object, bbox: boxes@[object as int] }),
        r.wf(boxes@),
        r.leaves() == seq![object],
{
    BvhNode::Leaf { object, bbox: boxes[object] }
}

/// Builds the subtree over `items`, indices into `boxes`, splitting along
/// an axis drawn at random for each node.
fn build_node(boxes: &Vec<AABB>, items: Vec<usize>) -> (r: BvhNode)
    requires
        items.len() >= 1,
        forall|k: int| 0 <= k < items.len() ==> items[k] < boxes.len(),
    ensures
        r.wf(boxes@),
        r.leaves().to_multiset() == items@.to_multiset(),
    decreases items.len(),
{
    let axis = Axis::random();
    let n = items.len();
    if n == 1 {
        let r = leaf(boxes, items[0]);
        assert(items@ =~= seq![items[0]]);
        r
    } else if n == 2 {
        let a = items[0];
        let b = items[1];
        let (l, r) = if min_coord_of(boxes, a, axis) < min_coord_of(boxes, b, axis) {
            (a, b)
        } else {
            (b, a)
        };
        let left = leaf(boxes, l);
        let right = leaf(boxes, r);
        let bbox = surrounding_box(boxes[l], boxes[r]);
        let node = BvhNode::Branch { axis, left: Box::new(left), right: Box::new(right), bbox };
        proof {
            assert(items@ =~= seq![a] + seq![b]);
            vstd::seq_lib::lemma_multiset_commutative(seq![a], seq![b]);
            vstd::seq_lib::lemma_multiset_commutative(seq![b], seq![a]);
            assert forall|i: usize, j: usize|
                #![trigger left.leaves().contains(i), right.leaves().contains(j)]
                left.leaves().contains(i) && right.leaves().contains(j) implies min_coord(
                    boxes@,
                    i,
                    axis,
                ) <= min_coord(boxes@, j, axis) by {
                assert(left.leaves()[0] == l);
                assert(right.leaves()[0] == r);
            }
        }
        node
    } else {
        let mut sorted = items;
        sort_by_min_coord(&mut sorted, boxes, axis);
        assert(sorted@.len() == sorted@.to_multiset().len());
        assert(items@.len() == items@.to_multiset().len());
        assert forall|k: int| 0 <= k < sorted.len() implies sorted[k] < boxes.len() by {
            assert(sorted@.to_multiset().count(sorted@[k]) > 0);
            assert(items@.contains(sorted@[k]));
        }
        let ghost all = sorted@;
        let mid = n / 2;
        let upper = sorted.split_off(mid);
        let lower = sorted;
        assert(all =~= lower@ + upper@);
        let left = build_node(boxes, lower);
        let right = build_node(boxes, upper);
        let bbox = surrounding_box(left.bounding_box(), right.bounding_box());
        proof {
            assert(left.leaves().len() == left.leaves().to_multiset().len());
            assert(right.leaves().len() == right.leaves().to_multiset().len());
            assert(lower@.len() == lower@.to_multiset().len());
            assert(upper@.len() == upper@.to_multiset().len());
            vstd::seq_lib::lemma_multiset_commutative(lower@, upper@);
            vstd::seq_lib::lemma_multiset_commutative(left.leaves(), right.leaves());
            assert forall|i: usize, j: usize|
                #![trigger left.leaves().contains(i), right.leaves().contains(j)]
                left.leaves().contains(i) && right.leaves().contains(j) implies min_coord(
                    boxes@,
                    i,
                    axis,
                ) <= min_coord(boxes@, j, axis) by {
                assert(left.leaves().to_multiset().count(i) > 0);
                assert(lower@.contains(i));
                let p = choose|p: int| 0 <= p < lower@.len() && lower@[p] == i;
                assert(right.leaves().to_multiset().count(j) > 0);
                assert(upper@.contains(j));
                let q = choose|q: int| 0 <= q < upper@.len() && upper@[q] == j;
                assert(all[p] == i);
                assert(all[mid + q] == j);
            }
        }
        BvhNode::Branch { axis, left: Box::new(left), right: Box::new(right), bbox }
    }
}


/// A hierarchy over all the objects of a scene.
pub struct BVH {
    pub root: BvhNode,
}

/// The box of each object, where each has one.
pub open spec fn present_boxes(boxes: Seq<Option<AABB>>) -> Seq<AABB> {
    boxes.map_values(|b: Option<AABB>| b->0)
}


/// `index` is the first object without a box.
pub open spec fn first_missing(boxes: Seq<Option<AABB>>, index: int) -> bool {
    &&& 0 <= index < boxes.len()
    &&& boxes[index] is None
    &&& forall|k: int| 0 <= k < index ==> boxes[k] is Some
}

impl BVH {
    /// The hierarchy is built over the boxes `boxes` and holds each of
    /// their indices exactly once.
    pub open spec fn wf(self, boxes: Seq<AABB>) -> bool {
        &&& self.root.wf(boxes)
        &&& self.root.leaves().to_multiset() == objects_below(boxes.len()).to_multiset()
    }

    /// Builds the hierarchy over the objects whose boxes are `boxes`: the
    /// tree's leaves are the indices into `boxes`. An object without a box
    /// cannot be placed, and is reported rather than given an empty box.
    pub fn new(boxes: &Vec<Option<AABB>>) -> (r: Result<BVH, BuildError>)
        ensures
            boxes.len() == 0 <==> r == Err::<BVH, BuildError>(BuildError::Empty),
            r matches Err(BuildError::MissingBox { index }) ==> boxes.len() > 0 && first_missing(
                boxes@,
                index as int,
            ),
            r is Ok <==> boxes.len() > 0 && forall|k: int| 0 <= k < boxes.len() ==> boxes@[k] is Some,
            r matches Ok(t) ==> t.wf(present_boxes(boxes@)),
    {
        if boxes.len() == 0 {
            return Err(BuildError::Empty);
        }
        let mut present: Vec<AABB> = Vec::new();
        let mut items: Vec<usize> = Vec::new();
        let mut k: usize = 0;
        while k < boxes.len()
            invariant
                k <= boxes.len(),
                present.len() == k,
                items@ == objects_below(k as nat),
                forall|l: int| 0 <= l < k ==> boxes@[l] is Some,
                present@ == present_boxes(boxes@.subrange(0, k as int)),
            decreases boxes.len() - k,
        {
            match boxes[k] {
                Some(b) => {
                    present.push(b);
                    items.push(k);
                    proof {
                        assert(present_boxes(boxes@.subrange(0, k + 1)) =~= present_boxes(
                            boxes@.subrange(0, k as int),
                        ).push(b));
                        assert(items@ =~= objects_below((k + 1) as nat));
                    }
                    k = k + 1;
                },
                None => {
                    proof {
                        assert(first_missing(boxes@, k as int));
                    }
                    return Err(BuildError::MissingBox { index: k });
                },
            }
        }
        assert(boxes@.subrange(0, k as int) =~= boxes@);
        let root = build_node(&present, items);
        Ok(BVH { root })
    }

    /// The box that holds the whole scene.
    pub fn bounding_box(&self) -> (r: AABB)
        ensures
            r == self.root.spec_bbox(),
    {
        self.root.bounding_box()
    }
}

/// Every answer the box test can give is the one `bx` gives.
pub open spec fn agrees_box<B: Fn(AABB, u64, u64) -> bool>(hit_box: B, bx: spec_fn(AABB, u64, u64) -> bool) -> bool {
    forall|b: AABB, lo: u64, hi: u64, r: bool| #[trigger] hit_box.ensures((b, lo, hi), r) ==> r == bx(b, lo, hi)
}

/// The box test never rejects, over an interval, a box that encloses the
/// box of an object hit within that interval.
pub open spec fn conservative(
    bx: spec_fn(AABB, u64, u64) -> bool,
    h: spec_fn(usize, u64, u64) -> Option<u64>,
    boxes: Seq<AABB>,
) -> bool {
    forall|b: AABB, p: usize, lo: u64, hi: u64|
        #![trigger bx(b, lo, hi), h(p, lo, hi)]
        (p as int) < boxes.len() && b.encloses(boxes[p as int]) && hit_in(h, p, lo, hi) is Some ==> bx(b, lo, hi)
}

/// The traversal: a node whose box the ray misses is pruned; otherwise the
/// left subtree is searched, then the right one up to the left's hit, and
/// the right hit is kept when there is one, being the nearer.
pub open spec fn traverse(
    node: BvhNode,
    h: spec_fn(usize, u64, u64) -> Option<u64>,
    bx: spec_fn(AABB, u64, u64) -> bool,
    lo: u64,
    hi: u64,
) -> Option<(usize, u64)>
    decreases node,
{
    match node {
        BvhNode::Leaf { object, .. } => match hit_in(h, object, lo, hi) {
            Some(t) => Some((object, t)),
            None => None,
        },
        BvhNode::Branch { left, right, bbox, .. } => {
            if !bx(bbox, lo, hi) {
                None
            } else {
                let l = traverse(*left, h, bx, lo, hi);
                let bound = match l {
                    Some((_, t)) => t,
                    None => hi,
                };
                let r = traverse(*right, h, bx, lo, bound);
                match r {
                    Some(_) => r,
                    None => l,
                }
            }
        },
    }
}

/// No box has a NaN coordinate.
pub open spec fn without_nan(boxes: Seq<AABB>) -> bool {
    forall|i: int| 0 <= i < boxes.len() ==> #[trigger] boxes[i].no_nan()
}

/// Over boxes without NaN coordinates, a node's box has none either and
/// encloses the box of each of its objects.
pub proof fn lemma_bbox_encloses_leaves(node: BvhNode, boxes: Seq<AABB>)
    requires
        node.wf(boxes),
        without_nan(boxes),
    ensures
        node.spec_bbox().no_nan(),
        forall|p: usize| #[trigger] node.leaves().contains(p) ==> (p as int) < boxes.len()
            && node.spec_bbox().encloses(boxes[p as int]),
    decreases node,
{
    match node {
        BvhNode::Leaf { object, bbox } => {
            assert(boxes[object as int].no_nan());
            assert forall|p: usize| #[trigger] node.leaves().contains(p) implies (p as int) < boxes.len()
                && node.spec_bbox().encloses(boxes[p as int]) by {
                assert(node.leaves()[0] == object);
                assert forall|a: Axis| bbox.minimum.spec_coord(a) <= #[trigger] boxes[p as int].minimum.spec_coord(a)
                    && boxes[p as int].maximum.spec_coord(a) <= bbox.maximum.spec_coord(a) by {}
            }
        },
        BvhNode::Branch { left, right, bbox, .. } => {
            lemma_bbox_encloses_leaves(*left, boxes);
            lemma_bbox_encloses_leaves(*right, boxes);
            lemma_surrounding_box(left.spec_bbox(), right.spec_bbox());
            assert forall|p: usize| #[trigger] node.leaves().contains(p) implies (p as int) < boxes.len()
                && node.spec_bbox().encloses(boxes[p as int]) by {
                if left.leaves().contains(p) {
                    lemma_encloses_trans(bbox, left.spec_bbox(), boxes[p as int]);
                } else {
                    assert(right.leaves().contains(p)) by {
                        let k = choose|k: int| 0 <= k < node.leaves().len() && node.leaves()[k] == p;
                        if k >= left.leaves().len() {
                            assert(right.leaves()[k - left.leaves().len()] == p);
                        }
                    }
                    lemma_encloses_trans(bbox, right.spec_bbox(), boxes[p as int]);
                }
            }
        },
    }
}

proof fn lemma_leaves_of_branch(node: BvhNode, left: BvhNode, right: BvhNode, p: usize)
    requires
        node.leaves() == left.leaves() + right.leaves(),
    ensures
        node.leaves().contains(p) <==> left.leaves().contains(p) || right.leaves().contains(p),
{
    let s = node.leaves();
    if left.leaves().contains(p) {
        let k = choose|k: int| 0 <= k < left.leaves().len() && left.leaves()[k] == p;
        assert(s[k] == p);
    }
    if right.leaves().contains(p) {
        let k = choose|k: int| 0 <= k < right.leaves().len() && right.leaves()[k] == p;
        assert(s[k + left.leaves().len()] == p);
    }
    if s.contains(p) {
        let k = choose|k: int| 0 <= k < s.len() && s[k] == p;
        if k < left.leaves().len() {
            assert(left.leaves()[k] == p);
        } else {
            assert(right.leaves()[k - left.leaves().len()] == p);
        }
    }
}

/// With nearest-in-interval object tests and a conservative box test, the
/// traversal finds a closest hit among the node's objects.
pub proof fn lemma_traverse_closest(
    node: BvhNode,
    boxes: Seq<AABB>,
    h: spec_fn(usize, u64, u64) -> Option<u64>,
    bx: spec_fn(AABB, u64, u64) -> bool,
    lo: u64,
    hi: u64,
)
    requires
        node.wf(boxes),
        without_nan(boxes),
        nearest_in_interval(h),
        conservative(bx, h, boxes),
    ensures
        is_closest(node.leaves(), h, lo, hi, traverse(node, h, bx, lo, hi)),
    decreases node,
{
    match node {
        BvhNode::Leaf { object, .. } => {
            assert(node.leaves()[0] == object);
            assert forall|p: usize| #[trigger] node.leaves().contains(p) implies p == object by {}
        },
        BvhNode::Branch { left, right, bbox, .. } => {
            assert forall|p: usize| #[trigger] node.leaves().contains(p) <==> left.leaves().contains(p)
                || right.leaves().contains(p) by {
                lemma_leaves_of_branch(node, *left, *right, p);
            }
            if !bx(bbox, lo, hi) {
                lemma_bbox_encloses_leaves(node, boxes);
                assert forall|p: usize| #[trigger] node.leaves().contains(p) implies hit_in(h, p, lo, hi) is None by {
                    if hit_in(h, p, lo, hi) is Some {
                        assert(bx(bbox, lo, hi));
                    }
                }
            } else {
                let l = traverse(*left, h, bx, lo, hi);
                let bound = match l {
                    Some((_, t)) => t,
                    None => hi,
                };
                let r = traverse(*right, h, bx, lo, bound);
                lemma_traverse_closest(*left, boxes, h, bx, lo, hi);
                lemma_traverse_closest(*right, boxes, h, bx, lo, bound);
                assert(bound <= hi) by {
                    if let Some((q, t)) = l {
                        assert(hit_in(h, q, lo, hi) == Some(t));
                    }
                }
                assert forall|p: usize| true implies hit_in(h, p, lo, bound) == match hit_in(h, p, lo, hi) {
                    Some(t) => if t <= bound { Some(t) } else { None },
                    None => None,
                } by {
                    lemma_narrow(h, p, lo, hi, bound);
                }
                match r {
                    Some((q, t)) => {
                        assert(hit_in(h, q, lo, bound) == Some(t));
                        assert forall|p: usize| #[trigger] node.leaves().contains(p) implies match hit_in(h, p, lo, hi) {
                            Some(t2) => t <= t2,
                            None => true,
                        } by {
                            if right.leaves().contains(p) {
                                assert(right.leaves().contains(p));
                            } else {
                                assert(left.leaves().contains(p));
                            }
                        }
                    },
                    None => {
                        match l {
                            Some((q, tl)) => {
                                assert forall|p: usize| #[trigger] node.leaves().contains(p) implies match hit_in(h, p, lo, hi) {
                                    Some(t2) => tl <= t2,
                                    None => true,
                                } by {
                                    if right.leaves().contains(p) {
                                        assert(right.leaves().contains(p));
                                    } else {
                                        assert(left.leaves().contains(p));
                                    }
                                }
                            },
                            None => {
                                assert forall|p: usize| #[trigger] node.leaves().contains(p) implies hit_in(h, p, lo, hi) is None by {
                                    if right.leaves().contains(p) {
                                        assert(right.leaves().contains(p));
                                    } else {
                                        assert(left.leaves().contains(p));
                                    }
                                }
                            },
                        }
                    },
                }
            }
        },
    }
}

impl BvhNode {
    /// Searches the subtree for the closest hit over `[t_min, t_max]`,
    /// testing objects with `hit_object` and boxes with `hit_box`.
    pub fn hit<P: Fn(usize, u64, u64) -> Option<u64>, B: Fn(AABB, u64, u64) -> bool>(
        &self,
        hit_object: &P,
        hit_box: &B,
        t_min: u64,
        t_max: u64,
    ) -> (r: Option<(usize, u64)>)
        requires
            forall|p: usize, lo: u64, hi: u64| hit_object.requires((p, lo, hi)),
            forall|b: AABB, lo: u64, hi: u64| hit_box.requires((b, lo, hi)),
        ensures
            r matches Some((p, t)) ==> self.leaves().contains(p) && t_min <= t && t <= t_max,
            forall|h: spec_fn(usize, u64, u64) -> Option<u64>, bx: spec_fn(AABB, u64, u64) -> bool|
                agrees(*hit_object, h) && agrees_box(*hit_box, bx) ==> r == traverse(*self, h, bx, t_min, t_max),
        decreases self,
    {
        match self {
            BvhNode::Leaf { object, .. } => {
                let answer = hit_object(*object, t_min, t_max);
                proof {
                    assert(self.leaves()[0] == *object);
                    assert forall|h: spec_fn(usize, u64, u64) -> Option<u64>| agrees(*hit_object, h) implies answer
                        == h(*object, t_min, t_max) by {
                        assert(hit_object.ensures((*object, t_min, t_max), answer));
                    }
                }
                let res = match answer {
                    Some(t) => if t_min <= t && t <= t_max { Some((*object, t)) } else { None },
                    None => None,
                };
                proof {
                    assert forall|h: spec_fn(usize, u64, u64) -> Option<u64>, bx: spec_fn(AABB, u64, u64) -> bool|
                        agrees(*hit_object, h) && agrees_box(*hit_box, bx) implies res == traverse(*self, h, bx, t_min, t_max) by {
                        assert(answer == h(*object, t_min, t_max));
                    }
                }
                res
            },
            BvhNode::Branch { left, right, bbox, .. } => {
                let seen = hit_box(*bbox, t_min, t_max);
                proof {
                    assert forall|bx: spec_fn(AABB, u64, u64) -> bool| agrees_box(*hit_box, bx) implies seen
                        == bx(*bbox, t_min, t_max) by {
                        assert(hit_box.ensures((*bbox, t_min, t_max), seen));
                    }
                    assert forall|p: usize| #[trigger] self.leaves().contains(p) <==> left.leaves().contains(p)
                        || right.leaves().contains(p) by {
                        lemma_leaves_of_branch(*self, **left, **right, p);
                    }
                }
                if !seen {
                    return None;
                }
                let l = left.hit(hit_object, hit_box, t_min, t_max);
                let bound = match l {
                    Some((_, t)) => t,
                    None => t_max,
                };
                let r = right.hit(hit_object, hit_box, t_min, bound);
                let res = match r {
                    Some(_) => r,
                    None => l,
                };
                proof {
                    assert forall|h: spec_fn(usize, u64, u64) -> Option<u64>, bx: spec_fn(AABB, u64, u64) -> bool|
                        agrees(*hit_object, h) && agrees_box(*hit_box, bx) implies res == traverse(*self, h, bx, t_min, t_max) by {
                        assert(seen == bx(*bbox, t_min, t_max));
                        assert(l == traverse(**left, h, bx, t_min, t_max));
                        assert(r == traverse(**right, h, bx, t_min, bound));
                    }
                }
                res
            },
        }
    }
}

impl BVH {
    /// Searches the whole scene for the closest hit over `[t_min, t_max]`.
    pub fn hit<P: Fn(usize, u64, u64) -> Option<u64>, B: Fn(AABB, u64, u64) -> bool>(
        &self,
        hit_object: &P,
        hit_box: &B,
        t_min: u64,
        t_max: u64,
    ) -> (r: Option<(usize, u64)>)
        requires
            forall|p: usize, lo: u64, hi: u64| hit_object.requires((p, lo, hi)),
            forall|b: AABB, lo: u64, hi: u64| hit_box.requires((b, lo, hi)),
        ensures
            r matches Some((p, t)) ==> self.root.leaves().contains(p) && t_min <= t && t <= t_max,
            forall|h: spec_fn(usize, u64, u64) -> Option<u64>, bx: spec_fn(AABB, u64, u64) -> bool|
                agrees(*hit_object, h) && agrees_box(*hit_box, bx) ==> r == traverse(self.root, h, bx, t_min, t_max),
            forall|
                boxes: Seq<AABB>,
                h: spec_fn(usize, u64, u64) -> Option<u64>,
                bx: spec_fn(AABB, u64, u64) -> bool,
            |
                #![trigger self.wf(boxes), agrees(*hit_object, h), agrees_box(*hit_box, bx)]
                self.wf(boxes) && without_nan(boxes) && boxes.len() <= usize::MAX && agrees(*hit_object, h) && agrees_box(*hit_box, bx)
                    && nearest_in_interval(h) && conservative(bx, h, boxes) ==> is_closest(
                    objects_below(boxes.len()),
                    h,
                    t_min,
                    t_max,
                    r,
                ),
    {
        let r = self.root.hit(hit_object, hit_box, t_min, t_max);
        proof {
            assert forall|
                boxes: Seq<AABB>,
                h: spec_fn(usize, u64, u64) -> Option<u64>,
                bx: spec_fn(AABB, u64, u64) -> bool,
            |
                #![trigger self.wf(boxes), agrees(*hit_object, h), agrees_box(*hit_box, bx)]
                self.wf(boxes) && without_nan(boxes) && boxes.len() <= usize::MAX && agrees(*hit_object, h) && agrees_box(*hit_box, bx)
                    && nearest_in_interval(h) && conservative(bx, h, boxes) implies is_closest(
                    objects_below(boxes.len()),
                    h,
                    t_min,
                    t_max,
                    r,
                ) by {
                lemma_bvh_matches_scan(*self, boxes, h, bx, t_min, t_max);
            }
        }
        r
    }
}

/// The hierarchy never changes what is hit, only how many tests it takes:
/// over a well-built hierarchy, with object tests that answer with the
/// nearest point in the interval and a box test that never rejects a box
/// around an object hit in the interval, the traversal finds a closest hit
/// among all the objects, at the same distance as the linear scan over
/// them (and finds none exactly when the scan finds none).
pub proof fn lemma_bvh_matches_scan(
    t: BVH,
    boxes: Seq<AABB>,
    h: spec_fn(usize, u64, u64) -> Option<u64>,
    bx: spec_fn(AABB, u64, u64) -> bool,
    lo: u64,
    hi: u64,
)
    requires
        t.wf(boxes),
        without_nan(boxes),
        boxes.len() <= usize::MAX,
        nearest_in_interval(h),
        conservative(bx, h, boxes),
    ensures
        is_closest(objects_below(boxes.len()), h, lo, hi, traverse(t.root, h, bx, lo, hi)),
        dist(traverse(t.root, h, bx, lo, hi)) == dist(scan(0, boxes.len(), h, lo, None, hi)),
{
    let n = boxes.len();
    lemma_traverse_closest(t.root, boxes, h, bx, lo, hi);
    lemma_scan_closest(n, h, lo, hi);
    assert forall|p: usize| #[trigger] t.root.leaves().contains(p) <==> objects_below(n).contains(p) by {
        assert(t.root.leaves().to_multiset().count(p) == objects_below(n).to_multiset().count(p));
    }
    lemma_closest_unique(
        t.root.leaves(),
        objects_below(n),
        h,
        lo,
        hi,
        traverse(t.root, h, bx, lo, hi),
        scan(0, n, h, lo, None, hi),
    );
    let r = traverse(t.root, h, bx, lo, hi);
    match r {
        Some((q, tq)) => {
            assert(t.root.leaves().contains(q));
            assert forall|p: usize| #[trigger] objects_below(n).contains(p) implies match hit_in(h, p, lo, hi) {
                Some(t2) => tq <= t2,
                None => true,
            } by {
                assert(t.root.leaves().contains(p));
            }
        },
        None => {
            assert forall|p: usize| #[trigger] objects_below(n).contains(p) implies hit_in(h, p, lo, hi) is None by {
                assert(t.root.leaves().contains(p));
            }
        },
    }
}

} // verus!
