use rand::Rng;
use rust_tracing::aabb::{slab_overlap, surrounding_box, KeyPoint, AABB};
use rust_tracing::bvh::{BuildError, BvhNode, BVH};
use rust_tracing::hittable::closest_hit;
use rust_tracing::key::{key_bits, order_key};

fn k(x: f64) -> u64 {
    order_key(x.to_bits())
}

fn v(key: u64) -> f64 {
    f64::from_bits(key_bits(key))
}

#[derive(Clone, Copy)]
struct Sphere {
    center: [f64; 3],
    radius: f64,
}

impl Sphere {
    fn bbox(&self) -> AABB {
        let r = self.radius.abs();
        let c = self.center;
        AABB::new(
            KeyPoint::new(k(c[0] - r), k(c[1] - r), k(c[2] - r)),
            KeyPoint::new(k(c[0] + r), k(c[1] + r), k(c[2] + r)),
        )
    }

    fn hit(&self, o: [f64; 3], d: [f64; 3], t_min: f64, t_max: f64) -> Option<f64> {
        let oc = [o[0] - self.center[0], o[1] - self.center[1], o[2] - self.center[2]];
        let a = d[0] * d[0] + d[1] * d[1] + d[2] * d[2];
        let half_b = oc[0] * d[0] + oc[1] * d[1] + oc[2] * d[2];
        let c = oc[0] * oc[0] + oc[1] * oc[1] + oc[2] * oc[2] - self.radius * self.radius;
        let disc = half_b * half_b - a * c;
        if disc < 0.0 {
            return None;
        }
        let sq = disc.sqrt();
        let mut root = (-half_b - sq) / a;
        if root < t_min || t_max < root {
            root = (-half_b + sq) / a;
            if root < t_min || t_max < root {
                return None;
            }
        }
        Some(root)
    }
}

fn slab(b: &AABB, o: [f64; 3], d: [f64; 3], t_min: f64, t_max: f64) -> bool {
    let lo = [v(b.minimum.x), v(b.minimum.y), v(b.minimum.z)];
    let hi = [v(b.maximum.x), v(b.maximum.y), v(b.maximum.z)];
    let s = |a: usize| (k((lo[a] - o[a]) / d[a]), k((hi[a] - o[a]) / d[a]));
    slab_overlap(&[s(0), s(1), s(2)], k(t_min), k(t_max))
}

fn unit_box(x: f64, y: f64, z: f64) -> AABB {
    AABB::new(KeyPoint::new(k(x), k(y), k(z)), KeyPoint::new(k(x + 1.0), k(y + 1.0), k(z + 1.0)))
}

fn leaves(node: &BvhNode, out: &mut Vec<usize>) {
    match node {
        BvhNode::Leaf { object, .. } => out.push(*object),
        BvhNode::Branch { left, right, .. } => {
            leaves(left, out);
            leaves(right, out);
        }
    }
}

fn check_node(node: &BvhNode, boxes: &[AABB]) {
    match node {
        BvhNode::Leaf { object, bbox } => assert_eq!(*bbox, boxes[*object]),
        BvhNode::Branch { axis, left, right, bbox } => {
            check_node(left, boxes);
            check_node(right, boxes);
            assert_eq!(*bbox, surrounding_box(left.bounding_box(), right.bounding_box()));
            let mut l = Vec::new();
            let mut r = Vec::new();
            leaves(left, &mut l);
            leaves(right, &mut r);
            for i in &l {
                for j in &r {
                    assert!(boxes[*i].minimum.coord(*axis) <= boxes[*j].minimum.coord(*axis));
                }
            }
        }
    }
}

#[test]
fn build_of_nothing_is_an_error() {
    assert!(matches!(BVH::new(&Vec::new()), Err(BuildError::Empty)));
}

#[test]
fn build_reports_first_object_without_box() {
    let boxes = vec![Some(unit_box(0.0, 0.0, 0.0)), None, Some(unit_box(1.0, 0.0, 0.0)), None];
    assert!(matches!(BVH::new(&boxes), Err(BuildError::MissingBox { index: 1 })));
}

#[test]
fn build_of_one_object_is_a_leaf() {
    let b = unit_box(2.0, 3.0, 4.0);
    let t = BVH::new(&vec![Some(b)]).ok().unwrap();
    assert!(matches!(t.root, BvhNode::Leaf { object: 0, .. }));
    assert_eq!(t.bounding_box(), b);
}

#[test]
fn build_of_two_objects_orders_by_minimum() {
    let a = unit_box(5.0, 5.0, 5.0);
    let b = unit_box(1.0, 1.0, 1.0);
    for _ in 0..20 {
        let t = BVH::new(&vec![Some(a), Some(b)]).ok().unwrap();
        match &t.root {
            BvhNode::Branch { left, right, .. } => {
                assert!(matches!(**left, BvhNode::Leaf { object: 1, .. }));
                assert!(matches!(**right, BvhNode::Leaf { object: 0, .. }));
            }
            _ => panic!("expected a branch"),
        }
    }
}

#[test]
fn build_holds_each_object_once() {
    let mut boxes = Vec::new();
    for i in 0..37 {
        let x = ((i * 7) % 11) as f64;
        let y = ((i * 5) % 13) as f64 - 6.0;
        let z = ((i * 3) % 17) as f64 * 0.5;
        boxes.push(unit_box(x, y, z));
    }
    let t = BVH::new(&boxes.iter().map(|b| Some(*b)).collect()).ok().unwrap();
    let mut l = Vec::new();
    leaves(&t.root, &mut l);
    l.sort();
    assert_eq!(l, (0..37).collect::<Vec<usize>>());
    check_node(&t.root, &boxes);
    let mut all = boxes[0];
    for b in &boxes {
        all = surrounding_box(all, *b);
    }
    assert_eq!(t.bounding_box(), all);
}

#[test]
fn closest_hit_takes_the_nearest() {
    let dists = [Some(5.0), None, Some(2.0), Some(3.0), Some(0.0005)];
    let hit = |p: usize, lo: u64, hi: u64| match dists[p] {
        Some(t) if k(t) >= lo && k(t) <= hi => Some(k(t)),
        _ => None,
    };
    assert_eq!(closest_hit(5, &hit, k(0.001), k(f64::INFINITY)), Some((2, k(2.0))));
    assert_eq!(closest_hit(2, &hit, k(0.001), k(f64::INFINITY)), Some((0, k(5.0))));
    assert_eq!(closest_hit(5, &hit, k(0.001), k(1.0)), None);
    assert_eq!(closest_hit(0, &hit, k(0.0), k(f64::INFINITY)), None);
}

#[test]
fn closest_hit_narrows_the_upper_end() {
    let dists = [4.0, 3.0, 6.0, 1.0];
    let asked = std::cell::RefCell::new(Vec::new());
    let hit = |p: usize, lo: u64, hi: u64| {
        asked.borrow_mut().push(v(hi));
        let t = k(dists[p]);
        if t >= lo && t <= hi { Some(t) } else { None }
    };
    assert_eq!(closest_hit(4, &hit, k(0.0), k(10.0)), Some((3, k(1.0))));
    assert_eq!(*asked.borrow(), vec![10.0, 4.0, 3.0, 3.0]);
}

#[test]
fn closest_hit_ignores_answers_outside_the_interval() {
    let hit = |p: usize, _lo: u64, _hi: u64| if p == 0 { Some(k(50.0)) } else { Some(k(-1.0)) };
    assert_eq!(closest_hit(2, &hit, k(0.0), k(10.0)), None);
}

#[test]
fn bvh_prunes_missed_boxes() {
    let boxes: Vec<Option<AABB>> = (0..8).map(|i| Some(unit_box(i as f64 * 3.0, 0.0, 0.0))).collect();
    let t = BVH::new(&boxes).ok().unwrap();
    let tested = std::cell::RefCell::new(0usize);
    let hit = |_p: usize, _lo: u64, _hi: u64| {
        *tested.borrow_mut() += 1;
        None
    };
    let never = |_b: AABB, _lo: u64, _hi: u64| false;
    assert_eq!(t.hit(&hit, &never, k(0.0), k(f64::INFINITY)), None);
    assert_eq!(*tested.borrow(), 0);
}

#[test]
fn bvh_returns_the_nearer_of_both_children() {
    // Both children hit; the right one is nearer.
    let boxes = vec![Some(unit_box(0.0, 0.0, 0.0)), Some(unit_box(5.0, 5.0, 5.0))];
    let t = BVH::new(&boxes).ok().unwrap();
    let dists = [9.0, 2.0];
    let hit = |p: usize, lo: u64, hi: u64| {
        let t = k(dists[p]);
        if t >= lo && t <= hi { Some(t) } else { None }
    };
    let always = |_b: AABB, _lo: u64, _hi: u64| true;
    assert_eq!(t.hit(&hit, &always, k(0.0), k(100.0)), Some((1, k(2.0))));
}

#[test]
fn bvh_matches_linear_scan_on_random_rays() {
    let mut rng = rand::thread_rng();
    let mut spheres = Vec::new();
    for a in -6..6 {
        for b in -6..6 {
            spheres.push(Sphere {
                center: [a as f64 + 0.9 * rng.gen::<f64>(), 0.2 + rng.gen::<f64>(), b as f64 + 0.9 * rng.gen::<f64>()],
                radius: 0.2 + 0.2 * rng.gen::<f64>(),
            });
        }
    }
    spheres.push(Sphere { center: [0.0, -1000.0, 0.0], radius: 1000.0 });
    spheres.push(Sphere { center: [0.0, 1.0, 0.0], radius: -1.0 });
    let boxes: Vec<Option<AABB>> = spheres.iter().map(|s| Some(s.bbox())).collect();
    let tree = BVH::new(&boxes).ok().unwrap();
    for _ in 0..1000 {
        let o = [rng.gen_range(-8.0..8.0), rng.gen_range(0.1..6.0), rng.gen_range(-8.0..8.0)];
        let d = [rng.gen_range(-1.0..1.0), rng.gen_range(-1.0..1.0), rng.gen_range(-1.0..1.0)];
        let hit = |p: usize, lo: u64, hi: u64| spheres[p].hit(o, d, v(lo), v(hi)).map(k);
        let hit_box = |b: AABB, lo: u64, hi: u64| slab(&b, o, d, v(lo), v(hi));
        let lo = k(0.001);
        let hi = k(f64::INFINITY);
        let by_tree = tree.hit(&hit, &hit_box, lo, hi);
        let by_scan = closest_hit(spheres.len(), &hit, lo, hi);
        assert_eq!(by_tree.map(|h| h.1), by_scan.map(|h| h.1));
        assert_eq!(by_tree.map(|h| h.0), by_scan.map(|h| h.0));
    }
}

fn box_of(lo: [f64; 3], hi: [f64; 3]) -> AABB {
    AABB::new(KeyPoint::new(k(lo[0]), k(lo[1]), k(lo[2])), KeyPoint::new(k(hi[0]), k(hi[1]), k(hi[2])))
}

#[test]
fn slab_test_from_inside_hits() {
    let b = box_of([-1.0, -2.0, -3.0], [1.0, 2.0, 3.0]);
    let dirs = [[1.0, 0.0, 0.0], [0.0, -1.0, 0.0], [0.3, -0.2, 0.9], [0.0, 0.0, 0.0001], [-1.0, -1.0, -1.0]];
    for d in dirs {
        for o in [[0.0, 0.0, 0.0], [0.9, -1.9, 2.9], [-0.5, 1.0, -2.0]] {
            assert!(slab(&b, o, d, 0.0, f64::INFINITY), "{:?} {:?}", o, d);
        }
    }
}

#[test]
fn slab_test_pointing_away_misses() {
    let b = box_of([-1.0, -1.0, -1.0], [1.0, 1.0, 1.0]);
    assert!(!slab(&b, [2.0, 2.0, 2.0], [1.0, 1.0, 1.0], 0.0, f64::INFINITY));
    assert!(!slab(&b, [-3.0, 0.0, 0.0], [-1.0, 0.0, 0.0], 0.0, f64::INFINITY));
    assert!(!slab(&b, [0.0, 0.0, 5.0], [0.2, -0.1, 1.0], 0.0, f64::INFINITY));
}

#[test]
fn slab_test_towards_box_hits_within_range() {
    let b = box_of([-1.0, -1.0, -1.0], [1.0, 1.0, 1.0]);
    assert!(slab(&b, [-5.0, 0.0, 0.0], [1.0, 0.0, 0.0], 0.0, f64::INFINITY));
    assert!(slab(&b, [-5.0, 0.0, 0.0], [1.0, 0.0, 0.0], 0.0, 4.5));
    assert!(!slab(&b, [-5.0, 0.0, 0.0], [1.0, 0.0, 0.0], 0.0, 3.5));
    assert!(!slab(&b, [-5.0, 3.0, 0.0], [1.0, 0.0, 0.0], 0.0, f64::INFINITY));
}

#[test]
fn slab_test_on_flat_box() {
    // A box of zero thickness along y, as around an axis-aligned triangle.
    let b = box_of([-1.0, 0.0, -1.0], [1.0, 0.0, 1.0]);
    assert!(slab(&b, [0.0, 5.0, 0.0], [0.0, -1.0, 0.0], 0.0, f64::INFINITY));
    assert!(slab(&b, [0.2, 5.0, -0.3], [0.0, -1.0, 0.1], 0.0, f64::INFINITY));
    assert!(!slab(&b, [3.0, 5.0, 0.0], [0.0, -1.0, 0.0], 0.0, f64::INFINITY));
}

#[test]
fn slab_overlap_exact_keys() {
    // The slabs narrow [0, 10] to [0.5, 2].
    let slabs = [(k(2.0), k(-1.0)), (k(5.0), k(0.5)), (k(3.0), k(f64::NEG_INFINITY))];
    assert!(slab_overlap(&slabs, k(0.0), k(10.0)));
    assert!(slab_overlap(&slabs, k(2.0), k(10.0)));
    assert!(!slab_overlap(&slabs, k(2.5), k(10.0)));
    assert!(slab_overlap(&slabs, k(0.0), k(0.5)));
    assert!(!slab_overlap(&slabs, k(0.0), k(0.25)));
}

#[test]
fn slab_test_zero_direction_outside_misses() {
    let b = box_of([-1.0, -1.0, -1.0], [1.0, 1.0, 1.0]);
    // Outside on x, inside on y and z, not moving at all.
    assert!(!slab(&b, [5.0, 0.0, 0.0], [0.0, 0.0, 0.0], 0.001, f64::INFINITY));
    // Parallel to x, outside the x slab.
    assert!(!slab(&b, [5.0, -3.0, 0.0], [0.0, 1.0, 0.0], 0.0, f64::INFINITY));
    assert!(!slab(&b, [-5.0, -3.0, 0.0], [0.0, 1.0, 0.0], 0.0, f64::INFINITY));
    // Parallel to x, inside the x slab.
    assert!(slab(&b, [0.5, -3.0, 0.0], [0.0, 1.0, 0.0], 0.0, f64::INFINITY));
}

#[test]
fn slab_test_drops_nan_distances() {
    // Origin on the plane of a box flat in y, moving parallel to it: both y
    // distances are 0/0, which impose nothing.
    let b = box_of([-1.0, 0.0, -1.0], [1.0, 0.0, 1.0]);
    assert!(slab(&b, [-5.0, 0.0, 0.0], [1.0, 0.0, 0.0], 0.0, f64::INFINITY));
    assert!(!slab(&b, [-5.0, 0.0, 3.0], [1.0, 0.0, 0.0], 0.0, f64::INFINITY));
    // One NaN end beside a number: the number stands for the slab.
    let slabs = [(k(f64::NAN), k(2.0)), (k(-1.0), k(5.0)), (k(-1.0), k(5.0))];
    assert!(slab_overlap(&slabs, k(0.0), k(10.0)));
    assert!(!slab_overlap(&slabs, k(2.5), k(10.0)));
}

#[test]
fn bvh_splits_at_the_midpoint() {
    for n in 3..20usize {
        let boxes: Vec<Option<AABB>> = (0..n).map(|i| Some(unit_box(i as f64, (n - i) as f64, 0.0))).collect();
        let t = BVH::new(&boxes).ok().unwrap();
        fn check(node: &BvhNode) -> usize {
            match node {
                BvhNode::Leaf { .. } => 1,
                BvhNode::Branch { left, right, .. } => {
                    let l = check(left);
                    let r = check(right);
                    assert_eq!(l, (l + r) / 2);
                    l + r
                }
            }
        }
        assert_eq!(check(&t.root), n);
    }
}

#[test]
fn slab_test_takes_both_zeros_as_one() {
    let b = box_of([-1.0, -1.0, -1.0], [1.0, 1.0, 1.0]);
    let o = [0.0, 0.0, 0.0];
    let d = [1.0, 1.0, 1.0];
    assert!(slab(&b, o, d, -0.0, -0.0));
    assert!(slab(&b, o, d, 0.0, -0.0));
    assert!(slab(&b, o, d, -0.0, 0.0));
    assert!(slab(&b, o, d, 0.0, 0.0));
}

#[test]
fn slab_test_drops_nan_interval_ends() {
    let b = box_of([-1.0, -1.0, -1.0], [1.0, 1.0, 1.0]);
    let o = [-5.0, 0.0, 0.0];
    let d = [1.0, 0.0, 0.0];
    assert!(slab(&b, o, d, f64::NAN, f64::INFINITY));
    assert!(slab(&b, o, d, -f64::NAN, 10.0));
    assert!(slab(&b, o, d, 0.0, f64::NAN));
    assert!(!slab(&b, o, d, 7.0, f64::NAN));
}
