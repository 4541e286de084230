//! Closest-hit reduction over a list of objects.
//!
//! An object is tested against a ray by the caller, through a closure
//! `hit_object(p, t_min, t_max)` that returns the distance key of the
//! nearest point where object `p` meets the ray within `[t_min, t_max]`.
//! The contracts speak of such a test through a spec function `h` of the
//! same shape; a test "agrees" with `h` when every result it can return is
//! the one `h` gives.
use vstd::prelude::*;

verus! {

/// `r`, kept only where it lies within `[lo, hi]`.
pub open spec fn within(r: Option<u64>, lo: u64, hi: u64) -> Option<u64> {
    match r {
        Some(t) => if lo <= t && t <= hi { Some(t) } else { None },
        None => None,
    }
}

/// What the reduction takes of object `p`'s answer over `[lo, hi]`.
pub open spec fn hit_in(h: spec_fn(usize, u64, u64) -> Option<u64>, p: usize, lo: u64, hi: u64) -> Option<u64> {
    within(h(p, lo, hi), lo, hi)
}

/// The distance of a hit.
pub open spec fn dist(r: Option<(usize, u64)>) -> Option<u64> {
    match r {
        Some((_, t)) => Some(t),
        None => None,
    }
}

/// Every answer the closure can give is the one `h` gives.
pub open spec fn agrees<P: Fn(usize, u64, u64) -> Option<u64>>(
    hit_object: P,
    h: spec_fn(usize, u64, u64) -> Option<u64>,
) -> bool {
    forall|p: usize, lo: u64, hi: u64, r: Option<u64>|
        #[trigger] hit_object.ensures((p, lo, hi), r) ==> r == h(p, lo, hi)
}

/// `h` answers with the nearest meeting point in the interval: its answer
/// lies in the interval, and shrinking the upper end keeps that answer
/// while it still lies below the new end and drops it otherwise.
pub open spec fn nearest_in_interval(h: spec_fn(usize, u64, u64) -> Option<u64>) -> bool {
    &&& forall|p: usize, lo: u64, hi: u64|
        #[trigger] h(p, lo, hi) matches Some(t) ==> lo <= t && t <= hi
    &&& forall|p: usize, lo: u64, hi: u64, hi2: u64|
        hi2 <= hi ==> #[trigger] h(p, lo, hi2) == match #[trigger] h(p, lo, hi) {
            Some(t) => if t <= hi2 { Some(t) } else { None },
            None => None,
        }
}

/// `r` is a closest hit among the objects `objs` over `[lo, hi]`: no hit at
/// all where none of them is hit, else the hit of one of them whose
/// distance is at or below that of every other.
pub open spec fn is_closest(
    objs: Seq<usize>,
    h: spec_fn(usize, u64, u64) -> Option<u64>,
    lo: u64,
    hi: u64,
    r: Option<(usize, u64)>,
) -> bool {
    match r {
        None => forall|p: usize| #[trigger] objs.contains(p) ==> hit_in(h, p, lo, hi) is None,
        Some((q, t)) => {
            &&& objs.contains(q)
            &&& hit_in(h, q, lo, hi) == Some(t)
            &&& forall|p: usize|
                #[trigger] objs.contains(p) ==> match hit_in(h, p, lo, hi) {
                    Some(t2) => t <= t2,
                    None => true,
                }
        },
    }
}

/// The scan over objects `i..n`, holding `best` found so far and the upper
/// end `bound` narrowed to it: each object is tested up to the bound, and a
/// hit becomes the new best and the new bound.
pub open spec fn scan(
    i: nat,
    n: nat,
    h: spec_fn(usize, u64, u64) -> Option<u64>,
    lo: u64,
    best: Option<(usize, u64)>,
    bound: u64,
) -> Option<(usize, u64)>
    decreases n - i,
{
    if i >= n {
        best
    } else {
        match hit_in(h, i as usize, lo, bound) {
            Some(t) => scan(i + 1, n, h, lo, Some((i as usize, t)), t),
            None => scan(i + 1, n, h, lo, best, bound),
        }
    }
}

/// The objects `0..n`.
pub open spec fn objects_below(n: nat) -> Seq<usize> {
    Seq::new(n, |i: int| i as usize)
}

pub proof fn lemma_objects_below_contains(n: nat, p: usize)
    ensures
        objects_below(n).contains(p) <==> (p as nat) < n,
{
    if (p as nat) < n {
        assert(objects_below(n)[p as int] == p);
    }
}

/// Under `nearest_in_interval`, asking up to a lower bound gives the
/// answer up to the higher one, kept only where it is within the lower.
pub proof fn lemma_narrow(h: spec_fn(usize, u64, u64) -> Option<u64>, p: usize, lo: u64, hi: u64, hi2: u64)
    requires
        nearest_in_interval(h),
        hi2 <= hi,
    ensures
        hit_in(h, p, lo, hi2) == match hit_in(h, p, lo, hi) {
            Some(t) => if t <= hi2 { Some(t) } else { None },
            None => None,
        },
{
    assert(h(p, lo, hi2) == match h(p, lo, hi) {
        Some(t) => if t <= hi2 { Some(t) } else { None },
        None => None,
    });
}

proof fn lemma_scan_step(
    i: nat,
    n: nat,
    h: spec_fn(usize, u64, u64) -> Option<u64>,
    lo: u64,
    hi: u64,
    best: Option<(usize, u64)>,
    bound: u64,
)
    requires
        nearest_in_interval(h),
        i <= n,
        n <= usize::MAX + 1,
        is_closest(objects_below(i), h, lo, hi, best),
        bound == match best {
            Some((_, t)) => t,
            None => hi,
        },
    ensures
        is_closest(objects_below(n), h, lo, hi, scan(i, n, h, lo, best, bound)),
    decreases n - i,
{
    if i < n {
        let p = i as usize;
        assert(bound <= hi) by {
            if let Some((q, t)) = best {
                assert(hit_in(h, q, lo, hi) == Some(t));
            }
        }
        lemma_narrow(h, p, lo, hi, bound);
        let next = match hit_in(h, p, lo, bound) {
            Some(t) => Some((p, t)),
            None => best,
        };
        let next_bound = match hit_in(h, p, lo, bound) {
            Some(t) => t,
            None => bound,
        };
        assert forall|x: usize| objects_below(i + 1).contains(x) <==> objects_below(i).contains(x)
            || x == p by {
            lemma_objects_below_contains(i + 1, x);
            lemma_objects_below_contains(i, x);
        }
        lemma_objects_below_contains(i + 1, p);
        match hit_in(h, p, lo, bound) {
            Some(t) => {
                assert(hit_in(h, p, lo, hi) == Some(t));
                assert forall|x: usize| #[trigger] objects_below(i + 1).contains(x) implies match hit_in(h, x, lo, hi) {
                    Some(t2) => t <= t2,
                    None => true,
                } by {
                    if x != p {
                        assert(objects_below(i).contains(x));
                    }
                }
                assert(is_closest(objects_below(i + 1), h, lo, hi, next));
            },
            None => {
                match best {
                    Some((q, tb)) => {
                        assert(objects_below(i).contains(q));
                        assert forall|x: usize| #[trigger] objects_below(i + 1).contains(x) implies match hit_in(h, x, lo, hi) {
                            Some(t2) => tb <= t2,
                            None => true,
                        } by {
                            if x != p {
                                assert(objects_below(i).contains(x));
                            }
                        }
                        assert(is_closest(objects_below(i + 1), h, lo, hi, next));
                    },
                    None => {
                        assert(hit_in(h, p, lo, hi) is None);
                        assert forall|x: usize| #[trigger] objects_below(i + 1).contains(x) implies hit_in(h, x, lo, hi) is None by {
                            if x != p {
                                assert(objects_below(i).contains(x));
                            }
                        }
                    },
                }
            },
        }
        lemma_scan_step(i + 1, n, h, lo, hi, next, next_bound);
    }
}

/// The linear scan finds a closest hit among all the objects, whenever the
/// objects' answers are nearest-in-interval ones.
pub proof fn lemma_scan_closest(n: nat, h: spec_fn(usize, u64, u64) -> Option<u64>, lo: u64, hi: u64)
    requires
        nearest_in_interval(h),
        n <= usize::MAX + 1,
    ensures
        is_closest(objects_below(n), h, lo, hi, scan(0, n, h, lo, None, hi)),
{
    assert forall|p: usize| #[trigger] objects_below(0).contains(p) implies hit_in(h, p, lo, hi) is None by {
        lemma_objects_below_contains(0, p);
    }
    lemma_scan_step(0, n, h, lo, hi, None, hi);
}

/// Finds the closest hit among the objects `0..count` over
/// `[t_min, t_max]`: each object is tested up to the distance of the best
/// hit so far, so that a farther one cannot register.
pub fn closest_hit<P: Fn(usize, u64, u64) -> Option<u64>>(
    count: usize,
    hit_object: &P,
    t_min: u64,
    t_max: u64,
) -> (r: Option<(usize, u64)>)
    requires
        forall|p: usize, lo: u64, hi: u64| hit_object.requires((p, lo, hi)),
    ensures
        r matches Some((p, t)) ==> p < count && t_min <= t && t <= t_max,
        forall|h: spec_fn(usize, u64, u64) -> Option<u64>|
            agrees(*hit_object, h) ==> r == scan(0, count as nat, h, t_min, None, t_max),
        forall|h: spec_fn(usize, u64, u64) -> Option<u64>|
            agrees(*hit_object, h) && nearest_in_interval(h) ==> is_closest(
                objects_below(count as nat),
                h,
                t_min,
                t_max,
                r,
            ),
{
    let mut best: Option<(usize, u64)> = None;
    let mut bound: u64 = t_max;
    let mut i: usize = 0;
    while i < count
        invariant
            i <= count,
            forall|p: usize, lo: u64, hi: u64| hit_object.requires((p, lo, hi)),
            t_min <= bound <= t_max || best is None && bound == t_max,
            best matches Some((p, t)) ==> p < i && t_min <= t && t == bound,
            forall|h: spec_fn(usize, u64, u64) -> Option<u64>|
                agrees(*hit_object, h) ==> scan(0, count as nat, h, t_min, None, t_max) == scan(
                    i as nat,
                    count as nat,
                    h,
                    t_min,
                    best,
                    bound,
                ),
        decreases count - i,
    {
        let answer = hit_object(i, t_min, bound);
        let kept = match answer {
            Some(t) => if t_min <= t && t <= bound { Some(t) } else { None },
            None => None,
        };
        proof {
            assert forall|h: spec_fn(usize, u64, u64) -> Option<u64>| agrees(*hit_object, h) implies kept
                == hit_in(h, i, t_min, bound) by {
                assert(hit_object.ensures((i, t_min, bound), answer));
            }
        }
        match kept {
            Some(t) => {
                best = Some((i, t));
                bound = t;
            },
            None => {},
        }
        i = i + 1;
    }
    proof {
        assert forall|h: spec_fn(usize, u64, u64) -> Option<u64>|
            agrees(*hit_object, h) && nearest_in_interval(h) implies is_closest(
            objects_below(count as nat),
            h,
            t_min,
            t_max,
            best,
        ) by {
            lemma_scan_closest(count as nat, h, t_min, t_max);
        }
    }
    best
}

/// Two closest hits over lists that hold the same objects lie at the same
/// distance.
pub proof fn lemma_closest_unique(
    objs1: Seq<usize>,
    objs2: Seq<usize>,
    h: spec_fn(usize, u64, u64) -> Option<u64>,
    lo: u64,
    hi: u64,
    r1: Option<(usize, u64)>,
    r2: Option<(usize, u64)>,
)
    requires
        forall|p: usize| objs1.contains(p) <==> objs2.contains(p),
        is_closest(objs1, h, lo, hi, r1),
        is_closest(objs2, h, lo, hi, r2),
    ensures
        dist(r1) == dist(r2),
{
    match r1 {
        Some((q1, t1)) => {
            assert(objs2.contains(q1));
            match r2 {
                Some((q2, t2)) => {
                    assert(objs1.contains(q2));
                },
                None => {},
            }
        },
        None => {
            if let Some((q2, t2)) = r2 {
                assert(objs1.contains(q2));
            }
        },
    }
}

} // verus!
