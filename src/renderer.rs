//! The recursive path-tracing integrator.
//!
//! What a ray meets, how it scatters, the sky's colour and the product of
//! colours are numeric work of the caller, handed in as closures; the
//! integrator decides how they combine and when the recursion ends.
use vstd::prelude::*;
use crate::key::INFINITY_KEY;

verus! {

/// The key of `0.001`, the nearest distance at which a ray can meet a
/// surface: a ray leaving a surface does not meet that surface again at
/// its own starting point.
pub const SURFACE_EPSILON_KEY: u64 = 0xBF50_624D_D2F1_A9FC;

/// What a ray met in the scene.
pub enum Bounce<R, C> {
    /// Nothing: the ray goes off to the sky.
    Missed,
    /// A surface that absorbed it.
    Absorbed,
    /// A surface that sent out `ray`, with colour `attenuation`.
    Scattered { attenuation: C, ray: R },
}

/// `c` is a colour that tracing `ray` (searching the scene from
/// `SURFACE_EPSILON_KEY` to `INFINITY_KEY`) with `depth` bounces left can give:
/// black once the depth is used up or where the ray is absorbed, the sky's
/// colour where it escapes, and the attenuation times the colour of the
/// scattered ray, traced one bounce shallower, where it scatters.
pub open spec fn can_return<R, C, T: Fn(&R, u64, u64) -> Bounce<R, C>, S: Fn(&R) -> C, M: Fn(C, C) -> C>(
    trace: T,
    sky: S,
    times: M,
    black: C,
    ray: R,
    depth: nat,
    c: C,
) -> bool
    decreases depth,
{
    if depth == 0 {
        c == black
    } else {
        exists|b: Bounce<R, C>|
            #![trigger trace.ensures((&ray, SURFACE_EPSILON_KEY, INFINITY_KEY), b)]
            trace.ensures((&ray, SURFACE_EPSILON_KEY, INFINITY_KEY), b) && match b {
                Bounce::Missed => sky.ensures((&ray,), c),
                Bounce::Absorbed => c == black,
                Bounce::Scattered { attenuation, ray: next } => exists|inner: C|
                    #![trigger times.ensures((attenuation, inner), c)]
                    can_return(trace, sky, times, black, next, (depth - 1) as nat, inner) && times.ensures(
                        (attenuation, inner),
                        c,
                    ),
            }
    }
}

/// The colour seen along `ray`, following at most `depth` bounces.
pub fn ray_color<R, C: Copy, T: Fn(&R, u64, u64) -> Bounce<R, C>, S: Fn(&R) -> C, M: Fn(C, C) -> C>(
    ray: &R,
    depth: u32,
    trace: &T,
    sky: &S,
    times: &M,
    black: C,
) -> (r: C)
    requires
        forall|x: &R, lo: u64, hi: u64| trace.requires((x, lo, hi)),
        forall|x: &R| sky.requires((x,)),
        forall|a: C, b: C| times.requires((a, b)),
    ensures
        depth == 0 ==> r == black,
        can_return(*trace, *sky, *times, black, *ray, depth as nat, r),
    decreases depth,
{
    if depth == 0 {
        return black;
    }
    let b = trace(ray, SURFACE_EPSILON_KEY, INFINITY_KEY);
    match b {
        Bounce::Missed => {
            let c = sky(ray);
            proof {
                assert(trace.ensures((ray, SURFACE_EPSILON_KEY, INFINITY_KEY), b));
            }
            c
        },
        Bounce::Absorbed => {
            proof {
                assert(trace.ensures((ray, SURFACE_EPSILON_KEY, INFINITY_KEY), b));
            }
            black
        },
        Bounce::Scattered { attenuation, ray: next } => {
            let inner = ray_color(&next, depth - 1, trace, sky, times, black);
            let c = times(attenuation, inner);
            proof {
                assert(trace.ensures((ray, SURFACE_EPSILON_KEY, INFINITY_KEY), b));
                assert(can_return(*trace, *sky, *times, black, next, (depth - 1) as nat, inner));
                assert(times.ensures((attenuation, inner), c));
            }
            c
        },
    }
}

/// With no bounce left, every ray and every scene give black.
pub proof fn lemma_depth_zero_is_black<R, C, T: Fn(&R, u64, u64) -> Bounce<R, C>, S: Fn(&R) -> C, M: Fn(C, C) -> C>(
    trace: T,
    sky: S,
    times: M,
    black: C,
    ray: R,
    c: C,
)
    requires
        can_return(trace, sky, times, black, ray, 0, c),
    ensures
        c == black,
{
}

} // verus!
