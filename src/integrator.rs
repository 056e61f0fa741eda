use vstd::prelude::*;

verus! {

/// Number of bounces after which a path that keeps hitting surfaces is cut off.
pub const MAX_DEPTH: u32 = 50;

/// What the radiance estimator does with a ray after intersecting it with the scene.
#[derive(Debug, Clone, Copy, PartialEq, Eq, Structural)]
pub enum TraceStep {
    /// The ray escaped: its color is the sky gradient.
    Background,
    /// The path is cut off: its color is black.
    Black,
    /// The surface's material is asked to scatter the ray.
    Scatter,
}

/// The step taken at bounce `depth`: the sky on a miss, a scatter on a hit below the
/// cap, black on a hit at or past it.
pub open spec fn intersection_step(depth: nat, hit: bool) -> TraceStep {
    if !hit {
        TraceStep::Background
    } else if depth < MAX_DEPTH {
        TraceStep::Scatter
    } else {
        TraceStep::Black
    }
}

/// Decides the fate of a ray at bounce `depth`, given whether it hit the scene.
pub fn on_intersection(depth: u32, hit: bool) -> (r: TraceStep)
    ensures
        r == intersection_step(depth as nat, hit),
{
    if !hit {
        TraceStep::Background
    } else if depth < MAX_DEPTH {
        TraceStep::Scatter
    } else {
        TraceStep::Black
    }
}

/// After the material at bounce `depth` has been asked to scatter: the depth of the
/// next bounce when it did, `None` (the path is absorbed, black) when it did not.
pub fn after_scatter(depth: u32, scattered: bool) -> (r: Option<u32>)
    requires
        depth < MAX_DEPTH,
    ensures
        scattered ==> r == Some((depth + 1) as u32),
        !scattered ==> r.is_none(),
{
    if scattered {
        Some(depth + 1)
    } else {
        None
    }
}

/// How a traced path ends, and after how many bounces.
pub enum PathEnd {
    /// The path escaped to the sky after `bounces` bounces.
    Sky { bounces: nat },
    /// The path went black after `bounces` bounces (absorbed, or cut off at the cap).
    Black { bounces: nat },
}

impl PathEnd {
    pub open spec fn bounces(self) -> nat {
        match self {
            PathEnd::Sky { bounces } => bounces,
            PathEnd::Black { bounces } => bounces,
        }
    }
}

/// The path that the estimator follows from bounce `depth` on, when the ray of bounce
/// `d` hits the scene exactly when `hits(d)`, and the material it hits scatters exactly
/// when `scatters(d)`. Each step is the one `on_intersection` and `after_scatter` take.
pub open spec fn trace_path(
    depth: nat,
    hits: spec_fn(nat) -> bool,
    scatters: spec_fn(nat) -> bool,
) -> PathEnd
    decreases MAX_DEPTH - depth,
{
    match intersection_step(depth, hits(depth)) {
        TraceStep::Background => PathEnd::Sky { bounces: depth },
        TraceStep::Black => PathEnd::Black { bounces: depth },
        TraceStep::Scatter => if scatters(depth) {
            trace_path(depth + 1, hits, scatters)
        } else {
            PathEnd::Black { bounces: depth }
        },
    }
}

/// Every path ends, after at most `MAX_DEPTH` bounces, whatever the scene and the
/// materials do.
pub proof fn lemma_path_is_bounded(depth: nat, hits: spec_fn(nat) -> bool, scatters: spec_fn(nat) -> bool)
    requires
        depth <= MAX_DEPTH,
    ensures
        depth <= trace_path(depth, hits, scatters).bounces() <= MAX_DEPTH,
    decreases MAX_DEPTH - depth,
{
    if hits(depth) && depth < MAX_DEPTH && scatters(depth) {
        lemma_path_is_bounded(depth + 1, hits, scatters);
    }
}

/// A ray inside a scene where every ray hits a surface and every scatter succeeds
/// (a camera enclosed in a diffuse sphere) is black, cut off at exactly `MAX_DEPTH`.
pub proof fn lemma_enclosed_path_is_black(depth: nat, hits: spec_fn(nat) -> bool, scatters: spec_fn(nat) -> bool)
    requires
        depth <= MAX_DEPTH,
        forall|d: nat| #[trigger] hits(d),
        forall|d: nat| #[trigger] scatters(d),
    ensures
        trace_path(depth, hits, scatters) == (PathEnd::Black { bounces: MAX_DEPTH as nat }),
    decreases MAX_DEPTH - depth,
{
    if depth < MAX_DEPTH {
        lemma_enclosed_path_is_black(depth + 1, hits, scatters);
    }
}

} // verus!
