//! Dispatch of a motion to the interpolator that matches its kind.
use vstd::prelude::*;
use crate::circular::{circular_interpolate, is_plan_of, ArcPlan};
use crate::geometry::{Motion, MotionError, Point3};
use crate::linear::{linear_interpolate, linear_path};

verus! {

/// The discretized form of one motion.
#[derive(Debug)]
pub enum Path {
    /// The waypoints of a straight segment.
    Linear(Vec<Point3>),
    /// The samples of an arc.
    Arc(ArcPlan),
}

/// Discretizes a motion with the interpolator of its kind.
pub fn discretize(m: Motion) -> (r: Result<Path, MotionError>)
    requires
        m.wf(),
    ensures
        (m is Linear) ==> (r is Ok) && (r->Ok_0 is Linear) && (r->Ok_0->Linear_0)@ == linear_path(
            m->Linear_0.start,
            m->Linear_0.end,
        ),
        ((m is Circular) && m->Circular_0.radius <= 0) ==> r == Err::<Path, MotionError>(
            MotionError::InvalidRadius,
        ),
        ((m is Circular) && m->Circular_0.radius > 0) ==> ((r is Ok) && (r->Ok_0 is Arc)
            && is_plan_of(r->Ok_0->Arc_0, m->Circular_0)),
{
    match m {
        Motion::Linear(l) => {
            let pts = linear_interpolate(l.start, l.end);
            Ok(Path::Linear(pts))
        },
        Motion::Circular(c) => {
            let res = circular_interpolate(c);
            match res {
                Ok(p) => Ok(Path::Arc(p)),
                Err(e) => Err(e),
            }
        },
    }
}

} // verus!
