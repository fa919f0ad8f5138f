//! Changes that are made to activities before they are listed.
use vstd::prelude::*;
use crate::data::activity::{Activity, ActivityView};

verus! {

/// A change that is made to each activity before it is listed, such as the
/// rounding of its times.
pub trait ActivityProcessor {
    /// What the processor makes of an activity.
    spec fn processed(&self, activity: ActivityView) -> ActivityView;

    fn process(&self, activity: &Activity) -> (r: Activity)
        ensures
            r@ == self.processed(activity@),
    ;
}

/// What some processors make of an activity, one after the other.
pub open spec fn processed_by_all(
    processors: Seq<Box<dyn ActivityProcessor>>,
    activity: ActivityView,
) -> ActivityView
    decreases processors.len(),
{
    if processors.len() == 0 {
        activity
    } else {
        processors.last().processed(processed_by_all(processors.drop_last(), activity))
    }
}

/// Each activity as the processors leave it, one processor after the other.
pub fn process_activities(
    activities: Vec<&Activity>,
    processors: Vec<Box<dyn ActivityProcessor>>,
) -> (r: Vec<Activity>)
    ensures
        r.len() == activities.len(),
        forall|i: int|
            0 <= i < r.len() ==> (#[trigger] r@[i])@ == processed_by_all(
                processors@,
                activities@[i]@,
            ),
{
    let mut done: Vec<Activity> = Vec::new();
    let mut i: usize = 0;
    while i < activities.len()
        invariant
            i <= activities.len(),
            done.len() == i,
            forall|k: int|
                0 <= k < i ==> (#[trigger] done@[k])@ == processed_by_all(
                    processors@,
                    activities@[k]@,
                ),
        decreases activities.len() - i,
    {
        let mut activity = activities[i].clone();
        let mut k: usize = 0;
        assert(processors@.take(0) =~= Seq::<Box<dyn ActivityProcessor>>::empty());
        while k < processors.len()
            invariant
                k <= processors.len(),
                i < activities.len(),
                activity@ == processed_by_all(processors@.take(k as int), activities@[i as int]@),
            decreases processors.len() - k,
        {
            proof {
                let next = processors@.take(k + 1);
                assert(next.drop_last() =~= processors@.take(k as int));
                assert(next.last() == processors@[k as int]);
            }
            activity = processors[k].process(&activity);
            k += 1;
        }
        assert(processors@.take(k as int) =~= processors@);
        done.push(activity);
        i += 1;
    }
    done
}

} // verus!
