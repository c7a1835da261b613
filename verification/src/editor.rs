use vstd::prelude::*;

use crate::learner::Datapoint;
use crate::learner::Label;

verus! {

/// The least index `i >= start` of a point at position `p`, if any.
pub open spec fn first_at_position(
    points: Seq<Datapoint>,
    p: (i32, i32),
    start: int,
) -> Option<int>
    decreases points.len() - start,
{
    if start >= points.len() {
        None
    } else if points[start].pos == p {
        Some(start)
    } else {
        first_at_position(points, p, start + 1)
    }
}

/// Edits the point list at the given position, the way an interactive editor
/// does. With a label, the first point at that position is relabeled (a no-op
/// when it already carries that label), or a new point is appended when none
/// is there. Without a label, the first point at that position is removed, if
/// any. Reports whether the list changed; on any change the caller must
/// rebuild its learner, since a live cursor does not survive edits.
pub fn modify_datapoint(
    datapoints: &mut Vec<Datapoint>,
    point: (i32, i32),
    label: Option<Label>,
) -> (changed: bool)
    ensures
        match label {
            Some(l) => match first_at_position(old(datapoints)@, point, 0) {
                Some(i) => {
                    if old(datapoints)@[i].label != l {
                        changed && final(datapoints)@ == old(datapoints)@.update(
                            i,
                            (Datapoint { pos: old(datapoints)@[i].pos, label: l }),
                        )
                    } else {
                        !changed && final(datapoints)@ == old(datapoints)@
                    }
                },
                None => changed && final(datapoints)@ == old(datapoints)@.push(
                    (Datapoint { pos: point, label: l }),
                ),
            },
            None => match first_at_position(old(datapoints)@, point, 0) {
                Some(i) => changed && final(datapoints)@ == old(datapoints)@.remove(i),
                None => !changed && final(datapoints)@ == old(datapoints)@,
            },
        },
{
    let n = datapoints.len();
    let mut i: usize = 0;
    while i < n
        invariant
            n == datapoints@.len(),
            i <= n,
            datapoints@ == old(datapoints)@,
            first_at_position(datapoints@, point, 0) == first_at_position(
                datapoints@,
                point,
                i as int,
            ),
        decreases n - i,
    {
        let candidate = datapoints[i];
        if candidate.pos.0 == point.0 && candidate.pos.1 == point.1 {
            proof {
                assert(datapoints@[i as int].pos == point);
                assert(first_at_position(datapoints@, point, i as int) == Some(i as int));
            }
            match label {
                Some(l) => {
                    if candidate.label != l {
                        datapoints[i] = Datapoint { pos: candidate.pos, label: l };
                        return true;
                    }
                    return false;
                },
                None => {
                    datapoints.remove(i);
                    return true;
                },
            }
        }
        i = i + 1;
        proof {
            assert(first_at_position(datapoints@, point, i - 1) == first_at_position(
                datapoints@,
                point,
                i as int,
            ));
        }
    }
    proof {
        assert(first_at_position(datapoints@, point, i as int) is None);
    }
    match label {
        Some(l) => {
            datapoints.push(Datapoint { pos: point, label: l });
            true
        },
        None => false,
    }
}

} // verus!
