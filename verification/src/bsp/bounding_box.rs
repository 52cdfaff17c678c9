use vstd::prelude::*;

verus! {

/// On which side of a plane a point lies (a point on the plane counts as front).
#[derive(Debug, Clone, Copy, PartialEq, Eq, Hash)]
pub enum PlaneSide {
    Front,
    Back,
}

/// Where a box lies relative to a plane.
#[derive(Debug, Clone, Copy, PartialEq, Eq, Hash)]
pub enum BoundingBoxPlaneSide {
    Front,
    Back,
    Spanning,
}

/// The side of a box given the sides of its eight corners: spanning when the
/// corners lie on both sides, else the side they all lie on.
pub open spec fn box_side(corners: Seq<PlaneSide>) -> BoundingBoxPlaneSide {
    let some_front = exists|i: int| 0 <= i < corners.len() && corners[i] is Front;
    let some_back = exists|i: int| 0 <= i < corners.len() && corners[i] is Back;
    if some_front && some_back {
        BoundingBoxPlaneSide::Spanning
    } else if some_front {
        BoundingBoxPlaneSide::Front
    } else {
        BoundingBoxPlaneSide::Back
    }
}

/// Classifies a box from the sides of its eight corners, by counting the corners
/// on each side.
pub fn plane_side_from_corner_sides(corners: &[PlaneSide; 8]) -> (r: BoundingBoxPlaneSide)
    ensures
        r == box_side(corners@),
        r is Front <==> forall|i: int| 0 <= i < 8 ==> #[trigger] corners@[i] is Front,
        r is Back <==> forall|i: int| 0 <= i < 8 ==> #[trigger] corners@[i] is Back,
{
    let mut front: u32 = 0;
    let mut back: u32 = 0;
    let mut i: usize = 0;
    while i < 8
        invariant
            0 <= i <= 8,
            front + back == i,
            front > 0 <==> exists|j: int| 0 <= j < i && corners@[j] is Front,
            back > 0 <==> exists|j: int| 0 <= j < i && corners@[j] is Back,
        decreases 8 - i,
    {
        match corners[i] {
            PlaneSide::Front => front = front + 1,
            PlaneSide::Back => back = back + 1,
        }
        i = i + 1;
    }
    if 0 < front && 0 < back {
        BoundingBoxPlaneSide::Spanning
    } else if 0 < front {
        assert forall|j: int| 0 <= j < 8 implies #[trigger] corners@[j] is Front by {
            if corners@[j] is Back {
                assert(exists|k: int| 0 <= k < 8 && corners@[k] is Back);
            }
        }
        BoundingBoxPlaneSide::Front
    } else {
        assert(corners@[0] is Front || corners@[0] is Back);
        assert forall|j: int| 0 <= j < 8 implies #[trigger] corners@[j] is Back by {
            if corners@[j] is Front {
                assert(exists|k: int| 0 <= k < 8 && corners@[k] is Front);
            }
        }
        BoundingBoxPlaneSide::Back
    }
}

} // verus!
