use super::bounding_box::PlaneSide;
use vstd::prelude::*;

verus! {

/// How a triangle lies relative to a plane; for a split triangle, the vertex
/// indices on each side, in the triangle's winding order.
#[derive(Debug, Clone, PartialEq)]
pub enum TrianglePlaneSide {
    Front,
    Back,
    Front2Back1 { front: [usize; 2], back: [usize; 1] },
    Back2Front1 { front: [usize; 1], back: [usize; 2] },
}

#[derive(Debug, Clone, PartialEq)]
pub struct Triangle {
    /// Indices of the vertices of the triangle. It follows the winding order of the mesh.
    pub indices: [usize; 3],
}

/// `(a, b, c)` is one of the three rotations of the triangle's indices.
pub open spec fn is_rotation(t: Seq<usize>, a: usize, b: usize, c: usize) -> bool {
    ||| (a == t[0] && b == t[1] && c == t[2])
    ||| (a == t[1] && b == t[2] && c == t[0])
    ||| (a == t[2] && b == t[0] && c == t[1])
}

/// The classification of a triangle from the sides of its three vertices.
pub open spec fn triangle_side(t: Seq<usize>, s: Seq<PlaneSide>) -> TrianglePlaneSide {
    match (s[0], s[1], s[2]) {
        (PlaneSide::Front, PlaneSide::Front, PlaneSide::Front) => TrianglePlaneSide::Front,
        (PlaneSide::Front, PlaneSide::Front, PlaneSide::Back) => TrianglePlaneSide::Front2Back1 {
            front: [t[0], t[1]],
            back: [t[2]],
        },
        (PlaneSide::Front, PlaneSide::Back, PlaneSide::Front) => TrianglePlaneSide::Front2Back1 {
            front: [t[2], t[0]],
            back: [t[1]],
        },
        (PlaneSide::Front, PlaneSide::Back, PlaneSide::Back) => TrianglePlaneSide::Back2Front1 {
            front: [t[0]],
            back: [t[1], t[2]],
        },
        (PlaneSide::Back, PlaneSide::Front, PlaneSide::Front) => TrianglePlaneSide::Front2Back1 {
            front: [t[1], t[2]],
            back: [t[0]],
        },
        (PlaneSide::Back, PlaneSide::Front, PlaneSide::Back) => TrianglePlaneSide::Back2Front1 {
            front: [t[1]],
            back: [t[2], t[0]],
        },
        (PlaneSide::Back, PlaneSide::Back, PlaneSide::Front) => TrianglePlaneSide::Back2Front1 {
            front: [t[2]],
            back: [t[0], t[1]],
        },
        (PlaneSide::Back, PlaneSide::Back, PlaneSide::Back) => TrianglePlaneSide::Back,
    }
}

/// For a split with one vertex alone on its side: the vertex at place `k` is
/// the lone one, at index `lone`, and the two others follow it in the winding
/// order, at indices `pair0` and `pair1`.
pub open spec fn lone_at(t: Seq<usize>, k: int, lone: usize, pair0: usize, pair1: usize) -> bool {
    &&& lone == t[k]
    &&& pair0 == t[(k + 1) % 3]
    &&& pair1 == t[(k + 2) % 3]
}

/// The number of vertices behind the plane.
pub open spec fn back_count(s: Seq<PlaneSide>) -> int {
    (if s[0] is Back { 1int } else { 0int }) + (if s[1] is Back { 1int } else { 0int }) + (if s[2] is Back {
        1int
    } else {
        0int
    })
}

/// A triangle lies wholly in front exactly when no vertex is behind, wholly
/// behind exactly when all are, and is split otherwise: with one vertex behind
/// it lists that vertex (the one whose side is `Back`) as its back one and the
/// two others as its front ones, and with two behind it lists the one in front
/// as its front one and the two others as its back ones; the others follow
/// the lone vertex in the winding order.
pub proof fn lemma_split_sides(t: Seq<usize>, s: Seq<PlaneSide>)
    requires
        t.len() == 3,
        s.len() == 3,
    ensures
        (triangle_side(t, s) is Front) <==> back_count(s) == 0,
        (triangle_side(t, s) is Back) <==> back_count(s) == 3,
        (triangle_side(t, s) is Front2Back1) <==> back_count(s) == 1,
        (triangle_side(t, s) is Back2Front1) <==> back_count(s) == 2,
        triangle_side(t, s) matches TrianglePlaneSide::Front2Back1 { front, back } ==> {
            &&& s[0] is Back ==> lone_at(t, 0, back[0], front[0], front[1])
            &&& s[1] is Back ==> lone_at(t, 1, back[0], front[0], front[1])
            &&& s[2] is Back ==> lone_at(t, 2, back[0], front[0], front[1])
        },
        triangle_side(t, s) matches TrianglePlaneSide::Back2Front1 { front, back } ==> {
            &&& s[0] is Front ==> lone_at(t, 0, front[0], back[0], back[1])
            &&& s[1] is Front ==> lone_at(t, 1, front[0], back[0], back[1])
            &&& s[2] is Front ==> lone_at(t, 2, front[0], back[0], back[1])
        },
{
}

impl Triangle {
    /// Classifies the triangle given the side of each of its vertices (in the
    /// order of `indices`). A split lists the vertices on each side so that,
    /// front ones first, they are a rotation of the winding order.
    pub fn plane_side_from_sides(&self, sides: [PlaneSide; 3]) -> (r: TrianglePlaneSide)
        ensures
            r == triangle_side(self.indices@, sides@),
            (r is Front) <==> (sides[0] is Front && sides[1] is Front && sides[2] is Front),
            (r is Back) <==> (sides[0] is Back && sides[1] is Back && sides[2] is Back),
            r matches TrianglePlaneSide::Front2Back1 { front, back } ==> is_rotation(
                self.indices@,
                front[0],
                front[1],
                back[0],
            ),
            r matches TrianglePlaneSide::Back2Front1 { front, back } ==> is_rotation(
                self.indices@,
                front[0],
                back[0],
                back[1],
            ),
            r matches TrianglePlaneSide::Front2Back1 { front, back } ==> {
                &&& sides[0] is Back ==> lone_at(self.indices@, 0, back[0], front[0], front[1])
                &&& sides[1] is Back ==> lone_at(self.indices@, 1, back[0], front[0], front[1])
                &&& sides[2] is Back ==> lone_at(self.indices@, 2, back[0], front[0], front[1])
            },
            r matches TrianglePlaneSide::Back2Front1 { front, back } ==> {
                &&& sides[0] is Front ==> lone_at(self.indices@, 0, front[0], back[0], back[1])
                &&& sides[1] is Front ==> lone_at(self.indices@, 1, front[0], back[0], back[1])
                &&& sides[2] is Front ==> lone_at(self.indices@, 2, front[0], back[0], back[1])
            },
            (r is Front2Back1) <==> back_count(sides@) == 1,
            (r is Back2Front1) <==> back_count(sides@) == 2,
    {
        let t = self.indices;
        match (sides[0], sides[1], sides[2]) {
            (PlaneSide::Front, PlaneSide::Front, PlaneSide::Front) => TrianglePlaneSide::Front,
            (PlaneSide::Front, PlaneSide::Front, PlaneSide::Back) => TrianglePlaneSide::Front2Back1 {
                front: [t[0], t[1]],
                back: [t[2]],
            },
            (PlaneSide::Front, PlaneSide::Back, PlaneSide::Front) => TrianglePlaneSide::Front2Back1 {
                front: [t[2], t[0]],
                back: [t[1]],
            },
            (PlaneSide::Front, PlaneSide::Back, PlaneSide::Back) => TrianglePlaneSide::Back2Front1 {
                front: [t[0]],
                back: [t[1], t[2]],
            },
            (PlaneSide::Back, PlaneSide::Front, PlaneSide::Front) => TrianglePlaneSide::Front2Back1 {
                front: [t[1], t[2]],
                back: [t[0]],
            },
            (PlaneSide::Back, PlaneSide::Front, PlaneSide::Back) => TrianglePlaneSide::Back2Front1 {
                front: [t[1]],
                back: [t[2], t[0]],
            },
            (PlaneSide::Back, PlaneSide::Back, PlaneSide::Front) => TrianglePlaneSide::Back2Front1 {
                front: [t[2]],
                back: [t[0], t[1]],
            },
            (PlaneSide::Back, PlaneSide::Back, PlaneSide::Back) => TrianglePlaneSide::Back,
        }
    }
}

} // verus!
