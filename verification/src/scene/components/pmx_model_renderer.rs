use vstd::prelude::*;

verus! {

/// How the primitives of a mesh are assembled.
#[derive(Debug, Clone, Copy, PartialEq, Eq, Hash)]
pub enum PrimitiveTopologyKind {
    PointList,
    LineList,
    TriangleList,
}

/// The parts of a PMX element's render pipeline that its material decides.
#[derive(Debug, Clone, Copy, PartialEq, Eq, Hash)]
pub struct PmxPipelineShape {
    pub topology: PrimitiveTopologyKind,
    pub cull_back_faces: bool,
    pub alpha_blending: bool,
}

/// The pipeline shape for a material's render state: points over lines over
/// triangles, back faces culled unless the material says otherwise, and alpha
/// blending for transparent materials.
pub fn pmx_pipeline_shape(
    point_drawing: bool,
    line_drawing: bool,
    no_cull_back_face: bool,
    transparent: bool,
) -> (r: PmxPipelineShape)
    ensures
        r.topology == if point_drawing {
            PrimitiveTopologyKind::PointList
        } else if line_drawing {
            PrimitiveTopologyKind::LineList
        } else {
            PrimitiveTopologyKind::TriangleList
        },
        r.cull_back_faces == !no_cull_back_face,
        r.alpha_blending == transparent,
{
    let topology = if point_drawing {
        PrimitiveTopologyKind::PointList
    } else if line_drawing {
        PrimitiveTopologyKind::LineList
    } else {
        PrimitiveTopologyKind::TriangleList
    };
    PmxPipelineShape { topology, cull_back_faces: !no_cull_back_face, alpha_blending: transparent }
}

} // verus!
