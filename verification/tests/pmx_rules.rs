use lvl_core::gfx::elements::morph::MaterialActiveOffset;
use lvl_core::gfx::elements::pmx_model::{PmxModelVertexLayout, PmxVertexElementKind, PmxVertexLayoutElement};
use lvl_core::gfx::vertex_attributes::{plan_vertex_attributes, VertexAttributePlan, VertexFormatKind};
use lvl_core::scene::components::pmx_model_renderer::{pmx_pipeline_shape, PrimitiveTopologyKind};

#[test]
fn pmx_inputs_are_named_for_the_shader() {
    assert_eq!(PmxVertexElementKind::Position.shader_input_name(), "position");
    assert_eq!(PmxVertexElementKind::TexCoord.shader_input_name(), "uv");
    assert_eq!(PmxVertexElementKind::AdditionalVec4(0).shader_input_name(), "additional_0_");
    assert_eq!(PmxVertexElementKind::AdditionalVec4(12).shader_input_name(), "additional_12_");
    assert_eq!(PmxVertexElementKind::AdditionalVec4(4294967295).shader_input_name(), "additional_4294967295_");
    assert_eq!(PmxVertexElementKind::VertexMorphIndexStart.shader_input_name(), "vertex_morph_index_start");
    assert_eq!(PmxVertexElementKind::BoneIndex.vertex_format(), VertexFormatKind::Uint32x4);
    assert_eq!(PmxVertexElementKind::EdgeSize.vertex_format(), VertexFormatKind::Float32);
}

#[test]
fn pmx_layout_stride_is_the_furthest_attribute_end() {
    let layout = PmxModelVertexLayout::new(vec![
        PmxVertexLayoutElement { kind: PmxVertexElementKind::Position, offset: 0 },
        PmxVertexLayoutElement { kind: PmxVertexElementKind::BoneWeight, offset: 40 },
        PmxVertexLayoutElement { kind: PmxVertexElementKind::DeformKind, offset: 12 },
    ]);
    assert_eq!(layout.stride, 56);
    assert_eq!(PmxModelVertexLayout::new(vec![]).stride, 0);

    let locations = vec![("bone_weight".to_string(), 3u32), ("deform_kind".to_string(), 2u32)];
    assert_eq!(
        plan_vertex_attributes(&layout.vertex_inputs(), &locations),
        vec![
            VertexAttributePlan { format: VertexFormatKind::Float32x4, offset: 40, shader_location: 3 },
            VertexAttributePlan { format: VertexFormatKind::Uint32, offset: 12, shader_location: 2 },
        ]
    );
}

#[test]
fn pmx_pipelines_follow_the_render_state() {
    let shape = pmx_pipeline_shape(true, true, false, false);
    assert_eq!(shape.topology, PrimitiveTopologyKind::PointList);
    assert!(shape.cull_back_faces);
    assert!(!shape.alpha_blending);
    let shape = pmx_pipeline_shape(false, true, true, true);
    assert_eq!(shape.topology, PrimitiveTopologyKind::LineList);
    assert!(!shape.cull_back_faces);
    assert!(shape.alpha_blending);
    assert_eq!(pmx_pipeline_shape(false, false, false, false).topology, PrimitiveTopologyKind::TriangleList);
}

#[test]
fn active_offsets_keep_the_first_offset_of_a_morph() {
    let mut offsets: MaterialActiveOffset<&str> = MaterialActiveOffset::new();
    assert!(!offsets.is_dirty);
    offsets.add(3, "blush");
    assert!(offsets.is_dirty);
    offsets.is_dirty = false;
    offsets.add(3, "pale");
    assert!(!offsets.is_dirty);
    assert_eq!(offsets.offsets.get(&3), Some(&"blush"));
    offsets.remove(7);
    assert!(!offsets.is_dirty);
    offsets.remove(3);
    assert!(offsets.is_dirty);
    assert!(offsets.offsets.is_empty());
}
