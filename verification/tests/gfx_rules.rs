use lvl_core::bsp::bounding_box::{plane_side_from_corner_sides, BoundingBoxPlaneSide, PlaneSide};
use lvl_core::bsp::triangle::{Triangle, TrianglePlaneSide};
use lvl_core::gfx::depth_stencil::{is_renderable_size, DepthStencilMode};
use lvl_core::gfx::elements::material::{MaterialPropertyKind, MaterialValueKind};
use lvl_core::gfx::elements::mesh_layout;
use lvl_core::gfx::elements::shader::bind_group_layout_plan;
use lvl_core::gfx::elements::pmx_model_animation::{current_key_frame, CurrentKeyFrame};
use lvl_core::gfx::elements::static_mesh;
use lvl_core::gfx::gfx_context::{select_adapter, AdapterBackend, AdapterCandidate, AdapterDeviceType};
use lvl_core::gfx::glyph::glyph_texture::{GlyphTexelMapping, GlyphTextureCursor};
use lvl_core::gfx::per_frame_buffer_pool::{PerFrameBufferSpace, SingleBufferSpace, SINGLE_BUFFER_SIZE};

use lvl_core::gfx::vertex_attributes::{plan_vertex_attributes, VertexAttributePlan, VertexFormatKind};
use PlaneSide::{Back, Front};

#[test]
fn box_sides_follow_the_corners() {
    assert_eq!(plane_side_from_corner_sides(&[Front; 8]), BoundingBoxPlaneSide::Front);
    assert_eq!(plane_side_from_corner_sides(&[Back; 8]), BoundingBoxPlaneSide::Back);
    let mut corners = [Front; 8];
    corners[5] = Back;
    assert_eq!(plane_side_from_corner_sides(&corners), BoundingBoxPlaneSide::Spanning);
}

#[test]
fn triangle_splits_keep_the_winding_order() {
    let t = Triangle { indices: [10, 11, 12] };
    assert_eq!(t.plane_side_from_sides([Front, Front, Front]), TrianglePlaneSide::Front);
    assert_eq!(t.plane_side_from_sides([Back, Back, Back]), TrianglePlaneSide::Back);
    assert_eq!(
        t.plane_side_from_sides([Front, Back, Front]),
        TrianglePlaneSide::Front2Back1 { front: [12, 10], back: [11] }
    );
    assert_eq!(
        t.plane_side_from_sides([Back, Front, Back]),
        TrianglePlaneSide::Back2Front1 { front: [11], back: [12, 10] }
    );
    assert_eq!(
        t.plane_side_from_sides([Back, Back, Front]),
        TrianglePlaneSide::Back2Front1 { front: [12], back: [10, 11] }
    );
}

#[test]
fn depth_stencil_labels() {
    assert_eq!(DepthStencilMode::NoDepth.as_label_str(), "");
    assert_eq!(DepthStencilMode::DepthOnly.as_label_str(), "depth texture");
    assert_eq!(DepthStencilMode::DepthStencil.as_label_str(), "depth and stencil texture");
    assert!(!DepthStencilMode::NoDepth.has_texture());
    assert!(DepthStencilMode::DepthOnly.has_texture());
    assert!(is_renderable_size(1, 1));
    assert!(!is_renderable_size(0, 600));
    assert!(!is_renderable_size(800, 0));
}

#[test]
fn mesh_layout_stride_is_the_furthest_element_end() {
    let elements = vec![
        mesh_layout::MeshLayoutElement {
            name: "position".to_string(),
            kind: mesh_layout::MeshLayoutElementKind::Position,
            offset: 0,
        },
        mesh_layout::MeshLayoutElement {
            name: "uv".to_string(),
            kind: mesh_layout::MeshLayoutElementKind::TexCoord(0),
            offset: 24,
        },
        mesh_layout::MeshLayoutElement {
            name: "normal".to_string(),
            kind: mesh_layout::MeshLayoutElementKind::Normal,
            offset: 12,
        },
    ];
    assert_eq!(mesh_layout::compute_stride_from_elements(&elements), 32);
    let layout = mesh_layout::MeshLayout::new(elements.clone());
    assert_eq!(layout.stride(), 32);
    assert_eq!(layout.elements(), elements.as_slice());
    assert_eq!(mesh_layout::MeshLayout::with_stride(elements, 64).stride(), 64);
    assert_eq!(mesh_layout::compute_stride_from_elements(&[]), 0);
    assert_eq!(mesh_layout::MeshLayoutElementKind::Tangent.size(), 12);
}

#[test]
fn static_mesh_layout_counts_additional_attributes() {
    let elements = vec![
        static_mesh::MeshLayoutElement {
            name: "position".to_string(),
            kind: static_mesh::MeshLayoutElementKind::Position,
            offset: 0,
        },
        static_mesh::MeshLayoutElement {
            name: "extra".to_string(),
            kind: static_mesh::MeshLayoutElementKind::Additional(1),
            offset: 12,
        },
    ];
    assert_eq!(static_mesh::MeshLayoutElementKind::Additional(0).size(), 16);
    assert_eq!(static_mesh::MeshLayout::new(elements).stride(), 28);
}

#[test]
fn glyphs_fill_rows_then_wrap() {
    let mut cursor = GlyphTextureCursor::new();
    assert!(cursor.fits_u16(2000, 10));
    assert_eq!(
        cursor.place(2000, 10),
        Some(GlyphTexelMapping { min_x: 0, max_x: 2000, min_y: 0, max_y: 10 })
    );
    assert!(cursor.fits_u16(100, 20));
    assert_eq!(
        cursor.place(100, 20),
        Some(GlyphTexelMapping { min_x: 0, max_x: 100, min_y: 10, max_y: 30 })
    );
    assert_eq!(cursor.offset_x, 100);
    assert_eq!(cursor.offset_y, 10);
    assert_eq!(cursor.line_height, 20);
    assert_eq!(cursor.place(10, 2040), None);
}

#[test]
fn buffer_space_allocates_first_fit() {
    let mut single = SingleBufferSpace::new(100);
    assert_eq!(single.allocate(60), Some(0));
    assert_eq!(single.allocate(50), None);
    assert_eq!(single.allocate(40), Some(60));
    single.reset();
    assert_eq!(single.offset, 0);

    let mut pool = PerFrameBufferSpace::new();
    let first = pool.allocate(16);
    assert_eq!(first.buffer_index, 0);
    assert_eq!(first.offset, 0);
    assert_eq!(first.new_buffer_size, Some(SINGLE_BUFFER_SIZE));
    let second = pool.allocate(32);
    assert_eq!(second.buffer_index, 0);
    assert_eq!(second.offset, 16);
    assert_eq!(second.new_buffer_size, None);
    let big = pool.allocate(SINGLE_BUFFER_SIZE + 1);
    assert_eq!(big.buffer_index, 1);
    assert_eq!(big.new_buffer_size, Some(SINGLE_BUFFER_SIZE + 1));
    pool.reset();
    assert_eq!(pool.buffers()[0].offset, 0);
    assert_eq!(pool.buffers()[1].offset, 0);
    assert_eq!(pool.allocate(8).offset, 0);
}

#[test]
fn key_frames_are_found_around_the_frame() {
    let frames = [0u32, 10, 20, 20, 40];
    assert_eq!(
        current_key_frame(&frames, 10),
        CurrentKeyFrame { current: Some(1), next: Some(2), weight_numerator: 0, weight_denominator: 1 }
    );
    assert_eq!(
        current_key_frame(&frames, 20),
        CurrentKeyFrame { current: Some(2), next: Some(3), weight_numerator: 0, weight_denominator: 1 }
    );
    assert_eq!(
        current_key_frame(&frames, 25),
        CurrentKeyFrame { current: Some(3), next: Some(4), weight_numerator: 5, weight_denominator: 20 }
    );
    assert_eq!(
        current_key_frame(&frames, 55),
        CurrentKeyFrame { current: Some(4), next: None, weight_numerator: 0, weight_denominator: 1 }
    );
    assert_eq!(
        current_key_frame(&frames[1..], 3),
        CurrentKeyFrame { current: Some(0), next: Some(1), weight_numerator: 0, weight_denominator: 1 }
    );
    assert_eq!(
        current_key_frame(&[], 3),
        CurrentKeyFrame { current: None, next: None, weight_numerator: 0, weight_denominator: 1 }
    );
    assert_eq!(
        current_key_frame(&[7], 7),
        CurrentKeyFrame { current: Some(0), next: None, weight_numerator: 0, weight_denominator: 1 }
    );
}

#[test]
fn material_properties_accept_matching_values() {
    let uniform = MaterialPropertyKind::UniformMember { offset: 0, size: 16, buffer_index: 0 };
    assert!(uniform.is_compatible(&MaterialValueKind::Vec4));
    assert!(uniform.is_compatible(&MaterialValueKind::U32));
    assert!(!uniform.is_compatible(&MaterialValueKind::Texture));

    let storage = MaterialPropertyKind::StorageBuffer { size: 64 };
    assert!(storage.is_compatible(&MaterialValueKind::StorageBuffer { size: 64 }));
    assert!(!storage.is_compatible(&MaterialValueKind::StorageBuffer { size: 32 }));
    assert!(!storage.is_compatible(&MaterialValueKind::Float));

    assert!(MaterialPropertyKind::Texture.is_compatible(&MaterialValueKind::Texture));
    assert!(!MaterialPropertyKind::Texture.is_compatible(&MaterialValueKind::Sampler));
    assert!(MaterialPropertyKind::Sampler.is_compatible(&MaterialValueKind::Sampler));
    let buffer = MaterialPropertyKind::UniformBuffer { group: 0, binding: 1, buffer_index: 0 };
    assert!(buffer.is_compatible(&MaterialValueKind::Float));
    assert!(!buffer.is_compatible(&MaterialValueKind::Sampler));
}

#[test]
fn bind_group_layouts_take_consecutive_bindings() {
    assert_eq!(
        bind_group_layout_plan(&[(1, 1), (1, 0), (2, 0), (0, 0), (2, 1), (2, 2)]),
        vec![vec![1, 0], vec![2, 4, 5]]
    );
    assert_eq!(
        bind_group_layout_plan(&[(1, 0), (1, 1), (1, 3), (3, 0)]),
        vec![vec![0, 1]]
    );
    assert_eq!(
        bind_group_layout_plan(&[(1, 1), (1, 0), (2, 0), (0, 0), (1, 0), (1, 2)]),
        vec![vec![1], vec![2]]
    );
    assert_eq!(bind_group_layout_plan(&[(0, 0), (0, 1)]), Vec::<Vec<usize>>::new());
    assert_eq!(bind_group_layout_plan(&[]), Vec::<Vec<usize>>::new());
}

fn adapter(usable: bool, device_type: AdapterDeviceType, backend: AdapterBackend) -> AdapterCandidate {
    AdapterCandidate { has_surface_formats: usable, device_type, backend }
}

#[test]
fn adapters_are_chosen_by_score_among_usable_ones() {
    let adapters = [
        adapter(true, AdapterDeviceType::Cpu, AdapterBackend::Vulkan),
        adapter(false, AdapterDeviceType::DiscreteGpu, AdapterBackend::Vulkan),
        adapter(true, AdapterDeviceType::IntegratedGpu, AdapterBackend::Metal),
    ];
    assert_eq!(select_adapter(&adapters), Some(1));

    let ties = [
        adapter(true, AdapterDeviceType::IntegratedGpu, AdapterBackend::Vulkan),
        adapter(true, AdapterDeviceType::DiscreteGpu, AdapterBackend::Other),
        adapter(true, AdapterDeviceType::DiscreteGpu, AdapterBackend::Other),
        adapter(true, AdapterDeviceType::VirtualGpu, AdapterBackend::Dx12),
    ];
    assert_eq!(select_adapter(&ties), Some(2));

    let unusable = [adapter(false, AdapterDeviceType::DiscreteGpu, AdapterBackend::Dx12)];
    assert_eq!(select_adapter(&unusable), None);
    assert_eq!(select_adapter(&[]), None);
}

#[test]
fn static_mesh_inputs_meet_shader_locations() {
    let layout = static_mesh::MeshLayout::new(vec![
        static_mesh::MeshLayoutElement {
            name: "position".to_string(),
            kind: static_mesh::MeshLayoutElementKind::Position,
            offset: 0,
        },
        static_mesh::MeshLayoutElement {
            name: "uv".to_string(),
            kind: static_mesh::MeshLayoutElementKind::TexCoord(0),
            offset: 12,
        },
        static_mesh::MeshLayoutElement {
            name: "extra".to_string(),
            kind: static_mesh::MeshLayoutElementKind::Additional(2),
            offset: 20,
        },
    ]);
    let inputs = layout.vertex_inputs();
    assert_eq!(inputs.len(), 3);
    assert_eq!(inputs[2].format, VertexFormatKind::Float32x4);
    let locations = vec![("uv".to_string(), 1u32), ("position".to_string(), 0u32)];
    assert_eq!(
        plan_vertex_attributes(&inputs, &locations),
        vec![
            VertexAttributePlan { format: VertexFormatKind::Float32x3, offset: 0, shader_location: 0 },
            VertexAttributePlan { format: VertexFormatKind::Float32x2, offset: 12, shader_location: 1 },
        ]
    );
}

#[test]
fn placed_glyphs_never_overlap() {
    let mut cursor = GlyphTextureCursor::new();
    let sizes = [(900u16, 30u16), (900, 50), (400, 20), (1500, 10), (2048, 5), (100, 2000), (10, 10)];
    let mut placed: Vec<GlyphTexelMapping> = Vec::new();
    for (w, h) in sizes {
        assert!(cursor.fits_u16(w, h));
        if let Some(m) = cursor.place(w, h) {
            placed.push(m);
        }
    }
    assert_eq!(placed.len(), 6);
    for (i, a) in placed.iter().enumerate() {
        for b in &placed[i + 1..] {
            let apart = a.max_x <= b.min_x || b.max_x <= a.min_x || a.max_y <= b.min_y || b.max_y <= a.min_y;
            assert!(apart, "{:?} overlaps {:?}", a, b);
        }
    }
}
