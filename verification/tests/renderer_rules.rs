use lvl_core::scene::components::static_mesh_renderer::StaticMeshRenderer;

#[test]
fn the_pipeline_is_built_once_and_kept_until_the_mesh_or_material_changes() {
    let mut renderer: StaticMeshRenderer<&str, &str, String> = StaticMeshRenderer::new("cube", "stone");
    let mut builds = 0;
    assert!(renderer.pipeline().is_none());
    assert!(renderer.construct_render_pipeline(|mesh, material| {
        builds += 1;
        format!("{}+{}", mesh, material)
    }));
    assert!(!renderer.construct_render_pipeline(|_, _| {
        builds += 1;
        String::from("unused")
    }));
    assert_eq!(builds, 1);
    assert_eq!(renderer.pipeline().map(|p| p.as_str()), Some("cube+stone"));

    renderer.set_material("wood");
    assert!(renderer.pipeline().is_none());
    assert!(renderer.construct_render_pipeline(|mesh, material| format!("{}+{}", mesh, material)));
    assert_eq!(renderer.pipeline().map(|p| p.as_str()), Some("cube+wood"));

    renderer.set_mesh("sphere");
    assert!(renderer.pipeline().is_none());
    assert_eq!(*renderer.mesh(), "sphere");
    assert_eq!(*renderer.material(), "wood");
}
