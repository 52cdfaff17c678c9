use lvl_core::gfx::elements::material::{MaterialPropertyKind, MaterialValueKind};
use lvl_core::gfx::elements::material_properties::{
    BindGroupPlan, MaterialProperties, ShaderBindingInfo, ShaderBindingKindInfo, UniformMemberInfo,
};

fn binding(name: &str, group: u32, binding: u32, kind: ShaderBindingKindInfo) -> ShaderBindingInfo {
    ShaderBindingInfo { name: name.to_string(), group, binding, kind }
}

fn member(name: &str, offset: u64, size: u64, buffer_index: u32) -> UniformMemberInfo {
    UniformMemberInfo { name: name.to_string(), offset, size, buffer_index }
}

fn sample_table() -> MaterialProperties<String> {
    let bindings = vec![
        binding("globals", 1, 0, ShaderBindingKindInfo::UniformBuffer { index: 0, is_struct: true }),
        binding("tint", 1, 1, ShaderBindingKindInfo::UniformBuffer { index: 1, is_struct: false }),
        binding("albedo", 1, 2, ShaderBindingKindInfo::Texture),
        binding("albedo_sampler", 1, 3, ShaderBindingKindInfo::Sampler),
        binding("bones", 2, 0, ShaderBindingKindInfo::StorageBuffer { size: 64 }),
    ];
    let members = vec![member("roughness", 0, 4, 0), member("metal", 4, 4, 0)];
    MaterialProperties::new(&bindings, &members, 2)
}

#[test]
fn properties_follow_the_shader_bindings() {
    let table = sample_table();
    assert_eq!(table.property_count(), 6);
    assert_eq!(table.uniform_structs().len(), 1);
    assert_eq!(table.uniform_structs()[0].group(), 1);
    assert_eq!(table.uniform_structs()[0].binding(), 0);
    assert_eq!(table.uniform_structs()[0].buffer_index(), 0);
    let names: Vec<&str> = (0..6).map(|i| table.property_name(i)).collect();
    assert_eq!(names, vec!["tint", "albedo", "albedo_sampler", "bones", "roughness", "metal"]);

    let tint = table.get_property("tint").unwrap();
    assert_eq!(
        tint.kind(),
        MaterialPropertyKind::UniformBuffer { group: 1, binding: 1, buffer_index: 1 }
    );
    let metal = table.get_property("metal").unwrap();
    assert_eq!(metal.group(), 1);
    assert_eq!(metal.binding(), 0);
    assert_eq!(
        metal.kind(),
        MaterialPropertyKind::UniformMember { offset: 4, size: 4, buffer_index: 0 }
    );
    assert!(metal.value().is_none());
    assert!(table.get_property("globals").is_none());
    assert_eq!(table.layout_count(), 2);
    assert!(!table.is_built(0));
}

#[test]
fn set_property_checks_the_kind_and_marks_the_group() {
    let mut table = sample_table();
    table.mark_built(0);
    table.mark_built(1);
    assert!(!table.set_property("tint", "grey".to_string(), MaterialValueKind::Texture));
    assert!(table.is_built(1));
    assert!(!table.set_property("missing", "x".to_string(), MaterialValueKind::Float));

    assert!(table.set_property("tint", "red".to_string(), MaterialValueKind::Vec4));
    assert_eq!(table.get_property("tint").unwrap().value(), Some(&"red".to_string()));
    assert!(table.is_built(0));
    assert!(!table.is_built(1));
}

#[test]
fn later_properties_take_names_over() {
    let bindings = vec![
        binding("color", 1, 0, ShaderBindingKindInfo::Texture),
        binding("color", 1, 1, ShaderBindingKindInfo::Sampler),
    ];
    let table: MaterialProperties<u8> = MaterialProperties::new(&bindings, &[], 1);
    assert_eq!(table.get_property("color").unwrap().kind(), MaterialPropertyKind::Sampler);
}

#[test]
fn bind_groups_are_planned_from_bound_values() {
    let mut table = sample_table();
    assert_eq!(table.plan_bind_group(0), None);

    assert!(table.offer_value(0, "red".to_string(), MaterialValueKind::Vec4));
    assert!(table.offer_value(1, "bricks".to_string(), MaterialValueKind::Texture));
    assert!(!table.offer_value(2, "bricks".to_string(), MaterialValueKind::Texture));
    assert_eq!(table.plan_bind_group(0), None);
    assert!(table.offer_value(2, "linear".to_string(), MaterialValueKind::Sampler));
    assert_eq!(
        table.plan_bind_group(0),
        Some(BindGroupPlan { structs: vec![0], member_uploads: vec![], properties: vec![0, 1, 2] })
    );

    assert!(table.offer_value(4, "0.5".to_string(), MaterialValueKind::Float));
    assert_eq!(
        table.plan_bind_group(0),
        Some(BindGroupPlan { structs: vec![0], member_uploads: vec![4], properties: vec![0, 1, 2] })
    );

    assert_eq!(table.plan_bind_group(1), None);
    assert!(!table.offer_value(3, "small".to_string(), MaterialValueKind::StorageBuffer { size: 32 }));
    assert!(table.offer_value(3, "bones".to_string(), MaterialValueKind::StorageBuffer { size: 64 }));
    assert_eq!(
        table.plan_bind_group(1),
        Some(BindGroupPlan { structs: vec![], member_uploads: vec![], properties: vec![3] })
    );
}

#[test]
fn only_out_of_date_groups_are_planned() {
    let mut table = sample_table();
    assert_eq!(table.plan_missing_bind_groups(), (vec![], Some((0, vec![]))));
    // the members of a group that cannot be made are still written
    assert!(table.offer_value(4, "0.5".to_string(), MaterialValueKind::Float));
    assert_eq!(table.plan_missing_bind_groups(), (vec![], Some((0, vec![4]))));

    assert!(table.offer_value(0, "red".to_string(), MaterialValueKind::Vec4));
    assert!(table.offer_value(1, "bricks".to_string(), MaterialValueKind::Texture));
    assert!(table.offer_value(2, "linear".to_string(), MaterialValueKind::Sampler));
    // group 1 still misses its storage buffer; group 0 is made before it
    let group0 = BindGroupPlan { structs: vec![0], member_uploads: vec![4], properties: vec![0, 1, 2] };
    assert_eq!(table.plan_missing_bind_groups(), (vec![(0, group0.clone())], Some((1, vec![]))));

    table.mark_built(1);
    assert_eq!(table.plan_missing_bind_groups(), (vec![(0, group0.clone())], None));

    table.mark_built(0);
    assert_eq!(table.plan_missing_bind_groups(), (vec![], None));

    // a set property marks the slot numbered by its group number out of date
    assert!(table.set_property("tint", "blue".to_string(), MaterialValueKind::Vec4));
    assert!(table.is_built(0));
    assert_eq!(table.plan_missing_bind_groups(), (vec![], Some((1, vec![]))));

    assert!(table.offer_value(3, "bones".to_string(), MaterialValueKind::StorageBuffer { size: 64 }));
    assert_eq!(
        table.plan_missing_bind_groups(),
        (vec![(1, BindGroupPlan { structs: vec![], member_uploads: vec![], properties: vec![3] })], None)
    );
    assert_eq!(table.member_uploads(0), vec![4]);
}

#[test]
fn presets_are_found_by_property_name() {
    let table = sample_table();
    let names: Vec<String> = ["metal", "tint", "unknown", "tint"].iter().map(|n| n.to_string()).collect();
    assert_eq!(
        table.preset_places(&names),
        vec![Some(1), None, None, None, None, Some(0)]
    );
    assert_eq!(table.preset_places(&[]), vec![None; 6]);
}
