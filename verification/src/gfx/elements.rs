pub mod material;
pub mod material_properties;
pub mod mesh_layout;
pub mod morph;
pub mod pmx_model;
pub mod pmx_model_animation;
pub mod shader;
pub mod shader_reflection;
pub mod sprite;
pub mod static_mesh;
