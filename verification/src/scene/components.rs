pub mod pmx_model_renderer;
pub mod static_mesh_renderer;
pub mod static_mesh_renderer_group;
pub mod ui_scaler;
