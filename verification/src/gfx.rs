pub mod depth_stencil;
pub mod elements;
pub mod gfx_context;
pub mod glyph;
pub mod per_frame_buffer_pool;
pub mod vertex_attributes;
