pub mod object_id;
pub mod object_id_allocator;
pub mod scene;
pub mod scene_action;
pub mod storage;
