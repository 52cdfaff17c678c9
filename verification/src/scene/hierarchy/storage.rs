pub mod active_transition;
pub mod bits;
pub mod controller_storage;
pub mod event_receiver_storage;
pub mod hierarchy_lemmas;
pub mod hierarchy_model;
pub mod hierarchy_storage;
pub mod names;
pub mod object_span;
pub mod reparent_lemmas;
pub mod sibling_iter;
pub mod span_range;
pub mod reparent_up_lemmas;
