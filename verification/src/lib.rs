//! Scene hierarchy bookkeeping, object identifiers, the frame loop's
//! decisions and the layout and material rules of the `lvl` engine core.
pub mod bsp;
pub mod context;
pub mod gfx;
pub mod looper;
pub mod perf;
pub mod scene;
