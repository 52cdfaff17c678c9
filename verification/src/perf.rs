pub mod perf_recorder;
