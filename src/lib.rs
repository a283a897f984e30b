//! Deterministic simulation kernel: game clock, performance probes, debug
//! entries, the binary codec and the ECS setup glue.

pub mod codec;
pub mod debug;
pub mod ecs;
pub mod frame_perf;
pub mod perf;
pub mod shape;
pub mod time;
