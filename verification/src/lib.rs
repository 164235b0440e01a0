//! Runtime support for WasmFX stack switching: resource tables, continuation
//! state encodings, fiber stacks, stack walking and related bookkeeping.

pub mod table;
pub mod continuations;
pub mod debug_print;
pub mod fibre;
pub mod tcp;
pub mod module_types;
pub mod backtrace;
pub mod traphandlers;
pub mod continuation;
pub mod stack_pool;
pub mod libcalls;
pub mod poll;
pub mod stacks;
pub mod switching;
