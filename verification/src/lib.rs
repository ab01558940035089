//! Verified core of a dynamic-instrumentation agent.

pub mod agent;
pub mod bytes;
pub mod callback_calls;
pub mod communication;
pub mod debug_symbols;
pub mod diagnostics;
pub mod engine;
pub mod events;
pub mod hooks;
pub mod in_flight;
pub mod instructions;
pub mod invocations;
pub mod int64;
pub mod java;
pub mod keyed;
pub mod memory_access;
pub mod memory_alloc;
pub mod memory_api;
pub mod memory_monitor;
pub mod memory_pattern;
pub mod memory_pointers;
pub mod memory_scan;
pub mod memory_text;
pub mod memory_value;
pub mod memory_write;
pub mod messaging;
pub mod modules;
pub mod native_callback;
pub mod native_ffi;
pub mod observers;
pub mod pointer;
pub mod process;
pub mod script;
pub mod script_value;
pub mod sorting;
pub mod stalker;
pub mod stalker_backend;
pub mod stalker_shutdown;
pub mod stalker_worker;
pub mod stalker_writer;
pub mod text;
pub mod trace_bundle;
pub mod trace_dump;
pub mod trace_writer;
pub mod utf16;
