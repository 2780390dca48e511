//! Verified core of the DevTools protocol domains: source maps, network
//! inspection state, debugger bookkeeping, storage, a simulated DOM and the
//! profilers.

pub mod text;
pub mod source_map;
pub mod str_map;
pub mod id_map;
pub mod clock;
pub mod protocol;
pub mod network;
pub mod js_debug;
pub mod profiler_types;
pub mod cpu_profiler;
pub mod timeline;
pub mod memory_profiler;
pub mod dom;
pub mod mock_browser;
pub mod storage;
pub mod accessibility;
pub mod profiler_domain;
pub mod heap_profiler;
pub mod dom_inspector;
pub mod elements;
pub mod layout;
pub mod render;
