//! Verified core of a host observability agent: path hashing shared with the
//! kernel probes, byte-level HTTP helpers, container identity parsing, the
//! LLM provider registry, the TLS stream state machine and probe bookkeeping.

pub mod fnv;
pub mod kernel_hash;
pub mod http_bytes;
pub mod text;
pub mod identity;
pub mod assoc;
pub mod providers;
pub mod targets;
pub mod json;
pub mod usage;
pub mod protocol;
pub mod processor;
pub mod streams;
pub mod gpu_device;
pub mod settings;
pub mod events;
pub mod pending;
pub mod lifecycle;
pub mod probes;
pub mod fs_labels;
