//! Verified core of a browser-automation agent that conceals automation
//! signals at the network, engine, and behavioral layers.
//!
//! The library holds the logic that can be stated and proved: binary byte
//! patching, synthetic profile management and its on-disk codec, TLS/HTTP-2
//! fingerprint tables, proxy request classification, accessibility-tree
//! filtering, humanized motor planning in fixed-point pixel arithmetic,
//! canvas entropy injection, engine-health verdicts, and the closed-loop
//! action verification rules. Process plumbing (sockets, the browser's
//! debugger channel, the key-value store) lives outside the library and
//! hands it plain values.

pub mod binary_patch;
pub mod browser;
pub mod cortex;
pub mod dbi;
pub mod diffusion_mouse;
pub mod error;
pub mod ghost_mouse;
pub mod identity_grafting;
pub mod mouse;
pub mod ooda;
pub mod profile_codec;
pub mod rng;
pub mod stealth_transport;
pub mod text;
pub mod world_model;
