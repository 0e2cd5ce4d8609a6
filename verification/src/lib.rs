//! Generation of deterministic chains of BLS key pairs and their stable
//! on-disk text form.
//!
//! The crate covers the logic of the key provisioning tool: decoding caller
//! supplied key material from hex, the chaining rule that seeds each key pair
//! from the previous pair's secret, resolving the output destination from the
//! command surface, building the per-index file names, and rendering and
//! parsing the two-field record that is written for every key pair. The
//! signature primitive that turns 32 bytes of material into a pair is an
//! outside collaborator and is driven by the surrounding binary.

pub mod config;
pub mod hexcodec;
pub mod keypair;
pub mod record;
