//! A library for keeping named, versioned environment instances in sync:
//! each instance is declared by an image reference, materialized as a
//! VM-like sandbox, and exposed through a terminal launcher entry.
//!
//! The library holds the verified core: the image reference grammar, the
//! durable config store and its document format, the terminal profile
//! registrar, the provisioning plan, and the per-command flows. The thin
//! binary around it performs the file reads and writes and runs the
//! external tools that the plans name.

pub mod codec;
pub mod errors;
pub mod flows;
pub mod ids;
pub mod refparse;
pub mod store;
pub mod strutil;
pub mod terminal;
pub mod vm;
