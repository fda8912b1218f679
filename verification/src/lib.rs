//! A POSIX-style gateway that exposes external resources through a file
//! hierarchy, gated by signed, time-limited, path-scoped capability tokens.
//!
//! The crate is organised around four components: the capability record and
//! its wire-token codec (`capability`), the capability manager with its
//! active set, validation cache and audit log (`manager`), the inode address
//! space (`inode`), the driver registry (`registry`), and the protocol
//! engine that binds them (`engine`).

use vstd::prelude::*;

pub mod text;
pub mod crypto;
pub mod path;
pub mod capability;
pub mod config;
pub mod manager;
pub mod inode;
pub mod registry;
pub mod engine;

verus! {

/// The filesystem's magic number, "GNOS" read as a big-endian word.
pub const GNOS_MAGIC: u64 = 0x474E4F53;

/// Error taxonomy for every operation of the crate. The policy is
/// fail-closed: any ambiguity in token parsing, signature verification or
/// scope matching resolves to a denial, never to a default-allow.
#[derive(Debug)]
pub enum GnosError {
    /// An authorization check failed; carries the denial reason.
    PermissionDenied(String),
    /// An address-space or protocol lookup missed.
    PathNotFound(String),
    /// A backend failed; carries a message without backend-internal detail.
    Driver(String),
    /// Underlying transport input/output failed.
    Io(String),
    /// A presented capability is past its expiration.
    CapabilityExpired,
    /// A path does not have the expected shape.
    InvalidPath(String),
    /// A resource or handle is not available for the operation.
    ResourceBusy(String),
}

} // verus!
