//! The error taxonomy of the library.
//!
//! Every fallible flow reports exactly one of these conditions; no error is
//! swallowed, and the binary formats them for the operator.

use vstd::prelude::*;

verus! {

/// One condition under which a flow aborts.
#[derive(Clone, Copy, Debug, PartialEq, Eq, Structural)]
pub enum DragonError {
    /// An image reference does not fit `[registry/]repository[:tag]`.
    MalformedReference,
    /// A credential is unusable for the registry's identity provider.
    AuthenticationFailed,
    /// A version query was asked of a registry this tool cannot query.
    UnsupportedRegistry,
    /// The registry's answer held no usable tag.
    TagResolutionFailed,
    /// The config document exists but fails structural validation.
    ConfigCorrupt,
    /// A new environment's name is already taken in the store.
    DuplicateName,
    /// Neither an explicit install location nor a store default is known.
    NoInstallPath,
    /// An upgrade was asked before any version was resolved for the record.
    NoResolvedVersion,
    /// The VM runtime refused to import an instance.
    ImportFailed,
    /// The terminal settings document lacks the `profiles.list` array.
    ProfileSchemaInvalid,
    /// No environment record answers to the requested name.
    InstanceNotFound,
    /// An external tool exited with a failure status.
    ExternalCommandFailed,
}

} // verus!
