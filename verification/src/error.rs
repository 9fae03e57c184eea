//! The error taxonomy of the workspace engine.  Every operation fails fast
//! with the first error it meets; the payloads carry the offending text so
//! that a front end can format a message.
use vstd::prelude::*;

verus! {

/// The distinct ways the bracketed feature grammar can be malformed.
#[derive(Debug, Clone, Copy, PartialEq, Eq, Structural)]
pub enum FeatFault {
    /// A `[` with no dependency name before it.
    EmptyName,
    /// A name that matches no requested dependency.
    UnknownDep,
    /// A name not followed by `[`.
    MissingBracket,
    /// A bracket pair holding no feature name.
    NoFeatures,
}

/// What the registry could not supply.
#[derive(Debug, Clone, Copy, PartialEq, Eq, Structural)]
pub enum NotFoundKind {
    /// The crate name is unknown to the registry.
    UnknownCrate,
    /// The registry lists no usable (non-yanked, parseable) version.
    NoVersions,
    /// An exactly requested version is not among the usable versions.
    Version,
    /// No usable version satisfies the range constraint.
    NoMatch,
    /// A requested feature is absent from the chosen version.
    Feature,
}

#[derive(Debug)]
pub enum WorkError {
    /// A malformed target selector.
    InvalidSelector { selector: String },
    /// A malformed inline feature request; `name` is the dependency (or the
    /// bracket's base name) the fault was found at.
    InvalidFeatureSpec { fault: FeatFault, name: String },
    /// A version constraint of no recognized shape.
    InvalidSpec { text: String },
    /// The registry cannot satisfy the request; `subject` is the version,
    /// range or feature concerned, `krate` the crate asked about.
    NotFound { kind: NotFoundKind, subject: String, krate: String },
    /// A required table is missing from a document.
    ConfigError { what: String },
    /// A file or network failure outside the engine.
    IoError { what: String },
}

} // verus!
