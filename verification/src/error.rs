//! Why a schema is refused.

use vstd::prelude::*;

verus! {

/// The ways in which a schema can be wrongly configured.
#[derive(Clone, Copy, Debug, PartialEq, Eq, Structural)]
pub enum ConfigError {
    /// The same kind of directive is given twice.
    DuplicateDirective,
    /// The value of a directive has a form that is not understood.
    UnsupportedLiteral,
    /// A condition is attached to a field whose type is not optional.
    CondOnNonOptional,
    /// A variant, or the union itself, lacks its selector.
    MissingSelector,
    /// A union of fieldless variants declares no representation.
    MissingRepresentation,
    /// The variants of a union do not agree on how it is to be decoded.
    AmbiguousUnionMode,
    /// A field's type names a type that the registry does not hold.
    UnresolvedNamedType,
    /// A condition or a count mentions a field that is not declared earlier.
    ForwardReference,
    /// More than one variant is selected by the wildcard.
    DuplicateWildcard,
    /// A discriminant does not fit the union's representation.
    DiscriminantOutOfRange,
}

impl View for ConfigError {
    type V = ConfigError;

    open spec fn view(&self) -> ConfigError {
        *self
    }
}

/// A refusal: what is wrong, and with which field, variant or type.
#[derive(Clone, Debug, PartialEq, Eq)]
pub struct Rejection {
    pub error: ConfigError,
    /// The name of the offending field, variant or type.
    pub subject: String,
}

/// The model of a [`Rejection`].
pub struct RejectionModel {
    pub error: ConfigError,
    pub subject: Seq<char>,
}

impl View for Rejection {
    type V = RejectionModel;

    open spec fn view(&self) -> RejectionModel {
        RejectionModel { error: self.error, subject: self.subject@ }
    }
}

/// The refusal of `subject` for `error`.
pub open spec fn rejection(error: ConfigError, subject: Seq<char>) -> RejectionModel {
    RejectionModel { error, subject }
}

impl Rejection {
    /// The refusal of `subject` for `error`.
    pub fn new(error: ConfigError, subject: &String) -> (r: Rejection)
        ensures
            r@ == rejection(error, subject@),
    {
        Rejection { error, subject: subject.clone() }
    }
}

/// The failures that a plan provides for at decode time.
#[derive(Clone, Copy, Debug, PartialEq, Eq, Structural)]
pub enum DecodeError {
    /// No arm of a union matches the discriminant.
    UnmatchedSelector,
    /// A decoded value does not satisfy its predicate.
    VerificationFailed,
    /// The input does not hold the value.
    Malformed,
}
} // verus!
