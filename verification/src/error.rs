//! Error types surfaced by configuration building, validation and
//! execution.

use vstd::prelude::*;
use crate::value::Payload;

verus! {

/// Errors raised while validating or compiling a matcher configuration.
#[derive(Debug, PartialEq)]
pub enum MatcherError {
    /// Two active rules of one ruleset share a name.
    NotUniqueRuleNameError { name: String },
    /// A name does not match the identifier grammar.
    NotValidIdOrNameError { message: String },
    /// A `${...}` template could not be parsed.
    AccessorBuildError { template: String },
    /// A regular expression could not be compiled.
    RegexBuildError { pattern: String },
    /// The configuration could not be read or applied.
    ConfigurationError { message: String },
}

/// Errors raised by executors while handling an action.
#[derive(Debug, PartialEq)]
pub enum ExecutorError {
    /// A required entry is missing from the action payload.
    MissingArgumentError { message: String },
    /// An entry of the action payload holds an unexpected value.
    UnknownArgumentError { message: String },
    /// The execution itself failed; `can_retry` drives the retry layer,
    /// and `code` and `data` carry machine-readable detail.
    ActionExecutionError { message: String, can_retry: bool, code: Option<String>, data: Payload },
    /// The executor was built from an unusable configuration.
    ConfigurationError { message: String },
}

/// Errors raised by the engine's surrounding services.
#[derive(Debug, PartialEq)]
pub enum TornadoError {
    SenderError { message: String },
    ActorCreationError { message: String },
    ConfigurationError { message: String },
}

/// Errors raised by the admin API layer.
#[derive(Debug, PartialEq)]
pub enum ApiError {
    InvalidAuthKeyError { message: String },
    UnauthenticatedError,
    ForbiddenError { code: String, message: String, params: Vec<(String, String)> },
    InvalidTokenError { message: String },
    InternalServerError { message: String },
}

} // verus!
