//! Errors of the generation step.
//!
//! Every failure is fatal to the whole step: the engine either emits a
//! complete, consistent fragment or emits nothing at all.

use vstd::prelude::*;

verus! {

/// Results returned by the `build_timing` build process.
pub type BtResult<T> = Result<T, BuildTimingError>;

/// Ghost model of a [`BuildTimingError`], over character sequences.
pub enum ErrorModel {
    MissingConfiguration(Seq<char>),
    UnknownConstant { constant: Seq<char>, identifier: Seq<char> },
    UnresolvedForwardReference { constant: Seq<char>, identifier: Seq<char> },
    ExternalSignalFailure(Seq<char>),
    SerializationFailure(Seq<char>),
}

/// `build_timing` build process errors. Each variant carries the data a
/// caller needs to report the failure:
/// - `MissingConfiguration`: a required part of the configuration (output
///   directory, environment snapshot) could not be resolved; carries a
///   description of what is missing.
/// - `UnknownConstant`: the named constant's template references an
///   identifier that is not registered.
/// - `UnresolvedForwardReference`: the named constant's template references
///   a template identifier that is not yet resolved at the point of lookup
///   (it sorts after the referencing template, or is the template itself).
/// - `ExternalSignalFailure`: an environment-derived value could not be
///   read; carries the name of the signal that failed.
/// - `SerializationFailure`: the named constant's resolved value is not a
///   valid literal of its kind in the emitted fragment.
#[derive(Debug)]
pub enum BuildTimingError {
    MissingConfiguration(String),
    UnknownConstant { constant: String, identifier: String },
    UnresolvedForwardReference { constant: String, identifier: String },
    ExternalSignalFailure(String),
    SerializationFailure(String),
}

impl View for BuildTimingError {
    type V = ErrorModel;

    open spec fn view(&self) -> ErrorModel {
        match self {
            BuildTimingError::MissingConfiguration(m) => ErrorModel::MissingConfiguration(m@),
            BuildTimingError::UnknownConstant { constant, identifier } => {
                ErrorModel::UnknownConstant { constant: constant@, identifier: identifier@ }
            },
            BuildTimingError::UnresolvedForwardReference { constant, identifier } => {
                ErrorModel::UnresolvedForwardReference {
                    constant: constant@,
                    identifier: identifier@,
                }
            },
            BuildTimingError::ExternalSignalFailure(m) => ErrorModel::ExternalSignalFailure(m@),
            BuildTimingError::SerializationFailure(c) => ErrorModel::SerializationFailure(c@),
        }
    }
}

impl BuildTimingError {
    /// Wraps the message of a downstream failure (an I/O error, a failed
    /// environment read) into the uniform error type of the build step.
    pub fn new(message: String) -> (r: Self)
        ensures
            r@ == ErrorModel::ExternalSignalFailure(message@),
    {
        BuildTimingError::ExternalSignalFailure(message)
    }
}

} // verus!
