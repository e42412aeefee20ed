//! Error taxonomy of the runtime core: resolution failures, circular
//! requires, load and execution failures, value-conversion mismatches,
//! and fatal bookkeeping-invariant violations.

use vstd::prelude::*;
use vstd::string::StringExecFns;

verus! {

/// Why a requested module path could not be resolved to a loadable
/// source.
#[derive(Clone, Copy, PartialEq, Eq, Debug)]
pub enum ResolveErrorKind {
    /// A `@lune/<name>` path named a builtin that is not registered.
    UnknownBuiltin,
    /// A `@<alias>/<rest>` path named an alias that is not configured.
    UnknownAlias,
    /// A `@...` path carried no `/` delimiter after the alias.
    MalformedPath,
    /// The resolved filesystem location does not exist.
    NotFound,
}

/// A script-level error produced by the `require` subsystem.
#[derive(Clone, PartialEq, Eq, Debug)]
pub enum RequireError {
    /// The requested path could not be resolved; carries the offending
    /// path.
    Resolution { kind: ResolveErrorKind, path: String },
    /// A module transitively required itself; carries the canonical
    /// key that closes the cycle.
    CircularRequire { path: String },
    /// The module source failed to compile or load.
    Load { message: String },
    /// The module body (or a scheduled task) raised a script-level
    /// error.
    Execution { message: String },
}

impl RequireError {
    /// An equal copy of this error.
    pub fn dup(&self) -> (r: RequireError)
        ensures
            r == *self,
    {
        match self {
            RequireError::Resolution { kind, path } => RequireError::Resolution {
                kind: *kind,
                path: crate::clone_string(path),
            },
            RequireError::CircularRequire { path } => RequireError::CircularRequire {
                path: crate::clone_string(path),
            },
            RequireError::Load { message } => RequireError::Load {
                message: crate::clone_string(message),
            },
            RequireError::Execution { message } => RequireError::Execution {
                message: crate::clone_string(message),
            },
        }
    }

    /// The human-readable text of this error: the kind spelled out,
    /// with the offending path or the underlying message attached.
    pub open spec fn spec_message(self) -> Seq<char> {
        match self {
            RequireError::Resolution { kind, path } => match kind {
                ResolveErrorKind::UnknownBuiltin => "unknown builtin module: "@ + path@,
                ResolveErrorKind::UnknownAlias => "unknown require alias: "@ + path@,
                ResolveErrorKind::MalformedPath => (
                "require with custom alias must contain '/' delimiter: "@ + path@),
                ResolveErrorKind::NotFound => "module not found: "@ + path@,
            },
            RequireError::CircularRequire { path } => "circular require: "@ + path@,
            RequireError::Load { message } => "load error: "@ + message@,
            RequireError::Execution { message } => message@,
        }
    }

    /// The human-readable text of this error.
    pub fn message(&self) -> (r: String)
        ensures
            r@ == self.spec_message(),
    {
        match self {
            RequireError::Resolution { kind, path } => {
                let mut m = match kind {
                    ResolveErrorKind::UnknownBuiltin => String::from_str(
                        "unknown builtin module: ",
                    ),
                    ResolveErrorKind::UnknownAlias => String::from_str("unknown require alias: "),
                    ResolveErrorKind::MalformedPath => String::from_str(
                        "require with custom alias must contain '/' delimiter: ",
                    ),
                    ResolveErrorKind::NotFound => String::from_str("module not found: "),
                };
                m.append(path.as_str());
                m
            },
            RequireError::CircularRequire { path } => {
                let mut m = String::from_str("circular require: ");
                m.append(path.as_str());
                m
            },
            RequireError::Load { message } => {
                let mut m = String::from_str("load error: ");
                m.append(message.as_str());
                m
            },
            RequireError::Execution { message } => {
                let mut m = String::new();
                m.append(message.as_str());
                proof {
                    assert(m@ =~= message@);
                }
                m
            },
        }
    }
}

/// A value-marshaling mismatch between script values and native domain
/// values; carries the source and target type names and an optional
/// detail string.
#[derive(Clone, PartialEq, Eq, Debug)]
pub struct ConversionError {
    pub from: String,
    pub to: String,
    pub detail: Option<String>,
}

/// A failure to acquire the scheduler's bookkeeping structures: under
/// correct single-threaded use this can never happen, so it signals a
/// concurrency bug and is always fatal, never retried.
#[derive(Clone, PartialEq, Eq, Debug)]
pub struct InvariantViolation {
    pub message: String,
}

impl InvariantViolation {
    /// The human-readable text of this violation.
    pub fn message_text(&self) -> (r: String)
        ensures
            r@ == "scheduler invariant violated: "@ + self.message@,
    {
        let mut m = String::from_str("scheduler invariant violated: ");
        m.append(self.message.as_str());
        m
    }
}

} // verus!
