//! Why a policy check refuses.

use crate::text;
use vstd::prelude::*;

verus! {

/// Why a policy check refuses.
#[derive(Debug, Clone, PartialEq, Eq)]
pub enum PolicyError {
    /// The argument vector is empty.
    EmptyArgv,
    /// An argument holds a shell metacharacter.
    Metacharacter { arg: String },
    /// The shell allowlist is empty.
    DenyAll,
    /// The binary is not on the shell allowlist.
    BinaryNotAllowed { binary: String },
    /// The working directory is under none of the allowed roots.
    CwdNotAllowed { cwd: String },
    /// The path has a `..` component.
    PathTraversal { path: String },
    /// The environment variable is not on the allowlist.
    EnvNotAllowed { key: String },
    /// The environment variable must never be injected.
    DangerousEnv { key: String },
    /// The binary is a privilege elevation wrapper.
    ElevationWrapperForbidden { binary: String },
    /// Elevated execution is switched off.
    ElevationDisabled,
    /// The elevation allowlist is empty.
    ElevationDenyAll,
    /// The binary is not on the elevation allowlist.
    ElevationBinaryNotAllowed { binary: String },
}

/// A [`PolicyError`] with its strings as sequences of characters.
pub enum PolicyErrorView {
    EmptyArgv,
    Metacharacter { arg: Seq<char> },
    DenyAll,
    BinaryNotAllowed { binary: Seq<char> },
    CwdNotAllowed { cwd: Seq<char> },
    PathTraversal { path: Seq<char> },
    EnvNotAllowed { key: Seq<char> },
    DangerousEnv { key: Seq<char> },
    ElevationWrapperForbidden { binary: Seq<char> },
    ElevationDisabled,
    ElevationDenyAll,
    ElevationBinaryNotAllowed { binary: Seq<char> },
}

impl View for PolicyError {
    type V = PolicyErrorView;

    open spec fn view(&self) -> PolicyErrorView {
        match *self {
            PolicyError::EmptyArgv => PolicyErrorView::EmptyArgv,
            PolicyError::Metacharacter { arg } => PolicyErrorView::Metacharacter { arg: arg@ },
            PolicyError::DenyAll => PolicyErrorView::DenyAll,
            PolicyError::BinaryNotAllowed { binary } => PolicyErrorView::BinaryNotAllowed {
                binary: binary@,
            },
            PolicyError::CwdNotAllowed { cwd } => PolicyErrorView::CwdNotAllowed { cwd: cwd@ },
            PolicyError::PathTraversal { path } => PolicyErrorView::PathTraversal { path: path@ },
            PolicyError::EnvNotAllowed { key } => PolicyErrorView::EnvNotAllowed { key: key@ },
            PolicyError::DangerousEnv { key } => PolicyErrorView::DangerousEnv { key: key@ },
            PolicyError::ElevationWrapperForbidden { binary } =>
                PolicyErrorView::ElevationWrapperForbidden { binary: binary@ },
            PolicyError::ElevationDisabled => PolicyErrorView::ElevationDisabled,
            PolicyError::ElevationDenyAll => PolicyErrorView::ElevationDenyAll,
            PolicyError::ElevationBinaryNotAllowed { binary } =>
                PolicyErrorView::ElevationBinaryNotAllowed { binary: binary@ },
        }
    }
}

/// The outcome of a check, with the error's strings as sequences of characters.
pub open spec fn verdict(r: Result<(), PolicyError>) -> Result<(), PolicyErrorView> {
    match r {
        Ok(u) => Ok(u),
        Err(e) => Err(e@),
    }
}

/// The sentence that tells a reader of a log what was refused.
pub open spec fn message_of(e: PolicyErrorView) -> Seq<char> {
    match e {
        PolicyErrorView::EmptyArgv => "argv must not be empty"@,
        PolicyErrorView::Metacharacter { arg } => "shell metacharacter in argument: "@ + arg,
        PolicyErrorView::DenyAll => "shell policy deny-all"@,
        PolicyErrorView::BinaryNotAllowed { binary } => "binary not allowed: "@ + binary,
        PolicyErrorView::CwdNotAllowed { cwd } => "working directory not allowed: "@ + cwd,
        PolicyErrorView::PathTraversal { path } => "path traversal rejected: "@ + path,
        PolicyErrorView::EnvNotAllowed { key } => "environment variable not allowed: "@ + key,
        PolicyErrorView::DangerousEnv { key } => "dangerous environment variable blocked: "@ + key,
        PolicyErrorView::ElevationWrapperForbidden { binary } =>
            "elevation wrapper forbidden in argv: "@ + binary + "; use elevated=true instead"@,
        PolicyErrorView::ElevationDisabled => "elevated execution is disabled for this identity"@,
        PolicyErrorView::ElevationDenyAll => "elevation policy deny-all"@,
        PolicyErrorView::ElevationBinaryNotAllowed { binary } =>
            "binary not allowed for elevated execution: "@ + binary,
    }
}

impl PolicyError {
    /// The sentence that tells a reader of a log what was refused.
    pub fn message(&self) -> (r: String)
        ensures
            r@ == message_of(self@),
    {
        match self {
            PolicyError::EmptyArgv => "argv must not be empty".to_owned(),
            PolicyError::Metacharacter { arg } => text::concat(
                "shell metacharacter in argument: ",
                arg.as_str(),
            ),
            PolicyError::DenyAll => "shell policy deny-all".to_owned(),
            PolicyError::BinaryNotAllowed { binary } => text::concat(
                "binary not allowed: ",
                binary.as_str(),
            ),
            PolicyError::CwdNotAllowed { cwd } => text::concat(
                "working directory not allowed: ",
                cwd.as_str(),
            ),
            PolicyError::PathTraversal { path } => text::concat(
                "path traversal rejected: ",
                path.as_str(),
            ),
            PolicyError::EnvNotAllowed { key } => text::concat(
                "environment variable not allowed: ",
                key.as_str(),
            ),
            PolicyError::DangerousEnv { key } => text::concat(
                "dangerous environment variable blocked: ",
                key.as_str(),
            ),
            PolicyError::ElevationWrapperForbidden { binary } => {
                let mut r = text::concat("elevation wrapper forbidden in argv: ", binary.as_str());
                r.append("; use elevated=true instead");
                r
            },
            PolicyError::ElevationDisabled =>
                "elevated execution is disabled for this identity".to_owned(),
            PolicyError::ElevationDenyAll => "elevation policy deny-all".to_owned(),
            PolicyError::ElevationBinaryNotAllowed { binary } => text::concat(
                "binary not allowed for elevated execution: ",
                binary.as_str(),
            ),
        }
    }
}

} // verus!
