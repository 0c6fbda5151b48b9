//! Shell / cwd / env policy primitives shared by helpers and the control plane.

pub mod env;
pub mod error;
pub mod form_meaning;
pub mod laws;
pub mod meaning;
pub mod path;
pub mod path_laws;
pub mod path_meaning;
pub mod shell;

pub use env::{check_env_keys, check_env_policy, DANGEROUS_ENV_KEYS};
pub use error::PolicyError;
pub use path::{
    check_cwd_policy, cwd_matches_allowed, normalize_path, normalize_path_no_traversal,
    reject_path_traversal,
};
pub use shell::{
    allowlist_has_wildcard, canonicalize_binary, check_elevation_policy,
    check_elevation_wrapper_denied, check_shell_policy, check_wrapper_name, validate_argv,
    ALLOWLIST_WILDCARD,
};
