//! Lock-file-driven installer core for MSVC toolchain components:
//! canonical package identities with a total order, vendor manifest
//! classification, the lock file codec, and the install engine's
//! decision logic, all with verified contracts.
pub mod strutil;
pub mod arch;
pub mod autoenv_cmd;
pub mod channel_kind;
pub mod extra;
pub mod install;
pub mod lockfile_parse;
pub mod packages;
pub mod regen;
pub mod sha;
pub mod util;
