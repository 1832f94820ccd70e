//! Workspace snapshot engine and template scaffolder.
//!
//! The library has four parts:
//! - a snapshot store that persists named records of a workspace layout,
//!   with a versioned, checksummed byte encoding and atomic replacement
//!   (modelled over an explicit file-system image, so that the atomicity
//!   and round-trip guarantees are machine-checked);
//! - a capturer that turns what the host session reports into a validated
//!   `WorkspaceLayout`;
//! - a restore orchestrator that plans how a stored layout is replayed
//!   into a session, substituting a fallback for working directories that
//!   no longer exist and isolating per-pane failures;
//! - a template scaffolder that materialises a template's file tree under
//!   a target directory, substituting the project name for the template's
//!   placeholder token.
//!
//! All file-system and host-session traffic stays outside the library: the
//! store works on an in-memory image of its directory, and the capturer and
//! orchestrator exchange plain values with the surrounding binary.

pub mod capture;
pub mod codec;
pub mod commands;
pub mod error;
pub mod layout;
pub mod restore;
pub mod scaffold;
pub mod store;
