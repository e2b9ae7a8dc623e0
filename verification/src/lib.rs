//! A stacked-commit workflow manager: every commit of a linear working
//! history can carry a push target (a remote branch) and a list of
//! validation commands. The annotations ride on the commits themselves,
//! are surfaced as an editable text plan, reconciled against the user's
//! edits under a merge policy, and then used to move local branches and
//! safely force-push them.
//!
//! The synchronization engine — the metadata store's wire format, the
//! plan grammar with its renderer and parser, the merge policies, and
//! the push-negotiation protocol — is verified; the backing repository
//! library is reached only through thin, documented trusted calls.

pub mod client;
pub mod codec;
pub mod config;
pub mod editor;
pub mod engine;
pub mod ids;
pub mod note;
pub mod parser;
pub mod plan;
pub mod push;
pub mod textutil;
