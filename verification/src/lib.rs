//! Sequential ordering keys in the YAML front matter of a set of documents.
//!
//! The library holds the documents found in a directory, keeps a dense,
//! zero-based ordering on the subset that the user has marked, and drives the
//! interactive session that edits it.
//!
//! - `order` is the model of the ordering, a sequence of optional values, with
//!   the proofs of what every edit keeps.
//! - `arrange` lifts the model to lists of documents: sorting, renumbering,
//!   toggling and swapping.
//! - `page` holds a document and the list of documents.
//! - `text` finds the body of a document behind its front matter.
//! - `app` is the session, as a state machine, and what its screens show.
//! - `cli` begins a session on the files of a directory.
//! - `key_bind` names the keys.
//! - `front_matter` and `display` wrap the crates that parse and print YAML
//!   and measure text; their contracts are taken on trust.

pub mod app;
pub mod arrange;
pub mod cli;
pub mod display;
pub mod front_matter;
pub mod key_bind;
pub mod order;
pub mod page;
pub mod text;
