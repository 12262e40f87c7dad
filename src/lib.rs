//! Chat documents: a frontmatter block of `key: value` fields followed by
//! alternating `user:` / `assistant:` turns.
//!
//! The crate parses such documents, checks their structure, renders the
//! frontmatter template for new documents and formats the text that is
//! appended to a document after a model answers.

use vstd::prelude::*;

pub mod text;
pub mod frontmatter;
pub mod messages;
pub mod paths;
pub mod document;
pub mod template;
pub mod lint;
pub mod config;
pub mod record;
pub mod greeting;
