//! Structural code search: tree-sitter queries run over the files of a
//! tree, with the matches reported one capture at a time.
use vstd::prelude::*;

pub mod cli;
pub mod engine;
pub mod extractor;
pub mod extractor_chooser;
pub mod file_types;
pub mod files;
pub mod grammars;
pub mod language;
pub mod lines;
pub mod order;
pub mod path_order;
pub mod pipeline;
pub mod record_order;
pub mod single;
pub mod text;
pub mod tree_view;
