//! A content engine for directories of Markdown specifications with YAML
//! frontmatter.
//!
//! A specs directory holds one directory for each spec, and in it a main
//! document: a block of YAML between two `---` lines, then Markdown. This
//! crate turns what was read from such a directory into records, and answers
//! questions about them:
//!
//! - [`frontmatter`] finds the metadata block of a document and the title of
//!   its body;
//! - [`reader`] builds the spec records, sorts them and finds out which spec
//!   is required by which;
//! - [`dependencies`] resolves dependency references and builds the
//!   dependency graph;
//! - [`stats`] counts;
//! - [`validation`] checks one spec or a whole set against the rules;
//! - [`update`] rewrites a document for a new status;
//! - [`config`] holds the settings of the desktop application.
//!
//! The crate reads no file and decodes no YAML itself: its callers hand it the
//! text of the documents and what their YAML decoder made of each block.
//! Every function is total, and every contract is stated over the models in
//! [`text`], [`numbers`] and [`order`]; what holds across functions is proved
//! in [`laws`].

pub mod text;
pub mod numbers;
pub mod order;
pub mod timestamp;
pub mod constants;
pub mod frontmatter;
pub mod reader;
pub mod dependencies;
pub mod stats;
pub mod validation;
pub mod update;
pub mod config;
pub mod laws;
