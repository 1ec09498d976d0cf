//! Extraction of a normalized schema from the declarations of a syntax-tree
//! library: node shapes, field and variant types, feature conditions and the
//! spelling of each token kind.
//!
//! The crawl is driven from outside, one file at a time: [`crawl::load_file`]
//! takes a file's items into a [`introspect::Lookup`] and names the module
//! files to read next; [`assemble::parse`] then builds the
//! [`schema::Definitions`].

pub mod assemble;
pub mod attr;
pub mod crawl;
pub mod decl;
pub mod error;
pub mod features;
pub mod introspect;
pub mod laws;
pub mod names;
pub mod schema;
pub mod syntax;
pub mod token_table;
pub mod tokens;
