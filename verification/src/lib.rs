//! A verified core for maintaining a "Keep a Changelog"-style Markdown file.
//!
//! The library models a changelog as an ordered collection of releases, each
//! with a key, a title and raw notes text.  On top of that model it provides
//! the operations a changelog tool needs: inserting categorized entries,
//! promoting the `Unreleased` section into a dated release, computing version
//! bumps, and rendering the document back to normalized Markdown with
//! regenerated version-compare links.

pub mod bump;
pub mod category;
pub mod commands;
pub mod document;
pub mod errors;
pub mod insert;
pub mod outside;
pub mod remote;
pub mod render;
pub mod review;
pub mod text;
