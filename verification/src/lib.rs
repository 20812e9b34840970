//! Sascha Flavored Markdown: configuration model, the SMD inline
//! preprocessor, the HTML renderer and the editor's text edits, with their
//! contracts proved by Verus.

pub mod text;
pub mod config;
pub mod editor;
pub mod markup;
pub mod nav;
pub mod parser;
