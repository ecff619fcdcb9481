//! Line-oriented syntax highlighting that renders source lines as HTML,
//! either with inline colours, with CSS classes, or merely escaped.
//!
//! A block of code is rendered by one [`SyntaxHighlighter`], made for the
//! block from a [`SyntaxAndTheme`]: each line goes through
//! `highlight_line`, in order, and `finalize` closes the block. The
//! syntaxes come from [`default_syntaxes`].
//!
//! Grammars and themes are syntect's, and text is escaped by tera. What is
//! taken on trust of them stands in three places: the [`engine`] module for
//! syntect, `escape_html` in [`escape`] for tera, and [`strings`] for one
//! method of `String`. Everything else is proved.

pub mod classed;
pub mod color;
pub mod engine;
pub mod escape;
pub mod facade;
pub mod inline;
pub mod markup;
pub mod scopes;
pub mod selection;
pub mod strings;
pub mod text;

pub use classed::ClassHighlighter;
pub use color::Color;
pub use facade::SyntaxHighlighter;
pub use inline::InlineHighlighter;
pub use selection::{default_syntaxes, SyntaxAndTheme};
