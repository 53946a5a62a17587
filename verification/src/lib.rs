//! Converts a small Markdown dialect into an HTML fragment: headings,
//! paragraphs, bold, italic and code spans, fenced code blocks, and ordered
//! and unordered lists that nest by their indent.
//!
//! The conversion has two stages. [`lexer::tokenize`] scans a text into
//! block nodes, and [`parser::parse`] renders the nodes as HTML;
//! [`page::convert`] does both. What each stage gives is said by functions
//! of specifications: [`grammar`] for the scanner and [`markup`] for the
//! renderer, over the values of [`model`]. What holds of every text and of
//! every list is proved in [`scanning`] and [`spans`], and in [`nesting`]
//! and [`tags`].
//!
//! The other modules are the steps around the conversion when an article is
//! published: [`front_matter`] reads the header of the article, [`index`]
//! keeps the list of articles, and [`template`] fills the page.

pub mod front_matter;
pub mod grammar;
pub mod index;
pub mod lexer;
pub mod markup;
pub mod model;
pub mod nesting;
pub mod page;
pub mod parser;
pub mod scanning;
pub mod spans;
pub mod tags;
pub mod template;
pub mod text;
