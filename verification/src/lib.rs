//! A static-site content pipeline.
//!
//! A site is built from documents, each a text that opens with a block of
//! `key: value` lines between two `---` lines, the front matter, and goes
//! on with a body in Markdown. The pipeline parses each document
//! ([`content_parser`]), gives it the path of its page ([`content_router`]),
//! renders the page ([`content_render`]), reads its metadata, and renders an
//! index page that lists all documents ([`site`]). Where the pages go on
//! disk is decided by [`content_writer`]; reading and writing the files is
//! left to the caller.
//!
//! Dates are read by chrono, Markdown is converted by the markdown crate,
//! and templates are rendered by minijinja. Each call into them stands in
//! a small function whose contract is believed, not proved; everything else
//! is proved against the contracts stated here.

pub mod content_parser;
pub mod content_render;
pub mod content_router;
pub mod content_writer;
pub mod context;
pub mod date;
pub mod entities;
pub mod front_matter;
pub mod site;
pub mod templates;
pub mod text;
