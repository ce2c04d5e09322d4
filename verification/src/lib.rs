//! A small static-site core: an outline-markup lexer, a document
//! assembler, and an HTML renderer, together with the pure parts of the
//! surrounding file handling.

pub mod config;
pub mod files;
pub mod handler;
pub mod metadata;
pub mod org;
pub mod template;
