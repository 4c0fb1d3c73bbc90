//! Rendering pipeline core of a minimal browser engine: URL splitting, the
//! text of an HTTP request, a CSS tokenizer and parser, an HTML tokenizer and
//! tree constructor over a document tree addressed by indices, and the
//! layout-tree builder that filters the document by the resolved display.

pub mod text;
pub mod url;
pub mod http;
pub mod css;
pub mod dom;
pub mod html_token;
pub mod html;
pub mod layout;
