//! A miniature document-rendering pipeline: markup text and stylesheet text
//! in, a list of solid-rectangle paint commands out.

pub mod command;
pub mod css;
pub mod css_parser;
pub mod dom;
pub mod html_parse;
pub mod layout;
pub mod num;
pub mod pipeline;
pub mod style;
pub mod util;
