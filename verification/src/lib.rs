//! A small blog renderer: decodes a JSON document of categories and posts and
//! builds the matching section and post elements inside a host document.

pub mod blog;
pub mod dom;
pub mod json;
pub mod loader;
pub mod model;
pub mod parser;
pub mod render;
pub mod tree;

pub use crate::blog::{load_and_render, run, RunError, BLOG_SOURCE};
pub use crate::dom::{Document, Element};
pub use crate::json::JsonValue;
pub use crate::loader::{decode, load, DecodeError, Field, PostFault};
pub use crate::model::{Category, ContentModel, Post};
pub use crate::parser::parse_json;
pub use crate::render::{create_post, create_section, render, RenderError};
