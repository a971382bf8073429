//! The blog itself: its posts as a JSON text, and the one pass that loads
//! them and renders them into a host document.

use crate::dom::Document;
use crate::loader::{load, loaded, DecodeError, DecodeErrorView};
use crate::render::{render, rendered, RenderError, MAIN_CONTAINER_ID};
use crate::tree::ElementView;
use vstd::prelude::*;

verus! {

/// The posts of the blog, by category.
pub const BLOG_SOURCE: &'static str = r#"
        {
            "Programming": [
                {
                    "title": "Rust and WebAssembly",
                    "content": "Learn how to build a blog using Rust and WebAssembly..."
                },
                {
                    "title": "Async Programming in JavaScript",
                    "content": "Discover the power of async programming in modern JavaScript..."
                }
            ],
            "Photography": [
                {
                    "title": "Landscape Photography Tips",
                    "content": "Capture stunning landscape photos with these essential tips..."
                }
            ],
            "Travel": [
                {
                    "title": "Top 5 European Cities to Visit",
                    "content": "Explore the best European cities for your next vacation..."
                }
            ]
        }
    "#;

/// Why a pass failed.
#[derive(Clone, Debug, PartialEq, Eq)]
pub enum RunError {
    /// The text was refused; nothing was rendered.
    Decode(DecodeError),
    /// The model was loaded, and rendering it failed.
    Render(RenderError),
}

/// A failure of a pass over plain values.
pub enum RunErrorView {
    Decode(DecodeErrorView),
    Render(RenderError),
}

impl View for RunError {
    type V = RunErrorView;

    open spec fn view(&self) -> RunErrorView {
        match *self {
            RunError::Decode(error) => RunErrorView::Decode(error@),
            RunError::Render(error) => RunErrorView::Render(error),
        }
    }
}

/// The outcome of a pass over plain values.
pub open spec fn run_view(outcome: Result<(), RunError>) -> Result<(), RunErrorView> {
    match outcome {
        Ok(()) => Ok(()),
        Err(error) => Err(error@),
    }
}

/// What a pass over `text` makes of `host`, and how it ends: a text that is
/// refused leaves the host as it is, and so does a host without a main
/// container; otherwise the container gets the sections of the model.
pub open spec fn pass(text: Seq<char>, host: ElementView) -> (ElementView, Result<(), RunErrorView>) {
    match loaded(text) {
        Err(error) => (host, Err(RunErrorView::Decode(error))),
        Ok(model) => match host.locate(MAIN_CONTAINER_ID@) {
            Some(container) => (host.with_children(container, rendered(model)), Ok(())),
            None => (host, Err(RunErrorView::Render(RenderError::MissingContainer))),
        },
    }
}

/// Loads the model from `source` and renders it into `host`.  Where the text
/// is refused, nothing is rendered.
pub fn load_and_render(source: &str, host: &mut Document) -> (r: Result<(), RunError>)
    ensures
        (final(host)@, run_view(r)) == pass(source@, old(host)@),
{
    let model = match load(source) {
        Ok(model) => model,
        Err(error) => {
            return Err(RunError::Decode(error));
        },
    };
    match render(&model, host) {
        Ok(()) => Ok(()),
        Err(error) => Err(RunError::Render(error)),
    }
}

/// Renders the posts of the blog into `host`.
pub fn run(host: &mut Document) -> (r: Result<(), RunError>)
    ensures
        (final(host)@, run_view(r)) == pass(BLOG_SOURCE@, old(host)@),
{
    load_and_render(BLOG_SOURCE, host)
}

} // verus!
