//! Hover information for a text editor: a debounced, cancellable request
//! pipeline, the popovers it publishes, and a renderer that turns hover
//! contents (plain text, markdown, code) into one flat styled text.

pub mod style;
pub mod markdown;
pub mod text;
pub mod render;
pub mod diagnostic;
pub mod hover;
