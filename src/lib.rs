//! Suggestion core of a documentation linter: span algebra, tokenizer,
//! markup-aware reflow and checker dispatch.

pub mod span;
pub mod text;
pub mod tokenize;
pub mod chunk;
pub mod layout;
pub mod paragraph;
pub mod markup;
pub mod suggestion;
pub mod reflow;
pub mod checker;
pub mod laws;
