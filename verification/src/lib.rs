//! A Markdown reader's core: Markdown to HTML rendering with Mermaid
//! diagram support, the HTML page around it, and the text that the
//! installer writes for each platform.

pub mod text;
pub mod markdown;
pub mod page;
pub mod template;
pub mod install;
