//! QuietMD library: the verified logic of a read-only Markdown viewer.

pub mod decode;
pub mod events;
pub mod layout;
pub mod markdown;
pub mod markdown_spec;
pub mod search;
pub mod sentence;
pub mod settings;
pub mod text;
pub mod websearch;
pub mod window;
