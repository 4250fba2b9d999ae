//! A Markdown re-serializer: turns a stream of block/inline parse events back
//! into Markdown text whose re-parse yields an equivalent event stream.

pub mod events;
pub mod text;
pub mod context;
pub mod emit;
pub mod writer;
pub mod laws;

pub use events::CodeBlockKind;
pub use events::Event;
pub use events::LinkType;
pub use events::Tag;
pub use text::EscapeOptions;
pub use text::escape_text;
pub use writer::push_markdown;
