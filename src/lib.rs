//! A soft-wrapped, multi-line text editing buffer: lines of text with a selection and an
//! input-method composition range each, grapheme-aware navigation and editing, conversion
//! to and from UTF-16 offsets, and word reflow against an available width.

pub mod codec;
pub mod flow;
pub mod grapheme;
pub mod input;
pub mod line;
pub mod text;

pub use input::TextInput;
pub use line::TextLine;
