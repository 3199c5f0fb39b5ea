//! Converts Markdown documents into a plain-text form suitable for pasting
//! into a blog-publishing platform's rich-text editor.
//!
//! The library rewrites a small set of syntactic markers (headings, bullet
//! lists, numbered lists) into Unicode glyphs and renumbered sequences,
//! wraps the result with a title and tag header, and can strip the embedded
//! terminal styling for clean file output.  Every transformation is a pure
//! function of its text inputs.

pub mod error;
pub mod formatter;
pub mod laws;
pub mod markdown;
pub mod text;
pub mod transform;

pub use error::RustiumError;
pub use formatter::MarkdownFormatter;
pub use formatter::output_file_name;
pub use markdown::extract_title;
pub use markdown::parse_tags;
