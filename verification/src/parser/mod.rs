pub mod emoji;
pub mod markdown;
pub mod preprocessor;
pub mod renderer;
pub mod styled;

pub use preprocessor::xml_escape;
pub use renderer::{build_html_document, build_html_document_inline_styles, render_to_html, render_to_html_inline};
