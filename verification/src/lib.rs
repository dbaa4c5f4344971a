pub mod dom;
pub mod extract;
pub mod html;
pub mod laws;
pub mod parse;
pub mod render;

pub use dom::DomNode;
pub use extract::{Api, Category, ExtractError};
pub use html::extract_categories;
pub use render::render;
