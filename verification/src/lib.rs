//! Turning a TeX source archive into a single HTML page with make4ht: the
//! decisions and text transformations of the conversion, verified.

pub mod archive;
pub mod arguments;
pub mod aspect;
pub mod attribute;
pub mod attribute_laws;
pub mod css;
pub mod error;
pub mod html;
pub mod image;
pub mod jpeg;
pub mod jpeg_laws;
pub mod latex_log;
pub mod listing;
pub mod make4ht;
pub mod number;
pub mod output;
pub mod page_laws;
pub mod png;
pub mod svg;
pub mod tag_laws;
pub mod tex;
pub mod text;
pub mod text_laws;
