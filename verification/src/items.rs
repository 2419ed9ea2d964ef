//! The question kinds of a page, each with its parser and its renderer.

pub mod choice;
pub mod choose_item;
pub mod common;
pub mod css;
pub mod function;
pub mod html;
pub mod insert;
pub mod js;
pub mod qrcode;

pub use choose_item::Choose;
pub use css::Css;
pub use function::Function;
pub use html::Html;
pub use insert::Insert;
pub use js::Js;
