//! A compiler from line-oriented questionnaire markup to one self-contained
//! HTML document.
//!
//! The pipeline has two stages. The directive parser (`transcompiler`) turns
//! source lines into a document model, reading multi-line blocks with a
//! scanner (`scan`) that tracks brace depth, quote mode and escapes. The code
//! generator (`convert`) renders that model into escaped HTML together with a
//! per-page script table and a fixed runtime script. The question kinds of a
//! page, each with its parser and its renderer, live in `items`.
//!
//! Texts are modelled as `Seq<char>`; every contract is stated over those
//! sequences and the views of the document model. What the library does with
//! text (trimming, splitting into lines and words, searching, replacing) is
//! defined and proved in `text`.
//!
//! Three contracts are taken on trust, because the code behind them is not
//! verified here: that of `String::push` in `text::convert`, that of
//! `serde_json::to_string` on a string slice in `json`, and that of the QR
//! code renderer in `items::qrcode`.

pub mod convert;
pub mod items;
pub mod json;
pub mod read_block;
pub mod scan;
pub mod text;
pub mod transcompiler;
pub mod transcompiler_old;
