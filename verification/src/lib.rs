//! Verified building blocks of a text-analysis pipeline for CJK text:
//! character filters with their offset maps, token filters, and the
//! analyzer that chains them around a morphological segmenter.

pub mod analyzer;
pub mod character_filter;
pub mod dictionary;
pub mod error;
pub mod json;
pub mod text;
pub mod token;
pub mod token_filter;

pub use dictionary::DictionaryKind;
pub use error::{LinderaError, LinderaErrorKind, LinderaResult};
pub use token::Token;
