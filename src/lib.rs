//! Term relevance scoring (TF-IDF) over a corpus of tokenized documents.
pub mod document;
pub mod engine;
pub mod model;
pub mod token;
pub mod weight;

pub use document::{Document, PlainDocument};
pub use engine::Tfidf;
pub use token::{PlainToken, Token};
pub use weight::{Idf, Score, TfidfError};
