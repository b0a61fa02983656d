//! Looks up a word or phrase in the description that a Bing Dictionary result
//! page carries, and splits it into pronunciations and senses.

pub mod description;
pub mod error;
pub mod escape;
pub mod lookup;
pub mod page;
pub mod paraphrase;
pub mod search;
pub mod text;

pub use description::parse;
pub use error::Error;
pub use lookup::translate;
pub use page::extract_description;
pub use paraphrase::Paraphrase;
