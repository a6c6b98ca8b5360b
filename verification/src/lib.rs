//! Incremental-build core of a document compiler: the article cache with its
//! cascading failure invalidation, and the initializer that decides how much
//! of a project has to be rebuilt.

pub mod article;
pub mod cache;
pub mod cascade;
pub mod highlighter;
pub mod initializer;
pub mod laws;
pub mod paths;
pub mod registry;
pub mod table;
pub mod text;

pub use cache::ArticleCache;
pub use highlighter::highlight;
pub use initializer::{initialize, Input};
