//! Graph-backed search: query classification, structural backends and result rendering.

pub mod hit;
pub mod query;
pub mod structural;
pub mod dispatcher;
pub mod context_extract;
pub mod syntax;
pub mod text;
