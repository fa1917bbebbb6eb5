//! Reading and normalizing the JSON documents that the model returns.
pub mod articulation;
pub mod documents;
pub mod extract;
pub mod finish;
pub mod plan_json;
pub mod tokens;
