//! Verified core of the Gen3D AI pipeline: the decisions, parsers and
//! normalizers that sit between the model provider and the asset builder.
pub mod openai;
pub mod parse;
pub mod pipeline;
pub mod json;
pub mod motion;
pub mod text;
