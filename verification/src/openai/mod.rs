//! The OpenAI request layer: errors and their classification, reasoning
//! effort caps, the capability cache, request/retry decisions and the
//! helpers that read a response.
pub mod base64;
pub mod cancel;
pub mod capabilities;
pub mod effort;
pub mod error;
pub mod flow;
pub mod mock;
pub mod request;
pub mod response;
pub mod transport;
