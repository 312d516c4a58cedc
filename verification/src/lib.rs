//! Configuration model, model routing and request-shaping logic of a small
//! proxy in front of OpenAI-compatible chat-completion providers.

pub mod auth;
pub mod config;
pub mod filter;
pub mod laws;
pub mod model_map;
pub mod proxy;
pub mod text;
