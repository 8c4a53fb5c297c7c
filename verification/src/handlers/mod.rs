//! The endpoints of the gateway.
pub mod chat;
pub mod embeddings;
pub mod health;
pub mod metrics_handler;
pub mod models;
