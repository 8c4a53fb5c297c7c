//! The providers behind the gateway.
pub mod openai_compat;
