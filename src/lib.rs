//! Correlation of browser-based authorization-code flows with their redirects.
//!
//! A flow is started under a fresh, unguessable correlation token; the code that
//! the authorization server's redirect carries back is handed, exactly once, to
//! the flow that registered that token.
pub mod channel;
pub mod coordinator;
pub mod registry;
pub mod server;
pub mod token;
