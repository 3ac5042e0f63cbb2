//! A minimal HTTP routing core: a registry of routes (method + path pattern
//! + handler), a path matcher that extracts `{name}`-style segment
//! parameters, a request dispatcher, and post-request cleanup of
//! request-scoped state.

pub mod route;
pub mod provider;
pub mod host;
pub mod laws;
