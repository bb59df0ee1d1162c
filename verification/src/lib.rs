//! The logic of a configuration-driven reverse proxy: which upstream service a
//! request goes to, what is sent there, and what the client is answered. Reading the
//! configuration file and moving bytes is left to the program around it.

pub mod config;
pub mod error;
pub mod headers;
pub mod proxy;
pub mod rfc3986;
pub mod route;
pub mod text;
pub mod uri;
pub mod uri_laws;
pub mod uri_serde;
