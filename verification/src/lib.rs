//! Generates bash/curl scripts from an OpenAPI document: one script per path and
//! method, plus a shared configuration file holding the variables they read.

pub mod text;
pub mod path;
pub mod json;
pub mod openapi;
pub mod document;
pub mod config;
pub mod script;
pub mod generator;
