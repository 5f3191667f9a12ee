//! Control-plane logic of the PatchHive unified backend.
pub mod text;
pub mod env;
pub mod config;
pub mod models;
pub mod registry;
pub mod gateway;
pub mod suite;
