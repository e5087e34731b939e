//! A small process supervisor: configuration, registry, per-child lifecycle
//! decisions, output rotation and HTTP access control, with the decisions
//! proved against their contracts.

pub mod text;
pub mod config;
pub mod command;
pub mod registry;
pub mod supervisor;
pub mod logbuf;
pub mod auth;
pub mod output;
pub mod inspect;
pub mod status;
