//! Core logic of a mock HTTP API server: template rendering, request matching,
//! JSON response shaping, terminal UI state and daemon/port decisions.
pub mod api;
pub mod cli;
pub mod control;
pub mod handler;
pub mod json;
pub mod models;
pub mod shape;
pub mod store;
pub mod template;
pub mod tui;
pub mod views;
pub mod text;
