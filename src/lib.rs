//! Verified core of a multi-provider chat client: provider configuration,
//! bot discovery and dispatch, chat sessions and their persistence, and the
//! hook that carries generated messages into session history.

pub mod error;
pub mod provider;
pub mod catalog;
pub mod repo;
pub mod session;
pub mod store;
pub mod hook;
pub mod screen;
