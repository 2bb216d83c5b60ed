//! Host-local mailboxes that let independent agent sessions discover each other and exchange
//! short coordination messages.
pub mod text;
pub mod store;
pub mod mailbox;
pub mod ids;
pub mod laws;
pub mod protocol;
pub mod tools;
pub mod fragment;
pub mod session;
pub mod tui;
