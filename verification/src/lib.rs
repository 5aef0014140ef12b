//! The chat's library: the message stores, the file cache, the chat sessions, the login
//! rules, the page templates and the queries, each with its contract.

pub mod guard;
pub mod groups;
pub mod btree;
pub mod btree2;
pub mod node;
pub mod path;
pub mod cache;
pub mod chat;
pub mod text;
pub mod users;
pub mod login;
pub mod template;
pub mod statiq;
pub mod graphql;
pub mod models;

pub use guard::{Id, MessageGuard};
pub use btree::Messages;
pub use btree2::Messages as Messages2;
pub mod laws;
