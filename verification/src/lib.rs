//! A read-only knowledge base behind OAuth: who is asking, what they may see,
//! what they are answered, and the one place where they may leave a note.
pub mod audit;
pub mod auth;
pub mod calendar;
pub mod config;
pub mod crypto;
pub mod document;
pub mod format;
pub mod http;
pub mod inbox;
pub mod json;
pub mod laws;
pub mod limits;
pub mod oauth;
pub mod order;
pub mod scan;
pub mod search;
pub mod server;
pub mod table;
pub mod text;
pub mod web;
pub mod yaml;
