//! mdshelf serves folders of markdown files as websites. This crate holds the parts
//! that decide things: who may read which page, how rule blocks are written back into
//! a vault, how share links are named and bounded in time, and how text is escaped on
//! its way into a response.
pub mod text;
pub mod acl;
pub mod content;
pub mod auth;
pub mod links;
pub mod paths;
pub mod render;
pub mod server;
pub mod cli;
pub mod config;
pub mod export;
pub mod html;
pub mod theme;
