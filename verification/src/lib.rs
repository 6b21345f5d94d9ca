//! The decision core of an SSH connection daemon.
//!
//! Everything the daemon decides (which route a target takes, how a command is
//! quoted, when a remote command has finished, which connection is reused) is a
//! function on plain values with a contract. Sockets, files and tasks live
//! outside, in the application crate that drives these functions.
pub mod address_pool;
pub mod assets;
pub mod assoc;
pub mod auth;
pub mod bastion;
pub mod config;
pub mod connections;
pub mod daemon;
pub mod direct;
pub mod download;
pub mod execute;
pub mod gateway;
pub mod ids;
pub mod keys;
pub mod listing;
pub mod lists;
pub mod local;
pub mod localhost;
pub mod navigate;
pub mod output;
pub mod passthrough;
pub mod paths;
pub mod proxy;
pub mod pty;
pub mod relay;
pub mod remote;
pub mod resolver;
pub mod retry;
pub mod reverse;
pub mod search;
pub mod sentinel;
pub mod session;
pub mod session_cache;
pub mod shell;
pub mod shell_copy;
pub mod text;
pub mod transfer;
pub mod xhod;
