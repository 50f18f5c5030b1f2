//! Commands for a fleet of servers that are reached over SSH.
//!
//! The servers, their groups and the preset commands are kept in a
//! configuration, which lies on disk only as an encrypted container under a
//! passphrase. A command for a server is decided on against the
//! configuration, run step by step, and its result filed in a ledger under
//! the name of the server until it is fetched.
//!
//! The library holds the state and the rules; the connections, the file and
//! the threads are for the program around it:
//!
//! - [`state`] and [`commands`]: the shared state and what each command
//!   does to it;
//! - [`session`]: the steps of running a command on a server;
//! - [`ledger`]: the results that wait to be fetched;
//! - [`config_data`], [`address`] and [`name_map`]: the configuration;
//! - [`wire`]: the bytes of a configuration;
//! - [`vault`]: the encrypted container;
//! - [`config_update`]: creating, loading and periodically saving the
//!   configuration.

pub mod address;
pub mod commands;
pub mod config_data;
pub mod config_update;
pub mod error;
pub mod ledger;
pub mod name_map;
pub mod session;
pub mod state;
pub mod vault;
pub mod wire;
