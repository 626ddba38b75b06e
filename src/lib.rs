//! Administration client library for a hosted mail platform: the bulk
//! mailbox import engine (archive folders, hierarchy resolution, folder
//! provisioning, upload scheduling and result tallying) together with the
//! plain command-line model and a few small decision helpers.
pub mod cli;
pub mod folders;
pub mod remote;
pub mod resolve;
pub mod provision;
pub mod message;
pub mod import;
pub mod ingest;
pub mod principal;
pub mod accounts;
