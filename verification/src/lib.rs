//! Verified core of the diary application: the decisions, text handling and
//! bookkeeping that the storage, S3, SSH and chat front ends share.

pub mod bot;
pub mod commands;
pub mod config;
pub mod conflicts;
pub mod date;
pub mod failure_count;
pub mod interface;
pub mod local_sync;
pub mod models;
pub mod requests;
pub mod s3_sync;
pub mod search;
pub mod sorting;
pub mod ssh;
pub mod text;
