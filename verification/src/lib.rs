//! Rule-based SSH key selection for git: the parsing, matching and
//! argument-building logic, with its contracts.
pub mod text;
pub mod args;
pub mod remote;
pub mod config;
pub mod matcher;
pub mod ssh;
pub mod init;
pub mod order;
pub mod suggest;
pub mod merge;
pub mod gitconfig;
pub mod agent;
pub mod log;
pub mod dispatch;
