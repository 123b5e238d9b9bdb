//! Verified core of the UnTrickyStore toolkit: the text handling, decisions
//! and formats behind its subcommands, with the device I/O left to callers.

pub mod common;
pub mod conflict;
pub mod daemon;
pub mod i18n;
pub mod patch;
pub mod props;
pub mod rootdetect;
pub mod service;
pub mod target;
pub mod text;
pub mod webui;
