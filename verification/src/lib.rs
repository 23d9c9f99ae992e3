//! Verified core of the RESC remote-display client: wire parsers, the
//! control-plane state machine, frame assembly, and the decode-loop engine.
#![allow(unused_imports)]

pub mod le;
pub mod constants;
pub mod binary;
pub mod clock;
pub mod counter;
pub mod ordinals;
pub mod text;
pub mod loop_engine;
pub mod backend;
pub mod annexb;
pub mod clocksync;
pub mod verdict;
pub mod jsonl;
pub mod harness;
pub mod cli;
pub mod experiment;
pub mod doctor;
pub mod input;
pub mod video;
pub mod ledger;
pub mod receiver;
pub mod cursor;
pub mod control;
pub mod buildinfo;
pub mod profile;
pub mod session;
pub mod json;
pub mod jitter;
pub mod v3wire;
pub mod v3dispatch;
