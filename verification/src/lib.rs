//! Core logic of a distributed benchmark harness: campaign expansion and
//! scheduling, the line-framed agent RPC protocol, the trial step engine with
//! its artifact collectors, and the image-build cache decision rules.
//!
//! Text is handled as byte vectors (`Vec<u8>`) throughout; contracts are
//! stated over their `Seq<u8>` views.

pub mod afl;
pub mod agent;
pub mod archive;
pub mod blockmap;
pub mod client;
pub mod config;
pub mod durations;
pub mod engine;
pub mod image;
pub mod json;
pub mod numfmt;
pub mod plotcfg;
pub mod protocol;
pub mod sched;
pub mod vars;
