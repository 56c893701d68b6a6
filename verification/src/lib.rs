//! Decision core of a userspace KSM daemon and its deduplicating swap proxy.

pub mod backend;
pub mod block;
pub mod config;
pub mod dedup;
pub mod error;
pub mod fingerprint;
pub mod float_bits;
pub mod governor;
pub mod history;
pub mod ksm;
pub mod ledger;
pub mod lifecycle;
pub mod madvise;
pub mod outside;
pub mod process_madvise;
pub mod procfs;
pub mod proxy;
pub mod psi;
pub mod ptrace;
pub mod report;
pub mod scanner;
pub mod service;
pub mod simulation;
pub mod state;
pub mod text;
