//! Rust interface to q/kdb+ over IPC: the q object model, its wire format and the
//! message framing used between a client and a q process.

pub mod qtype;
pub mod qattribute;
pub mod qnull_base;
pub mod qinf_base;
pub mod qninf_base;
pub mod ipc;
pub mod plugin;
