//! Decisions of a mount orchestrator for modules that mirror the system
//! partitions: which modules take part, how they are layered over each
//! partition or handed to magic mount, how the writable root is provided,
//! and what is sent to the kernel driver. Nothing here touches the host:
//! every function works on plain values, and each comes with a contract that
//! is proved.

use vstd::prelude::*;

pub mod config;
pub mod defs;
pub mod framework;
pub mod fstree;
pub mod hymofs;
pub mod img;
pub mod inventory;
pub mod ioctl;
pub mod ksu;
pub mod node;
pub mod node_laws;
pub mod orchestrator;
pub mod order;
pub mod paths;
pub mod planner;
pub mod planner_laws;
pub mod props;
pub mod scanner;
pub mod sparse;
pub mod state;
pub mod status;
pub mod storage;
pub mod text;

verus! {

} // verus!
