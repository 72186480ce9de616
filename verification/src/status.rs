//! The report on the writable root: where it is, how it was provided and how
//! full it is.

use vstd::prelude::*;
use crate::hymofs::HymoFs;
use crate::state::RuntimeState;

verus! {

/// What the file system says of its size, in blocks.
#[derive(Clone, Copy, Debug, PartialEq, Eq, Structural)]
pub struct StatVfs {
    /// The size of the file system, in blocks of `frsize` bytes.
    pub blocks: u64,
    /// The number of free blocks.
    pub bfree: u64,
    /// The number of free blocks for unprivileged users.
    pub bavail: u64,
    /// The size of a block.
    pub frsize: u64,
}

/// The status of the writable root.
#[derive(Clone, Debug, PartialEq, Eq)]
pub struct StorageStatus {
    pub mode: String,
    pub mount_point: String,
    pub usage_percent: u8,
    pub total_size: u64,
    pub used_size: u64,
    pub hymofs_available: bool,
}

/// What status is reported.
#[derive(Clone, Debug, PartialEq, Eq)]
pub enum StatusReport {
    /// There is no writable root.
    NotMounted,
    Mounted(StorageStatus),
}

/// The file system of the writable root did not say its size.
#[derive(Clone, Copy, Debug, PartialEq, Eq, Structural)]
pub struct StatvfsFailed;

/// The mode reported where the state names none.
pub open spec fn unknown_mode() -> Seq<char> {
    "unknown"@
}

/// The line printed where there is no writable root.
pub open spec fn not_mounted_line() -> Seq<char> {
    "{ \"error\": \"Not mounted\" }"@
}

/// A number of blocks in bytes, kept within 64 bits.
pub open spec fn bytes_of(blocks: u64, frsize: u64) -> int {
    if blocks * frsize > u64::MAX {
        u64::MAX as int
    } else {
        blocks * frsize
    }
}

/// The size of the file system in bytes.
pub open spec fn total_bytes(stat: StatVfs) -> int {
    bytes_of(stat.blocks, stat.frsize)
}

/// The bytes in use: the size without what is free, and 0 where more is
/// said to be free than there is.
pub open spec fn used_bytes(stat: StatVfs, free_blocks: u64) -> int {
    if bytes_of(free_blocks, stat.frsize) > total_bytes(stat) {
        0
    } else {
        total_bytes(stat) - bytes_of(free_blocks, stat.frsize)
    }
}

/// The share of the file system that is in use, in per cent, rounded down;
/// 0 for a file system without size.
pub open spec fn usage_percent(stat: StatVfs) -> int {
    if total_bytes(stat) > 0 {
        used_bytes(stat, stat.bfree) * 100 / total_bytes(stat)
    } else {
        0
    }
}

/// A number of blocks in bytes.
pub fn block_bytes(blocks: u64, frsize: u64) -> (r: u64)
    ensures
        r == bytes_of(blocks, frsize),
{
    proof {
        assert(blocks * frsize <= 0xffff_ffff_ffff_ffff * 0xffff_ffff_ffff_ffff) by (nonlinear_arith)
            requires
                0 <= blocks <= 0xffff_ffff_ffff_ffff,
                0 <= frsize <= 0xffff_ffff_ffff_ffff,
        ;
    }
    let wide: u128 = (blocks as u128) * (frsize as u128);
    if wide > u64::MAX as u128 {
        u64::MAX
    } else {
        wide as u64
    }
}

/// The bytes in use where `free_blocks` blocks are free.
pub fn bytes_in_use(stat: StatVfs, free_blocks: u64) -> (r: u64)
    ensures
        r == used_bytes(stat, free_blocks),
{
    let total = block_bytes(stat.blocks, stat.frsize);
    let free = block_bytes(free_blocks, stat.frsize);
    if free > total {
        0
    } else {
        total - free
    }
}

/// The share of the file system that is in use, in per cent.
pub fn percent_in_use(stat: StatVfs) -> (r: u8)
    ensures
        r == usage_percent(stat),
        r <= 100,
{
    let total = block_bytes(stat.blocks, stat.frsize);
    let used = bytes_in_use(stat, stat.bfree);
    if total > 0 {
        let p: u128 = (used as u128) * 100 / (total as u128);
        proof {
            assert(used * 100 / (total as int) <= 100) by (nonlinear_arith)
                requires
                    0 <= used <= total,
                    total > 0,
            ;
        }
        p as u8
    } else {
        0
    }
}

/// The line printed where there is no writable root.
pub fn not_mounted_message() -> (r: String)
    ensures
        r@ == not_mounted_line(),
{
    "{ \"error\": \"Not mounted\" }".to_string()
}

/// Reports on the writable root that `state` names. There is none where
/// the state names no mount point or the mount point does not exist. Else
/// the report gives the mode of the state (`unknown` where it names none),
/// the mount point, and size and use as `stat` has them; without `stat` it
/// fails.
pub fn print_status(
    state: &RuntimeState,
    mount_point_exists: bool,
    stat: Option<StatVfs>,
    hymofs: &HymoFs,
) -> (r: Result<StatusReport, StatvfsFailed>)
    ensures
        state.mount_point@.len() == 0 || !mount_point_exists ==> r matches Ok(
            StatusReport::NotMounted,
        ),
        state.mount_point@.len() > 0 && mount_point_exists && stat is None ==> r is Err,
        state.mount_point@.len() > 0 && mount_point_exists && stat is Some ==> (r matches Ok(
            StatusReport::Mounted(s),
        ) && {
            &&& s.mode@ == if state.storage_mode@.len() == 0 {
                unknown_mode()
            } else {
                state.storage_mode@
            }
            &&& s.mount_point@ == state.mount_point@
            &&& s.usage_percent == usage_percent(stat->0)
            &&& s.total_size == total_bytes(stat->0)
            &&& s.used_size == used_bytes(stat->0, stat->0.bfree)
            &&& s.hymofs_available == hymofs.present
        }),
{
    if state.mount_point.as_str().is_empty() || !mount_point_exists {
        return Ok(StatusReport::NotMounted);
    }
    match stat {
        None => Err(StatvfsFailed),
        Some(st) => {
            let mode = if state.storage_mode.as_str().is_empty() {
                "unknown".to_string()
            } else {
                state.storage_mode.clone()
            };
            Ok(
                StatusReport::Mounted(
                    StorageStatus {
                        mode,
                        mount_point: state.mount_point.clone(),
                        usage_percent: percent_in_use(st),
                        total_size: block_bytes(st.blocks, st.frsize),
                        used_size: bytes_in_use(st, st.bfree),
                        hymofs_available: hymofs.is_available(),
                    },
                ),
            )
        },
    }
}

} // verus!
