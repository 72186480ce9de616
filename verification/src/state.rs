//! The record of the last run.

use vstd::prelude::*;
use crate::text::views;

verus! {

/// What the last successful run did.
#[derive(Clone, Debug, PartialEq, Eq)]
pub struct RuntimeState {
    /// When the run ended, in seconds since the epoch.
    pub timestamp: u64,
    /// The process that made the run.
    pub pid: u32,
    /// How the writable root was provided.
    pub storage_mode: String,
    /// Where the writable root is mounted.
    pub mount_point: String,
    /// The modules mounted by overlay, ascending.
    pub overlay_modules: Vec<String>,
    /// The modules mounted by magic mount, ascending.
    pub magic_modules: Vec<String>,
    /// Whether the driver was asked to take the ext4 volume out of sysfs.
    pub nuke_active: bool,
}

/// The record as plain values.
pub struct RuntimeStateView {
    pub timestamp: u64,
    pub pid: u32,
    pub storage_mode: Seq<char>,
    pub mount_point: Seq<char>,
    pub overlay_modules: Seq<Seq<char>>,
    pub magic_modules: Seq<Seq<char>>,
    pub nuke_active: bool,
}

impl View for RuntimeState {
    type V = RuntimeStateView;

    open spec fn view(&self) -> RuntimeStateView {
        RuntimeStateView {
            timestamp: self.timestamp,
            pid: self.pid,
            storage_mode: self.storage_mode@,
            mount_point: self.mount_point@,
            overlay_modules: views(self.overlay_modules@),
            magic_modules: views(self.magic_modules@),
            nuke_active: self.nuke_active,
        }
    }
}

/// The state of a host on which no run was recorded.
pub open spec fn empty_state() -> RuntimeStateView {
    RuntimeStateView {
        timestamp: 0,
        pid: 0,
        storage_mode: Seq::<char>::empty(),
        mount_point: Seq::<char>::empty(),
        overlay_modules: Seq::<Seq<char>>::empty(),
        magic_modules: Seq::<Seq<char>>::empty(),
        nuke_active: false,
    }
}

impl Default for RuntimeState {
    fn default() -> (r: RuntimeState)
        ensures
            r@ == empty_state(),
    {
        let r = RuntimeState {
            timestamp: 0,
            pid: 0,
            storage_mode: String::new(),
            mount_point: String::new(),
            overlay_modules: Vec::new(),
            magic_modules: Vec::new(),
            nuke_active: false,
        };
        proof {
            assert(views(r.overlay_modules@) =~= Seq::<Seq<char>>::empty());
            assert(views(r.magic_modules@) =~= Seq::<Seq<char>>::empty());
        }
        r
    }
}

impl RuntimeState {
    /// The record of a run that ended at `timestamp` in process `pid`.
    pub fn new(
        timestamp: u64,
        pid: u32,
        storage_mode: String,
        mount_point: String,
        overlay_modules: Vec<String>,
        magic_modules: Vec<String>,
        nuke_active: bool,
    ) -> (r: Self)
        ensures
            r@ == (RuntimeStateView {
                timestamp,
                pid,
                storage_mode: storage_mode@,
                mount_point: mount_point@,
                overlay_modules: views(overlay_modules@),
                magic_modules: views(magic_modules@),
                nuke_active,
            }),
    {
        Self {
            timestamp,
            pid,
            storage_mode,
            mount_point,
            overlay_modules,
            magic_modules,
            nuke_active,
        }
    }

    /// What a load of the state file amounts to: the state read, or the
    /// empty state where the file is not there.
    pub fn load(stored: Option<RuntimeState>) -> (r: RuntimeState)
        ensures
            match stored {
                Some(s) => r == s,
                None => r@ == empty_state(),
            },
    {
        match stored {
            Some(s) => s,
            None => RuntimeState::default(),
        }
    }
}

} // verus!
