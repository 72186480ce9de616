//! The companion rewrite file system: whether it can be used, and the rules
//! that make a module's files appear over the system's.

use vstd::prelude::*;
use crate::fstree::{FileKind, FsEntry};
use crate::ioctl::{_io, _ior, _iow, _iowr, ioc};
use crate::ksu::has_nul;
use crate::paths::{join, path_join};

verus! {

/// The ioctl type of the control device's requests.
pub const HYMO_IOC_MAGIC: u32 = 0xE0;

/// The protocol this library speaks with the control device.
pub const HYMO_PROTOCOL_VERSION: i32 = 4;

/// The kind of an ordinary rule.
pub const HYMO_RULE_DEFAULT: i32 = 0;

/// The path of the control device.
pub open spec fn hymo_dev() -> Seq<char> {
    "/dev/hymo_ctl"@
}

/// The path of the control device.
pub fn hymo_dev_path() -> (r: String)
    ensures
        r@ == hymo_dev(),
{
    "/dev/hymo_ctl".to_string()
}

/// The request that adds a rule; `arg_size` is the size of the payload.
pub fn hymo_ioc_add_rule(arg_size: usize) -> (r: u32)
    ensures
        r == ioc(1, 0xE0, 1, #[verifier::truncate] (arg_size as u32)),
{
    _iow(HYMO_IOC_MAGIC, 1, arg_size)
}

/// The request that deletes a rule.
pub fn hymo_ioc_del_rule(arg_size: usize) -> (r: u32)
    ensures
        r == ioc(1, 0xE0, 2, #[verifier::truncate] (arg_size as u32)),
{
    _iow(HYMO_IOC_MAGIC, 2, arg_size)
}

/// The request that hides a path.
pub fn hymo_ioc_hide_rule(arg_size: usize) -> (r: u32)
    ensures
        r == ioc(1, 0xE0, 3, #[verifier::truncate] (arg_size as u32)),
{
    _iow(HYMO_IOC_MAGIC, 3, arg_size)
}

/// The request that clears all rules.
pub fn hymo_ioc_clear_all() -> (r: u32)
    ensures
        r == ioc(0, 0xE0, 5, 0),
{
    _io(HYMO_IOC_MAGIC, 5)
}

/// The request that reads the protocol version, a 32-bit integer.
pub fn hymo_ioc_get_version() -> (r: u32)
    ensures
        r == ioc(2, 0xE0, 6, 4),
{
    _ior(HYMO_IOC_MAGIC, 6, 4)
}

/// The request that lists the rules; `arg_size` is the size of the payload.
pub fn hymo_ioc_list_rules(arg_size: usize) -> (r: u32)
    ensures
        r == ioc(3, 0xE0, 7, #[verifier::truncate] (arg_size as u32)),
{
    _iowr(HYMO_IOC_MAGIC, 7, arg_size)
}

/// The request that switches debugging, a 32-bit integer.
pub fn hymo_ioc_set_debug() -> (r: u32)
    ensures
        r == ioc(1, 0xE0, 8, 4),
{
    _iow(HYMO_IOC_MAGIC, 8, 4)
}

/// Whether the companion file system can be used.
#[derive(Clone, Copy, Debug, PartialEq, Eq, Structural)]
pub enum HymoFsStatus {
    Available,
    NotPresent,
    ProtocolMismatch,
    KernelTooOld,
    ModuleTooOld,
}

/// What went wrong with a command.
#[derive(Clone, Copy, Debug, PartialEq, Eq, Structural)]
pub enum HymoError {
    /// The control device could not be opened.
    NoDevice,
    /// A path holds a NUL character.
    InteriorNul,
    /// The control device turned the request down, with this return value.
    Ioctl(i32),
}

/// A command for the control device. In the payload of a rule, `src` and
/// `target` are pointers to the NUL-terminated strings; a hidden path goes
/// in `src` and leaves `target` null.
#[derive(Clone, Debug, PartialEq, Eq)]
pub enum HymoCommand {
    AddRule { src: String, target: String, type_: i32 },
    HidePath { target: String },
    Clear,
    SetDebug { value: i32 },
}

/// A command as plain values.
pub enum HymoCommandView {
    AddRule { src: Seq<char>, target: Seq<char>, type_: i32 },
    HidePath { target: Seq<char> },
    Clear,
    SetDebug { value: i32 },
}

impl View for HymoCommand {
    type V = HymoCommandView;

    open spec fn view(&self) -> HymoCommandView {
        match self {
            HymoCommand::AddRule { src, target, type_ } => HymoCommandView::AddRule {
                src: src@,
                target: target@,
                type_: *type_,
            },
            HymoCommand::HidePath { target } => HymoCommandView::HidePath { target: target@ },
            HymoCommand::Clear => HymoCommandView::Clear,
            HymoCommand::SetDebug { value } => HymoCommandView::SetDebug { value: *value },
        }
    }
}

/// The commands as plain values.
pub open spec fn command_views(cmds: Seq<HymoCommand>) -> Seq<HymoCommandView> {
    cmds.map_values(|c: HymoCommand| c@)
}

/// The status that follows from whether the control device is there and
/// which protocol version it reported, if it did.
pub open spec fn status_of(present: bool, version: Option<i32>) -> HymoFsStatus {
    if !present {
        HymoFsStatus::NotPresent
    } else {
        match version {
            Some(v) => if v == HYMO_PROTOCOL_VERSION {
                HymoFsStatus::Available
            } else if v < HYMO_PROTOCOL_VERSION {
                HymoFsStatus::KernelTooOld
            } else {
                HymoFsStatus::ModuleTooOld
            },
            None => HymoFsStatus::ProtocolMismatch,
        }
    }
}

/// The rule or the hidden path that one entry of the directory `src_dir`
/// stands for, or those of the entries beneath it, were the directory seen
/// at `target_dir`. A regular file or a symbolic link gives a rule, a
/// character device with device number 0 a hidden path, a directory what is
/// beneath it; a path with a NUL character gives nothing.
pub open spec fn rules_of(e: FsEntry, src_dir: Seq<char>, target_dir: Seq<char>) -> Seq<
    HymoCommandView,
>
    decreases e, 1nat,
{
    let src = join(src_dir, e.name@);
    let target = join(target_dir, e.name@);
    if e.kind == FileKind::Directory {
        rules_in(e.children@, src, target)
    } else if e.kind == FileKind::File || e.kind == FileKind::Symlink {
        if src.contains('\0') || target.contains('\0') {
            Seq::<HymoCommandView>::empty()
        } else {
            seq![HymoCommandView::AddRule { src, target, type_: HYMO_RULE_DEFAULT }]
        }
    } else if e.kind == FileKind::CharDevice && e.rdev == 0 {
        if target.contains('\0') {
            Seq::<HymoCommandView>::empty()
        } else {
            seq![HymoCommandView::HidePath { target }]
        }
    } else {
        Seq::<HymoCommandView>::empty()
    }
}

/// The rules and hidden paths of the entries of a directory, in the order
/// of the entries.
pub open spec fn rules_in(children: Seq<FsEntry>, src_dir: Seq<char>, target_dir: Seq<char>) -> Seq<
    HymoCommandView,
>
    decreases children, 0nat,
{
    if children.len() == 0 {
        Seq::<HymoCommandView>::empty()
    } else {
        rules_in(children.drop_last(), src_dir, target_dir) + rules_of(
            children.last(),
            src_dir,
            target_dir,
        )
    }
}

/// What was found out about the control device.
#[derive(Clone, Copy, Debug, PartialEq, Eq)]
pub struct HymoFs {
    /// Whether the device node exists.
    pub present: bool,
    /// The protocol version it reported, where the request succeeded.
    pub version: Option<i32>,
}

impl HymoFs {
    /// Whether the control device is there.
    pub fn is_available(&self) -> (r: bool)
        ensures
            r == self.present,
    {
        self.present
    }

    /// Whether the companion file system can be used.
    pub fn check_status(&self) -> (r: HymoFsStatus)
        ensures
            r == status_of(self.present, self.version),
    {
        if !self.is_available() {
            return HymoFsStatus::NotPresent;
        }
        match self.version {
            Some(v) => {
                if v == HYMO_PROTOCOL_VERSION {
                    HymoFsStatus::Available
                } else if v < HYMO_PROTOCOL_VERSION {
                    HymoFsStatus::KernelTooOld
                } else {
                    HymoFsStatus::ModuleTooOld
                }
            },
            None => HymoFsStatus::ProtocolMismatch,
        }
    }

    /// The protocol version that the device reported: `version`, where the
    /// device could be opened and the request returned 0.
    pub fn get_version(opened: bool, ret: i32, version: i32) -> (r: Option<i32>)
        ensures
            r == if opened && ret == 0 {
                Some(version)
            } else {
                None
            },
    {
        if opened && ret == 0 {
            Some(version)
        } else {
            None
        }
    }

    /// What a request to the control device came to: it failed where the
    /// device could not be opened or the request did not return 0.
    pub fn outcome(opened: bool, ret: i32) -> (r: Result<(), HymoError>)
        ensures
            !opened ==> r == Err::<(), HymoError>(HymoError::NoDevice),
            opened && ret != 0 ==> r == Err::<(), HymoError>(HymoError::Ioctl(ret)),
            opened && ret == 0 ==> r is Ok,
    {
        if !opened {
            Err(HymoError::NoDevice)
        } else if ret != 0 {
            Err(HymoError::Ioctl(ret))
        } else {
            Ok(())
        }
    }

    /// The command that switches debugging on or off.
    pub fn set_debug(enable: bool) -> (r: HymoCommand)
        ensures
            r@ == (HymoCommandView::SetDebug {
                value: if enable {
                    1i32
                } else {
                    0i32
                },
            }),
    {
        HymoCommand::SetDebug {
            value: if enable {
                1
            } else {
                0
            },
        }
    }

    /// The command that clears all rules.
    pub fn clear() -> (r: HymoCommand)
        ensures
            r@ == HymoCommandView::Clear,
    {
        HymoCommand::Clear
    }

    /// The command that makes `src` appear at `target`, unless one of the
    /// two holds a NUL character.
    pub fn add_rule(src: &str, target: &str, type_: i32) -> (r: Result<HymoCommand, HymoError>)
        ensures
            src@.contains('\0') || target@.contains('\0') ==> r == Err::<HymoCommand, HymoError>(
                HymoError::InteriorNul,
            ),
            !src@.contains('\0') && !target@.contains('\0') ==> (r matches Ok(c) && c@ == (
            HymoCommandView::AddRule { src: src@, target: target@, type_ })),
    {
        if has_nul(src) || has_nul(target) {
            return Err(HymoError::InteriorNul);
        }
        Ok(HymoCommand::AddRule { src: src.to_string(), target: target.to_string(), type_ })
    }

    /// The command that hides `target`, unless it holds a NUL character.
    pub fn hide_path(target: &str) -> (r: Result<HymoCommand, HymoError>)
        ensures
            target@.contains('\0') ==> r == Err::<HymoCommand, HymoError>(HymoError::InteriorNul),
            !target@.contains('\0') ==> (r matches Ok(c) && c@ == (HymoCommandView::HidePath {
                target: target@,
            })),
    {
        if has_nul(target) {
            return Err(HymoError::InteriorNul);
        }
        Ok(HymoCommand::HidePath { target: target.to_string() })
    }

    /// Adds to `out` the commands for what lies beneath the directory `dir`
    /// of a module, whose path is `src_dir`, as it is to appear at
    /// `target_dir`.
    pub fn inject_entries(dir: &FsEntry, src_dir: &str, target_dir: &str, out: &mut Vec<HymoCommand>)
        ensures
            command_views(final(out)@) == command_views(old(out)@) + rules_in(
                dir.children@,
                src_dir@,
                target_dir@,
            ),
        decreases dir,
    {
        let mut i: usize = 0;
        proof {
            assert(dir.children@.take(0) =~= Seq::<FsEntry>::empty());
            assert(command_views(out@) =~= command_views(old(out)@) + Seq::<
                HymoCommandView,
            >::empty());
        }
        while i < dir.children.len()
            invariant
                i <= dir.children.len(),
                command_views(out@) == command_views(old(out)@) + rules_in(
                    dir.children@.take(i as int),
                    src_dir@,
                    target_dir@,
                ),
            decreases dir.children.len() - i,
        {
            let entry = &dir.children[i];
            let src = path_join(src_dir, entry.name.as_str());
            let target = path_join(target_dir, entry.name.as_str());
            let ghost before = out@;
            proof {
                let next = dir.children@.take(i as int + 1);
                assert(next.drop_last() =~= dir.children@.take(i as int));
                assert(next.last() == *entry);
                assert(rules_in(next, src_dir@, target_dir@) == rules_in(
                    next.drop_last(),
                    src_dir@,
                    target_dir@,
                ) + rules_of(*entry, src_dir@, target_dir@));
            }
            let mut added: Option<HymoCommand> = None;
            if entry.kind == FileKind::Directory {
                Self::inject_entries(entry, src.as_str(), target.as_str(), out);
            } else if entry.kind == FileKind::File || entry.kind == FileKind::Symlink {
                if let Ok(c) = Self::add_rule(src.as_str(), target.as_str(), HYMO_RULE_DEFAULT) {
                    added = Some(c);
                }
            } else if entry.kind == FileKind::CharDevice && entry.rdev == 0 {
                if let Ok(c) = Self::hide_path(target.as_str()) {
                    added = Some(c);
                }
            }
            match added {
                Some(c) => {
                    let ghost mid = out@;
                    out.push(c);
                    proof {
                        assert(command_views(out@) =~= command_views(mid).push(c@));
                    }
                },
                None => {},
            }
            proof {
                assert(command_views(out@) =~= command_views(old(out)@) + rules_in(
                    dir.children@.take(i as int + 1),
                    src_dir@,
                    target_dir@,
                ));
            }
            i = i + 1;
        }
        proof {
            assert(dir.children@.take(i as int) =~= dir.children@);
        }
    }

    /// The commands that make the contents of a module's directory appear
    /// beneath `target_base`: none where the directory is not there or is no
    /// directory, else those of everything beneath it, in the order of a
    /// walk that lists a directory before what it holds.
    pub fn inject_directory(target_base: &str, module_root: &str, module_dir: Option<&FsEntry>) -> (r:
        Vec<HymoCommand>)
        ensures
            command_views(r@) == match module_dir {
                Some(dir) => if dir.is_dir {
                    rules_in(dir.children@, module_root@, target_base@)
                } else {
                    Seq::<HymoCommandView>::empty()
                },
                None => Seq::<HymoCommandView>::empty(),
            },
    {
        let mut out: Vec<HymoCommand> = Vec::new();
        proof {
            assert(command_views(out@) =~= Seq::<HymoCommandView>::empty());
        }
        match module_dir {
            Some(dir) => {
                if dir.is_dir {
                    Self::inject_entries(dir, module_root, target_base, &mut out);
                    proof {
                        assert(command_views(out@) =~= rules_in(
                            dir.children@,
                            module_root@,
                            target_base@,
                        ));
                    }
                }
            },
            None => {},
        }
        out
    }
}

} // verus!
