//! The kernel driver: the handle it is reached by, the probe of its version,
//! and the requests sent to it.

use vstd::prelude::*;
use crate::ioctl::{_ioc, ioc, IOC_READ, IOC_WRITE};
use crate::text::{contains_str, text_chars, views};

verus! {

/// First magic value of the handshake that hands out the driver's handle.
pub const KSU_INSTALL_MAGIC1: u32 = 0xDEADBEEF;

/// Second magic value of the handshake.
pub const KSU_INSTALL_MAGIC2: u32 = 0xCAFEBABE;

/// The ioctl type of the driver's requests: the letter `K`.
pub const KSU_IOC_TYPE: u32 = 0x4b;

/// Flags of a request to unmount a path in mount namespaces made later.
pub const TRY_UMOUNT_FLAGS: u32 = 2;

/// Mode of such a request.
pub const TRY_UMOUNT_MODE: u8 = 1;

/// The request that reads the driver's version and flags.
pub fn ksu_ioctl_get_info() -> (r: u32)
    ensures
        r == ioc(2, 0x4b, 2, 0),
{
    _ioc(IOC_READ, KSU_IOC_TYPE, 2, 0)
}

/// The request that takes an ext4 volume out of sysfs.
pub fn ksu_ioctl_nuke_ext4_sysfs() -> (r: u32)
    ensures
        r == ioc(1, 0x4b, 17, 0),
{
    _ioc(IOC_WRITE, KSU_IOC_TYPE, 17, 0)
}

/// The request that registers a deferred unmount.
pub fn ksu_ioctl_add_try_umount() -> (r: u32)
    ensures
        r == ioc(1, 0x4b, 18, 0),
{
    _ioc(IOC_WRITE, KSU_IOC_TYPE, 18, 0)
}

/// What the driver reports of itself.
#[derive(Clone, Copy, Debug, PartialEq, Eq, Structural)]
pub struct GetInfoCmd {
    pub version: u32,
    pub flags: u32,
}

/// What can go wrong with the driver.
#[derive(Clone, Copy, Debug, PartialEq, Eq, Structural)]
pub enum KsuError {
    /// The host has no driver, or one that does not answer the probe.
    Unsupported,
    /// No handle to the driver could be had.
    DriverUnavailable,
    /// A path holds a NUL character and cannot be handed to the kernel.
    InteriorNul,
    /// The driver turned a request down, with this return value.
    Ioctl(i32),
}

/// An error in words.
pub open spec fn error_text(e: KsuError) -> Seq<char> {
    match e {
        KsuError::Unsupported => "only support KernelSU!!"@,
        KsuError::DriverUnavailable => "KSU driver not available"@,
        KsuError::InteriorNul => "path contains a NUL character"@,
        KsuError::Ioctl(_) => "KSU ioctl failed"@,
    }
}

impl KsuError {
    /// The error in words.
    pub fn message(&self) -> (r: String)
        ensures
            r@ == error_text(*self),
    {
        match self {
            KsuError::Unsupported => "only support KernelSU!!".to_string(),
            KsuError::DriverUnavailable => "KSU driver not available".to_string(),
            KsuError::InteriorNul => "path contains a NUL character".to_string(),
            KsuError::Ioctl(_) => "KSU ioctl failed".to_string(),
        }
    }
}

/// The handle that the handshake left in its output slot: the slot's value
/// where it is a handle, -1 otherwise.
pub open spec fn handle_of(slot: i32) -> i32 {
    if slot >= 0 {
        slot
    } else {
        -1i32
    }
}

/// Reads the handle out of the slot that the handshake wrote to.
pub fn grab_fd(slot: i32) -> (fd: i32)
    ensures
        fd == handle_of(slot),
{
    if slot >= 0 {
        slot
    } else {
        -1
    }
}

/// The driver's handle, kept from the first handshake on.
#[derive(Clone, Debug, PartialEq, Eq)]
pub struct DriverFd {
    fd: Option<i32>,
}

impl DriverFd {
    /// The handle that is kept, if a handshake was made.
    pub closed spec fn cached(&self) -> Option<i32> {
        self.fd
    }

    /// No handshake was made yet.
    pub fn new() -> (r: Self)
        ensures
            r.cached() is None,
    {
        DriverFd { fd: None }
    }

    /// The handle that is kept, if a handshake was made.
    pub fn get(&self) -> (r: Option<i32>)
        ensures
            r == self.cached(),
    {
        self.fd
    }
}

/// The driver's handle: the one that is kept, or, at the first call, the one
/// that the handshake left in `slot`, which is kept from then on.
pub fn get_fd(gate: &mut DriverFd, slot: i32) -> (fd: i32)
    ensures
        old(gate).cached() is Some ==> fd == old(gate).cached()->0 && final(gate).cached() == old(
            gate).cached(),
        old(gate).cached() is None ==> fd == handle_of(slot) && final(gate).cached() == Some(fd),
{
    match gate.fd {
        Some(fd) => fd,
        None => {
            let fd = grab_fd(slot);
            gate.fd = Some(fd);
            fd
        },
    }
}

/// What the probe of the driver found: nothing where no handle was had or
/// the request failed.
pub open spec fn probed(fd: i32, ret: i32, cmd: GetInfoCmd) -> Option<GetInfoCmd> {
    if fd < 0 || ret < 0 {
        None
    } else {
        Some(cmd)
    }
}

/// The driver's answer to the probe, from the handle `fd`, the return value
/// `ret` of the request and what it wrote to `cmd`.
pub fn info(fd: i32, ret: i32, cmd: GetInfoCmd) -> (r: Option<GetInfoCmd>)
    ensures
        r == probed(fd, ret, cmd),
{
    if fd < 0 || ret < 0 {
        None
    } else {
        Some(cmd)
    }
}

/// The driver's version, where the probe found one.
pub fn version(fd: i32, ret: i32, cmd: GetInfoCmd) -> (r: Option<u32>)
    ensures
        r == match probed(fd, ret, cmd) {
            Some(c) => Some(c.version),
            None => None,
        },
{
    match info(fd, ret, cmd) {
        Some(c) => Some(c.version),
        None => None,
    }
}

/// Decides at startup whether the host can be used: the driver's version,
/// or `Unsupported` where no handle was had or the probe failed.
pub fn check(fd: i32, ret: i32, cmd: GetInfoCmd) -> (r: Result<u32, KsuError>)
    ensures
        fd >= 0 && ret >= 0 ==> r == Ok::<u32, KsuError>(cmd.version),
        fd < 0 || ret < 0 ==> r == Err::<u32, KsuError>(KsuError::Unsupported),
{
    match version(fd, ret, cmd) {
        Some(v) => Ok(v),
        None => Err(KsuError::Unsupported),
    }
}

/// What a request to the driver came to.
pub fn ioctl_outcome(ret: i32) -> (r: Result<(), KsuError>)
    ensures
        ret >= 0 ==> r is Ok,
        ret < 0 ==> r == Err::<(), KsuError>(KsuError::Ioctl(ret)),
{
    if ret < 0 {
        Err(KsuError::Ioctl(ret))
    } else {
        Ok(())
    }
}

/// Whether the string holds a NUL character.
pub fn has_nul(s: &str) -> (r: bool)
    ensures
        r == s@.contains('\0'),
{
    let chars = text_chars(s);
    let mut i: usize = 0;
    while i < chars.len()
        invariant
            i <= chars.len(),
            chars@ == s@,
            forall|j: int| 0 <= j < i ==> chars@[j] != '\0',
        decreases chars.len() - i,
    {
        if chars[i] == '\0' {
            return true;
        }
        i = i + 1;
    }
    false
}

/// The packet of a deferred unmount; `path` stands for the pointer to the
/// NUL-terminated path.
#[derive(Clone, Debug, PartialEq, Eq)]
pub struct KsuAddTryUmount {
    pub path: String,
    pub flags: u32,
    pub mode: u8,
}

/// The packet that takes an ext4 volume out of sysfs.
#[derive(Clone, Debug, PartialEq, Eq)]
pub struct NukeExt4SysfsCmd {
    pub path: String,
}

/// What is to be done with a path handed to the unmount queue.
#[derive(Clone, Debug, PartialEq, Eq)]
pub enum UmountAction {
    /// The path is empty: nothing to do.
    Nothing,
    /// The path was handed in before: nothing is sent.
    Duplicate,
    /// There is no driver to send to: the request is dropped.
    Dropped,
    /// The packet is to be sent.
    Submit(KsuAddTryUmount),
}

/// The kinds of outcome of a path handed to the unmount queue.
pub enum UmountKind {
    Nothing,
    Duplicate,
    Rejected,
    Dropped,
    Submit,
}

/// What becomes of the path `target`, where `sent` holds the paths handed in
/// before and `fd` is the driver's handle.
pub open spec fn umount_kind(sent: Set<Seq<char>>, target: Seq<char>, fd: i32) -> UmountKind {
    if target.len() == 0 {
        UmountKind::Nothing
    } else if sent.contains(target) {
        UmountKind::Duplicate
    } else if target.contains('\0') {
        UmountKind::Rejected
    } else if fd < 0 {
        UmountKind::Dropped
    } else {
        UmountKind::Submit
    }
}

/// The paths handed in once `target` was: an empty path is not recorded.
pub open spec fn sent_after(sent: Set<Seq<char>>, target: Seq<char>) -> Set<Seq<char>> {
    if target.len() == 0 {
        sent
    } else {
        sent.insert(target)
    }
}

/// The paths already handed to the kernel's queue of deferred unmounts.
#[derive(Clone, Debug, PartialEq, Eq)]
pub struct UnmountQueue {
    sent: Vec<String>,
}

impl UnmountQueue {
    /// The paths handed in so far.
    pub closed spec fn sent(&self) -> Set<Seq<char>> {
        views(self.sent@).to_set()
    }

    /// A queue to which nothing was handed yet.
    pub fn new() -> (r: Self)
        ensures
            r.sent() == Set::<Seq<char>>::empty(),
    {
        let r = UnmountQueue { sent: Vec::new() };
        proof {
            assert(views(r.sent@) =~= Seq::<Seq<char>>::empty());
            assert(r.sent() =~= Set::<Seq<char>>::empty());
        }
        r
    }
}

/// Registers `target` for a deferred unmount. An empty path and one handed
/// in before come to nothing. Any other path is recorded; then a path with a
/// NUL character is an error, a negative handle drops the request, and
/// otherwise the packet to send is returned.
pub fn send_unmountable(queue: &mut UnmountQueue, target: &str, fd: i32) -> (r: Result<
    UmountAction,
    KsuError,
>)
    ensures
        final(queue).sent() == sent_after(old(queue).sent(), target@),
        match umount_kind(old(queue).sent(), target@, fd) {
            UmountKind::Nothing => r matches Ok(UmountAction::Nothing),
            UmountKind::Duplicate => r matches Ok(UmountAction::Duplicate),
            UmountKind::Rejected => r == Err::<UmountAction, KsuError>(KsuError::InteriorNul),
            UmountKind::Dropped => r matches Ok(UmountAction::Dropped),
            UmountKind::Submit => r matches Ok(UmountAction::Submit(cmd)) && cmd.path@ == target@
                && cmd.flags == 2 && cmd.mode == 1,
        },
{
    broadcast use vstd::seq_lib::group_seq_properties;

    if target.is_empty() {
        return Ok(UmountAction::Nothing);
    }
    if contains_str(&queue.sent, target) {
        proof {
            assert(queue.sent().insert(target@) =~= queue.sent());
        }
        return Ok(UmountAction::Duplicate);
    }
    let ghost before = queue.sent@;
    queue.sent.push(target.to_string());
    proof {
        assert(views(queue.sent@) =~= views(before).push(target@));
        assert(views(before).push(target@).to_set() =~= views(before).to_set().insert(target@));
    }
    if has_nul(target) {
        return Err(KsuError::InteriorNul);
    }
    if fd < 0 {
        return Ok(UmountAction::Dropped);
    }
    Ok(
        UmountAction::Submit(
            KsuAddTryUmount {
                path: target.to_string(),
                flags: TRY_UMOUNT_FLAGS,
                mode: TRY_UMOUNT_MODE,
            },
        ),
    )
}

/// A path handed in twice is sent at most once: the second time nothing is
/// sent. It is sent the first time exactly when it is not empty, was not
/// handed in before, holds no NUL character and there is a driver.
pub proof fn lemma_sent_once(sent: Set<Seq<char>>, target: Seq<char>, first_fd: i32, second_fd: i32)
    ensures
        !(umount_kind(sent_after(sent, target), target, second_fd) is Submit),
        umount_kind(sent, target, first_fd) is Submit <==> target.len() > 0 && !sent.contains(
            target,
        ) && !target.contains('\0') && first_fd >= 0,
{
}

/// The packet that takes the ext4 volume at `target` out of sysfs: an error
/// where the path holds a NUL character, and else where there is no driver.
pub fn ksu_nuke_sysfs(target: &str, fd: i32) -> (r: Result<NukeExt4SysfsCmd, KsuError>)
    ensures
        target@.contains('\0') ==> r == Err::<NukeExt4SysfsCmd, KsuError>(KsuError::InteriorNul),
        !target@.contains('\0') && fd < 0 ==> r == Err::<NukeExt4SysfsCmd, KsuError>(
            KsuError::DriverUnavailable,
        ),
        !target@.contains('\0') && fd >= 0 ==> (r matches Ok(cmd) && cmd.path@ == target@),
{
    if has_nul(target) {
        return Err(KsuError::InteriorNul);
    }
    if fd < 0 {
        return Err(KsuError::DriverUnavailable);
    }
    Ok(NukeExt4SysfsCmd { path: target.to_string() })
}

} // verus!
