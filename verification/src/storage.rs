//! The writable root: tmpfs where it takes extended attributes, an ext4
//! image otherwise. The steps are decided here; whoever drives them performs
//! each one and reports how it went.

use vstd::prelude::*;
use crate::img::{mode_name, ImgMode};
use crate::ksu::has_nul;

verus! {

/// The label given to the writable root.
pub open spec fn default_selinux_context() -> Seq<char> {
    "u:object_r:system_file:s0"@
}

/// The extended attribute that holds the label.
pub open spec fn selinux_xattr_key() -> Seq<char> {
    "security.selinux"@
}

/// The label given to the writable root.
pub fn selinux_context() -> (r: String)
    ensures
        r@ == default_selinux_context(),
{
    "u:object_r:system_file:s0".to_string()
}

/// The extended attribute that holds the label.
pub fn selinux_key() -> (r: String)
    ensures
        r@ == selinux_xattr_key(),
{
    "security.selinux".to_string()
}

/// The permission bits of the writable root.
pub const STORAGE_ROOT_MODE: u32 = 0o755;

/// The owner and the group of the writable root.
pub const STORAGE_ROOT_OWNER: u32 = 0;

/// The size of a new image: 2 GiB.
pub const IMAGE_SIZE: u64 = 0x8000_0000;

/// The greatest exit code of the file system check after which the image
/// can be used.
pub const FSCK_RECOVERABLE: i32 = 2;

/// The writable root, once it is there.
#[derive(Clone, Debug, PartialEq, Eq)]
pub struct StorageHandle {
    pub mount_point: String,
    pub mode: String,
}

/// Why the writable root could not be provided.
#[derive(Clone, Copy, Debug, PartialEq, Eq, Structural)]
pub enum StorageError {
    /// A directory could not be made.
    Io,
    /// The image could not be allocated or formatted.
    CreateImage,
    /// The file system check could not mend the image.
    Repair,
    /// The image could not be mounted although the check mended it.
    MountAfterRepair,
}

/// The step that is to be taken next, or how the setup ended.
#[derive(Clone, Copy, Debug, PartialEq, Eq, Structural)]
pub enum SetupAction {
    /// Find out whether something is mounted at the mount point.
    QueryMounted,
    /// Unmount, detaching, what is mounted at the mount point.
    DetachStale,
    /// Make the mount point and the directories above it.
    CreateMountPoint,
    /// Mount tmpfs at the mount point, with mode 0755.
    MountTmpfs,
    /// Write a file to the mount point, set its label, delete it.
    ProbeXattr,
    /// Unmount, detaching, the tmpfs.
    DetachTmpfs,
    /// Find out whether the image file exists.
    QueryImage,
    /// Make the directory that is to hold the image.
    CreateImageDir,
    /// Allocate the image as a sparse file.
    AllocateImage,
    /// Format the image as ext4 without a journal.
    FormatImage,
    /// Mount the image at the mount point: loop, read-write, noatime.
    MountImage,
    /// Run the file system check on the image, mending what it finds.
    RepairImage,
    /// Mount the mended image.
    MountRepaired,
    /// The writable root is there, in this mode.
    Finish(ImgMode),
    /// The writable root cannot be provided.
    Abort(StorageError),
}

/// How a step went.
#[derive(Clone, Copy, Debug, PartialEq, Eq, Structural)]
pub enum SetupEvent {
    /// The call succeeded; to a question, the answer is yes.
    Succeeded,
    /// The call failed; to a question, the answer is no.
    Failed,
    /// The command ran and ended with this exit code, or without one.
    Exited(Option<i32>),
}

/// Whether the step went well: the call succeeded or the command ended with
/// exit code 0.
pub open spec fn went_well(event: SetupEvent) -> bool {
    event == SetupEvent::Succeeded || event == SetupEvent::Exited(Some(0i32))
}

/// Whether the image can be used after the file system check: it ended with
/// an exit code of at most 2, which stands for no error or for errors mended.
pub open spec fn repair_succeeded(event: SetupEvent) -> bool {
    event matches SetupEvent::Exited(Some(code)) && code <= FSCK_RECOVERABLE
}

/// Whether the setup has ended.
pub open spec fn is_final(action: SetupAction) -> bool {
    action is Finish || action is Abort
}

/// The step that follows `action` once it went as `event` says.
pub open spec fn next_action(action: SetupAction, force_ext4: bool, event: SetupEvent) -> SetupAction {
    match action {
        SetupAction::QueryMounted => if went_well(event) {
            SetupAction::DetachStale
        } else {
            SetupAction::CreateMountPoint
        },
        SetupAction::DetachStale => SetupAction::CreateMountPoint,
        SetupAction::CreateMountPoint => if !went_well(event) {
            SetupAction::Abort(StorageError::Io)
        } else if force_ext4 {
            SetupAction::QueryImage
        } else {
            SetupAction::MountTmpfs
        },
        SetupAction::MountTmpfs => if went_well(event) {
            SetupAction::ProbeXattr
        } else {
            SetupAction::QueryImage
        },
        SetupAction::ProbeXattr => if went_well(event) {
            SetupAction::Finish(ImgMode::Tmpfs)
        } else {
            SetupAction::DetachTmpfs
        },
        SetupAction::DetachTmpfs => SetupAction::QueryImage,
        SetupAction::QueryImage => if went_well(event) {
            SetupAction::MountImage
        } else {
            SetupAction::CreateImageDir
        },
        SetupAction::CreateImageDir => if went_well(event) {
            SetupAction::AllocateImage
        } else {
            SetupAction::Abort(StorageError::Io)
        },
        SetupAction::AllocateImage => if went_well(event) {
            SetupAction::FormatImage
        } else {
            SetupAction::Abort(StorageError::CreateImage)
        },
        SetupAction::FormatImage => if went_well(event) {
            SetupAction::MountImage
        } else {
            SetupAction::Abort(StorageError::CreateImage)
        },
        SetupAction::MountImage => if went_well(event) {
            SetupAction::Finish(ImgMode::Ext4)
        } else {
            SetupAction::RepairImage
        },
        SetupAction::RepairImage => if repair_succeeded(event) {
            SetupAction::MountRepaired
        } else {
            SetupAction::Abort(StorageError::Repair)
        },
        SetupAction::MountRepaired => if went_well(event) {
            SetupAction::Finish(ImgMode::Ext4)
        } else {
            SetupAction::Abort(StorageError::MountAfterRepair)
        },
        SetupAction::Finish(mode) => SetupAction::Finish(mode),
        SetupAction::Abort(e) => SetupAction::Abort(e),
    }
}

/// Where the setup stands after the events, one for each step taken.
pub open spec fn run_from(action: SetupAction, force_ext4: bool, events: Seq<SetupEvent>) -> SetupAction
    decreases events.len(),
{
    if events.len() == 0 {
        action
    } else {
        run_from(next_action(action, force_ext4, events[0]), force_ext4, events.drop_first())
    }
}

/// How many steps the setup can still take, at most.
pub open spec fn steps_left(action: SetupAction) -> nat {
    match action {
        SetupAction::QueryMounted => 14,
        SetupAction::DetachStale => 13,
        SetupAction::CreateMountPoint => 12,
        SetupAction::MountTmpfs => 11,
        SetupAction::ProbeXattr => 10,
        SetupAction::DetachTmpfs => 9,
        SetupAction::QueryImage => 8,
        SetupAction::CreateImageDir => 7,
        SetupAction::AllocateImage => 6,
        SetupAction::FormatImage => 5,
        SetupAction::MountImage => 4,
        SetupAction::RepairImage => 3,
        SetupAction::MountRepaired => 2,
        SetupAction::Finish(_) => 0,
        SetupAction::Abort(_) => 0,
    }
}

/// Whether the step went well.
pub fn event_went_well(event: SetupEvent) -> (r: bool)
    ensures
        r == went_well(event),
{
    match event {
        SetupEvent::Succeeded => true,
        SetupEvent::Failed => false,
        SetupEvent::Exited(code) => match code {
            Some(c) => c == 0,
            None => false,
        },
    }
}

/// Whether the image can be used after the file system check ended with
/// `code`.
pub fn repair_image(code: Option<i32>) -> (r: bool)
    ensures
        r == repair_succeeded(SetupEvent::Exited(code)),
{
    match code {
        Some(c) => c <= FSCK_RECOVERABLE,
        None => false,
    }
}

/// Whether the mount point takes extended attributes: the test file could
/// be written and its label could be set.
pub fn is_xattr_supported(written: bool, labelled: bool) -> (r: bool)
    ensures
        r == (written && labelled),
{
    written && labelled
}

/// The step that follows `action` once it went as `event` says.
pub fn advance(action: SetupAction, force_ext4: bool, event: SetupEvent) -> (r: SetupAction)
    ensures
        r == next_action(action, force_ext4, event),
{
    let ok = event_went_well(event);
    match action {
        SetupAction::QueryMounted => if ok {
            SetupAction::DetachStale
        } else {
            SetupAction::CreateMountPoint
        },
        SetupAction::DetachStale => SetupAction::CreateMountPoint,
        SetupAction::CreateMountPoint => if !ok {
            SetupAction::Abort(StorageError::Io)
        } else if force_ext4 {
            SetupAction::QueryImage
        } else {
            SetupAction::MountTmpfs
        },
        SetupAction::MountTmpfs => if ok {
            SetupAction::ProbeXattr
        } else {
            SetupAction::QueryImage
        },
        SetupAction::ProbeXattr => if ok {
            SetupAction::Finish(ImgMode::Tmpfs)
        } else {
            SetupAction::DetachTmpfs
        },
        SetupAction::DetachTmpfs => SetupAction::QueryImage,
        SetupAction::QueryImage => if ok {
            SetupAction::MountImage
        } else {
            SetupAction::CreateImageDir
        },
        SetupAction::CreateImageDir => if ok {
            SetupAction::AllocateImage
        } else {
            SetupAction::Abort(StorageError::Io)
        },
        SetupAction::AllocateImage => if ok {
            SetupAction::FormatImage
        } else {
            SetupAction::Abort(StorageError::CreateImage)
        },
        SetupAction::FormatImage => if ok {
            SetupAction::MountImage
        } else {
            SetupAction::Abort(StorageError::CreateImage)
        },
        SetupAction::MountImage => if ok {
            SetupAction::Finish(ImgMode::Ext4)
        } else {
            SetupAction::RepairImage
        },
        SetupAction::RepairImage => {
            let mended = match event {
                SetupEvent::Exited(code) => repair_image(code),
                _ => false,
            };
            if mended {
                SetupAction::MountRepaired
            } else {
                SetupAction::Abort(StorageError::Repair)
            }
        },
        SetupAction::MountRepaired => if ok {
            SetupAction::Finish(ImgMode::Ext4)
        } else {
            SetupAction::Abort(StorageError::MountAfterRepair)
        },
        SetupAction::Finish(mode) => SetupAction::Finish(mode),
        SetupAction::Abort(e) => SetupAction::Abort(e),
    }
}

/// The provision of the writable root at `mount_point`, as far as it has got.
#[derive(Clone, Debug, PartialEq, Eq)]
pub struct StorageSetup {
    pub mount_point: String,
    pub image_path: String,
    pub force_ext4: bool,
    /// The step to take next.
    pub pending: SetupAction,
}

/// Begins the provision of the writable root at `mnt_base`, backed by the
/// image at `img_path` where tmpfs will not do or `force_ext4` rules it out.
pub fn setup(mnt_base: &str, img_path: &str, force_ext4: bool) -> (r: StorageSetup)
    ensures
        r.mount_point@ == mnt_base@,
        r.image_path@ == img_path@,
        r.force_ext4 == force_ext4,
        r.pending == SetupAction::QueryMounted,
{
    StorageSetup {
        mount_point: mnt_base.to_string(),
        image_path: img_path.to_string(),
        force_ext4,
        pending: SetupAction::QueryMounted,
    }
}

impl StorageSetup {
    /// Takes note of how the pending step went, and returns the next one.
    pub fn step(&mut self, event: SetupEvent) -> (next: SetupAction)
        ensures
            next == next_action(old(self).pending, old(self).force_ext4, event),
            final(self).pending == next,
            final(self).mount_point == old(self).mount_point,
            final(self).image_path == old(self).image_path,
            final(self).force_ext4 == old(self).force_ext4,
    {
        let next = advance(self.pending, self.force_ext4, event);
        self.pending = next;
        next
    }

    /// Takes note of how a run of steps went, one event for each step taken.
    /// Events behind the end of the setup change nothing.
    pub fn run(&mut self, events: &Vec<SetupEvent>) -> (last: SetupAction)
        ensures
            last == run_from(old(self).pending, old(self).force_ext4, events@),
            final(self).pending == last,
            final(self).mount_point == old(self).mount_point,
            final(self).image_path == old(self).image_path,
            final(self).force_ext4 == old(self).force_ext4,
    {
        let mut i: usize = 0;
        proof {
            assert(events@.skip(0) =~= events@);
        }
        while i < events.len()
            invariant
                i <= events.len(),
                self.mount_point == old(self).mount_point,
                self.image_path == old(self).image_path,
                self.force_ext4 == old(self).force_ext4,
                run_from(old(self).pending, old(self).force_ext4, events@) == run_from(
                    self.pending,
                    self.force_ext4,
                    events@.skip(i as int),
                ),
            decreases events.len() - i,
        {
            proof {
                assert(events@.skip(i as int).drop_first() =~= events@.skip(i as int + 1));
            }
            self.step(events[i]);
            i = i + 1;
        }
        self.pending
    }

    /// How the setup ended, if it has: the writable root with the name of
    /// its mode, or why there is none.
    pub fn outcome(&self) -> (r: Option<Result<StorageHandle, StorageError>>)
        ensures
            match self.pending {
                SetupAction::Finish(mode) => r matches Some(Ok(h)) && h.mount_point@
                    == self.mount_point@ && h.mode@ == mode_name(mode),
                SetupAction::Abort(e) => r == Some(Err::<StorageHandle, StorageError>(e)),
                _ => r is None,
            },
    {
        match self.pending {
            SetupAction::Finish(mode) => Some(
                Ok(StorageHandle { mount_point: self.mount_point.clone(), mode: mode.name() }),
            ),
            SetupAction::Abort(e) => Some(Err(e)),
            _ => None,
        }
    }
}

/// Every step brings the setup nearer to its end, so it ends after at most
/// fourteen steps; and once it has ended nothing changes it.
pub proof fn lemma_setup_ends(action: SetupAction, force_ext4: bool, event: SetupEvent)
    ensures
        !is_final(action) ==> steps_left(next_action(action, force_ext4, event)) < steps_left(
            action,
        ),
        is_final(action) ==> next_action(action, force_ext4, event) == action,
        is_final(action) <==> steps_left(action) == 0,
{
}

/// The setup ends on tmpfs only where ext4 was not forced, tmpfs could be
/// mounted and it took the label.
pub proof fn lemma_tmpfs_needs_xattr(action: SetupAction, force_ext4: bool, event: SetupEvent)
    requires
        !is_final(action),
        next_action(action, force_ext4, event) == SetupAction::Finish(ImgMode::Tmpfs),
    ensures
        action == SetupAction::ProbeXattr,
        went_well(event),
{
}

/// Whether the step has to do with tmpfs.
pub open spec fn is_tmpfs_step(action: SetupAction) -> bool {
    action == SetupAction::MountTmpfs || action == SetupAction::ProbeXattr || action
        == SetupAction::DetachTmpfs || action == SetupAction::Finish(ImgMode::Tmpfs)
}

/// With ext4 forced, tmpfs is never tried: whatever the steps come to, a
/// setup that has not to do with tmpfs never gets to a step that has.
pub proof fn lemma_forced_ext4_avoids_tmpfs(action: SetupAction, events: Seq<SetupEvent>)
    requires
        !is_tmpfs_step(action),
    ensures
        !is_tmpfs_step(run_from(action, true, events)),
    decreases events.len(),
{
    if events.len() > 0 {
        lemma_forced_ext4_avoids_tmpfs(next_action(action, true, events[0]), events.drop_first());
    }
}

/// However the steps go, the setup has ended after fourteen of them.
pub proof fn lemma_setup_ends_within(action: SetupAction, force_ext4: bool, events: Seq<SetupEvent>)
    ensures
        steps_left(run_from(action, force_ext4, events)) <= steps_left(action),
        steps_left(action) <= events.len() ==> is_final(run_from(action, force_ext4, events)),
    decreases events.len(),
{
    if events.len() > 0 {
        lemma_setup_ends(action, force_ext4, events[0]);
        lemma_setup_ends_within(
            next_action(action, force_ext4, events[0]),
            force_ext4,
            events.drop_first(),
        );
    }
}

/// What is to be logged after the writable root was given its permission
/// bits, its owner and its label: one warning for each call that failed.
pub open spec fn finalize_warnings(chmod_ok: bool, chown_ok: bool, label_ok: bool) -> Seq<Seq<char>> {
    (if chmod_ok {
        Seq::<Seq<char>>::empty()
    } else {
        seq!["Failed to chmod storage root"@]
    }) + (if chown_ok {
        Seq::<Seq<char>>::empty()
    } else {
        seq!["Failed to chown storage root"@]
    }) + (if label_ok {
        Seq::<Seq<char>>::empty()
    } else {
        seq!["Failed to set SELinux context"@]
    })
}

/// The warnings to log once the writable root was finalized. None of the
/// three calls is fatal.
pub fn finalize_storage_permissions(chmod_ok: bool, chown_ok: bool, label_ok: bool) -> (warnings:
    Vec<String>)
    ensures
        crate::text::views(warnings@) == finalize_warnings(chmod_ok, chown_ok, label_ok),
{
    let mut warnings: Vec<String> = Vec::new();
    if !chmod_ok {
        warnings.push("Failed to chmod storage root".to_string());
    }
    if !chown_ok {
        warnings.push("Failed to chown storage root".to_string());
    }
    if !label_ok {
        warnings.push("Failed to set SELinux context".to_string());
    }
    proof {
        assert(crate::text::views(warnings@) =~= finalize_warnings(chmod_ok, chown_ok, label_ok));
    }
    warnings
}

/// Why a label could not be set.
#[derive(Clone, Copy, Debug, PartialEq, Eq, Structural)]
pub enum LabelError {
    /// The path or the label holds a NUL character.
    InteriorNul,
    /// The call that sets the attribute failed.
    SetFailed,
}

/// Whether the label `context` can be handed to the kernel for `path`: not
/// where either holds a NUL character.
pub fn check_label_args(path: &str, context: &str) -> (r: Result<(), LabelError>)
    ensures
        path@.contains('\0') || context@.contains('\0') ==> r == Err::<(), LabelError>(
            LabelError::InteriorNul,
        ),
        !path@.contains('\0') && !context@.contains('\0') ==> r is Ok,
{
    if has_nul(path) || has_nul(context) {
        Err(LabelError::InteriorNul)
    } else {
        Ok(())
    }
}

/// What setting the label came to: `ret` is what the call that sets the
/// attribute returned.
pub fn set_selinux_context(path: &str, context: &str, ret: i32) -> (r: Result<(), LabelError>)
    ensures
        path@.contains('\0') || context@.contains('\0') ==> r == Err::<(), LabelError>(
            LabelError::InteriorNul,
        ),
        !path@.contains('\0') && !context@.contains('\0') && ret != 0 ==> r == Err::<
            (),
            LabelError,
        >(LabelError::SetFailed),
        !path@.contains('\0') && !context@.contains('\0') && ret == 0 ==> r is Ok,
{
    match check_label_args(path, context) {
        Err(e) => Err(e),
        Ok(_) => {
            if ret != 0 {
                Err(LabelError::SetFailed)
            } else {
                Ok(())
            }
        },
    }
}

} // verus!
