use meta_hybrid::img::{Img, ImgAction, ImgMode};
use meta_hybrid::storage::{
    advance, check_label_args, event_went_well, finalize_storage_permissions, is_xattr_supported,
    repair_image, selinux_context, selinux_key, set_selinux_context, setup, LabelError,
    SetupAction, SetupEvent, StorageError, StorageHandle, IMAGE_SIZE, STORAGE_ROOT_MODE,
    STORAGE_ROOT_OWNER,
};

use SetupEvent::{Exited, Failed, Succeeded};

fn run(force_ext4: bool, events: &[SetupEvent]) -> (SetupAction, Option<Result<StorageHandle, StorageError>>) {
    let mut s = setup("/data/adb/meta-hybrid/mnt", "/data/adb/meta-hybrid/modules.img", force_ext4);
    let last = s.run(&events.to_vec());
    (last, s.outcome())
}

fn handle(mode: &str) -> Option<Result<StorageHandle, StorageError>> {
    Some(Ok(StorageHandle {
        mount_point: "/data/adb/meta-hybrid/mnt".to_string(),
        mode: mode.to_string(),
    }))
}

#[test]
fn setup_begins_by_asking_what_is_mounted() {
    let s = setup("/mnt", "/img", false);
    assert_eq!(s.pending, SetupAction::QueryMounted);
    assert_eq!(s.mount_point, "/mnt");
    assert_eq!(s.image_path, "/img");
    assert!(!s.force_ext4);
    assert_eq!(s.outcome(), None);
}

#[test]
fn tmpfs_with_xattr_is_used() {
    let (last, out) = run(false, &[Failed, Succeeded, Succeeded, Succeeded]);
    assert_eq!(last, SetupAction::Finish(ImgMode::Tmpfs));
    assert_eq!(out, handle("tmpfs"));
}

#[test]
fn stale_mount_is_detached_first() {
    let mut s = setup("/mnt", "/img", false);
    assert_eq!(s.step(Succeeded), SetupAction::DetachStale);
    assert_eq!(s.step(Failed), SetupAction::CreateMountPoint);
    assert_eq!(s.step(Succeeded), SetupAction::MountTmpfs);
}

#[test]
fn tmpfs_without_xattr_falls_back_to_ext4() {
    let mut s = setup("/mnt", "/img", false);
    assert_eq!(s.step(Failed), SetupAction::CreateMountPoint);
    assert_eq!(s.step(Succeeded), SetupAction::MountTmpfs);
    assert_eq!(s.step(Succeeded), SetupAction::ProbeXattr);
    assert_eq!(s.step(Failed), SetupAction::DetachTmpfs);
    assert_eq!(s.step(Succeeded), SetupAction::QueryImage);
    assert_eq!(s.step(Succeeded), SetupAction::MountImage);
    assert_eq!(s.step(Exited(Some(0))), SetupAction::Finish(ImgMode::Ext4));
    let h = s.outcome().unwrap().unwrap();
    assert_eq!(h.mode, "ext4");
    assert_eq!(h.mount_point, "/mnt");
}

#[test]
fn tmpfs_mount_failure_falls_back_to_ext4() {
    let (last, out) = run(false, &[Failed, Succeeded, Failed, Succeeded, Exited(Some(0))]);
    assert_eq!(last, SetupAction::Finish(ImgMode::Ext4));
    assert_eq!(out, handle("ext4"));
}

#[test]
fn repair_with_exit_code_one_allows_second_mount() {
    let (last, out) = run(
        true,
        &[Failed, Succeeded, Succeeded, Exited(Some(32)), Exited(Some(1)), Exited(Some(0))],
    );
    assert_eq!(last, SetupAction::Finish(ImgMode::Ext4));
    assert_eq!(out, handle("ext4"));
}

#[test]
fn repair_with_exit_code_four_is_fatal() {
    let (last, out) = run(true, &[Failed, Succeeded, Succeeded, Exited(Some(32)), Exited(Some(4))]);
    assert_eq!(last, SetupAction::Abort(StorageError::Repair));
    assert_eq!(out, Some(Err(StorageError::Repair)));
}

#[test]
fn second_mount_failure_is_fatal() {
    let (last, _) = run(
        true,
        &[Failed, Succeeded, Succeeded, Exited(Some(1)), Exited(Some(2)), Exited(Some(1))],
    );
    assert_eq!(last, SetupAction::Abort(StorageError::MountAfterRepair));
}

#[test]
fn forced_ext4_skips_tmpfs() {
    let mut s = setup("/mnt", "/img", true);
    assert_eq!(s.step(Failed), SetupAction::CreateMountPoint);
    assert_eq!(s.step(Succeeded), SetupAction::QueryImage);
}

#[test]
fn missing_image_is_created_and_formatted() {
    let mut s = setup("/mnt", "/img", true);
    s.run(&vec![Failed, Succeeded]);
    assert_eq!(s.step(Failed), SetupAction::CreateImageDir);
    assert_eq!(s.step(Succeeded), SetupAction::AllocateImage);
    assert_eq!(s.step(Exited(Some(0))), SetupAction::FormatImage);
    assert_eq!(s.step(Exited(Some(0))), SetupAction::MountImage);
    assert_eq!(s.step(Succeeded), SetupAction::Finish(ImgMode::Ext4));
}

#[test]
fn creation_failures_are_fatal() {
    assert_eq!(run(true, &[Failed, Failed]).0, SetupAction::Abort(StorageError::Io));
    assert_eq!(
        run(true, &[Failed, Succeeded, Failed, Failed]).0,
        SetupAction::Abort(StorageError::Io)
    );
    assert_eq!(
        run(true, &[Failed, Succeeded, Failed, Succeeded, Exited(Some(1))]).0,
        SetupAction::Abort(StorageError::CreateImage)
    );
    assert_eq!(
        run(true, &[Failed, Succeeded, Failed, Succeeded, Exited(Some(0)), Exited(None)]).0,
        SetupAction::Abort(StorageError::CreateImage)
    );
}

#[test]
fn ended_setup_ignores_further_events() {
    let (last, _) = run(false, &[Failed, Succeeded, Succeeded, Succeeded, Failed, Exited(Some(9))]);
    assert_eq!(last, SetupAction::Finish(ImgMode::Tmpfs));
    assert_eq!(
        advance(SetupAction::Abort(StorageError::Repair), false, Succeeded),
        SetupAction::Abort(StorageError::Repair)
    );
}

#[test]
fn setup_ends_within_fourteen_steps() {
    let events = [Succeeded, Failed, Exited(Some(0)), Exited(Some(1)), Exited(Some(3)), Exited(None)];
    for force in [false, true] {
        for a in events {
            for b in events {
                for c in events {
                    let mut s = setup("/m", "/i", force);
                    let mut n = 0;
                    while s.outcome().is_none() {
                        let e = [a, b, c][n % 3];
                        s.step(e);
                        n += 1;
                        assert!(n <= 14);
                    }
                }
            }
        }
    }
}

#[test]
fn small_decisions() {
    assert!(event_went_well(Succeeded));
    assert!(event_went_well(Exited(Some(0))));
    assert!(!event_went_well(Exited(Some(1))));
    assert!(!event_went_well(Exited(None)));
    assert!(!event_went_well(Failed));
    assert!(repair_image(Some(0)));
    assert!(repair_image(Some(1)));
    assert!(repair_image(Some(2)));
    assert!(!repair_image(Some(3)));
    assert!(!repair_image(Some(4)));
    assert!(!repair_image(Some(8)));
    assert!(!repair_image(None));
    assert!(is_xattr_supported(true, true));
    assert!(!is_xattr_supported(true, false));
    assert!(!is_xattr_supported(false, true));
    assert_eq!(IMAGE_SIZE, 2 * 1024 * 1024 * 1024);
    assert_eq!(STORAGE_ROOT_MODE, 0o755);
    assert_eq!(STORAGE_ROOT_OWNER, 0);
    assert_eq!(selinux_context(), "u:object_r:system_file:s0");
    assert_eq!(selinux_key(), "security.selinux");
}

#[test]
fn finalize_warns_for_each_failure() {
    assert!(finalize_storage_permissions(true, true, true).is_empty());
    assert_eq!(
        finalize_storage_permissions(false, true, false),
        vec!["Failed to chmod storage root".to_string(), "Failed to set SELinux context".to_string()]
    );
    assert_eq!(
        finalize_storage_permissions(true, false, true),
        vec!["Failed to chown storage root".to_string()]
    );
}

#[test]
fn labels_need_clean_strings_and_a_good_return() {
    assert_eq!(set_selinux_context("/mnt", "u:object_r:system_file:s0", 0), Ok(()));
    assert_eq!(set_selinux_context("/mnt", "ctx", -1), Err(LabelError::SetFailed));
    assert_eq!(set_selinux_context("/m\0nt", "ctx", 0), Err(LabelError::InteriorNul));
    assert_eq!(set_selinux_context("/mnt", "c\0tx", 0), Err(LabelError::InteriorNul));
    assert_eq!(check_label_args("/mnt", "ctx"), Ok(()));
    assert_eq!(check_label_args("\0", "ctx"), Err(LabelError::InteriorNul));
}

#[test]
fn image_comes_into_place() {
    let img = Img::new("/data/adb/meta-hybrid/modules.img");
    assert_eq!(img.path(), "/data/adb/meta-hybrid/modules.img");
    let mounts = vec!["/".to_string(), "/data/adb/meta-hybrid/rw".to_string()];
    let none = vec!["/".to_string()];
    assert_eq!(img.create(false, &mounts), ImgAction::CopySparse);
    assert_eq!(img.create(true, &mounts), ImgAction::LabelAndMount);
    assert_eq!(img.create(true, &none), ImgAction::Nothing);
    assert_eq!(ImgMode::Tmpfs.name(), "tmpfs");
    assert_eq!(ImgMode::Ext4.name(), "ext4");
    assert_eq!(ImgMode::Erofs.name(), "erofs");
}
