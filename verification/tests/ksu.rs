use meta_hybrid::ioctl::{_io, _ioc, _ior, _iow, _iowr};
use meta_hybrid::ksu::{
    check, get_fd, grab_fd, has_nul, info, ioctl_outcome, ksu_ioctl_add_try_umount, ksu_ioctl_get_info,
    ksu_ioctl_nuke_ext4_sysfs, ksu_nuke_sysfs, send_unmountable, version, DriverFd, GetInfoCmd, KsuAddTryUmount,
    KsuError, UmountAction, UnmountQueue, KSU_INSTALL_MAGIC1, KSU_INSTALL_MAGIC2,
};

#[test]
fn request_numbers_pack_their_fields() {
    assert_eq!(_ioc(1, 0x4b, 18, 0), 0x4000_4b12);
    assert_eq!(_ioc(3, 0xff, 0xff, 0x3fff), 0xffff_ffff);
    assert_eq!(_io(0xe0, 5), 0x0000_e005);
    assert_eq!(_ior(0xe0, 6, 4), 0x8004_e006);
    assert_eq!(_iow(0xe0, 8, 4), 0x4004_e008);
    assert_eq!(_iowr(0xe0, 7, 24), 0xc018_e007);
    assert_eq!(_iow(b'K' as u32, 18, 0), ksu_ioctl_add_try_umount());
    assert_eq!(ksu_ioctl_add_try_umount(), 0x4000_4b12);
    assert_eq!(ksu_ioctl_get_info(), 0x8000_4b02);
    assert_eq!(ksu_ioctl_nuke_ext4_sysfs(), 0x4000_4b11);
    assert_eq!(KSU_INSTALL_MAGIC1, 0xDEADBEEF);
    assert_eq!(KSU_INSTALL_MAGIC2, 0xCAFEBABE);
}

#[test]
fn handle_is_taken_once() {
    assert_eq!(grab_fd(7), 7);
    assert_eq!(grab_fd(0), 0);
    assert_eq!(grab_fd(-1), -1);
    assert_eq!(grab_fd(-22), -1);
    let mut gate = DriverFd::new();
    assert_eq!(gate.get(), None);
    assert_eq!(get_fd(&mut gate, 5), 5);
    assert_eq!(gate.get(), Some(5));
    assert_eq!(get_fd(&mut gate, 9), 5);
    assert_eq!(get_fd(&mut gate, -1), 5);
    let mut failed = DriverFd::new();
    assert_eq!(get_fd(&mut failed, -3), -1);
    assert_eq!(get_fd(&mut failed, 4), -1);
}

#[test]
fn probe_decides_startup() {
    let cmd = GetInfoCmd { version: 12345, flags: 1 };
    assert_eq!(info(3, 0, cmd), Some(cmd));
    assert_eq!(info(-1, 0, cmd), None);
    assert_eq!(info(3, -1, cmd), None);
    assert_eq!(version(3, 0, cmd), Some(12345));
    assert_eq!(version(3, -1, cmd), None);
    assert_eq!(check(3, 0, cmd), Ok(12345));
    assert_eq!(check(3, 7, cmd), Ok(12345));
    assert_eq!(check(-1, 0, cmd), Err(KsuError::Unsupported));
    assert_eq!(check(3, -1, cmd), Err(KsuError::Unsupported));
    assert_eq!(KsuError::Unsupported.message(), "only support KernelSU!!");
    assert_eq!(KsuError::DriverUnavailable.message(), "KSU driver not available");
}

#[test]
fn same_path_is_sent_once() {
    let mut queue = UnmountQueue::new();
    let first = send_unmountable(&mut queue, "/system", 3);
    assert_eq!(
        first,
        Ok(UmountAction::Submit(KsuAddTryUmount {
            path: "/system".to_string(),
            flags: 2,
            mode: 1,
        }))
    );
    assert_eq!(send_unmountable(&mut queue, "/system", 3), Ok(UmountAction::Duplicate));
    assert_eq!(send_unmountable(&mut queue, "/system", 3), Ok(UmountAction::Duplicate));
    let other = send_unmountable(&mut queue, "/vendor", 3);
    assert!(matches!(other, Ok(UmountAction::Submit(_))));
}

#[test]
fn empty_path_and_missing_driver_send_nothing() {
    let mut queue = UnmountQueue::new();
    assert_eq!(send_unmountable(&mut queue, "", 3), Ok(UmountAction::Nothing));
    assert_eq!(send_unmountable(&mut queue, "", 3), Ok(UmountAction::Nothing));
    assert_eq!(send_unmountable(&mut queue, "/odm", -1), Ok(UmountAction::Dropped));
    assert_eq!(send_unmountable(&mut queue, "/odm", 3), Ok(UmountAction::Duplicate));
}

#[test]
fn path_with_nul_is_rejected_once_then_suppressed() {
    let mut queue = UnmountQueue::new();
    assert_eq!(send_unmountable(&mut queue, "/a\0b", 3), Err(KsuError::InteriorNul));
    assert_eq!(send_unmountable(&mut queue, "/a\0b", 3), Ok(UmountAction::Duplicate));
    assert!(has_nul("a\0"));
    assert!(!has_nul("a0"));
}

#[test]
fn nuke_needs_clean_path_and_driver() {
    assert_eq!(ksu_nuke_sysfs("/data/adb/x\0", 3), Err(KsuError::InteriorNul));
    assert_eq!(ksu_nuke_sysfs("/data/adb/x\0", -1), Err(KsuError::InteriorNul));
    assert_eq!(ksu_nuke_sysfs("/data/adb/x", -1), Err(KsuError::DriverUnavailable));
    let cmd = ksu_nuke_sysfs("/data/adb/x", 0).unwrap();
    assert_eq!(cmd.path, "/data/adb/x");
    assert_eq!(ioctl_outcome(0), Ok(()));
    assert_eq!(ioctl_outcome(-1), Err(KsuError::Ioctl(-1)));
}
