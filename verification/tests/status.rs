use meta_hybrid::config::{
    apply_umount_policy, default_moduledir, default_mountsource, load_config, ConfigData,
    ConfigError,
};
use meta_hybrid::hymofs::HymoFs;
use meta_hybrid::state::RuntimeState;
use meta_hybrid::status::{
    block_bytes, bytes_in_use, not_mounted_message, percent_in_use, print_status, StatVfs,
    StatusReport, StatvfsFailed, StorageStatus,
};

fn state(mode: &str, mount_point: &str) -> RuntimeState {
    RuntimeState::new(
        1,
        2,
        mode.to_string(),
        mount_point.to_string(),
        vec!["a".to_string()],
        vec![],
        false,
    )
}

const PRESENT: HymoFs = HymoFs { present: true, version: None };
const ABSENT: HymoFs = HymoFs { present: false, version: None };

#[test]
fn status_of_a_mounted_root() {
    let stat = StatVfs { blocks: 1000, bfree: 250, bavail: 200, frsize: 4096 };
    let report = print_status(&state("ext4", "/data/adb/meta-hybrid/mnt"), true, Some(stat), &PRESENT);
    assert_eq!(
        report,
        Ok(StatusReport::Mounted(StorageStatus {
            mode: "ext4".to_string(),
            mount_point: "/data/adb/meta-hybrid/mnt".to_string(),
            usage_percent: 75,
            total_size: 4_096_000,
            used_size: 3_072_000,
            hymofs_available: true,
        }))
    );
}

#[test]
fn status_without_mode_says_unknown() {
    let stat = StatVfs { blocks: 3, bfree: 2, bavail: 2, frsize: 1 };
    match print_status(&state("", "/mnt"), true, Some(stat), &ABSENT) {
        Ok(StatusReport::Mounted(s)) => {
            assert_eq!(s.mode, "unknown");
            assert_eq!(s.usage_percent, 33);
            assert!(!s.hymofs_available);
        }
        other => panic!("unexpected {other:?}"),
    }
}

#[test]
fn status_without_mount_point_is_not_mounted() {
    let stat = StatVfs { blocks: 1, bfree: 0, bavail: 0, frsize: 1 };
    assert_eq!(print_status(&state("tmpfs", ""), true, Some(stat), &PRESENT), Ok(StatusReport::NotMounted));
    assert_eq!(print_status(&state("tmpfs", "/mnt"), false, Some(stat), &PRESENT), Ok(StatusReport::NotMounted));
    assert_eq!(print_status(&RuntimeState::default(), true, None, &PRESENT), Ok(StatusReport::NotMounted));
    assert_eq!(not_mounted_message(), "{ \"error\": \"Not mounted\" }");
}

#[test]
fn status_without_statistics_fails() {
    assert_eq!(print_status(&state("tmpfs", "/mnt"), true, None, &PRESENT), Err(StatvfsFailed));
}

#[test]
fn usage_is_exact_at_the_edges() {
    let s = |blocks, bfree, frsize| StatVfs { blocks, bfree, bavail: bfree, frsize };
    assert_eq!(percent_in_use(s(0, 0, 4096)), 0);
    assert_eq!(percent_in_use(s(100, 100, 4096)), 0);
    assert_eq!(percent_in_use(s(100, 0, 4096)), 100);
    assert_eq!(percent_in_use(s(100, 1, 4096)), 99);
    assert_eq!(percent_in_use(s(3, 1, 7)), 66);
    assert_eq!(percent_in_use(s(100, 200, 4096)), 0);
    assert_eq!(percent_in_use(s(u64::MAX, 0, u64::MAX)), 100);
    assert_eq!(percent_in_use(s(u64::MAX, 1, u64::MAX)), 0);
    assert_eq!(block_bytes(u64::MAX, 2), u64::MAX);
    assert_eq!(block_bytes(1 << 32, 1 << 31), 1 << 63);
    assert_eq!(block_bytes(1 << 32, 1 << 32), u64::MAX);
    assert_eq!(bytes_in_use(s(10, 4, 512), 4), 3072);
    assert_eq!(bytes_in_use(s(10, 4, 512), 11), 0);
}

#[test]
fn state_defaults_and_load() {
    let empty = RuntimeState::default();
    assert_eq!(empty.timestamp, 0);
    assert_eq!(empty.pid, 0);
    assert_eq!(empty.storage_mode, "");
    assert_eq!(empty.mount_point, "");
    assert!(empty.overlay_modules.is_empty());
    assert!(empty.magic_modules.is_empty());
    assert!(!empty.nuke_active);
    assert_eq!(RuntimeState::load(None), empty);
    let saved = state("tmpfs", "/mnt");
    assert_eq!(RuntimeState::load(Some(saved.clone())), saved);
    assert_eq!(saved.overlay_modules, vec!["a".to_string()]);
    assert_eq!(saved.timestamp, 1);
    assert_eq!(saved.pid, 2);
}

#[test]
fn config_defaults() {
    let c = ConfigData::default();
    assert_eq!(c.moduledir, "/data/adb/modules/");
    assert_eq!(c.mountsource, "KSU");
    assert!(!c.verbose);
    assert!(c.partitions.is_empty());
    assert_eq!(c.tmpfsdir, None);
    assert!(!c.umount && !c.disable_umount && !c.allow_umount_coexistence);
    assert_eq!(default_moduledir(), "/data/adb/modules/");
    assert_eq!(default_mountsource(), "KSU");
}

#[test]
fn config_load_outcomes() {
    let mut custom = ConfigData::default();
    custom.moduledir = "/elsewhere".to_string();
    custom.verbose = true;
    assert_eq!(load_config(Ok(custom.clone())), Ok(custom));
    let missing = ConfigError { not_found: true, message: "No such file".to_string() };
    assert_eq!(load_config(Err(missing)), Ok(ConfigData::default()));
    let broken = ConfigError { not_found: false, message: "invalid type".to_string() };
    assert_eq!(
        load_config(Err(broken)),
        Err(ConfigError {
            not_found: false,
            message: "Failed to load default config from /data/adb/meta-hybrid/config.toml: invalid type"
                .to_string(),
        })
    );
}

#[test]
fn umount_policy() {
    for (enforced, coexist, before, after) in [
        (true, false, false, true),
        (true, true, false, false),
        (false, false, false, false),
        (false, true, false, false),
        (true, true, true, true),
        (false, false, true, true),
    ] {
        let mut c = ConfigData::default();
        c.allow_umount_coexistence = coexist;
        c.disable_umount = before;
        c.verbose = true;
        apply_umount_policy(&mut c, enforced);
        assert_eq!(c.disable_umount, after);
        assert_eq!(c.allow_umount_coexistence, coexist);
        assert!(c.verbose);
    }
}
