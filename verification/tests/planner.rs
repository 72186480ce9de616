use meta_hybrid::config::ConfigData;
use meta_hybrid::fstree::{FileKind, FsEntry};
use meta_hybrid::orchestrator::{mount, run_state, MountStep};
use meta_hybrid::planner::{
    detect_conflicts, generate, is_reserved_id, keep_active, layers_for, merged_partitions,
    mode_for, mode_from_name, module_files, touched_partitions, FileConflict, ModeEntry,
    MountMode, MountPlan,
};
use meta_hybrid::scanner::{ModuleInfo, ModuleScanner};
use meta_hybrid::storage::StorageHandle;

fn file(name: &str) -> FsEntry {
    FsEntry {
        name: name.to_string(),
        kind: FileKind::File,
        is_dir: false,
        rdev: 0,
        opaque: false,
        children: vec![],
    }
}

fn dir(name: &str, children: Vec<FsEntry>) -> FsEntry {
    FsEntry {
        name: name.to_string(),
        kind: FileKind::Directory,
        is_dir: true,
        rdev: 0,
        opaque: false,
        children,
    }
}

fn hosts_module(id: &str) -> FsEntry {
    dir(id, vec![dir("system", vec![dir("etc", vec![file("hosts")])])])
}

fn scan(entries: Vec<FsEntry>) -> Vec<ModuleInfo> {
    ModuleScanner::new("/data/adb/modules/", vec![]).scanner(entries).modules
}

fn strings(items: &[&str]) -> Vec<String> {
    items.iter().map(|s| s.to_string()).collect()
}

fn plan_of(entries: Vec<FsEntry>, modes: Vec<ModeEntry>) -> MountPlan {
    generate(&ConfigData::default(), scan(entries), &modes)
}

#[test]
fn empty_module_dir_gives_empty_plan() {
    let plan = plan_of(vec![], vec![]);
    assert!(plan.overlay_ops.is_empty());
    assert!(plan.magic_module_paths.is_empty());
    assert!(plan.conflicts.is_empty());
    assert!(plan.overlay_module_ids.is_empty());
    assert!(plan.magic_module_ids.is_empty());
    assert!(mount(&ConfigData::default(), &plan).is_empty());
}

#[test]
fn three_overlay_modules_one_shared_file() {
    let plan = plan_of(
        vec![hosts_module("mmm"), hosts_module("aaa"), hosts_module("zzz")],
        vec![],
    );
    assert_eq!(
        plan.conflicts,
        vec![FileConflict {
            path: "system/etc/hosts".to_string(),
            modules: strings(&["aaa", "mmm", "zzz"]),
        }]
    );
    assert_eq!(plan.overlay_ops.len(), 1);
    assert_eq!(plan.overlay_ops[0].target, "/system");
    assert_eq!(
        plan.overlay_ops[0].layers,
        strings(&[
            "/data/adb/modules/zzz",
            "/data/adb/modules/mmm",
            "/data/adb/modules/aaa"
        ])
    );
    assert!(plan.magic_module_paths.is_empty());
    assert_eq!(plan.overlay_module_ids, strings(&["aaa", "mmm", "zzz"]));
}

#[test]
fn classification_override_moves_module_to_magic() {
    let modes = vec![ModeEntry { id: "mmm".to_string(), mode: MountMode::Magic }];
    let plan = plan_of(
        vec![hosts_module("aaa"), hosts_module("mmm"), hosts_module("zzz")],
        modes,
    );
    assert_eq!(plan.magic_module_paths, strings(&["/data/adb/modules/mmm"]));
    assert_eq!(plan.magic_module_ids, strings(&["mmm"]));
    assert_eq!(plan.overlay_ops.len(), 1);
    assert_eq!(
        plan.overlay_ops[0].layers,
        strings(&["/data/adb/modules/zzz", "/data/adb/modules/aaa"])
    );
    assert_eq!(plan.overlay_module_ids, strings(&["aaa", "zzz"]));
}

#[test]
fn skipped_module_appears_nowhere() {
    let mut skipped = hosts_module("xxx");
    skipped.children.push(file("skip_mount"));
    let plan = plan_of(vec![hosts_module("aaa"), skipped], vec![]);
    assert_eq!(plan.overlay_ops.len(), 1);
    assert_eq!(plan.overlay_ops[0].layers, strings(&["/data/adb/modules/aaa"]));
    assert!(plan.magic_module_paths.is_empty());
    assert!(plan.conflicts.is_empty());
    assert_eq!(plan.overlay_module_ids, strings(&["aaa"]));
}

#[test]
fn layers_of_every_partition_descend_by_id() {
    let entries = vec![
        dir("b", vec![dir("system", vec![file("x")]), dir("vendor", vec![file("v")])]),
        dir("d", vec![dir("vendor", vec![file("w")]), dir("system", vec![])]),
        dir("a", vec![dir("system", vec![file("y")])]),
        dir("c", vec![dir("system", vec![]), dir("odm", vec![file("o")])]),
    ];
    let plan = plan_of(entries, vec![]);
    let targets: Vec<&str> = plan.overlay_ops.iter().map(|op| op.target.as_str()).collect();
    assert_eq!(targets, vec!["/system", "/vendor", "/odm"]);
    assert_eq!(
        plan.overlay_ops[0].layers,
        strings(&[
            "/data/adb/modules/d",
            "/data/adb/modules/c",
            "/data/adb/modules/b",
            "/data/adb/modules/a"
        ])
    );
    assert_eq!(
        plan.overlay_ops[1].layers,
        strings(&["/data/adb/modules/d", "/data/adb/modules/b"])
    );
    assert_eq!(plan.overlay_ops[2].layers, strings(&["/data/adb/modules/c"]));
    for op in &plan.overlay_ops {
        let mut sorted = op.layers.clone();
        sorted.sort();
        sorted.reverse();
        assert_eq!(op.layers, sorted);
    }
}

#[test]
fn shared_path_gives_exactly_one_conflict_with_both_ids() {
    let entries = vec![
        dir("one", vec![dir("system", vec![dir("bin", vec![file("sh"), file("ls")])])]),
        dir("two", vec![dir("system", vec![dir("bin", vec![file("sh")])])]),
        dir("three", vec![dir("system", vec![dir("bin", vec![file("cat")])])]),
    ];
    let plan = plan_of(entries, vec![]);
    let hits: Vec<&FileConflict> =
        plan.conflicts.iter().filter(|c| c.path == "system/bin/sh").collect();
    assert_eq!(hits.len(), 1);
    assert!(hits[0].modules.contains(&"one".to_string()));
    assert!(hits[0].modules.contains(&"two".to_string()));
    assert_eq!(plan.conflicts.len(), 1);
}

#[test]
fn conflicts_are_sorted_by_path() {
    let make = |id: &str| {
        dir(
            id,
            vec![
                dir("vendor", vec![file("b")]),
                dir("system", vec![file("z"), file("a")]),
            ],
        )
    };
    let plan = plan_of(vec![make("p"), make("q")], vec![]);
    let paths: Vec<&str> = plan.conflicts.iter().map(|c| c.path.as_str()).collect();
    assert_eq!(paths, vec!["system/a", "system/z", "vendor/b"]);
    for c in &plan.conflicts {
        assert_eq!(c.modules, strings(&["p", "q"]));
    }
}

#[test]
fn conflicts_count_regular_files_only() {
    let mut link = file("link");
    link.kind = FileKind::Symlink;
    let make = |id: &str, l: FsEntry| dir(id, vec![dir("system", vec![l, dir("empty", vec![])])]);
    let plan = plan_of(vec![make("p", link.clone_entry()), make("q", link)], vec![]);
    assert!(plan.conflicts.is_empty());
}

trait CloneEntry {
    fn clone_entry(&self) -> FsEntry;
}

impl CloneEntry for FsEntry {
    fn clone_entry(&self) -> FsEntry {
        FsEntry {
            name: self.name.clone(),
            kind: self.kind,
            is_dir: self.is_dir,
            rdev: self.rdev,
            opaque: self.opaque,
            children: self.children.iter().map(|c| c.clone_entry()).collect(),
        }
    }
}

#[test]
fn reserved_names_are_no_modules() {
    assert!(is_reserved_id("lost+found"));
    assert!(is_reserved_id("meta-hybrid"));
    assert!(!is_reserved_id("meta"));
    let plan = plan_of(
        vec![hosts_module("lost+found"), hosts_module("meta-hybrid"), hosts_module("real")],
        vec![],
    );
    assert_eq!(plan.overlay_module_ids, strings(&["real"]));
    assert!(plan.conflicts.is_empty());
    let kept = keep_active(scan(vec![hosts_module("lost+found"), hosts_module("k")]));
    assert_eq!(kept.len(), 1);
    assert_eq!(kept[0].id, "k");
}

#[test]
fn merged_partitions_keep_builtin_first_and_drop_repeats() {
    assert_eq!(
        merged_partitions(&strings(&["my_product", "vendor", "my_product", "oem"])),
        strings(&["system", "vendor", "system_ext", "product", "odm", "my_product", "oem"])
    );
}

#[test]
fn extra_partition_is_planned() {
    let mut config = ConfigData::default();
    config.partitions = strings(&["my_product"]);
    let entries = vec![dir("m", vec![dir("my_product", vec![file("f")])])];
    let records = ModuleScanner::new("/mods", strings(&["my_product"])).scanner(entries).modules;
    let plan = generate(&config, records, &vec![]);
    assert_eq!(plan.overlay_ops.len(), 1);
    assert_eq!(plan.overlay_ops[0].target, "/my_product");
    assert_eq!(plan.overlay_ops[0].layers, strings(&["/mods/m"]));
}

#[test]
fn mode_comes_from_map_then_from_markers() {
    let mut with_marker = hosts_module("m");
    with_marker.children.push(file(".magic_mount"));
    let mut with_overlay = hosts_module("o");
    with_overlay.children.push(file(".overlayfs"));
    let records = scan(vec![with_marker, with_overlay, hosts_module("p")]);
    let none: Vec<ModeEntry> = vec![];
    assert_eq!(mode_for(&none, &records[0]), MountMode::Magic);
    assert_eq!(mode_for(&none, &records[1]), MountMode::Overlay);
    assert_eq!(mode_for(&none, &records[2]), MountMode::Auto);
    let modes = vec![
        ModeEntry { id: "m".to_string(), mode: MountMode::Overlay },
        ModeEntry { id: "p".to_string(), mode: MountMode::Magic },
        ModeEntry { id: "p".to_string(), mode: MountMode::Auto },
    ];
    assert_eq!(mode_for(&modes, &records[0]), MountMode::Overlay);
    assert_eq!(mode_for(&modes, &records[2]), MountMode::Magic);
    assert_eq!(layers_for(&records, &modes, "system"), strings(&["/data/adb/modules/m", "/data/adb/modules/o"]));
}

#[test]
fn module_files_are_listed_by_partition_relative_path() {
    let records = scan(vec![dir(
        "m",
        vec![
            dir("system", vec![dir("etc", vec![file("hosts"), file("fstab")]), file("build.prop")]),
            dir("vendor", vec![file("v")]),
            file("module.prop"),
        ],
    )]);
    assert_eq!(
        module_files(&records[0], &strings(&["system", "vendor", "odm"])),
        strings(&["system/etc/hosts", "system/etc/fstab", "system/build.prop", "vendor/v"])
    );
    let conflicts = detect_conflicts(&records, &vec![]);
    assert!(conflicts.is_empty());
}

#[test]
fn inert_module_without_partition_is_left_out() {
    let records = {
        let mut v = scan(vec![hosts_module("a")]);
        v.push(ModuleInfo {
            id: "inert".to_string(),
            path: "/data/adb/modules/inert".to_string(),
            magic_mount: false,
            overlayfs: false,
            tree: dir("inert", vec![file("readme")]),
        });
        v
    };
    let plan = generate(&ConfigData::default(), records, &vec![]);
    assert_eq!(plan.overlay_module_ids, strings(&["a"]));
    assert!(plan.magic_module_ids.is_empty());
}

#[test]
fn steps_follow_the_plan() {
    let modes = vec![ModeEntry { id: "mmm".to_string(), mode: MountMode::Magic }];
    let plan = plan_of(vec![hosts_module("aaa"), hosts_module("mmm")], modes);
    let steps = mount(&ConfigData::default(), &plan);
    assert_eq!(
        steps,
        vec![
            MountStep::Overlay {
                target: "/system".to_string(),
                lowerdirs: strings(&["/data/adb/modules/aaa"]),
                disable_umount: false,
            },
            MountStep::Unmountable { path: "/system".to_string() },
            MountStep::Inject {
                target_base: "/".to_string(),
                module_dir: "/data/adb/modules/mmm".to_string(),
            },
            MountStep::SaveState,
        ]
    );
    let mut config = ConfigData::default();
    config.disable_umount = true;
    let steps = mount(&config, &plan);
    assert_eq!(steps.len(), 3);
    assert!(matches!(&steps[0], MountStep::Overlay { disable_umount: true, .. }));
    assert!(matches!(&steps[1], MountStep::Inject { .. }));
}

#[test]
fn run_state_records_the_plan() {
    let modes = vec![ModeEntry { id: "mmm".to_string(), mode: MountMode::Magic }];
    let plan = plan_of(vec![hosts_module("zzz"), hosts_module("mmm"), hosts_module("aaa")], modes);
    let storage = StorageHandle { mount_point: "/mnt".to_string(), mode: "tmpfs".to_string() };
    let state = run_state(1700000000, 42, &storage, &plan, true);
    assert_eq!(state.timestamp, 1700000000);
    assert_eq!(state.pid, 42);
    assert_eq!(state.storage_mode, "tmpfs");
    assert_eq!(state.mount_point, "/mnt");
    assert_eq!(state.overlay_modules, strings(&["aaa", "zzz"]));
    assert_eq!(state.magic_modules, strings(&["mmm"]));
    assert!(state.nuke_active);
}

#[test]
fn mode_names() {
    assert_eq!(mode_from_name("magic"), MountMode::Magic);
    assert_eq!(mode_from_name("overlay"), MountMode::Overlay);
    assert_eq!(mode_from_name("auto"), MountMode::Auto);
    assert_eq!(mode_from_name("Magic"), MountMode::Auto);
    assert_eq!(mode_from_name(""), MountMode::Auto);
}

#[test]
fn system_overlay_comes_first() {
    let mut config = ConfigData::default();
    config.partitions = strings(&["a_part", "system"]);
    let entries = vec![dir(
        "m",
        vec![
            dir("a_part", vec![file("f")]),
            dir("odm", vec![file("f")]),
            dir("system", vec![file("f")]),
        ],
    )];
    let records = ModuleScanner::new("/mods", config.partitions.clone()).scanner(entries).modules;
    let plan = generate(&config, records, &vec![]);
    let targets: Vec<&str> = plan.overlay_ops.iter().map(|op| op.target.as_str()).collect();
    assert_eq!(targets, vec!["/system", "/odm", "/a_part"]);
}

#[test]
fn touched_partitions_follow_the_given_order() {
    let records = scan(vec![dir(
        "m",
        vec![dir("odm", vec![]), file("vendor"), dir("system", vec![]), dir("other", vec![])],
    )]);
    assert_eq!(
        touched_partitions(&records[0], &merged_partitions(&vec![])),
        strings(&["system", "odm"])
    );
    assert!(touched_partitions(&records[0], &vec![]).is_empty());
}
