use meta_hybrid::fstree::{FileKind, FsEntry};
use meta_hybrid::scanner::{check_ids, is_switched_off, ModuleInfo, ModuleScanner};

fn file(name: &str) -> FsEntry {
    FsEntry {
        name: name.to_string(),
        kind: FileKind::File,
        is_dir: false,
        rdev: 0,
        opaque: false,
        children: vec![],
    }
}

fn dir(name: &str, children: Vec<FsEntry>) -> FsEntry {
    FsEntry {
        name: name.to_string(),
        kind: FileKind::Directory,
        is_dir: true,
        rdev: 0,
        opaque: false,
        children,
    }
}

fn tree() -> Vec<FsEntry> {
    vec![
        dir("plain", vec![dir("system", vec![file("a")])]),
        dir("off", vec![dir("system", vec![]), file("disable")]),
        dir("gone", vec![dir("system", vec![]), file("remove")]),
        dir("skipped", vec![dir("system", vec![]), file("skip_mount")]),
        dir("nothing", vec![file("module.prop"), dir("vendor", vec![])]),
        file("stray"),
        dir("magic", vec![dir("system", vec![]), file(".magic_mount")]),
        dir("both", vec![dir("system", vec![]), file(".magic_mount"), file(".overlayfs")]),
        dir("system_is_file", vec![file("system")]),
    ]
}

fn ids(records: &[ModuleInfo]) -> Vec<&str> {
    records.iter().map(|m| m.id.as_str()).collect()
}

#[test]
fn scanner_filters_by_markers_and_partitions() {
    let found = ModuleScanner::new("/data/adb/modules", vec![]).scanner(tree());
    assert_eq!(ids(&found.modules), vec!["plain", "magic", "both"]);
}

#[test]
fn each_marker_alone_excludes() {
    for marker in ["disable", "remove", "skip_mount"] {
        let entries = vec![dir("m", vec![dir("system", vec![file("f")]), file(marker)])];
        let found = ModuleScanner::new("/mods", vec![]).scanner(entries);
        assert!(found.modules.is_empty(), "{marker} must exclude the module");
        assert!(is_switched_off(&dir("m", vec![file(marker)])));
    }
    assert!(!is_switched_off(&dir("m", vec![file("skip")])));
}

#[test]
fn missing_partition_directory_excludes() {
    let entries = vec![dir("m", vec![dir("vendor", vec![file("f")])])];
    let found = ModuleScanner::new("/mods", vec![]).scanner(entries);
    assert!(found.modules.is_empty());
    let entries = vec![dir("m", vec![dir("vendor", vec![file("f")])])];
    let found = ModuleScanner::new("/mods", vec!["vendor".to_string()]).scanner(entries);
    assert_eq!(ids(&found.modules), vec!["m"]);
}

#[test]
fn records_carry_path_and_flags() {
    let found = ModuleScanner::new("/data/adb/modules", vec![]).scanner(tree());
    let plain = &found.modules[0];
    assert_eq!(plain.path, "/data/adb/modules/plain");
    assert!(!plain.magic_mount);
    assert!(!plain.overlayfs);
    assert_eq!(plain.tree, dir("plain", vec![dir("system", vec![file("a")])]));
    let magic = &found.modules[1];
    assert!(magic.magic_mount);
    assert!(!magic.overlayfs);
    let both = &found.modules[2];
    assert!(both.magic_mount);
    assert!(both.overlayfs);
}

#[test]
fn directory_with_trailing_separator_joins_without_a_second_one() {
    let found = ModuleScanner::new("/data/adb/modules/", vec![]).scanner(tree());
    assert_eq!(found.modules[0].path, "/data/adb/modules/plain");
}

#[test]
fn scanning_twice_yields_equal_records() {
    let scanner = ModuleScanner::new("/data/adb/modules", vec!["vendor".to_string()]);
    let first = scanner.scanner(tree());
    let second = scanner.scanner(tree());
    assert_eq!(first, second);
    assert_eq!(first.modules.len(), 4);
}

#[test]
fn symlinked_module_directory_counts_as_directory() {
    let mut linked = dir("linked", vec![dir("system", vec![])]);
    linked.kind = FileKind::Symlink;
    let found = ModuleScanner::new("/mods", vec![]).scanner(vec![linked]);
    assert_eq!(ids(&found.modules), vec!["linked"]);
}

#[test]
fn entry_lookups() {
    let d = dir("d", vec![file("a"), dir("b", vec![]), file("b")]);
    assert!(d.contains("a"));
    assert!(!d.contains("c"));
    assert!(d.contains_dir("b"));
    assert!(!d.contains_dir("a"));
    assert_eq!(d.find("b"), 1);
    assert_eq!(d.find("zz"), 3);
    assert!(d.contains_any_dir(&vec!["x".to_string(), "b".to_string()]));
    assert!(!d.contains_any_dir(&vec!["a".to_string()]));
}

#[test]
fn identifiers_of_records_can_be_checked() {
    let good = ModuleScanner::new("/mods", vec![]).scanner(vec![
        dir("alpha", vec![dir("system", vec![])]),
        dir("beta_2", vec![dir("system", vec![])]),
    ]);
    assert_eq!(check_ids(&good.modules), Ok(()));
    let bad = ModuleScanner::new("/mods", vec![]).scanner(vec![
        dir("alpha", vec![dir("system", vec![])]),
        dir("has space", vec![dir("system", vec![])]),
        dir("lost+found", vec![dir("system", vec![])]),
    ]);
    assert_eq!(check_ids(&bad.modules), Err(1));
    assert_eq!(check_ids(&vec![]), Ok(()));
}
