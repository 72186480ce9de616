use meta_hybrid::framework::ModuleSource;
use meta_hybrid::fstree::{FileKind, FsEntry};
use meta_hybrid::inventory::{get_storage_usage, listed, scan_modules, ModuleInfo, StorageUsage};
use meta_hybrid::props::{read_prop, validate_module_id, validate_prop_ids, InvalidId};
use meta_hybrid::status::StatVfs;

fn file(name: &str) -> FsEntry {
    FsEntry {
        name: name.to_string(),
        kind: FileKind::File,
        is_dir: false,
        rdev: 0,
        opaque: false,
        children: vec![],
    }
}

fn dir(name: &str, children: Vec<FsEntry>) -> FsEntry {
    FsEntry {
        name: name.to_string(),
        kind: FileKind::Directory,
        is_dir: true,
        rdev: 0,
        opaque: false,
        children,
    }
}

fn module(id: &str, prop: Option<&str>, extra: Vec<FsEntry>) -> ModuleSource {
    let mut children = vec![file("module.prop"), dir("system", vec![])];
    children.extend(extra);
    ModuleSource { tree: dir(id, children), prop: prop.map(|p| p.to_string()) }
}

#[test]
fn identifiers_follow_the_pattern() {
    for good in ["a", "Z9", "_x", "0abc", "my.module-1_2", "a-", "meta", "meta-hybrid2"] {
        assert_eq!(validate_module_id(good), Ok(()), "{good}");
    }
    for bad in ["", ".hidden", "-dash", "has space", "a/b", "a+b", "lost+found", "meta-hybrid", "é", "aé", "a\n"] {
        assert_eq!(validate_module_id(bad), Err(InvalidId), "{bad:?}");
    }
}

#[test]
fn property_values_are_read_and_trimmed() {
    let text = "id=sample\nname = Sample Module \r\nversion=v1.2\nversionCode=12\ndescription=\tTabs and spaces  \nauthor\nempty=\n";
    assert_eq!(read_prop(text, "id"), Some("sample".to_string()));
    assert_eq!(read_prop(text, "name"), Some("Sample Module".to_string()));
    assert_eq!(read_prop(text, "version"), Some("v1.2".to_string()));
    assert_eq!(read_prop(text, "versionCode"), Some("12".to_string()));
    assert_eq!(read_prop(text, "description"), Some("Tabs and spaces".to_string()));
    assert_eq!(read_prop(text, "author"), None);
    assert_eq!(read_prop(text, "empty"), Some(String::new()));
    assert_eq!(read_prop(text, "missing"), None);
    assert_eq!(read_prop("", "id"), None);
    assert_eq!(read_prop("name=日本語 \u{3000}", "name"), Some("日本語".to_string()));
    assert_eq!(read_prop("a=b=c", "a"), Some("b=c".to_string()));
    assert_eq!(read_prop("x\nkey=last", "key"), Some("last".to_string()));
    assert_eq!(read_prop("key=   ", "key"), Some(String::new()));
    assert_eq!(read_prop("idx=1\nid=2", "id"), Some("1".to_string()));
}

#[test]
fn property_reading_agrees_with_std() {
    let text = "name=  spaced\u{a0}\nother=x\r\nname=second\n\nlast=\tz";
    for key in ["name", "other", "last", "na", "zzz", ""] {
        let expected = text
            .lines()
            .filter(|l| l.starts_with(key))
            .find_map(|l| l.split_once('=').map(|(_, v)| v.trim().to_string()));
        assert_eq!(read_prop(text, key), expected, "{key}");
    }
}

#[test]
fn stated_identifiers_are_checked() {
    assert_eq!(validate_prop_ids("id=good\nname=x\n"), Ok(()));
    assert_eq!(validate_prop_ids("name=x\n"), Ok(()));
    assert_eq!(validate_prop_ids(""), Ok(()));
    assert_eq!(validate_prop_ids("id=bad id\n"), Err(InvalidId));
    assert_eq!(validate_prop_ids("id=good\nid=lost+found\n"), Err(InvalidId));
    assert_eq!(validate_prop_ids("id= padded\n"), Err(InvalidId));
    assert_eq!(validate_prop_ids("identity=ok\n"), Ok(()));
    assert_eq!(validate_prop_ids("identity=not ok\n"), Err(InvalidId));
    assert_eq!(validate_prop_ids("id\n"), Ok(()));
}

#[test]
fn modules_are_listed_in_order_of_their_ids() {
    let modules = vec![
        module("zeta", Some("name=Zeta\nversion=2\ndescription=last\n"), vec![]),
        module("off", Some("name=Off\n"), vec![file("disable")]),
        module("alpha", None, vec![]),
        ModuleSource { tree: dir("noprop", vec![dir("system", vec![])]), prop: None },
        ModuleSource { tree: dir("nosystem", vec![file("module.prop")]), prop: None },
        module("mid", Some("version=1\n"), vec![file(".magic_mount")]),
        module("skipped", Some(""), vec![file("skip_mount")]),
        module("removed", Some(""), vec![file("remove")]),
    ];
    let list = scan_modules(&modules);
    let info = |id: &str, name: &str, version: &str, description: &str| ModuleInfo {
        id: id.to_string(),
        name: name.to_string(),
        version: version.to_string(),
        description: description.to_string(),
        disabled: false,
        skip: false,
    };
    assert_eq!(
        list,
        vec![
            info("alpha", "alpha", "", ""),
            info("mid", "mid", "1", ""),
            info("zeta", "Zeta", "2", "last"),
        ]
    );
    assert!(listed(&modules[0]));
    assert!(!listed(&modules[1]));
    assert!(!listed(&modules[3]));
    assert!(!listed(&modules[4]));
    assert!(scan_modules(&vec![]).is_empty());
}

#[test]
fn storage_usage_counts_what_is_not_available() {
    let stat = StatVfs { blocks: 1000, bfree: 400, bavail: 300, frsize: 4096 };
    assert_eq!(
        get_storage_usage(stat),
        StorageUsage { total_bytes: 4_096_000, used_bytes: 2_867_200 }
    );
    let odd = StatVfs { blocks: 10, bfree: 0, bavail: 20, frsize: 512 };
    assert_eq!(get_storage_usage(odd), StorageUsage { total_bytes: 5120, used_bytes: 0 });
}

#[test]
fn white_space_is_what_std_trims() {
    let mut seen = 0;
    for code in (0u32..=0xffff).chain([0x1_0000, 0x1_f600, 0x10_ffff]) {
        let Some(c) = char::from_u32(code) else { continue };
        let text = format!("k={c}x{c}");
        let expected = text
            .lines()
            .filter(|l| l.starts_with("k"))
            .find_map(|l| l.split_once('=').map(|(_, v)| v.trim().to_string()));
        assert_eq!(read_prop(&text, "k"), expected, "U+{code:04X}");
        if c.is_whitespace() {
            seen += 1;
        }
    }
    assert_eq!(seen, 25);
}
