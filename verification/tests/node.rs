use meta_hybrid::config::ConfigData;
use meta_hybrid::framework::{
    collect_module_files, executer, partition_hangs_from_root, tree_partition_names,
    HostPartition, ModuleSource,
};
use meta_hybrid::fstree::{FileKind, FsEntry};
use meta_hybrid::node::{CollectError, Node, NodeFileType};

fn entry(name: &str, kind: FileKind, children: Vec<FsEntry>) -> FsEntry {
    FsEntry {
        name: name.to_string(),
        kind,
        is_dir: kind == FileKind::Directory,
        rdev: 0,
        opaque: false,
        children,
    }
}

fn file(name: &str) -> FsEntry {
    entry(name, FileKind::File, vec![])
}

fn dir(name: &str, children: Vec<FsEntry>) -> FsEntry {
    entry(name, FileKind::Directory, children)
}

fn module(id: &str, prop: Option<&str>, mut children: Vec<FsEntry>) -> ModuleSource {
    children.push(file("module.prop"));
    ModuleSource { tree: dir(id, children), prop: prop.map(|p| p.to_string()) }
}

fn host(name: &str, root_is_dir: bool, system_is_symlink: bool) -> HostPartition {
    HostPartition { name: name.to_string(), root_is_dir, system_is_symlink }
}

fn child<'a>(node: &'a Node, name: &str) -> &'a Node {
    node.children.iter().find(|c| c.name == name).unwrap()
}

fn names(node: &Node) -> Vec<&str> {
    node.children.iter().map(|c| c.name.as_str()).collect()
}

#[test]
fn node_types_and_labels() {
    assert_eq!(NodeFileType::from(FileKind::File, 0), Some(NodeFileType::RegularFile));
    assert_eq!(NodeFileType::from(FileKind::Directory, 0), Some(NodeFileType::Directory));
    assert_eq!(NodeFileType::from(FileKind::Symlink, 0), Some(NodeFileType::Symlink));
    assert_eq!(NodeFileType::from(FileKind::CharDevice, 0), Some(NodeFileType::Whiteout));
    assert_eq!(NodeFileType::from(FileKind::CharDevice, 1025), None);
    assert_eq!(NodeFileType::from(FileKind::Other, 0), None);
    assert_eq!(NodeFileType::from(FileKind::Unknown, 0), None);
    assert_eq!(NodeFileType::from(FileKind::File, 7), Some(NodeFileType::RegularFile));
    assert_eq!(NodeFileType::Directory.label(), "DIR");
    assert_eq!(NodeFileType::RegularFile.label(), "FILE");
    assert_eq!(NodeFileType::Symlink.label(), "LINK");
    assert_eq!(NodeFileType::Whiteout.label(), "WHT");
}

#[test]
fn root_node_is_an_unowned_directory() {
    let root = Node::new_root("system");
    assert_eq!(root.name, "system");
    assert_eq!(root.file_type, NodeFileType::Directory);
    assert!(root.children.is_empty());
    assert_eq!(root.source_path, None);
    assert!(!root.replace && !root.skip && !root.overlayfs && !root.magic_mount);
}

#[test]
fn module_node_reads_the_entry() {
    let f = Node::new_module("f", &file("f"), "/m/system/f").unwrap();
    assert_eq!(f.file_type, NodeFileType::RegularFile);
    assert_eq!(f.source_path, Some("/m/system/f".to_string()));
    assert!(!f.replace);

    let mut whiteout = entry("w", FileKind::CharDevice, vec![]);
    let w = Node::new_module("w", &whiteout, "/p").unwrap();
    assert_eq!(w.file_type, NodeFileType::Whiteout);
    assert_eq!(w.name, "w");
    assert_eq!(w.source_path, Some("/p".to_string()));
    assert!(w.children.is_empty());
    assert!(!w.skip && !w.replace);
    whiteout.rdev = 3;
    assert_eq!(Node::new_module("w", &whiteout, "/p"), None);
    assert_eq!(Node::new_module("s", &entry("s", FileKind::Other, vec![]), "/p"), None);

    let sentinel = dir("d", vec![file(".replace"), file(".magic_mount")]);
    let d = Node::new_module("d", &sentinel, "/p/d").unwrap();
    assert_eq!(d.file_type, NodeFileType::Directory);
    assert!(d.replace);
    assert!(d.magic_mount);
    assert!(!d.overlayfs);

    let mut opaque = dir("o", vec![file(".overlayfs")]);
    opaque.opaque = true;
    let o = Node::new_module("o", &opaque, "/p/o").unwrap();
    assert!(o.replace);
    assert!(o.overlayfs);
    assert!(Node::dir_is_replace(&opaque));
    assert!(!Node::dir_is_replace(&dir("x", vec![])));

    let mut opaque_file = file("of");
    opaque_file.opaque = true;
    assert!(!Node::new_module("of", &opaque_file, "/p").unwrap().replace);

    assert_eq!(Node::new_module("u", &entry("u", FileKind::Unknown, vec![]), "/p"), None);
}

#[test]
fn files_of_no_node_kind_are_passed_over() {
    let mut tty = entry("tty", FileKind::CharDevice, vec![]);
    tty.rdev = 1025;
    let content = dir(
        "system",
        vec![entry("pipe", FileKind::Other, vec![]), tty, entry("lost", FileKind::Unknown, vec![])],
    );
    let mut system = Node::new_root("system");
    assert_eq!(system.collect_module_files(&content, "/m/system"), Ok(false));
    assert!(system.children.is_empty());

    let mut system = Node::new_root("system");
    let first = dir("system", vec![dir("pipe", vec![file("x")]), file("tty")]);
    assert_eq!(system.collect_module_files(&first, "/a/system"), Ok(true));
    let before = system.render();
    assert_eq!(system.collect_module_files(&content, "/m/system"), Ok(false));
    assert_eq!(system.render(), before);

    let mut system = Node::new_root("system");
    let with_whiteout = dir("system", vec![entry("gone", FileKind::CharDevice, vec![])]);
    assert_eq!(system.collect_module_files(&with_whiteout, "/m/system"), Ok(true));
    assert_eq!(child(&system, "gone").file_type, NodeFileType::Whiteout);
}

#[test]
fn first_module_keeps_a_node() {
    let mut system = Node::new_root("system");
    let first = dir("system", vec![dir("etc", vec![file("hosts")]), file("build.prop")]);
    let second = dir("system", vec![dir("etc", vec![file("hosts"), file("fstab")])]);
    assert_eq!(system.collect_module_files(&first, "/mods/a/system"), Ok(true));
    assert_eq!(system.collect_module_files(&second, "/mods/b/system"), Ok(true));
    assert_eq!(names(&system), vec!["etc", "build.prop"]);
    let etc = child(&system, "etc");
    assert_eq!(etc.source_path, Some("/mods/a/system/etc".to_string()));
    assert_eq!(names(etc), vec!["hosts", "fstab"]);
    assert_eq!(child(etc, "hosts").source_path, Some("/mods/a/system/etc/hosts".to_string()));
    assert_eq!(child(etc, "fstab").source_path, Some("/mods/b/system/etc/fstab".to_string()));
    assert_eq!(system.find_child("build.prop"), 1);
    assert_eq!(system.find_child("none"), 2);
}

#[test]
fn empty_directories_hold_nothing_to_mount_unless_they_replace() {
    let mut system = Node::new_root("system");
    let empty = dir("system", vec![dir("a", vec![dir("b", vec![])])]);
    assert_eq!(system.collect_module_files(&empty, "/m/system"), Ok(false));
    let mut system = Node::new_root("system");
    let replacing = dir("system", vec![dir("a", vec![file(".replace")])]);
    assert_eq!(system.collect_module_files(&replacing, "/m/system"), Ok(true));
    let mut system = Node::new_root("system");
    let mut marked = dir("a", vec![]);
    marked.opaque = true;
    assert_eq!(system.collect_module_files(&dir("system", vec![marked]), "/m/system"), Ok(true));
    assert!(child(&system, "a").replace);
}

#[test]
fn file_where_the_tree_has_a_directory_fails() {
    let mut system = Node::new_root("system");
    assert_eq!(system.collect_module_files(&dir("system", vec![dir("lib", vec![file("x")])]), "/a"), Ok(true));
    let clash = dir("system", vec![file("early"), file("lib"), file("late")]);
    assert_eq!(system.collect_module_files(&clash, "/b"), Err(CollectError::NotADirectory));
    assert_eq!(names(&system), vec!["lib", "early"]);
    let mut other = Node::new_root("system");
    assert_eq!(other.collect_module_files(&file("system"), "/c"), Err(CollectError::NotADirectory));
}

#[test]
fn directory_where_the_tree_has_a_file_is_passed_over() {
    let mut system = Node::new_root("system");
    assert_eq!(system.collect_module_files(&dir("system", vec![file("lib")]), "/a"), Ok(true));
    let later = dir("system", vec![dir("lib", vec![file("x")])]);
    assert_eq!(system.collect_module_files(&later, "/b"), Ok(true));
    assert!(child(&system, "lib").children.is_empty());
    assert_eq!(child(&system, "lib").file_type, NodeFileType::RegularFile);
}

#[test]
fn tree_is_rendered_with_sorted_children() {
    let mut system = Node::new_root("");
    let content = dir(
        "system",
        vec![
            file("zz"),
            dir("etc", vec![file("hosts"), entry("gone", FileKind::CharDevice, vec![])]),
            entry("link", FileKind::Symlink, vec![]),
            dir("app", vec![file(".replace"), file(".magic_mount"), file(".overlayfs")]),
        ],
    );
    system.collect_module_files(&content, "/m").unwrap();
    child_mut(&mut system, "zz").skip = true;
    let expected = "\
/ [DIR]
├── app [DIR] [REPLACE|MAGIC_MOUNT|OVERLAYFS] -> /m/app
│   ├── .magic_mount [FILE] -> /m/app/.magic_mount
│   ├── .overlayfs [FILE] -> /m/app/.overlayfs
│   └── .replace [FILE] -> /m/app/.replace
├── etc [DIR] -> /m/etc
│   ├── gone [WHT] -> /m/etc/gone
│   └── hosts [FILE] -> /m/etc/hosts
├── link [LINK] -> /m/link
└── zz [FILE] [SKIP] -> /m/zz
";
    assert_eq!(system.render(), expected);
    assert_eq!(child(&system, "app").flag_string(), " [REPLACE|MAGIC_MOUNT|OVERLAYFS]");
    assert_eq!(child(&system, "etc").flag_string(), "");
    assert_eq!(child(&system, "zz").line("│   ", true, false), "│   └── zz [FILE] [SKIP] -> /m/zz\n");
}

fn child_mut<'a>(node: &'a mut Node, name: &str) -> &'a mut Node {
    node.children.iter_mut().find(|c| c.name == name).unwrap()
}

#[test]
fn modules_are_collected_into_one_tree() {
    let modules = vec![
        module(
            "one",
            Some("id=one\nname=One\n"),
            vec![dir("system", vec![dir("vendor", vec![file("v")]), dir("odm", vec![file("o")]), file("s")])],
        ),
        module("off", Some("id=off\n"), vec![dir("system", vec![file("hidden")]), file("disable")]),
        module("empty", Some("id=empty\n"), vec![dir("vendor", vec![file("x")])]),
        module("two", Some("id=two\n"), vec![dir("system", vec![dir("product", vec![file("p")])])]),
        ModuleSource { tree: dir("noprop", vec![dir("system", vec![file("q")])]), prop: None },
        ModuleSource { tree: file("stray"), prop: None },
    ];
    let hosts = vec![host("vendor", true, true), host("odm", true, false), host("product", true, false)];
    let tree = collect_module_files("/data/adb/modules", &modules, &vec![], &hosts).unwrap().unwrap();
    assert_eq!(tree.name, "");
    assert_eq!(names(&tree), vec!["vendor", "odm", "system"]);
    let system = child(&tree, "system");
    assert_eq!(names(system), vec!["s", "product"]);
    assert_eq!(
        child(child(&tree, "vendor"), "v").source_path,
        Some("/data/adb/modules/one/system/vendor/v".to_string())
    );
    assert_eq!(
        child(child(system, "product"), "p").source_path,
        Some("/data/adb/modules/two/system/product/p".to_string())
    );
}

#[test]
fn nothing_to_mount_gives_no_tree() {
    let modules = vec![
        module("a", Some("id=a\n"), vec![dir("system", vec![dir("empty", vec![])])]),
        module("b", Some("id=b\n"), vec![dir("system", vec![file("f")]), file("skip_mount")]),
    ];
    assert_eq!(collect_module_files("/mods", &modules, &vec![], &vec![]), Ok(None));
    assert_eq!(collect_module_files("/mods", &vec![], &vec![], &vec![]), Ok(None));
}

#[test]
fn faulty_properties_stop_the_collection() {
    let unreadable = vec![module("a", None, vec![dir("system", vec![file("f")])])];
    assert_eq!(
        collect_module_files("/mods", &unreadable, &vec![], &vec![]),
        Err(CollectError::UnreadableProp)
    );
    let bad = vec![module("a", Some("name=x\nid=has space\n"), vec![dir("system", vec![file("f")])])];
    assert_eq!(collect_module_files("/mods", &bad, &vec![], &vec![]), Err(CollectError::InvalidId));
    let bad_but_off = vec![module("a", Some("id=-x\n"), vec![file("disable")])];
    assert_eq!(
        collect_module_files("/mods", &bad_but_off, &vec![], &vec![]),
        Err(CollectError::InvalidId)
    );
    let clash = vec![
        module("a", Some("id=a\n"), vec![dir("system", vec![dir("d", vec![file("f")])])]),
        module("b", Some("id=b\n"), vec![dir("system", vec![file("d")])]),
    ];
    assert_eq!(collect_module_files("/mods", &clash, &vec![], &vec![]), Err(CollectError::NotADirectory));
}

#[test]
fn extra_partitions_are_merged_and_hung_from_the_root() {
    let extra = vec!["my_stock".to_string(), "vendor".to_string(), "system".to_string()];
    assert_eq!(
        tree_partition_names(&extra),
        vec!["system".to_string(), "my_stock".to_string(), "vendor".to_string()]
    );
    let modules = vec![module(
        "m",
        Some("id=m\n"),
        vec![dir("system", vec![dir("my_stock", vec![file("a")]), dir("vendor", vec![file("b")])])],
    )];
    let hosts = vec![host("my_stock", true, false), host("vendor", true, false), host("system", true, false)];
    let tree = collect_module_files("/mods", &modules, &extra, &hosts).unwrap().unwrap();
    assert_eq!(names(&tree), vec!["my_stock", "system"]);
    assert_eq!(names(child(&tree, "system")), vec!["vendor"]);
    assert!(partition_hangs_from_root(&hosts, "vendor", false));
    assert!(!partition_hangs_from_root(&hosts, "vendor", true));
    assert!(!partition_hangs_from_root(&hosts, "odm", false));
}

#[test]
fn executer_keeps_only_trees_that_ask_for_magic_mount() {
    let config = ConfigData::default();
    let modules = vec![module("a", Some("id=a\n"), vec![dir("system", vec![file("f")])])];
    assert_eq!(executer(&config, &modules, &vec![]), Ok(vec![]));
    let bad = vec![module("a", None, vec![dir("system", vec![file("f")])])];
    assert_eq!(executer(&config, &bad, &vec![]), Err(CollectError::UnreadableProp));
}
