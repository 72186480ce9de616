//! The tree for magic mount, built from all modules: which modules go into
//! it, and which partitions hang from its root rather than from `system`.

use vstd::prelude::*;
use crate::config::ConfigData;
use crate::fstree::{entry_index, has_any_dir, has_entry, FileKind, FsEntry};
use crate::node::{
    collected, lemma_node_view, lemma_position, position, root_node, CollectError, Merged, Node,
    NodeView,
};
use crate::node_laws::{lemma_collection, well_formed};
use crate::paths::{join, path_join};
use crate::planner::{merge_name_list, merge_names};
use crate::props::{states_valid_ids, validate_prop_ids};
use crate::scanner::{has_marker, is_switched_off};
use crate::text::{str_eq, views};

verus! {

/// One child of the module directory, with the text of its properties file
/// where that could be read.
#[derive(Debug, PartialEq, Eq)]
pub struct ModuleSource {
    pub tree: FsEntry,
    pub prop: Option<String>,
}

/// What was found out about a partition on the host.
#[derive(Clone, Debug, PartialEq, Eq)]
pub struct HostPartition {
    pub name: String,
    /// Whether `/<name>` is a directory.
    pub root_is_dir: bool,
    /// Whether `/system/<name>` is a symbolic link.
    pub system_is_symlink: bool,
}

/// The name of the properties file of a module.
pub open spec fn prop_file_name() -> Seq<char> {
    "module.prop"@
}

/// The directories of a module that go into the tree: `system`, then the
/// extra partitions, none twice.
pub open spec fn tree_partitions(extra: Seq<Seq<char>>) -> Seq<Seq<char>> {
    merge_names(seq!["system"@], extra)
}

/// Whether a child of the module directory is passed over without a look at
/// its properties: it is no directory or has no properties file.
pub open spec fn is_no_module(m: ModuleSource) -> bool {
    m.tree.kind != FileKind::Directory || !has_entry(m.tree.children@, prop_file_name())
}

/// What is wrong with the properties of a module, if anything.
pub open spec fn prop_fault(m: ModuleSource) -> Option<CollectError> {
    match m.prop {
        None => Some(CollectError::UnreadableProp),
        Some(text) => if states_valid_ids(text@) {
            None
        } else {
            Some(CollectError::InvalidId)
        },
    }
}

/// `system` once the given directories of a module were merged into it, as
/// far as the module has them, up to the first that fails.
pub open spec fn merge_partitions(
    system: NodeView,
    children: Seq<FsEntry>,
    module_dir: Seq<char>,
    parts: Seq<Seq<char>>,
) -> Merged
    decreases parts.len(),
{
    if parts.len() == 0 {
        Merged { node: system, result: Ok(false) }
    } else {
        let before = merge_partitions(system, children, module_dir, parts.drop_last());
        let part = parts.last();
        let at = entry_index(children, part);
        match before.result {
            Err(_) => before,
            Ok(found) => if at == children.len() {
                before
            } else {
                let step = collected(before.node, children[at], join(module_dir, part));
                Merged {
                    node: step.node,
                    result: match step.result {
                        Ok(b) => Ok(found || b),
                        Err(e) => Err(e),
                    },
                }
            },
        }
    }
}

/// `system` once one child of the module directory `base` was dealt with.
/// What is no module is passed over; a module whose properties cannot be
/// read or state a malformed identifier is an error; a module that is
/// switched off or has a directory for none of the partitions is passed
/// over; of any other the directories for the partitions are merged in.
pub open spec fn merge_module(
    system: NodeView,
    m: ModuleSource,
    base: Seq<char>,
    extra: Seq<Seq<char>>,
) -> Merged {
    if is_no_module(m) {
        Merged { node: system, result: Ok(false) }
    } else if prop_fault(m) is Some {
        Merged { node: system, result: Err(prop_fault(m)->0) }
    } else if has_marker(m.tree.children@) || !has_any_dir(
        m.tree.children@,
        tree_partitions(extra),
    ) {
        Merged { node: system, result: Ok(false) }
    } else {
        merge_partitions(
            system,
            m.tree.children@,
            join(base, m.tree.name@),
            tree_partitions(extra),
        )
    }
}

/// `system` once the children of the module directory were dealt with one
/// after the other, up to the first that fails.
pub open spec fn merge_modules(
    system: NodeView,
    modules: Seq<ModuleSource>,
    base: Seq<char>,
    extra: Seq<Seq<char>>,
) -> Merged
    decreases modules.len(),
{
    if modules.len() == 0 {
        Merged { node: system, result: Ok(false) }
    } else {
        let before = merge_modules(system, modules.drop_last(), base, extra);
        match before.result {
            Err(_) => before,
            Ok(found) => {
                let step = merge_module(before.node, modules.last(), base, extra);
                Merged {
                    node: step.node,
                    result: match step.result {
                        Ok(b) => Ok(found || b),
                        Err(e) => Err(e),
                    },
                }
            },
        }
    }
}

/// Whether the partition hangs from the root on this host: `/<name>` is a
/// directory and, where that is asked for, `/system/<name>` is a symbolic
/// link.
pub open spec fn hangs_from_root(host: Seq<HostPartition>, name: Seq<char>, require_symlink: bool) -> bool {
    exists|i: int|
        0 <= i < host.len() && (#[trigger] host[i]).name@ == name && host[i].root_is_dir && (
        !require_symlink || host[i].system_is_symlink)
}

/// The root of the tree and its `system` directory.
pub struct Trees {
    pub root: NodeView,
    pub system: NodeView,
}

/// The two trees once the child of `system` named `name` was moved to the
/// root, where there is one.
pub open spec fn moved(t: Trees, name: Seq<char>) -> Trees {
    let at = position(t.system.children, name);
    if at < t.system.children.len() {
        Trees {
            root: NodeView { children: t.root.children.push(t.system.children[at]), ..t.root },
            system: NodeView { children: t.system.children.remove(at), ..t.system },
        }
    } else {
        t
    }
}

/// The built-in partitions other than `system`.
pub open spec fn movable_partitions() -> Seq<Seq<char>> {
    seq!["vendor"@, "system_ext"@, "product"@, "odm"@]
}

/// Whether a built-in partition hangs from the root only where
/// `/system/<name>` is a symbolic link: all but `odm`.
pub open spec fn requires_symlink(name: Seq<char>) -> bool {
    name != "odm"@
}

/// The two trees once each of the built-in partitions that hangs from the
/// root on this host was moved there.
pub open spec fn attach_builtin(t: Trees, host: Seq<HostPartition>, names: Seq<Seq<char>>) -> Trees
    decreases names.len(),
{
    if names.len() == 0 {
        t
    } else {
        let before = attach_builtin(t, host, names.drop_last());
        if hangs_from_root(host, names.last(), requires_symlink(names.last())) {
            moved(before, names.last())
        } else {
            before
        }
    }
}

/// The two trees once each of the extra partitions that hangs from the root
/// on this host was moved there; the built-in partitions are not among them.
pub open spec fn attach_extra(t: Trees, host: Seq<HostPartition>, extra: Seq<Seq<char>>) -> Trees
    decreases extra.len(),
{
    if extra.len() == 0 {
        t
    } else {
        let before = attach_extra(t, host, extra.drop_last());
        let name = extra.last();
        if movable_partitions().contains(name) || name == "system"@ || !hangs_from_root(
            host,
            name,
            false,
        ) {
            before
        } else {
            moved(before, name)
        }
    }
}

/// The whole tree: a root without a name, from which hang the partitions of
/// `system` that hang from the root on this host, and `system` with the rest.
pub open spec fn assembled(system: NodeView, host: Seq<HostPartition>, extra: Seq<Seq<char>>) -> NodeView {
    let start = Trees { root: root_node(Seq::<char>::empty()), system };
    let t = attach_extra(attach_builtin(start, host, movable_partitions()), host, extra);
    NodeView { children: t.root.children.push(t.system), ..t.root }
}

/// What the collection of all modules under `base` comes to: an error, no
/// tree where nothing to mount was found, or the tree.
pub open spec fn collection(
    base: Seq<char>,
    modules: Seq<ModuleSource>,
    extra: Seq<Seq<char>>,
    host: Seq<HostPartition>,
) -> Result<Option<NodeView>, CollectError> {
    let merged = merge_modules(root_node("system"@), modules, base, extra);
    match merged.result {
        Err(e) => Err(e),
        Ok(found) => if found {
            Ok(Some(assembled(merged.node, host, extra)))
        } else {
            Ok(None)
        },
    }
}

/// Whether the partition hangs from the root on this host.
pub fn partition_hangs_from_root(host: &Vec<HostPartition>, name: &str, require_symlink: bool) -> (r:
    bool)
    ensures
        r == hangs_from_root(host@, name@, require_symlink),
{
    let mut i: usize = 0;
    while i < host.len()
        invariant
            i <= host.len(),
            forall|j: int|
                0 <= j < i ==> !((#[trigger] host@[j]).name@ == name@ && host@[j].root_is_dir && (
                !require_symlink || host@[j].system_is_symlink)),
        decreases host.len() - i,
    {
        let h = &host[i];
        if h.root_is_dir && (!require_symlink || h.system_is_symlink) && str_eq(
            h.name.as_str(),
            name,
        ) {
            return true;
        }
        i = i + 1;
    }
    false
}

/// Moves the child of `system` named `name` to the root, where there is one.
pub fn move_to_root(root: &mut Node, system: &mut Node, name: &str)
    ensures
        (Trees { root: final(root)@, system: final(system)@ }) == moved(
            Trees { root: old(root)@, system: old(system)@ },
            name@,
        ),
{
    let at = system.find_child(name);
    proof {
        lemma_node_view(*system);
        lemma_node_view(*root);
        lemma_position(system@.children, name@);
    }
    if at < system.children.len() {
        let ghost system_before = *system;
        let ghost root_before = *root;
        let node = system.children.remove(at);
        root.children.push(node);
        proof {
            lemma_node_view(*system);
            lemma_node_view(*root);
            assert(node == system_before.children@[at as int]);
            assert(system@.children =~= system_before@.children.remove(at as int));
            assert(root@.children =~= root_before@.children.push(
                system_before@.children[at as int],
            ));
            assert(system@ == (NodeView { children: system@.children, ..system_before@ }));
            assert(root@ == (NodeView { children: root@.children, ..root_before@ }));
        }
    }
}

/// The directories of a module that go into the tree.
pub fn tree_partition_names(extra: &Vec<String>) -> (r: Vec<String>)
    ensures
        views(r@) == tree_partitions(views(extra@)),
{
    let mut base: Vec<String> = Vec::new();
    base.push("system".to_string());
    proof {
        assert(views(base@) =~= seq!["system"@]);
    }
    merge_name_list(base, extra)
}

/// Merges the directories of one module for the given partitions into
/// `system`.
pub fn collect_partitions(system: &mut Node, module: &FsEntry, module_dir: &str, parts: &Vec<String>) -> (r:
    Result<bool, CollectError>)
    ensures
        (Merged { node: final(system)@, result: r }) == merge_partitions(
            old(system)@,
            module.children@,
            module_dir@,
            views(parts@),
        ),
{
    let ghost pv = views(parts@);
    let mut found = false;
    let mut k: usize = 0;
    proof {
        assert(pv.take(0) =~= Seq::<Seq<char>>::empty());
    }
    while k < parts.len()
        invariant
            k <= parts.len(),
            pv == views(parts@),
            (Merged { node: system@, result: Ok(found) }) == merge_partitions(
                old(system)@,
                module.children@,
                module_dir@,
                pv.take(k as int),
            ),
        decreases parts.len() - k,
    {
        let part = parts[k].as_str();
        proof {
            assert(pv.take(k as int + 1).drop_last() =~= pv.take(k as int));
            assert(pv.take(k as int + 1).last() == part@);
        }
        let at = module.find(part);
        if at < module.children.len() {
            let path = path_join(module_dir, part);
            match system.collect_module_files(&module.children[at], path.as_str()) {
                Ok(b) => {
                    found = found || b;
                },
                Err(e) => {
                    proof {
                        lemma_partitions_stop(
                            old(system)@,
                            module.children@,
                            module_dir@,
                            pv,
                            k as int + 1,
                        );
                    }
                    return Err(e);
                },
            }
        }
        k = k + 1;
    }
    proof {
        assert(pv.take(k as int) =~= pv);
    }
    Ok(found)
}

/// Once a directory has failed, the partitions behind it change nothing.
pub proof fn lemma_partitions_stop(
    system: NodeView,
    children: Seq<FsEntry>,
    module_dir: Seq<char>,
    parts: Seq<Seq<char>>,
    k: int,
)
    requires
        0 <= k <= parts.len(),
        merge_partitions(system, children, module_dir, parts.take(k)).result is Err,
    ensures
        merge_partitions(system, children, module_dir, parts) == merge_partitions(
            system,
            children,
            module_dir,
            parts.take(k),
        ),
    decreases parts.len() - k,
{
    if k == parts.len() {
        assert(parts.take(k) =~= parts);
    } else {
        assert(parts.take(k + 1).drop_last() =~= parts.take(k));
        lemma_partitions_stop(system, children, module_dir, parts, k + 1);
    }
}

/// Once a module has failed, the modules behind it change nothing.
pub proof fn lemma_modules_stop(
    system: NodeView,
    modules: Seq<ModuleSource>,
    base: Seq<char>,
    extra: Seq<Seq<char>>,
    k: int,
)
    requires
        0 <= k <= modules.len(),
        merge_modules(system, modules.take(k), base, extra).result is Err,
    ensures
        merge_modules(system, modules, base, extra) == merge_modules(
            system,
            modules.take(k),
            base,
            extra,
        ),
    decreases modules.len() - k,
{
    if k == modules.len() {
        assert(modules.take(k) =~= modules);
    } else {
        assert(modules.take(k + 1).drop_last() =~= modules.take(k));
        lemma_modules_stop(system, modules, base, extra, k + 1);
    }
}

/// Deals with one child of the module directory `base`.
pub fn collect_module(system: &mut Node, m: &ModuleSource, base: &str, extra: &Vec<String>) -> (r:
    Result<bool, CollectError>)
    ensures
        (Merged { node: final(system)@, result: r }) == merge_module(
            old(system)@,
            *m,
            base@,
            views(extra@),
        ),
{
    if m.tree.kind != FileKind::Directory || !m.tree.contains("module.prop") {
        return Ok(false);
    }
    match &m.prop {
        None => {
            return Err(CollectError::UnreadableProp);
        },
        Some(text) => {
            if validate_prop_ids(text.as_str()).is_err() {
                return Err(CollectError::InvalidId);
            }
        },
    }
    if is_switched_off(&m.tree) {
        return Ok(false);
    }
    let parts = tree_partition_names(extra);
    if !m.tree.contains_any_dir(&parts) {
        return Ok(false);
    }
    let module_dir = path_join(base, m.tree.name.as_str());
    collect_partitions(system, &m.tree, module_dir.as_str(), &parts)
}

/// Builds the tree for magic mount from the children of the module
/// directory `module_dir`: none where no module has anything to mount.
pub fn collect_module_files(
    module_dir: &str,
    modules: &Vec<ModuleSource>,
    extra_partitions: &Vec<String>,
    host: &Vec<HostPartition>,
) -> (r: Result<Option<Node>, CollectError>)
    ensures
        match collection(module_dir@, modules@, views(extra_partitions@), host@) {
            Err(e) => r == Err::<Option<Node>, CollectError>(e),
            Ok(None) => r matches Ok(None),
            Ok(Some(tree)) => r matches Ok(Some(n)) && n@ == tree && well_formed(n@),
        },
{
    proof {
        lemma_collection(module_dir@, modules@, views(extra_partitions@), host@);
    }
    let ghost extra = views(extra_partitions@);
    let mut root = Node::new_root("");
    let mut system = Node::new_root("system");
    let mut found = false;
    let mut i: usize = 0;
    proof {
        assert(modules@.take(0) =~= Seq::<ModuleSource>::empty());
        reveal_strlit("");
        assert(""@ =~= Seq::<char>::empty());
    }
    while i < modules.len()
        invariant
            i <= modules.len(),
            extra == views(extra_partitions@),
            root@ == root_node(Seq::<char>::empty()),
            (Merged { node: system@, result: Ok(found) }) == merge_modules(
                root_node("system"@),
                modules@.take(i as int),
                module_dir@,
                extra,
            ),
        decreases modules.len() - i,
    {
        proof {
            assert(modules@.take(i as int + 1).drop_last() =~= modules@.take(i as int));
            assert(modules@.take(i as int + 1).last() == modules@[i as int]);
        }
        match collect_module(&mut system, &modules[i], module_dir, extra_partitions) {
            Ok(b) => {
                found = found || b;
            },
            Err(e) => {
                proof {
                    lemma_modules_stop(
                        root_node("system"@),
                        modules@,
                        module_dir@,
                        extra,
                        i as int + 1,
                    );
                }
                return Err(e);
            },
        }
        i = i + 1;
    }
    proof {
        assert(modules@.take(i as int) =~= modules@);
    }
    if !found {
        return Ok(None);
    }
    let ghost start = Trees { root: root@, system: system@ };
    let builtin: [(&str, bool); 4] = [
        ("vendor", true),
        ("system_ext", true),
        ("product", true),
        ("odm", false),
    ];
    let mut b: usize = 0;
    proof {
        assert(movable_partitions().take(0) =~= Seq::<Seq<char>>::empty());
        reveal_strlit("vendor");
        reveal_strlit("system_ext");
        reveal_strlit("product");
        reveal_strlit("odm");
    }
    while b < 4
        invariant
            b <= 4,
            builtin@.len() == 4,
            forall|j: int|
                0 <= j < 4 ==> (#[trigger] builtin@[j]).0@ == movable_partitions()[j] && builtin@[j].1
                    == requires_symlink(movable_partitions()[j]),
            (Trees { root: root@, system: system@ }) == attach_builtin(
                start,
                host@,
                movable_partitions().take(b as int),
            ),
        decreases 4 - b,
    {
        let (name, require_symlink) = builtin[b];
        proof {
            assert(movable_partitions().take(b as int + 1).drop_last() =~= movable_partitions().take(
                b as int,
            ));
            assert(movable_partitions().take(b as int + 1).last() == name@);
        }
        if partition_hangs_from_root(host, name, require_symlink) {
            move_to_root(&mut root, &mut system, name);
        }
        b = b + 1;
    }
    let ghost mid = Trees { root: root@, system: system@ };
    proof {
        assert(movable_partitions().take(4) =~= movable_partitions());
        assert(extra.take(0) =~= Seq::<Seq<char>>::empty());
    }
    let mut k: usize = 0;
    while k < extra_partitions.len()
        invariant
            k <= extra_partitions.len(),
            extra == views(extra_partitions@),
            (Trees { root: root@, system: system@ }) == attach_extra(
                mid,
                host@,
                extra.take(k as int),
            ),
        decreases extra_partitions.len() - k,
    {
        let name = extra_partitions[k].as_str();
        proof {
            assert(extra.take(k as int + 1).drop_last() =~= extra.take(k as int));
            assert(extra.take(k as int + 1).last() == name@);
        }
        let builtin_name = str_eq(name, "vendor") || str_eq(name, "system_ext") || str_eq(
            name,
            "product",
        ) || str_eq(name, "odm");
        proof {
            if movable_partitions().contains(name@) {
                let j = choose|j: int|
                    0 <= j < movable_partitions().len() && movable_partitions()[j] == name@;
                assert(builtin_name);
            }
            if builtin_name {
                assert(movable_partitions()[0] == "vendor"@);
                assert(movable_partitions()[1] == "system_ext"@);
                assert(movable_partitions()[2] == "product"@);
                assert(movable_partitions()[3] == "odm"@);
            }
        }
        if !builtin_name && !str_eq(name, "system") && partition_hangs_from_root(
            host,
            name,
            false,
        ) {
            move_to_root(&mut root, &mut system, name);
        }
        k = k + 1;
    }
    proof {
        assert(extra.take(k as int) =~= extra);
    }
    let ghost root_before = root;
    let ghost system_view = system@;
    root.children.push(system);
    proof {
        lemma_node_view(root);
        lemma_node_view(root_before);
        assert(root@.children =~= root_before@.children.push(system_view));
        assert(root@ == (NodeView { children: root@.children, ..root_before@ }));
    }
    Ok(Some(root))
}

/// The trees that are to be mounted by magic mount: the tree of all modules
/// where there is one and it asks for magic mount.
pub fn executer(
    config: &ConfigData,
    modules: &Vec<ModuleSource>,
    host: &Vec<HostPartition>,
) -> (r: Result<Vec<Node>, CollectError>)
    ensures
        match collection(config.moduledir@, modules@, views(config.partitions@), host@) {
            Err(e) => r == Err::<Vec<Node>, CollectError>(e),
            Ok(None) => r matches Ok(v) && v@.len() == 0,
            Ok(Some(tree)) => r matches Ok(v) && if tree.magic_mount {
                v@.len() == 1 && v@[0]@ == tree
            } else {
                v@.len() == 0
            },
        },
{
    let mut magic_mount: Vec<Node> = Vec::new();
    match collect_module_files(config.moduledir.as_str(), modules, &config.partitions, host) {
        Err(e) => Err(e),
        Ok(found) => {
            match found {
                Some(files) => {
                    proof {
                        lemma_node_view(files);
                    }
                    if files.magic_mount {
                        magic_mount.push(files);
                    }
                },
                None => {},
            }
            Ok(magic_mount)
        },
    }
}

} // verus!
