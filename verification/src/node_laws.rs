//! What holds of every merged tree: beneath one node no two nodes have the
//! same name, and a node that is there keeps all it has but what is beneath
//! it.

use vstd::prelude::*;
use crate::framework::{
    assembled, attach_builtin, attach_extra, collection, merge_module, merge_modules,
    merge_partitions, movable_partitions, moved, tree_partitions, HostPartition, ModuleSource,
    Trees,
};
use crate::fstree::{entry_index, lemma_entry_index, FsEntry};
use crate::node::{
    collected, lemma_position, merge_entries, merge_entry, module_node, position, root_node,
    NodeFileType, NodeView,
};
use crate::paths::join;

verus! {

/// No two of the nodes have the same name.
pub open spec fn distinct_names(children: Seq<NodeView>) -> bool {
    forall|i: int, j: int|
        0 <= i < j < children.len() ==> (#[trigger] children[i]).name != (#[trigger] children[j]).name
}

/// Beneath the node and beneath every node under it, no two nodes have the
/// same name.
pub open spec fn well_formed(n: NodeView) -> bool
    decreases n,
{
    &&& distinct_names(n.children)
    &&& forall|i: int| 0 <= i < n.children.len() ==> well_formed(#[trigger] n.children[i])
}

/// Whether `after` is `before` but for what is beneath it.
pub open spec fn same_node(before: NodeView, after: NodeView) -> bool {
    after == (NodeView { children: after.children, ..before })
}

/// Merging a directory into a node keeps the node but for what is beneath
/// it, and keeps the names beneath every node distinct.
pub proof fn lemma_collected(node: NodeView, dir: FsEntry, dir_path: Seq<char>)
    requires
        well_formed(node),
    ensures
        same_node(node, collected(node, dir, dir_path).node),
        well_formed(collected(node, dir, dir_path).node),
    decreases dir, 2nat,
{
    if dir.is_dir {
        lemma_merge_entries(node, dir.children@, dir_path);
    }
}

/// Merging entries into a node keeps the node but for what is beneath it,
/// and keeps the names beneath every node distinct.
pub proof fn lemma_merge_entries(node: NodeView, entries: Seq<FsEntry>, dir_path: Seq<char>)
    requires
        well_formed(node),
    ensures
        same_node(node, merge_entries(node, entries, dir_path).node),
        well_formed(merge_entries(node, entries, dir_path).node),
    decreases entries, 0nat,
{
    if entries.len() > 0 {
        let before = merge_entries(node, entries.drop_last(), dir_path);
        lemma_merge_entries(node, entries.drop_last(), dir_path);
        if before.result is Ok {
            lemma_merge_entry(before.node, entries.last(), dir_path);
        }
    }
}

/// Merging one entry into a node keeps the node but for what is beneath it,
/// and keeps the names beneath every node distinct.
pub proof fn lemma_merge_entry(node: NodeView, e: FsEntry, dir_path: Seq<char>)
    requires
        well_formed(node),
    ensures
        same_node(node, merge_entry(node, e, dir_path).node),
        well_formed(merge_entry(node, e, dir_path).node),
    decreases e, 3nat,
{
    let path = join(dir_path, e.name@);
    let at = position(node.children, e.name@);
    lemma_position(node.children, e.name@);
    if module_node(e.name@, e, path) is Some {
        let fresh = module_node(e.name@, e, path)->0;
        let children = if at == node.children.len() {
            node.children.push(fresh)
        } else {
            node.children
        };
        assert(distinct_names(children));
        assert forall|i: int| 0 <= i < children.len() implies well_formed(
            #[trigger] children[i],
        ) by {
            if i < node.children.len() {
                assert(well_formed(node.children[i]));
            } else {
                assert(children[i] == fresh);
                assert(fresh.children.len() == 0);
            }
        }
        let grown = NodeView { children, ..node };
        assert(well_formed(grown));
        if children[at].file_type == NodeFileType::Directory {
            let sub = collected(children[at], e, path);
            lemma_collected(children[at], e, path);
            let updated = children.update(at, sub.node);
            assert(sub.node.name == children[at].name);
            assert forall|i: int, j: int| 0 <= i < j < updated.len() implies (
            #[trigger] updated[i]).name != (#[trigger] updated[j]).name by {
                assert(updated[i].name == children[i].name);
                assert(updated[j].name == children[j].name);
            }
            assert forall|i: int| 0 <= i < updated.len() implies well_formed(
                #[trigger] updated[i],
            ) by {
                if i != at {
                    assert(updated[i] == children[i]);
                }
            }
            assert(well_formed(NodeView { children: updated, ..node }));
        }
    }
}

/// Whether every node beneath `before` is still beneath `after`, at its
/// place and the same but for what is beneath it.
pub open spec fn keeps_children(before: NodeView, after: NodeView) -> bool {
    &&& before.children.len() <= after.children.len()
    &&& forall|i: int|
        0 <= i < before.children.len() ==> same_node(
            #[trigger] before.children[i],
            after.children[i],
        )
}

/// A node that is in the tree stays as it is, whatever is merged in later:
/// it keeps its place, its type, its flags and the module that owns it, and
/// only what is beneath it can grow.
pub proof fn lemma_merge_keeps_children(node: NodeView, entries: Seq<FsEntry>, dir_path: Seq<char>)
    requires
        well_formed(node),
    ensures
        keeps_children(node, merge_entries(node, entries, dir_path).node),
    decreases entries.len(),
{
    if entries.len() > 0 {
        let before = merge_entries(node, entries.drop_last(), dir_path);
        lemma_merge_keeps_children(node, entries.drop_last(), dir_path);
        lemma_merge_entries(node, entries.drop_last(), dir_path);
        if before.result is Ok {
            let e = entries.last();
            let after = merge_entry(before.node, e, dir_path).node;
            let path = join(dir_path, e.name@);
            let at = position(before.node.children, e.name@);
            lemma_position(before.node.children, e.name@);
            if module_node(e.name@, e, path) is Some {
                let children = if at == before.node.children.len() {
                    before.node.children.push(module_node(e.name@, e, path)->0)
                } else {
                    before.node.children
                };
                if children[at].file_type == NodeFileType::Directory {
                    if at < before.node.children.len() {
                        assert(well_formed(before.node.children[at]));
                        lemma_collected(children[at], e, path);
                    }
                }
            }
            assert forall|i: int| 0 <= i < node.children.len() implies same_node(
                #[trigger] node.children[i],
                after.children[i],
            ) by {
                assert(same_node(node.children[i], before.node.children[i]));
                assert(same_node(before.node.children[i], after.children[i]));
            }
        }
    }
}

/// Merging the directories of a module into `system` keeps it but for what
/// is beneath it, and keeps the names beneath every node distinct.
pub proof fn lemma_merge_partitions(
    system: NodeView,
    children: Seq<FsEntry>,
    module_dir: Seq<char>,
    parts: Seq<Seq<char>>,
)
    requires
        well_formed(system),
    ensures
        same_node(system, merge_partitions(system, children, module_dir, parts).node),
        well_formed(merge_partitions(system, children, module_dir, parts).node),
    decreases parts.len(),
{
    if parts.len() > 0 {
        let before = merge_partitions(system, children, module_dir, parts.drop_last());
        lemma_merge_partitions(system, children, module_dir, parts.drop_last());
        let at = entry_index(children, parts.last());
        lemma_entry_index(children, parts.last());
        if before.result is Ok && at < children.len() {
            lemma_collected(before.node, children[at], join(module_dir, parts.last()));
        }
    }
}

/// Dealing with the children of the module directory keeps `system` but for
/// what is beneath it, and keeps the names beneath every node distinct.
pub proof fn lemma_merge_modules(
    system: NodeView,
    modules: Seq<ModuleSource>,
    base: Seq<char>,
    extra: Seq<Seq<char>>,
)
    requires
        well_formed(system),
    ensures
        same_node(system, merge_modules(system, modules, base, extra).node),
        well_formed(merge_modules(system, modules, base, extra).node),
    decreases modules.len(),
{
    if modules.len() > 0 {
        let before = merge_modules(system, modules.drop_last(), base, extra);
        lemma_merge_modules(system, modules.drop_last(), base, extra);
        if before.result is Ok {
            let m = modules.last();
            lemma_merge_partitions(
                before.node,
                m.tree.children@,
                join(base, m.tree.name@),
                tree_partitions(extra),
            );
            assert(same_node(before.node, merge_module(before.node, m, base, extra).node));
        }
    }
}

/// Whether the two trees can be put together: both keep the names beneath
/// every node distinct, no name is beneath both, and nothing beneath the
/// root has the name of `system`.
pub open spec fn fit_together(t: Trees) -> bool {
    &&& well_formed(t.root)
    &&& well_formed(t.system)
    &&& forall|i: int, j: int|
        0 <= i < t.root.children.len() && 0 <= j < t.system.children.len() ==> (
        #[trigger] t.root.children[i]).name != (#[trigger] t.system.children[j]).name
    &&& forall|i: int|
        0 <= i < t.root.children.len() ==> (#[trigger] t.root.children[i]).name != t.system.name
}

/// Moving a child of `system` to the root keeps the two trees fit to be put
/// together, unless the child has the name of `system` itself.
pub proof fn lemma_moved(t: Trees, name: Seq<char>)
    requires
        fit_together(t),
        name != t.system.name,
    ensures
        fit_together(moved(t, name)),
        moved(t, name).system.name == t.system.name,
        same_node(t.root, moved(t, name).root),
{
    let at = position(t.system.children, name);
    lemma_position(t.system.children, name);
    if at < t.system.children.len() {
        let after = moved(t, name);
        let kept = t.system.children.remove(at);
        let grown = t.root.children.push(t.system.children[at]);
        assert(after.system.children == kept);
        assert(after.root.children == grown);
        assert forall|i: int| 0 <= i < kept.len() implies (#[trigger] kept[i]) == t.system.children[if i
            < at {
            i
        } else {
            i + 1
        }] by {}
        assert forall|i: int, j: int| 0 <= i < j < kept.len() implies (#[trigger] kept[i]).name != (
        #[trigger] kept[j]).name by {
            let a = if i < at {
                i
            } else {
                i + 1
            };
            let b = if j < at {
                j
            } else {
                j + 1
            };
            assert(kept[i] == t.system.children[a] && kept[j] == t.system.children[b]);
        }
        assert forall|i: int| 0 <= i < kept.len() implies well_formed(#[trigger] kept[i]) by {
            let a = if i < at {
                i
            } else {
                i + 1
            };
            assert(kept[i] == t.system.children[a]);
        }
        assert forall|i: int, j: int| 0 <= i < j < grown.len() implies (#[trigger] grown[i]).name != (
        #[trigger] grown[j]).name by {
            if j == t.root.children.len() {
                assert(grown[i] == t.root.children[i]);
            } else {
                assert(grown[i] == t.root.children[i] && grown[j] == t.root.children[j]);
            }
        }
        assert forall|i: int| 0 <= i < grown.len() implies well_formed(#[trigger] grown[i]) by {
            if i < t.root.children.len() {
                assert(grown[i] == t.root.children[i]);
            }
        }
        assert forall|i: int, j: int|
            0 <= i < grown.len() && 0 <= j < kept.len() implies (#[trigger] grown[i]).name != (
        #[trigger] kept[j]).name by {
            let b = if j < at {
                j
            } else {
                j + 1
            };
            assert(kept[j] == t.system.children[b]);
            if i < t.root.children.len() {
                assert(grown[i] == t.root.children[i]);
            } else {
                assert(grown[i] == t.system.children[at]);
                if at < b {
                    assert(t.system.children[at].name != t.system.children[b].name);
                } else {
                    assert(t.system.children[b].name != t.system.children[at].name);
                }
            }
        }
        assert forall|i: int| 0 <= i < grown.len() implies (#[trigger] grown[i]).name
            != after.system.name by {
            if i < t.root.children.len() {
                assert(grown[i] == t.root.children[i]);
            }
        }
    }
}

/// Moving the built-in partitions keeps the two trees fit to be put
/// together.
pub proof fn lemma_attach_builtin(t: Trees, host: Seq<HostPartition>, names: Seq<Seq<char>>)
    requires
        fit_together(t),
        forall|k: int| 0 <= k < names.len() ==> #[trigger] names[k] != t.system.name,
    ensures
        fit_together(attach_builtin(t, host, names)),
        attach_builtin(t, host, names).system.name == t.system.name,
        same_node(t.root, attach_builtin(t, host, names).root),
    decreases names.len(),
{
    if names.len() > 0 {
        let front = names.drop_last();
        assert forall|k: int| 0 <= k < front.len() implies #[trigger] front[k] != t.system.name by {
            assert(front[k] == names[k]);
        }
        lemma_attach_builtin(t, host, front);
        assert(names[names.len() - 1] != t.system.name);
        lemma_moved(attach_builtin(t, host, front), names.last());
    }
}

/// Moving the extra partitions keeps the two trees fit to be put together.
pub proof fn lemma_attach_extra(t: Trees, host: Seq<HostPartition>, extra: Seq<Seq<char>>)
    requires
        fit_together(t),
        t.system.name == "system"@,
    ensures
        fit_together(attach_extra(t, host, extra)),
        attach_extra(t, host, extra).system.name == t.system.name,
        same_node(t.root, attach_extra(t, host, extra).root),
    decreases extra.len(),
{
    if extra.len() > 0 {
        lemma_attach_extra(t, host, extra.drop_last());
        if extra.last() != "system"@ {
            lemma_moved(attach_extra(t, host, extra.drop_last()), extra.last());
        }
    }
}

/// The whole tree keeps the names beneath every node distinct.
pub proof fn lemma_assembled(system: NodeView, host: Seq<HostPartition>, extra: Seq<Seq<char>>)
    requires
        well_formed(system),
        system.name == "system"@,
    ensures
        well_formed(assembled(system, host, extra)),
{
    reveal_strlit("system");
    reveal_strlit("vendor");
    reveal_strlit("system_ext");
    reveal_strlit("product");
    reveal_strlit("odm");
    let start = Trees { root: root_node(Seq::<char>::empty()), system };
    assert(well_formed(start.root));
    assert(fit_together(start));
    let names = movable_partitions();
    assert(names[0].len() == 6 && names[1].len() == 10 && names[2].len() == 7 && names[3].len()
        == 3);
    assert(names[0][0] == 'v');
    assert forall|k: int| 0 <= k < names.len() implies #[trigger] names[k] != system.name by {}
    lemma_attach_builtin(start, host, names);
    let mid = attach_builtin(start, host, names);
    lemma_attach_extra(mid, host, extra);
    let t = attach_extra(mid, host, extra);
    let all = t.root.children.push(t.system);
    assert forall|i: int, j: int| 0 <= i < j < all.len() implies (#[trigger] all[i]).name != (
    #[trigger] all[j]).name by {
        if j == t.root.children.len() {
            assert(all[i] == t.root.children[i]);
        } else {
            assert(all[i] == t.root.children[i] && all[j] == t.root.children[j]);
        }
    }
    assert forall|i: int| 0 <= i < all.len() implies well_formed(#[trigger] all[i]) by {
        if i < t.root.children.len() {
            assert(all[i] == t.root.children[i]);
        }
    }
}

/// The tree made of all modules names nothing twice beneath one node.
pub proof fn lemma_collection(
    base: Seq<char>,
    modules: Seq<ModuleSource>,
    extra: Seq<Seq<char>>,
    host: Seq<HostPartition>,
)
    ensures
        collection(base, modules, extra, host) matches Ok(Some(tree)) ==> well_formed(tree),
{
    let system = root_node("system"@);
    assert(well_formed(system));
    lemma_merge_modules(system, modules, base, extra);
    let merged = merge_modules(system, modules, base, extra);
    if merged.result is Ok {
        lemma_assembled(merged.node, host, extra);
    }
}

} // verus!
