//! The tree that magic mount is made from: the contents of all modules,
//! merged by name, each node owned by the module that claimed it first.

use vstd::prelude::*;
use vstd::string::StringExecFns;
use crate::defs::{magic_mount_file_name, overlayfs_file_name, replace_dir_file_name};
use crate::fstree::{has_entry, FileKind, FsEntry};
use crate::node_laws::{lemma_collected, well_formed};
use crate::order::{sort_by_key, sorted_by_key};
use crate::paths::{join, path_join};
use crate::text::str_eq;

verus! {

/// What kind of file a node stands for.
#[derive(Clone, Copy, Debug, PartialEq, Eq, Hash, Structural)]
pub enum NodeFileType {
    RegularFile,
    Directory,
    Symlink,
    Whiteout,
}

/// The node type of a file of the given kind and device number: regular
/// files, directories and symbolic links as they are, a character device
/// with device number 0 a whiteout. Any other file has no place in the tree.
pub open spec fn node_type_of(kind: FileKind, rdev: u64) -> Option<NodeFileType> {
    match kind {
        FileKind::File => Some(NodeFileType::RegularFile),
        FileKind::Directory => Some(NodeFileType::Directory),
        FileKind::Symlink => Some(NodeFileType::Symlink),
        FileKind::CharDevice => if rdev == 0 {
            Some(NodeFileType::Whiteout)
        } else {
            None
        },
        _ => None,
    }
}

/// The short name of a node type.
pub open spec fn type_label(t: NodeFileType) -> Seq<char> {
    match t {
        NodeFileType::Directory => "DIR"@,
        NodeFileType::RegularFile => "FILE"@,
        NodeFileType::Symlink => "LINK"@,
        NodeFileType::Whiteout => "WHT"@,
    }
}

impl NodeFileType {
    /// The node type of a file of the given kind and device number, if it
    /// has one.
    pub fn from(value: FileKind, rdev: u64) -> (r: Option<Self>)
        ensures
            r == node_type_of(value, rdev),
    {
        match value {
            FileKind::File => Some(NodeFileType::RegularFile),
            FileKind::Directory => Some(NodeFileType::Directory),
            FileKind::Symlink => Some(NodeFileType::Symlink),
            FileKind::CharDevice => if rdev == 0 {
                Some(NodeFileType::Whiteout)
            } else {
                None
            },
            _ => None,
        }
    }

    /// The short name of the node type.
    pub fn label(&self) -> (r: &'static str)
        ensures
            r@ == type_label(*self),
    {
        match self {
            NodeFileType::Directory => "DIR",
            NodeFileType::RegularFile => "FILE",
            NodeFileType::Symlink => "LINK",
            NodeFileType::Whiteout => "WHT",
        }
    }
}

/// One file or directory of the merged tree.
#[derive(Debug, PartialEq, Eq)]
pub struct Node {
    pub name: String,
    pub file_type: NodeFileType,
    /// The nodes beneath a directory, no two of one name.
    pub children: Vec<Node>,
    /// The path of the file in the module that owns this node.
    pub source_path: Option<String>,
    pub replace: bool,
    pub skip: bool,
    pub overlayfs: bool,
    pub magic_mount: bool,
}

/// A node as plain values, with the nodes beneath it.
pub struct NodeView {
    pub name: Seq<char>,
    pub file_type: NodeFileType,
    pub children: Seq<NodeView>,
    pub source_path: Option<Seq<char>>,
    pub replace: bool,
    pub skip: bool,
    pub overlayfs: bool,
    pub magic_mount: bool,
}

/// The node as plain values, with the nodes beneath it.
pub open spec fn node_view(n: Node) -> NodeView
    decreases n,
{
    NodeView {
        name: n.name@,
        file_type: n.file_type,
        children: Seq::new(
            n.children@.len(),
            |i: int|
                if 0 <= i < n.children@.len() {
                    node_view(n.children@[i])
                } else {
                    arbitrary()
                },
        ),
        source_path: match n.source_path {
            Some(p) => Some(p@),
            None => None,
        },
        replace: n.replace,
        skip: n.skip,
        overlayfs: n.overlayfs,
        magic_mount: n.magic_mount,
    }
}

impl View for Node {
    type V = NodeView;

    open spec fn view(&self) -> NodeView {
        node_view(*self)
    }
}

/// The view of a node, field by field.
pub proof fn lemma_node_view(n: Node)
    ensures
        n@.name == n.name@,
        n@.file_type == n.file_type,
        n@.children.len() == n.children@.len(),
        forall|i: int| 0 <= i < n.children@.len() ==> n@.children[i] == (#[trigger] n.children@[i])@,
        n@.source_path == match n.source_path {
            Some(p) => Some(p@),
            None => None,
        },
        n@.replace == n.replace,
        n@.skip == n.skip,
        n@.overlayfs == n.overlayfs,
        n@.magic_mount == n.magic_mount,
{
}

/// The place of the first node named `name`, or the number of nodes where
/// none has that name.
pub open spec fn position(children: Seq<NodeView>, name: Seq<char>) -> int
    decreases children.len(),
{
    if children.len() == 0 {
        0
    } else if children[0].name == name {
        0
    } else {
        1 + position(children.drop_first(), name)
    }
}

/// `position` finds the first node of that name.
pub proof fn lemma_position(children: Seq<NodeView>, name: Seq<char>)
    ensures
        0 <= position(children, name) <= children.len(),
        position(children, name) < children.len() ==> children[position(children, name)].name
            == name,
        forall|j: int| 0 <= j < position(children, name) ==> (#[trigger] children[j]).name != name,
    decreases children.len(),
{
    if children.len() > 0 && children[0].name != name {
        let rest = children.drop_first();
        lemma_position(rest, name);
        assert forall|j: int| 0 <= j < position(children, name) implies (#[trigger] children[j]).name
            != name by {
            if j > 0 {
                assert(rest[j - 1] == children[j]);
            }
        }
    }
}

/// A place before which no node has the name, and which has it or is the
/// end, is the one `position` finds.
pub proof fn lemma_position_is(children: Seq<NodeView>, name: Seq<char>, at: int)
    requires
        0 <= at <= children.len(),
        forall|j: int| 0 <= j < at ==> (#[trigger] children[j]).name != name,
        at < children.len() ==> children[at].name == name,
    ensures
        position(children, name) == at,
{
    lemma_position(children, name);
}

/// The type of the node made of a directory entry, if the entry is of a
/// kind that the tree holds.
pub open spec fn entry_node_type(e: FsEntry) -> Option<NodeFileType> {
    node_type_of(e.kind, e.rdev)
}

/// Whether a directory replaces the one beneath it: it is marked opaque or
/// holds the sentinel file.
pub open spec fn is_replace_dir(e: FsEntry) -> bool {
    e.opaque || has_entry(e.children@, replace_dir_file_name())
}

/// The node made of the entry `e` of a module, found at `path`: none where
/// the entry is of no kind that the tree holds. The node has the given name
/// and nothing beneath it, belongs to the module, and replaces the directory
/// beneath it where it is a directory that is marked so.
pub open spec fn module_node(name: Seq<char>, e: FsEntry, path: Seq<char>) -> Option<NodeView> {
    match entry_node_type(e) {
        Some(file_type) => Some(
            NodeView {
                name,
                file_type,
                children: Seq::<NodeView>::empty(),
                source_path: Some(path),
                replace: file_type == NodeFileType::Directory && is_replace_dir(e),
                skip: false,
                overlayfs: has_entry(e.children@, overlayfs_file_name()),
                magic_mount: has_entry(e.children@, magic_mount_file_name()),
            },
        ),
        None => None,
    }
}

/// A directory that no module owns.
pub open spec fn root_node(name: Seq<char>) -> NodeView {
    NodeView {
        name,
        file_type: NodeFileType::Directory,
        children: Seq::<NodeView>::empty(),
        source_path: None,
        replace: false,
        skip: false,
        overlayfs: false,
        magic_mount: false,
    }
}

impl Node {
    /// Whether the directory entry replaces the directory beneath it.
    pub fn dir_is_replace(entry: &FsEntry) -> (r: bool)
        ensures
            r == is_replace_dir(*entry),
    {
        entry.opaque || entry.contains(".replace")
    }

    /// A directory named `name` that no module owns.
    pub fn new_root(name: &str) -> (r: Self)
        ensures
            r@ == root_node(name@),
    {
        let r = Self {
            name: name.to_string(),
            file_type: NodeFileType::Directory,
            children: Vec::new(),
            source_path: None,
            replace: false,
            skip: false,
            overlayfs: false,
            magic_mount: false,
        };
        proof {
            assert(r@.children =~= Seq::<NodeView>::empty());
        }
        r
    }

    /// The node for the entry `entry` of a module, found at `path`; none
    /// where the entry is of no kind that the tree holds: nothing could be
    /// found out about it, or it is a file other than a regular file, a
    /// directory, a symbolic link and a whiteout.
    pub fn new_module(name: &str, entry: &FsEntry, path: &str) -> (r: Option<Self>)
        ensures
            match module_node(name@, *entry, path@) {
                Some(node) => r is Some && r->0@ == node,
                None => r is None,
            },
    {
        let file_type = match NodeFileType::from(entry.kind, entry.rdev) {
            Some(t) => t,
            None => {
                return None;
            },
        };
        let replace = file_type == NodeFileType::Directory && Self::dir_is_replace(entry);
        let r = Self {
            name: name.to_string(),
            file_type,
            children: Vec::new(),
            source_path: Some(path.to_string()),
            replace,
            skip: false,
            overlayfs: entry.contains(".overlayfs"),
            magic_mount: entry.contains(".magic_mount"),
        };
        proof {
            assert(r@.children =~= Seq::<NodeView>::empty());
        }
        Some(r)
    }

    /// The place of the node named `name` among the children.
    pub fn find_child(&self, name: &str) -> (r: usize)
        ensures
            r == position(self@.children, name@),
    {
        let mut i: usize = 0;
        proof {
            lemma_node_view(*self);
        }
        while i < self.children.len()
            invariant
                i <= self.children.len(),
                self@.children.len() == self.children@.len(),
                forall|j: int|
                    0 <= j < self.children@.len() ==> self@.children[j] == (
                    #[trigger] self.children@[j])@,
                forall|j: int| 0 <= j < i ==> (#[trigger] self@.children[j]).name != name@,
            decreases self.children.len() - i,
        {
            proof {
                lemma_node_view(self.children@[i as int]);
            }
            if str_eq(self.children[i].name.as_str(), name) {
                proof {
                    lemma_position_is(self@.children, name@, i as int);
                }
                return i;
            }
            i = i + 1;
        }
        proof {
            lemma_position_is(self@.children, name@, i as int);
        }
        i
    }
}

/// Why the contents of a module could not be merged into the tree.
#[derive(Clone, Copy, Debug, PartialEq, Eq, Structural)]
pub enum CollectError {
    /// What stands where a directory was to be read is no directory.
    NotADirectory,
    /// The properties of a module could not be read.
    UnreadableProp,
    /// A module states an identifier that is not well-formed.
    InvalidId,
}

/// A node after a merge, and what the merge came to: whether anything to
/// mount was found, or why it stopped.
pub struct Merged {
    pub node: NodeView,
    pub result: Result<bool, CollectError>,
}

/// `node` once the directory `dir` of a module, found at `dir_path`, was
/// merged into it.
pub open spec fn collected(node: NodeView, dir: FsEntry, dir_path: Seq<char>) -> Merged
    decreases dir, 2nat,
{
    if !dir.is_dir {
        Merged { node, result: Err(CollectError::NotADirectory) }
    } else {
        merge_entries(node, dir.children@, dir_path)
    }
}

/// `node` once the entries of a directory found at `dir_path` were merged
/// into it one after the other, up to the first that fails. Something to
/// mount was found where it was found for one of the entries.
pub open spec fn merge_entries(node: NodeView, entries: Seq<FsEntry>, dir_path: Seq<char>) -> Merged
    decreases entries, 0nat,
{
    if entries.len() == 0 {
        Merged { node, result: Ok(false) }
    } else {
        let before = merge_entries(node, entries.drop_last(), dir_path);
        match before.result {
            Err(_) => before,
            Ok(found) => {
                let step = merge_entry(before.node, entries.last(), dir_path);
                Merged {
                    node: step.node,
                    result: match step.result {
                        Ok(b) => Ok(found || b),
                        Err(e) => Err(e),
                    },
                }
            },
        }
    }
}

/// `node` once one entry of a directory found at `dir_path` was merged into
/// it. An entry of no kind that the tree holds is passed over. For any
/// other, the child of that name is kept where there is one, and else made
/// of the entry. Where the child is a directory, what the entry holds is
/// merged into it, and something to mount was found if it was found there or
/// the child replaces the directory beneath it. Any other child is something
/// to mount.
pub open spec fn merge_entry(node: NodeView, e: FsEntry, dir_path: Seq<char>) -> Merged
    decreases e, 3nat,
{
    let path = join(dir_path, e.name@);
    let at = position(node.children, e.name@);
    match module_node(e.name@, e, path) {
        None => Merged { node, result: Ok(false) },
        Some(fresh) => {
            let children = if at == node.children.len() {
                node.children.push(fresh)
            } else {
                node.children
            };
            if children[at].file_type != NodeFileType::Directory {
                Merged { node: NodeView { children, ..node }, result: Ok(true) }
            } else {
                let sub = collected(children[at], e, path);
                Merged {
                    node: NodeView { children: children.update(at, sub.node), ..node },
                    result: match sub.result {
                        Ok(b) => Ok(b || sub.node.replace),
                        Err(e) => Err(e),
                    },
                }
            }
        },
    }
}

/// Once an entry has failed, the entries behind it change nothing.
pub proof fn lemma_merge_stops(
    node: NodeView,
    entries: Seq<FsEntry>,
    dir_path: Seq<char>,
    k: int,
)
    requires
        0 <= k <= entries.len(),
        merge_entries(node, entries.take(k), dir_path).result is Err,
    ensures
        merge_entries(node, entries, dir_path) == merge_entries(node, entries.take(k), dir_path),
    decreases entries.len() - k,
{
    if k == entries.len() {
        assert(entries.take(k) =~= entries);
    } else {
        assert(entries.take(k + 1).drop_last() =~= entries.take(k));
        lemma_merge_stops(node, entries, dir_path, k + 1);
    }
}

impl Node {
    /// Merges the directory `dir` of a module, found at `dir_path`, into
    /// this node, and says whether anything to mount was found. A node that
    /// is there is kept, whichever module owns it; a new one belongs to this
    /// module. The merge fails where a directory of the tree meets something
    /// of this module that is no directory.
    pub fn collect_module_files(&mut self, dir: &FsEntry, dir_path: &str) -> (r: Result<
        bool,
        CollectError,
    >)
        ensures
            (Merged { node: final(self)@, result: r }) == collected(old(self)@, *dir, dir_path@),
            well_formed(old(self)@) ==> well_formed(final(self)@),
        decreases dir,
    {
        if !dir.is_dir {
            return Err(CollectError::NotADirectory);
        }
        let mut has_file = false;
        let mut i: usize = 0;
        proof {
            assert(dir.children@.take(0) =~= Seq::<FsEntry>::empty());
        }
        while i < dir.children.len()
            invariant
                i <= dir.children.len(),
                dir.is_dir,
                (Merged { node: self@, result: Ok(has_file) }) == merge_entries(
                    old(self)@,
                    dir.children@.take(i as int),
                    dir_path@,
                ),
            decreases dir.children.len() - i,
        {
            let entry = &dir.children[i];
            let path = path_join(dir_path, entry.name.as_str());
            let ghost entries = dir.children@.take(i as int + 1);
            let ghost start = self@;
            let ghost found_before = has_file;
            let ghost step = merge_entry(start, *entry, dir_path@);
            proof {
                assert(entries.drop_last() =~= dir.children@.take(i as int));
                assert(entries.last() == *entry);
                lemma_position(start.children, entry.name@);
                lemma_node_view(*self);
                assert(merge_entries(old(self)@, entries, dir_path@) == (Merged {
                    node: step.node,
                    result: match step.result {
                        Ok(b) => Ok(found_before || b),
                        Err(e) => Err(e),
                    },
                }));
            }
            let at = self.find_child(entry.name.as_str());
            let mut present = false;
            if NodeFileType::from(entry.kind, entry.rdev).is_some() {
                present = at < self.children.len();
                if !present {
                    match Self::new_module(entry.name.as_str(), entry, path.as_str()) {
                        Some(node) => {
                            self.children.push(node);
                            present = true;
                            proof {
                                lemma_node_view(*self);
                                assert(self@.children =~= start.children.push(
                                    module_node(entry.name@, *entry, path@)->0,
                                ));
                            }
                        },
                        None => {},
                    }
                }
            } else {
                proof {
                    assert(step == (Merged { node: start, result: Ok(false) }));
                }
            }
            if present {
                let ghost children = self@.children;
                proof {
                    lemma_node_view(*self);
                    lemma_node_view(self.children@[at as int]);
                    assert(self@ == (NodeView { children, ..start }));
                }
                if self.children[at].file_type == NodeFileType::Directory {
                    let ghost parent = *self;
                    let sub = self.children[at].collect_module_files(entry, path.as_str());
                    proof {
                        lemma_node_view(*self);
                        lemma_node_view(parent);
                        let after = collected(children[at as int], *entry, path@);
                        assert(self.children@[at as int]@ == after.node);
                        assert(self@.children =~= children.update(at as int, after.node));
                        assert(self@ == (NodeView {
                            children: children.update(at as int, after.node),
                            ..start
                        }));
                        assert(step == (Merged {
                            node: self@,
                            result: match after.result {
                                Ok(b) => Ok(b || after.node.replace),
                                Err(e) => Err(e),
                            },
                        }));
                        assert(sub == after.result);
                    }
                    match sub {
                        Ok(found) => {
                            proof {
                                lemma_node_view(self.children@[at as int]);
                            }
                            let replaces = self.children[at].replace;
                            has_file = has_file || found || replaces;
                        },
                        Err(e) => {
                            proof {
                                assert(merge_entries(old(self)@, entries, dir_path@).result is Err);
                                lemma_merge_stops(
                                    old(self)@,
                                    dir.children@,
                                    dir_path@,
                                    i as int + 1,
                                );
                                if well_formed(old(self)@) {
                                    lemma_collected(old(self)@, *dir, dir_path@);
                                }
                            }
                            return Err(e);
                        },
                    }
                } else {
                    proof {
                        assert(step == (Merged { node: self@, result: Ok(true) }));
                    }
                    has_file = true;
                }
            }
            i = i + 1;
        }
        proof {
            assert(dir.children@.take(i as int) =~= dir.children@);
            if well_formed(old(self)@) {
                lemma_collected(old(self)@, *dir, dir_path@);
            }
        }
        Ok(has_file)
    }
}

/// The names of the nodes, in their order.
pub open spec fn node_names(children: Seq<Node>) -> Seq<String> {
    children.map_values(|c: Node| c.name)
}

/// What stands before the name of a node in its line.
pub open spec fn connector(is_last: bool, is_root: bool) -> Seq<char> {
    if is_root {
        Seq::<char>::empty()
    } else if is_last {
        "└── "@
    } else {
        "├── "@
    }
}

/// What the lines beneath a node begin with, behind what its own line
/// begins with.
pub open spec fn child_prefix(is_last: bool, is_root: bool) -> Seq<char> {
    if is_root {
        Seq::<char>::empty()
    } else if is_last {
        "    "@
    } else {
        "│   "@
    }
}

/// The strings with `sep` between them.
pub open spec fn joined(parts: Seq<Seq<char>>, sep: Seq<char>) -> Seq<char>
    decreases parts.len(),
{
    if parts.len() == 0 {
        Seq::<char>::empty()
    } else if parts.len() == 1 {
        parts[0]
    } else {
        joined(parts.drop_last(), sep) + sep + parts.last()
    }
}

/// The names of the flags that a node has.
pub open spec fn flag_names(n: Node) -> Seq<Seq<char>> {
    (if n.replace {
        seq!["REPLACE"@]
    } else {
        Seq::<Seq<char>>::empty()
    }) + (if n.skip {
        seq!["SKIP"@]
    } else {
        Seq::<Seq<char>>::empty()
    }) + (if n.magic_mount {
        seq!["MAGIC_MOUNT"@]
    } else {
        Seq::<Seq<char>>::empty()
    }) + (if n.overlayfs {
        seq!["OVERLAYFS"@]
    } else {
        Seq::<Seq<char>>::empty()
    })
}

/// The flags of a node, in brackets and with bars between them; nothing
/// where it has none.
pub open spec fn flag_text(n: Node) -> Seq<char> {
    if flag_names(n).len() == 0 {
        Seq::<char>::empty()
    } else {
        " ["@ + joined(flag_names(n), "|"@) + "]"@
    }
}

/// The strings as character sequences.
pub open spec fn str_views(v: Seq<&'static str>) -> Seq<Seq<char>> {
    v.map_values(|s: &'static str| s@)
}

/// The line of a node: what it begins with, the name (a slash for the
/// empty name), the type in brackets, the flags, the path in the module
/// that owns the node behind an arrow, and a line feed.
pub open spec fn line_text(n: Node, prefix: Seq<char>, is_last: bool, is_root: bool) -> Seq<char> {
    let head = (if is_root {
        prefix
    } else {
        prefix + connector(is_last, is_root)
    }) + (if n.name@.len() == 0 {
        "/"@
    } else {
        n.name@
    }) + " ["@ + type_label(n.file_type) + "]"@ + flag_text(n);
    (match n.source_path {
        Some(p) => head + " -> "@ + p@,
        None => head,
    }) + "\n"@
}

/// The node and all beneath it, a line for each, the children of a node in
/// ascending order of their names.
pub open spec fn rendered(n: Node, prefix: Seq<char>, is_last: bool, is_root: bool) -> Seq<char>
    decreases n, 1nat, 0nat,
{
    line_text(n, prefix, is_last, is_root) + rendered_children(
        n,
        sorted_by_key(node_names(n.children@), false),
        prefix + child_prefix(is_last, is_root),
        0,
    )
}

/// The lines of the children of `n` named by `order` from the place `k` on.
pub open spec fn rendered_children(n: Node, order: Seq<String>, prefix: Seq<char>, k: nat) -> Seq<
    char,
>
    decreases n, 0nat, order.len() - k,
{
    if k >= order.len() {
        Seq::<char>::empty()
    } else {
        let at = position(n@.children, order[k as int]@);
        (if 0 <= at < n.children@.len() {
            rendered(n.children@[at], prefix, k + 1 == order.len(), false)
        } else {
            Seq::<char>::empty()
        }) + rendered_children(n, order, prefix, k + 1)
    }
}

impl Node {
    /// The flags of this node as text.
    pub fn flag_string(&self) -> (r: String)
        ensures
            r@ == flag_text(*self),
    {
        let mut flags: Vec<&'static str> = Vec::new();
        if self.replace {
            flags.push("REPLACE");
        }
        if self.skip {
            flags.push("SKIP");
        }
        if self.magic_mount {
            flags.push("MAGIC_MOUNT");
        }
        if self.overlayfs {
            flags.push("OVERLAYFS");
        }
        proof {
            assert(str_views(flags@) =~= flag_names(*self));
        }
        let mut text = String::new();
        if flags.len() == 0 {
            return text;
        }
        text.append(" [");
        let mut i: usize = 0;
        proof {
            assert(str_views(flags@).take(0) =~= Seq::<Seq<char>>::empty());
            assert(text@ =~= " ["@ + joined(str_views(flags@).take(0), "|"@));
        }
        while i < flags.len()
            invariant
                i <= flags.len(),
                text@ == " ["@ + joined(str_views(flags@).take(i as int), "|"@),
            decreases flags.len() - i,
        {
            let ghost before = text@;
            let ghost next = str_views(flags@).take(i as int + 1);
            proof {
                assert(next.drop_last() =~= str_views(flags@).take(i as int));
                assert(next.last() == flags@[i as int]@);
            }
            if i > 0 {
                text.append("|");
            }
            text.append(flags[i]);
            proof {
                if i == 0 {
                    assert(joined(next, "|"@) == flags@[0]@);
                    assert(joined(next.drop_last(), "|"@) =~= Seq::<char>::empty());
                    assert(text@ =~= " ["@ + joined(next, "|"@));
                } else {
                    assert(text@ =~= " ["@ + joined(next, "|"@));
                }
            }
            i = i + 1;
        }
        proof {
            assert(str_views(flags@).take(i as int) =~= str_views(flags@));
        }
        text.append("]");
        text
    }

    /// The line of this node.
    pub fn line(&self, prefix: &str, is_last: bool, is_root: bool) -> (r: String)
        ensures
            r@ == line_text(*self, prefix@, is_last, is_root),
    {
        let mut out = prefix.to_string();
        if !is_root {
            if is_last {
                out.append("└── ");
            } else {
                out.append("├── ");
            }
        }
        if self.name.as_str().is_empty() {
            out.append("/");
        } else {
            out.append(self.name.as_str());
        }
        out.append(" [");
        out.append(self.file_type.label());
        out.append("]");
        let flags = self.flag_string();
        out.append(flags.as_str());
        match &self.source_path {
            Some(p) => {
                out.append(" -> ");
                out.append(p.as_str());
            },
            None => {},
        }
        out.append("\n");
        out
    }

    /// Adds to `out` the lines of this node and of all beneath it.
    pub fn print_tree(&self, out: &mut String, prefix: &str, is_last: bool, is_root: bool)
        ensures
            final(out)@ == old(out)@ + rendered(*self, prefix@, is_last, is_root),
        decreases self,
    {
        let ghost start = out@;
        let line = self.line(prefix, is_last, is_root);
        out.append(line.as_str());
        let mut new_prefix = prefix.to_string();
        if !is_root {
            if is_last {
                new_prefix.append("    ");
            } else {
                new_prefix.append("│   ");
            }
        }
        proof {
            assert(new_prefix@ =~= prefix@ + child_prefix(is_last, is_root));
            assert(out@ == start + line_text(*self, prefix@, is_last, is_root));
        }
        let mut names: Vec<String> = Vec::new();
        let mut i: usize = 0;
        while i < self.children.len()
            invariant
                i <= self.children.len(),
                names@ == node_names(self.children@.take(i as int)),
            decreases self.children.len() - i,
        {
            names.push(self.children[i].name.clone());
            proof {
                assert(node_names(self.children@.take(i as int + 1)) =~= node_names(
                    self.children@.take(i as int),
                ).push(self.children@[i as int].name));
            }
            i = i + 1;
        }
        proof {
            assert(self.children@.take(i as int) =~= self.children@);
        }
        let order = sort_by_key(names, false);
        let ghost line_end = out@;
        let mut k: usize = 0;
        while k < order.len()
            invariant
                k <= order.len(),
                order@ == sorted_by_key(node_names(self.children@), false),
                line_end + rendered_children(*self, order@, new_prefix@, 0) == out@
                    + rendered_children(*self, order@, new_prefix@, k as nat),
            decreases order.len() - k,
        {
            let at = self.find_child(order[k].as_str());
            let ghost before = out@;
            proof {
                lemma_node_view(*self);
            }
            if at < self.children.len() {
                self.children[at].print_tree(out, new_prefix.as_str(), k + 1 == order.len(), false);
            }
            proof {
                let last = rendered_children(*self, order@, new_prefix@, k as nat + 1);
                let here = if 0 <= at < self.children@.len() {
                    rendered(self.children@[at as int], new_prefix@, k + 1 == order@.len(), false)
                } else {
                    Seq::<char>::empty()
                };
                assert(rendered_children(*self, order@, new_prefix@, k as nat) == here + last);
                assert(out@ =~= before + here);
                assert(before + (here + last) =~= (before + here) + last);
            }
            k = k + 1;
        }
        proof {
            assert(rendered_children(*self, order@, new_prefix@, k as nat) =~= Seq::<char>::empty());
            assert(out@ =~= line_end + rendered_children(*self, order@, new_prefix@, 0));
            assert(out@ =~= start + rendered(*self, prefix@, is_last, is_root));
        }
    }

    /// The tree as text: a line for each node, the children of a node
    /// beneath it in ascending order of their names.
    pub fn render(&self) -> (r: String)
        ensures
            r@ == rendered(*self, Seq::<char>::empty(), true, true),
    {
        let mut out = String::new();
        proof {
            reveal_strlit("");
            assert(""@ =~= Seq::<char>::empty());
        }
        self.print_tree(&mut out, "", true, true);
        proof {
            assert(out@ =~= rendered(*self, Seq::<char>::empty(), true, true));
        }
        out
    }
}

} // verus!
