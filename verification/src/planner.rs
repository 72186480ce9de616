//! The mount plan: which modules are layered over which partition and in what
//! order, which are left to magic mount, and which files several modules claim.

use vstd::prelude::*;
use vstd::string::StringExecFns;
use crate::config::ConfigData;
use crate::defs::{builtin_partition_names, builtin_partitions};
use crate::fstree::{has_any_dir, has_dir, FileKind, FsEntry};
use crate::order::{is_sorted, lemma_sorted_by_key, sort_by_key, sorted_by_key, Keyed};
use crate::paths::{join, path_join};
use crate::scanner::ModuleInfo;
use crate::text::{contains_str, lemma_str_order, str_eq, str_le, str_lt, views};

verus! {

/// How a module is to be mounted.
#[derive(Clone, Copy, Debug, PartialEq, Eq, Structural)]
pub enum MountMode {
    Auto,
    Overlay,
    Magic,
}

/// The mode that a name in the user's mode map stands for: `magic` and
/// `overlay` for themselves, anything else for `auto`.
pub open spec fn mode_named(name: Seq<char>) -> MountMode {
    if name == "magic"@ {
        MountMode::Magic
    } else if name == "overlay"@ {
        MountMode::Overlay
    } else {
        MountMode::Auto
    }
}

/// The mode that `name` stands for.
pub fn mode_from_name(name: &str) -> (r: MountMode)
    ensures
        r == mode_named(name@),
{
    if str_eq(name, "magic") {
        MountMode::Magic
    } else if str_eq(name, "overlay") {
        MountMode::Overlay
    } else {
        MountMode::Auto
    }
}

/// One line of the user's mode map: the mode asked for a module.
#[derive(Clone, Debug, PartialEq, Eq)]
pub struct ModeEntry {
    pub id: String,
    pub mode: MountMode,
}

/// A file that more than one module provides.
#[derive(Clone, Debug, PartialEq, Eq)]
pub struct FileConflict {
    /// The file's path, relative to the module root: partition first.
    pub path: String,
    /// The identifiers of the modules that provide it, ascending.
    pub modules: Vec<String>,
}

/// One overlay mount: the partition and the module directories laid over it,
/// the topmost first.
#[derive(Clone, Debug, PartialEq, Eq)]
pub struct OverlayOperation {
    pub target: String,
    pub layers: Vec<String>,
}

/// An overlay mount as plain values.
pub struct OverlayOperationView {
    pub target: Seq<char>,
    pub layers: Seq<Seq<char>>,
}

impl View for OverlayOperation {
    type V = OverlayOperationView;

    open spec fn view(&self) -> OverlayOperationView {
        OverlayOperationView { target: self.target@, layers: views(self.layers@) }
    }
}

/// What the planner decided.
#[derive(Clone, Debug, PartialEq, Eq)]
pub struct MountPlan {
    /// The overlay mounts, in the order of the partitions, `/system` first.
    pub overlay_ops: Vec<OverlayOperation>,
    /// The directories of the modules left to magic mount, by identifier,
    /// descending.
    pub magic_module_paths: Vec<String>,
    /// The files that more than one module provides, by path, ascending.
    pub conflicts: Vec<FileConflict>,
    /// The identifiers of the modules that are a layer of some partition,
    /// ascending.
    pub overlay_module_ids: Vec<String>,
    /// The identifiers of the modules left to magic mount, ascending.
    pub magic_module_ids: Vec<String>,
}

/// Names under the storage root that are never modules.
pub open spec fn is_reserved(id: Seq<char>) -> bool {
    id == "lost+found"@ || id == "meta-hybrid"@
}

/// Whether `id` names something under the storage root that is no module.
pub fn is_reserved_id(id: &str) -> (r: bool)
    ensures
        r == is_reserved(id@),
{
    str_eq(id, "lost+found") || str_eq(id, "meta-hybrid")
}

/// `base` followed by those of `extra` that it does not hold yet, each once.
pub open spec fn merge_names(base: Seq<Seq<char>>, extra: Seq<Seq<char>>) -> Seq<Seq<char>>
    decreases extra.len(),
{
    if extra.len() == 0 {
        base
    } else {
        let merged = merge_names(base, extra.drop_last());
        if merged.contains(extra.last()) {
            merged
        } else {
            merged.push(extra.last())
        }
    }
}

/// The partitions a plan looks at: the built-in ones, then the user's.
pub open spec fn all_partitions(extra: Seq<Seq<char>>) -> Seq<Seq<char>> {
    merge_names(builtin_partitions(), extra)
}

/// `base` followed by those of `extra` that it does not hold yet, each once.
pub fn merge_name_list(base: Vec<String>, extra: &Vec<String>) -> (r: Vec<String>)
    ensures
        views(r@) == merge_names(views(base@), views(extra@)),
{
    let ghost start = views(base@);
    let mut r = base;
    let mut i: usize = 0;
    proof {
        assert(views(extra@).take(0) =~= Seq::<Seq<char>>::empty());
    }
    while i < extra.len()
        invariant
            i <= extra.len(),
            views(r@) == merge_names(start, views(extra@).take(i as int)),
        decreases extra.len() - i,
    {
        proof {
            assert(views(extra@).take(i as int + 1).drop_last() =~= views(extra@).take(i as int));
            assert(views(extra@).take(i as int + 1).last() == extra@[i as int]@);
        }
        if !contains_str(&r, extra[i].as_str()) {
            let ghost before = r@;
            r.push(extra[i].clone());
            proof {
                assert(views(r@) =~= views(before).push(extra@[i as int]@));
            }
        }
        i = i + 1;
    }
    proof {
        assert(views(extra@).take(i as int) =~= views(extra@));
    }
    r
}

/// The built-in partitions followed by the user's, none twice.
pub fn merged_partitions(extra: &Vec<String>) -> (r: Vec<String>)
    ensures
        views(r@) == all_partitions(views(extra@)),
{
    merge_name_list(builtin_partition_names(), extra)
}

/// The regular files beneath a directory, each by its path from `rel`, the
/// path of the directory itself.
pub open spec fn files_in(children: Seq<FsEntry>, rel: Seq<char>) -> Seq<Seq<char>>
    decreases children, 0nat,
{
    if children.len() == 0 {
        Seq::<Seq<char>>::empty()
    } else {
        files_in(children.drop_last(), rel) + files_of(children.last(), rel)
    }
}

/// The regular files that one entry of the directory `rel` stands for: itself,
/// or those beneath it.
pub open spec fn files_of(e: FsEntry, rel: Seq<char>) -> Seq<Seq<char>>
    decreases e, 1nat,
{
    let path = join(rel, e.name@);
    if e.is_dir {
        files_in(e.children@, path)
    } else if e.kind == FileKind::File {
        seq![path]
    } else {
        Seq::<Seq<char>>::empty()
    }
}

/// The regular files beneath the subdirectories named `part`.
pub open spec fn partition_files(children: Seq<FsEntry>, part: Seq<char>) -> Seq<Seq<char>>
    decreases children.len(),
{
    if children.len() == 0 {
        Seq::<Seq<char>>::empty()
    } else {
        let rest = partition_files(children.drop_last(), part);
        let e = children.last();
        if e.is_dir && e.name@ == part {
            rest + files_in(e.children@, part)
        } else {
            rest
        }
    }
}

/// The regular files a module provides under the given partitions.
pub open spec fn module_file_paths(m: ModuleInfo, parts: Seq<Seq<char>>) -> Seq<Seq<char>>
    decreases parts.len(),
{
    if parts.len() == 0 {
        Seq::<Seq<char>>::empty()
    } else {
        module_file_paths(m, parts.drop_last()) + partition_files(
            m.tree.children@,
            parts.last(),
        )
    }
}

/// Adds to `files` the path of every regular file beneath `dir`, whose own
/// path is `relative`.
pub fn walk_and_map(dir: &FsEntry, relative: &str, files: &mut Vec<String>)
    ensures
        views(final(files)@) == views(old(files)@) + files_in(dir.children@, relative@),
    decreases dir,
{
    let mut i: usize = 0;
    proof {
        assert(dir.children@.take(0) =~= Seq::<FsEntry>::empty());
        assert(views(files@) =~= views(old(files)@) + Seq::<Seq<char>>::empty());
    }
    while i < dir.children.len()
        invariant
            i <= dir.children.len(),
            views(files@) == views(old(files)@) + files_in(
                dir.children@.take(i as int),
                relative@,
            ),
        decreases dir.children.len() - i,
    {
        let entry = &dir.children[i];
        let path = path_join(relative, entry.name.as_str());
        let ghost before = files@;
        proof {
            let next = dir.children@.take(i as int + 1);
            assert(next.drop_last() =~= dir.children@.take(i as int));
            assert(next.last() == *entry);
            assert(files_in(next, relative@) == files_in(next.drop_last(), relative@) + files_of(
                *entry,
                relative@,
            ));
            assert(files_of(*entry, relative@) == if entry.is_dir {
                files_in(entry.children@, path@)
            } else if entry.kind == FileKind::File {
                seq![path@]
            } else {
                Seq::<Seq<char>>::empty()
            });
        }
        if entry.is_dir {
            walk_and_map(entry, path.as_str(), files);
        } else if entry.kind == FileKind::File {
            files.push(path);
            proof {
                assert(views(files@) =~= views(before) + seq![path@]);
            }
        } else {
            proof {
                assert(views(files@) =~= views(before) + Seq::<Seq<char>>::empty());
            }
        }
        proof {
            assert(views(files@) =~= views(old(files)@) + files_in(
                dir.children@.take(i as int + 1),
                relative@,
            ));
        }
        i = i + 1;
    }
    proof {
        assert(dir.children@.take(i as int) =~= dir.children@);
    }
}

/// The regular files that `m` provides under the given partitions.
pub fn module_files(m: &ModuleInfo, parts: &Vec<String>) -> (files: Vec<String>)
    ensures
        views(files@) == module_file_paths(*m, views(parts@)),
{
    let mut files: Vec<String> = Vec::new();
    let mut k: usize = 0;
    proof {
        assert(views(parts@).take(0) =~= Seq::<Seq<char>>::empty());
        assert(views(files@) =~= Seq::<Seq<char>>::empty());
    }
    while k < parts.len()
        invariant
            k <= parts.len(),
            views(files@) == module_file_paths(*m, views(parts@).take(k as int)),
        decreases parts.len() - k,
    {
        let part = parts[k].as_str();
        let ghost start = files@;
        let mut i: usize = 0;
        proof {
            assert(m.tree.children@.take(0) =~= Seq::<FsEntry>::empty());
            assert(views(files@) =~= views(start) + Seq::<Seq<char>>::empty());
        }
        while i < m.tree.children.len()
            invariant
                i <= m.tree.children.len(),
                part@ == parts@[k as int]@,
                views(files@) == views(start) + partition_files(
                    m.tree.children@.take(i as int),
                    part@,
                ),
            decreases m.tree.children.len() - i,
        {
            let entry = &m.tree.children[i];
            proof {
                assert(m.tree.children@.take(i as int + 1).drop_last() =~= m.tree.children@.take(
                    i as int,
                ));
                assert(m.tree.children@.take(i as int + 1).last() == *entry);
            }
            if entry.is_dir && str_eq(entry.name.as_str(), part) {
                walk_and_map(entry, part, &mut files);
            }
            proof {
                assert(views(files@) =~= views(start) + partition_files(
                    m.tree.children@.take(i as int + 1),
                    part@,
                ));
            }
            i = i + 1;
        }
        proof {
            assert(m.tree.children@.take(i as int) =~= m.tree.children@);
            assert(views(parts@).take(k as int + 1).drop_last() =~= views(parts@).take(k as int));
            assert(views(parts@).take(k as int + 1).last() == part@);
        }
        k = k + 1;
    }
    proof {
        assert(views(parts@).take(k as int) =~= views(parts@));
    }
    files
}

/// The identifiers of the modules, in the given order, that provide the file
/// `path` under one of the partitions.
pub open spec fn contributors(mods: Seq<ModuleInfo>, parts: Seq<Seq<char>>, path: Seq<char>) -> Seq<
    String,
>
    decreases mods.len(),
{
    if mods.len() == 0 {
        Seq::<String>::empty()
    } else {
        let rest = contributors(mods.drop_last(), parts, path);
        if module_file_paths(mods.last(), parts).contains(path) {
            rest.push(mods.last().id)
        } else {
            rest
        }
    }
}

/// Every file that any of the modules provides, module by module.
pub open spec fn all_files(mods: Seq<ModuleInfo>, parts: Seq<Seq<char>>) -> Seq<Seq<char>>
    decreases mods.len(),
{
    if mods.len() == 0 {
        Seq::<Seq<char>>::empty()
    } else {
        all_files(mods.drop_last(), parts) + module_file_paths(mods.last(), parts)
    }
}

/// `out` is the list of conflicts among `mods`: one entry for each file that
/// two or more modules provide and for no other, in ascending order of the
/// paths, each with the identifiers of its providers in ascending order.
pub open spec fn conflicts_of(
    out: Seq<FileConflict>,
    mods: Seq<ModuleInfo>,
    parts: Seq<Seq<char>>,
) -> bool {
    &&& forall|i: int, j: int|
        0 <= i < j < out.len() ==> str_lt((#[trigger] out[i]).path@, (#[trigger] out[j]).path@)
    &&& forall|i: int|
        0 <= i < out.len() ==> {
            &&& contributors(mods, parts, (#[trigger] out[i]).path@).len() >= 2
            &&& out[i].modules@ == sorted_by_key(contributors(mods, parts, out[i].path@), false)
        }
    &&& forall|path: Seq<char>|
        (#[trigger] contributors(mods, parts, path)).len() >= 2 ==> exists|i: int|
            0 <= i < out.len() && (#[trigger] out[i]).path@ == path
}

/// A file that some module provides is among the files of all modules.
proof fn lemma_contributed_file_is_listed(
    mods: Seq<ModuleInfo>,
    parts: Seq<Seq<char>>,
    path: Seq<char>,
)
    requires
        contributors(mods, parts, path).len() > 0,
    ensures
        all_files(mods, parts).contains(path),
    decreases mods.len(),
{
    if mods.len() > 0 {
        let own = module_file_paths(mods.last(), parts);
        let before = all_files(mods.drop_last(), parts);
        if own.contains(path) {
            let k = choose|k: int| 0 <= k < own.len() && own[k] == path;
            assert((before + own)[before.len() + k] == path);
        } else {
            lemma_contributed_file_is_listed(mods.drop_last(), parts, path);
            let k = choose|k: int| 0 <= k < before.len() && before[k] == path;
            assert((before + own)[k] == path);
        }
    }
}

/// Adds a copy of each string of `src` to `dst`.
fn append_clones(dst: &mut Vec<String>, src: &Vec<String>)
    ensures
        views(final(dst)@) == views(old(dst)@) + views(src@),
{
    let mut i: usize = 0;
    proof {
        assert(views(dst@) =~= views(old(dst)@) + views(src@).take(0));
    }
    while i < src.len()
        invariant
            i <= src.len(),
            views(dst@) == views(old(dst)@) + views(src@).take(i as int),
        decreases src.len() - i,
    {
        let ghost before = dst@;
        dst.push(src[i].clone());
        proof {
            assert(views(dst@) =~= views(before).push(src@[i as int]@));
            assert(views(src@).take(i as int + 1) =~= views(src@).take(i as int).push(
                src@[i as int]@,
            ));
            assert(views(dst@) =~= views(old(dst)@) + views(src@).take(i as int + 1));
        }
        i = i + 1;
    }
    proof {
        assert(views(src@).take(i as int) =~= views(src@));
    }
}

/// The identifiers of the modules that provide `path`, where `files` holds
/// the files of each module.
fn contributors_of(
    mods: &Vec<ModuleInfo>,
    files: &Vec<Vec<String>>,
    path: &str,
    Ghost(parts): Ghost<Seq<Seq<char>>>,
) -> (ids: Vec<String>)
    requires
        files@.len() == mods@.len(),
        forall|j: int|
            0 <= j < mods@.len() ==> views((#[trigger] files@[j])@) == module_file_paths(
                mods@[j],
                parts,
            ),
    ensures
        ids@ == contributors(mods@, parts, path@),
{
    let mut ids: Vec<String> = Vec::new();
    let mut i: usize = 0;
    proof {
        assert(mods@.take(0) =~= Seq::<ModuleInfo>::empty());
    }
    while i < mods.len()
        invariant
            i <= mods.len(),
            files@.len() == mods@.len(),
            forall|j: int|
                0 <= j < mods@.len() ==> views((#[trigger] files@[j])@) == module_file_paths(
                    mods@[j],
                    parts,
                ),
            ids@ == contributors(mods@.take(i as int), parts, path@),
        decreases mods.len() - i,
    {
        proof {
            assert(mods@.take(i as int + 1).drop_last() =~= mods@.take(i as int));
            assert(mods@.take(i as int + 1).last() == mods@[i as int]);
        }
        if contains_str(&files[i], path) {
            ids.push(mods[i].id.clone());
        }
        i = i + 1;
    }
    proof {
        assert(mods@.take(i as int) =~= mods@);
    }
    ids
}

/// Finds the files that more than one of the modules provides under the
/// built-in partitions or those of `partitions`.
pub fn detect_conflicts(sorted_modules: &Vec<ModuleInfo>, partitions: &Vec<String>) -> (conflicts:
    Vec<FileConflict>)
    ensures
        conflicts_of(conflicts@, sorted_modules@, all_partitions(views(partitions@))),
{
    let parts = merged_partitions(partitions);
    let ghost pv = views(parts@);
    let ghost mods = sorted_modules@;
    let mut files: Vec<Vec<String>> = Vec::new();
    let mut keys: Vec<String> = Vec::new();
    let mut m: usize = 0;
    proof {
        assert(mods.take(0) =~= Seq::<ModuleInfo>::empty());
        assert(views(keys@) =~= Seq::<Seq<char>>::empty());
    }
    while m < sorted_modules.len()
        invariant
            m <= sorted_modules.len(),
            mods == sorted_modules@,
            pv == views(parts@),
            files@.len() == m,
            forall|j: int|
                0 <= j < m ==> views((#[trigger] files@[j])@) == module_file_paths(mods[j], pv),
            views(keys@) == all_files(mods.take(m as int), pv),
        decreases sorted_modules.len() - m,
    {
        let own = module_files(&sorted_modules[m], &parts);
        append_clones(&mut keys, &own);
        files.push(own);
        proof {
            assert(mods.take(m as int + 1).drop_last() =~= mods.take(m as int));
            assert(mods.take(m as int + 1).last() == mods[m as int]);
        }
        m = m + 1;
    }
    proof {
        assert(mods.take(m as int) =~= mods);
    }
    let ghost listed = keys@;
    let sorted = sort_by_key(keys, false);
    proof {
        lemma_sorted_by_key(listed, false);
    }
    let mut conflicts: Vec<FileConflict> = Vec::new();
    let mut i: usize = 0;
    while i < sorted.len()
        invariant
            i <= sorted.len(),
            mods == sorted_modules@,
            files@.len() == mods.len(),
            forall|j: int|
                0 <= j < mods.len() ==> views((#[trigger] files@[j])@) == module_file_paths(
                    mods[j],
                    pv,
                ),
            is_sorted(sorted@, false),
            forall|a: int, b: int|
                0 <= a < b < conflicts@.len() ==> str_lt(
                    (#[trigger] conflicts@[a]).path@,
                    (#[trigger] conflicts@[b]).path@,
                ),
            forall|a: int|
                0 <= a < conflicts@.len() ==> {
                    &&& contributors(mods, pv, (#[trigger] conflicts@[a]).path@).len() >= 2
                    &&& conflicts@[a].modules@ == sorted_by_key(
                        contributors(mods, pv, conflicts@[a].path@),
                        false,
                    )
                    &&& i > 0
                    &&& str_le(conflicts@[a].path@, sorted@[i - 1]@)
                },
            forall|k: int|
                0 <= k < i && contributors(mods, pv, (#[trigger] sorted@[k])@).len() >= 2
                    ==> exists|a: int|
                    0 <= a < conflicts@.len() && (#[trigger] conflicts@[a]).path@ == sorted@[k]@,
        decreases sorted.len() - i,
    {
        let key = sorted[i].as_str();
        let repeated = i > 0 && str_eq(sorted[i - 1].as_str(), key);
        let ghost before = conflicts@;
        proof {
            if i > 0 {
                assert(!str_lt(sorted@[i as int].key(), sorted@[i as int - 1].key()));
                lemma_str_order(sorted@[i as int - 1]@, key@, key@);
                assert forall|a: int| 0 <= a < before.len() implies str_le(
                    (#[trigger] before[a]).path@,
                    key@,
                ) by {
                    lemma_str_order(before[a].path@, sorted@[i as int - 1]@, key@);
                }
            }
        }
        if !repeated {
            let ids = contributors_of(sorted_modules, &files, key, Ghost(pv));
            if ids.len() >= 2 {
                let modules = sort_by_key(ids, false);
                conflicts.push(FileConflict { path: sorted[i].clone(), modules });
                proof {
                    assert forall|a: int, b: int| 0 <= a < b < conflicts@.len() implies str_lt(
                        (#[trigger] conflicts@[a]).path@,
                        (#[trigger] conflicts@[b]).path@,
                    ) by {
                        if b == before.len() {
                            assert(conflicts@[a] == before[a]);
                            lemma_str_order(before[a].path@, sorted@[i as int - 1]@, key@);
                        } else {
                            assert(conflicts@[a] == before[a] && conflicts@[b] == before[b]);
                        }
                    }
                    assert(conflicts@[before.len() as int].path@ == key@);
                }
            }
        }
        proof {
            assert forall|k: int|
                0 <= k < i + 1 && contributors(mods, pv, (#[trigger] sorted@[k])@).len()
                    >= 2 implies exists|a: int|
                0 <= a < conflicts@.len() && (#[trigger] conflicts@[a]).path@ == sorted@[k]@ by {
                let a = if k < i {
                    choose|a: int| 0 <= a < before.len() && (#[trigger] before[a]).path@ == sorted@[k]@
                } else if repeated {
                    choose|a: int|
                        0 <= a < before.len() && (#[trigger] before[a]).path@ == sorted@[i as int
                            - 1]@
                } else {
                    before.len() as int
                };
                assert(0 <= a < conflicts@.len() && conflicts@[a].path@ == sorted@[k]@);
            }
            assert forall|a: int| 0 <= a < conflicts@.len() implies str_le(
                (#[trigger] conflicts@[a]).path@,
                sorted@[i as int]@,
            ) by {
                if a < before.len() {
                    assert(conflicts@[a] == before[a]);
                }
            }
        }
        i = i + 1;
    }
    proof {
        broadcast use vstd::seq_lib::group_to_multiset_ensures;

        assert forall|path: Seq<char>|
            (#[trigger] contributors(mods, pv, path)).len() >= 2 implies exists|a: int|
            0 <= a < conflicts@.len() && (#[trigger] conflicts@[a]).path@ == path by {
            lemma_contributed_file_is_listed(mods, pv, path);
            let k = choose|k: int| 0 <= k < views(listed).len() && views(listed)[k] == path;
            assert(listed.contains(listed[k]));
            assert(sorted@.to_multiset().count(listed[k]) > 0);
            assert(sorted@.contains(listed[k]));
            let k2 = choose|k2: int| 0 <= k2 < sorted@.len() && sorted@[k2] == listed[k];
            assert(sorted@[k2]@ == path);
        }
    }
    conflicts
}

/// The modules that are left once the reserved names are taken out, in the
/// given order.
pub open spec fn active_modules(mods: Seq<ModuleInfo>) -> Seq<ModuleInfo>
    decreases mods.len(),
{
    if mods.len() == 0 {
        Seq::<ModuleInfo>::empty()
    } else {
        let rest = active_modules(mods.drop_last());
        if is_reserved(mods.last().id@) {
            rest
        } else {
            rest.push(mods.last())
        }
    }
}

/// The order in which a plan goes through the modules: the active ones by
/// identifier, descending.
pub open spec fn plan_order(mods: Seq<ModuleInfo>) -> Seq<ModuleInfo> {
    sorted_by_key(active_modules(mods), true)
}

/// The mode a module's own marker files ask for.
pub open spec fn marker_mode(m: ModuleInfo) -> MountMode {
    if m.magic_mount {
        MountMode::Magic
    } else if m.overlayfs {
        MountMode::Overlay
    } else {
        MountMode::Auto
    }
}

/// The mode of a module: what the first line of the mode map for its
/// identifier says, and what its marker files ask for where there is none.
pub open spec fn mode_of(modes: Seq<ModeEntry>, m: ModuleInfo) -> MountMode
    decreases modes.len(),
{
    if modes.len() == 0 {
        marker_mode(m)
    } else if modes[0].id@ == m.id@ {
        modes[0].mode
    } else {
        mode_of(modes.drop_first(), m)
    }
}

/// Whether the module is laid over the partition: it is not left to magic
/// mount and has a directory for the partition.
pub open spec fn is_layer(m: ModuleInfo, modes: Seq<ModeEntry>, part: Seq<char>) -> bool {
    mode_of(modes, m) != MountMode::Magic && has_dir(m.tree.children@, part)
}

/// The modules that are laid over the partition, in the given order.
pub open spec fn contributing(
    order: Seq<ModuleInfo>,
    modes: Seq<ModeEntry>,
    part: Seq<char>,
) -> Seq<ModuleInfo>
    decreases order.len(),
{
    if order.len() == 0 {
        Seq::<ModuleInfo>::empty()
    } else {
        let rest = contributing(order.drop_last(), modes, part);
        if is_layer(order.last(), modes, part) {
            rest.push(order.last())
        } else {
            rest
        }
    }
}

/// The directories of the modules, in their order.
pub open spec fn module_paths(mods: Seq<ModuleInfo>) -> Seq<Seq<char>> {
    mods.map_values(|m: ModuleInfo| m.path@)
}

/// The identifiers of the modules, in their order.
pub open spec fn module_ids(mods: Seq<ModuleInfo>) -> Seq<String> {
    mods.map_values(|m: ModuleInfo| m.id)
}

/// Where the overlay of a partition is mounted.
pub open spec fn overlay_target(part: Seq<char>) -> Seq<char> {
    seq!['/'] + part
}

/// One overlay mount for each partition that has a layer, in the order of
/// the partitions.
pub open spec fn overlay_ops_of(
    order: Seq<ModuleInfo>,
    modes: Seq<ModeEntry>,
    parts: Seq<Seq<char>>,
) -> Seq<OverlayOperationView>
    decreases parts.len(),
{
    if parts.len() == 0 {
        Seq::<OverlayOperationView>::empty()
    } else {
        let rest = overlay_ops_of(order, modes, parts.drop_last());
        let layers = module_paths(contributing(order, modes, parts.last()));
        if layers.len() == 0 {
            rest
        } else {
            rest.push(OverlayOperationView { target: overlay_target(parts.last()), layers })
        }
    }
}

/// The modules that are left to magic mount, in the given order.
pub open spec fn magic_modules(order: Seq<ModuleInfo>, modes: Seq<ModeEntry>) -> Seq<ModuleInfo>
    decreases order.len(),
{
    if order.len() == 0 {
        Seq::<ModuleInfo>::empty()
    } else {
        let rest = magic_modules(order.drop_last(), modes);
        if mode_of(modes, order.last()) == MountMode::Magic {
            rest.push(order.last())
        } else {
            rest
        }
    }
}

/// Whether the module has a directory for one of the partitions.
pub open spec fn touches_any(m: ModuleInfo, parts: Seq<Seq<char>>) -> bool {
    has_any_dir(m.tree.children@, parts)
}

/// The modules that are a layer of some partition, in the given order.
pub open spec fn overlay_modules(
    order: Seq<ModuleInfo>,
    modes: Seq<ModeEntry>,
    parts: Seq<Seq<char>>,
) -> Seq<ModuleInfo>
    decreases order.len(),
{
    if order.len() == 0 {
        Seq::<ModuleInfo>::empty()
    } else {
        let rest = overlay_modules(order.drop_last(), modes, parts);
        if mode_of(modes, order.last()) != MountMode::Magic && touches_any(order.last(), parts) {
            rest.push(order.last())
        } else {
            rest
        }
    }
}

/// The views of the overlay mounts.
pub open spec fn op_views(ops: Seq<OverlayOperation>) -> Seq<OverlayOperationView> {
    ops.map_values(|o: OverlayOperation| o@)
}

/// The mode in which a module is to be mounted.
pub fn mode_for(modes: &Vec<ModeEntry>, m: &ModuleInfo) -> (r: MountMode)
    ensures
        r == mode_of(modes@, *m),
{
    let mut i: usize = 0;
    proof {
        assert(modes@.skip(0) =~= modes@);
    }
    while i < modes.len()
        invariant
            i <= modes.len(),
            mode_of(modes@, *m) == mode_of(modes@.skip(i as int), *m),
        decreases modes.len() - i,
    {
        proof {
            assert(modes@.skip(i as int).drop_first() =~= modes@.skip(i as int + 1));
        }
        if str_eq(modes[i].id.as_str(), m.id.as_str()) {
            return modes[i].mode;
        }
        i = i + 1;
    }
    if m.magic_mount {
        MountMode::Magic
    } else if m.overlayfs {
        MountMode::Overlay
    } else {
        MountMode::Auto
    }
}

/// Takes the reserved names out of the modules.
pub fn keep_active(modules: Vec<ModuleInfo>) -> (active: Vec<ModuleInfo>)
    ensures
        active@ == active_modules(modules@),
{
    let ghost orig = modules@;
    let mut modules = modules;
    let mut reversed: Vec<ModuleInfo> = Vec::new();
    while modules.len() > 0
        invariant
            modules@.len() + reversed@.len() == orig.len(),
            modules@ == orig.take(modules@.len() as int),
            forall|j: int|
                0 <= j < reversed@.len() ==> (#[trigger] reversed@[j]) == orig[orig.len() - 1 - j],
        decreases modules.len(),
    {
        let m = modules.pop().unwrap();
        reversed.push(m);
    }
    let mut active: Vec<ModuleInfo> = Vec::new();
    proof {
        assert(orig.take(0) =~= Seq::<ModuleInfo>::empty());
    }
    while reversed.len() > 0
        invariant
            reversed@.len() <= orig.len(),
            forall|j: int|
                0 <= j < reversed@.len() ==> (#[trigger] reversed@[j]) == orig[orig.len() - 1 - j],
            active@ == active_modules(orig.take(orig.len() - reversed@.len())),
        decreases reversed.len(),
    {
        let ghost k = orig.len() - reversed@.len();
        let m = reversed.pop().unwrap();
        proof {
            assert(m == orig[k]);
            assert(orig.take(k + 1).drop_last() =~= orig.take(k));
            assert(orig.take(k + 1).last() == m);
        }
        if !is_reserved_id(m.id.as_str()) {
            active.push(m);
        }
    }
    proof {
        assert(orig.take(orig.len() as int) =~= orig);
    }
    active
}

/// The directories of the modules that are laid over the partition, in the
/// order of `order`.
pub fn layers_for(order: &Vec<ModuleInfo>, modes: &Vec<ModeEntry>, part: &str) -> (layers: Vec<
    String,
>)
    ensures
        views(layers@) == module_paths(contributing(order@, modes@, part@)),
{
    let mut layers: Vec<String> = Vec::new();
    let mut i: usize = 0;
    proof {
        assert(order@.take(0) =~= Seq::<ModuleInfo>::empty());
        assert(views(layers@) =~= module_paths(Seq::<ModuleInfo>::empty()));
    }
    while i < order.len()
        invariant
            i <= order.len(),
            views(layers@) == module_paths(contributing(order@.take(i as int), modes@, part@)),
        decreases order.len() - i,
    {
        let m = &order[i];
        let ghost before = layers@;
        let ghost so_far = contributing(order@.take(i as int), modes@, part@);
        proof {
            assert(order@.take(i as int + 1).drop_last() =~= order@.take(i as int));
            assert(order@.take(i as int + 1).last() == *m);
        }
        let magic = mode_for(modes, m) == MountMode::Magic;
        if !magic && m.tree.contains_dir(part) {
            layers.push(m.path.clone());
            proof {
                assert(views(layers@) =~= views(before).push(m.path@));
                assert(module_paths(so_far.push(*m)) =~= module_paths(so_far).push(m.path@));
            }
        }
        i = i + 1;
    }
    proof {
        assert(order@.take(i as int) =~= order@);
    }
    layers
}

/// Whether the module has a directory for one of the partitions.
pub fn touches_partition(m: &ModuleInfo, parts: &Vec<String>) -> (r: bool)
    ensures
        r == touches_any(*m, views(parts@)),
{
    m.tree.contains_any_dir(parts)
}

/// Those of the partitions that the module has a directory for, in their
/// order.
pub open spec fn touched(m: ModuleInfo, parts: Seq<Seq<char>>) -> Seq<Seq<char>>
    decreases parts.len(),
{
    if parts.len() == 0 {
        Seq::<Seq<char>>::empty()
    } else {
        let rest = touched(m, parts.drop_last());
        if has_dir(m.tree.children@, parts.last()) {
            rest.push(parts.last())
        } else {
            rest
        }
    }
}

/// The partitions that the module touches: those of `parts` that it has a
/// directory for.
pub fn touched_partitions(m: &ModuleInfo, parts: &Vec<String>) -> (r: Vec<String>)
    ensures
        views(r@) == touched(*m, views(parts@)),
{
    let ghost pv = views(parts@);
    let mut r: Vec<String> = Vec::new();
    let mut k: usize = 0;
    proof {
        assert(pv.take(0) =~= Seq::<Seq<char>>::empty());
        assert(views(r@) =~= Seq::<Seq<char>>::empty());
    }
    while k < parts.len()
        invariant
            k <= parts.len(),
            pv == views(parts@),
            views(r@) == touched(*m, pv.take(k as int)),
        decreases parts.len() - k,
    {
        proof {
            assert(pv.take(k as int + 1).drop_last() =~= pv.take(k as int));
            assert(pv.take(k as int + 1).last() == parts@[k as int]@);
        }
        if m.tree.contains_dir(parts[k].as_str()) {
            let ghost before = r@;
            r.push(parts[k].clone());
            proof {
                assert(views(r@) =~= views(before).push(parts@[k as int]@));
            }
        }
        k = k + 1;
    }
    proof {
        assert(pv.take(k as int) =~= pv);
    }
    r
}

/// Plans the mount of the given modules: orders them, lays those that are
/// not left to magic mount over each partition they have a directory for,
/// lists the others, and reports the files that several modules provide.
pub fn generate(config: &ConfigData, modules: Vec<ModuleInfo>, modes: &Vec<ModeEntry>) -> (plan:
    MountPlan)
    ensures
        op_views(plan.overlay_ops@) == overlay_ops_of(
            plan_order(modules@),
            modes@,
            all_partitions(views(config.partitions@)),
        ),
        views(plan.magic_module_paths@) == module_paths(
            magic_modules(plan_order(modules@), modes@),
        ),
        conflicts_of(
            plan.conflicts@,
            plan_order(modules@),
            all_partitions(views(config.partitions@)),
        ),
        plan.overlay_module_ids@ == sorted_by_key(
            module_ids(
                overlay_modules(
                    plan_order(modules@),
                    modes@,
                    all_partitions(views(config.partitions@)),
                ),
            ),
            false,
        ),
        plan.magic_module_ids@ == sorted_by_key(
            module_ids(magic_modules(plan_order(modules@), modes@)),
            false,
        ),
{
    let active = keep_active(modules);
    let order = sort_by_key(active, true);
    let parts = merged_partitions(&config.partitions);
    let ghost pv = views(parts@);

    let mut overlay_ops: Vec<OverlayOperation> = Vec::new();
    let mut k: usize = 0;
    proof {
        assert(pv.take(0) =~= Seq::<Seq<char>>::empty());
        assert(op_views(overlay_ops@) =~= Seq::<OverlayOperationView>::empty());
    }
    while k < parts.len()
        invariant
            k <= parts.len(),
            pv == views(parts@),
            op_views(overlay_ops@) == overlay_ops_of(order@, modes@, pv.take(k as int)),
        decreases parts.len() - k,
    {
        let part = parts[k].as_str();
        let layers = layers_for(&order, modes, part);
        let ghost before = overlay_ops@;
        proof {
            assert(pv.take(k as int + 1).drop_last() =~= pv.take(k as int));
            assert(pv.take(k as int + 1).last() == part@);
        }
        if layers.len() > 0 {
            proof {
                reveal_strlit("/");
                assert("/"@ =~= seq!['/']);
            }
            let mut target = "/".to_string();
            target.append(part);
            let op = OverlayOperation { target, layers };
            overlay_ops.push(op);
            proof {
                assert(op_views(overlay_ops@) =~= op_views(before).push(op@));
            }
        }
        k = k + 1;
    }
    proof {
        assert(pv.take(k as int) =~= pv);
    }

    let mut magic_module_paths: Vec<String> = Vec::new();
    let mut magic_ids: Vec<String> = Vec::new();
    let mut overlay_ids: Vec<String> = Vec::new();
    let mut i: usize = 0;
    proof {
        assert(order@.take(0) =~= Seq::<ModuleInfo>::empty());
        assert(views(magic_module_paths@) =~= module_paths(Seq::<ModuleInfo>::empty()));
        assert(magic_ids@ =~= module_ids(Seq::<ModuleInfo>::empty()));
        assert(overlay_ids@ =~= module_ids(Seq::<ModuleInfo>::empty()));
    }
    while i < order.len()
        invariant
            i <= order.len(),
            pv == views(parts@),
            views(magic_module_paths@) == module_paths(
                magic_modules(order@.take(i as int), modes@),
            ),
            magic_ids@ == module_ids(magic_modules(order@.take(i as int), modes@)),
            overlay_ids@ == module_ids(overlay_modules(order@.take(i as int), modes@, pv)),
        decreases order.len() - i,
    {
        let m = &order[i];
        let ghost paths_before = magic_module_paths@;
        let ghost magic_so_far = magic_modules(order@.take(i as int), modes@);
        let ghost overlay_so_far = overlay_modules(order@.take(i as int), modes@, pv);
        proof {
            assert(order@.take(i as int + 1).drop_last() =~= order@.take(i as int));
            assert(order@.take(i as int + 1).last() == *m);
        }
        if mode_for(modes, m) == MountMode::Magic {
            magic_module_paths.push(m.path.clone());
            magic_ids.push(m.id.clone());
            proof {
                assert(views(magic_module_paths@) =~= views(paths_before).push(m.path@));
                assert(module_paths(magic_so_far.push(*m)) =~= module_paths(magic_so_far).push(
                    m.path@,
                ));
                assert(module_ids(magic_so_far.push(*m)) =~= module_ids(magic_so_far).push(m.id));
            }
        } else if touches_partition(m, &parts) {
            overlay_ids.push(m.id.clone());
            proof {
                assert(module_ids(overlay_so_far.push(*m)) =~= module_ids(overlay_so_far).push(
                    m.id,
                ));
            }
        }
        i = i + 1;
    }
    proof {
        assert(order@.take(i as int) =~= order@);
    }

    let conflicts = detect_conflicts(&order, &config.partitions);
    MountPlan {
        overlay_ops,
        magic_module_paths,
        conflicts,
        overlay_module_ids: sort_by_key(overlay_ids, false),
        magic_module_ids: sort_by_key(magic_ids, false),
    }
}

} // verus!
