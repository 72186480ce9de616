//! Discovery of modules: which children of the module directory take part in
//! a mount, and what their marker files ask for.

use vstd::prelude::*;
use crate::defs::{
    disable_file_name, magic_mount_file_name, overlayfs_file_name, remove_file_name,
    skip_mount_file_name,
};
use crate::fstree::{has_any_dir, has_entry, FsEntry};
use crate::order::Keyed;
use crate::paths::{clone_strings, join, path_join};
use crate::props::{is_valid_id, validate_module_id};
use crate::text::views;

verus! {

/// One module that takes part in a mount.
#[derive(Debug, PartialEq, Eq)]
pub struct ModuleInfo {
    /// The module's identifier: the name of its directory.
    pub id: String,
    /// The absolute path of its directory.
    pub path: String,
    /// Whether the module asks for magic mount by a marker file.
    pub magic_mount: bool,
    /// Whether the module asks for an overlay mount by a marker file.
    pub overlayfs: bool,
    /// What the module's directory holds.
    pub tree: FsEntry,
}

impl Keyed for ModuleInfo {
    open spec fn key(&self) -> Seq<char> {
        self.id@
    }

    fn key_str(&self) -> (r: &str) {
        self.id.as_str()
    }
}

/// The modules that a scan found.
#[derive(Debug, PartialEq, Eq)]
pub struct ModuleConfig {
    pub modules: Vec<ModuleInfo>,
}

/// Goes through the children of the module directory.
#[derive(Clone, Debug, PartialEq, Eq)]
pub struct ModuleScanner {
    extra: Vec<String>,
    path: String,
}

/// The partitions by which a module shows that it has something to mount.
pub open spec fn candidate_partitions(extra: Seq<Seq<char>>) -> Seq<Seq<char>> {
    seq!["system"@] + extra
}

/// Whether the directory holds one of the files that switch a module off.
pub open spec fn has_marker(children: Seq<FsEntry>) -> bool {
    has_entry(children, disable_file_name()) || has_entry(children, remove_file_name())
        || has_entry(children, skip_mount_file_name())
}

/// Whether a child of the module directory is a module that takes part: a
/// directory with a subdirectory for one of the candidate partitions, and
/// without a file that switches it off.
pub open spec fn takes_part(e: FsEntry, extra: Seq<Seq<char>>) -> bool {
    e.is_dir && has_any_dir(e.children@, candidate_partitions(extra)) && !has_marker(e.children@)
}

/// The children that take part, in the given order.
pub open spec fn selected(entries: Seq<FsEntry>, extra: Seq<Seq<char>>) -> Seq<FsEntry>
    decreases entries.len(),
{
    if entries.len() == 0 {
        Seq::<FsEntry>::empty()
    } else {
        let rest = selected(entries.drop_last(), extra);
        if takes_part(entries.last(), extra) {
            rest.push(entries.last())
        } else {
            rest
        }
    }
}

/// Whether `m` is the record of the child `e` of the directory `base`.
pub open spec fn is_record_of(m: ModuleInfo, e: FsEntry, base: Seq<char>) -> bool {
    &&& m.id@ == e.name@
    &&& m.path@ == join(base, e.name@)
    &&& m.magic_mount == has_entry(e.children@, magic_mount_file_name())
    &&& m.overlayfs == has_entry(e.children@, overlayfs_file_name())
    &&& m.tree == e
}

/// Whether `out` is what a scan of `entries` yields: one record for each
/// child that takes part, in the order of the children.
pub open spec fn is_scan_of(
    out: Seq<ModuleInfo>,
    entries: Seq<FsEntry>,
    base: Seq<char>,
    extra: Seq<Seq<char>>,
) -> bool {
    &&& out.len() == selected(entries, extra).len()
    &&& forall|i: int|
        0 <= i < out.len() ==> is_record_of(#[trigger] out[i], selected(entries, extra)[i], base)
}

/// Whether the directory holds one of the files that switch a module off.
pub fn is_switched_off(dir: &FsEntry) -> (r: bool)
    ensures
        r == has_marker(dir.children@),
{
    dir.contains("disable") || dir.contains("remove") || dir.contains("skip_mount")
}

impl ModuleScanner {
    /// The directory whose children are scanned.
    pub closed spec fn spec_path(&self) -> Seq<char> {
        self.path@
    }

    /// The partitions looked for besides `system`.
    pub closed spec fn spec_extra(&self) -> Seq<Seq<char>> {
        views(self.extra@)
    }

    /// A scanner for the module directory `path` that looks for `system`
    /// and for the partitions of `extra`.
    pub fn new(path: &str, extra: Vec<String>) -> (r: Self)
        ensures
            r.spec_path() == path@,
            r.spec_extra() == views(extra@),
    {
        Self { extra, path: path.to_string() }
    }

    /// Picks the modules that take part from the children of the module
    /// directory and makes a record of each.
    pub fn scanner(&self, entries: Vec<FsEntry>) -> (found: ModuleConfig)
        ensures
            is_scan_of(found.modules@, entries@, self.spec_path(), self.spec_extra()),
    {
        let ghost orig = entries@;
        let ghost extra = views(self.extra@);
        let mut candidates: Vec<String> = Vec::new();
        candidates.push("system".to_string());
        let mut more = clone_strings(&self.extra);
        candidates.append(&mut more);
        proof {
            assert(views(candidates@) =~= candidate_partitions(extra));
        }
        let mut entries = entries;
        let mut reversed: Vec<FsEntry> = Vec::new();
        while entries.len() > 0
            invariant
                entries@.len() + reversed@.len() == orig.len(),
                entries@ == orig.take(entries@.len() as int),
                forall|j: int|
                    0 <= j < reversed@.len() ==> (#[trigger] reversed@[j]) == orig[orig.len() - 1
                        - j],
            decreases entries.len(),
        {
            let e = entries.pop().unwrap();
            reversed.push(e);
        }
        let mut modules: Vec<ModuleInfo> = Vec::new();
        proof {
            assert(orig.take(0) =~= Seq::<FsEntry>::empty());
        }
        while reversed.len() > 0
            invariant
                reversed@.len() <= orig.len(),
                extra == views(self.extra@),
                views(candidates@) == candidate_partitions(extra),
                forall|j: int|
                    0 <= j < reversed@.len() ==> (#[trigger] reversed@[j]) == orig[orig.len() - 1
                        - j],
                is_scan_of(
                    modules@,
                    orig.take(orig.len() - reversed@.len()),
                    self.path@,
                    extra,
                ),
            decreases reversed.len(),
        {
            let ghost k = orig.len() - reversed@.len();
            let ghost before = modules@;
            let e = reversed.pop().unwrap();
            proof {
                assert(e == orig[k]);
                assert(orig.take(k + 1).drop_last() =~= orig.take(k));
                assert(orig.take(k + 1).last() == e);
            }
            if e.is_dir && e.contains_any_dir(&candidates) && !is_switched_off(&e) {
                let record = ModuleInfo {
                    id: e.name.clone(),
                    path: path_join(self.path.as_str(), e.name.as_str()),
                    magic_mount: e.contains(".magic_mount"),
                    overlayfs: e.contains(".overlayfs"),
                    tree: e,
                };
                modules.push(record);
                proof {
                    let chosen = selected(orig.take(k + 1), extra);
                    assert forall|i: int| 0 <= i < modules@.len() implies is_record_of(
                        #[trigger] modules@[i],
                        chosen[i],
                        self.path@,
                    ) by {
                        if i < before.len() {
                            assert(modules@[i] == before[i]);
                        }
                    }
                }
            }
        }
        proof {
            assert(orig.take(orig.len() as int) =~= orig);
        }
        ModuleConfig { modules }
    }
}

/// Whether a child of the module directory gets a record depends on this
/// alone: it is a directory, it has a subdirectory for `system` or one of
/// the extra partitions, and it holds none of `disable`, `remove` and
/// `skip_mount`.
pub proof fn lemma_selected(entries: Seq<FsEntry>, extra: Seq<Seq<char>>, e: FsEntry)
    ensures
        selected(entries, extra).contains(e) <==> entries.contains(e) && takes_part(e, extra),
    decreases entries.len(),
{
    let s = selected(entries, extra);
    if entries.len() > 0 {
        let front = entries.drop_last();
        let rest = selected(front, extra);
        lemma_selected(front, extra, e);
        if s.contains(e) {
            let k = choose|k: int| 0 <= k < s.len() && s[k] == e;
            if k < rest.len() {
                assert(rest[k] == e);
                assert(rest.contains(e));
                let a = choose|a: int| 0 <= a < front.len() && front[a] == e;
                assert(entries[a] == e);
            } else {
                assert(entries[entries.len() - 1] == e);
            }
        }
        if entries.contains(e) && takes_part(e, extra) {
            let a = choose|a: int| 0 <= a < entries.len() && entries[a] == e;
            if a < entries.len() - 1 {
                assert(front[a] == e);
                assert(front.contains(e));
                let k = choose|k: int| 0 <= k < rest.len() && rest[k] == e;
                assert(s[k] == e);
            } else {
                assert(s[rest.len() as int] == e);
            }
        }
    }
}

/// No record is made of a module that is switched off by `disable`, `remove`
/// or `skip_mount`, nor of one without a directory for any candidate
/// partition: the directory of every record has such a subdirectory and none
/// of the three files.
pub proof fn lemma_scan_filters(
    out: Seq<ModuleInfo>,
    entries: Seq<FsEntry>,
    base: Seq<char>,
    extra: Seq<Seq<char>>,
    i: int,
)
    requires
        is_scan_of(out, entries, base, extra),
        0 <= i < out.len(),
    ensures
        entries.contains(out[i].tree),
        out[i].tree.is_dir,
        has_any_dir(out[i].tree.children@, candidate_partitions(extra)),
        !has_entry(out[i].tree.children@, disable_file_name()),
        !has_entry(out[i].tree.children@, remove_file_name()),
        !has_entry(out[i].tree.children@, skip_mount_file_name()),
{
    let s = selected(entries, extra);
    assert(is_record_of(out[i], s[i], base));
    assert(s.contains(s[i]));
    lemma_selected(entries, extra, s[i]);
}

/// Two scans of the same children of the same directory yield the same
/// records.
pub proof fn lemma_scan_is_repeatable(
    first: Seq<ModuleInfo>,
    second: Seq<ModuleInfo>,
    entries: Seq<FsEntry>,
    base: Seq<char>,
    extra: Seq<Seq<char>>,
)
    requires
        is_scan_of(first, entries, base, extra),
        is_scan_of(second, entries, base, extra),
    ensures
        first.len() == second.len(),
        forall|i: int|
            0 <= i < first.len() ==> {
                &&& (#[trigger] first[i]).id@ == second[i].id@
                &&& first[i].path@ == second[i].path@
                &&& first[i].magic_mount == second[i].magic_mount
                &&& first[i].overlayfs == second[i].overlayfs
                &&& first[i].tree == second[i].tree
            },
{
    assert forall|i: int| 0 <= i < first.len() implies {
        &&& (#[trigger] first[i]).id@ == second[i].id@
        &&& first[i].path@ == second[i].path@
        &&& first[i].magic_mount == second[i].magic_mount
        &&& first[i].overlayfs == second[i].overlayfs
        &&& first[i].tree == second[i].tree
    } by {
        assert(is_record_of(first[i], selected(entries, extra)[i], base));
        assert(is_record_of(second[i], selected(entries, extra)[i], base));
    }
}

/// The children that take part keep the order of the children: of two of
/// them, the earlier one is the earlier child.
pub proof fn lemma_selected_order(entries: Seq<FsEntry>, extra: Seq<Seq<char>>, i: int, j: int) -> (at:
    (int, int))
    requires
        0 <= i < j < selected(entries, extra).len(),
    ensures
        0 <= at.0 < at.1 < entries.len(),
        entries[at.0] == selected(entries, extra)[i],
        entries[at.1] == selected(entries, extra)[j],
    decreases entries.len(),
{
    let s = selected(entries, extra);
    let front = entries.drop_last();
    let rest = selected(front, extra);
    if j < rest.len() {
        let at = lemma_selected_order(front, extra, i, j);
        assert(front[at.0] == entries[at.0] && front[at.1] == entries[at.1]);
        at
    } else {
        assert(rest.contains(rest[i]));
        lemma_selected(front, extra, rest[i]);
        let a = choose|a: int| 0 <= a < front.len() && front[a] == rest[i];
        assert(entries[a] == s[i]);
        (a, entries.len() - 1)
    }
}

/// Where no two children of the module directory have the same name, no two
/// records have the same identifier.
pub proof fn lemma_scan_keeps_names_distinct(
    out: Seq<ModuleInfo>,
    entries: Seq<FsEntry>,
    base: Seq<char>,
    extra: Seq<Seq<char>>,
)
    requires
        is_scan_of(out, entries, base, extra),
        forall|a: int, b: int|
            0 <= a < b < entries.len() ==> (#[trigger] entries[a]).name@ != (
            #[trigger] entries[b]).name@,
    ensures
        forall|i: int, j: int|
            0 <= i < j < out.len() ==> (#[trigger] out[i]).id@ != (#[trigger] out[j]).id@,
{
    assert forall|i: int, j: int| 0 <= i < j < out.len() implies (#[trigger] out[i]).id@ != (
    #[trigger] out[j]).id@ by {
        let at = lemma_selected_order(entries, extra, i, j);
        assert(is_record_of(out[i], selected(entries, extra)[i], base));
        assert(is_record_of(out[j], selected(entries, extra)[j], base));
    }
}

/// The place of the first record whose identifier is not well-formed, or
/// the number of records where all are.
pub open spec fn first_invalid(records: Seq<ModuleInfo>) -> int
    decreases records.len(),
{
    if records.len() == 0 || !is_valid_id(records[0].id@) {
        0
    } else {
        1 + first_invalid(records.drop_first())
    }
}

/// What `first_invalid` finds.
pub proof fn lemma_first_invalid(records: Seq<ModuleInfo>)
    ensures
        0 <= first_invalid(records) <= records.len(),
        forall|j: int| 0 <= j < first_invalid(records) ==> is_valid_id((#[trigger] records[j]).id@),
        first_invalid(records) < records.len() ==> !is_valid_id(
            records[first_invalid(records)].id@,
        ),
    decreases records.len(),
{
    if records.len() > 0 && is_valid_id(records[0].id@) {
        let rest = records.drop_first();
        lemma_first_invalid(rest);
        assert forall|j: int| 0 <= j < first_invalid(records) implies is_valid_id(
            (#[trigger] records[j]).id@,
        ) by {
            if j > 0 {
                assert(rest[j - 1] == records[j]);
            }
        }
    }
}

/// Checks the identifiers of the records: all are well-formed, or the place
/// of the first that is not.
pub fn check_ids(records: &Vec<ModuleInfo>) -> (r: Result<(), usize>)
    ensures
        match r {
            Ok(_) => first_invalid(records@) == records@.len(),
            Err(at) => at == first_invalid(records@) && at < records@.len(),
        },
{
    let mut i: usize = 0;
    while i < records.len()
        invariant
            i <= records.len(),
            forall|j: int| 0 <= j < i ==> is_valid_id((#[trigger] records@[j]).id@),
        decreases records.len() - i,
    {
        if validate_module_id(records[i].id.as_str()).is_err() {
            proof {
                lemma_first_invalid(records@);
            }
            return Err(i);
        }
        i = i + 1;
    }
    proof {
        lemma_first_invalid(records@);
    }
    Ok(())
}

} // verus!
