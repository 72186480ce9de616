//! A directory tree as plain values: what a walk of the file system found.

use vstd::prelude::*;
use crate::text::{str_eq, views};

verus! {

/// What kind of file an entry is, symbolic links not followed.
#[derive(Clone, Copy, Debug, PartialEq, Eq, Structural)]
pub enum FileKind {
    File,
    Directory,
    Symlink,
    CharDevice,
    Other,
    /// The entry was listed, but nothing could be found out about it.
    Unknown,
}

/// One entry of a directory, with the entries beneath it.
#[derive(Debug, PartialEq, Eq)]
pub struct FsEntry {
    /// The entry's file name.
    pub name: String,
    /// Its kind, symbolic links not followed.
    pub kind: FileKind,
    /// Whether it is a directory once symbolic links are followed.
    pub is_dir: bool,
    /// The device number of a device file, 0 for anything else.
    pub rdev: u64,
    /// Whether it carries the extended attribute that marks an opaque directory.
    pub opaque: bool,
    /// The entries of the directory it leads to, in the order they were listed.
    pub children: Vec<FsEntry>,
}

/// Whether the directory has an entry of that name.
pub open spec fn has_entry(children: Seq<FsEntry>, name: Seq<char>) -> bool {
    exists|i: int| 0 <= i < children.len() && (#[trigger] children[i]).name@ == name
}

/// Whether the directory has a subdirectory of that name.
pub open spec fn has_dir(children: Seq<FsEntry>, name: Seq<char>) -> bool {
    exists|i: int|
        0 <= i < children.len() && (#[trigger] children[i]).name@ == name && children[i].is_dir
}

/// Whether the directory has a subdirectory by one of the names.
pub open spec fn has_any_dir(children: Seq<FsEntry>, names: Seq<Seq<char>>) -> bool {
    exists|k: int| 0 <= k < names.len() && has_dir(children, #[trigger] names[k])
}

/// The place of the first entry named `name`, or the number of entries
/// where none has that name.
pub open spec fn entry_index(children: Seq<FsEntry>, name: Seq<char>) -> int
    decreases children.len(),
{
    if children.len() == 0 || children[0].name@ == name {
        0
    } else {
        1 + entry_index(children.drop_first(), name)
    }
}

/// `entry_index` finds the first entry of that name, and one is found
/// exactly where the directory has an entry of that name.
pub proof fn lemma_entry_index(children: Seq<FsEntry>, name: Seq<char>)
    ensures
        0 <= entry_index(children, name) <= children.len(),
        entry_index(children, name) < children.len() ==> children[entry_index(
            children,
            name,
        )].name@ == name,
        forall|j: int| 0 <= j < entry_index(children, name) ==> (#[trigger] children[j]).name@ != name,
        has_entry(children, name) <==> entry_index(children, name) < children.len(),
    decreases children.len(),
{
    if children.len() > 0 && children[0].name@ != name {
        let rest = children.drop_first();
        lemma_entry_index(rest, name);
        assert forall|j: int| 0 <= j < entry_index(children, name) implies (
        #[trigger] children[j]).name@ != name by {
            if j > 0 {
                assert(rest[j - 1] == children[j]);
            }
        }
        if has_entry(children, name) {
            let i = choose|i: int| 0 <= i < children.len() && (#[trigger] children[i]).name@ == name;
            assert(rest[i - 1] == children[i]);
        }
        if entry_index(children, name) < children.len() {
            assert(rest[entry_index(rest, name)] == children[entry_index(children, name)]);
        }
    }
}

impl FsEntry {
    /// Whether this directory has an entry named `name`.
    pub fn contains(&self, name: &str) -> (r: bool)
        ensures
            r == has_entry(self.children@, name@),
    {
        let mut i: usize = 0;
        while i < self.children.len()
            invariant
                i <= self.children.len(),
                forall|j: int| 0 <= j < i ==> (#[trigger] self.children@[j]).name@ != name@,
            decreases self.children.len() - i,
        {
            if str_eq(self.children[i].name.as_str(), name) {
                return true;
            }
            i = i + 1;
        }
        false
    }

    /// Whether this directory has a subdirectory named `name`.
    pub fn contains_dir(&self, name: &str) -> (r: bool)
        ensures
            r == has_dir(self.children@, name@),
    {
        let mut i: usize = 0;
        while i < self.children.len()
            invariant
                i <= self.children.len(),
                forall|j: int|
                    0 <= j < i ==> !((#[trigger] self.children@[j]).name@ == name@
                        && self.children@[j].is_dir),
            decreases self.children.len() - i,
        {
            if self.children[i].is_dir && str_eq(self.children[i].name.as_str(), name) {
                return true;
            }
            i = i + 1;
        }
        false
    }

    /// Whether this directory has a subdirectory by one of the names.
    pub fn contains_any_dir(&self, names: &Vec<String>) -> (r: bool)
        ensures
            r == has_any_dir(self.children@, views(names@)),
    {
        let mut k: usize = 0;
        while k < names.len()
            invariant
                k <= names.len(),
                forall|j: int| 0 <= j < k ==> !has_dir(self.children@, #[trigger] views(names@)[j]),
            decreases names.len() - k,
        {
            proof {
                assert(views(names@)[k as int] == names@[k as int]@);
            }
            if self.contains_dir(names[k].as_str()) {
                return true;
            }
            k = k + 1;
        }
        false
    }

    /// The place of the first entry named `name`: the number of entries
    /// where there is none.
    pub fn find(&self, name: &str) -> (r: usize)
        ensures
            r == entry_index(self.children@, name@),
            r <= self.children@.len(),
            (r < self.children@.len()) == has_entry(self.children@, name@),
    {
        let mut i: usize = 0;
        while i < self.children.len()
            invariant
                i <= self.children.len(),
                forall|j: int| 0 <= j < i ==> (#[trigger] self.children@[j]).name@ != name@,
            decreases self.children.len() - i,
        {
            if str_eq(self.children[i].name.as_str(), name) {
                proof {
                    lemma_entry_index(self.children@, name@);
                }
                return i;
            }
            i = i + 1;
        }
        proof {
            lemma_entry_index(self.children@, name@);
        }
        i
    }
}

} // verus!
