//! The list of installed modules with what their properties files say, and
//! the use of the storage they lie on.

use vstd::prelude::*;
use crate::fstree::{has_dir, has_entry};
use crate::framework::{prop_file_name, ModuleSource};
use crate::order::{lemma_sorted_by_key, sort_by_key, sorted_by_key};
use crate::props::{prop_value, read_prop};
use crate::scanner::{has_marker, is_switched_off};
use crate::status::{block_bytes, bytes_in_use, total_bytes, used_bytes, StatVfs};
use crate::text::str_eq;

verus! {

/// An installed module, as it is shown to the user.
#[derive(Clone, Debug, PartialEq, Eq)]
pub struct ModuleInfo {
    pub id: String,
    pub name: String,
    pub version: String,
    pub description: String,
    pub disabled: bool,
    pub skip: bool,
}

/// The use of the storage, as it is shown to the user.
#[derive(Clone, Debug, PartialEq, Eq)]
pub struct StorageInfo {
    pub size: String,
    pub used: String,
    pub percent: String,
}

/// The use of the storage in bytes.
#[derive(Clone, Copy, Debug, PartialEq, Eq, Structural)]
pub struct StorageUsage {
    pub total_bytes: u64,
    pub used_bytes: u64,
}

/// Whether a child of the module directory is listed: a directory with a
/// properties file and a `system` directory that is not switched off.
pub open spec fn is_listed(m: ModuleSource) -> bool {
    &&& m.tree.is_dir
    &&& has_entry(m.tree.children@, prop_file_name())
    &&& has_dir(m.tree.children@, "system"@)
    &&& !has_marker(m.tree.children@)
}

/// The names of the listed modules, in the given order.
pub open spec fn listed_names(modules: Seq<ModuleSource>) -> Seq<String>
    decreases modules.len(),
{
    if modules.len() == 0 {
        Seq::<String>::empty()
    } else {
        let rest = listed_names(modules.drop_last());
        if is_listed(modules.last()) {
            rest.push(modules.last().tree.name)
        } else {
            rest
        }
    }
}

/// The place of the first listed module named `name`, or the number of
/// modules where there is none.
pub open spec fn first_listed(modules: Seq<ModuleSource>, name: Seq<char>) -> int
    decreases modules.len(),
{
    if modules.len() == 0 || (is_listed(modules[0]) && modules[0].tree.name@ == name) {
        0
    } else {
        1 + first_listed(modules.drop_first(), name)
    }
}

/// What a module's properties file says of `key`.
pub open spec fn module_prop(m: ModuleSource, key: Seq<char>) -> Option<Seq<char>> {
    match m.prop {
        Some(text) => prop_value(text@, key),
        None => None,
    }
}

/// Whether `info` is the entry of the module `m`: its identifier is the
/// name of the directory; name, version and description are what the
/// properties file says, the name being the identifier and the others empty
/// where it says nothing.
pub open spec fn is_info_of(info: ModuleInfo, m: ModuleSource) -> bool {
    &&& info.id@ == m.tree.name@
    &&& info.name@ == match module_prop(m, "name"@) {
        Some(v) => v,
        None => m.tree.name@,
    }
    &&& info.version@ == match module_prop(m, "version"@) {
        Some(v) => v,
        None => Seq::<char>::empty(),
    }
    &&& info.description@ == match module_prop(m, "description"@) {
        Some(v) => v,
        None => Seq::<char>::empty(),
    }
    &&& !info.disabled
    &&& !info.skip
}

/// `first_listed` finds the first listed module of that name.
pub proof fn lemma_first_listed(modules: Seq<ModuleSource>, name: Seq<char>)
    ensures
        0 <= first_listed(modules, name) <= modules.len(),
        first_listed(modules, name) < modules.len() ==> is_listed(
            modules[first_listed(modules, name)],
        ) && modules[first_listed(modules, name)].tree.name@ == name,
        forall|j: int|
            0 <= j < first_listed(modules, name) ==> !(is_listed(#[trigger] modules[j])
                && modules[j].tree.name@ == name),
    decreases modules.len(),
{
    if modules.len() > 0 && !(is_listed(modules[0]) && modules[0].tree.name@ == name) {
        let rest = modules.drop_first();
        lemma_first_listed(rest, name);
        assert forall|j: int| 0 <= j < first_listed(modules, name) implies !(is_listed(
            #[trigger] modules[j],
        ) && modules[j].tree.name@ == name) by {
            if j > 0 {
                assert(rest[j - 1] == modules[j]);
            }
        }
    }
}

/// Every listed name is the name of a listed module.
pub proof fn lemma_listed_names(modules: Seq<ModuleSource>, name: String)
    requires
        listed_names(modules).contains(name),
    ensures
        first_listed(modules, name@) < modules.len(),
    decreases modules.len(),
{
    lemma_first_listed(modules, name@);
    if modules.len() > 0 {
        let front = modules.drop_last();
        let rest = listed_names(front);
        let all = listed_names(modules);
        let k = choose|k: int| 0 <= k < all.len() && all[k] == name;
        if k < rest.len() {
            assert(rest[k] == name);
            assert(rest.contains(name));
            lemma_listed_names(front, name);
            lemma_first_listed(front, name@);
            let i = first_listed(front, name@);
            assert(modules[i] == front[i]);
        } else {
            assert(is_listed(modules[modules.len() - 1]));
            assert(modules[modules.len() - 1].tree.name == name);
        }
    }
}

/// The value the properties file of the module gives to `key`.
pub fn module_value(m: &ModuleSource, key: &str) -> (r: Option<String>)
    ensures
        match module_prop(*m, key@) {
            Some(v) => r is Some && r->0@ == v,
            None => r is None,
        },
{
    match &m.prop {
        Some(text) => read_prop(text.as_str(), key),
        None => None,
    }
}

/// Whether a child of the module directory is listed.
pub fn listed(m: &ModuleSource) -> (r: bool)
    ensures
        r == is_listed(*m),
{
    m.tree.is_dir && m.tree.contains("module.prop") && m.tree.contains_dir("system")
        && !is_switched_off(&m.tree)
}

/// Lists the installed modules in ascending order of their identifiers,
/// each with what its properties file says.
pub fn scan_modules(modules: &Vec<ModuleSource>) -> (list: Vec<ModuleInfo>)
    ensures
        list@.len() == listed_names(modules@).len(),
        forall|k: int|
            0 <= k < list@.len() ==> {
                let name = #[trigger] sorted_by_key(listed_names(modules@), false)[k];
                &&& first_listed(modules@, name@) < modules@.len()
                &&& is_info_of(list@[k], modules@[first_listed(modules@, name@)])
            },
{
    let mut names: Vec<String> = Vec::new();
    let mut i: usize = 0;
    proof {
        assert(modules@.take(0) =~= Seq::<ModuleSource>::empty());
    }
    while i < modules.len()
        invariant
            i <= modules.len(),
            names@ == listed_names(modules@.take(i as int)),
        decreases modules.len() - i,
    {
        proof {
            assert(modules@.take(i as int + 1).drop_last() =~= modules@.take(i as int));
            assert(modules@.take(i as int + 1).last() == modules@[i as int]);
        }
        if listed(&modules[i]) {
            names.push(modules[i].tree.name.clone());
        }
        i = i + 1;
    }
    proof {
        assert(modules@.take(i as int) =~= modules@);
        lemma_sorted_by_key(names@, false);
    }
    let order = sort_by_key(names, false);
    let mut list: Vec<ModuleInfo> = Vec::new();
    let mut k: usize = 0;
    while k < order.len()
        invariant
            k <= order.len(),
            order@ == sorted_by_key(listed_names(modules@), false),
            order@.len() == listed_names(modules@).len(),
            order@.to_multiset() == listed_names(modules@).to_multiset(),
            list@.len() == k,
            forall|j: int|
                0 <= j < k ==> {
                    &&& first_listed(modules@, (#[trigger] order@[j])@) < modules@.len()
                    &&& is_info_of(list@[j], modules@[first_listed(modules@, order@[j]@)])
                },
        decreases order.len() - k,
    {
        let name = order[k].as_str();
        proof {
            broadcast use vstd::seq_lib::group_to_multiset_ensures;

            assert(order@.contains(order@[k as int]));
            assert(order@.to_multiset().count(order@[k as int]) > 0);
            assert(listed_names(modules@).contains(order@[k as int]));
            lemma_listed_names(modules@, order@[k as int]);
            lemma_first_listed(modules@, name@);
        }
        let mut at: usize = 0;
        while at < modules.len() && !(listed(&modules[at]) && str_eq(
            modules[at].tree.name.as_str(),
            name,
        ))
            invariant
                at <= modules.len(),
                at <= first_listed(modules@, name@) < modules@.len(),
                is_listed(modules@[first_listed(modules@, name@)]),
                modules@[first_listed(modules@, name@)].tree.name@ == name@,
                forall|j: int|
                    0 <= j < first_listed(modules@, name@) ==> !(is_listed(#[trigger] modules@[j])
                        && modules@[j].tree.name@ == name@),
            decreases modules.len() - at,
        {
            at = at + 1;
        }
        let m = &modules[at];
        let id = m.tree.name.clone();
        let shown = match module_value(m, "name") {
            Some(v) => v,
            None => id.clone(),
        };
        let version = match module_value(m, "version") {
            Some(v) => v,
            None => String::new(),
        };
        let description = match module_value(m, "description") {
            Some(v) => v,
            None => String::new(),
        };
        let ghost before = list@;
        list.push(
            ModuleInfo { id, name: shown, version, description, disabled: false, skip: false },
        );
        k = k + 1;
        proof {
            assert forall|j: int| 0 <= j < k implies {
                &&& first_listed(modules@, (#[trigger] order@[j])@) < modules@.len()
                &&& is_info_of(list@[j], modules@[first_listed(modules@, order@[j]@)])
            } by {
                if j < k - 1 {
                    assert(list@[j] == before[j]);
                }
            }
        }
    }
    list
}

/// The use of the storage in bytes: its size, and its size without what is
/// available, 0 where more is said to be available than there is.
pub fn get_storage_usage(stat: StatVfs) -> (r: StorageUsage)
    ensures
        r.total_bytes == total_bytes(stat),
        r.used_bytes == used_bytes(stat, stat.bavail),
{
    StorageUsage {
        total_bytes: block_bytes(stat.blocks, stat.frsize),
        used_bytes: bytes_in_use(stat, stat.bavail),
    }
}

} // verus!
