//! What holds of every plan: the order of the layers, and the report of
//! files that several modules provide.

use vstd::prelude::*;
use crate::order::{
    is_sorted, lemma_count_two, lemma_sorted_by_key, lemma_sorted_keeps_two, lemma_two_places,
    precedes, sorted_by_key, Keyed,
};
use crate::defs::builtin_partitions;
use crate::planner::{
    active_modules, all_partitions, conflicts_of, contributing, contributors, is_layer,
    is_reserved, merge_names, module_file_paths, module_paths, overlay_ops_of, overlay_target,
    plan_order,
    FileConflict, ModeEntry,
};
use crate::scanner::ModuleInfo;
use crate::text::{lemma_str_order, str_lt, views};

verus! {

/// The active modules are the given ones whose name is not reserved.
pub proof fn lemma_active_modules(mods: Seq<ModuleInfo>, m: ModuleInfo)
    ensures
        active_modules(mods).contains(m) <==> mods.contains(m) && !is_reserved(m.id@),
    decreases mods.len(),
{
    if mods.len() > 0 {
        let rest = active_modules(mods.drop_last());
        lemma_active_modules(mods.drop_last(), m);
        if active_modules(mods).contains(m) {
            let k = choose|k: int| 0 <= k < active_modules(mods).len() && active_modules(mods)[k] == m;
            if k < rest.len() {
                assert(rest[k] == m);
                assert(rest.contains(m));
                let a = choose|a: int| 0 <= a < mods.drop_last().len() && mods.drop_last()[a] == m;
                assert(mods[a] == m);
            } else {
                assert(mods[mods.len() - 1] == m);
            }
        }
        if mods.contains(m) && !is_reserved(m.id@) {
            let a = choose|a: int| 0 <= a < mods.len() && mods[a] == m;
            if a < mods.len() - 1 {
                assert(mods.drop_last()[a] == m);
                assert(mods.drop_last().contains(m));
                let k = choose|k: int| 0 <= k < rest.len() && rest[k] == m;
                assert(active_modules(mods)[k] == m);
            } else {
                assert(active_modules(mods)[rest.len() as int] == m);
            }
        }
    }
}

/// The modules laid over a partition are those of the given ones that are a
/// layer of it.
pub proof fn lemma_contributing_members(
    order: Seq<ModuleInfo>,
    modes: Seq<ModeEntry>,
    part: Seq<char>,
    m: ModuleInfo,
)
    ensures
        contributing(order, modes, part).contains(m) <==> order.contains(m) && is_layer(
            m,
            modes,
            part,
        ),
    decreases order.len(),
{
    let c = contributing(order, modes, part);
    if order.len() > 0 {
        let front = order.drop_last();
        let rest = contributing(front, modes, part);
        lemma_contributing_members(front, modes, part, m);
        if c.contains(m) {
            let k = choose|k: int| 0 <= k < c.len() && c[k] == m;
            if k < rest.len() {
                assert(rest[k] == m);
                assert(rest.contains(m));
                let a = choose|a: int| 0 <= a < front.len() && front[a] == m;
                assert(order[a] == m);
            } else {
                assert(order[order.len() - 1] == m);
            }
        }
        if order.contains(m) && is_layer(m, modes, part) {
            let a = choose|a: int| 0 <= a < order.len() && order[a] == m;
            if a < order.len() - 1 {
                assert(front[a] == m);
                assert(front.contains(m));
                let k = choose|k: int| 0 <= k < rest.len() && rest[k] == m;
                assert(c[k] == m);
            } else {
                assert(c[rest.len() as int] == m);
            }
        }
    }
}

/// The modules laid over a partition keep the order they were given in.
pub proof fn lemma_contributing_sorted(
    order: Seq<ModuleInfo>,
    modes: Seq<ModeEntry>,
    part: Seq<char>,
    descending: bool,
)
    requires
        is_sorted(order, descending),
    ensures
        is_sorted(contributing(order, modes, part), descending),
    decreases order.len(),
{
    let c = contributing(order, modes, part);
    if order.len() > 0 {
        let front = order.drop_last();
        let rest = contributing(front, modes, part);
        assert forall|i: int, j: int| 0 <= i < j < front.len() implies !precedes(
            #[trigger] front[j].key(),
            #[trigger] front[i].key(),
            descending,
        ) by {
            assert(front[i] == order[i] && front[j] == order[j]);
        }
        lemma_contributing_sorted(front, modes, part, descending);
        assert forall|i: int, j: int| 0 <= i < j < c.len() implies !precedes(
            #[trigger] c[j].key(),
            #[trigger] c[i].key(),
            descending,
        ) by {
            if j < rest.len() {
                assert(c[i] == rest[i] && c[j] == rest[j]);
            } else {
                assert(c[i] == rest[i]);
                assert(rest.contains(rest[i]));
                lemma_contributing_members(front, modes, part, rest[i]);
                let a = choose|a: int| 0 <= a < front.len() && front[a] == rest[i];
                assert(order[a] == c[i]);
                assert(order[order.len() - 1] == c[j]);
            }
        }
    }
}

/// The layers of a partition follow the identifiers of their modules in
/// descending order: no layer stands before one with a greater identifier.
/// They are the directories of exactly those given modules whose name is not
/// reserved and that are a layer of the partition.
pub proof fn lemma_layers_descend(mods: Seq<ModuleInfo>, modes: Seq<ModeEntry>, part: Seq<char>)
    ensures
        forall|i: int, j: int|
            0 <= i < j < contributing(plan_order(mods), modes, part).len() ==> !str_lt(
                (#[trigger] contributing(plan_order(mods), modes, part)[i]).id@,
                (#[trigger] contributing(plan_order(mods), modes, part)[j]).id@,
            ),
        forall|m: ModuleInfo|
            contributing(plan_order(mods), modes, part).contains(m) <==> mods.contains(m)
                && !is_reserved(m.id@) && is_layer(m, modes, part),
{
    broadcast use vstd::seq_lib::group_to_multiset_ensures;

    let active = active_modules(mods);
    let order = plan_order(mods);
    let c = contributing(order, modes, part);
    lemma_sorted_by_key(active, true);
    lemma_contributing_sorted(order, modes, part, true);
    assert forall|i: int, j: int| 0 <= i < j < c.len() implies !str_lt(
        (#[trigger] c[i]).id@,
        (#[trigger] c[j]).id@,
    ) by {
        assert(!precedes(c[j].key(), c[i].key(), true));
    }
    assert forall|m: ModuleInfo|
        c.contains(m) <==> mods.contains(m) && !is_reserved(m.id@) && is_layer(m, modes, part) by {
        lemma_active_modules(mods, m);
        lemma_contributing_members(order, modes, part, m);
        assert(order.contains(m) <==> order.to_multiset().count(m) > 0);
        assert(active.contains(m) <==> active.to_multiset().count(m) > 0);
    }
}

/// The modules laid over a partition keep the order they were given in: of
/// two of them, the earlier one is the earlier of the given modules.
pub proof fn lemma_contributing_order(
    order: Seq<ModuleInfo>,
    modes: Seq<ModeEntry>,
    part: Seq<char>,
    i: int,
    j: int,
) -> (at: (int, int))
    requires
        0 <= i < j < contributing(order, modes, part).len(),
    ensures
        0 <= at.0 < at.1 < order.len(),
        order[at.0] == contributing(order, modes, part)[i],
        order[at.1] == contributing(order, modes, part)[j],
    decreases order.len(),
{
    let c = contributing(order, modes, part);
    let front = order.drop_last();
    let rest = contributing(front, modes, part);
    if j < rest.len() {
        let at = lemma_contributing_order(front, modes, part, i, j);
        assert(front[at.0] == order[at.0] && front[at.1] == order[at.1]);
        at
    } else {
        assert(rest.contains(rest[i]));
        lemma_contributing_members(front, modes, part, rest[i]);
        let a = choose|a: int| 0 <= a < front.len() && front[a] == rest[i];
        assert(order[a] == c[i]);
        (a, order.len() - 1)
    }
}

/// Two places among the active modules are two places among the modules.
pub proof fn lemma_active_places(mods: Seq<ModuleInfo>, i: int, j: int) -> (at: (int, int))
    requires
        0 <= i < j < active_modules(mods).len(),
    ensures
        0 <= at.0 < at.1 < mods.len(),
        mods[at.0] == active_modules(mods)[i],
        mods[at.1] == active_modules(mods)[j],
    decreases mods.len(),
{
    let s = active_modules(mods);
    let front = mods.drop_last();
    let rest = active_modules(front);
    if j < rest.len() {
        let at = lemma_active_places(front, i, j);
        assert(front[at.0] == mods[at.0] && front[at.1] == mods[at.1]);
        at
    } else {
        assert(rest.contains(rest[i]));
        lemma_active_modules(front, rest[i]);
        let a = choose|a: int| 0 <= a < front.len() && front[a] == rest[i];
        assert(mods[a] == s[i]);
        (a, mods.len() - 1)
    }
}

/// Where no two of the modules have the same identifier, the layers of a
/// partition follow the identifiers of their modules in strictly descending
/// order: every layer stands before all layers of modules with a smaller
/// identifier, and no two layers are of one identifier.
pub proof fn lemma_layers_descend_strictly(
    mods: Seq<ModuleInfo>,
    modes: Seq<ModeEntry>,
    part: Seq<char>,
)
    requires
        forall|a: int, b: int|
            0 <= a < b < mods.len() ==> (#[trigger] mods[a]).id@ != (#[trigger] mods[b]).id@,
    ensures
        forall|i: int, j: int|
            0 <= i < j < contributing(plan_order(mods), modes, part).len() ==> str_lt(
                (#[trigger] contributing(plan_order(mods), modes, part)[j]).id@,
                (#[trigger] contributing(plan_order(mods), modes, part)[i]).id@,
            ),
{
    broadcast use vstd::seq_lib::group_to_multiset_ensures;

    let active = active_modules(mods);
    let order = plan_order(mods);
    let c = contributing(order, modes, part);
    lemma_sorted_by_key(active, true);
    lemma_layers_descend(mods, modes, part);
    assert forall|i: int, j: int| 0 <= i < j < c.len() implies str_lt(
        (#[trigger] c[j]).id@,
        (#[trigger] c[i]).id@,
    ) by {
        let at = lemma_contributing_order(order, modes, part, i, j);
        let x = order[at.0];
        let y = order[at.1];
        lemma_count_two(order, at.0, at.1);
        if x == y {
            let twice = lemma_two_places(active, x);
            let places = lemma_active_places(mods, twice.0, twice.1);
            assert(mods[places.0].id@ == mods[places.1].id@);
        } else {
            assert(active.contains(x) && active.contains(y));
            lemma_active_modules(mods, x);
            lemma_active_modules(mods, y);
            let p = choose|p: int| 0 <= p < mods.len() && mods[p] == x;
            let q = choose|q: int| 0 <= q < mods.len() && mods[q] == y;
            if p < q {
                assert(mods[p].id@ != mods[q].id@);
            } else {
                assert(mods[q].id@ != mods[p].id@);
            }
        }
        assert(c[i].id@ != c[j].id@);
        lemma_str_order(c[i].id@, c[j].id@, c[i].id@);
    }
}

/// The providers of a file are listed once for each module that has it.
pub proof fn lemma_contributors(
    mods: Seq<ModuleInfo>,
    parts: Seq<Seq<char>>,
    path: Seq<char>,
    a: int,
    b: int,
)
    requires
        0 <= a < b < mods.len(),
        module_file_paths(mods[a], parts).contains(path),
        module_file_paths(mods[b], parts).contains(path),
    ensures
        contributors(mods, parts, path).len() >= 2,
        contributors(mods, parts, path).contains(mods[a].id),
        contributors(mods, parts, path).contains(mods[b].id),
    decreases mods.len(),
{
    let c = contributors(mods, parts, path);
    let front = mods.drop_last();
    let rest = contributors(front, parts, path);
    if b < mods.len() - 1 {
        lemma_contributors(front, parts, path, a, b);
        assert(front[a] == mods[a] && front[b] == mods[b]);
        let ka = choose|k: int| 0 <= k < rest.len() && rest[k] == mods[a].id;
        let kb = choose|k: int| 0 <= k < rest.len() && rest[k] == mods[b].id;
        assert(c[ka] == mods[a].id);
        assert(c[kb] == mods[b].id);
    } else {
        lemma_contributor(front, parts, path, a);
        assert(front[a] == mods[a]);
        let ka = choose|k: int| 0 <= k < rest.len() && rest[k] == mods[a].id;
        assert(c[ka] == mods[a].id);
        assert(c[rest.len() as int] == mods[b].id);
    }
}

/// A module that provides a file is among the providers of the file.
proof fn lemma_contributor(mods: Seq<ModuleInfo>, parts: Seq<Seq<char>>, path: Seq<char>, a: int)
    requires
        0 <= a < mods.len(),
        module_file_paths(mods[a], parts).contains(path),
    ensures
        contributors(mods, parts, path).len() >= 1,
        contributors(mods, parts, path).contains(mods[a].id),
    decreases mods.len(),
{
    let c = contributors(mods, parts, path);
    let front = mods.drop_last();
    let rest = contributors(front, parts, path);
    if a < mods.len() - 1 {
        lemma_contributor(front, parts, path, a);
        assert(front[a] == mods[a]);
        let ka = choose|k: int| 0 <= k < rest.len() && rest[k] == mods[a].id;
        assert(c[ka] == mods[a].id);
    } else {
        assert(c[rest.len() as int] == mods[a].id);
    }
}

/// Where two of the modules provide the same file, the list of conflicts
/// holds exactly one entry for that file, and the entry names both modules.
pub proof fn lemma_shared_file_is_one_conflict(
    out: Seq<FileConflict>,
    mods: Seq<ModuleInfo>,
    parts: Seq<Seq<char>>,
    path: Seq<char>,
    a: int,
    b: int,
)
    requires
        conflicts_of(out, mods, parts),
        0 <= a < b < mods.len(),
        module_file_paths(mods[a], parts).contains(path),
        module_file_paths(mods[b], parts).contains(path),
    ensures
        exists|i: int|
            {
                &&& 0 <= i < out.len()
                &&& (#[trigger] out[i]).path@ == path
                &&& views(out[i].modules@).contains(mods[a].id@)
                &&& views(out[i].modules@).contains(mods[b].id@)
                &&& forall|j: int| 0 <= j < out.len() && (#[trigger] out[j]).path@ == path ==> j == i
            },
{
    broadcast use vstd::seq_lib::group_to_multiset_ensures;

    let c = contributors(mods, parts, path);
    lemma_contributors(mods, parts, path, a, b);
    let i = choose|i: int| 0 <= i < out.len() && (#[trigger] out[i]).path@ == path;
    lemma_sorted_by_key(c, false);
    let listed = out[i].modules@;
    assert(listed == sorted_by_key(c, false));
    assert(listed.to_multiset().count(mods[a].id) > 0);
    assert(listed.contains(mods[a].id));
    assert(listed.to_multiset().count(mods[b].id) > 0);
    assert(listed.contains(mods[b].id));
    let ka = choose|k: int| 0 <= k < listed.len() && listed[k] == mods[a].id;
    let kb = choose|k: int| 0 <= k < listed.len() && listed[k] == mods[b].id;
    assert(views(listed)[ka] == mods[a].id@);
    assert(views(listed)[kb] == mods[b].id@);
    assert forall|j: int| 0 <= j < out.len() && (#[trigger] out[j]).path@ == path implies j == i by {
        lemma_str_order(path, path, path);
        if j < i {
            assert(str_lt(out[j].path@, out[i].path@));
        } else if i < j {
            assert(str_lt(out[i].path@, out[j].path@));
        }
    }
}

/// The active modules keep the order of the modules: two modules that are
/// not reserved stand among them, the earlier one first.
pub proof fn lemma_active_order(mods: Seq<ModuleInfo>, a: int, b: int) -> (at: (int, int))
    requires
        0 <= a < b < mods.len(),
        !is_reserved(mods[a].id@),
        !is_reserved(mods[b].id@),
    ensures
        0 <= at.0 < at.1 < active_modules(mods).len(),
        active_modules(mods)[at.0] == mods[a],
        active_modules(mods)[at.1] == mods[b],
    decreases mods.len(),
{
    let front = mods.drop_last();
    let rest = active_modules(front);
    if b < mods.len() - 1 {
        let at = lemma_active_order(front, a, b);
        assert(front[a] == mods[a] && front[b] == mods[b]);
        if !is_reserved(mods.last().id@) {
            assert(active_modules(mods)[at.0] == rest[at.0]);
            assert(active_modules(mods)[at.1] == rest[at.1]);
        }
        at
    } else {
        assert(front[a] == mods[a]);
        assert(front.contains(mods[a]));
        lemma_active_modules(front, mods[a]);
        let i = choose|i: int| 0 <= i < rest.len() && rest[i] == mods[a];
        assert(active_modules(mods)[i] == rest[i]);
        (i, rest.len() as int)
    }
}

/// Where two of the modules handed to the planner, neither by a reserved
/// name, provide the same file, the conflicts of the plan hold exactly one
/// entry for that file, and the entry names both.
pub proof fn lemma_plan_reports_shared_file(
    out: Seq<FileConflict>,
    mods: Seq<ModuleInfo>,
    parts: Seq<Seq<char>>,
    path: Seq<char>,
    a: int,
    b: int,
)
    requires
        conflicts_of(out, plan_order(mods), parts),
        0 <= a < b < mods.len(),
        !is_reserved(mods[a].id@),
        !is_reserved(mods[b].id@),
        module_file_paths(mods[a], parts).contains(path),
        module_file_paths(mods[b], parts).contains(path),
    ensures
        exists|i: int|
            {
                &&& 0 <= i < out.len()
                &&& (#[trigger] out[i]).path@ == path
                &&& views(out[i].modules@).contains(mods[a].id@)
                &&& views(out[i].modules@).contains(mods[b].id@)
                &&& forall|j: int| 0 <= j < out.len() && (#[trigger] out[j]).path@ == path ==> j == i
            },
{
    let active = active_modules(mods);
    let order = plan_order(mods);
    let among = lemma_active_order(mods, a, b);
    let at = lemma_sorted_keeps_two(active, true, among.0, among.1);
    if at.0 < at.1 {
        lemma_shared_file_is_one_conflict(out, order, parts, path, at.0, at.1);
    } else {
        lemma_shared_file_is_one_conflict(out, order, parts, path, at.1, at.0);
    }
}

/// The built-in partitions begin with `system` and name no partition twice.
pub proof fn lemma_builtin_partitions()
    ensures
        builtin_partitions().len() == 5,
        builtin_partitions()[0] == "system"@,
        builtin_partitions().no_duplicates(),
{
    reveal_strlit("system");
    reveal_strlit("vendor");
    reveal_strlit("system_ext");
    reveal_strlit("product");
    reveal_strlit("odm");
    let b = builtin_partitions();
    assert(b[0].len() == 6 && b[1].len() == 6 && b[2].len() == 10 && b[3].len() == 7 && b[4].len()
        == 3);
    assert(b[0][0] == 's' && b[1][0] == 'v');
}

/// Merging keeps the names it began with at their places and names nothing
/// twice.
pub proof fn lemma_merge_names(base: Seq<Seq<char>>, extra: Seq<Seq<char>>)
    requires
        base.no_duplicates(),
    ensures
        merge_names(base, extra).len() >= base.len(),
        merge_names(base, extra).take(base.len() as int) == base,
        merge_names(base, extra).no_duplicates(),
        forall|name: Seq<char>|
            merge_names(base, extra).contains(name) <==> base.contains(name) || extra.contains(
                name,
            ),
    decreases extra.len(),
{
    let merged = merge_names(base, extra);
    if extra.len() == 0 {
        assert(base.take(base.len() as int) =~= base);
        assert forall|name: Seq<char>| merged.contains(name) <==> base.contains(name)
            || extra.contains(name) by {
            if extra.contains(name) {
                let k = choose|k: int| 0 <= k < extra.len() && extra[k] == name;
            }
        }
    } else {
        let front = extra.drop_last();
        let before = merge_names(base, front);
        lemma_merge_names(base, front);
        assert(merged.take(base.len() as int) =~= before.take(base.len() as int));
        assert forall|name: Seq<char>| merged.contains(name) <==> base.contains(name)
            || extra.contains(name) by {
            if merged.contains(name) {
                let k = choose|k: int| 0 <= k < merged.len() && merged[k] == name;
                if k < before.len() {
                    assert(before[k] == name);
                    assert(before.contains(name));
                    if front.contains(name) {
                        let j = choose|j: int| 0 <= j < front.len() && front[j] == name;
                        assert(extra[j] == name);
                    }
                } else {
                    assert(extra[extra.len() - 1] == name);
                }
            }
            if base.contains(name) {
                assert(before.contains(name));
                let k = choose|k: int| 0 <= k < before.len() && before[k] == name;
                assert(merged[k] == name);
            }
            if extra.contains(name) {
                let j = choose|j: int| 0 <= j < extra.len() && extra[j] == name;
                if j < front.len() {
                    assert(front[j] == name);
                    assert(front.contains(name));
                    assert(before.contains(name));
                    let k = choose|k: int| 0 <= k < before.len() && before[k] == name;
                    assert(merged[k] == name);
                } else if before.contains(name) {
                    let k = choose|k: int| 0 <= k < before.len() && before[k] == name;
                    assert(merged[k] == name);
                } else {
                    assert(merged[before.len() as int] == name);
                }
            }
        }
    }
}

/// Each overlay mount is that of a partition, its layers are the directories
/// of the modules laid over that partition, none is without a layer, and the
/// mounts follow the order of the partitions.
pub proof fn lemma_overlay_ops_follow_partitions(
    order: Seq<ModuleInfo>,
    modes: Seq<ModeEntry>,
    parts: Seq<Seq<char>>,
    i: int,
) -> (k: int)
    requires
        0 <= i < overlay_ops_of(order, modes, parts).len(),
    ensures
        i <= k < parts.len(),
        overlay_ops_of(order, modes, parts)[i].target == overlay_target(parts[k]),
        overlay_ops_of(order, modes, parts)[i].layers == module_paths(
            contributing(order, modes, parts[k]),
        ),
        overlay_ops_of(order, modes, parts)[i].layers.len() > 0,
    decreases parts.len(),
{
    let ops = overlay_ops_of(order, modes, parts);
    let rest = overlay_ops_of(order, modes, parts.drop_last());
    lemma_overlay_ops_len(order, modes, parts.drop_last());
    if i < rest.len() {
        let k = lemma_overlay_ops_follow_partitions(order, modes, parts.drop_last(), i);
        assert(ops[i] == rest[i]);
        assert(parts.drop_last()[k] == parts[k]);
        k
    } else {
        parts.len() - 1
    }
}

/// There are no more overlay mounts than partitions.
proof fn lemma_overlay_ops_len(order: Seq<ModuleInfo>, modes: Seq<ModeEntry>, parts: Seq<Seq<char>>)
    ensures
        overlay_ops_of(order, modes, parts).len() <= parts.len(),
    decreases parts.len(),
{
    if parts.len() > 0 {
        lemma_overlay_ops_len(order, modes, parts.drop_last());
    }
}

/// The overlay of `/system`, where the plan has one, is the first of the
/// overlay mounts: it is mounted before the partitions that may be links
/// beneath it.
pub proof fn lemma_system_is_mounted_first(
    mods: Seq<ModuleInfo>,
    modes: Seq<ModeEntry>,
    extra: Seq<Seq<char>>,
    i: int,
)
    requires
        0 <= i < overlay_ops_of(plan_order(mods), modes, all_partitions(extra)).len(),
        overlay_ops_of(plan_order(mods), modes, all_partitions(extra))[i].target == overlay_target(
            "system"@,
        ),
    ensures
        i == 0,
{
    let parts = all_partitions(extra);
    lemma_builtin_partitions();
    lemma_merge_names(builtin_partitions(), extra);
    let k = lemma_overlay_ops_follow_partitions(plan_order(mods), modes, parts, i);
    assert(parts[0] == parts.take(5)[0]);
    let a = overlay_target(parts[k]);
    let b = overlay_target("system"@);
    assert(a.skip(1) =~= parts[k]);
    assert(b.skip(1) =~= "system"@);
    assert(parts[k] == parts[0]);
}

} // verus!
