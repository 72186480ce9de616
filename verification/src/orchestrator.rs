//! The run as a whole: the steps that carry out a plan, and the record that
//! is kept of it.

use vstd::prelude::*;
use crate::config::ConfigData;
use crate::paths::clone_strings;
use crate::planner::{MountPlan, OverlayOperation};
use crate::state::{RuntimeState, RuntimeStateView};
use crate::storage::StorageHandle;
use crate::text::views;

verus! {

/// One step of a run. A step that fails is logged and the run goes on.
#[derive(Clone, Debug, PartialEq, Eq)]
pub enum MountStep {
    /// Mount an overlay of the directories over the partition.
    Overlay { target: String, lowerdirs: Vec<String>, disable_umount: bool },
    /// Register the path for a deferred unmount.
    Unmountable { path: String },
    /// Send the rules that make the module's files appear beneath the base.
    Inject { target_base: String, module_dir: String },
    /// Write the record of the run.
    SaveState,
}

/// A step as plain values.
pub enum MountStepView {
    Overlay { target: Seq<char>, lowerdirs: Seq<Seq<char>>, disable_umount: bool },
    Unmountable { path: Seq<char> },
    Inject { target_base: Seq<char>, module_dir: Seq<char> },
    SaveState,
}

impl View for MountStep {
    type V = MountStepView;

    open spec fn view(&self) -> MountStepView {
        match self {
            MountStep::Overlay { target, lowerdirs, disable_umount } => MountStepView::Overlay {
                target: target@,
                lowerdirs: views(lowerdirs@),
                disable_umount: *disable_umount,
            },
            MountStep::Unmountable { path } => MountStepView::Unmountable { path: path@ },
            MountStep::Inject { target_base, module_dir } => MountStepView::Inject {
                target_base: target_base@,
                module_dir: module_dir@,
            },
            MountStep::SaveState => MountStepView::SaveState,
        }
    }
}

/// The steps as plain values.
pub open spec fn step_views(steps: Seq<MountStep>) -> Seq<MountStepView> {
    steps.map_values(|s: MountStep| s@)
}

/// Whether the plan holds nothing to mount.
pub open spec fn is_idle(plan: MountPlan) -> bool {
    plan.overlay_ops@.len() == 0 && plan.magic_module_paths@.len() == 0
}

/// One overlay mount for each operation of the plan, in their order.
pub open spec fn overlay_steps(ops: Seq<OverlayOperation>, disable_umount: bool) -> Seq<MountStepView> {
    ops.map_values(
        |o: OverlayOperation|
            MountStepView::Overlay { target: o.target@, lowerdirs: views(o.layers@), disable_umount },
    )
}

/// One deferred unmount for the target of each operation, unless deferred
/// unmounts are switched off.
pub open spec fn unmount_steps(ops: Seq<OverlayOperation>, disable_umount: bool) -> Seq<MountStepView> {
    if disable_umount {
        Seq::<MountStepView>::empty()
    } else {
        ops.map_values(|o: OverlayOperation| MountStepView::Unmountable { path: o.target@ })
    }
}

/// One injection beneath the root for each module left to magic mount.
pub open spec fn inject_steps(paths: Seq<String>) -> Seq<MountStepView> {
    paths.map_values(|p: String| MountStepView::Inject { target_base: "/"@, module_dir: p@ })
}

/// The steps that carry out a plan: none where it holds nothing to mount;
/// else the overlay mounts, the deferred unmounts, the injections, and the
/// writing of the record.
pub open spec fn steps_of(plan: MountPlan, disable_umount: bool) -> Seq<MountStepView> {
    if is_idle(plan) {
        Seq::<MountStepView>::empty()
    } else {
        overlay_steps(plan.overlay_ops@, disable_umount) + unmount_steps(
            plan.overlay_ops@,
            disable_umount,
        ) + inject_steps(plan.magic_module_paths@) + seq![MountStepView::SaveState]
    }
}

/// The steps that carry out `plan` under `config`.
pub fn mount(config: &ConfigData, plan: &MountPlan) -> (steps: Vec<MountStep>)
    ensures
        step_views(steps@) == steps_of(*plan, config.disable_umount),
{
    let mut steps: Vec<MountStep> = Vec::new();
    if plan.overlay_ops.len() == 0 && plan.magic_module_paths.len() == 0 {
        proof {
            assert(step_views(steps@) =~= Seq::<MountStepView>::empty());
        }
        return steps;
    }
    let disable_umount = config.disable_umount;
    let ghost ops = plan.overlay_ops@;
    let mut i: usize = 0;
    while i < plan.overlay_ops.len()
        invariant
            i <= plan.overlay_ops.len(),
            ops == plan.overlay_ops@,
            step_views(steps@) == overlay_steps(ops.take(i as int), disable_umount),
        decreases plan.overlay_ops.len() - i,
    {
        let op = &plan.overlay_ops[i];
        let ghost before = steps@;
        steps.push(
            MountStep::Overlay {
                target: op.target.clone(),
                lowerdirs: clone_strings(&op.layers),
                disable_umount,
            },
        );
        proof {
            assert(step_views(steps@) =~= step_views(before).push(steps@[i as int]@));
            assert(overlay_steps(ops.take(i as int + 1), disable_umount) =~= overlay_steps(
                ops.take(i as int),
                disable_umount,
            ).push(
                MountStepView::Overlay {
                    target: op.target@,
                    lowerdirs: views(op.layers@),
                    disable_umount,
                },
            ));
        }
        i = i + 1;
    }
    proof {
        assert(ops.take(i as int) =~= ops);
    }
    let ghost mounted = steps@;
    if !disable_umount {
        let mut j: usize = 0;
        while j < plan.overlay_ops.len()
            invariant
                j <= plan.overlay_ops.len(),
                ops == plan.overlay_ops@,
                !disable_umount,
                step_views(steps@) == step_views(mounted) + unmount_steps(
                    ops.take(j as int),
                    disable_umount,
                ),
            decreases plan.overlay_ops.len() - j,
        {
            let op = &plan.overlay_ops[j];
            let ghost before = steps@;
            steps.push(MountStep::Unmountable { path: op.target.clone() });
            proof {
                assert(step_views(steps@) =~= step_views(before).push(
                    MountStepView::Unmountable { path: op.target@ },
                ));
                assert(unmount_steps(ops.take(j as int + 1), disable_umount) =~= unmount_steps(
                    ops.take(j as int),
                    disable_umount,
                ).push(MountStepView::Unmountable { path: op.target@ }));
            }
            j = j + 1;
        }
        proof {
            assert(ops.take(j as int) =~= ops);
        }
    } else {
        proof {
            assert(step_views(steps@) =~= step_views(mounted) + unmount_steps(ops, disable_umount));
        }
    }
    let ghost registered = steps@;
    let ghost paths = plan.magic_module_paths@;
    let mut k: usize = 0;
    while k < plan.magic_module_paths.len()
        invariant
            k <= plan.magic_module_paths.len(),
            paths == plan.magic_module_paths@,
            step_views(steps@) == step_views(registered) + inject_steps(paths.take(k as int)),
        decreases plan.magic_module_paths.len() - k,
    {
        let ghost before = steps@;
        steps.push(
            MountStep::Inject {
                target_base: "/".to_string(),
                module_dir: plan.magic_module_paths[k].clone(),
            },
        );
        proof {
            let added = MountStepView::Inject { target_base: "/"@, module_dir: paths[k as int]@ };
            assert(step_views(steps@) =~= step_views(before).push(added));
            assert(inject_steps(paths.take(k as int + 1)) =~= inject_steps(
                paths.take(k as int),
            ).push(added));
        }
        k = k + 1;
    }
    proof {
        assert(paths.take(k as int) =~= paths);
    }
    let ghost injected = steps@;
    steps.push(MountStep::SaveState);
    proof {
        assert(step_views(steps@) =~= step_views(injected).push(MountStepView::SaveState));
        assert(step_views(steps@) =~= steps_of(*plan, disable_umount));
    }
    steps
}

/// The record of a run that carried out `plan` on the writable root
/// `storage`.
pub fn run_state(
    timestamp: u64,
    pid: u32,
    storage: &StorageHandle,
    plan: &MountPlan,
    nuke_active: bool,
) -> (r: RuntimeState)
    ensures
        r@ == (RuntimeStateView {
            timestamp,
            pid,
            storage_mode: storage.mode@,
            mount_point: storage.mount_point@,
            overlay_modules: views(plan.overlay_module_ids@),
            magic_modules: views(plan.magic_module_ids@),
            nuke_active,
        }),
{
    RuntimeState::new(
        timestamp,
        pid,
        storage.mode.clone(),
        storage.mount_point.clone(),
        clone_strings(&plan.overlay_module_ids),
        clone_strings(&plan.magic_module_ids),
        nuke_active,
    )
}

} // verus!
