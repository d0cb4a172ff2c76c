//! The scheduler's guarantees, stated and proved over the phase models.
//!
//! Each proof function here is a standalone statement about the spec
//! functions that the executable phases are proved equal to: batch sizes
//! are maximal, a full crafting cycle converts exactly by the recipe's
//! ratios, an empty-handed machine is a fixed point, and the Push phase
//! conserves every item type.

use vstd::prelude::*;

use vstd::arithmetic::div_mod::lemma_div_of0;
use vstd::arithmetic::div_mod::lemma_div_pos_is_pos;

use crate::pipeline::machine::batch_size;
use crate::pipeline::machine::clamp_inputs_from;
use crate::pipeline::machine::craft_spec;
use crate::pipeline::machine::drain_slots_from;
use crate::pipeline::machine::fill_slots_from;
use crate::pipeline::machine::input_slot_of;
use crate::pipeline::machine::lemma_clamp_inputs_ge;
use crate::pipeline::machine::lemma_clamp_inputs_le;
use crate::pipeline::machine::lemma_clamp_outputs_ge;
use crate::pipeline::machine::lemma_clamp_outputs_le;
use crate::pipeline::machine::lemma_drain_slots_from;
use crate::pipeline::machine::lemma_fill_slots_from;
use crate::pipeline::machine::lemma_mul_gt_of_gt_div;
use crate::pipeline::machine::lemma_mul_le_of_le_div;
use crate::pipeline::machine::lemma_push_machines_upto_props;
use crate::pipeline::machine::lemma_sums_bounds;
use crate::pipeline::machine::machine_wf;
use crate::pipeline::machine::mult_of;
use crate::pipeline::machine::output_slot_of;
use crate::pipeline::machine::progress_spec;
use crate::pipeline::machine::push_spec;
use crate::pipeline::machine::ready_spec;
use crate::pipeline::machine::same_shape;
use crate::pipeline::machine::sum_current;
use crate::pipeline::machine::sum_current_from;
use crate::pipeline::machine::sum_remaining;
use crate::pipeline::machine::total_current;
use crate::pipeline::machine::world_wf;
use crate::pipeline::machine::MachineCoupling;
use crate::pipeline::machine::MachineModel;
use crate::pipeline::machine::MachineStatus;
use crate::pipeline::machine::Working;
use crate::pipeline::IoBuffer;
use crate::ItemType;

verus! {

/// A batch of `k` simultaneous crafts fits machine `m`: withdrawing
/// `required * k` from every input type and depositing `produced * k` into
/// every output type stays within the buffer bounds.
pub open spec fn batch_feasible(m: MachineModel, k: int) -> bool {
    &&& forall|j: int|
        0 <= j < 4 ==> ((#[trigger] m.recipe.inputs[j]) matches Some(s) ==> s.amount as int * k
            <= sum_current(m.input_buffers, s.item_type))
    &&& forall|j: int|
        0 <= j < 4 ==> ((#[trigger] m.recipe.outputs[j]) matches Some(s) ==> s.amount as int * k
            <= sum_remaining(m.output_buffers, s.item_type))
}

/// LAW: the Ready phase's batch size is the largest feasible batch under
/// the throughput multiplier — it is itself feasible and non-negative, and
/// every larger candidate up to the multiplier is infeasible — and a zero
/// batch leaves an `Idle` machine, buffers included, unchanged.
#[verifier::rlimit(40)]
pub proof fn lemma_batch_size_maximal(m: MachineModel)
    requires
        machine_wf(m),
    ensures
        0 <= batch_size(m) <= mult_of(m),
        batch_feasible(m, batch_size(m)),
        forall|k: int| batch_size(m) < k <= mult_of(m) ==> !batch_feasible(m, k),
        batch_size(m) == 0 && m.status is Idle ==> ready_spec(m) == m,
{
    let r = m.recipe;
    let ins = m.input_buffers;
    let outs = m.output_buffers;
    let n1 = clamp_inputs_from(r, ins, mult_of(m), 0);
    let n = batch_size(m);
    lemma_clamp_inputs_le(r, ins, mult_of(m), 0);
    lemma_clamp_outputs_le(r, outs, n1, 0);
    // the clamps never go below zero: every slot limit is non-negative
    assert(0 <= n) by {
        assert forall|j: int|
            0 <= j < 4 implies ((#[trigger] r.inputs[j]) matches Some(s) ==> 0 <= sum_current(
            ins,
            s.item_type,
        ) / (s.amount as int)) by {
            match r.inputs[j] {
                Some(s) => {
                    lemma_sums_bounds(ins, s.item_type, 0);
                    lemma_div_pos_is_pos(sum_current(ins, s.item_type), s.amount as int);
                },
                None => {},
            }
        }
        lemma_clamp_inputs_ge(r, ins, mult_of(m), 0, 0);
        assert forall|j: int|
            0 <= j < 4 implies ((#[trigger] r.outputs[j]) matches Some(s) ==> 0 <= sum_remaining(
            outs,
            s.item_type,
        ) / (s.amount as int)) by {
            match r.outputs[j] {
                Some(s) => {
                    lemma_sums_bounds(outs, s.item_type, 0);
                    lemma_div_pos_is_pos(sum_remaining(outs, s.item_type), s.amount as int);
                },
                None => {},
            }
        }
        lemma_clamp_outputs_ge(r, outs, n1, 0, 0);
    }
    // the batch size itself is feasible
    assert forall|j: int|
        0 <= j < 4 implies ((#[trigger] r.inputs[j]) matches Some(s) ==> s.amount as int * n
        <= sum_current(ins, s.item_type)) by {
        match r.inputs[j] {
            Some(s) => {
                lemma_sums_bounds(ins, s.item_type, 0);
                assert(n <= n1);
                assert(n1 <= sum_current(ins, s.item_type) / (s.amount as int));
                lemma_mul_le_of_le_div(sum_current(ins, s.item_type), s.amount as int, n);
            },
            None => {},
        }
    }
    assert forall|j: int|
        0 <= j < 4 implies ((#[trigger] r.outputs[j]) matches Some(s) ==> s.amount as int * n
        <= sum_remaining(outs, s.item_type)) by {
        match r.outputs[j] {
            Some(s) => {
                lemma_sums_bounds(outs, s.item_type, 0);
                assert(n <= sum_remaining(outs, s.item_type) / (s.amount as int));
                lemma_mul_le_of_le_div(sum_remaining(outs, s.item_type), s.amount as int, n);
            },
            None => {},
        }
    }
    // and no larger batch under the multiplier is
    assert forall|k: int| n < k <= mult_of(m) implies !batch_feasible(m, k) by {
        if batch_feasible(m, k) {
            assert forall|j: int|
                0 <= j < 4 implies ((#[trigger] r.inputs[j]) matches Some(s) ==> k <= sum_current(
                ins,
                s.item_type,
            ) / (s.amount as int)) by {
                match r.inputs[j] {
                    Some(s) => {
                        lemma_sums_bounds(ins, s.item_type, 0);
                        if k > sum_current(ins, s.item_type) / (s.amount as int) {
                            lemma_mul_gt_of_gt_div(
                                sum_current(ins, s.item_type),
                                s.amount as int,
                                k,
                            );
                        }
                    },
                    None => {},
                }
            }
            lemma_clamp_inputs_ge(r, ins, mult_of(m), 0, k);
            assert forall|j: int|
                0 <= j < 4 implies ((#[trigger] r.outputs[j]) matches Some(s) ==> k
                <= sum_remaining(outs, s.item_type) / (s.amount as int)) by {
                match r.outputs[j] {
                    Some(s) => {
                        lemma_sums_bounds(outs, s.item_type, 0);
                        if k > sum_remaining(outs, s.item_type) / (s.amount as int) {
                            lemma_mul_gt_of_gt_div(
                                sum_remaining(outs, s.item_type),
                                s.amount as int,
                                k,
                            );
                        }
                    },
                    None => {},
                }
            }
            lemma_clamp_outputs_ge(r, outs, n1, 0, k);
            assert(k <= n);
            assert(false);
        }
    }
}

/// What the Ready phase does to an `Idle` machine with a feasible batch:
/// it withdraws exactly `required * n` of every filled input slot's type,
/// touches no other type and no output buffer, and starts
/// `Working(recipe.ticks, n)`; and the machine stays well formed.
pub proof fn lemma_ready_spec_effect(m: MachineModel)
    requires
        machine_wf(m),
        m.status is Idle,
        batch_size(m) >= 1,
    ensures
        ({
            let n = batch_size(m);
            let m1 = ready_spec(m);
            &&& m1.status == MachineStatus::Working(
                Working { ticks_remaining: m.recipe.ticks, amount: n as u64 },
            )
            &&& m1.output_buffers == m.output_buffers
            &&& m1.recipe == m.recipe
            &&& m1.kind == m.kind
            &&& m1.mult == m.mult
            &&& m1.input_bank == m.input_bank
            &&& m1.output_bank == m.output_bank
            &&& m1.input_buffers.len() == m.input_buffers.len()
            &&& forall|t: ItemType|
                #[trigger] sum_current(m1.input_buffers, t) == sum_current(m.input_buffers, t) - (
                match input_slot_of(m.recipe, t, 0) {
                    Some(s) => s.amount as int * n,
                    None => 0,
                })
            &&& machine_wf(m1)
        }),
{
    let n = batch_size(m);
    lemma_batch_size_maximal(m);
    lemma_drain_slots_from(m.recipe, m.input_buffers, n, 0);
}

/// `progress_spec` applied `k` times.
pub open spec fn progress_iter(m: MachineModel, k: nat) -> MachineModel
    decreases k,
{
    if k == 0 {
        m
    } else {
        progress_spec(progress_iter(m, (k - 1) as nat))
    }
}

/// The batch a status carries, if any.
pub open spec fn batch_of(st: MachineStatus) -> Option<u64> {
    match st {
        MachineStatus::Working(w) => Some(w.amount),
        MachineStatus::CraftsFinished(n) => Some(n),
        _ => None,
    }
}

/// LAW: the Progress phase never touches a buffer and never changes the
/// batch in flight — after any number of Progress steps the machine holds
/// the same buffers and the same batch, and stays well formed.
pub proof fn lemma_progress_iter_keeps_batch(m: MachineModel, k: nat)
    requires
        machine_wf(m),
    ensures
        ({
            let m2 = progress_iter(m, k);
            &&& m2.input_buffers == m.input_buffers
            &&& m2.output_buffers == m.output_buffers
            &&& m2.recipe == m.recipe
            &&& m2.kind == m.kind
            &&& m2.mult == m.mult
            &&& m2.input_bank == m.input_bank
            &&& m2.output_bank == m.output_bank
            &&& batch_of(m2.status) == batch_of(m.status)
            &&& (m.status is Idle ==> m2.status is Idle)
            &&& machine_wf(m2)
        }),
    decreases k,
{
    if k == 0 {
    } else {
        lemma_progress_iter_keeps_batch(m, (k - 1) as nat);
    }
}

/// What the Craft phase does to a `CraftsFinished(n)` machine: it deposits
/// exactly `produced * n` of every filled output slot's type — the headroom
/// the Ready phase reserved makes it fit — touches no other type and no
/// input buffer, and returns to `Idle` well formed.
pub proof fn lemma_craft_spec_effect(m: MachineModel)
    requires
        machine_wf(m),
        m.status matches MachineStatus::CraftsFinished(n),
    ensures
        ({
            let n = batch_of(m.status)->Some_0;
            let m2 = craft_spec(m);
            &&& m2.status is Idle
            &&& m2.input_buffers == m.input_buffers
            &&& m2.recipe == m.recipe
            &&& m2.kind == m.kind
            &&& m2.mult == m.mult
            &&& m2.input_bank == m.input_bank
            &&& m2.output_bank == m.output_bank
            &&& m2.output_buffers.len() == m.output_buffers.len()
            &&& forall|t: ItemType|
                #[trigger] sum_current(m2.output_buffers, t) == sum_current(m.output_buffers, t)
                    + (match output_slot_of(m.recipe, t, 0) {
                    Some(s) => s.amount as int * (n as int),
                    None => 0,
                })
            &&& machine_wf(m2)
        }),
{
    match m.status {
        MachineStatus::CraftsFinished(n) => {
            lemma_fill_slots_from(m.recipe, m.output_buffers, n as int, 0);
        },
        _ => {},
    }
}

/// LAW: every per-machine phase preserves machine well-formedness — in
/// particular, every buffer keeps `0 <= current <= max`.
pub proof fn lemma_phases_preserve_wf(m: MachineModel)
    requires
        machine_wf(m),
    ensures
        machine_wf(ready_spec(m)),
        machine_wf(progress_spec(m)),
        machine_wf(craft_spec(m)),
{
    if m.status is Idle && batch_size(m) >= 1 {
        lemma_ready_spec_effect(m);
    }
    lemma_progress_iter_keeps_batch(m, 1);
    assert(progress_iter(m, 1) == progress_spec(m)) by {
        reveal_with_fuel(progress_iter, 2);
    }
    match m.status {
        MachineStatus::CraftsFinished(_) => {
            lemma_craft_spec_effect(m);
        },
        _ => {},
    }
}

/// LAW (conservation): across one full crafting cycle — Ready reserving a
/// batch of `n`, any number of Progress steps until the crafts are
/// finished, then Craft — the machine withdraws exactly `required * n` of
/// every filled input slot's type and deposits exactly `produced * n` of
/// every filled output slot's type; no other buffer total changes, and the
/// machine ends `Idle` and well formed.
pub proof fn lemma_cycle_conservation(m: MachineModel, k: nat)
    requires
        machine_wf(m),
        m.status is Idle,
        batch_size(m) >= 1,
        progress_iter(ready_spec(m), k).status is CraftsFinished,
    ensures
        ({
            let n = batch_size(m);
            let done = craft_spec(progress_iter(ready_spec(m), k));
            &&& done.status is Idle
            &&& machine_wf(done)
            &&& forall|t: ItemType|
                #[trigger] sum_current(done.input_buffers, t) == sum_current(m.input_buffers, t)
                    - (match input_slot_of(m.recipe, t, 0) {
                    Some(s) => s.amount as int * n,
                    None => 0,
                })
            &&& forall|t: ItemType|
                #[trigger] sum_current(done.output_buffers, t) == sum_current(m.output_buffers, t)
                    + (match output_slot_of(m.recipe, t, 0) {
                    Some(s) => s.amount as int * n,
                    None => 0,
                })
        }),
{
    let n = batch_size(m);
    let m1 = ready_spec(m);
    lemma_batch_size_maximal(m);
    lemma_ready_spec_effect(m);
    lemma_progress_iter_keeps_batch(m1, k);
    let m2 = progress_iter(m1, k);
    assert(batch_of(m2.status) == Some(n as u64));
    lemma_craft_spec_effect(m2);
}

/// Buffers that are all empty hold zero of every type.
proof fn lemma_sum_current_all_zero(bufs: Seq<IoBuffer>, t: ItemType, i: int)
    requires
        forall|k: int| 0 <= k < bufs.len() ==> (#[trigger] bufs[k]).buffer.current == 0,
    ensures
        sum_current_from(bufs, t, i) == 0,
    decreases bufs.len() - i,
{
    if i < 0 || i >= bufs.len() {
    } else {
        lemma_sum_current_all_zero(bufs, t, i + 1);
    }
}

/// LAW (empty tick): an `Idle` machine whose recipe needs some input while
/// all its input buffers are empty is a fixed point of Ready, Progress and
/// Craft — ticking it any number of times changes neither its status nor
/// any buffer.
pub proof fn lemma_empty_tick_fixed_point(m: MachineModel)
    requires
        machine_wf(m),
        m.status is Idle,
        exists|j: int| 0 <= j < 4 && (#[trigger] m.recipe.inputs[j]) is Some,
        forall|k: int|
            0 <= k < m.input_buffers.len() ==> (#[trigger] m.input_buffers[k]).buffer.current
                == 0,
    ensures
        ready_spec(m) == m,
        progress_spec(m) == m,
        craft_spec(m) == m,
{
    let j = choose|j: int| 0 <= j < 4 && (#[trigger] m.recipe.inputs[j]) is Some;
    match m.recipe.inputs[j] {
        Some(s) => {
            lemma_sum_current_all_zero(m.input_buffers, s.item_type, 0);
            lemma_div_of0(s.amount as int);
            lemma_clamp_inputs_le(m.recipe, m.input_buffers, mult_of(m), 0);
            let n1 = clamp_inputs_from(m.recipe, m.input_buffers, mult_of(m), 0);
            assert(n1 <= sum_current(m.input_buffers, s.item_type) / (s.amount as int));
            lemma_clamp_outputs_le(m.recipe, m.output_buffers, n1, 0);
            assert(batch_size(m) <= 0);
        },
        None => {
            assert(false);
        },
    }
}

/// LAW: the Push phase moves items without creating or destroying them:
/// for every item type the arena-wide total over all buffers is unchanged;
/// every machine keeps its status, recipe, kind, banks and multiplier; and
/// the arena stays well formed — no destination exceeds its bound, no
/// source goes negative.
pub proof fn lemma_push_conserves(ms: Seq<MachineModel>, couplings: Seq<MachineCoupling>)
    requires
        world_wf(ms, couplings),
    ensures
        push_spec(ms, couplings).len() == ms.len(),
        world_wf(push_spec(ms, couplings), couplings),
        forall|t: ItemType|
            #[trigger] total_current(push_spec(ms, couplings), t) == total_current(ms, t),
        forall|i: int|
            0 <= i < ms.len() ==> same_shape(#[trigger] push_spec(ms, couplings)[i], ms[i]),
{
    lemma_push_machines_upto_props(ms, couplings, ms.len() as int);
}

} // verus!
