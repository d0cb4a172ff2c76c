//! Machines, their status state machine, and the four-phase tick scheduler.
//!
//! A [`Machine`] owns typed input and output buffers and follows the
//! lifecycle `Idle -> Working -> CraftsFinished -> Idle`, one transition per
//! scheduler phase. Machines live in an arena (`Vec<Machine>`), indexed by
//! `usize` handles; couplings are edge records referencing those handles.

use vstd::prelude::*;

use vstd::arithmetic::div_mod::lemma_div_pos_is_pos;
use vstd::arithmetic::div_mod::lemma_remainder_lower;
use vstd::arithmetic::div_mod::lemma_remainder_upper;
use vstd::arithmetic::mul::lemma_mul_inequality;
use vstd::arithmetic::mul::lemma_mul_is_commutative;
use vstd::arithmetic::mul::lemma_mul_is_distributive_add_other_way;
use vstd::pervasive::VecAdditionalExecFns;

use crate::pipeline::recipe::recipe_wf;
use crate::pipeline::recipe::ItemStack;
use crate::pipeline::recipe::RecipeNew;
use crate::pipeline::IoBuffer;
use crate::ItemType;

verus! {

pub const DEFAULT_BUFFER_SIZE: u64 = 50;

/// Bounded counter: `current` items held, at most `max`.
#[derive(Clone, Copy, Debug, PartialEq, Eq, Structural)]
pub struct ItemBuffer {
    pub current: u64,
    pub max: u64,
}

impl ItemBuffer {
    /// Invariant of every observable buffer: `0 <= current <= max`
    /// (the lower bound is the type's).
    pub open spec fn inv(self) -> bool {
        self.current <= self.max
    }

    /// The value `ItemBuffer::new` returns: empty, with the default bound.
    pub open spec fn default_spec() -> ItemBuffer {
        ItemBuffer { current: 0u64, max: DEFAULT_BUFFER_SIZE }
    }

    pub fn new() -> (b: ItemBuffer)
        ensures
            b == ItemBuffer::default_spec(),
            b.inv(),
    {
        ItemBuffer { current: 0, max: DEFAULT_BUFFER_SIZE }
    }

    pub fn with_capacity(max: u64) -> (b: ItemBuffer)
        ensures
            b.current == 0,
            b.max == max,
            b.inv(),
    {
        ItemBuffer { current: 0, max }
    }

    /// Free capacity: `max - current`.
    pub fn remaining(&self) -> (r: u64)
        requires
            self.inv(),
        ensures
            r == self.max - self.current,
    {
        self.max - self.current
    }

    /// Increase `current` by `amount`; the caller pre-clamps via
    /// `remaining()`, so the bound is never exceeded.
    pub fn deposit(&mut self, amount: u64)
        requires
            old(self).inv(),
            amount <= old(self).max - old(self).current,
        ensures
            final(self).current == old(self).current + amount,
            final(self).max == old(self).max,
            final(self).inv(),
    {
        self.current = self.current + amount;
    }

    /// Decrease `current` by `amount`; the caller guarantees
    /// `amount <= current`.
    pub fn withdraw(&mut self, amount: u64)
        requires
            amount <= old(self).current,
        ensures
            final(self).current == old(self).current - amount,
            final(self).max == old(self).max,
            old(self).inv() ==> final(self).inv(),
    {
        self.current = self.current - amount;
    }
}

/// The machine kind a recipe is keyed by.
#[derive(Clone, Copy, Debug, PartialEq, Eq, Structural)]
pub enum MachineKind {
    Producer,
    Transformer,
    Combinator,
    Separator,
    Storage,
}

/// Payload of the `Working` status: ticks left and the batch size being
/// crafted.
#[derive(Clone, Copy, Debug, PartialEq, Eq, Structural)]
pub struct Working {
    pub ticks_remaining: u64,
    pub amount: u64,
}

/// Machine lifecycle status. The scheduler transitions
/// `Idle -> Working -> CraftsFinished -> Idle`; `Full` and `LacksInput` are
/// observational labels for display, never targets of a scheduler
/// transition.
#[derive(Clone, Copy, Debug, PartialEq, Eq, Structural)]
pub enum MachineStatus {
    Working(Working),
    Full,
    LacksInput,
    CraftsFinished(u64),
    Idle,
}

/// Coupling handles arriving at a machine's inputs.
#[derive(Clone, Debug)]
pub struct InputBank(pub Vec<usize>);

/// A coupling's reference to its destination machine.
#[derive(Clone, Copy, Debug, PartialEq, Eq, Structural)]
pub struct InputPort(pub usize);

/// Coupling handles leaving a machine's outputs.
#[derive(Clone, Debug)]
pub struct OutputBank(pub Vec<usize>);

/// A coupling's reference to its source machine.
#[derive(Clone, Copy, Debug, PartialEq, Eq, Structural)]
pub struct OutputPort(pub usize);

/// The item type a coupling carries.
#[derive(Clone, Copy, Debug, PartialEq, Eq, Structural)]
pub struct BufferType(pub ItemType);

/// Directed edge: the source machine's output buffer of `buffer_type` feeds
/// the destination machine's input buffer of the same type.
#[derive(Clone, Copy, Debug, PartialEq, Eq, Structural)]
pub struct MachineCoupling {
    pub input_port: InputPort,
    pub output_port: OutputPort,
    pub buffer_type: BufferType,
}

/// A machine's input ports.
#[derive(Clone, Debug)]
pub struct InputBuffers(pub Vec<IoBuffer>);

/// A machine's output ports.
#[derive(Clone, Debug)]
pub struct OutputBuffers(pub Vec<IoBuffer>);

/// Throughput multiplier: this many recipe-durations of crafting are
/// compressed into one real tick.
#[derive(Clone, Copy, Debug, PartialEq, Eq, Structural)]
pub struct Mult(pub u64);

impl InputBank {
    pub fn new() -> (r: InputBank)
        ensures
            r.0@ == Seq::<usize>::empty(),
    {
        InputBank(Vec::new())
    }

    pub fn with_capacity(capacity: usize) -> (r: InputBank)
        ensures
            r.0@ == Seq::<usize>::empty(),
    {
        InputBank(Vec::with_capacity(capacity))
    }
}

impl OutputBank {
    pub fn new() -> (r: OutputBank)
        ensures
            r.0@ == Seq::<usize>::empty(),
    {
        OutputBank(Vec::new())
    }

    pub fn with_capacity(capacity: usize) -> (r: OutputBank)
        ensures
            r.0@ == Seq::<usize>::empty(),
    {
        OutputBank(Vec::with_capacity(capacity))
    }
}

/// A production machine: buffers, recipe, lifecycle status, and an optional
/// throughput multiplier (absent means 1).
#[derive(Clone, Debug)]
pub struct Machine {
    pub kind: MachineKind,
    pub input_bank: InputBank,
    pub input_buffers: InputBuffers,
    pub output_bank: OutputBank,
    pub output_buffers: OutputBuffers,
    pub recipe: RecipeNew,
    pub status: MachineStatus,
    pub mult: Option<Mult>,
}

/// Mathematical image of a [`Machine`]: the same data with every `Vec`
/// replaced by its sequence view.
#[verifier::ext_equal]
pub struct MachineModel {
    pub kind: MachineKind,
    pub input_bank: Seq<usize>,
    pub input_buffers: Seq<IoBuffer>,
    pub output_bank: Seq<usize>,
    pub output_buffers: Seq<IoBuffer>,
    pub recipe: RecipeNew,
    pub status: MachineStatus,
    pub mult: Option<Mult>,
}

impl View for Machine {
    type V = MachineModel;

    open spec fn view(&self) -> MachineModel {
        MachineModel {
            kind: self.kind,
            input_bank: self.input_bank.0@,
            input_buffers: self.input_buffers.0@,
            output_bank: self.output_bank.0@,
            output_buffers: self.output_buffers.0@,
            recipe: self.recipe,
            status: self.status,
            mult: self.mult,
        }
    }
}

/// The smaller of two integers.
pub open spec fn int_min(a: int, b: int) -> int {
    if a <= b {
        a
    } else {
        b
    }
}

/// Every buffer of the sequence meets its bound invariant.
pub open spec fn bufs_inv(s: Seq<IoBuffer>) -> bool {
    forall|i: int| 0 <= i < s.len() ==> (#[trigger] s[i]).inv()
}

/// Sum of `max` over the suffix of `s` starting at `i`.
pub open spec fn sum_max_from(s: Seq<IoBuffer>, i: int) -> int
    decreases s.len() - i,
{
    if i < 0 || i >= s.len() {
        0
    } else {
        s[i].buffer.max + sum_max_from(s, i + 1)
    }
}

/// Sum of `max` over all buffers.
pub open spec fn sum_max(s: Seq<IoBuffer>) -> int {
    sum_max_from(s, 0)
}

/// Sum of `current` over buffers of type `t` in the suffix starting at `i`.
pub open spec fn sum_current_from(s: Seq<IoBuffer>, t: ItemType, i: int) -> int
    decreases s.len() - i,
{
    if i < 0 || i >= s.len() {
        0
    } else {
        (if s[i].item_type == t {
            s[i].buffer.current as int
        } else {
            0
        }) + sum_current_from(s, t, i + 1)
    }
}

/// Items of type `t` held across all buffers of the sequence.
pub open spec fn sum_current(s: Seq<IoBuffer>, t: ItemType) -> int {
    sum_current_from(s, t, 0)
}

/// Sum of free capacity over buffers of type `t` in the suffix starting at
/// `i`.
pub open spec fn sum_remaining_from(s: Seq<IoBuffer>, t: ItemType, i: int) -> int
    decreases s.len() - i,
{
    if i < 0 || i >= s.len() {
        0
    } else {
        (if s[i].item_type == t {
            s[i].buffer.max - s[i].buffer.current
        } else {
            0
        }) + sum_remaining_from(s, t, i + 1)
    }
}

/// Free capacity for type `t` across all buffers of the sequence.
pub open spec fn sum_remaining(s: Seq<IoBuffer>, t: ItemType) -> int {
    sum_remaining_from(s, t, 0)
}

/// Bounds tying the three aggregates together on a suffix.
pub proof fn lemma_sums_bounds(s: Seq<IoBuffer>, t: ItemType, i: int)
    ensures
        sum_max_from(s, i) >= 0,
        sum_current_from(s, t, i) >= 0,
        bufs_inv(s) ==> sum_remaining_from(s, t, i) >= 0,
        bufs_inv(s) ==> sum_current_from(s, t, i) + sum_remaining_from(s, t, i) <= sum_max_from(
            s,
            i,
        ),
    decreases s.len() - i,
{
    if i < 0 || i >= s.len() {
    } else {
        lemma_sums_bounds(s, t, i + 1);
    }
}

/// Updating a slot before `i` leaves every suffix aggregate from `i` on
/// unchanged.
pub proof fn lemma_sums_update_before(s: Seq<IoBuffer>, j: int, b: IoBuffer, t: ItemType, i: int)
    requires
        0 <= j < s.len(),
        j < i,
    ensures
        sum_current_from(s.update(j, b), t, i) == sum_current_from(s, t, i),
        sum_remaining_from(s.update(j, b), t, i) == sum_remaining_from(s, t, i),
        sum_max_from(s.update(j, b), i) == sum_max_from(s, i),
    decreases s.len() - i,
{
    if i < 0 || i >= s.len() {
    } else {
        lemma_sums_update_before(s, j, b, t, i + 1);
    }
}

/// Sum `current` across all buffers of type `t` (a recipe input may be
/// satisfied by more than one physical buffer of that type).
pub fn buffered_of_type(bufs: &Vec<IoBuffer>, t: ItemType) -> (r: u64)
    requires
        bufs_inv(bufs@),
        sum_max(bufs@) <= u64::MAX,
    ensures
        r == sum_current(bufs@, t),
{
    proof {
        lemma_sums_bounds(bufs@, t, 0);
    }
    let mut acc: u64 = 0;
    let mut i: usize = 0;
    while i < bufs.len()
        invariant
            0 <= i <= bufs@.len(),
            bufs_inv(bufs@),
            sum_max(bufs@) <= u64::MAX,
            acc + sum_current_from(bufs@, t, i as int) == sum_current(bufs@, t),
        decreases bufs@.len() - i,
    {
        let b = bufs[i];
        proof {
            lemma_sums_bounds(bufs@, t, i as int + 1);
            lemma_sums_bounds(bufs@, t, 0);
        }
        if b.item_type == t {
            acc = acc + b.buffer.current;
        }
        i = i + 1;
    }
    acc
}

/// Sum `remaining()` across all buffers of type `t`.
pub fn bufferable_of_type(bufs: &Vec<IoBuffer>, t: ItemType) -> (r: u64)
    requires
        bufs_inv(bufs@),
        sum_max(bufs@) <= u64::MAX,
    ensures
        r == sum_remaining(bufs@, t),
{
    proof {
        lemma_sums_bounds(bufs@, t, 0);
    }
    let mut acc: u64 = 0;
    let mut i: usize = 0;
    while i < bufs.len()
        invariant
            0 <= i <= bufs@.len(),
            bufs_inv(bufs@),
            sum_max(bufs@) <= u64::MAX,
            acc + sum_remaining_from(bufs@, t, i as int) == sum_remaining(bufs@, t),
        decreases bufs@.len() - i,
    {
        let b = bufs[i];
        proof {
            lemma_sums_bounds(bufs@, t, i as int + 1);
            lemma_sums_bounds(bufs@, t, 0);
            assert(b.inv());
        }
        if b.item_type == t {
            acc = acc + (b.buffer.max - b.buffer.current);
        }
        i = i + 1;
    }
    acc
}

/// One buffer after withdrawing `take` items.
pub open spec fn buf_take(b: IoBuffer, take: int) -> IoBuffer {
    IoBuffer {
        buffer: ItemBuffer { current: (b.buffer.current - take) as u64, max: b.buffer.max },
        item_type: b.item_type,
    }
}

/// One buffer after depositing `put` items.
pub open spec fn buf_put(b: IoBuffer, put: int) -> IoBuffer {
    IoBuffer {
        buffer: ItemBuffer { current: (b.buffer.current + put) as u64, max: b.buffer.max },
        item_type: b.item_type,
    }
}

/// Withdraw `w` items of type `t` from the buffers at or after `i`,
/// draining in buffer order; each buffer gives up to its `current`.
pub open spec fn drain_from(s: Seq<IoBuffer>, t: ItemType, w: int, i: int) -> Seq<IoBuffer>
    decreases s.len() - i,
{
    if i < 0 || i >= s.len() {
        s
    } else {
        let take = if s[i].item_type == t {
            int_min(w, s[i].buffer.current as int)
        } else {
            0
        };
        drain_from(s.update(i, buf_take(s[i], take)), t, w - take, i + 1)
    }
}

/// Deposit `w` items of type `t` into the buffers at or after `i`, filling
/// in buffer order; each buffer accepts up to its free capacity.
pub open spec fn fill_from(s: Seq<IoBuffer>, t: ItemType, w: int, i: int) -> Seq<IoBuffer>
    decreases s.len() - i,
{
    if i < 0 || i >= s.len() {
        s
    } else {
        let put = if s[i].item_type == t {
            int_min(w, s[i].buffer.max - s[i].buffer.current)
        } else {
            0
        };
        fill_from(s.update(i, buf_put(s[i], put)), t, w - put, i + 1)
    }
}

/// What draining does, buffer by buffer and to the aggregates.
pub proof fn lemma_drain_from(s: Seq<IoBuffer>, t: ItemType, w: int, i: int)
    requires
        0 <= w,
        0 <= i <= s.len(),
    ensures
        drain_from(s, t, w, i).len() == s.len(),
        forall|j: int| 0 <= j < i ==> drain_from(s, t, w, i)[j] == s[j],
        forall|j: int|
            i <= j < s.len() && s[j].item_type != t ==> drain_from(s, t, w, i)[j] == s[j],
        forall|j: int|
            i <= j < s.len() ==> {
                let r = (#[trigger] drain_from(s, t, w, i)[j]);
                r.item_type == s[j].item_type && r.buffer.max == s[j].buffer.max
                    && r.buffer.current <= s[j].buffer.current
            },
        sum_current_from(drain_from(s, t, w, i), t, i) == sum_current_from(s, t, i) - int_min(
            w,
            sum_current_from(s, t, i),
        ),
        sum_remaining_from(drain_from(s, t, w, i), t, i) == sum_remaining_from(s, t, i) + int_min(
            w,
            sum_current_from(s, t, i),
        ),
        forall|t2: ItemType|
            t2 != t ==> #[trigger] sum_current_from(drain_from(s, t, w, i), t2, i)
                == sum_current_from(s, t2, i),
        forall|t2: ItemType|
            t2 != t ==> #[trigger] sum_remaining_from(drain_from(s, t, w, i), t2, i)
                == sum_remaining_from(s, t2, i),
        sum_max_from(drain_from(s, t, w, i), i) == sum_max_from(s, i),
    decreases s.len() - i,
{
    lemma_sums_bounds(s, t, i);
    if i < 0 || i >= s.len() {
    } else {
        let take = if s[i].item_type == t {
            int_min(w, s[i].buffer.current as int)
        } else {
            0
        };
        let s1 = s.update(i, buf_take(s[i], take));
        lemma_sums_bounds(s, t, i + 1);
        lemma_drain_from(s1, t, w - take, i + 1);
        lemma_sums_update_before(s, i, buf_take(s[i], take), t, i + 1);
        if s[i].item_type == t {
            let cur = s[i].buffer.current as int;
            let suffix = sum_current_from(s, t, i + 1);
            assert(take + int_min(w - take, suffix) == int_min(w, cur + suffix));
        }
        assert forall|t2: ItemType| t2 != t implies #[trigger] sum_current_from(
            drain_from(s, t, w, i),
            t2,
            i,
        ) == sum_current_from(s, t2, i) by {
            lemma_sums_update_before(s, i, buf_take(s[i], take), t2, i + 1);
            assert(sum_current_from(drain_from(s1, t, w - take, i + 1), t2, i + 1)
                == sum_current_from(s1, t2, i + 1));
        }
        assert forall|t2: ItemType| t2 != t implies #[trigger] sum_remaining_from(
            drain_from(s, t, w, i),
            t2,
            i,
        ) == sum_remaining_from(s, t2, i) by {
            lemma_sums_update_before(s, i, buf_take(s[i], take), t2, i + 1);
            assert(sum_remaining_from(drain_from(s1, t, w - take, i + 1), t2, i + 1)
                == sum_remaining_from(s1, t2, i + 1));
        }
    }
}

/// What filling does, buffer by buffer and to the aggregates.
pub proof fn lemma_fill_from(s: Seq<IoBuffer>, t: ItemType, w: int, i: int)
    requires
        0 <= w,
        0 <= i <= s.len(),
        bufs_inv(s),
    ensures
        fill_from(s, t, w, i).len() == s.len(),
        forall|j: int| 0 <= j < i ==> fill_from(s, t, w, i)[j] == s[j],
        forall|j: int| i <= j < s.len() && s[j].item_type != t ==> fill_from(s, t, w, i)[j] == s[j],
        forall|j: int|
            i <= j < s.len() ==> {
                let r = (#[trigger] fill_from(s, t, w, i)[j]);
                r.item_type == s[j].item_type && r.buffer.max == s[j].buffer.max
                    && r.buffer.current >= s[j].buffer.current && r.inv()
            },
        sum_current_from(fill_from(s, t, w, i), t, i) == sum_current_from(s, t, i) + int_min(
            w,
            sum_remaining_from(s, t, i),
        ),
        sum_remaining_from(fill_from(s, t, w, i), t, i) == sum_remaining_from(s, t, i) - int_min(
            w,
            sum_remaining_from(s, t, i),
        ),
        forall|t2: ItemType|
            t2 != t ==> #[trigger] sum_current_from(fill_from(s, t, w, i), t2, i)
                == sum_current_from(s, t2, i),
        forall|t2: ItemType|
            t2 != t ==> #[trigger] sum_remaining_from(fill_from(s, t, w, i), t2, i)
                == sum_remaining_from(s, t2, i),
        sum_max_from(fill_from(s, t, w, i), i) == sum_max_from(s, i),
    decreases s.len() - i,
{
    lemma_sums_bounds(s, t, i);
    if i < 0 || i >= s.len() {
    } else {
        assert(s[i].inv());
        let put = if s[i].item_type == t {
            int_min(w, s[i].buffer.max - s[i].buffer.current)
        } else {
            0
        };
        let s1 = s.update(i, buf_put(s[i], put));
        assert(bufs_inv(s1)) by {
            assert forall|j: int| 0 <= j < s1.len() implies (#[trigger] s1[j]).inv() by {
                assert(s[j].inv());
            }
        }
        lemma_sums_bounds(s, t, i + 1);
        lemma_fill_from(s1, t, w - put, i + 1);
        lemma_sums_update_before(s, i, buf_put(s[i], put), t, i + 1);
        if s[i].item_type == t {
            let room = s[i].buffer.max - s[i].buffer.current;
            let suffix = sum_remaining_from(s, t, i + 1);
            assert(put + int_min(w - put, suffix) == int_min(w, room + suffix));
        }
        assert forall|t2: ItemType| t2 != t implies #[trigger] sum_current_from(
            fill_from(s, t, w, i),
            t2,
            i,
        ) == sum_current_from(s, t2, i) by {
            lemma_sums_update_before(s, i, buf_put(s[i], put), t2, i + 1);
            assert(sum_current_from(fill_from(s1, t, w - put, i + 1), t2, i + 1)
                == sum_current_from(s1, t2, i + 1));
        }
        assert forall|t2: ItemType| t2 != t implies #[trigger] sum_remaining_from(
            fill_from(s, t, w, i),
            t2,
            i,
        ) == sum_remaining_from(s, t2, i) by {
            lemma_sums_update_before(s, i, buf_put(s[i], put), t2, i + 1);
            assert(sum_remaining_from(fill_from(s1, t, w - put, i + 1), t2, i + 1)
                == sum_remaining_from(s1, t2, i + 1));
        }
    }
}

/// Withdraw `w` items of type `t`, draining the buffers in order until the
/// quantity is met.
pub fn drain_buffers(bufs: &mut Vec<IoBuffer>, t: ItemType, w: u64)
    ensures
        final(bufs)@ == drain_from(old(bufs)@, t, w as int, 0),
{
    let mut taken: u64 = w;
    let mut i: usize = 0;
    while i < bufs.len()
        invariant
            0 <= i <= bufs@.len(),
            bufs@.len() == old(bufs)@.len(),
            drain_from(old(bufs)@, t, w as int, 0) == drain_from(bufs@, t, taken as int, i as int),
        decreases bufs@.len() - i,
    {
        let ghost pre = bufs@;
        let b = bufs[i];
        if b.item_type == t {
            let take = if taken < b.buffer.current {
                taken
            } else {
                b.buffer.current
            };
            let nb = IoBuffer {
                buffer: ItemBuffer { current: b.buffer.current - take, max: b.buffer.max },
                item_type: b.item_type,
            };
            bufs.set(i, nb);
            taken = taken - take;
            proof {
                assert(nb == buf_take(b, int_min(taken as int + take as int, b.buffer.current as int)));
            }
        } else {
            proof {
                assert(buf_take(b, 0) == b);
                assert(pre.update(i as int, b) =~= pre);
            }
        }
        i = i + 1;
    }
}

/// Deposit `w` items of type `t`, filling the buffers in order as far as
/// each has room.
pub fn fill_buffers(bufs: &mut Vec<IoBuffer>, t: ItemType, w: u64)
    requires
        bufs_inv(old(bufs)@),
    ensures
        final(bufs)@ == fill_from(old(bufs)@, t, w as int, 0),
{
    let mut left: u64 = w;
    let mut i: usize = 0;
    while i < bufs.len()
        invariant
            0 <= i <= bufs@.len(),
            bufs@.len() == old(bufs)@.len(),
            bufs_inv(bufs@),
            fill_from(old(bufs)@, t, w as int, 0) == fill_from(bufs@, t, left as int, i as int),
        decreases bufs@.len() - i,
    {
        let ghost pre = bufs@;
        let b = bufs[i];
        assert(b.inv());
        if b.item_type == t {
            let room = b.buffer.max - b.buffer.current;
            let put = if left < room {
                left
            } else {
                room
            };
            let nb = IoBuffer {
                buffer: ItemBuffer { current: b.buffer.current + put, max: b.buffer.max },
                item_type: b.item_type,
            };
            bufs.set(i, nb);
            left = left - put;
            proof {
                assert(nb == buf_put(b, int_min(left as int + put as int, b.buffer.max - b.buffer.current)));
                assert(bufs_inv(bufs@)) by {
                    assert forall|j: int| 0 <= j < bufs@.len() implies (#[trigger] bufs@[j]).inv() by {
                        if j != i as int {
                            assert(bufs@[j] == pre[j]);
                        }
                    }
                }
            }
        } else {
            proof {
                assert(buf_put(b, 0) == b);
                assert(pre.update(i as int, b) =~= pre);
            }
        }
        i = i + 1;
    }
}

/// For a positive divisor `a`, a bound `k <= b / a` scales to `k * a <= b`.
pub proof fn lemma_mul_le_of_le_div(b: int, a: int, k: int)
    requires
        a >= 1,
        b >= 0,
        0 <= k,
        k <= b / a,
    ensures
        k * a <= b,
        a * k <= b,
{
    lemma_div_pos_is_pos(b, a);
    lemma_remainder_lower(b, a);
    lemma_mul_inequality(k, b / a, a);
    lemma_mul_is_commutative(k, a);
}

/// For a positive divisor `a`, a bound `k > b / a` scales to `k * a > b`.
pub proof fn lemma_mul_gt_of_gt_div(b: int, a: int, k: int)
    requires
        a >= 1,
        b >= 0,
        k > b / a,
    ensures
        k * a > b,
        a * k > b,
{
    lemma_div_pos_is_pos(b, a);
    lemma_remainder_upper(b, a);
    lemma_mul_inequality(b / a + 1, k, a);
    lemma_mul_is_distributive_add_other_way(a, b / a, 1);
    lemma_mul_is_commutative(k, a);
}

/// The machine's throughput multiplier; absent means 1.
pub open spec fn mult_of(m: MachineModel) -> int {
    match m.mult {
        Some(mu) => mu.0 as int,
        None => 1,
    }
}

/// Batch bound from the input slots at or after `i`: each filled slot caps
/// `n` at the summed stock of its item type divided by the required amount.
pub open spec fn clamp_inputs_from(r: RecipeNew, bufs: Seq<IoBuffer>, n: int, i: int) -> int
    decreases 4 - i,
{
    if i < 0 || i >= 4 {
        n
    } else {
        match r.inputs[i] {
            Some(s) => clamp_inputs_from(
                r,
                bufs,
                int_min(n, sum_current(bufs, s.item_type) / (s.amount as int)),
                i + 1,
            ),
            None => clamp_inputs_from(r, bufs, n, i + 1),
        }
    }
}

/// Batch bound from the output slots at or after `i`: each filled slot caps
/// `n` at the summed free capacity for its item type divided by the
/// produced amount.
pub open spec fn clamp_outputs_from(r: RecipeNew, bufs: Seq<IoBuffer>, n: int, i: int) -> int
    decreases 4 - i,
{
    if i < 0 || i >= 4 {
        n
    } else {
        match r.outputs[i] {
            Some(s) => clamp_outputs_from(
                r,
                bufs,
                int_min(n, sum_remaining(bufs, s.item_type) / (s.amount as int)),
                i + 1,
            ),
            None => clamp_outputs_from(r, bufs, n, i + 1),
        }
    }
}

/// The Ready phase's batch size: the throughput multiplier clamped by every
/// filled input slot and then by every filled output slot.
pub open spec fn batch_size(m: MachineModel) -> int {
    clamp_outputs_from(
        m.recipe,
        m.output_buffers,
        clamp_inputs_from(m.recipe, m.input_buffers, mult_of(m), 0),
        0,
    )
}

/// The input clamp stays under its seed and under every slot limit.
pub proof fn lemma_clamp_inputs_le(r: RecipeNew, bufs: Seq<IoBuffer>, n: int, i: int)
    requires
        0 <= i,
    ensures
        clamp_inputs_from(r, bufs, n, i) <= n,
        forall|j: int|
            i <= j < 4 ==> ((#[trigger] r.inputs[j]) matches Some(s) ==> clamp_inputs_from(
                r,
                bufs,
                n,
                i,
            ) <= sum_current(bufs, s.item_type) / (s.amount as int)),
    decreases 4 - i,
{
    if i < 0 || i >= 4 {
    } else {
        match r.inputs[i] {
            Some(s0) => {
                let l0 = sum_current(bufs, s0.item_type) / (s0.amount as int);
                lemma_clamp_inputs_le(r, bufs, int_min(n, l0), i + 1);
                assert forall|j: int|
                    i <= j < 4 implies ((#[trigger] r.inputs[j]) matches Some(sj)
                    ==> clamp_inputs_from(r, bufs, n, i) <= sum_current(bufs, sj.item_type) / (
                    sj.amount as int)) by {
                    if j == i {
                        assert(clamp_inputs_from(r, bufs, n, i) == clamp_inputs_from(
                            r,
                            bufs,
                            int_min(n, l0),
                            i + 1,
                        ));
                        assert(clamp_inputs_from(r, bufs, int_min(n, l0), i + 1) <= int_min(
                            n,
                            l0,
                        ));
                    }
                }
            },
            None => lemma_clamp_inputs_le(r, bufs, n, i + 1),
        }
    }
}

/// Any batch under the seed and under every slot limit is under the clamp:
/// the clamp is the largest such batch.
pub proof fn lemma_clamp_inputs_ge(r: RecipeNew, bufs: Seq<IoBuffer>, n: int, i: int, k: int)
    requires
        k <= n,
        forall|j: int|
            i <= j < 4 ==> ((#[trigger] r.inputs[j]) matches Some(s) ==> k <= sum_current(
                bufs,
                s.item_type,
            ) / (s.amount as int)),
    ensures
        k <= clamp_inputs_from(r, bufs, n, i),
    decreases 4 - i,
{
    if i < 0 || i >= 4 {
    } else {
        match r.inputs[i] {
            Some(s) => lemma_clamp_inputs_ge(
                r,
                bufs,
                int_min(n, sum_current(bufs, s.item_type) / (s.amount as int)),
                i + 1,
                k,
            ),
            None => lemma_clamp_inputs_ge(r, bufs, n, i + 1, k),
        }
    }
}

/// The output clamp stays under its seed and under every slot limit.
pub proof fn lemma_clamp_outputs_le(r: RecipeNew, bufs: Seq<IoBuffer>, n: int, i: int)
    requires
        0 <= i,
    ensures
        clamp_outputs_from(r, bufs, n, i) <= n,
        forall|j: int|
            i <= j < 4 ==> ((#[trigger] r.outputs[j]) matches Some(s) ==> clamp_outputs_from(
                r,
                bufs,
                n,
                i,
            ) <= sum_remaining(bufs, s.item_type) / (s.amount as int)),
    decreases 4 - i,
{
    if i < 0 || i >= 4 {
    } else {
        match r.outputs[i] {
            Some(s0) => {
                let l0 = sum_remaining(bufs, s0.item_type) / (s0.amount as int);
                lemma_clamp_outputs_le(r, bufs, int_min(n, l0), i + 1);
                assert forall|j: int|
                    i <= j < 4 implies ((#[trigger] r.outputs[j]) matches Some(sj)
                    ==> clamp_outputs_from(r, bufs, n, i) <= sum_remaining(bufs, sj.item_type) / (
                    sj.amount as int)) by {
                    if j == i {
                        assert(clamp_outputs_from(r, bufs, n, i) == clamp_outputs_from(
                            r,
                            bufs,
                            int_min(n, l0),
                            i + 1,
                        ));
                        assert(clamp_outputs_from(r, bufs, int_min(n, l0), i + 1) <= int_min(
                            n,
                            l0,
                        ));
                    }
                }
            },
            None => lemma_clamp_outputs_le(r, bufs, n, i + 1),
        }
    }
}

/// Any batch under the seed and under every output slot limit is under the
/// output clamp.
pub proof fn lemma_clamp_outputs_ge(r: RecipeNew, bufs: Seq<IoBuffer>, n: int, i: int, k: int)
    requires
        k <= n,
        forall|j: int|
            i <= j < 4 ==> ((#[trigger] r.outputs[j]) matches Some(s) ==> k <= sum_remaining(
                bufs,
                s.item_type,
            ) / (s.amount as int)),
    ensures
        k <= clamp_outputs_from(r, bufs, n, i),
    decreases 4 - i,
{
    if i < 0 || i >= 4 {
    } else {
        match r.outputs[i] {
            Some(s) => lemma_clamp_outputs_ge(
                r,
                bufs,
                int_min(n, sum_remaining(bufs, s.item_type) / (s.amount as int)),
                i + 1,
                k,
            ),
            None => lemma_clamp_outputs_ge(r, bufs, n, i + 1, k),
        }
    }
}

/// The first filled input slot of type `t` at or after `i`.
pub open spec fn input_slot_of(r: RecipeNew, t: ItemType, i: int) -> Option<ItemStack>
    decreases 4 - i,
{
    if i < 0 || i >= 4 {
        None
    } else {
        match r.inputs[i] {
            Some(s) => if s.item_type == t {
                Some(s)
            } else {
                input_slot_of(r, t, i + 1)
            },
            None => input_slot_of(r, t, i + 1),
        }
    }
}

/// The first filled output slot of type `t` at or after `i`.
pub open spec fn output_slot_of(r: RecipeNew, t: ItemType, i: int) -> Option<ItemStack>
    decreases 4 - i,
{
    if i < 0 || i >= 4 {
        None
    } else {
        match r.outputs[i] {
            Some(s) => if s.item_type == t {
                Some(s)
            } else {
                output_slot_of(r, t, i + 1)
            },
            None => output_slot_of(r, t, i + 1),
        }
    }
}

/// In a well-formed recipe, a type taken by a slot before `j` appears in no
/// input slot at or after `j`.
pub proof fn lemma_input_slot_of_none(r: RecipeNew, t: ItemType, i0: int, j: int)
    requires
        recipe_wf(r),
        0 <= i0 < j,
        r.inputs[i0] matches Some(s0) && s0.item_type == t,
    ensures
        input_slot_of(r, t, j) == None::<ItemStack>,
    decreases 4 - j,
{
    if j < 0 || j >= 4 {
    } else {
        lemma_input_slot_of_none(r, t, i0, j + 1);
    }
}

/// In a well-formed recipe, a type produced by a slot before `j` appears in
/// no output slot at or after `j`.
pub proof fn lemma_output_slot_of_none(r: RecipeNew, t: ItemType, i0: int, j: int)
    requires
        recipe_wf(r),
        0 <= i0 < j,
        r.outputs[i0] matches Some(s0) && s0.item_type == t,
    ensures
        output_slot_of(r, t, j) == None::<ItemStack>,
    decreases 4 - j,
{
    if j < 0 || j >= 4 {
    } else {
        lemma_output_slot_of_none(r, t, i0, j + 1);
    }
}

/// Input buffers after the Ready phase withdraws `amount * n` for every
/// filled input slot at or after `i`, slot by slot.
pub open spec fn drain_slots_from(r: RecipeNew, bufs: Seq<IoBuffer>, n: int, i: int) -> Seq<
    IoBuffer,
>
    decreases 4 - i,
{
    if i < 0 || i >= 4 {
        bufs
    } else {
        match r.inputs[i] {
            Some(s) => drain_slots_from(
                r,
                drain_from(bufs, s.item_type, s.amount as int * n, 0),
                n,
                i + 1,
            ),
            None => drain_slots_from(r, bufs, n, i + 1),
        }
    }
}

/// Output buffers after the Craft phase deposits `amount * n` for every
/// filled output slot at or after `i`, slot by slot.
pub open spec fn fill_slots_from(r: RecipeNew, bufs: Seq<IoBuffer>, n: int, i: int) -> Seq<
    IoBuffer,
>
    decreases 4 - i,
{
    if i < 0 || i >= 4 {
        bufs
    } else {
        match r.outputs[i] {
            Some(s) => fill_slots_from(
                r,
                fill_from(bufs, s.item_type, s.amount as int * n, 0),
                n,
                i + 1,
            ),
            None => fill_slots_from(r, bufs, n, i + 1),
        }
    }
}

/// What slot-by-slot draining does to the aggregates, for a feasible batch
/// of a well-formed recipe: each filled slot's item type loses exactly
/// `amount * n`; every other type is untouched.
pub proof fn lemma_drain_slots_from(r: RecipeNew, bufs: Seq<IoBuffer>, n: int, i: int)
    requires
        0 <= n,
        0 <= i <= 4,
        recipe_wf(r),
        bufs_inv(bufs),
        forall|j: int|
            i <= j < 4 ==> ((#[trigger] r.inputs[j]) matches Some(s) ==> s.amount as int * n
                <= sum_current(bufs, s.item_type)),
    ensures
        drain_slots_from(r, bufs, n, i).len() == bufs.len(),
        forall|j: int|
            0 <= j < bufs.len() ==> {
                let b = (#[trigger] drain_slots_from(r, bufs, n, i)[j]);
                b.item_type == bufs[j].item_type && b.buffer.max == bufs[j].buffer.max
                    && b.buffer.current <= bufs[j].buffer.current
            },
        bufs_inv(drain_slots_from(r, bufs, n, i)),
        sum_max(drain_slots_from(r, bufs, n, i)) == sum_max(bufs),
        forall|t: ItemType|
            #[trigger] sum_current(drain_slots_from(r, bufs, n, i), t) == sum_current(bufs, t) - (
            match input_slot_of(r, t, i) {
                Some(s) => s.amount as int * n,
                None => 0,
            }),
        forall|t: ItemType|
            #[trigger] sum_remaining(drain_slots_from(r, bufs, n, i), t) == sum_remaining(bufs, t)
                + (match input_slot_of(r, t, i) {
                Some(s) => s.amount as int * n,
                None => 0,
            }),
    decreases 4 - i,
{
    if i < 0 || i >= 4 {
    } else {
        match r.inputs[i] {
            Some(s) => {
                let w = s.amount as int * n;
                lemma_mul_inequality(0, s.amount as int, n);
                let bufs1 = drain_from(bufs, s.item_type, w, 0);
                lemma_drain_from(bufs, s.item_type, w, 0);
                assert(bufs_inv(bufs1)) by {
                    assert forall|j: int| 0 <= j < bufs1.len() implies (
                    #[trigger] bufs1[j]).inv() by {
                        assert(bufs[j].inv());
                    }
                }
                assert forall|j: int|
                    i + 1 <= j < 4 implies ((#[trigger] r.inputs[j]) matches Some(sj)
                    ==> sj.amount as int * n <= sum_current(bufs1, sj.item_type)) by {
                    match r.inputs[j] {
                        Some(sj) => {
                            assert(sj.item_type != s.item_type);
                            assert(sum_current(bufs1, sj.item_type) == sum_current(
                                bufs,
                                sj.item_type,
                            ));
                        },
                        None => {},
                    }
                }
                lemma_drain_slots_from(r, bufs1, n, i + 1);
                assert forall|t: ItemType|
                    #[trigger] sum_current(drain_slots_from(r, bufs, n, i), t) == sum_current(
                        bufs,
                        t,
                    ) - (match input_slot_of(r, t, i) {
                        Some(sl) => sl.amount as int * n,
                        None => 0,
                    }) by {
                    if t == s.item_type {
                        lemma_input_slot_of_none(r, t, i, i + 1);
                    }
                }
                assert forall|t: ItemType|
                    #[trigger] sum_remaining(drain_slots_from(r, bufs, n, i), t) == sum_remaining(
                        bufs,
                        t,
                    ) + (match input_slot_of(r, t, i) {
                        Some(sl) => sl.amount as int * n,
                        None => 0,
                    }) by {
                    if t == s.item_type {
                        lemma_input_slot_of_none(r, t, i, i + 1);
                    }
                }
            },
            None => {
                lemma_drain_slots_from(r, bufs, n, i + 1);
            },
        }
    }
}

/// What slot-by-slot filling does to the aggregates, for a batch whose
/// output headroom the Ready phase already guaranteed: each filled slot's
/// item type gains exactly `amount * n`; every other type is untouched.
pub proof fn lemma_fill_slots_from(r: RecipeNew, bufs: Seq<IoBuffer>, n: int, i: int)
    requires
        0 <= n,
        0 <= i <= 4,
        recipe_wf(r),
        bufs_inv(bufs),
        forall|j: int|
            i <= j < 4 ==> ((#[trigger] r.outputs[j]) matches Some(s) ==> s.amount as int * n
                <= sum_remaining(bufs, s.item_type)),
    ensures
        fill_slots_from(r, bufs, n, i).len() == bufs.len(),
        forall|j: int|
            0 <= j < bufs.len() ==> {
                let b = (#[trigger] fill_slots_from(r, bufs, n, i)[j]);
                b.item_type == bufs[j].item_type && b.buffer.max == bufs[j].buffer.max
                    && b.buffer.current >= bufs[j].buffer.current
            },
        bufs_inv(fill_slots_from(r, bufs, n, i)),
        sum_max(fill_slots_from(r, bufs, n, i)) == sum_max(bufs),
        forall|t: ItemType|
            #[trigger] sum_current(fill_slots_from(r, bufs, n, i), t) == sum_current(bufs, t) + (
            match output_slot_of(r, t, i) {
                Some(s) => s.amount as int * n,
                None => 0,
            }),
        forall|t: ItemType|
            #[trigger] sum_remaining(fill_slots_from(r, bufs, n, i), t) == sum_remaining(bufs, t)
                - (match output_slot_of(r, t, i) {
                Some(s) => s.amount as int * n,
                None => 0,
            }),
    decreases 4 - i,
{
    if i < 0 || i >= 4 {
    } else {
        match r.outputs[i] {
            Some(s) => {
                let w = s.amount as int * n;
                lemma_mul_inequality(0, s.amount as int, n);
                let bufs1 = fill_from(bufs, s.item_type, w, 0);
                lemma_fill_from(bufs, s.item_type, w, 0);
                assert(bufs_inv(bufs1)) by {
                    assert forall|j: int| 0 <= j < bufs1.len() implies (
                    #[trigger] bufs1[j]).inv() by {
                        assert(bufs[j].inv());
                    }
                }
                assert forall|j: int|
                    i + 1 <= j < 4 implies ((#[trigger] r.outputs[j]) matches Some(sj)
                    ==> sj.amount as int * n <= sum_remaining(bufs1, sj.item_type)) by {
                    match r.outputs[j] {
                        Some(sj) => {
                            assert(sj.item_type != s.item_type);
                            assert(sum_remaining(bufs1, sj.item_type) == sum_remaining(
                                bufs,
                                sj.item_type,
                            ));
                        },
                        None => {},
                    }
                }
                lemma_fill_slots_from(r, bufs1, n, i + 1);
                assert forall|t: ItemType|
                    #[trigger] sum_current(fill_slots_from(r, bufs, n, i), t) == sum_current(
                        bufs,
                        t,
                    ) + (match output_slot_of(r, t, i) {
                        Some(sl) => sl.amount as int * n,
                        None => 0,
                    }) by {
                    if t == s.item_type {
                        lemma_output_slot_of_none(r, t, i, i + 1);
                    }
                }
                assert forall|t: ItemType|
                    #[trigger] sum_remaining(fill_slots_from(r, bufs, n, i), t) == sum_remaining(
                        bufs,
                        t,
                    ) - (match output_slot_of(r, t, i) {
                        Some(sl) => sl.amount as int * n,
                        None => 0,
                    }) by {
                    if t == s.item_type {
                        lemma_output_slot_of_none(r, t, i, i + 1);
                    }
                }
            },
            None => {
                lemma_fill_slots_from(r, bufs, n, i + 1);
            },
        }
    }
}

/// Capacity promise carried by an in-flight batch of size `n`: every filled
/// output slot still has room for its share.
pub open spec fn out_headroom(r: RecipeNew, bufs: Seq<IoBuffer>, n: int) -> bool {
    forall|i: int|
        0 <= i < 4 ==> ((#[trigger] r.outputs[i]) matches Some(s) ==> s.amount as int * n
            <= sum_remaining(bufs, s.item_type))
}

/// Status-dependent part of the machine invariant: a batch in flight counts
/// at least one craft, and its outputs still fit in the output buffers.
pub open spec fn status_wf(m: MachineModel) -> bool {
    match m.status {
        MachineStatus::Working(w) => w.amount >= 1 && out_headroom(
            m.recipe,
            m.output_buffers,
            w.amount as int,
        ),
        MachineStatus::CraftsFinished(n) => n >= 1 && out_headroom(
            m.recipe,
            m.output_buffers,
            n as int,
        ),
        _ => true,
    }
}

/// Well-formed machine: bounded buffers whose capacities sum within `u64`,
/// a well-formed recipe, a positive multiplier where present, and a sound
/// in-flight batch.
pub open spec fn machine_wf(m: MachineModel) -> bool {
    &&& bufs_inv(m.input_buffers)
    &&& bufs_inv(m.output_buffers)
    &&& sum_max(m.input_buffers) <= u64::MAX
    &&& sum_max(m.output_buffers) <= u64::MAX
    &&& recipe_wf(m.recipe)
    &&& (m.mult matches Some(mu) ==> mu.0 >= 1)
    &&& status_wf(m)
}

/// The Ready phase on one machine: an `Idle` machine with a feasible batch
/// size `n >= 1` reserves its inputs and starts `Working(recipe.ticks, n)`;
/// any other machine, or a zero batch, is left unchanged.
pub open spec fn ready_spec(m: MachineModel) -> MachineModel {
    if !(m.status is Idle) {
        m
    } else {
        let n = batch_size(m);
        if n < 1 {
            m
        } else {
            MachineModel {
                input_buffers: drain_slots_from(m.recipe, m.input_buffers, n, 0),
                status: MachineStatus::Working(
                    Working { ticks_remaining: m.recipe.ticks, amount: n as u64 },
                ),
                ..m
            }
        }
    }
}

/// The Progress phase on one machine: a `Working` machine advances by the
/// multiplier's worth of elapsed ticks and finishes when the duration is
/// used up; leftover ticks are dropped, not carried into a second batch.
pub open spec fn progress_spec(m: MachineModel) -> MachineModel {
    match m.status {
        MachineStatus::Working(w) => {
            let elapsed = mult_of(m);
            if elapsed >= w.ticks_remaining {
                MachineModel { status: MachineStatus::CraftsFinished(w.amount), ..m }
            } else {
                MachineModel {
                    status: MachineStatus::Working(
                        Working {
                            ticks_remaining: (w.ticks_remaining - elapsed) as u64,
                            amount: w.amount,
                        },
                    ),
                    ..m
                }
            }
        },
        _ => m,
    }
}

/// The Craft phase on one machine: a `CraftsFinished(n)` machine deposits
/// `amount * n` into the buffers of every filled output slot and returns to
/// `Idle`.
pub open spec fn craft_spec(m: MachineModel) -> MachineModel {
    match m.status {
        MachineStatus::CraftsFinished(n) => MachineModel {
            output_buffers: fill_slots_from(m.recipe, m.output_buffers, n as int, 0),
            status: MachineStatus::Idle,
            ..m
        },
        _ => m,
    }
}

/// Compute the input-slot clamp of a batch size: `n0` capped by every
/// filled input slot's summed stock divided by its required amount.
fn clamp_inputs_exec(r: &RecipeNew, bufs: &Vec<IoBuffer>, n0: u64) -> (n: u64)
    requires
        bufs_inv(bufs@),
        sum_max(bufs@) <= u64::MAX,
        recipe_wf(*r),
    ensures
        n as int == clamp_inputs_from(*r, bufs@, n0 as int, 0),
        n <= n0,
{
    let mut n: u64 = n0;
    let mut i: usize = 0;
    while i < 4
        invariant
            0 <= i <= 4,
            bufs_inv(bufs@),
            sum_max(bufs@) <= u64::MAX,
            recipe_wf(*r),
            n <= n0,
            clamp_inputs_from(*r, bufs@, n0 as int, 0) == clamp_inputs_from(
                *r,
                bufs@,
                n as int,
                i as int,
            ),
        decreases 4 - i,
    {
        match r.inputs[i] {
            Some(s) => {
                assert(s.amount >= 1);
                let avail = buffered_of_type(bufs, s.item_type);
                let lim = avail / s.amount;
                if lim < n {
                    n = lim;
                }
            },
            None => {},
        }
        i = i + 1;
    }
    n
}

/// Compute the output-slot clamp of a batch size: `n0` capped by every
/// filled output slot's summed free capacity divided by its produced
/// amount.
fn clamp_outputs_exec(r: &RecipeNew, bufs: &Vec<IoBuffer>, n0: u64) -> (n: u64)
    requires
        bufs_inv(bufs@),
        sum_max(bufs@) <= u64::MAX,
        recipe_wf(*r),
    ensures
        n as int == clamp_outputs_from(*r, bufs@, n0 as int, 0),
        n <= n0,
{
    let mut n: u64 = n0;
    let mut i: usize = 0;
    while i < 4
        invariant
            0 <= i <= 4,
            bufs_inv(bufs@),
            sum_max(bufs@) <= u64::MAX,
            recipe_wf(*r),
            n <= n0,
            clamp_outputs_from(*r, bufs@, n0 as int, 0) == clamp_outputs_from(
                *r,
                bufs@,
                n as int,
                i as int,
            ),
        decreases 4 - i,
    {
        match r.outputs[i] {
            Some(s) => {
                assert(s.amount >= 1);
                let able = bufferable_of_type(bufs, s.item_type);
                let lim = able / s.amount;
                if lim < n {
                    n = lim;
                }
            },
            None => {},
        }
        i = i + 1;
    }
    n
}

/// Withdraw `amount * n` for every filled input slot, slot by slot: the
/// Ready phase's reservation.
fn drain_slots_exec(r: &RecipeNew, bufs: &mut Vec<IoBuffer>, n: u64)
    requires
        recipe_wf(*r),
        bufs_inv(old(bufs)@),
        sum_max(old(bufs)@) <= u64::MAX,
        forall|j: int|
            0 <= j < 4 ==> ((#[trigger] r.inputs[j]) matches Some(s) ==> s.amount as int * (
            n as int) <= sum_current(old(bufs)@, s.item_type)),
    ensures
        final(bufs)@ == drain_slots_from(*r, old(bufs)@, n as int, 0),
{
    let mut i: usize = 0;
    while i < 4
        invariant
            0 <= i <= 4,
            recipe_wf(*r),
            bufs_inv(bufs@),
            sum_max(bufs@) <= u64::MAX,
            forall|j: int|
                i as int <= j < 4 ==> ((#[trigger] r.inputs[j]) matches Some(s) ==> s.amount as int
                    * (n as int) <= sum_current(bufs@, s.item_type)),
            drain_slots_from(*r, old(bufs)@, n as int, 0) == drain_slots_from(
                *r,
                bufs@,
                n as int,
                i as int,
            ),
        decreases 4 - i,
    {
        match r.inputs[i] {
            Some(s) => {
                let ghost pre = bufs@;
                proof {
                    lemma_sums_bounds(pre, s.item_type, 0);
                }
                let w = s.amount * n;
                drain_buffers(bufs, s.item_type, w);
                proof {
                    lemma_drain_from(pre, s.item_type, w as int, 0);
                    assert(bufs_inv(bufs@)) by {
                        assert forall|k: int| 0 <= k < bufs@.len() implies (
                        #[trigger] bufs@[k]).inv() by {
                            assert(pre[k].inv());
                        }
                    }
                    assert forall|j: int|
                        i as int + 1 <= j < 4 implies ((#[trigger] r.inputs[j]) matches Some(sj)
                        ==> sj.amount as int * (n as int) <= sum_current(bufs@, sj.item_type)) by {
                        match r.inputs[j] {
                            Some(sj) => {
                                assert(sj.item_type != s.item_type);
                                assert(sum_current(bufs@, sj.item_type) == sum_current(
                                    pre,
                                    sj.item_type,
                                ));
                            },
                            None => {},
                        }
                    }
                }
            },
            None => {},
        }
        i = i + 1;
    }
}

/// Deposit `amount * n` for every filled output slot, slot by slot: the
/// Craft phase's materialization.
fn fill_slots_exec(r: &RecipeNew, bufs: &mut Vec<IoBuffer>, n: u64)
    requires
        recipe_wf(*r),
        bufs_inv(old(bufs)@),
        sum_max(old(bufs)@) <= u64::MAX,
        forall|j: int|
            0 <= j < 4 ==> ((#[trigger] r.outputs[j]) matches Some(s) ==> s.amount as int * (
            n as int) <= sum_remaining(old(bufs)@, s.item_type)),
    ensures
        final(bufs)@ == fill_slots_from(*r, old(bufs)@, n as int, 0),
{
    let mut i: usize = 0;
    while i < 4
        invariant
            0 <= i <= 4,
            recipe_wf(*r),
            bufs_inv(bufs@),
            sum_max(bufs@) <= u64::MAX,
            forall|j: int|
                i as int <= j < 4 ==> ((#[trigger] r.outputs[j]) matches Some(s) ==> s.amount as int
                    * (n as int) <= sum_remaining(bufs@, s.item_type)),
            fill_slots_from(*r, old(bufs)@, n as int, 0) == fill_slots_from(
                *r,
                bufs@,
                n as int,
                i as int,
            ),
        decreases 4 - i,
    {
        match r.outputs[i] {
            Some(s) => {
                let ghost pre = bufs@;
                proof {
                    lemma_sums_bounds(pre, s.item_type, 0);
                }
                let w = s.amount * n;
                fill_buffers(bufs, s.item_type, w);
                proof {
                    lemma_fill_from(pre, s.item_type, w as int, 0);
                    assert(bufs_inv(bufs@)) by {
                        assert forall|k: int| 0 <= k < bufs@.len() implies (
                        #[trigger] bufs@[k]).inv() by {
                            assert(pre[k].inv());
                        }
                    }
                    assert forall|j: int|
                        i as int + 1 <= j < 4 implies ((#[trigger] r.outputs[j]) matches Some(sj)
                        ==> sj.amount as int * (n as int) <= sum_remaining(bufs@, sj.item_type))
                        by {
                        match r.outputs[j] {
                            Some(sj) => {
                                assert(sj.item_type != s.item_type);
                                assert(sum_remaining(bufs@, sj.item_type) == sum_remaining(
                                    pre,
                                    sj.item_type,
                                ));
                            },
                            None => {},
                        }
                    }
                }
            },
            None => {},
        }
        i = i + 1;
    }
}

/// Ready phase for one machine: on an `Idle` machine, compute the largest
/// feasible batch size; if at least one craft fits, reserve the inputs and
/// start `Working(recipe.ticks, n)`; otherwise change nothing.
pub fn ready_machine(m: &mut Machine)
    requires
        machine_wf(old(m)@),
    ensures
        final(m)@ == ready_spec(old(m)@),
        machine_wf(final(m)@),
{
    match m.status {
        MachineStatus::Idle => {},
        _ => {
            return ;
        },
    }
    let r = m.recipe;
    let n0: u64 = match m.mult {
        Some(mu) => mu.0,
        None => 1,
    };
    let n1 = clamp_inputs_exec(&r, &m.input_buffers.0, n0);
    let n = clamp_outputs_exec(&r, &m.output_buffers.0, n1);
    assert(n as int == batch_size(old(m)@));
    if n == 0 {
        return ;
    }
    let ghost ins = m.input_buffers.0@;
    let ghost outs = m.output_buffers.0@;
    proof {
        lemma_clamp_inputs_le(r, ins, n0 as int, 0);
        lemma_clamp_outputs_le(r, outs, n1 as int, 0);
        assert forall|j: int|
            0 <= j < 4 implies ((#[trigger] r.inputs[j]) matches Some(s) ==> s.amount as int * (
        n as int) <= sum_current(ins, s.item_type)) by {
            match r.inputs[j] {
                Some(s) => {
                    lemma_sums_bounds(ins, s.item_type, 0);
                    assert(n1 as int <= sum_current(ins, s.item_type) / (s.amount as int));
                    assert(n as int <= n1 as int);
                    lemma_mul_le_of_le_div(
                        sum_current(ins, s.item_type),
                        s.amount as int,
                        n as int,
                    );
                },
                None => {},
            }
        }
        assert forall|j: int|
            0 <= j < 4 implies ((#[trigger] r.outputs[j]) matches Some(s) ==> s.amount as int * (
        n as int) <= sum_remaining(outs, s.item_type)) by {
            match r.outputs[j] {
                Some(s) => {
                    lemma_sums_bounds(outs, s.item_type, 0);
                    assert(n as int <= sum_remaining(outs, s.item_type) / (s.amount as int));
                    lemma_mul_le_of_le_div(
                        sum_remaining(outs, s.item_type),
                        s.amount as int,
                        n as int,
                    );
                },
                None => {},
            }
        }
    }
    drain_slots_exec(&r, &mut m.input_buffers.0, n);
    m.status = MachineStatus::Working(Working { ticks_remaining: r.ticks, amount: n });
    proof {
        lemma_drain_slots_from(r, ins, n as int, 0);
        assert(m@ =~= ready_spec(old(m)@));
        assert(machine_wf(m@));
    }
}

/// Progress phase for one machine: a `Working` machine advances by the
/// multiplier's worth of ticks; when the remaining duration is used up it
/// becomes `CraftsFinished` with its batch intact.
pub fn progress_machine(m: &mut Machine)
    requires
        machine_wf(old(m)@),
    ensures
        final(m)@ == progress_spec(old(m)@),
        machine_wf(final(m)@),
{
    let elapsed: u64 = match m.mult {
        Some(mu) => mu.0,
        None => 1,
    };
    match m.status {
        MachineStatus::Working(w) => {
            if elapsed >= w.ticks_remaining {
                m.status = MachineStatus::CraftsFinished(w.amount);
            } else {
                m.status = MachineStatus::Working(
                    Working { ticks_remaining: w.ticks_remaining - elapsed, amount: w.amount },
                );
            }
        },
        _ => {},
    }
    proof {
        assert(m@ =~= progress_spec(old(m)@));
    }
}

/// Craft phase for one machine: a `CraftsFinished(n)` machine deposits
/// `amount * n` into the buffers of every filled output slot — the Ready
/// phase already guaranteed the aggregate capacity — and returns to `Idle`.
pub fn craft_machine(m: &mut Machine)
    requires
        machine_wf(old(m)@),
    ensures
        final(m)@ == craft_spec(old(m)@),
        machine_wf(final(m)@),
{
    let n: u64 = match m.status {
        MachineStatus::CraftsFinished(k) => k,
        _ => {
            return ;
        },
    };
    let r = m.recipe;
    let ghost outs = m.output_buffers.0@;
    fill_slots_exec(&r, &mut m.output_buffers.0, n);
    m.status = MachineStatus::Idle;
    proof {
        lemma_fill_slots_from(r, outs, n as int, 0);
        assert(m@ =~= craft_spec(old(m)@));
        assert(machine_wf(m@));
    }
}

/// The sequence of machine models an arena holds.
pub open spec fn models(ms: Seq<Machine>) -> Seq<MachineModel> {
    Seq::new(ms.len(), |i: int| ms[i]@)
}

/// Ready phase over the whole arena: for each `Idle` machine, compute the
/// maximum feasible batch size, reserve inputs and start working; machines
/// that cannot craft stay as they are. Machines only touch their own
/// buffers, so the iteration order cannot matter.
pub fn ready_craft(machines: &mut Vec<Machine>)
    requires
        forall|i: int|
            0 <= i < old(machines)@.len() ==> machine_wf((#[trigger] old(machines)@[i])@),
    ensures
        final(machines)@.len() == old(machines)@.len(),
        forall|i: int|
            0 <= i < old(machines)@.len() ==> (#[trigger] final(machines)@[i])@ == ready_spec(
                old(machines)@[i]@,
            ),
        forall|i: int|
            0 <= i < old(machines)@.len() ==> machine_wf((#[trigger] final(machines)@[i])@),
{
    let mut i: usize = 0;
    while i < machines.len()
        invariant
            0 <= i <= machines@.len(),
            machines@.len() == old(machines)@.len(),
            forall|j: int|
                0 <= j < old(machines)@.len() ==> machine_wf((#[trigger] old(machines)@[j])@),
            forall|j: int|
                0 <= j < i as int ==> (#[trigger] machines@[j])@ == ready_spec(
                    old(machines)@[j]@,
                ) && machine_wf(machines@[j]@),
            forall|j: int|
                i as int <= j < machines@.len() ==> (#[trigger] machines@[j])@ == old(
                    machines,
                )@[j]@,
        decreases machines@.len() - i,
    {
        ready_machine(&mut machines[i]);
        i = i + 1;
    }
}

/// Progress phase over the whole arena: every `Working` machine advances by
/// its multiplier's worth of ticks.
pub fn tick_crafts(machines: &mut Vec<Machine>)
    requires
        forall|i: int|
            0 <= i < old(machines)@.len() ==> machine_wf((#[trigger] old(machines)@[i])@),
    ensures
        final(machines)@.len() == old(machines)@.len(),
        forall|i: int|
            0 <= i < old(machines)@.len() ==> (#[trigger] final(machines)@[i])@ == progress_spec(
                old(machines)@[i]@,
            ),
        forall|i: int|
            0 <= i < old(machines)@.len() ==> machine_wf((#[trigger] final(machines)@[i])@),
{
    let mut i: usize = 0;
    while i < machines.len()
        invariant
            0 <= i <= machines@.len(),
            machines@.len() == old(machines)@.len(),
            forall|j: int|
                0 <= j < old(machines)@.len() ==> machine_wf((#[trigger] old(machines)@[j])@),
            forall|j: int|
                0 <= j < i as int ==> (#[trigger] machines@[j])@ == progress_spec(
                    old(machines)@[j]@,
                ) && machine_wf(machines@[j]@),
            forall|j: int|
                i as int <= j < machines@.len() ==> (#[trigger] machines@[j])@ == old(
                    machines,
                )@[j]@,
        decreases machines@.len() - i,
    {
        progress_machine(&mut machines[i]);
        i = i + 1;
    }
}

/// Craft phase over the whole arena: every `CraftsFinished` machine
/// materializes its outputs and returns to `Idle`.
pub fn craft(machines: &mut Vec<Machine>)
    requires
        forall|i: int|
            0 <= i < old(machines)@.len() ==> machine_wf((#[trigger] old(machines)@[i])@),
    ensures
        final(machines)@.len() == old(machines)@.len(),
        forall|i: int|
            0 <= i < old(machines)@.len() ==> (#[trigger] final(machines)@[i])@ == craft_spec(
                old(machines)@[i]@,
            ),
        forall|i: int|
            0 <= i < old(machines)@.len() ==> machine_wf((#[trigger] final(machines)@[i])@),
{
    let mut i: usize = 0;
    while i < machines.len()
        invariant
            0 <= i <= machines@.len(),
            machines@.len() == old(machines)@.len(),
            forall|j: int|
                0 <= j < old(machines)@.len() ==> machine_wf((#[trigger] old(machines)@[j])@),
            forall|j: int|
                0 <= j < i as int ==> (#[trigger] machines@[j])@ == craft_spec(
                    old(machines)@[j]@,
                ) && machine_wf(machines@[j]@),
            forall|j: int|
                i as int <= j < machines@.len() ==> (#[trigger] machines@[j])@ == old(
                    machines,
                )@[j]@,
        decreases machines@.len() - i,
    {
        craft_machine(&mut machines[i]);
        i = i + 1;
    }
}

/// Replacing the buffer at `j` shifts the suffix aggregates from any
/// `i <= j` by exactly the buffer's own contribution.
pub proof fn lemma_sums_update(s: Seq<IoBuffer>, j: int, b: IoBuffer, t: ItemType, i: int)
    requires
        0 <= i <= j < s.len(),
    ensures
        sum_current_from(s.update(j, b), t, i) == sum_current_from(s, t, i) - (if s[j].item_type
            == t {
            s[j].buffer.current as int
        } else {
            0
        }) + (if b.item_type == t {
            b.buffer.current as int
        } else {
            0
        }),
        sum_remaining_from(s.update(j, b), t, i) == sum_remaining_from(s, t, i) - (if s[j].item_type
            == t {
            s[j].buffer.max - s[j].buffer.current
        } else {
            0
        }) + (if b.item_type == t {
            b.buffer.max - b.buffer.current
        } else {
            0
        }),
        sum_max_from(s.update(j, b), i) == sum_max_from(s, i) - s[j].buffer.max + b.buffer.max,
    decreases j - i,
{
    if i == j {
        lemma_sums_update_before(s, j, b, t, j + 1);
    } else {
        lemma_sums_update(s, j, b, t, i + 1);
    }
}

/// Items of type `t` a machine holds, inputs and outputs together.
pub open spec fn machine_count(m: MachineModel, t: ItemType) -> int {
    sum_current(m.input_buffers, t) + sum_current(m.output_buffers, t)
}

/// Items of type `t` held across the machines at or after `i`.
pub open spec fn total_current_from(ms: Seq<MachineModel>, t: ItemType, i: int) -> int
    decreases ms.len() - i,
{
    if i < 0 || i >= ms.len() {
        0
    } else {
        machine_count(ms[i], t) + total_current_from(ms, t, i + 1)
    }
}

/// Items of type `t` held across the whole arena.
pub open spec fn total_current(ms: Seq<MachineModel>, t: ItemType) -> int {
    total_current_from(ms, t, 0)
}

/// Replacing the machine at `idx` shifts the arena total by exactly that
/// machine's own count.
pub proof fn lemma_total_update(ms: Seq<MachineModel>, idx: int, m2: MachineModel, t: ItemType, i: int)
    requires
        0 <= i <= ms.len(),
        0 <= idx < ms.len(),
    ensures
        total_current_from(ms.update(idx, m2), t, i) == if i <= idx {
            total_current_from(ms, t, i) - machine_count(ms[idx], t) + machine_count(m2, t)
        } else {
            total_current_from(ms, t, i)
        },
    decreases ms.len() - i,
{
    if i < 0 || i >= ms.len() {
    } else {
        lemma_total_update(ms, idx, m2, t, i + 1);
    }
}

/// Every handle in a bank points into a coupling table of `n` entries.
pub open spec fn bank_ok(bank: Seq<usize>, n: int) -> bool {
    forall|j: int| 0 <= j < bank.len() ==> (#[trigger] bank[j]) < n
}

/// Well-formed arena: every machine is well formed, every bank handle
/// points into the coupling table, and every coupling endpoint points into
/// the arena.
pub open spec fn world_wf(ms: Seq<MachineModel>, couplings: Seq<MachineCoupling>) -> bool {
    &&& forall|i: int| 0 <= i < ms.len() ==> machine_wf(#[trigger] ms[i])
    &&& forall|i: int|
        0 <= i < ms.len() ==> bank_ok((#[trigger] ms[i]).output_bank, couplings.len() as int)
    &&& forall|i: int|
        0 <= i < ms.len() ==> bank_ok((#[trigger] ms[i]).input_bank, couplings.len() as int)
    &&& forall|k: int|
        0 <= k < couplings.len() ==> (#[trigger] couplings[k]).input_port.0 < ms.len()
    &&& forall|k: int|
        0 <= k < couplings.len() ==> (#[trigger] couplings[k]).output_port.0 < ms.len()
}

/// The first coupling handle in the bank, in bank order, that carries item
/// type `t`; handles outside the coupling table are skipped.
pub open spec fn find_coupling_from(
    bank: Seq<usize>,
    couplings: Seq<MachineCoupling>,
    t: ItemType,
    i: int,
) -> Option<usize>
    decreases bank.len() - i,
{
    if i < 0 || i >= bank.len() {
        None
    } else if bank[i] < couplings.len() && couplings[bank[i] as int].buffer_type.0 == t {
        Some(bank[i])
    } else {
        find_coupling_from(bank, couplings, t, i + 1)
    }
}

/// Index of the first buffer of type `t` at or after `i`.
pub open spec fn find_buf_from(bufs: Seq<IoBuffer>, t: ItemType, i: int) -> Option<int>
    decreases bufs.len() - i,
{
    if i < 0 || i >= bufs.len() {
        None
    } else if bufs[i].item_type == t {
        Some(i)
    } else {
        find_buf_from(bufs, t, i + 1)
    }
}

/// One Push step: if the source machine's output buffer `j` holds items and
/// a coupling of its item type is bound, move what currently fits —
/// `min(source current, destination remaining)` — into the destination's
/// matching input buffer. A full destination moves nothing extra
/// (backpressure); a missing coupling or missing destination buffer leaves
/// the items sitting in the source buffer.
pub open spec fn push_buf(
    ms: Seq<MachineModel>,
    couplings: Seq<MachineCoupling>,
    src: int,
    j: int,
) -> Seq<MachineModel>
    recommends
        0 <= src < ms.len(),
        0 <= j < ms[src].output_buffers.len(),
{
    let m = ms[src];
    let buf = m.output_buffers[j];
    if buf.buffer.current == 0 {
        ms
    } else {
        match find_coupling_from(m.output_bank, couplings, buf.item_type, 0) {
            None => ms,
            Some(c) => {
                let dest = couplings[c as int].input_port.0 as int;
                if dest < 0 || dest >= ms.len() {
                    ms
                } else {
                    match find_buf_from(ms[dest].input_buffers, buf.item_type, 0) {
                        None => ms,
                        Some(k) => {
                            let dbuf = ms[dest].input_buffers[k];
                            let pushable = int_min(
                                dbuf.buffer.max - dbuf.buffer.current,
                                buf.buffer.current as int,
                            );
                            let ms1 = ms.update(
                                src,
                                MachineModel {
                                    output_buffers: m.output_buffers.update(
                                        j,
                                        buf_take(buf, pushable),
                                    ),
                                    ..m
                                },
                            );
                            ms1.update(
                                dest,
                                MachineModel {
                                    input_buffers: ms1[dest].input_buffers.update(
                                        k,
                                        buf_put(ms1[dest].input_buffers[k], pushable),
                                    ),
                                    ..ms1[dest]
                                },
                            )
                        },
                    }
                }
            },
        }
    }
}

/// A found coupling lies in the table and carries the asked type.
pub proof fn lemma_find_coupling_ok(
    bank: Seq<usize>,
    couplings: Seq<MachineCoupling>,
    t: ItemType,
    i: int,
)
    ensures
        find_coupling_from(bank, couplings, t, i) matches Some(c) ==> c < couplings.len()
            && couplings[c as int].buffer_type.0 == t,
    decreases bank.len() - i,
{
    if i < 0 || i >= bank.len() {
    } else {
        lemma_find_coupling_ok(bank, couplings, t, i + 1);
    }
}

/// A found buffer index lies in the sequence and carries the asked type.
pub proof fn lemma_find_buf_ok(bufs: Seq<IoBuffer>, t: ItemType, i: int)
    requires
        0 <= i,
    ensures
        find_buf_from(bufs, t, i) matches Some(k) ==> i <= k < bufs.len() && bufs[k].item_type
            == t,
    decreases bufs.len() - i,
{
    if i < 0 || i >= bufs.len() {
    } else {
        lemma_find_buf_ok(bufs, t, i + 1);
    }
}

/// One Push step keeps the arena well formed, keeps every machine's shape —
/// status, recipe, kind, banks, multiplier, buffer layout — and moves items
/// without creating or destroying any.
#[verifier::rlimit(60)]
pub proof fn lemma_push_buf_props(
    ms: Seq<MachineModel>,
    couplings: Seq<MachineCoupling>,
    src: int,
    j: int,
)
    requires
        world_wf(ms, couplings),
        0 <= src < ms.len(),
        0 <= j < ms[src].output_buffers.len(),
    ensures
        push_buf(ms, couplings, src, j).len() == ms.len(),
        world_wf(push_buf(ms, couplings, src, j), couplings),
        forall|i: int|
            0 <= i < ms.len() ==> same_shape(#[trigger] push_buf(ms, couplings, src, j)[i], ms[i]),
        forall|t: ItemType|
            #[trigger] total_current(push_buf(ms, couplings, src, j), t) == total_current(ms, t),
{
    let m = ms[src];
    let buf = m.output_buffers[j];
    let r = push_buf(ms, couplings, src, j);
    lemma_find_coupling_ok(m.output_bank, couplings, buf.item_type, 0);
    if buf.buffer.current == 0 {
    } else {
        match find_coupling_from(m.output_bank, couplings, buf.item_type, 0) {
            None => {},
            Some(c) => {
                let dest = couplings[c as int].input_port.0 as int;
                if dest < 0 || dest >= ms.len() {
                } else {
                    lemma_find_buf_ok(ms[dest].input_buffers, buf.item_type, 0);
                    match find_buf_from(ms[dest].input_buffers, buf.item_type, 0) {
                        None => {},
                        Some(k) => {
                            assert(machine_wf(ms[src]));
                            assert(machine_wf(ms[dest]));
                            assert(ms[dest].input_buffers[k].inv());
                            assert(buf.inv());
                            let dbuf = ms[dest].input_buffers[k];
                            let pushable = int_min(
                                dbuf.buffer.max - dbuf.buffer.current,
                                buf.buffer.current as int,
                            );
                            let outs1 = m.output_buffers.update(j, buf_take(buf, pushable));
                            let m1 = MachineModel { output_buffers: outs1, ..m };
                            let ms1 = ms.update(src, m1);
                            let ins1 = ms1[dest].input_buffers.update(
                                k,
                                buf_put(ms1[dest].input_buffers[k], pushable),
                            );
                            let m2 = MachineModel { input_buffers: ins1, ..ms1[dest] };
                            assert(r =~= ms1.update(dest, m2));
                            // the source machine stays well formed: its output
                            // buffer lost items, so every output slot's free
                            // capacity only grew
                            assert forall|t: ItemType| true implies #[trigger] sum_current(
                                outs1,
                                t,
                            ) == sum_current(m.output_buffers, t) - (if buf.item_type == t {
                                pushable
                            } else {
                                0
                            }) by {
                                lemma_sums_update(m.output_buffers, j, buf_take(buf, pushable), t, 0);
                            }
                            assert forall|t: ItemType| true implies #[trigger] sum_remaining(
                                outs1,
                                t,
                            ) == sum_remaining(m.output_buffers, t) + (if buf.item_type == t {
                                pushable
                            } else {
                                0
                            }) by {
                                lemma_sums_update(m.output_buffers, j, buf_take(buf, pushable), t, 0);
                            }
                            assert(sum_max(outs1) == sum_max(m.output_buffers)) by {
                                lemma_sums_update(m.output_buffers, j, buf_take(buf, pushable), buf.item_type, 0);
                            }
                            assert(bufs_inv(outs1)) by {
                                assert forall|q: int| 0 <= q < outs1.len() implies (
                                #[trigger] outs1[q]).inv() by {
                                    assert(m.output_buffers[q].inv());
                                }
                            }
                            assert(machine_wf(m1)) by {
                                match m1.status {
                                    MachineStatus::Working(w) => {
                                        assert forall|q: int|
                                            0 <= q < 4 implies ((#[trigger] m1.recipe.outputs[q]) matches Some(sl)
                                            ==> sl.amount as int * (w.amount as int)
                                                <= sum_remaining(outs1, sl.item_type)) by {
                                            match m1.recipe.outputs[q] {
                                                Some(sl) => {
                                                    assert(sl.amount as int * (w.amount as int)
                                                        <= sum_remaining(
                                                        m.output_buffers,
                                                        sl.item_type,
                                                    ));
                                                },
                                                None => {},
                                            }
                                        }
                                    },
                                    MachineStatus::CraftsFinished(n) => {
                                        assert forall|q: int|
                                            0 <= q < 4 implies ((#[trigger] m1.recipe.outputs[q]) matches Some(sl)
                                            ==> sl.amount as int * (n as int) <= sum_remaining(
                                                outs1,
                                                sl.item_type,
                                            )) by {
                                            match m1.recipe.outputs[q] {
                                                Some(sl) => {
                                                    assert(sl.amount as int * (n as int)
                                                        <= sum_remaining(
                                                        m.output_buffers,
                                                        sl.item_type,
                                                    ));
                                                },
                                                None => {},
                                            }
                                        }
                                    },
                                    _ => {},
                                }
                            }
                            // the destination machine stays well formed: its
                            // input buffer gained only what fit
                            let din = ms1[dest].input_buffers;
                            assert(din[k].inv());
                            assert(bufs_inv(ins1)) by {
                                assert forall|q: int| 0 <= q < ins1.len() implies (
                                #[trigger] ins1[q]).inv() by {
                                    assert(din[q].inv());
                                }
                            }
                            assert(sum_max(ins1) == sum_max(din) && bufs_inv(ins1)) by {
                                lemma_sums_update(din, k, buf_put(din[k], pushable), buf.item_type, 0);
                            }
                            assert(machine_wf(m2)) by {
                                match m2.status {
                                    MachineStatus::Working(w) => {
                                        assert(out_headroom(
                                            m2.recipe,
                                            m2.output_buffers,
                                            w.amount as int,
                                        ));
                                    },
                                    MachineStatus::CraftsFinished(n) => {
                                        assert(out_headroom(m2.recipe, m2.output_buffers, n as int));
                                    },
                                    _ => {},
                                }
                            }
                            assert(world_wf(r, couplings)) by {
                                assert forall|i: int| 0 <= i < r.len() implies machine_wf(
                                    #[trigger] r[i],
                                ) by {
                                    if i != src && i != dest {
                                        assert(r[i] == ms[i]);
                                    }
                                }
                            }
                            // conservation: the source loses exactly what the
                            // destination gains
                            assert forall|t: ItemType| true implies #[trigger] total_current(
                                r,
                                t,
                            ) == total_current(ms, t) by {
                                lemma_total_update(ms, src, m1, t, 0);
                                lemma_total_update(ms1, dest, m2, t, 0);
                                lemma_sums_update(m.output_buffers, j, buf_take(buf, pushable), t, 0);
                                lemma_sums_update(din, k, buf_put(din[k], pushable), t, 0);
                                if src == dest {
                                    assert(machine_count(m1, t) == machine_count(m, t) - (if buf.item_type == t { pushable } else { 0 }));
                                    assert(machine_count(m2, t) == machine_count(m1, t) + (if buf.item_type == t { pushable } else { 0 }));
                                } else {
                                    assert(machine_count(m1, t) == machine_count(ms[src], t) - (if buf.item_type == t { pushable } else { 0 }));
                                    assert(machine_count(m2, t) == machine_count(ms[dest], t) + (if buf.item_type == t { pushable } else { 0 }));
                                }
                            }
                        },
                    }
                }
            },
        }
    }
}

/// Two machine models that differ at most in buffer contents: status,
/// recipe, kind, banks, multiplier and buffer layout all agree.
pub open spec fn same_shape(a: MachineModel, b: MachineModel) -> bool {
    &&& a.kind == b.kind
    &&& a.recipe == b.recipe
    &&& a.status == b.status
    &&& a.mult == b.mult
    &&& a.input_bank == b.input_bank
    &&& a.output_bank == b.output_bank
    &&& a.input_buffers.len() == b.input_buffers.len()
    &&& a.output_buffers.len() == b.output_buffers.len()
}

/// The output buffers of machine `src` before index `j`, each pushed along
/// its coupling once, in buffer order.
pub open spec fn push_bufs_upto(
    ms: Seq<MachineModel>,
    couplings: Seq<MachineCoupling>,
    src: int,
    j: int,
) -> Seq<MachineModel>
    decreases j,
{
    if j <= 0 {
        ms
    } else {
        push_buf(push_bufs_upto(ms, couplings, src, j - 1), couplings, src, j - 1)
    }
}

/// The Push phase of the machines before index `i`, in arena order.
pub open spec fn push_machines_upto(
    ms: Seq<MachineModel>,
    couplings: Seq<MachineCoupling>,
    i: int,
) -> Seq<MachineModel>
    decreases i,
{
    if i <= 0 {
        ms
    } else {
        let prev = push_machines_upto(ms, couplings, i - 1);
        push_bufs_upto(prev, couplings, i - 1, prev[i - 1].output_buffers.len() as int)
    }
}

/// The whole Push phase: every machine's output buffers, in arena order
/// then buffer order, each pushed along its coupling exactly once per tick.
pub open spec fn push_spec(ms: Seq<MachineModel>, couplings: Seq<MachineCoupling>) -> Seq<
    MachineModel,
> {
    push_machines_upto(ms, couplings, ms.len() as int)
}

/// Pushing one machine's buffers keeps the arena well formed, keeps every
/// machine's shape, and conserves every item type's arena total.
pub proof fn lemma_push_bufs_upto_props(
    ms: Seq<MachineModel>,
    couplings: Seq<MachineCoupling>,
    src: int,
    j: int,
)
    requires
        world_wf(ms, couplings),
        0 <= src < ms.len(),
        0 <= j <= ms[src].output_buffers.len(),
    ensures
        push_bufs_upto(ms, couplings, src, j).len() == ms.len(),
        world_wf(push_bufs_upto(ms, couplings, src, j), couplings),
        forall|i: int|
            0 <= i < ms.len() ==> same_shape(
                #[trigger] push_bufs_upto(ms, couplings, src, j)[i],
                ms[i],
            ),
        forall|t: ItemType|
            #[trigger] total_current(push_bufs_upto(ms, couplings, src, j), t) == total_current(
                ms,
                t,
            ),
    decreases j,
{
    if j <= 0 {
    } else {
        lemma_push_bufs_upto_props(ms, couplings, src, j - 1);
        lemma_push_buf_props(push_bufs_upto(ms, couplings, src, j - 1), couplings, src, j - 1);
    }
}

/// The Push phase up to machine `i` keeps the arena well formed, keeps
/// every machine's shape, and conserves every item type's arena total.
pub proof fn lemma_push_machines_upto_props(
    ms: Seq<MachineModel>,
    couplings: Seq<MachineCoupling>,
    i: int,
)
    requires
        world_wf(ms, couplings),
        0 <= i <= ms.len(),
    ensures
        push_machines_upto(ms, couplings, i).len() == ms.len(),
        world_wf(push_machines_upto(ms, couplings, i), couplings),
        forall|k: int|
            0 <= k < ms.len() ==> same_shape(
                #[trigger] push_machines_upto(ms, couplings, i)[k],
                ms[k],
            ),
        forall|t: ItemType|
            #[trigger] total_current(push_machines_upto(ms, couplings, i), t) == total_current(
                ms,
                t,
            ),
    decreases i,
{
    if i <= 0 {
    } else {
        lemma_push_machines_upto_props(ms, couplings, i - 1);
        let prev = push_machines_upto(ms, couplings, i - 1);
        lemma_push_bufs_upto_props(
            prev,
            couplings,
            i - 1,
            prev[i - 1].output_buffers.len() as int,
        );
    }
}

/// Find the first coupling in the bank, in bank order, carrying `t`.
fn find_coupling_exec(bank: &Vec<usize>, couplings: &Vec<MachineCoupling>, t: ItemType) -> (r:
    Option<usize>)
    ensures
        r == find_coupling_from(bank@, couplings@, t, 0),
{
    let mut q: usize = 0;
    while q < bank.len()
        invariant
            0 <= q <= bank@.len(),
            find_coupling_from(bank@, couplings@, t, 0) == find_coupling_from(
                bank@,
                couplings@,
                t,
                q as int,
            ),
        decreases bank@.len() - q,
    {
        let h = bank[q];
        if h < couplings.len() {
            if couplings[h].buffer_type.0 == t {
                return Some(h);
            }
        }
        q = q + 1;
    }
    None
}

/// Find the index of the first buffer of type `t`.
fn find_buf_exec(bufs: &Vec<IoBuffer>, t: ItemType) -> (r: Option<usize>)
    ensures
        r matches Some(k) ==> find_buf_from(bufs@, t, 0) == Some(k as int),
        r is None ==> find_buf_from(bufs@, t, 0) is None,
{
    let mut q: usize = 0;
    while q < bufs.len()
        invariant
            0 <= q <= bufs@.len(),
            find_buf_from(bufs@, t, 0) == find_buf_from(bufs@, t, q as int),
        decreases bufs@.len() - q,
    {
        if bufs[q].item_type == t {
            return Some(q);
        }
        q = q + 1;
    }
    None
}

/// Push phase over the whole arena: for each machine with bound output
/// couplings, move what currently fits from each charged output buffer into
/// the coupled machine's matching input buffer. A full downstream buffer
/// halts production through the next Ready phase's capacity check, not
/// here; this phase only moves what fits, and each coupling is walked
/// exactly once per tick.
pub fn push_outputs(machines: &mut Vec<Machine>, couplings: &Vec<MachineCoupling>)
    requires
        world_wf(models(old(machines)@), couplings@),
    ensures
        final(machines)@.len() == old(machines)@.len(),
        forall|i: int|
            0 <= i < old(machines)@.len() ==> (#[trigger] final(machines)@[i])@ == push_spec(
                models(old(machines)@),
                couplings@,
            )[i],
        world_wf(models(final(machines)@), couplings@),
        forall|i: int|
            0 <= i < old(machines)@.len() ==> (#[trigger] final(machines)@[i])@.status == old(
                machines,
            )@[i]@.status,
        forall|t: ItemType|
            #[trigger] total_current(models(final(machines)@), t) == total_current(
                models(old(machines)@),
                t,
            ),
{
    let ghost ms0 = models(old(machines)@);
    let mut src: usize = 0;
    while src < machines.len()
        invariant
            0 <= src <= machines@.len(),
            machines@.len() == old(machines)@.len(),
            machines@.len() == ms0.len(),
            ms0 == models(old(machines)@),
            world_wf(ms0, couplings@),
            forall|i: int|
                0 <= i < machines@.len() ==> (#[trigger] machines@[i])@ == push_machines_upto(
                    ms0,
                    couplings@,
                    src as int,
                )[i],
        decreases machines@.len() - src,
    {
        let ghost cur = push_machines_upto(ms0, couplings@, src as int);
        proof {
            lemma_push_machines_upto_props(ms0, couplings@, src as int);
        }
        let blen = machines[src].output_buffers.0.len();
        let mut j: usize = 0;
        while j < blen
            invariant
                0 <= j <= blen,
                0 <= src < machines@.len(),
                machines@.len() == old(machines)@.len(),
                machines@.len() == ms0.len(),
                ms0 == models(old(machines)@),
                world_wf(ms0, couplings@),
                cur == push_machines_upto(ms0, couplings@, src as int),
                world_wf(cur, couplings@),
                cur.len() == ms0.len(),
                blen == cur[src as int].output_buffers.len(),
                forall|i: int|
                    0 <= i < machines@.len() ==> (#[trigger] machines@[i])@ == push_bufs_upto(
                        cur,
                        couplings@,
                        src as int,
                        j as int,
                    )[i],
            decreases blen - j,
        {
            let ghost now = push_bufs_upto(cur, couplings@, src as int, j as int);
            proof {
                lemma_push_bufs_upto_props(cur, couplings@, src as int, j as int);
                assert(machines@[src as int]@ == now[src as int]);
                assert(now[src as int].output_buffers.len() == blen);
            }
            let buf = machines[src].output_buffers.0[j];
            assert(buf == now[src as int].output_buffers[j as int]);
            if buf.buffer.current > 0 {
                let cop = find_coupling_exec(
                    &machines[src].output_bank.0,
                    couplings,
                    buf.item_type,
                );
                match cop {
                    Some(cidx) => {
                        proof {
                            lemma_find_coupling_ok(
                                now[src as int].output_bank,
                                couplings@,
                                buf.item_type,
                                0,
                            );
                        }
                        let dest = couplings[cidx].input_port.0;
                        if dest < machines.len() {
                            proof {
                                assert(machines@[dest as int]@ == now[dest as int]);
                            }
                            let fb = find_buf_exec(&machines[dest].input_buffers.0, buf.item_type);
                            match fb {
                                Some(k) => {
                                    proof {
                                        lemma_find_buf_ok(
                                            now[dest as int].input_buffers,
                                            buf.item_type,
                                            0,
                                        );
                                        assert(machine_wf(now[dest as int]));
                                        assert(now[dest as int].input_buffers[k as int].inv());
                                    }
                                    let dbuf = machines[dest].input_buffers.0[k];
                                    let room = dbuf.buffer.max - dbuf.buffer.current;
                                    let pushable = if room < buf.buffer.current {
                                        room
                                    } else {
                                        buf.buffer.current
                                    };
                                    let nsb = IoBuffer {
                                        buffer: ItemBuffer {
                                            current: buf.buffer.current - pushable,
                                            max: buf.buffer.max,
                                        },
                                        item_type: buf.item_type,
                                    };
                                    let ndb = IoBuffer {
                                        buffer: ItemBuffer {
                                            current: dbuf.buffer.current + pushable,
                                            max: dbuf.buffer.max,
                                        },
                                        item_type: dbuf.item_type,
                                    };
                                    let ghost pre = machines@;
                                    machines[src].output_buffers.0.set(j, nsb);
                                    machines[dest].input_buffers.0.set(k, ndb);
                                    proof {
                                        let stepped = push_buf(now, couplings@, src as int, j as int);
                                        assert(nsb == buf_take(buf, pushable as int));
                                        assert(ndb == buf_put(dbuf, pushable as int));
                                        assert forall|i: int|
                                            0 <= i < machines@.len() implies (
                                        #[trigger] machines@[i])@ == stepped[i] by {
                                            if i == dest as int {
                                                assert(machines@[i]@ =~= stepped[i]);
                                            } else if i == src as int {
                                                assert(machines@[i]@ =~= stepped[i]);
                                            } else {
                                                assert(machines@[i] == pre[i]);
                                                assert(stepped[i] == now[i]);
                                            }
                                        }
                                    }
                                },
                                None => {
                                    proof {
                                        assert(push_buf(now, couplings@, src as int, j as int)
                                            =~= now);
                                    }
                                },
                            }
                        } else {
                            proof {
                                assert(push_buf(now, couplings@, src as int, j as int) =~= now);
                            }
                        }
                    },
                    None => {
                        proof {
                            assert(push_buf(now, couplings@, src as int, j as int) =~= now);
                        }
                    },
                }
            } else {
                proof {
                    assert(push_buf(now, couplings@, src as int, j as int) =~= now);
                }
            }
            j = j + 1;
        }
        proof {
            assert(push_bufs_upto(cur, couplings@, src as int, blen as int)
                == push_machines_upto(ms0, couplings@, src as int + 1));
        }
        src = src + 1;
    }
    proof {
        lemma_push_machines_upto_props(ms0, couplings@, ms0.len() as int);
        assert forall|i: int|
            0 <= i < machines@.len() implies machine_wf((#[trigger] models(machines@))[i]) by {
            assert(models(machines@)[i] == machines@[i]@);
        }
        assert(models(machines@) =~= push_spec(ms0, couplings@));
        assert(world_wf(models(machines@), couplings@)) by {
            assert forall|i: int| 0 <= i < models(machines@).len() implies machine_wf(
                #[trigger] models(machines@)[i],
            ) && bank_ok(models(machines@)[i].output_bank, couplings@.len() as int) && bank_ok(
                models(machines@)[i].input_bank,
                couplings@.len() as int,
            ) by {
                assert(models(machines@)[i] == machines@[i]@);
                assert(machines@[i]@ == push_spec(ms0, couplings@)[i]);
                assert(machine_wf(push_spec(ms0, couplings@)[i]));
            }
        }
    }
}

/// Why the binder rejected a coupling. A rejected bind never changes
/// scheduler state.
#[derive(Clone, Copy, Debug, PartialEq, Eq, Structural)]
pub enum MachineBindError {
    NoFreeOutputs,
    NoFreeInputs,
    InputDoesNotExist,
    OutputDoesNotExist,
    InvalidInput,
}

/// Shifting a sequence: suffix aggregates ignore a common prefix offset.
pub proof fn lemma_sums_shift(s: Seq<IoBuffer>, r: Seq<IoBuffer>, d: int, t: ItemType, i: int)
    requires
        0 <= d,
        s.len() == r.len() + d,
        forall|k: int| 0 <= k < r.len() ==> s[k + d] == #[trigger] r[k],
        0 <= i <= r.len(),
    ensures
        sum_max_from(s, i + d) == sum_max_from(r, i),
        sum_current_from(s, t, i + d) == sum_current_from(r, t, i),
        sum_remaining_from(s, t, i + d) == sum_remaining_from(r, t, i),
    decreases r.len() - i,
{
    if i >= r.len() {
    } else {
        assert(s[i + d] == r[i]);
        lemma_sums_shift(s, r, d, t, i + 1);
    }
}

/// The buffers a recipe's slot list allocates: one default-capacity buffer
/// per filled slot at or after `i`, in slot order.
pub open spec fn buffers_of_slots(slots: [Option<ItemStack>; 4], i: int) -> Seq<IoBuffer>
    decreases 4 - i,
{
    if i < 0 || i >= 4 {
        Seq::empty()
    } else {
        match slots[i] {
            Some(s) => seq![
                IoBuffer { buffer: ItemBuffer::default_spec(), item_type: s.item_type },
            ] + buffers_of_slots(slots, i + 1),
            None => buffers_of_slots(slots, i + 1),
        }
    }
}

/// Freshly allocated buffers are empty, within bounds, and few.
pub proof fn lemma_buffers_of_slots(slots: [Option<ItemStack>; 4], i: int)
    requires
        0 <= i <= 4,
    ensures
        buffers_of_slots(slots, i).len() <= 4 - i,
        bufs_inv(buffers_of_slots(slots, i)),
        sum_max(buffers_of_slots(slots, i)) <= (4 - i) * DEFAULT_BUFFER_SIZE,
        forall|k: int|
            0 <= k < buffers_of_slots(slots, i).len() ==> (#[trigger] buffers_of_slots(
                slots,
                i,
            )[k]).buffer == ItemBuffer::default_spec(),
    decreases 4 - i,
{
    if i < 0 || i >= 4 {
        assert(sum_max(buffers_of_slots(slots, i)) == 0);
    } else {
        lemma_buffers_of_slots(slots, i + 1);
        let rest = buffers_of_slots(slots, i + 1);
        match slots[i] {
            Some(s) => {
                let b = IoBuffer { buffer: ItemBuffer::default_spec(), item_type: s.item_type };
                let whole = seq![b] + rest;
                assert forall|k: int| 0 <= k < rest.len() implies whole[k + 1] == #[trigger] rest[k]
                    by {}
                lemma_sums_shift(whole, rest, 1, s.item_type, 0);
                assert(sum_max(whole) == b.buffer.max + sum_max_from(whole, 1));
            },
            None => {},
        }
    }
}

/// The machine `spawn_machine` builds from a recipe: one default buffer per
/// filled input and output slot, no couplings, `Idle`, no multiplier.
pub open spec fn spawn_spec(recipe: RecipeNew) -> MachineModel {
    MachineModel {
        kind: recipe.machine_kind,
        input_bank: Seq::empty(),
        input_buffers: buffers_of_slots(recipe.inputs, 0),
        output_bank: Seq::empty(),
        output_buffers: buffers_of_slots(recipe.outputs, 0),
        recipe,
        status: MachineStatus::Idle,
        mult: None,
    }
}

/// Allocate one default-capacity buffer per filled slot, in slot order.
fn buffers_for(slots: &[Option<ItemStack>; 4]) -> (bufs: Vec<IoBuffer>)
    ensures
        bufs@ == buffers_of_slots(*slots, 0),
{
    let mut bufs: Vec<IoBuffer> = Vec::new();
    let mut i: usize = 0;
    while i < 4
        invariant
            0 <= i <= 4,
            buffers_of_slots(*slots, 0) == bufs@ + buffers_of_slots(*slots, i as int),
        decreases 4 - i,
    {
        let ghost pre = bufs@;
        match slots[i] {
            Some(s) => {
                bufs.push(IoBuffer::new(s.item_type));
                proof {
                    assert(pre + buffers_of_slots(*slots, i as int) =~= bufs@
                        + buffers_of_slots(*slots, i as int + 1));
                }
            },
            None => {},
        }
        i = i + 1;
    }
    proof {
        assert(bufs@ + buffers_of_slots(*slots, 4) =~= bufs@);
    }
    bufs
}

/// Create a machine from a recipe, in the arena, and return its handle: one
/// default-capacity buffer per filled input and output slot (so a recipe
/// slot without a buffer — the fatal configuration error — cannot arise),
/// status `Idle`, nothing bound, no multiplier.
pub fn spawn_machine(machines: &mut Vec<Machine>, recipe: RecipeNew) -> (id: usize)
    requires
        recipe_wf(recipe),
    ensures
        id == old(machines)@.len(),
        final(machines)@.len() == old(machines)@.len() + 1,
        forall|i: int| 0 <= i < old(machines)@.len() ==> final(machines)@[i] == old(machines)@[i],
        final(machines)@[id as int]@ == spawn_spec(recipe),
        machine_wf(spawn_spec(recipe)),
{
    let id = machines.len();
    let input_buffers = InputBuffers(buffers_for(&recipe.inputs));
    let output_buffers = OutputBuffers(buffers_for(&recipe.outputs));
    let m = Machine {
        kind: recipe.machine_kind,
        input_bank: InputBank::new(),
        input_buffers,
        output_bank: OutputBank::new(),
        output_buffers,
        recipe,
        status: MachineStatus::Idle,
        mult: None,
    };
    proof {
        lemma_buffers_of_slots(recipe.inputs, 0);
        lemma_buffers_of_slots(recipe.outputs, 0);
        assert(m@ =~= spawn_spec(recipe));
        assert(machine_wf(m@));
    }
    machines.push(m);
    id
}

/// A destination input buffer of type `t` with free capacity exists.
pub open spec fn has_free_input(bufs: Seq<IoBuffer>, t: ItemType) -> bool {
    exists|k: int|
        0 <= k < bufs.len() && (#[trigger] bufs[k]).item_type == t && bufs[k].buffer.current
            < bufs[k].buffer.max
}

/// Whether a bind request is accepted, and the error when it is not, in
/// check order: the endpoints must exist, the source must own an output
/// buffer of the type, that output must not already be bound for the type,
/// and the destination must have a matching input buffer with free
/// capacity.
pub open spec fn bind_check(
    ms: Seq<MachineModel>,
    cs: Seq<MachineCoupling>,
    src: int,
    dest: int,
    t: ItemType,
) -> Result<(), MachineBindError> {
    if src < 0 || src >= ms.len() {
        Err(MachineBindError::OutputDoesNotExist)
    } else if dest < 0 || dest >= ms.len() {
        Err(MachineBindError::InputDoesNotExist)
    } else if find_buf_from(ms[src].output_buffers, t, 0) is None {
        Err(MachineBindError::InvalidInput)
    } else if !(find_coupling_from(ms[src].output_bank, cs, t, 0) is None) {
        Err(MachineBindError::NoFreeOutputs)
    } else if !has_free_input(ms[dest].input_buffers, t) {
        Err(MachineBindError::NoFreeInputs)
    } else {
        Ok(())
    }
}

/// Check whether `bufs` holds a buffer of type `t` with free capacity.
fn has_free_input_exec(bufs: &Vec<IoBuffer>, t: ItemType) -> (r: bool)
    ensures
        r == has_free_input(bufs@, t),
{
    let mut q: usize = 0;
    while q < bufs.len()
        invariant
            0 <= q <= bufs@.len(),
            forall|k: int|
                0 <= k < q as int ==> !((#[trigger] bufs@[k]).item_type == t
                    && bufs@[k].buffer.current < bufs@[k].buffer.max),
        decreases bufs@.len() - q,
    {
        let b = bufs[q];
        if b.item_type == t && b.buffer.current < b.buffer.max {
            return true;
        }
        q = q + 1;
    }
    false
}

/// Bind the source machine's output of `item_type` to the destination's
/// matching input, creating the coupling edge and recording it in both
/// banks; returns the coupling's handle. A rejected bind — missing
/// endpoint, missing or already-bound output, no free matching input —
/// reports its error and changes nothing.
pub fn bind_output(
    machines: &mut Vec<Machine>,
    couplings: &mut Vec<MachineCoupling>,
    src: usize,
    dest: usize,
    item_type: ItemType,
) -> (r: Result<usize, MachineBindError>)
    ensures
        bind_check(
            models(old(machines)@),
            old(couplings)@,
            src as int,
            dest as int,
            item_type,
        ) matches Err(e) ==> (r == Err::<usize, MachineBindError>(e) && final(machines)@ == old(
            machines,
        )@ && final(couplings)@ == old(couplings)@),
        (bind_check(models(old(machines)@), old(couplings)@, src as int, dest as int, item_type)
            is Ok) ==> {
            let cid = old(couplings)@.len();
            &&& r == Ok::<usize, MachineBindError>(cid as usize)
            &&& final(couplings)@ == old(couplings)@.push(
                MachineCoupling {
                    input_port: InputPort(dest),
                    output_port: OutputPort(src),
                    buffer_type: BufferType(item_type),
                },
            )
            &&& final(machines)@.len() == old(machines)@.len()
            &&& forall|i: int|
                0 <= i < old(machines)@.len() && i != src as int && i != dest as int ==> (
                #[trigger] final(machines)@[i])@ == old(machines)@[i]@
            &&& src != dest ==> final(machines)@[src as int]@ == MachineModel {
                output_bank: old(machines)@[src as int]@.output_bank.push(cid as usize),
                ..old(machines)@[src as int]@
            }
            &&& final(machines)@[dest as int]@ == if src == dest {
                MachineModel {
                    output_bank: old(machines)@[src as int]@.output_bank.push(cid as usize),
                    input_bank: old(machines)@[dest as int]@.input_bank.push(cid as usize),
                    ..old(machines)@[dest as int]@
                }
            } else {
                MachineModel {
                    input_bank: old(machines)@[dest as int]@.input_bank.push(cid as usize),
                    ..old(machines)@[dest as int]@
                }
            }
        },
        world_wf(models(old(machines)@), old(couplings)@) ==> world_wf(
            models(final(machines)@),
            final(couplings)@,
        ),
{
    let ghost ms0 = models(old(machines)@);
    let ghost cs0 = couplings@;
    if src >= machines.len() {
        return Err(MachineBindError::OutputDoesNotExist);
    }
    if dest >= machines.len() {
        return Err(MachineBindError::InputDoesNotExist);
    }
    proof {
        assert(machines@[src as int]@ == ms0[src as int]);
        assert(machines@[dest as int]@ == ms0[dest as int]);
    }
    let fb = find_buf_exec(&machines[src].output_buffers.0, item_type);
    if fb.is_none() {
        return Err(MachineBindError::InvalidInput);
    }
    let fc = find_coupling_exec(&machines[src].output_bank.0, couplings, item_type);
    if fc.is_some() {
        return Err(MachineBindError::NoFreeOutputs);
    }
    if !has_free_input_exec(&machines[dest].input_buffers.0, item_type) {
        return Err(MachineBindError::NoFreeInputs);
    }
    let cid = couplings.len();
    couplings.push(
        MachineCoupling {
            input_port: InputPort(dest),
            output_port: OutputPort(src),
            buffer_type: BufferType(item_type),
        },
    );
    machines[src].output_bank.0.push(cid);
    machines[dest].input_bank.0.push(cid);
    proof {
        assert(bind_check(ms0, cs0, src as int, dest as int, item_type) is Ok);
        let cid_g = cs0.len();
        if src != dest {
            assert(machines@[src as int]@ =~= MachineModel {
                output_bank: ms0[src as int].output_bank.push(cid_g as usize),
                ..ms0[src as int]
            });
            assert(machines@[dest as int]@ =~= MachineModel {
                input_bank: ms0[dest as int].input_bank.push(cid_g as usize),
                ..ms0[dest as int]
            });
        } else {
            assert(machines@[dest as int]@ =~= MachineModel {
                output_bank: ms0[src as int].output_bank.push(cid_g as usize),
                input_bank: ms0[dest as int].input_bank.push(cid_g as usize),
                ..ms0[dest as int]
            });
        }
        if world_wf(ms0, cs0) {
            assert forall|i: int| 0 <= i < models(machines@).len() implies machine_wf(
                #[trigger] models(machines@)[i],
            ) && bank_ok(models(machines@)[i].output_bank, couplings@.len() as int) && bank_ok(
                models(machines@)[i].input_bank,
                couplings@.len() as int,
            ) by {
                assert(models(machines@)[i] == machines@[i]@);
                assert(machine_wf(ms0[i]));
                assert(bank_ok(ms0[i].output_bank, cs0.len() as int));
                assert(bank_ok(ms0[i].input_bank, cs0.len() as int));
                if i != src as int && i != dest as int {
                    assert(machines@[i]@ == ms0[i]);
                }
            }
        }
    }
    Ok(cid)
}

} // verus!
