//! Conversion rules and the immutable recipe table.

use vstd::prelude::*;

use crate::pipeline::machine::MachineKind;
use crate::ItemType;

verus! {

/// A quantity of one item type, as a recipe slot names it.
#[derive(Clone, Copy, Debug, PartialEq, Eq, Structural)]
pub struct ItemStack {
    pub item_type: ItemType,
    pub amount: u64,
}

impl ItemStack {
    pub fn new(item_type: ItemType, amount: u64) -> (r: ItemStack)
        ensures
            r == (ItemStack { item_type, amount }),
    {
        ItemStack { item_type, amount }
    }
}

/// A conversion rule: up to four input slots, up to four output slots, and a
/// crafting duration in ticks. Immutable once built.
#[derive(Clone, Copy, Debug, PartialEq, Eq)]
pub struct RecipeNew {
    pub machine_kind: MachineKind,
    pub ticks: u64,
    pub inputs: [Option<ItemStack>; 4],
    pub outputs: [Option<ItemStack>; 4],
}

/// Every filled slot asks for at least one item, and no item type appears in
/// two slots of the same side. The scheduler's batch-size arithmetic relies
/// on both.
pub open spec fn recipe_wf(r: RecipeNew) -> bool {
    &&& forall|i: int|
        0 <= i < 4 ==> ((#[trigger] r.inputs[i]) matches Some(s) ==> s.amount >= 1)
    &&& forall|i: int|
        0 <= i < 4 ==> ((#[trigger] r.outputs[i]) matches Some(s) ==> s.amount >= 1)
    &&& forall|i: int, j: int|
        0 <= i < j < 4 ==> !((#[trigger] r.inputs[i]) matches Some(a)
            && (#[trigger] r.inputs[j]) matches Some(b) && a.item_type == b.item_type)
    &&& forall|i: int, j: int|
        0 <= i < j < 4 ==> !((#[trigger] r.outputs[i]) matches Some(a)
            && (#[trigger] r.outputs[j]) matches Some(b) && a.item_type == b.item_type)
}

impl RecipeNew {
    pub fn producer_recipe(output: ItemStack, ticks: u64) -> (r: RecipeNew)
        ensures
            r == (RecipeNew {
                machine_kind: MachineKind::Producer,
                ticks,
                inputs: [None, None, None, None],
                outputs: [Some(output), None, None, None],
            }),
    {
        RecipeNew {
            machine_kind: MachineKind::Producer,
            ticks,
            inputs: [None, None, None, None],
            outputs: [Some(output), None, None, None],
        }
    }

    pub fn transformer_recipe(input: ItemStack, output: ItemStack, ticks: u64) -> (r: RecipeNew)
        ensures
            r == (RecipeNew {
                machine_kind: MachineKind::Transformer,
                ticks,
                inputs: [Some(input), None, None, None],
                outputs: [Some(output), None, None, None],
            }),
    {
        RecipeNew {
            machine_kind: MachineKind::Transformer,
            ticks,
            inputs: [Some(input), None, None, None],
            outputs: [Some(output), None, None, None],
        }
    }

    pub fn combinator_recipe(inputs: (ItemStack, ItemStack), output: ItemStack, ticks: u64) -> (r:
        RecipeNew)
        ensures
            r == (RecipeNew {
                machine_kind: MachineKind::Combinator,
                ticks,
                inputs: [Some(inputs.0), Some(inputs.1), None, None],
                outputs: [Some(output), None, None, None],
            }),
    {
        RecipeNew {
            machine_kind: MachineKind::Combinator,
            ticks,
            inputs: [Some(inputs.0), Some(inputs.1), None, None],
            outputs: [Some(output), None, None, None],
        }
    }

    pub fn separator_recipe(input: ItemStack, outputs: (ItemStack, ItemStack), ticks: u64) -> (r:
        RecipeNew)
        ensures
            r == (RecipeNew {
                machine_kind: MachineKind::Separator,
                ticks,
                inputs: [Some(input), None, None, None],
                outputs: [Some(outputs.0), Some(outputs.1), None, None],
            }),
    {
        RecipeNew {
            machine_kind: MachineKind::Separator,
            ticks,
            inputs: [Some(input), None, None, None],
            outputs: [Some(outputs.0), Some(outputs.1), None, None],
        }
    }

    pub fn storage_recipe() -> (r: RecipeNew)
        ensures
            r == (RecipeNew {
                machine_kind: MachineKind::Storage,
                ticks: 0u64,
                inputs: [None, None, None, None],
                outputs: [None, None, None, None],
            }),
    {
        RecipeNew {
            machine_kind: MachineKind::Storage,
            ticks: 0,
            inputs: [None, None, None, None],
            outputs: [None, None, None, None],
        }
    }
}

/// The immutable catalogue of conversion rules, scanned in declaration
/// order.
#[derive(Clone, Debug)]
pub struct Recipes {
    pub inner: Vec<RecipeNew>,
}

/// The table `Recipes::init` builds, in declaration order.
pub open spec fn init_table() -> Seq<RecipeNew> {
    seq![
        RecipeNew {
            machine_kind: MachineKind::Producer,
            ticks: 10u64,
            inputs: [None, None, None, None],
            outputs: [Some(ItemStack { item_type: ItemType::Input, amount: 1u64 }), None, None, None],
        },
        RecipeNew {
            machine_kind: MachineKind::Producer,
            ticks: 10u64,
            inputs: [None, None, None, None],
            outputs: [Some(ItemStack { item_type: ItemType::Output, amount: 1u64 }), None, None, None],
        },
        RecipeNew {
            machine_kind: MachineKind::Transformer,
            ticks: 20u64,
            inputs: [Some(ItemStack { item_type: ItemType::Input, amount: 5u64 }), None, None, None],
            outputs: [Some(ItemStack { item_type: ItemType::Storage, amount: 1u64 }), None, None, None],
        },
        RecipeNew {
            machine_kind: MachineKind::Transformer,
            ticks: 20u64,
            inputs: [Some(ItemStack { item_type: ItemType::Output, amount: 5u64 }), None, None, None],
            outputs: [Some(ItemStack { item_type: ItemType::Producer, amount: 1u64 }), None, None, None],
        },
        RecipeNew {
            machine_kind: MachineKind::Combinator,
            ticks: 60u64,
            inputs: [
                Some(ItemStack { item_type: ItemType::Input, amount: 5u64 }),
                Some(ItemStack { item_type: ItemType::Output, amount: 5u64 }),
                None,
                None,
            ],
            outputs: [Some(ItemStack { item_type: ItemType::Transformer, amount: 1u64 }), None, None, None],
        },
        RecipeNew {
            machine_kind: MachineKind::Combinator,
            ticks: 60u64,
            inputs: [
                Some(ItemStack { item_type: ItemType::Transformer, amount: 1u64 }),
                Some(ItemStack { item_type: ItemType::Input, amount: 5u64 }),
                None,
                None,
            ],
            outputs: [Some(ItemStack { item_type: ItemType::Combinator, amount: 1u64 }), None, None, None],
        },
        RecipeNew {
            machine_kind: MachineKind::Combinator,
            ticks: 60u64,
            inputs: [
                Some(ItemStack { item_type: ItemType::Transformer, amount: 1u64 }),
                Some(ItemStack { item_type: ItemType::Output, amount: 5u64 }),
                None,
                None,
            ],
            outputs: [Some(ItemStack { item_type: ItemType::Separator, amount: 1u64 }), None, None, None],
        },
    ]
}

/// A producer entry for `output`: kind `Producer`, first output slot of that
/// item type.
pub open spec fn producer_matches(e: RecipeNew, output: ItemType) -> bool {
    e.machine_kind == MachineKind::Producer && (e.outputs[0] matches Some(s) && s.item_type
        == output)
}

/// A transformer entry for `output`.
pub open spec fn transformer_matches(e: RecipeNew, output: ItemType) -> bool {
    e.machine_kind == MachineKind::Transformer && (e.outputs[0] matches Some(s) && s.item_type
        == output)
}

/// A combinator entry for `output`.
pub open spec fn combinator_matches(e: RecipeNew, output: ItemType) -> bool {
    e.machine_kind == MachineKind::Combinator && (e.outputs[0] matches Some(s) && s.item_type
        == output)
}

/// A separator entry for the output pair: kind `Separator`, first two
/// output slots carrying exactly the asked item types.
pub open spec fn separator_matches(e: RecipeNew, outputs: (ItemType, ItemType)) -> bool {
    e.machine_kind == MachineKind::Separator && (e.outputs[0] matches Some(a) && a.item_type
        == outputs.0) && (e.outputs[1] matches Some(b) && b.item_type == outputs.1)
}

/// First producer entry for `output` at or after position `i`, in
/// declaration order.
pub open spec fn find_producer(s: Seq<RecipeNew>, output: ItemType, i: int) -> Option<RecipeNew>
    decreases s.len() - i,
{
    if i < 0 || i >= s.len() {
        None
    } else if producer_matches(s[i], output) {
        Some(s[i])
    } else {
        find_producer(s, output, i + 1)
    }
}

/// First transformer entry for `output` at or after position `i`.
pub open spec fn find_transformer(s: Seq<RecipeNew>, output: ItemType, i: int) -> Option<RecipeNew>
    decreases s.len() - i,
{
    if i < 0 || i >= s.len() {
        None
    } else if transformer_matches(s[i], output) {
        Some(s[i])
    } else {
        find_transformer(s, output, i + 1)
    }
}

/// First combinator entry for `output` at or after position `i`.
pub open spec fn find_combinator(s: Seq<RecipeNew>, output: ItemType, i: int) -> Option<RecipeNew>
    decreases s.len() - i,
{
    if i < 0 || i >= s.len() {
        None
    } else if combinator_matches(s[i], output) {
        Some(s[i])
    } else {
        find_combinator(s, output, i + 1)
    }
}

/// First separator entry for the output pair at or after position `i`.
pub open spec fn find_separator(s: Seq<RecipeNew>, outputs: (ItemType, ItemType), i: int) -> Option<
    RecipeNew,
>
    decreases s.len() - i,
{
    if i < 0 || i >= s.len() {
        None
    } else if separator_matches(s[i], outputs) {
        Some(s[i])
    } else {
        find_separator(s, outputs, i + 1)
    }
}

impl Recipes {
    /// Build the fixed startup table.
    pub fn init() -> (r: Recipes)
        ensures
            r.inner@ == init_table(),
    {
        let mut inner: Vec<RecipeNew> = Vec::new();
        inner.push(
            RecipeNew::producer_recipe(ItemStack::new(ItemType::Input, 1), 10),
        );
        inner.push(
            RecipeNew::producer_recipe(ItemStack::new(ItemType::Output, 1), 10),
        );
        inner.push(
            RecipeNew::transformer_recipe(
                ItemStack::new(ItemType::Input, 5),
                ItemStack::new(ItemType::Storage, 1),
                20,
            ),
        );
        inner.push(
            RecipeNew::transformer_recipe(
                ItemStack::new(ItemType::Output, 5),
                ItemStack::new(ItemType::Producer, 1),
                20,
            ),
        );
        inner.push(
            RecipeNew::combinator_recipe(
                (ItemStack::new(ItemType::Input, 5), ItemStack::new(ItemType::Output, 5)),
                ItemStack::new(ItemType::Transformer, 1),
                60,
            ),
        );
        inner.push(
            RecipeNew::combinator_recipe(
                (ItemStack::new(ItemType::Transformer, 1), ItemStack::new(ItemType::Input, 5)),
                ItemStack::new(ItemType::Combinator, 1),
                60,
            ),
        );
        inner.push(
            RecipeNew::combinator_recipe(
                (ItemStack::new(ItemType::Transformer, 1), ItemStack::new(ItemType::Output, 5)),
                ItemStack::new(ItemType::Separator, 1),
                60,
            ),
        );
        proof {
            assert(inner@ =~= init_table());
        }
        Recipes { inner }
    }

    /// First producer recipe for `output`, in table order.
    pub fn get_producer(&self, output: ItemType) -> (r: Option<RecipeNew>)
        ensures
            r == find_producer(self.inner@, output, 0),
    {
        let mut i: usize = 0;
        while i < self.inner.len()
            invariant
                0 <= i <= self.inner@.len(),
                find_producer(self.inner@, output, 0) == find_producer(
                    self.inner@,
                    output,
                    i as int,
                ),
            decreases self.inner@.len() - i,
        {
            let e = self.inner[i];
            if matches!(e.machine_kind, MachineKind::Producer) && match e.outputs[0] {
                Some(s) => s.item_type == output,
                None => false,
            } {
                return Some(e);
            }
            assert(!producer_matches(self.inner@[i as int], output));
            i = i + 1;
        }
        None
    }

    /// First transformer recipe for `output`, in table order.
    pub fn get_transformer(&self, output: ItemType) -> (r: Option<RecipeNew>)
        ensures
            r == find_transformer(self.inner@, output, 0),
    {
        let mut i: usize = 0;
        while i < self.inner.len()
            invariant
                0 <= i <= self.inner@.len(),
                find_transformer(self.inner@, output, 0) == find_transformer(
                    self.inner@,
                    output,
                    i as int,
                ),
            decreases self.inner@.len() - i,
        {
            let e = self.inner[i];
            if matches!(e.machine_kind, MachineKind::Transformer) && match e.outputs[0] {
                Some(s) => s.item_type == output,
                None => false,
            } {
                return Some(e);
            }
            assert(!transformer_matches(self.inner@[i as int], output));
            i = i + 1;
        }
        None
    }

    /// First combinator recipe for `output`, in table order.
    pub fn get_combinator(&self, output: ItemType) -> (r: Option<RecipeNew>)
        ensures
            r == find_combinator(self.inner@, output, 0),
    {
        let mut i: usize = 0;
        while i < self.inner.len()
            invariant
                0 <= i <= self.inner@.len(),
                find_combinator(self.inner@, output, 0) == find_combinator(
                    self.inner@,
                    output,
                    i as int,
                ),
            decreases self.inner@.len() - i,
        {
            let e = self.inner[i];
            if matches!(e.machine_kind, MachineKind::Combinator) && match e.outputs[0] {
                Some(s) => s.item_type == output,
                None => false,
            } {
                return Some(e);
            }
            assert(!combinator_matches(self.inner@[i as int], output));
            i = i + 1;
        }
        None
    }

    /// First separator recipe whose two output slots carry exactly
    /// `outputs`, in table order.
    pub fn get_separator(&self, outputs: (ItemType, ItemType)) -> (r: Option<RecipeNew>)
        ensures
            r == find_separator(self.inner@, outputs, 0),
    {
        let mut i: usize = 0;
        while i < self.inner.len()
            invariant
                0 <= i <= self.inner@.len(),
                find_separator(self.inner@, outputs, 0) == find_separator(
                    self.inner@,
                    outputs,
                    i as int,
                ),
            decreases self.inner@.len() - i,
        {
            let e = self.inner[i];
            if matches!(e.machine_kind, MachineKind::Separator) && match e.outputs[0] {
                Some(a) => a.item_type == outputs.0,
                None => false,
            } && match e.outputs[1] {
                Some(b) => b.item_type == outputs.1,
                None => false,
            } {
                return Some(e);
            }
            assert(!separator_matches(self.inner@[i as int], outputs));
            i = i + 1;
        }
        None
    }
}

} // verus!
