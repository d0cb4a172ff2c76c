use prodsim::pipeline::machine::ItemBuffer;
use prodsim::pipeline::machine::MachineKind;
use prodsim::pipeline::recipe::ItemStack;
use prodsim::pipeline::recipe::RecipeNew;
use prodsim::pipeline::recipe::Recipes;
use prodsim::pipeline::IoBuffer;
use prodsim::ItemType;

#[test]
fn item_buffer_operations() {
    let b = ItemBuffer::new();
    assert_eq!(b.current, 0);
    assert_eq!(b.max, 50);

    let mut b = ItemBuffer::with_capacity(7);
    assert_eq!(b.max, 7);
    assert_eq!(b.remaining(), 7);
    b.deposit(5);
    assert_eq!(b.current, 5);
    assert_eq!(b.remaining(), 2);
    b.withdraw(3);
    assert_eq!(b.current, 2);
    assert_eq!(b.remaining(), 5);
}

#[test]
fn io_buffer_construction() {
    let b = IoBuffer::new(ItemType::Separator);
    assert_eq!(b.item_type, ItemType::Separator);
    assert_eq!(b.buffer.current, 0);
    assert_eq!(b.buffer.max, 50);

    let b = IoBuffer::with_capacity(ItemType::Input, 12);
    assert_eq!(b.item_type, ItemType::Input);
    assert_eq!(b.buffer.max, 12);
}

#[test]
fn recipe_constructors_fill_slots() {
    let p = RecipeNew::producer_recipe(ItemStack::new(ItemType::Input, 1), 10);
    assert_eq!(p.machine_kind, MachineKind::Producer);
    assert_eq!(p.ticks, 10);
    assert_eq!(p.inputs, [None, None, None, None]);
    assert_eq!(
        p.outputs,
        [Some(ItemStack::new(ItemType::Input, 1)), None, None, None]
    );

    let t = RecipeNew::transformer_recipe(
        ItemStack::new(ItemType::Input, 5),
        ItemStack::new(ItemType::Storage, 1),
        20,
    );
    assert_eq!(t.machine_kind, MachineKind::Transformer);
    assert_eq!(
        t.inputs,
        [Some(ItemStack::new(ItemType::Input, 5)), None, None, None]
    );

    let c = RecipeNew::combinator_recipe(
        (
            ItemStack::new(ItemType::Input, 5),
            ItemStack::new(ItemType::Output, 5),
        ),
        ItemStack::new(ItemType::Transformer, 1),
        60,
    );
    assert_eq!(c.machine_kind, MachineKind::Combinator);
    assert_eq!(c.inputs[0], Some(ItemStack::new(ItemType::Input, 5)));
    assert_eq!(c.inputs[1], Some(ItemStack::new(ItemType::Output, 5)));
    assert_eq!(c.inputs[2], None);

    let s = RecipeNew::separator_recipe(
        ItemStack::new(ItemType::Storage, 2),
        (
            ItemStack::new(ItemType::Input, 1),
            ItemStack::new(ItemType::Output, 1),
        ),
        15,
    );
    assert_eq!(s.machine_kind, MachineKind::Separator);
    assert_eq!(s.outputs[0], Some(ItemStack::new(ItemType::Input, 1)));
    assert_eq!(s.outputs[1], Some(ItemStack::new(ItemType::Output, 1)));

    let st = RecipeNew::storage_recipe();
    assert_eq!(st.machine_kind, MachineKind::Storage);
    assert_eq!(st.ticks, 0);
    assert_eq!(st.inputs, [None; 4]);
    assert_eq!(st.outputs, [None; 4]);
}

#[test]
fn table_lookups_find_first_match() {
    let recipes = Recipes::init();
    assert_eq!(recipes.inner.len(), 7);

    let p = recipes.get_producer(ItemType::Input).unwrap();
    assert_eq!(p.machine_kind, MachineKind::Producer);
    assert_eq!(p.ticks, 10);
    assert_eq!(p.outputs[0], Some(ItemStack::new(ItemType::Input, 1)));

    let t = recipes.get_transformer(ItemType::Producer).unwrap();
    assert_eq!(t.inputs[0], Some(ItemStack::new(ItemType::Output, 5)));

    let c = recipes.get_combinator(ItemType::Transformer).unwrap();
    assert_eq!(c.ticks, 60);
    assert_eq!(c.inputs[0], Some(ItemStack::new(ItemType::Input, 5)));

    assert_eq!(recipes.get_producer(ItemType::Storage), None);
    assert_eq!(recipes.get_transformer(ItemType::Input), None);
    assert_eq!(recipes.get_combinator(ItemType::Input), None);
    assert_eq!(
        recipes.get_separator((ItemType::Input, ItemType::Output)),
        None
    );
}

#[test]
fn lookup_is_deterministic_on_duplicates() {
    // two producer entries for the same output type: the first in
    // declaration order wins
    let first = RecipeNew::producer_recipe(ItemStack::new(ItemType::Input, 1), 10);
    let second = RecipeNew::producer_recipe(ItemStack::new(ItemType::Input, 3), 99);
    let recipes = Recipes {
        inner: vec![first, second],
    };
    let got = recipes.get_producer(ItemType::Input).unwrap();
    assert_eq!(got, first);
    assert_ne!(got, second);
}

#[test]
fn separator_lookup_keys_on_separator_kind() {
    // lookup is keyed by machine kind: a separator entry is found by its
    // output pair, while a combinator entry never answers a separator query
    let sep = RecipeNew::separator_recipe(
        ItemStack::new(ItemType::Storage, 2),
        (
            ItemStack::new(ItemType::Input, 1),
            ItemStack::new(ItemType::Output, 1),
        ),
        15,
    );
    let comb = RecipeNew::combinator_recipe(
        (
            ItemStack::new(ItemType::Input, 5),
            ItemStack::new(ItemType::Output, 5),
        ),
        ItemStack::new(ItemType::Transformer, 1),
        60,
    );
    let recipes = Recipes {
        inner: vec![comb, sep],
    };
    assert_eq!(
        recipes.get_separator((ItemType::Input, ItemType::Output)),
        Some(sep)
    );
    assert_eq!(
        recipes.get_separator((ItemType::Transformer, ItemType::Input)),
        None
    );
}
