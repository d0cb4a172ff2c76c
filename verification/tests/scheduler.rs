use prodsim::pipeline::machine::craft;
use prodsim::pipeline::machine::push_outputs;
use prodsim::pipeline::machine::ready_craft;
use prodsim::pipeline::machine::spawn_machine;
use prodsim::pipeline::machine::tick_crafts;
use prodsim::pipeline::machine::InputBank;
use prodsim::pipeline::machine::InputBuffers;
use prodsim::pipeline::machine::ItemBuffer;
use prodsim::pipeline::machine::Machine;
use prodsim::pipeline::machine::MachineCoupling;
use prodsim::pipeline::machine::MachineStatus;
use prodsim::pipeline::machine::Mult;
use prodsim::pipeline::machine::OutputBank;
use prodsim::pipeline::machine::OutputBuffers;
use prodsim::pipeline::machine::Working;
use prodsim::pipeline::recipe::ItemStack;
use prodsim::pipeline::recipe::RecipeNew;
use prodsim::pipeline::IoBuffer;
use prodsim::ItemType;

fn working(ticks_remaining: u64, amount: u64) -> MachineStatus {
    MachineStatus::Working(Working {
        ticks_remaining,
        amount,
    })
}

fn one_tick(machines: &mut Vec<Machine>, couplings: &Vec<MachineCoupling>) {
    ready_craft(machines);
    tick_crafts(machines);
    craft(machines);
    push_outputs(machines, couplings);
}

#[test]
fn producer_full_cycle() {
    // producer of one Input item every 10 ticks, output buffer max 50
    let recipe = RecipeNew::producer_recipe(ItemStack::new(ItemType::Input, 1), 10);
    let mut machines: Vec<Machine> = Vec::new();
    let id = spawn_machine(&mut machines, recipe);
    assert_eq!(id, 0);
    assert_eq!(machines[0].status, MachineStatus::Idle);
    assert_eq!(machines[0].output_buffers.0.len(), 1);
    assert_eq!(machines[0].output_buffers.0[0].buffer.max, 50);

    ready_craft(&mut machines);
    assert_eq!(machines[0].status, working(10, 1));

    for expected in (1..10).rev() {
        tick_crafts(&mut machines);
        assert_eq!(machines[0].status, working(expected, 1));
    }
    tick_crafts(&mut machines);
    assert_eq!(machines[0].status, MachineStatus::CraftsFinished(1));

    craft(&mut machines);
    assert_eq!(machines[0].status, MachineStatus::Idle);
    assert_eq!(machines[0].output_buffers.0[0].buffer.current, 1);
}

#[test]
fn combinator_waits_for_missing_input() {
    // two producers of A coupled to one combiner requiring (A,5),(B,5) -> C:
    // with A at 5 and B empty, Ready computes n = 0 and the combiner stays
    // Idle however often it is ticked
    let a = ItemType::Input;
    let b = ItemType::Output;
    let c = ItemType::Transformer;
    let mut machines: Vec<Machine> = Vec::new();
    let mut couplings: Vec<MachineCoupling> = Vec::new();
    let p1 = spawn_machine(
        &mut machines,
        RecipeNew::producer_recipe(ItemStack::new(a, 1), 10),
    );
    let p2 = spawn_machine(
        &mut machines,
        RecipeNew::producer_recipe(ItemStack::new(a, 1), 10),
    );
    let comb = spawn_machine(
        &mut machines,
        RecipeNew::combinator_recipe(
            (ItemStack::new(a, 5), ItemStack::new(b, 5)),
            ItemStack::new(c, 1),
            60,
        ),
    );
    prodsim::pipeline::machine::bind_output(&mut machines, &mut couplings, p1, comb, a).unwrap();
    prodsim::pipeline::machine::bind_output(&mut machines, &mut couplings, p2, comb, a).unwrap();

    // fill the combiner's A input to 5; B stays empty
    machines[comb].input_buffers.0[0].buffer.current = 5;

    for _ in 0..7 {
        ready_craft(&mut machines);
        assert_eq!(machines[comb].status, MachineStatus::Idle);
        tick_crafts(&mut machines);
        craft(&mut machines);
        push_outputs(&mut machines, &couplings);
        assert_eq!(machines[comb].input_buffers.0[1].buffer.current, 0);
    }
    assert!(machines[comb].input_buffers.0[0].buffer.current >= 5);

    // once B reaches 5 the combiner starts
    machines[comb].input_buffers.0[1].buffer.current = 5;
    let a_before = machines[comb].input_buffers.0[0].buffer.current;
    ready_craft(&mut machines);
    assert_eq!(machines[comb].status, working(60, 1));
    assert_eq!(
        machines[comb].input_buffers.0[0].buffer.current,
        a_before - 5
    );
    assert_eq!(machines[comb].input_buffers.0[1].buffer.current, 0);
}

#[test]
fn push_moves_only_what_fits() {
    // source output current = 8, destination remaining() = 3: after Push the
    // source holds 5 and the destination sits at its bound
    let t = ItemType::Storage;
    let mut machines: Vec<Machine> = Vec::new();
    let mut couplings: Vec<MachineCoupling> = Vec::new();
    let src = spawn_machine(
        &mut machines,
        RecipeNew::producer_recipe(ItemStack::new(t, 1), 5),
    );
    let dst = spawn_machine(
        &mut machines,
        RecipeNew::transformer_recipe(
            ItemStack::new(t, 5),
            ItemStack::new(ItemType::Producer, 1),
            20,
        ),
    );
    prodsim::pipeline::machine::bind_output(&mut machines, &mut couplings, src, dst, t).unwrap();
    machines[src].output_buffers.0[0].buffer.current = 8;
    machines[dst].input_buffers.0[0].buffer.current = 47;

    push_outputs(&mut machines, &couplings);

    assert_eq!(machines[src].output_buffers.0[0].buffer.current, 5);
    assert_eq!(machines[dst].input_buffers.0[0].buffer.current, 50);
    assert_eq!(machines[dst].input_buffers.0[0].buffer.max, 50);
}

#[test]
fn push_without_coupling_leaves_items_sitting() {
    let t = ItemType::Input;
    let mut machines: Vec<Machine> = Vec::new();
    let couplings: Vec<MachineCoupling> = Vec::new();
    let id = spawn_machine(
        &mut machines,
        RecipeNew::producer_recipe(ItemStack::new(t, 1), 10),
    );
    machines[id].output_buffers.0[0].buffer.current = 4;
    push_outputs(&mut machines, &couplings);
    assert_eq!(machines[id].output_buffers.0[0].buffer.current, 4);
}

#[test]
fn empty_tick_changes_nothing() {
    // an Idle machine with an input-bearing recipe and empty inputs is a
    // fixed point of the whole tick
    let mut machines: Vec<Machine> = Vec::new();
    let couplings: Vec<MachineCoupling> = Vec::new();
    let id = spawn_machine(
        &mut machines,
        RecipeNew::transformer_recipe(
            ItemStack::new(ItemType::Input, 5),
            ItemStack::new(ItemType::Storage, 1),
            20,
        ),
    );
    for _ in 0..12 {
        one_tick(&mut machines, &couplings);
        assert_eq!(machines[id].status, MachineStatus::Idle);
        assert_eq!(machines[id].input_buffers.0[0].buffer.current, 0);
        assert_eq!(machines[id].output_buffers.0[0].buffer.current, 0);
    }
}

#[test]
fn multiplier_bounds_batch_and_fast_forwards() {
    // a producer with multiplier 5 queues five crafts at once and finishes
    // a 10-tick recipe in two Progress calls
    let recipe = RecipeNew::producer_recipe(ItemStack::new(ItemType::Input, 1), 10);
    let mut machines: Vec<Machine> = Vec::new();
    let id = spawn_machine(&mut machines, recipe);
    machines[id].mult = Some(Mult(5));

    ready_craft(&mut machines);
    assert_eq!(machines[id].status, working(10, 5));
    tick_crafts(&mut machines);
    assert_eq!(machines[id].status, working(5, 5));
    tick_crafts(&mut machines);
    assert_eq!(machines[id].status, MachineStatus::CraftsFinished(5));
    craft(&mut machines);
    assert_eq!(machines[id].status, MachineStatus::Idle);
    assert_eq!(machines[id].output_buffers.0[0].buffer.current, 5);
}

#[test]
fn leftover_multiplier_ticks_are_dropped() {
    // ticks_remaining 3 with multiplier 10: one Progress call finishes the
    // batch; the 7 leftover ticks do not start a second one
    let recipe = RecipeNew::producer_recipe(ItemStack::new(ItemType::Input, 1), 3);
    let mut machines: Vec<Machine> = Vec::new();
    let id = spawn_machine(&mut machines, recipe);
    machines[id].mult = Some(Mult(10));
    ready_craft(&mut machines);
    assert_eq!(machines[id].status, working(3, 10));
    tick_crafts(&mut machines);
    assert_eq!(machines[id].status, MachineStatus::CraftsFinished(10));
    tick_crafts(&mut machines);
    assert_eq!(machines[id].status, MachineStatus::CraftsFinished(10));
}

#[test]
fn ready_drains_fan_in_buffers_in_order() {
    // one recipe input satisfied by two physical buffers of the same type:
    // the withdrawal drains in buffer order, not evenly
    let a = ItemType::Input;
    let recipe = RecipeNew::transformer_recipe(
        ItemStack::new(a, 5),
        ItemStack::new(ItemType::Storage, 1),
        20,
    );
    let m = Machine {
        kind: recipe.machine_kind,
        input_bank: InputBank::new(),
        input_buffers: InputBuffers(vec![
            IoBuffer {
                buffer: ItemBuffer {
                    current: 3,
                    max: 50,
                },
                item_type: a,
            },
            IoBuffer {
                buffer: ItemBuffer {
                    current: 4,
                    max: 50,
                },
                item_type: a,
            },
        ]),
        output_bank: OutputBank::new(),
        output_buffers: OutputBuffers(vec![IoBuffer {
            buffer: ItemBuffer {
                current: 0,
                max: 50,
            },
            item_type: ItemType::Storage,
        }]),
        recipe,
        status: MachineStatus::Idle,
        mult: None,
    };
    let mut machines = vec![m];
    ready_craft(&mut machines);
    assert_eq!(machines[0].status, working(20, 1));
    assert_eq!(machines[0].input_buffers.0[0].buffer.current, 0);
    assert_eq!(machines[0].input_buffers.0[1].buffer.current, 2);
}

#[test]
fn craft_fills_split_output_buffers_in_order() {
    // a finished batch of 3 producing 2 per craft lands 6 items across two
    // buffers of the output type, filling in buffer order
    let a = ItemType::Combinator;
    let recipe = RecipeNew::producer_recipe(ItemStack::new(a, 2), 10);
    let m = Machine {
        kind: recipe.machine_kind,
        input_bank: InputBank::new(),
        input_buffers: InputBuffers(Vec::new()),
        output_bank: OutputBank::new(),
        output_buffers: OutputBuffers(vec![
            IoBuffer {
                buffer: ItemBuffer {
                    current: 6,
                    max: 10,
                },
                item_type: a,
            },
            IoBuffer {
                buffer: ItemBuffer {
                    current: 0,
                    max: 10,
                },
                item_type: a,
            },
        ]),
        recipe,
        status: MachineStatus::CraftsFinished(3),
        mult: None,
    };
    let mut machines = vec![m];
    craft(&mut machines);
    assert_eq!(machines[0].status, MachineStatus::Idle);
    assert_eq!(machines[0].output_buffers.0[0].buffer.current, 10);
    assert_eq!(machines[0].output_buffers.0[1].buffer.current, 2);
}

#[test]
fn storage_machine_cycles_harmlessly() {
    let mut machines: Vec<Machine> = Vec::new();
    let couplings: Vec<MachineCoupling> = Vec::new();
    let id = spawn_machine(&mut machines, RecipeNew::storage_recipe());
    assert_eq!(machines[id].input_buffers.0.len(), 0);
    assert_eq!(machines[id].output_buffers.0.len(), 0);
    for _ in 0..3 {
        one_tick(&mut machines, &couplings);
    }
    assert_eq!(machines[id].status, MachineStatus::Idle);
}

#[test]
fn huge_buffer_capacity_is_handled() {
    let a = ItemType::Output;
    let recipe = RecipeNew::transformer_recipe(
        ItemStack::new(a, 1),
        ItemStack::new(ItemType::Producer, 1),
        1,
    );
    let m = Machine {
        kind: recipe.machine_kind,
        input_bank: InputBank::new(),
        input_buffers: InputBuffers(vec![IoBuffer {
            buffer: ItemBuffer {
                current: u64::MAX,
                max: u64::MAX,
            },
            item_type: a,
        }]),
        output_bank: OutputBank::new(),
        output_buffers: OutputBuffers(vec![IoBuffer {
            buffer: ItemBuffer {
                current: 0,
                max: u64::MAX,
            },
            item_type: ItemType::Producer,
        }]),
        recipe,
        status: MachineStatus::Idle,
        mult: None,
    };
    let mut machines = vec![m];
    ready_craft(&mut machines);
    assert_eq!(machines[0].status, working(1, 1));
    assert_eq!(
        machines[0].input_buffers.0[0].buffer.current,
        u64::MAX - 1
    );
    tick_crafts(&mut machines);
    craft(&mut machines);
    assert_eq!(machines[0].output_buffers.0[0].buffer.current, 1);
}

#[test]
fn coupled_producers_feed_a_combiner_to_completion() {
    // a production line actually converges: producers fill A and B, the
    // combiner starts once both inputs reach 5 and eventually crafts one C
    let a = ItemType::Input;
    let b = ItemType::Output;
    let c = ItemType::Transformer;
    let mut machines: Vec<Machine> = Vec::new();
    let mut couplings: Vec<MachineCoupling> = Vec::new();
    let p1 = spawn_machine(
        &mut machines,
        RecipeNew::producer_recipe(ItemStack::new(a, 1), 1),
    );
    let p2 = spawn_machine(
        &mut machines,
        RecipeNew::producer_recipe(ItemStack::new(b, 1), 1),
    );
    let comb = spawn_machine(
        &mut machines,
        RecipeNew::combinator_recipe(
            (ItemStack::new(a, 5), ItemStack::new(b, 5)),
            ItemStack::new(c, 1),
            2,
        ),
    );
    prodsim::pipeline::machine::bind_output(&mut machines, &mut couplings, p1, comb, a).unwrap();
    prodsim::pipeline::machine::bind_output(&mut machines, &mut couplings, p2, comb, b).unwrap();

    let mut crafted = false;
    for _ in 0..40 {
        one_tick(&mut machines, &couplings);
        if machines[comb].output_buffers.0[0].buffer.current >= 1 {
            crafted = true;
            break;
        }
    }
    assert!(crafted);
}

#[test]
fn batch_size_is_largest_feasible() {
    // transformer needing 5 A per craft, 12 A available, multiplier 10:
    // exactly two crafts fit; withdrawing 10 leaves 2
    let a = ItemType::Input;
    let recipe = RecipeNew::transformer_recipe(
        ItemStack::new(a, 5),
        ItemStack::new(ItemType::Storage, 1),
        20,
    );
    let mut machines: Vec<Machine> = Vec::new();
    let id = spawn_machine(&mut machines, recipe);
    machines[id].mult = Some(Mult(10));
    machines[id].input_buffers.0[0].buffer.current = 12;

    ready_craft(&mut machines);
    assert_eq!(machines[id].status, working(20, 2));
    assert_eq!(machines[id].input_buffers.0[0].buffer.current, 2);
}

#[test]
fn batch_size_respects_output_capacity() {
    // producer of 2 per craft into a buffer with 3 free slots, multiplier
    // 10: only one craft fits, and a completely full output means none
    let a = ItemType::Output;
    let recipe = RecipeNew::producer_recipe(ItemStack::new(a, 2), 10);
    let mut machines: Vec<Machine> = Vec::new();
    let id = spawn_machine(&mut machines, recipe);
    machines[id].mult = Some(Mult(10));
    machines[id].output_buffers.0[0].buffer.current = 47;

    ready_craft(&mut machines);
    assert_eq!(machines[id].status, working(10, 1));

    let id2 = spawn_machine(&mut machines, recipe);
    machines[id2].output_buffers.0[0].buffer.current = 50;
    ready_craft(&mut machines);
    assert_eq!(machines[id2].status, MachineStatus::Idle);
    assert_eq!(machines[id2].output_buffers.0[0].buffer.current, 50);
}

#[test]
fn cycle_conserves_by_recipe_ratio() {
    // a combiner cycle withdraws exactly 5 + 5 and deposits exactly 1
    let a = ItemType::Input;
    let b = ItemType::Output;
    let c = ItemType::Transformer;
    let mut machines: Vec<Machine> = Vec::new();
    let id = spawn_machine(
        &mut machines,
        RecipeNew::combinator_recipe(
            (ItemStack::new(a, 5), ItemStack::new(b, 5)),
            ItemStack::new(c, 1),
            2,
        ),
    );
    machines[id].input_buffers.0[0].buffer.current = 7;
    machines[id].input_buffers.0[1].buffer.current = 6;

    ready_craft(&mut machines);
    assert_eq!(machines[id].status, working(2, 1));
    assert_eq!(machines[id].input_buffers.0[0].buffer.current, 2);
    assert_eq!(machines[id].input_buffers.0[1].buffer.current, 1);
    tick_crafts(&mut machines);
    tick_crafts(&mut machines);
    assert_eq!(machines[id].status, MachineStatus::CraftsFinished(1));
    craft(&mut machines);
    assert_eq!(machines[id].status, MachineStatus::Idle);
    assert_eq!(machines[id].output_buffers.0[0].buffer.current, 1);
}
