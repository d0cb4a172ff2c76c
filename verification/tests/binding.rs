use prodsim::pipeline::machine::bind_output;
use prodsim::pipeline::machine::spawn_machine;
use prodsim::pipeline::machine::InputPort;
use prodsim::pipeline::machine::Machine;
use prodsim::pipeline::machine::MachineBindError;
use prodsim::pipeline::machine::MachineCoupling;
use prodsim::pipeline::machine::OutputPort;
use prodsim::pipeline::recipe::ItemStack;
use prodsim::pipeline::recipe::RecipeNew;
use prodsim::ItemType;

fn producer_and_consumer(t: ItemType) -> (Vec<Machine>, usize, usize) {
    let mut machines: Vec<Machine> = Vec::new();
    let src = spawn_machine(&mut machines, RecipeNew::producer_recipe(ItemStack::new(t, 1), 10));
    let dst = spawn_machine(
        &mut machines,
        RecipeNew::transformer_recipe(ItemStack::new(t, 5), ItemStack::new(ItemType::Storage, 1), 20),
    );
    (machines, src, dst)
}

#[test]
fn bind_creates_coupling_and_records_it() {
    let t = ItemType::Input;
    let (mut machines, src, dst) = producer_and_consumer(t);
    let mut couplings: Vec<MachineCoupling> = Vec::new();

    let cid = bind_output(&mut machines, &mut couplings, src, dst, t).unwrap();
    assert_eq!(cid, 0);
    assert_eq!(couplings.len(), 1);
    assert_eq!(couplings[0].input_port, InputPort(dst));
    assert_eq!(couplings[0].output_port, OutputPort(src));
    assert_eq!(couplings[0].buffer_type.0, t);
    assert_eq!(machines[src].output_bank.0, vec![0]);
    assert_eq!(machines[dst].input_bank.0, vec![0]);
}

#[test]
fn bind_rejects_missing_source() {
    let t = ItemType::Input;
    let (mut machines, _, dst) = producer_and_consumer(t);
    let mut couplings: Vec<MachineCoupling> = Vec::new();
    let r = bind_output(&mut machines, &mut couplings, 9, dst, t);
    assert_eq!(r, Err(MachineBindError::OutputDoesNotExist));
    assert!(couplings.is_empty());
}

#[test]
fn bind_rejects_missing_destination() {
    let t = ItemType::Input;
    let (mut machines, src, _) = producer_and_consumer(t);
    let mut couplings: Vec<MachineCoupling> = Vec::new();
    let r = bind_output(&mut machines, &mut couplings, src, 9, t);
    assert_eq!(r, Err(MachineBindError::InputDoesNotExist));
    assert!(couplings.is_empty());
}

#[test]
fn bind_rejects_mismatched_output_type() {
    let t = ItemType::Input;
    let (mut machines, src, dst) = producer_and_consumer(t);
    let mut couplings: Vec<MachineCoupling> = Vec::new();
    // the producer has no output buffer of this type
    let r = bind_output(&mut machines, &mut couplings, src, dst, ItemType::Combinator);
    assert_eq!(r, Err(MachineBindError::InvalidInput));
}

#[test]
fn bind_rejects_already_bound_output() {
    let t = ItemType::Input;
    let (mut machines, src, dst) = producer_and_consumer(t);
    let mut couplings: Vec<MachineCoupling> = Vec::new();
    bind_output(&mut machines, &mut couplings, src, dst, t).unwrap();
    let r = bind_output(&mut machines, &mut couplings, src, dst, t);
    assert_eq!(r, Err(MachineBindError::NoFreeOutputs));
    assert_eq!(couplings.len(), 1);
    assert_eq!(machines[src].output_bank.0.len(), 1);
}

#[test]
fn bind_rejects_destination_without_free_input() {
    let t = ItemType::Input;
    let (mut machines, src, dst) = producer_and_consumer(t);
    let mut couplings: Vec<MachineCoupling> = Vec::new();
    // a full matching input buffer offers no free capacity
    machines[dst].input_buffers.0[0].buffer.current = machines[dst].input_buffers.0[0].buffer.max;
    let r = bind_output(&mut machines, &mut couplings, src, dst, t);
    assert_eq!(r, Err(MachineBindError::NoFreeInputs));

    // a destination without any input buffer of the type is rejected the
    // same way
    let (mut machines2, src2, dst2) = producer_and_consumer(t);
    machines2[dst2].input_buffers.0[0].item_type = ItemType::Separator;
    let r2 = bind_output(&mut machines2, &mut couplings, src2, dst2, t);
    assert_eq!(r2, Err(MachineBindError::NoFreeInputs));
}
