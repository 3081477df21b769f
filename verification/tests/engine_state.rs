use logic_mesh::connectors::{
    check_attach, commit_attach, detach_connector, take_managed_connectors,
    unregister_connectors, ConnectorRegistry,
};
use logic_mesh::desc::{BlockDesc, BlockImplementation, PinDesc};
use logic_mesh::engine::{input_to_refresh, BlockHandle, BlockTable, EngineError, LinkData, LinkEnd};
use logic_mesh::ids::{format_id, parse_id};
use logic_mesh::registry::{get_core_block, make_registered, register_block_desc, BlockRegistry, RegistryError};
use logic_mesh::pins::{
    propagate_status, snapshot_block_data, snapshot_block_definition, BlockPins, BlockState,
    InputPin, InputSnapshot, OutputPin, Status,
};

fn add_desc() -> BlockDesc {
    BlockDesc {
        name: "Add".to_string(),
        dis: "Add".to_string(),
        library: "core".to_string(),
        category: "math".to_string(),
        ver: "0.1.0".to_string(),
        implementation: BlockImplementation::Native,
        inputs: vec![PinDesc::new("in0", "Number"), PinDesc::new("in1", "Number")],
        outputs: vec![PinDesc::new("out", "Number")],
    }
}

fn input(name: &str) -> InputPin<i64, u8> {
    InputPin {
        name: name.to_string(),
        kind: "Number".to_string(),
        connection_count: 0,
        value: None,
        status: Status::Good,
        links: Vec::new(),
    }
}

fn output(name: &str) -> OutputPin<i64, u8> {
    OutputPin {
        name: name.to_string(),
        kind: "Number".to_string(),
        value: 0,
        effective_status: Status::Good,
        links: Vec::new(),
    }
}

fn add_block(id: u128) -> BlockPins<i64, u8> {
    BlockPins {
        id,
        name: "Add".to_string(),
        desc: add_desc(),
        state: BlockState::Running,
        inputs: vec![input("in0"), input("in1")],
        outputs: vec![output("out")],
    }
}

fn link(source: u128, target: u128, pin: &str) -> LinkData {
    LinkData {
        id: None,
        source_block_uuid: format_id(source),
        target_block_uuid: format_id(target),
        source_block_pin_name: "out".to_string(),
        target_block_pin_name: pin.to_string(),
    }
}

#[test]
fn link_validation_reports_matchable_variants() {
    let mut table: BlockTable<(i32, i32)> = BlockTable::new();
    let add_id: u128 = 0x11;
    table.schedule(BlockHandle::new(add_id, "Add".to_string(), "core".to_string(), add_desc()));
    let mut pending = Vec::new();

    let missing: u128 = 0x99;
    let err = table
        .connect_blocks_sync(&mut pending, &link(missing, add_id, "in0"))
        .expect_err("unknown source block is rejected");
    assert!(matches!(err, EngineError::BlockInstanceNotFound { id } if id == missing));

    let err = table
        .connect_blocks_sync(&mut pending, &link(add_id, add_id, "no_such_pin"))
        .expect_err("unknown target pin is rejected");
    assert!(matches!(
        err,
        EngineError::PinNotFound { end, block, ref pin }
            if end == LinkEnd::Target && block == add_id && pin == "no_such_pin"
    ));
    assert!(pending.is_empty());
}

#[test]
fn queued_links_get_an_id() {
    let mut table: BlockTable<(i32, i32)> = BlockTable::new();
    table.schedule(BlockHandle::new(1, "Add".to_string(), "core".to_string(), add_desc()));
    table.schedule(BlockHandle::new(2, "Add".to_string(), "core".to_string(), add_desc()));
    let mut pending = Vec::new();

    let queued = table.connect_blocks_sync(&mut pending, &link(1, 2, "in1")).expect("valid link");
    let id = queued.id.clone().expect("an id was assigned");
    assert!(parse_id(&id).is_some());
    assert_eq!(pending.len(), 1);
    assert_eq!(pending[0].id, Some(id));

    let mut own = link(2, 1, "in0");
    own.id = Some("my-link".to_string());
    let queued = table.connect_blocks_sync(&mut pending, &own).expect("valid link");
    assert_eq!(queued.id.as_deref(), Some("my-link"));
    assert_eq!(pending.len(), 2);

    // An input can be the source of a link (fan-out).
    let mut fan = link(1, 2, "in0");
    fan.source_block_pin_name = "in1".to_string();
    assert!(table.connect_blocks_sync(&mut pending, &fan).is_ok());

    let mut bad = link(1, 2, "in0");
    bad.source_block_pin_name = "nope".to_string();
    let err = table.connect_blocks_sync(&mut pending, &bad).expect_err("bad source pin");
    assert!(matches!(err, EngineError::PinNotFound { end: LinkEnd::Source, block: 1, .. }));

    let mut garbled = link(1, 2, "in0");
    garbled.target_block_uuid = "garbled".to_string();
    let err = table.connect_blocks_sync(&mut pending, &garbled).expect_err("bad id");
    assert!(matches!(err, EngineError::InvalidBlockId { ref text } if text == "garbled"));
    assert_eq!(pending.len(), 3);
}

#[test]
fn block_table_keeps_handles_in_id_order() {
    let mut table: BlockTable<(i32, i32)> = BlockTable::new();
    for id in [5u128, 1, 3] {
        table.schedule(BlockHandle::new(id, "Add".to_string(), "core".to_string(), add_desc()));
    }
    let ids: Vec<u128> = table.block_handles().iter().map(|h| h.id()).collect();
    assert_eq!(ids, vec![1, 3, 5]);
    assert_eq!(table.other_ids(3), vec![1, 5]);

    table.set_block_metadata(3, Some("label".to_string()), Some((10, 20)));
    let h = table.block_handle(3).expect("scheduled");
    assert_eq!(h.label(), Some("label"));
    assert_eq!(h.position(), Some(&(10, 20)));
    assert_eq!(h.name(), "Add");
    assert_eq!(h.library(), "core");
    assert_eq!(h.desc().inputs.len(), 2);

    table.set_block_metadata(3, None, None);
    assert_eq!(table.block_handle(3).expect("kept").label(), Some("label"));

    let removed = table.remove(3).expect("removed");
    assert_eq!(removed.id(), 3);
    assert!(table.block_handle(3).is_none());
    assert!(table.remove(3).is_none());
    assert_eq!(table.block_handles().len(), 2);
}

#[test]
fn refresh_picks_the_first_other_connected_input() {
    let a = 1i64;
    let inputs = vec![
        InputSnapshot { name: "in0".to_string(), kind: "Number".to_string(), val: Some(&a), is_connected: true },
        InputSnapshot { name: "in1".to_string(), kind: "Number".to_string(), val: None, is_connected: false },
        InputSnapshot { name: "in2".to_string(), kind: "Number".to_string(), val: None, is_connected: true },
    ];
    assert_eq!(input_to_refresh(&inputs, "in0"), Some(2));
    assert_eq!(input_to_refresh(&inputs, "in2"), Some(0));
    let idle = vec![InputSnapshot::<i64> {
        name: "in1".to_string(),
        kind: "Number".to_string(),
        val: None,
        is_connected: false,
    }];
    assert_eq!(input_to_refresh(&idle, "in0"), None);
}

#[test]
fn writes_read_back_and_report_the_previous_value() {
    let mut b = add_block(7);
    assert_eq!(b.write_input("in0", 5), Ok(None));
    assert_eq!(b.write_input("in0", 6), Ok(Some(5)));
    assert_eq!(b.input_value("in0"), Some(&6));
    assert_eq!(b.write_input("nope", 1), Err("Input not found".to_string()));
    assert_eq!(b.write_output("out", 9), Ok(0));
    assert_eq!(b.output_value("out"), Some(&9));
    assert_eq!(b.write_output("nope", 1), Err("Output not found".to_string()));
    assert!(b.has_output("out"));
    assert!(!b.has_output("in0"));
}

#[test]
fn connection_counts_saturate_at_zero() {
    let mut b = add_block(7);
    assert_eq!(b.increment_input("in1"), Some(1));
    assert_eq!(b.increment_input("in1"), Some(2));
    assert_eq!(b.decrement_input("in1"), Some(1));
    assert_eq!(b.decrement_input("in1"), Some(0));
    assert_eq!(b.decrement_input("in1"), Some(0));
    assert_eq!(b.increment_input("nope"), None);
}

#[test]
fn links_are_added_collected_and_removed() {
    let mut b = add_block(7);
    let l1 = b.add_output_link("out", 8, "in0".to_string(), 1).expect("linked");
    assert_eq!(
        b.add_output_link("out", 8, "in0".to_string(), 1),
        Err("Already connected".to_string())
    );
    let l2 = b.add_output_link("out", 9, "in1".to_string(), 2).expect("linked");
    let l3 = b.add_input_link("in0", 9, "in0".to_string(), 3).expect("fan-out");
    assert_eq!(
        b.add_input_link("in0", 7, "in1".to_string(), 3),
        Err("Cannot connect to the same block".to_string())
    );
    assert_eq!(
        b.add_output_link("nope", 9, "in1".to_string(), 2),
        Err("Output not found".to_string())
    );

    assert_eq!(b.collect_targets_for_link(l2), vec![(9, "in1".to_string())]);
    assert_eq!(b.collect_all_targets().len(), 3);

    let (data, records) = snapshot_block_data(&b);
    assert_eq!(data.id, 7);
    assert_eq!(data.lib, "core");
    assert_eq!(records.len(), 3);
    assert_eq!(records[2].source_block_pin_name, "in0");
    assert_eq!(records[2].id, l3);

    b.remove_link_by_id(l1);
    assert!(b.collect_targets_for_link(l1).is_empty());
    assert_eq!(b.collect_all_targets().len(), 2);

    b.remove_target_block_links(9);
    assert!(b.collect_all_targets().is_empty());

    b.add_output_link("out", 8, "in0".to_string(), 1).expect("relinked");
    b.remove_all_links();
    assert!(b.collect_all_targets().is_empty());
}

#[test]
fn inspection_shows_pins_and_fault() {
    let mut b = add_block(7);
    b.write_input("in1", 3).expect("written");
    b.increment_input("in1");
    b.state = BlockState::Fault("boom".to_string());
    let d = snapshot_block_definition(&b);
    assert_eq!(d.id, 7);
    assert_eq!(d.state, "Fault");
    assert_eq!(d.fault_reason, Some("boom".to_string()));
    assert_eq!(d.inputs.len(), 2);
    assert!(d.inputs[1].is_connected);
    assert_eq!(d.inputs[1].val, Some(&3));
    assert_eq!(d.inputs[0].val, None);
    assert_eq!(*d.outputs[0].val, 0);
}

#[test]
fn status_follows_the_block_state() {
    let mut b = add_block(7);
    let fault = BlockState::Fault("x".to_string());
    assert_eq!(propagate_status(&fault, &BlockState::Running, &mut b), Some(Status::Fault));
    assert_eq!(b.outputs[0].effective_status, Status::Fault);
    assert_eq!(propagate_status(&BlockState::Running, &fault, &mut b), Some(Status::Good));
    assert_eq!(b.outputs[0].effective_status, Status::Good);
    assert_eq!(propagate_status(&BlockState::Running, &BlockState::Running, &mut b), None);
}

#[test]
fn connector_duplicate_name_is_rejected() {
    let mut reg: ConnectorRegistry<u32> = ConnectorRegistry::new();
    assert!(reg.register("mqtt".to_string(), 1).is_ok());
    assert_eq!(
        reg.register("mqtt".to_string(), 2),
        Err("Connector 'mqtt' is already registered".to_string())
    );
    assert_eq!(reg.get("mqtt"), Some(&1));
}

#[test]
fn attach_and_detach_keep_the_bookkeeping() {
    let mut reg: ConnectorRegistry<u32> = ConnectorRegistry::new();
    reg.register("a".to_string(), 10).expect("a");
    reg.register("b".to_string(), 20).expect("b");
    let mut managed: Vec<String> = Vec::new();

    assert_eq!(check_attach(&managed, &reg, "a"), Ok(&10));
    assert_eq!(
        check_attach(&managed, &reg, "zzz"),
        Err("Connector 'zzz' is not registered".to_string())
    );
    assert_eq!(commit_attach(&mut managed, "a".to_string(), Ok(())), Ok("a".to_string()));
    assert_eq!(
        check_attach(&managed, &reg, "a"),
        Err("Connector 'a' is already managed by the engine".to_string())
    );
    let failed = commit_attach(&mut managed, "b".to_string(), Err("start refused".to_string()));
    assert_eq!(failed, Err("start refused".to_string()));
    assert_eq!(managed, vec!["a".to_string()]);

    assert_eq!(
        detach_connector(&mut managed, &mut reg, "b"),
        Err("Connector 'b' is not managed by the engine".to_string())
    );
    assert_eq!(
        detach_connector(&mut managed, &mut reg, "a"),
        Ok(("a".to_string(), Some(10)))
    );
    assert!(managed.is_empty());
    assert_eq!(reg.get("a"), None);
    assert_eq!(reg.get("b"), Some(&20));
}

#[test]
fn reset_unregisters_every_managed_connector() {
    let mut reg: ConnectorRegistry<u32> = ConnectorRegistry::new();
    reg.register("a".to_string(), 10).expect("a");
    reg.register("b".to_string(), 20).expect("b");
    reg.register("c".to_string(), 30).expect("c");
    let mut managed = vec!["c".to_string(), "a".to_string(), "gone".to_string()];

    let taken = take_managed_connectors(&mut managed, &mut reg);
    assert_eq!(taken, vec![("c".to_string(), 30), ("a".to_string(), 10)]);
    assert!(managed.is_empty());
    assert_eq!(reg.get("b"), Some(&20));
    assert_eq!(reg.unregister("b"), Some(20));
    assert_eq!(reg.unregister("b"), None);
}

#[test]
fn drop_unregisters_every_managed_connector() {
    let mut reg: ConnectorRegistry<u32> = ConnectorRegistry::new();
    reg.register("a".to_string(), 10).expect("a");
    reg.register("b".to_string(), 20).expect("b");
    let mut managed = vec!["b".to_string()];
    unregister_connectors(&mut managed, &mut reg);
    assert!(managed.is_empty());
    assert_eq!(reg.get("b"), None);
    assert_eq!(reg.get("a"), Some(&10));
    // Re-registration is possible again.
    assert!(reg.register("b".to_string(), 21).is_ok());
}

#[test]
fn eval_with_too_many_inputs_reports_the_counts() {
    let mut b = add_block(7);
    let err = b.feed_inputs(vec![1, 2, 3]).expect_err("surplus inputs should be rejected");
    assert!(matches!(err, RegistryError::TooManyInputs { declared: 2, supplied: 3 }));
    assert_eq!(b.input_value("in0"), Some(&1));
    assert_eq!(b.input_value("in1"), Some(&2));
}

#[test]
fn feeding_inputs_fills_them_in_order() {
    let mut b = add_block(7);
    b.feed_inputs(vec![4]).expect("fits");
    assert_eq!(b.input_value("in0"), Some(&4));
    assert_eq!(b.input_value("in1"), None);
    assert_eq!(b.inputs[0].connection_count, 1);
    assert_eq!(b.inputs[1].connection_count, 0);
}

#[test]
fn instantiated_block_carries_the_requested_id() {
    let mut reg = BlockRegistry::new();
    register_block_desc(&mut reg, &add_desc()).expect("registered");
    let entry = get_core_block(&reg, "Add").expect("found");
    let b: BlockPins<i64, u8> = BlockPins::instantiate(&entry, 0xabc, &7);
    assert_eq!(b.id, 0xabc);
    assert_eq!(b.name, "Add");
    assert_eq!(b.inputs.len(), 2);
    assert_eq!(b.inputs[1].name, "in1");
    assert_eq!(b.inputs[1].connection_count, 0);
    assert_eq!(b.outputs[0].value, 7);
    assert!(b.outputs[0].links.is_empty());
    assert!(make_registered(&reg, "Add", Some("core")).is_err());
}

#[test]
fn delivered_inputs_keep_the_producer_status() {
    let mut b = add_block(7);
    b.deliver_input(1, 9, Status::Fault);
    assert_eq!(b.input_value("in1"), Some(&9));
    assert_eq!(b.inputs[1].status, Status::Fault);
    assert_eq!(b.input_value("in0"), None);
}
