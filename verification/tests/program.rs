use logic_mesh::desc::{BlockDesc, BlockImplementation, PinDesc};
use logic_mesh::engine::{BlockHandle, BlockTable, EngineError};
use logic_mesh::ids::format_id;
use logic_mesh::pins::{BlockDefinition, InputSnapshot, OutputSnapshot};
use logic_mesh::program::{
    plan_program_blocks, resolve_program_block, save_block, LoadError, ProgramBlockRef,
};
use logic_mesh::registry::{register_block_desc, BlockRegistry, RegistryError};

fn desc(name: &str, lib: &str) -> BlockDesc {
    BlockDesc {
        name: name.to_string(),
        dis: name.to_string(),
        library: lib.to_string(),
        category: "test".to_string(),
        ver: "0.1.0".to_string(),
        implementation: BlockImplementation::Native,
        inputs: vec![PinDesc::new("in", "Number")],
        outputs: vec![PinDesc::new("out", "Number")],
    }
}

fn block_ref(id: &str, name: &str, lib: &str) -> ProgramBlockRef {
    ProgramBlockRef { id: id.to_string(), name: name.to_string(), lib: lib.to_string() }
}

#[test]
fn program_blocks_resolve_in_order() {
    let mut reg = BlockRegistry::new();
    register_block_desc(&mut reg, &desc("A", "core")).expect("A");
    register_block_desc(&mut reg, &desc("B", "lib")).expect("B");
    let blocks = vec![
        block_ref(&format_id(2), "A", "core"),
        block_ref(&format_id(1), "B", "lib"),
    ];
    let plan = plan_program_blocks(&reg, &blocks).expect("loadable");
    assert_eq!(plan.len(), 2);
    assert_eq!(plan[0].0, 2);
    assert_eq!(plan[0].1.desc.name, "A");
    assert_eq!(plan[1].0, 1);
    assert_eq!(plan[1].1.desc.library, "lib");
}

#[test]
fn loading_stops_at_the_first_bad_block() {
    let mut reg = BlockRegistry::new();
    register_block_desc(&mut reg, &desc("A", "core")).expect("A");
    let blocks = vec![
        block_ref(&format_id(2), "A", "core"),
        block_ref(&format_id(3), "Missing", "core"),
        block_ref("not-an-id", "A", "core"),
    ];
    match plan_program_blocks(&reg, &blocks) {
        Err(LoadError::Registry(RegistryError::BlockNotFound { library, name })) => {
            assert_eq!(library, "core");
            assert_eq!(name, "Missing");
        }
        other => panic!("unexpected {:?}", other.map(|p| p.len())),
    }
    let err = resolve_program_block(&reg, &blocks[2], None).expect_err("bad id");
    assert!(matches!(err, LoadError::Engine(EngineError::InvalidBlockId { ref text }) if text == "not-an-id"));
}

#[test]
fn saved_blocks_carry_metadata_and_pin_values() {
    let mut table: BlockTable<(i32, i32)> = BlockTable::new();
    table.schedule(BlockHandle::new(9, "A".to_string(), "core".to_string(), desc("A", "core")));
    table.set_block_metadata(9, Some("pump".to_string()), Some((3, 4)));
    let handle = table.block_handle(9).expect("scheduled");
    let v_in = 5i64;
    let v_out = 6i64;
    let def = BlockDefinition {
        id: 9,
        name: "A".to_string(),
        library: "core".to_string(),
        inputs: vec![InputSnapshot { name: "in".to_string(), kind: "Number".to_string(), val: Some(&v_in), is_connected: true }],
        outputs: vec![OutputSnapshot { name: "out".to_string(), kind: "Number".to_string(), val: &v_out }],
        fault_reason: None,
        state: "Running".to_string(),
    };
    let saved = save_block(handle, &def);
    assert_eq!(saved.id, 9);
    assert_eq!(saved.lib, "core");
    assert_eq!(saved.label.as_deref(), Some("pump"));
    assert_eq!(saved.position, Some(&(3, 4)));
    assert_eq!(saved.inputs[0].value, Some(&5));
    assert!(saved.inputs[0].is_connected);
    assert_eq!(saved.outputs[0].value, Some(&6));
    assert!(!saved.outputs[0].is_connected);
}

#[test]
fn saved_block_ids_load_back() {
    let mut reg = BlockRegistry::new();
    register_block_desc(&mut reg, &desc("A", "core")).expect("A");
    let mut table: BlockTable<(i32, i32)> = BlockTable::new();
    let id = 0xfeed_u128 << 64 | 0xbeef;
    table.schedule(BlockHandle::new(id, "A".to_string(), "core".to_string(), desc("A", "core")));
    let handle = table.block_handle(id).expect("scheduled");
    let def = BlockDefinition::<i64> {
        id,
        name: "A".to_string(),
        library: "core".to_string(),
        inputs: vec![],
        outputs: vec![],
        fault_reason: None,
        state: "Running".to_string(),
    };
    let saved = save_block(handle, &def);
    let refs = vec![ProgramBlockRef { id: format_id(saved.id), name: saved.name.clone(), lib: saved.lib.clone() }];
    let plan = plan_program_blocks(&reg, &refs).expect("loads back");
    assert_eq!(plan[0].0, id);
    assert_eq!(plan[0].1.desc.name, "A");
}
