use logic_mesh::catalog::{Calendar, Concat, ParseBool, Random, Replace, Schedule, StrLen};
use logic_mesh::desc::{BlockDesc, BlockImplementation, PinDesc, RegisterableBlock};
use logic_mesh::registry::{
    check_input_count, get_block, get_core_block, list_registered_blocks, make_registered,
    register, register_block_desc, BlockRegistry, RegistryError,
};
use logic_mesh::timers::{CycleCount, OffDelay, OnDelay, OneShot, RateLimit, Runtime, SampleHold};

fn test_desc(name: &str, library: &str) -> BlockDesc {
    BlockDesc {
        name: name.to_string(),
        dis: name.to_string(),
        library: library.to_string(),
        category: "test".to_string(),
        ver: "0.1.0".to_string(),
        implementation: BlockImplementation::Native,
        inputs: vec![PinDesc::new("in", "Number")],
        outputs: vec![PinDesc::new("out", "Number")],
    }
}

struct Increment;

impl RegisterableBlock for Increment {
    fn block_desc() -> BlockDesc {
        test_desc("Increment", "runtime_test")
    }
}

struct Dup;

impl RegisterableBlock for Dup {
    fn block_desc() -> BlockDesc {
        test_desc("Dup", "dup_test")
    }
}

struct ClashA;

impl RegisterableBlock for ClashA {
    fn block_desc() -> BlockDesc {
        test_desc("Clash", "clash_lib_a")
    }
}

struct ClashB;

impl RegisterableBlock for ClashB {
    fn block_desc() -> BlockDesc {
        test_desc("Clash", "clash_lib_b")
    }
}

#[test]
fn duplicate_registration_errors_with_context() {
    let mut reg = BlockRegistry::new();
    let _ = register::<Increment>(&mut reg);

    let desc = Increment::block_desc();
    let err = register_block_desc(&mut reg, &desc).expect_err("duplicate should be rejected");
    assert_eq!(
        err.to_string(),
        "Block 'Increment' is already registered in library 'runtime_test'"
    );
}

#[test]
fn duplicate_register_errors_instead_of_overwriting() {
    let mut reg = BlockRegistry::new();
    register::<Dup>(&mut reg).expect("first registration succeeds");

    let err = register::<Dup>(&mut reg).expect_err("duplicate should be rejected");
    assert_eq!(
        err.to_string(),
        "Block 'Dup' is already registered in library 'dup_test'"
    );
}

#[test]
fn name_clash_across_libraries_errors_with_context() {
    let mut reg = BlockRegistry::new();
    let _ = register::<ClashA>(&mut reg);
    let _ = register::<ClashB>(&mut reg);

    let err = make_registered(&reg, "Clash", None).expect_err("clash should be rejected");
    assert_eq!(
        err.to_string(),
        "Block name 'Clash' is ambiguous across libraries: 'clash_lib_a', 'clash_lib_b'"
    );
}

#[test]
fn clash_libraries_are_listed_in_sorted_order() {
    let mut reg = BlockRegistry::new();
    let _ = register::<ClashB>(&mut reg);
    let _ = register::<ClashA>(&mut reg);

    match make_registered(&reg, "Clash", None) {
        Err(RegistryError::AmbiguousBlockName { name, libraries }) => {
            assert_eq!(name, "Clash");
            assert_eq!(libraries, vec!["clash_lib_a".to_string(), "clash_lib_b".to_string()]);
        }
        other => panic!("unexpected {:?}", other),
    }
}

#[test]
fn qualified_name_resolves_despite_clash() {
    let mut reg = BlockRegistry::new();
    let _ = register::<ClashA>(&mut reg);
    let _ = register::<ClashB>(&mut reg);

    let entry = make_registered(&reg, "Clash", Some("clash_lib_a"))
        .expect("qualified name should resolve");
    assert_eq!(entry.desc.library, "clash_lib_a");
    assert!(entry.constructible);
}

#[test]
fn unknown_block_reports_a_matchable_variant() {
    let reg = BlockRegistry::new();

    let err = make_registered(&reg, "NoSuchBlock", None).expect_err("unknown block is rejected");
    assert!(matches!(
        err,
        RegistryError::BlockNotRegistered { ref name } if name == "NoSuchBlock"
    ));
    assert_eq!(err.to_string(), "Block 'NoSuchBlock' is not registered");

    let err = make_registered(&reg, "NoSuchBlock", Some("no_such_lib"))
        .expect_err("unknown library is rejected");
    assert!(matches!(
        err,
        RegistryError::BlockNotFound { ref library, ref name }
            if library == "no_such_lib" && name == "NoSuchBlock"
    ));
    assert_eq!(
        err.to_string(),
        "Block 'NoSuchBlock' not found in library 'no_such_lib'"
    );
}

#[test]
fn unqualified_lookup_resolves_a_unique_name() {
    let mut reg = BlockRegistry::new();
    register::<Increment>(&mut reg).expect("registered");
    let entry = make_registered(&reg, "Increment", None).expect("unique name resolves");
    assert_eq!(entry.desc.library, "runtime_test");
}

#[test]
fn a_bare_descriptor_cannot_be_built() {
    let mut reg = BlockRegistry::new();
    register_block_desc(&mut reg, &test_desc("Remote", "ext")).expect("registered");
    let entry = get_block(&reg, "Remote", Some("ext")).expect("found");
    assert!(!entry.constructible);
    assert!(make_registered(&reg, "Remote", Some("ext")).is_err());
    assert!(make_registered(&reg, "Remote", None).is_err());
}

#[test]
fn registered_descriptor_is_listed_and_found() {
    let mut reg = BlockRegistry::new();
    register_block_desc(&mut reg, &test_desc("A", "lib1")).expect("A");
    register_block_desc(&mut reg, &test_desc("B", "lib1")).expect("B");
    register_block_desc(&mut reg, &test_desc("A", "lib2")).expect("A in another library");

    let names: Vec<(String, String)> = list_registered_blocks(&reg)
        .into_iter()
        .map(|d| (d.library, d.name))
        .collect();
    assert_eq!(
        names,
        vec![
            ("lib1".to_string(), "A".to_string()),
            ("lib1".to_string(), "B".to_string()),
            ("lib2".to_string(), "A".to_string()),
        ]
    );
    assert_eq!(get_block(&reg, "B", Some("lib1")).expect("B").desc.name, "B");
    assert!(get_block(&reg, "B", Some("lib2")).is_none());
}

#[test]
fn core_blocks_register_once_each() {
    let mut reg = BlockRegistry::new();
    register::<OnDelay>(&mut reg).expect("OnDelay");
    register::<OffDelay>(&mut reg).expect("OffDelay");
    register::<OneShot>(&mut reg).expect("OneShot");
    register::<CycleCount>(&mut reg).expect("CycleCount");
    register::<Runtime>(&mut reg).expect("Runtime");
    register::<RateLimit>(&mut reg).expect("RateLimit");
    register::<SampleHold>(&mut reg).expect("SampleHold");
    register::<Schedule>(&mut reg).expect("Schedule");
    register::<Calendar>(&mut reg).expect("Calendar");
    register::<Random>(&mut reg).expect("Random");
    register::<ParseBool>(&mut reg).expect("ParseBool");
    register::<Concat>(&mut reg).expect("Concat");
    register::<StrLen>(&mut reg).expect("StrLen");
    register::<Replace>(&mut reg).expect("Replace");
    assert_eq!(list_registered_blocks(&reg).len(), 14);

    let random = get_core_block(&reg, "Random").expect("Random block not found");
    assert_eq!(random.desc.name, "Random");
    assert_eq!(random.desc.library, "core");
    assert_eq!(random.desc.category, "misc");

    let concat = get_core_block(&reg, "Concat").expect("Concat");
    assert_eq!(concat.desc.inputs.len(), 16);
    assert_eq!(concat.desc.inputs[0].name, "in0");
    assert_eq!(concat.desc.inputs[15].name, "in15");

    let len = get_core_block(&reg, "StrLen").expect("StrLen");
    assert_eq!(len.desc.dis, "StringLen");

    let runtime = get_core_block(&reg, "Runtime").expect("Runtime");
    assert!(runtime.desc.has_output("hours"));
    assert!(runtime.desc.has_input("reset"));
    assert!(!runtime.desc.has_input("hours"));

    assert!(register::<Random>(&mut reg).is_err());
}

#[test]
fn too_many_inputs_reports_the_counts() {
    assert!(check_input_count(2, 2).is_ok());
    assert!(check_input_count(2, 0).is_ok());
    let err = check_input_count(2, 3).expect_err("surplus inputs should be rejected");
    assert!(matches!(
        err,
        RegistryError::TooManyInputs { declared: 2, supplied: 3 }
    ));
    assert_eq!(
        err.to_string(),
        "Too many inputs: the block declares 2, 3 were supplied"
    );
}
