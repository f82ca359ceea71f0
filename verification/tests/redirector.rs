use wally_vendor::planner::CopyOperation;
use wally_vendor::copier::{CopyAction, Target};
use wally_vendor::redirector::{copy_package, pick_stub, stub_action, stub_candidates};
use wally_vendor::utils::INDEX_DIR;

#[test]
fn stub_names_are_lua_then_luau() {
    assert_eq!(stub_candidates("Promise"), vec!["Promise.lua".to_string(), "Promise.luau".to_string()]);
    assert_eq!(stub_candidates(""), vec![".lua".to_string(), ".luau".to_string()]);
}

#[test]
fn the_first_stub_that_exists_is_picked() {
    let names = stub_candidates("Promise");
    assert_eq!(pick_stub(&names, &vec![true, true]), Some(0));
    assert_eq!(pick_stub(&names, &vec![true, false]), Some(0));
    assert_eq!(pick_stub(&names, &vec![false, true]), Some(1));
}

#[test]
fn no_stub_is_no_error() {
    let names = stub_candidates("Promise");
    assert_eq!(pick_stub(&names, &vec![false, false]), None);
    assert_eq!(pick_stub(&names, &vec![]), None);
    assert_eq!(pick_stub(&names, &vec![false]), None);
    assert_eq!(pick_stub(&vec![], &vec![true]), None);
}

#[test]
fn one_copy_and_one_stub_lookup_per_alias() {
    let operation = CopyOperation {
        source: "evaera_promise@4.0.0".to_string(),
        aliases: vec!["Promise".to_string(), "P".to_string()],
    };
    let work = copy_package(&operation);
    assert_eq!(work.relative, vec!["_Index".to_string(), "evaera_promise@4.0.0".to_string()]);
    assert_eq!(work.stubs.len(), 2);
    assert_eq!(work.stubs[0].alias, "Promise");
    assert_eq!(work.stubs[0].candidates, vec!["Promise.lua".to_string(), "Promise.luau".to_string()]);
    assert_eq!(work.stubs[1].alias, "P");
    assert_eq!(work.stubs[1].candidates, vec!["P.lua".to_string(), "P.luau".to_string()]);
    assert_eq!(INDEX_DIR, "_Index");
}

#[test]
fn an_operation_without_alias_has_no_stub_lookup() {
    let operation = CopyOperation { source: "a_b@1.0.0".to_string(), aliases: vec![] };
    assert!(copy_package(&operation).stubs.is_empty());
}

#[test]
fn a_stub_is_copied_unless_its_equal_is_there() {
    assert_eq!(stub_action(Target::Missing), CopyAction::CopyFile);
    assert_eq!(stub_action(Target::Present { equivalent: false }), CopyAction::CopyFile);
    assert_eq!(stub_action(Target::Present { equivalent: true }), CopyAction::Skip);
}

#[test]
fn a_second_run_writes_no_stub() {
    let first = stub_action(Target::Missing);
    assert_eq!(first, CopyAction::CopyFile);
    let second = stub_action(Target::Present { equivalent: true });
    assert_eq!(second, CopyAction::Skip);
}
