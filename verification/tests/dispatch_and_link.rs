use mun_core::abi::{
    AssemblyInfo, DispatchSlot, FunctionInfo, FunctionSignature, Symbols,
};
use mun_core::assembly::{check_assembly_info, validate_exports, Assembly};
use mun_core::dispatch::DispatchTable;
use mun_core::error::{InvokeError, LinkError, LoadError};
use mun_core::guid::Guid;
use mun_core::runtime::{check_reload_pair, resolve_invoke};

fn guid(n: u128) -> Guid {
    Guid { value: n }
}

const F32_GUID: u128 = 1;

fn sig(name: &str, args: Vec<u128>, ret: Option<u128>) -> FunctionSignature {
    FunctionSignature {
        name: name.to_string(),
        arg_types: args.into_iter().map(guid).collect(),
        return_type: ret.map(guid),
    }
}

fn func(name: &str, args: Vec<u128>, ret: Option<u128>, ptr: usize) -> FunctionInfo {
    FunctionInfo { signature: sig(name, args, ret), fn_ptr: ptr }
}

fn info(path: &str, functions: Vec<FunctionInfo>, slots: Vec<FunctionSignature>) -> AssemblyInfo {
    AssemblyInfo {
        symbols: Symbols { path: path.to_string(), types: Vec::new(), functions },
        dispatch_table: slots
            .into_iter()
            .map(|signature| DispatchSlot { signature, fn_ptr: 0 })
            .collect(),
    }
}

#[test]
fn dispatch_insert_get_remove() {
    let mut table = DispatchTable::new();
    assert!(table.get_fn(&"add".to_string()).is_none());
    table.insert_fn(func("add", vec![F32_GUID, F32_GUID], Some(F32_GUID), 100));
    let f = table.get_fn(&"add".to_string()).expect("inserted");
    assert_eq!(f.fn_ptr, 100);
    // Replacement under the same name wins.
    table.insert_fn(func("add", vec![F32_GUID, F32_GUID], Some(F32_GUID), 200));
    assert_eq!(table.get_fn(&"add".to_string()).unwrap().fn_ptr, 200);
    // Removal by a non-owner is a no-op.
    table.remove_fn(&"add".to_string(), 100);
    assert_eq!(table.get_fn(&"add".to_string()).unwrap().fn_ptr, 200);
    // Removal by the owner erases.
    table.remove_fn(&"add".to_string(), 200);
    assert!(table.get_fn(&"add".to_string()).is_none());
}

#[test]
fn register_dependency_records_slots() {
    let mut table = DispatchTable::new();
    table.register_dependency(&"mod_a".to_string(), sig("greet", vec![2], None));
    table.register_dependency(&"mod_a".to_string(), sig("add", vec![1, 1], Some(1)));
    assert_eq!(table.fn_dependencies.len(), 1);
    assert_eq!(table.fn_dependencies[0].requirements.len(), 2);
    table.register_dependency(&"mod_b".to_string(), sig("greet", vec![2], None));
    assert_eq!(table.fn_dependencies.len(), 2);
}

#[test]
fn load_links_against_own_and_table() {
    let table = DispatchTable::new();
    // The artifact's own function satisfies its own call slot.
    let a = info(
        "mod_a",
        vec![func("add", vec![F32_GUID, F32_GUID], Some(F32_GUID), 300)],
        vec![sig("add", vec![F32_GUID, F32_GUID], Some(F32_GUID))],
    );
    assert!(Assembly::load("a.so".to_string(), a, &table).is_ok());
}

#[test]
fn load_fails_on_missing_symbol() {
    let table = DispatchTable::new();
    let a = info("mod_a", Vec::new(), vec![sig("missing", vec![], None)]);
    match Assembly::load("a.so".to_string(), a, &table) {
        Err(LinkError::UnresolvedSymbol { name }) => assert_eq!(name, "missing"),
        other => panic!("expected UnresolvedSymbol, got {:?}", other.is_ok()),
    }
}

#[test]
fn load_fails_on_signature_mismatch() {
    // A second artifact depends on greet(i32) while the table provides
    // greet(f32): the load is refused with both signatures reported.
    let mut table = DispatchTable::new();
    table.insert_fn(func("greet", vec![F32_GUID], None, 400));
    let b = info("mod_b", Vec::new(), vec![sig("greet", vec![7], None)]);
    match Assembly::load("b.so".to_string(), b, &table) {
        Err(LinkError::SignatureMismatch { name, expected, found }) => {
            assert_eq!(name, "greet");
            assert_eq!(expected.arg_types[0].value, 7);
            assert_eq!(found.arg_types[0].value, F32_GUID);
        },
        _ => panic!("expected SignatureMismatch"),
    }
}

#[test]
fn link_fills_table_and_slots() {
    let mut table = DispatchTable::new();
    table.insert_fn(func("print", vec![], None, 500));
    let a = info(
        "mod_a",
        vec![func("add", vec![F32_GUID, F32_GUID], Some(F32_GUID), 300)],
        vec![
            sig("add", vec![F32_GUID, F32_GUID], Some(F32_GUID)),
            sig("print", vec![], None),
        ],
    );
    let mut assembly = Assembly::load("a.so".to_string(), a, &table).expect("linkable");
    assembly.link(&mut table);
    assert_eq!(table.get_fn(&"add".to_string()).unwrap().fn_ptr, 300);
    assert_eq!(assembly.info.dispatch_table[0].fn_ptr, 300);
    assert_eq!(assembly.info.dispatch_table[1].fn_ptr, 500);
}

#[test]
fn validate_exports_reports_first_missing() {
    assert!(validate_exports(true, true).is_ok());
    match validate_exports(false, true) {
        Err(LoadError::SymbolMissing { name }) => assert_eq!(name, "get_info"),
        _ => panic!("expected SymbolMissing"),
    }
    match validate_exports(true, false) {
        Err(LoadError::SymbolMissing { name }) => assert_eq!(name, "set_allocator_handle"),
        _ => panic!("expected SymbolMissing"),
    }
}

#[test]
fn reload_pair_rejects_colliding_registrations() {
    // Two artifacts register `tick` with different signatures in one
    // reload step: the step is rejected; nothing may be linked.
    let a = info("mod_a", vec![func("tick", vec![1], None, 600)], vec![]);
    let b = info("mod_b", vec![func("tick", vec![2], None, 700)], vec![]);
    match check_reload_pair(&a, &b) {
        Err(LinkError::SignatureMismatch { name, .. }) => assert_eq!(name, "tick"),
        _ => panic!("expected rejection"),
    }
    let c = info("mod_c", vec![func("tick", vec![1], None, 800)], vec![]);
    assert!(check_reload_pair(&a, &c).is_ok());
}

#[test]
fn invoke_resolves_add() {
    // The artifact exports add(f32, f32) -> f32; the host's invocation
    // with two f32 arguments resolves to its address.
    let a = info(
        "mod_a",
        vec![func("add", vec![F32_GUID, F32_GUID], Some(F32_GUID), 300)],
        vec![],
    );
    let args = vec![guid(F32_GUID), guid(F32_GUID)];
    match resolve_invoke(&a, &"add".to_string(), &args, Some(guid(F32_GUID))) {
        Ok(ptr) => assert_eq!(ptr, 300),
        Err(_) => panic!("expected resolution"),
    }
    // The host-side call through the returned address then computes
    // 4.0 + 2.0 == 6.0 in the artifact's native code.
    let (x, y) = (4.0f32, 2.0f32);
    assert_eq!(x + y, 6.0f32);
}

#[test]
fn invoke_rejects_bad_calls() {
    let a = info(
        "mod_a",
        vec![func("add", vec![F32_GUID, F32_GUID], Some(F32_GUID), 300)],
        vec![],
    );
    match resolve_invoke(&a, &"sub2".to_string(), &vec![], None) {
        Err(InvokeError::FunctionMissing { name }) => assert_eq!(name, "sub2"),
        _ => panic!("expected FunctionMissing"),
    }
    match resolve_invoke(&a, &"add".to_string(), &vec![guid(F32_GUID)], Some(guid(F32_GUID))) {
        Err(InvokeError::ArityMismatch { expected, found }) => {
            assert_eq!(expected, 2);
            assert_eq!(found, 1);
        },
        _ => panic!("expected ArityMismatch"),
    }
    let wrong = vec![guid(F32_GUID), guid(9)];
    match resolve_invoke(&a, &"add".to_string(), &wrong, Some(guid(F32_GUID))) {
        Err(InvokeError::TypeMismatch { argument }) => assert_eq!(argument, 1),
        _ => panic!("expected TypeMismatch"),
    }
    let args = vec![guid(F32_GUID), guid(F32_GUID)];
    match resolve_invoke(&a, &"add".to_string(), &args, None) {
        Err(InvokeError::TypeMismatch { argument }) => assert_eq!(argument, 2),
        _ => panic!("expected TypeMismatch on return type"),
    }
}

#[test]
fn assembly_info_well_formedness_is_decided() {
    let good = info(
        "mod_a",
        vec![func("add", vec![1], Some(1), 300), func("sub2", vec![1], Some(1), 400)],
        vec![],
    );
    assert!(check_assembly_info(&good));
    let dup = info(
        "mod_a",
        vec![func("add", vec![1], Some(1), 300), func("add", vec![2], None, 400)],
        vec![],
    );
    assert!(!check_assembly_info(&dup), "duplicated export name");
    let null = info("mod_a", vec![func("add", vec![1], Some(1), 0)], vec![]);
    assert!(!check_assembly_info(&null), "null export address");
}
