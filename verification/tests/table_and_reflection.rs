use mun_core::abi::{
    AssemblyInfo, DispatchSlot, FunctionInfo, FunctionSignature, Symbols,
};
use mun_core::assembly::{Assembly, SwapError};
use mun_core::dispatch::DispatchTable;
use mun_core::error::LinkError;
use mun_core::gc::GarbageCollector;
use mun_core::guid::Guid;
use mun_core::hir::{
    ApplicationTy, FloatBitness, FloatTy, IntBitness, IntTy, Signedness, StructId, Target, Ty,
    TypeCtor,
};
use mun_core::symbols::{FieldInfo, MethodInfo, TypeInfo as ReflectedType};
use mun_core::type_table::{FunctionDef, StructDef, TypeTableBuilder};
use mun_core::Privacy;

fn guid(n: u128) -> Guid {
    Guid { value: n }
}

fn float_ty(bitness: FloatBitness) -> Ty {
    Ty::Apply(ApplicationTy { ctor: TypeCtor::Float(FloatTy { bitness }) })
}

fn int_ty(signedness: Signedness, bitness: IntBitness) -> Ty {
    Ty::Apply(ApplicationTy { ctor: TypeCtor::Int(IntTy { signedness, bitness }) })
}

#[test]
fn type_info_query_names_fundamentals() {
    let target = Target { pointer_width: 64 };
    let sdefs: Vec<StructDef> = Vec::new();
    let t = mun_core::type_table::type_info_query(float_ty(FloatBitness::Undefined), &target, &sdefs);
    assert_eq!(t.name, "core::f64");
    let t = mun_core::type_table::type_info_query(float_ty(FloatBitness::X32), &target, &sdefs);
    assert_eq!(t.name, "core::f32");
    let t = mun_core::type_table::type_info_query(
        int_ty(Signedness::Unsigned, IntBitness::Xsize),
        &target,
        &sdefs,
    );
    assert_eq!(t.name, "core::u64");
    let t = mun_core::type_table::type_info_query(
        int_ty(Signedness::Signed, IntBitness::X8),
        &target,
        &sdefs,
    );
    assert_eq!(t.name, "core::i8");
    let t = mun_core::type_table::type_info_query(
        Ty::Apply(ApplicationTy { ctor: TypeCtor::Bool }),
        &target,
        &sdefs,
    );
    assert_eq!(t.name, "core::bool");
}

#[test]
fn builder_collects_public_signature_types_once() {
    let target = Target { pointer_width: 64 };
    let sdefs = vec![StructDef {
        name: "Pos".to_string(),
        field_names: vec!["x".to_string(), "y".to_string()],
        field_tys: vec![float_ty(FloatBitness::X32), float_ty(FloatBitness::X32)],
    }];
    let mut builder = TypeTableBuilder::new();
    let f = FunctionDef {
        name: "translate".to_string(),
        visibility: Privacy::Public,
        arg_tys: vec![
            Ty::Apply(ApplicationTy { ctor: TypeCtor::Struct(StructId { index: 0 }) }),
            float_ty(FloatBitness::X32),
        ],
        ret_ty: Ty::Apply(ApplicationTy { ctor: TypeCtor::Struct(StructId { index: 0 }) }),
    };
    builder.collect_fn(&f, &target, &sdefs);
    let table = builder.build();
    // Pos, then its field type f32; each once despite repeats.
    assert_eq!(table.num_types(), 2);
    assert_eq!(table.entries[0].name, "Pos");
    assert_eq!(table.entries[1].name, "core::f32");
    let slot = table.get(&mun_core::type_table::TypeInfo {
        name: "core::f32".to_string(),
        group: mun_core::type_table::TypeGroup::FundamentalTypes,
    });
    assert_eq!(slot, Some(1));
}

#[test]
fn collect_struct_closes_over_reachable_types() {
    // Collecting a struct publishes every type transitively reachable
    // through its fields, and doing it again changes nothing.
    let target = Target { pointer_width: 64 };
    let sdefs = vec![
        StructDef {
            name: "Outer".to_string(),
            field_names: vec!["fb".to_string()],
            field_tys: vec![Ty::Apply(ApplicationTy {
                ctor: TypeCtor::Struct(StructId { index: 1 }),
            })],
        },
        StructDef {
            name: "Inner".to_string(),
            field_names: vec!["fc".to_string()],
            field_tys: vec![float_ty(FloatBitness::X32)],
        },
    ];
    let mut builder = TypeTableBuilder::new();
    builder.collect_struct(StructId { index: 0 }, &target, &sdefs);
    let names: Vec<&str> = builder.entries.iter().map(|t| t.name.as_str()).collect();
    assert_eq!(names, vec!["Outer", "Inner", "core::f32"]);
    // Idempotent: a second collection adds nothing.
    builder.collect_struct(StructId { index: 0 }, &target, &sdefs);
    assert_eq!(builder.entries.len(), 3);
}

#[test]
fn collect_struct_handles_cyclic_references() {
    // A self-referential struct terminates and publishes itself once.
    let target = Target { pointer_width: 64 };
    let sdefs = vec![StructDef {
        name: "Node".to_string(),
        field_names: vec!["next".to_string()],
        field_tys: vec![Ty::Apply(ApplicationTy {
            ctor: TypeCtor::Struct(StructId { index: 0 }),
        })],
    }];
    let mut builder = TypeTableBuilder::new();
    builder.collect_struct(StructId { index: 0 }, &target, &sdefs);
    assert_eq!(builder.entries.len(), 1);
    assert_eq!(builder.entries[0].name, "Node");
}

#[test]
fn private_functions_contribute_nothing() {
    let target = Target { pointer_width: 64 };
    let sdefs: Vec<StructDef> = Vec::new();
    let mut builder = TypeTableBuilder::new();
    let f = FunctionDef {
        name: "helper".to_string(),
        visibility: Privacy::Private,
        arg_tys: vec![float_ty(FloatBitness::X64)],
        ret_ty: Ty::Empty,
    };
    builder.collect_fn(&f, &target, &sdefs);
    assert_eq!(builder.build().num_types(), 0);
}

#[test]
fn reflection_lookup_and_identity() {
    let ty = ReflectedType {
        uuid: guid(42),
        name: "Pos".to_string(),
        fields: vec![
            FieldInfo { name: "x".to_string(), type_uuid: guid(1), privacy: Privacy::Public },
            FieldInfo { name: "y".to_string(), type_uuid: guid(1), privacy: Privacy::Public },
        ],
        methods: vec![MethodInfo {
            name: "len2".to_string(),
            arg_type_uuids: vec![],
            return_type_uuid: Some(guid(1)),
            privacy: Privacy::Public,
        }],
    };
    assert_eq!(ty.get_field(&"y".to_string()).unwrap().type_uuid.value, 1);
    assert!(ty.get_field(&"z".to_string()).is_none());
    assert_eq!(ty.get_fields().len(), 2);
    assert_eq!(
        ty.get_method(&"len2".to_string()).unwrap().return_type_uuid.unwrap().value,
        1
    );
    assert!(ty.get_method(&"nope".to_string()).is_none());
    assert_eq!(ty.get_methods().len(), 1);

    let same_from_other_artifact = ReflectedType {
        uuid: guid(42),
        name: "Renamed".to_string(),
        fields: vec![],
        methods: vec![],
    };
    let different = ReflectedType {
        uuid: guid(43),
        name: "Pos".to_string(),
        fields: vec![],
        methods: vec![],
    };
    // Identity is the GUID, never the name.
    assert!(ty.is(&same_from_other_artifact));
    assert!(!ty.is(&different));
}

fn sig(name: &str, args: Vec<u128>, ret: Option<u128>) -> FunctionSignature {
    FunctionSignature {
        name: name.to_string(),
        arg_types: args.into_iter().map(guid).collect(),
        return_type: ret.map(guid),
    }
}

fn func(name: &str, args: Vec<u128>, ret: Option<u128>, ptr: usize) -> FunctionInfo {
    FunctionInfo { signature: sig(name, args, ret), fn_ptr: ptr }
}

fn info(path: &str, functions: Vec<FunctionInfo>, slots: Vec<FunctionSignature>) -> AssemblyInfo {
    AssemblyInfo {
        symbols: Symbols { path: path.to_string(), types: Vec::new(), functions },
        dispatch_table: slots
            .into_iter()
            .map(|signature| DispatchSlot { signature, fn_ptr: 0 })
            .collect(),
    }
}

const I32_GUID: u128 = 7;
const F32_GUID: u128 = 1;

#[test]
fn swap_rejects_signature_change_a_dependent_needs() {
    // S3: v1 defines greet(i32); a second artifact's call slot depends on
    // greet(i32).  v2 changes greet to take f32: the swap fails with a
    // signature mismatch and v1 remains live.
    let mut table = DispatchTable::new();
    let mut gc = GarbageCollector::new(Vec::new());

    let v1 = info("mod_a", vec![func("greet", vec![I32_GUID], None, 100)], vec![]);
    let mut assembly = Assembly::load("a.so".to_string(), v1, &table).expect("v1 loads");
    assembly.link(&mut table);

    let dependent = info("mod_b", Vec::new(), vec![sig("greet", vec![I32_GUID], None)]);
    let mut dep_assembly = Assembly::load("b.so".to_string(), dependent, &table)
        .expect("dependent links against greet(i32)");
    dep_assembly.link(&mut table);
    // The second artifact's unresolved call slot is on record.
    table.register_dependency(&"mod_b".to_string(), sig("greet", vec![I32_GUID], None));

    // The swap would replace greet(i32) with greet(f32); the recorded
    // dependency could no longer be rebound, so the swap is refused.
    let v2 = info("mod_a", vec![func("greet", vec![F32_GUID], None, 200)], vec![]);
    let before_ptr = table.get_fn(&"greet".to_string()).unwrap().fn_ptr;
    match assembly.swap("a2.so".to_string(), v2, &mut table, &mut gc) {
        Err(SwapError::Link(LinkError::SignatureMismatch { name, expected, found })) => {
            assert_eq!(name, "greet");
            assert_eq!(expected.arg_types[0].value, I32_GUID);
            assert_eq!(found.arg_types[0].value, F32_GUID);
        },
        _ => panic!("expected the swap to be refused"),
    }
    // v1 remains live and linked.
    assert_eq!(table.get_fn(&"greet".to_string()).unwrap().fn_ptr, before_ptr);
    assert_eq!(assembly.library_path(), "a.so");
}

#[test]
fn swap_replaces_functions_and_path() {
    let mut table = DispatchTable::new();
    let mut gc = GarbageCollector::new(Vec::new());
    let v1 = info("mod_a", vec![func("tick", vec![], None, 100)], vec![]);
    let mut assembly = Assembly::load("a.so".to_string(), v1, &table).expect("v1 loads");
    assembly.link(&mut table);
    assert_eq!(table.get_fn(&"tick".to_string()).unwrap().fn_ptr, 100);
    // A recorded dependency with an unchanged signature does not block
    // the swap.
    table.register_dependency(&"mod_b".to_string(), sig("tick", vec![], None));

    let v2 = info("mod_a", vec![func("tick", vec![], None, 200)], vec![]);
    assembly.swap("a2.so".to_string(), v2, &mut table, &mut gc).expect("swap succeeds");
    assert_eq!(table.get_fn(&"tick".to_string()).unwrap().fn_ptr, 200);
    assert_eq!(assembly.library_path(), "a2.so");
}
