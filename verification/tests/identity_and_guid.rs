use mun_core::abi::{FundKind, MemoryKind, StructInfo, TypeGroup, TypeInfo};
use mun_core::guid::{parse_guid, Guid};
use mun_core::identity::check_type_identity;

fn guid(n: u128) -> Guid {
    Guid { value: n }
}

fn f32_ty(g: u128) -> TypeInfo {
    TypeInfo {
        guid: guid(g),
        name: "core::f32".to_string(),
        group: TypeGroup::Fundamental(FundKind::Float { bits: 32 }),
    }
}

fn pos(g: u128, fields: Vec<(&str, usize, u16, u16)>, size: u16) -> TypeInfo {
    TypeInfo {
        guid: guid(g),
        name: "Pos".to_string(),
        group: TypeGroup::Struct(StructInfo {
            field_names: fields.iter().map(|f| f.0.to_string()).collect(),
            field_types: fields.iter().map(|f| f.1).collect(),
            field_offsets: fields.iter().map(|f| f.2).collect(),
            field_sizes: fields.iter().map(|f| f.3).collect(),
            alignment: 4,
            size,
            memory_kind: MemoryKind::Gc,
        }),
    }
}

#[test]
fn identical_schemas_are_consistent() {
    // P1: equal GUIDs in two artifacts with equal group, field count,
    // alignment and (field name, field type GUID) lists pass the check.
    let a = vec![f32_ty(1), pos(2, vec![("x", 0, 0, 4), ("y", 0, 4, 4)], 8)];
    let b = vec![f32_ty(1), pos(2, vec![("x", 0, 0, 4), ("y", 0, 4, 4)], 8)];
    assert!(check_type_identity(&a, &b));
}

#[test]
fn same_guid_different_fields_is_inconsistent() {
    let a = vec![f32_ty(1), pos(2, vec![("x", 0, 0, 4), ("y", 0, 4, 4)], 8)];
    let b = vec![f32_ty(1), pos(2, vec![("x", 0, 0, 4), ("z", 0, 4, 4)], 8)];
    assert!(!check_type_identity(&a, &b));
}

#[test]
fn same_guid_different_group_is_inconsistent() {
    // One artifact publishes the GUID as a fundamental, the other as a
    // struct: their semantics cannot agree.
    let a = vec![f32_ty(1)];
    let b = vec![pos(1, vec![], 4)];
    assert!(!check_type_identity(&a, &b));
}

#[test]
fn disjoint_guids_are_trivially_consistent() {
    let a = vec![f32_ty(1)];
    let b = vec![f32_ty(5)];
    assert!(check_type_identity(&a, &b));
}

#[test]
fn parse_guid_accepts_canonical_uuid() {
    let g = parse_guid("fc4bacef-cd0e-4d58-8d4d-19504d58d87f").expect("valid uuid");
    assert_eq!(g.value, 0xfc4bacef_cd0e_4d58_8d4d_19504d58d87f);
    let g = parse_guid("00000000-0000-0000-0000-000000000001").expect("valid uuid");
    assert_eq!(g.value, 1);
}

#[test]
fn parse_guid_rejects_invalid_text() {
    assert!(parse_guid("not-a-uuid").is_none());
    assert!(parse_guid("").is_none());
    assert!(parse_guid("fc4bacef-cd0e-4d58-8d4d-19504d58d87").is_none());
}
