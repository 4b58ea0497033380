use mun_core::abi::{FundKind, MemoryKind, StructInfo, TypeGroup, TypeInfo};
use mun_core::diff::diff;
use mun_core::error::MigrationError;
use mun_core::gc::{GarbageCollector, HeapObject};
use mun_core::guid::Guid;

fn guid(n: u128) -> Guid {
    Guid { value: n }
}

fn fund(g: u128, name: &str, k: FundKind) -> TypeInfo {
    TypeInfo { guid: guid(g), name: name.to_string(), group: TypeGroup::Fundamental(k) }
}

fn f32_ty(g: u128) -> TypeInfo {
    fund(g, "core::f32", FundKind::Float { bits: 32 })
}

#[allow(clippy::too_many_arguments)]
fn strct(
    g: u128,
    name: &str,
    fields: Vec<(&str, usize, u16, u16)>,
    alignment: u16,
    size: u16,
    memory_kind: MemoryKind,
) -> TypeInfo {
    TypeInfo {
        guid: guid(g),
        name: name.to_string(),
        group: TypeGroup::Struct(StructInfo {
            field_names: fields.iter().map(|f| f.0.to_string()).collect(),
            field_types: fields.iter().map(|f| f.1).collect(),
            field_offsets: fields.iter().map(|f| f.2).collect(),
            field_sizes: fields.iter().map(|f| f.3).collect(),
            alignment,
            size,
            memory_kind,
        }),
    }
}

/// v1: Pos { x: f32, y: f32 }.
fn pos_v1() -> Vec<TypeInfo> {
    vec![
        f32_ty(1),
        strct(2, "Pos", vec![("x", 0, 0, 4), ("y", 0, 4, 4)], 4, 8, MemoryKind::Gc),
    ]
}

/// v2: Pos { x: f32, y: f32, z: f32 }.
fn pos_v2() -> Vec<TypeInfo> {
    vec![
        f32_ty(1),
        strct(
            2,
            "Pos",
            vec![("x", 0, 0, 4), ("y", 0, 4, 4), ("z", 0, 8, 4)],
            4,
            12,
            MemoryKind::Gc,
        ),
    ]
}

fn f32_bytes(v: f32) -> Vec<u8> {
    v.to_le_bytes().to_vec()
}

fn handle_bytes(h: Option<usize>) -> Vec<u8> {
    let v: u64 = match h {
        Some(h) => (h as u64) + 1,
        None => 0,
    };
    v.to_le_bytes().to_vec()
}

#[test]
fn additive_migration_preserves_and_zeroes() {
    // S2: allocate one Pos{3.0, 4.0} under v1, swap to v2 where Pos gains
    // z; reading the object yields {3.0, 4.0, 0.0}.
    let mut gc = GarbageCollector::new(pos_v1());
    let h = gc.allocate(1);
    let mut payload = f32_bytes(3.0);
    payload.extend(f32_bytes(4.0));
    gc.objects[h] = Some(HeapObject { type_index: 1, payload });

    let mapping = diff(&gc.types, &pos_v2());
    gc.map_memory(pos_v2(), &mapping).expect("migration succeeds");

    let o = gc.object(h).expect("handle survives");
    assert_eq!(o.payload.len(), 12);
    assert_eq!(f32::from_le_bytes(o.payload[0..4].try_into().unwrap()), 3.0);
    assert_eq!(f32::from_le_bytes(o.payload[4..8].try_into().unwrap()), 4.0);
    assert_eq!(f32::from_le_bytes(o.payload[8..12].try_into().unwrap()), 0.0);
}

#[test]
fn noop_migration_is_byte_identical() {
    // P3: recompiling the same source unchanged and swapping leaves every
    // object's payload bytes identical.
    let mut gc = GarbageCollector::new(pos_v1());
    let h1 = gc.allocate(1);
    let h2 = gc.allocate(1);
    let mut p1 = f32_bytes(1.5);
    p1.extend(f32_bytes(-2.25));
    let mut p2 = f32_bytes(0.0);
    p2.extend(f32_bytes(1.0e10));
    gc.objects[h1] = Some(HeapObject { type_index: 1, payload: p1.clone() });
    gc.objects[h2] = Some(HeapObject { type_index: 1, payload: p2.clone() });

    let mapping = diff(&gc.types, &pos_v1());
    gc.map_memory(pos_v1(), &mapping).expect("noop migration succeeds");

    assert_eq!(gc.object(h1).unwrap().payload, p1);
    assert_eq!(gc.object(h2).unwrap().payload, p2);
    assert_eq!(gc.object(h1).unwrap().type_index, 1);
}

/// Node { next: Node } as a GC reference; the registry's only type.
fn node_v1() -> Vec<TypeInfo> {
    vec![strct(3, "Node", vec![("next", 0, 0, 8)], 8, 8, MemoryKind::Gc)]
}

#[test]
fn identical_swap_keeps_list_and_collect_frees_nothing() {
    // S4: a five-node list survives an identical swap: every handle
    // unchanged, and the next collection frees zero nodes.
    let mut gc = GarbageCollector::new(node_v1());
    let hs: Vec<usize> = (0..5).map(|_| gc.allocate(0)).collect();
    for i in 0..5 {
        let next = if i + 1 < 5 { Some(hs[i + 1]) } else { None };
        gc.objects[hs[i]] = Some(HeapObject { type_index: 0, payload: handle_bytes(next) });
        // Only the head is host-rooted.
        gc.set_root(hs[i], i == 0);
    }

    let mapping = diff(&gc.types, &node_v1());
    gc.map_memory(node_v1(), &mapping).expect("identical swap succeeds");

    // Every handle still refers to its node, with its reference intact.
    for i in 0..5 {
        let o = gc.object(hs[i]).expect("node survives swap");
        let next = if i + 1 < 5 { Some(hs[i + 1]) } else { None };
        assert_eq!(o.payload, handle_bytes(next));
    }

    gc.collect();
    for i in 0..5 {
        assert!(gc.object(hs[i]).is_some(), "collect must free zero nodes");
    }
}

/// Holder v1 { r: Node }; Holder v2 {} (the reference field removed).
fn holder_v1() -> Vec<TypeInfo> {
    vec![
        strct(3, "Node", vec![("next", 0, 0, 8)], 8, 8, MemoryKind::Gc),
        strct(4, "Holder", vec![("r", 0, 0, 8)], 8, 8, MemoryKind::Gc),
    ]
}

fn holder_v2() -> Vec<TypeInfo> {
    vec![
        strct(3, "Node", vec![("next", 0, 0, 8)], 8, 8, MemoryKind::Gc),
        strct(4, "Holder", vec![], 8, 8, MemoryKind::Gc),
    ]
}

#[test]
fn removed_gc_field_releases_reference() {
    // P5: removing a GC field releases the referenced object, which the
    // next collection frees if nothing else refers to it.
    let mut gc = GarbageCollector::new(holder_v1());
    let node = gc.allocate(0);
    let holder = gc.allocate(1);
    gc.objects[node] = Some(HeapObject { type_index: 0, payload: handle_bytes(None) });
    gc.objects[holder] = Some(HeapObject { type_index: 1, payload: handle_bytes(Some(node)) });
    // The host holds only the holder.
    gc.set_root(node, false);

    gc.collect();
    assert!(gc.object(node).is_some(), "still referenced through the field");

    let mapping = diff(&gc.types, &holder_v2());
    gc.map_memory(holder_v2(), &mapping).expect("removal migration succeeds");
    assert!(gc.object(holder).is_some());

    gc.collect();
    assert!(gc.object(node).is_none(), "unreferenced after the field was dropped");
    assert!(gc.object(holder).is_some());
}

#[test]
fn removed_type_invalidates_instances() {
    // An object whose type is removed is invalidated; its handle reports
    // it explicitly dead rather than dangling.
    let mut gc = GarbageCollector::new(holder_v1());
    let node = gc.allocate(0);
    let holder = gc.allocate(1);
    gc.objects[holder] = Some(HeapObject { type_index: 1, payload: handle_bytes(None) });
    // Holder keeps field r but its slot is null; Node's type is removed.
    let only_holder = vec![strct(4, "Holder", vec![], 8, 8, MemoryKind::Gc)];
    let mapping = diff(&gc.types, &only_holder);
    gc.map_memory(only_holder, &mapping).expect("no live reference dangles");
    assert!(gc.object(node).is_none(), "instance of a removed type is invalidated");
    assert!(gc.object(holder).is_some());
}

#[test]
fn dangling_reference_aborts_swap() {
    // A kept reference slot pointing at a live object of a removed type
    // fail-stops the migration; nothing changes.
    let v1 = vec![
        strct(3, "Node", vec![("next", 0, 0, 8)], 8, 8, MemoryKind::Gc),
        strct(9, "Victim", vec![], 8, 8, MemoryKind::Gc),
        strct(4, "Holder", vec![("r", 0, 0, 8)], 8, 8, MemoryKind::Gc),
    ];
    let mut gc = GarbageCollector::new(v1);
    let victim = gc.allocate(1);
    let holder = gc.allocate(2);
    gc.objects[holder] = Some(HeapObject { type_index: 2, payload: handle_bytes(Some(victim)) });
    // v2 retains Node and Holder but removes Victim, at which the stored
    // handle still points.
    let v2 = vec![
        strct(3, "Node", vec![("next", 0, 0, 8)], 8, 8, MemoryKind::Gc),
        strct(4, "Holder", vec![("r", 0, 0, 8)], 8, 8, MemoryKind::Gc),
    ];
    let mapping = diff(&gc.types, &v2);
    match gc.map_memory(v2, &mapping) {
        Err(MigrationError::Dangling) => {},
        _ => panic!("expected the dangling fail-stop"),
    }
    // Nothing was rewritten.
    assert_eq!(gc.object(holder).unwrap().payload, handle_bytes(Some(victim)));
    assert!(gc.object(victim).is_some());
}

#[test]
fn int_conversions_follow_the_rules() {
    // C v1 { v: i8 }; C v2 { v: i16 }: sign-extend on widening.
    let i8_t = fund(10, "core::i8", FundKind::Int { bits: 8, signed: true });
    let i16_t = fund(11, "core::i16", FundKind::Int { bits: 16, signed: true });
    let u8_t = fund(12, "core::u8", FundKind::Int { bits: 8, signed: false });
    let v1 = vec![
        i8_t,
        strct(6, "C", vec![("v", 0, 0, 1)], 1, 1, MemoryKind::Gc),
    ];
    let v2 = vec![
        i16_t,
        strct(6, "C", vec![("v", 0, 0, 2)], 2, 2, MemoryKind::Gc),
    ];
    let mut gc = GarbageCollector::new(v1);
    let h = gc.allocate(1);
    gc.objects[h] = Some(HeapObject { type_index: 1, payload: vec![0x85] });
    let mapping = diff(&gc.types, &v2);
    gc.map_memory(v2, &mapping).expect("conversion succeeds");
    // -123 sign-extended to 16 bits.
    assert_eq!(gc.object(h).unwrap().payload, vec![0x85, 0xFF]);

    // u8 zero-extends instead.
    let v1u = vec![
        u8_t,
        strct(7, "D", vec![("v", 0, 0, 1)], 1, 1, MemoryKind::Gc),
    ];
    let v2u = vec![
        fund(11, "core::i16", FundKind::Int { bits: 16, signed: true }),
        strct(7, "D", vec![("v", 0, 0, 2)], 2, 2, MemoryKind::Gc),
    ];
    let mut gc = GarbageCollector::new(v1u);
    let h = gc.allocate(1);
    gc.objects[h] = Some(HeapObject { type_index: 1, payload: vec![0x85] });
    let mapping = diff(&gc.types, &v2u);
    gc.map_memory(v2u, &mapping).expect("conversion succeeds");
    assert_eq!(gc.object(h).unwrap().payload, vec![0x85, 0x00]);

    // Narrowing truncates: i16 0x1234 -> i8 0x34.
    let v1n = vec![
        fund(11, "core::i16", FundKind::Int { bits: 16, signed: true }),
        strct(8, "E", vec![("v", 0, 0, 2)], 2, 2, MemoryKind::Gc),
    ];
    let v2n = vec![
        fund(10, "core::i8", FundKind::Int { bits: 8, signed: true }),
        strct(8, "E", vec![("v", 0, 0, 1)], 1, 1, MemoryKind::Gc),
    ];
    let mut gc = GarbageCollector::new(v1n);
    let h = gc.allocate(1);
    gc.objects[h] = Some(HeapObject { type_index: 1, payload: vec![0x34, 0x12] });
    let mapping = diff(&gc.types, &v2n);
    gc.map_memory(v2n, &mapping).expect("conversion succeeds");
    assert_eq!(gc.object(h).unwrap().payload, vec![0x34]);
}

#[test]
fn collect_frees_unreachable_cycle() {
    // Cyclic garbage is collected: reference counting could not do this.
    let mut gc = GarbageCollector::new(node_v1());
    let a = gc.allocate(0);
    let b = gc.allocate(0);
    gc.objects[a] = Some(HeapObject { type_index: 0, payload: handle_bytes(Some(b)) });
    gc.objects[b] = Some(HeapObject { type_index: 0, payload: handle_bytes(Some(a)) });
    gc.set_root(a, false);
    gc.set_root(b, false);
    gc.collect();
    assert!(gc.object(a).is_none());
    assert!(gc.object(b).is_none());
}
