//! Applying a schema diff to the live heap: every live object of a
//! retained type is rewritten, field by field, into the new layout; every
//! object of a removed type is invalidated.  Handles never change, so
//! every reference that survives the swap still points at its object.
//!
//! The rewrite is double-buffered: new payloads are computed from the old
//! heap, and the collector's state is replaced only when the whole
//! migration has succeeded.  On failure nothing is observable.

use vstd::prelude::*;
use crate::abi::{
    type_size, types_view, wf_field, wf_fund_kind, wf_struct_info, wf_type_registry, FundKind,
    StructView, TypeGroup, TypeGroupView, TypeInfo, TypeView,
};
use crate::diff::{
    find_guid, find_guid_in, guid_in, lemma_find_guid, mapping_entry_ok, mapping_ok,
    retained_lookup, spec_field_action, spec_struct_actions, spec_struct_actions_prefix,
    FieldAction, Mapping, StructMapping, StructMappingView,
};
use crate::error::MigrationError;
use crate::gc::{
    le_bytes, objects_view, pow256, read_slot, slot_value, GarbageCollector, HeapObject,
    ObjView,
};

verus! {

/// A sequence of `n` zero bytes.
pub open spec fn zeros(n: int) -> Seq<u8> {
    Seq::new(n as nat, |i: int| 0u8)
}

/// `p` with `bytes` written at `off`.
pub open spec fn write_range(p: Seq<u8>, off: int, bytes: Seq<u8>) -> Seq<u8> {
    Seq::new(
        p.len(),
        |i: int| if off <= i < off + bytes.len() {
            bytes[i - off]
        } else {
            p[i]
        },
    )
}

/// The little-endian bytes of the `n`-byte unsigned value `v`.
pub open spec fn le_of(v: int, n: int) -> Seq<u8> {
    Seq::new(n as nat, |i: int| ((v / pow256(i as nat)) % 256) as u8)
}

/// An integer value converted between widths: sign-extend (signed) or
/// zero-extend (unsigned) on widening, two's-complement truncate on
/// narrowing, reinterpret at equal width.
pub open spec fn int_convert(v: int, old_size: int, new_size: int, signed: bool) -> int {
    let sv = if signed && v >= pow256(old_size as nat) / 2 {
        v - pow256(old_size as nat)
    } else {
        v
    };
    let m = pow256(new_size as nat);
    ((sv % m) + m) % m
}

/// The payload after one instruction, over the old payload.
pub open spec fn action_result(a: FieldAction, oldp: Seq<u8>, p: Seq<u8>) -> Seq<u8> {
    match a {
        FieldAction::CopyBytes { old_offset, new_offset, size } => write_range(
            p,
            new_offset as int,
            oldp.subrange(old_offset as int, old_offset + size),
        ),
        FieldAction::CopyHandle { old_offset, new_offset } => write_range(
            p,
            new_offset as int,
            oldp.subrange(old_offset as int, old_offset + 8),
        ),
        FieldAction::ConvertInt { old_offset, old_size, new_offset, new_size, signed } => write_range(
            p,
            new_offset as int,
            le_of(
                int_convert(
                    le_bytes(oldp, old_offset as int, old_size as nat),
                    old_size as int,
                    new_size as int,
                    signed,
                ),
                new_size as int,
            ),
        ),
        FieldAction::Zero { new_offset, size } => write_range(
            p,
            new_offset as int,
            zeros(size as int),
        ),
    }
}

/// The new payload an instruction list computes from an old payload:
/// zero-initialized, then written instruction by instruction.
pub open spec fn apply_actions(actions: Seq<FieldAction>, oldp: Seq<u8>, size: int) -> Seq<u8>
    decreases actions.len(),
{
    if actions.len() == 0 {
        zeros(size)
    } else {
        action_result(actions.last(), oldp, apply_actions(actions.drop_last(), oldp, size))
    }
}

/// An instruction reads within the old window and writes within the new
/// window; an integer conversion moves between one and eight bytes.
pub open spec fn action_in_windows(
    a: FieldAction,
    old_lo: int,
    old_hi: int,
    new_lo: int,
    new_hi: int,
) -> bool {
    match a {
        FieldAction::CopyBytes { old_offset, new_offset, size } => old_lo <= old_offset
            && old_offset + size <= old_hi && new_lo <= new_offset && new_offset + size
            <= new_hi,
        FieldAction::CopyHandle { old_offset, new_offset } => old_lo <= old_offset
            && old_offset + 8 <= old_hi && new_lo <= new_offset && new_offset + 8 <= new_hi,
        FieldAction::ConvertInt { old_offset, old_size, new_offset, new_size, .. } => old_lo
            <= old_offset && old_offset + old_size <= old_hi && new_lo <= new_offset
            && new_offset + new_size <= new_hi && 1 <= old_size <= 8 && 1 <= new_size <= 8,
        FieldAction::Zero { new_offset, size } => new_lo <= new_offset && new_offset + size
            <= new_hi,
    }
}

/// What one object becomes under the migration: a retained type's
/// instance is rewritten into the new layout at the new type index, a
/// removed type's instance is invalidated, a fundamental's instance is
/// retargeted unchanged.
pub open spec fn migrate_object(
    tvo: Seq<TypeView>,
    tvn: Seq<TypeView>,
    obj: Option<ObjView>,
) -> Option<ObjView> {
    match obj {
        None => None,
        Some(o) => if !(o.type_index < tvo.len()) {
            None
        } else {
            let g = tvo[o.type_index as int].guid;
            let ni = find_guid(tvn, g);
            match tvo[o.type_index as int].group {
                TypeGroupView::Fundamental(_) => if ni < tvn.len() && type_size(tvn[ni])
                    == o.payload.len() {
                    Some(ObjView { type_index: ni as usize, payload: o.payload })
                } else {
                    None
                },
                TypeGroupView::Struct(_) => if ni < tvn.len() {
                    Some(
                        ObjView {
                            type_index: ni as usize,
                            payload: apply_actions(
                                spec_struct_actions(tvo, o.type_index as int, tvn, ni, 0, 0),
                                o.payload,
                                type_size(tvn[ni]),
                            ),
                        },
                    )
                } else {
                    None
                },
            }
        },
    }
}

/// A reference slot the migration would carry over points at a live
/// object whose type is removed.
pub open spec fn action_dangles(
    a: FieldAction,
    oldp: Seq<u8>,
    tvo: Seq<TypeView>,
    tvn: Seq<TypeView>,
    objects: Seq<Option<ObjView>>,
) -> bool {
    match a {
        FieldAction::CopyHandle { old_offset, .. } => {
            let v = slot_value(oldp, old_offset as int);
            &&& v != 0
            &&& 0 <= v - 1 < objects.len()
            &&& objects[v - 1] is Some
            &&& {
                let t = objects[v - 1]->Some_0.type_index as int;
                &&& t < tvo.len()
                &&& tvo[t].group is Struct
                &&& !guid_in(tvn, tvo[t].guid)
            }
        },
        _ => false,
    }
}

/// The instruction list migrating an object of a retained struct type.
pub open spec fn object_actions(tvo: Seq<TypeView>, tvn: Seq<TypeView>, o: ObjView) -> Seq<
    FieldAction,
> {
    spec_struct_actions(
        tvo,
        o.type_index as int,
        tvn,
        find_guid(tvn, tvo[o.type_index as int].guid),
        0,
        0,
    )
}

/// The live object at `h` is of a retained struct type and holds, in a
/// kept reference slot, a handle to a live object of a removed type.
pub open spec fn object_has_dangling(
    tvo: Seq<TypeView>,
    tvn: Seq<TypeView>,
    objects: Seq<Option<ObjView>>,
    h: int,
) -> bool {
    &&& 0 <= h < objects.len()
    &&& objects[h] is Some
    &&& objects[h]->Some_0.type_index < tvo.len()
    &&& tvo[objects[h]->Some_0.type_index as int].group is Struct
    &&& guid_in(tvn, tvo[objects[h]->Some_0.type_index as int].guid)
    &&& exists|k: int|
        0 <= k < object_actions(tvo, tvn, objects[h]->Some_0).len() && action_dangles(
            #[trigger] object_actions(tvo, tvn, objects[h]->Some_0)[k],
            objects[h]->Some_0.payload,
            tvo,
            tvn,
            objects,
        )
}

/// Some live object of a retained struct type holds, in a kept reference
/// slot, a handle to a live object of a removed type.
pub open spec fn heap_has_dangling(
    tvo: Seq<TypeView>,
    tvn: Seq<TypeView>,
    objects: Seq<Option<ObjView>>,
) -> bool {
    exists|h: int| #[trigger] object_has_dangling(tvo, tvn, objects, h)
}

/// `256^n`, executably, for `n` at most seven.
fn pow256_u64(n: usize) -> (r: u64)
    requires
        n <= 7,
    ensures
        r as int == pow256(n as nat),
{
    proof {
        crate::gc::lemma_pow256_values();
    }
    match n {
        0 => 1,
        1 => 256,
        2 => 65536,
        3 => 16777216,
        4 => 4294967296,
        5 => 1099511627776,
        6 => 281474976710656,
        _ => 72057594037927936,
    }
}

/// Reads the `size`-byte little-endian unsigned value at `off`.
fn read_le(payload: &Vec<u8>, off: usize, size: usize) -> (r: u64)
    requires
        off + size <= payload@.len(),
        size <= 8,
    ensures
        r as int == le_bytes(payload@, off as int, size as nat),
        (r as int) < pow256(size as nat),
{
    let plen = payload.len();
    let mut r: u64 = 0;
    let mut k: usize = 0;
    proof {
        crate::gc::lemma_le_bytes_bound(payload@, off as int, size as nat);
        crate::gc::lemma_pow256_values();
    }
    while k < size
        invariant
            plen == payload@.len(),
            off + size <= plen,
            size <= 8,
            0 <= k <= size,
            r as int == le_bytes(payload@, off + size - k, k as nat),
            (r as int) < pow256(k as nat),
            pow256(8) == 0x1_0000_0000_0000_0000,
            pow256(7) == 0x100_0000_0000_0000,
            pow256(6) == 256 * pow256(5),
            pow256(5) == 256 * pow256(4),
            pow256(4) == 256 * pow256(3),
            pow256(3) == 256 * pow256(2),
            pow256(2) == 256 * pow256(1),
            pow256(1) == 256 * pow256(0),
            pow256(0) == 1,
        decreases size - k,
    {
        proof {
            lemma_pow256_mono_small(k as nat, 7);
        }
        r = r * 256 + payload[off + (size - 1 - k)] as u64;
        k = k + 1;
    }
    r
}

/// `256^a` at most `256^b` for `a` at most `b`.
proof fn lemma_pow256_mono_small(a: nat, b: nat)
    requires
        a <= b,
    ensures
        pow256(a) <= pow256(b),
        pow256(a) >= 1,
    decreases b,
{
    if b > 0 {
        if a == b {
            lemma_pow256_mono_small((a - 1) as nat, (b - 1) as nat);
        } else {
            lemma_pow256_mono_small(a, (b - 1) as nat);
        }
    }
}

/// `256^(a+b) == 256^a * 256^b`.
proof fn lemma_pow256_add(a: nat, b: nat)
    ensures
        pow256(a + b) == pow256(a) * pow256(b),
    decreases a,
{
    if a == 0 {
    } else {
        lemma_pow256_add((a - 1) as nat, b);
        assert(pow256(a + b) == 256 * pow256((a - 1 + b) as nat));
        assert(256 * (pow256((a - 1) as nat) * pow256(b)) == (256 * pow256((a - 1) as nat))
            * pow256(b)) by (nonlinear_arith);
    }
}

/// Writes the `size`-byte little-endian form of `v` at `off`.
fn write_le(payload: &mut Vec<u8>, off: usize, size: usize, v: u64)
    requires
        off + size <= old(payload)@.len(),
        size <= 8,
        (v as int) < pow256(size as nat),
    ensures
        final(payload)@ == write_range(old(payload)@, off as int, le_of(v as int, size as int)),
{
    let plen = payload.len();
    let mut k: usize = 0;
    while k < size
        invariant
            plen == payload@.len(),
            off + size <= plen,
            size <= 8,
            0 <= k <= size,
            payload@ == write_range(
                old(payload)@,
                off as int,
                le_of(v as int, size as int).take(k as int),
            ),
        decreases size - k,
    {
        let p256 = pow256_u64(k);
        proof {
            lemma_pow256_mono_small(0, k as nat);
        }
        let b = ((v / p256) % 256) as u8;
        let ghost before = payload@;
        payload[off + k] = b;
        proof {
            assert(le_of(v as int, size as int)[k as int] == b);
            assert(payload@ =~= write_range(
                old(payload)@,
                off as int,
                le_of(v as int, size as int).take(k + 1),
            ));
        }
        k = k + 1;
    }
    proof {
        assert(le_of(v as int, size as int).take(size as int) =~= le_of(
            v as int,
            size as int,
        ));
    }
}


/// Converts an integer value between widths, as the migration rules say.
fn convert_int(v: u64, old_size: usize, target_size: usize, signed: bool) -> (r: u64)
    requires
        1 <= old_size <= 8,
        1 <= target_size <= 8,
        (v as int) < pow256(old_size as nat),
    ensures
        r as int == int_convert(v as int, old_size as int, target_size as int, signed),
        (r as int) < pow256(target_size as nat),
{
    let ghost po = pow256(old_size as nat);
    let ghost m = pow256(target_size as nat);
    proof {
        lemma_pow256_mono_small(0, old_size as nat);
        lemma_pow256_mono_small(0, target_size as nat);
    }
    proof {
        lemma_pow256_mono_small((old_size - 1) as nat, 7);
        crate::gc::lemma_pow256_values();
    }
    let half: u64 = 128 * pow256_u64(old_size - 1);
    proof {
        assert(pow256(old_size as nat) == 256 * pow256((old_size - 1) as nat));
        assert(half as int == po / 2);
    }
    let negative = signed && v >= half;
    if target_size >= old_size {
        proof {
            lemma_pow256_mono_small(old_size as nat, target_size as nat);
        }
        if negative {
            let r: u64 = if target_size == 8 {
                if old_size == 8 {
                    v
                } else {
                    v + ((u64::MAX - pow256_u64(old_size)) + 1)
                }
            } else {
                v + (pow256_u64(target_size) - pow256_u64(old_size))
            };
            proof {
                let sv = v as int - po;
                assert(r as int == v + m - po) by {
                    if target_size == 8 {
                        crate::gc::lemma_pow256_values();
                    }
                }
                assert(0 <= sv + m < m);
                assert(sv % m == sv + m) by {
                    vstd::arithmetic::div_mod::lemma_mod_multiples_vanish(-1, sv + m, m);
                    vstd::arithmetic::div_mod::lemma_small_mod((sv + m) as nat, m as nat);
                }
                assert(((sv % m) + m) % m == sv + m) by {
                    vstd::arithmetic::div_mod::lemma_mod_multiples_vanish(1, sv + m, m);
                    vstd::arithmetic::div_mod::lemma_small_mod((sv + m) as nat, m as nat);
                }
            }
            r
        } else {
            proof {
                assert(((v as int % m) + m) % m == v as int) by {
                    vstd::arithmetic::div_mod::lemma_small_mod(v as nat, m as nat);
                    vstd::arithmetic::div_mod::lemma_mod_multiples_vanish(1, v as int, m);
                    vstd::arithmetic::div_mod::lemma_small_mod(v as nat, m as nat);
                }
            }
            v
        }
    } else {
        let md = pow256_u64(target_size);
        let r = v % md;
        proof {
            let sv = if signed && v as int >= po / 2 {
                v as int - po
            } else {
                v as int
            };
            assert(po == m * pow256((old_size - target_size) as nat)) by {
                lemma_pow256_add(target_size as nat, (old_size - target_size) as nat);
                assert(pow256(target_size as nat) * pow256((old_size - target_size) as nat)
                    == pow256((old_size) as nat));
            }
            assert(sv % m == v as int % m) by {
                if signed && v as int >= po / 2 {
                    let q = pow256((old_size - target_size) as nat);
                    assert(sv == m * (-q) + v) by (nonlinear_arith)
                        requires
                            sv == v - po,
                            po == m * q,
                    ;
                    vstd::arithmetic::div_mod::lemma_mod_multiples_vanish(-q, v as int, m);
                }
            }
            assert(0 <= v as int % m < m) by {
                vstd::arithmetic::div_mod::lemma_mod_bound(v as int, m);
            }
            assert(((sv % m) + m) % m == v as int % m) by {
                vstd::arithmetic::div_mod::lemma_mod_multiples_vanish(1, v as int % m, m);
                vstd::arithmetic::div_mod::lemma_small_mod((v as int % m) as nat, m as nat);
            }
        }
        r
    }
}

/// Builds the new payload an instruction list computes from an old one.
fn apply_to_payload(actions: &Vec<FieldAction>, oldp: &Vec<u8>, target_size: u16) -> (r: Vec<u8>)
    requires
        forall|k: int| 0 <= k < actions@.len() ==> action_in_windows(
            #[trigger] actions@[k],
            0,
            oldp@.len() as int,
            0,
            target_size as int,
        ),
    ensures
        r@ == apply_actions(actions@, oldp@, target_size as int),
        r@.len() == target_size,
{
    let mut p: Vec<u8> = vec![0u8; target_size as usize];
    proof {
        assert(p@ =~= zeros(target_size as int));
        assert(actions@.take(0) =~= Seq::<FieldAction>::empty());
    }
    let n = actions.len();
    let mut i: usize = 0;
    while i < n
        invariant
            n == actions@.len(),
            0 <= i <= n,
            forall|k: int| 0 <= k < actions@.len() ==> action_in_windows(
                #[trigger] actions@[k],
                0,
                oldp@.len() as int,
                0,
                target_size as int,
            ),
            p@.len() == target_size,
            p@ == apply_actions(actions@.take(i as int), oldp@, target_size as int),
        decreases n - i,
    {
        let a = actions[i];
        let ghost p0 = p@;
        match a {
            FieldAction::CopyBytes { old_offset, new_offset, size } => {
                let mut b: usize = 0;
                while b < size as usize
                    invariant
                        old_offset + size <= oldp@.len(),
                        new_offset + size <= p@.len(),
                        p@.len() == p0.len(),
                        0 <= b <= size,
                        p@ == write_range(
                            p0,
                            new_offset as int,
                            oldp@.subrange(old_offset as int, old_offset + b),
                        ),
                    decreases size - b,
                {
                    p[new_offset as usize + b] = oldp[old_offset as usize + b];
                    proof {
                        assert(p@ =~= write_range(
                            p0,
                            new_offset as int,
                            oldp@.subrange(old_offset as int, old_offset + b + 1),
                        ));
                    }
                    b = b + 1;
                }
            },
            FieldAction::CopyHandle { old_offset, new_offset } => {
                let mut b: usize = 0;
                while b < 8
                    invariant
                        old_offset + 8 <= oldp@.len(),
                        new_offset + 8 <= p@.len(),
                        p@.len() == p0.len(),
                        0 <= b <= 8,
                        p@ == write_range(
                            p0,
                            new_offset as int,
                            oldp@.subrange(old_offset as int, old_offset + b),
                        ),
                    decreases 8 - b,
                {
                    p[new_offset as usize + b] = oldp[old_offset as usize + b];
                    proof {
                        assert(p@ =~= write_range(
                            p0,
                            new_offset as int,
                            oldp@.subrange(old_offset as int, old_offset + b + 1),
                        ));
                    }
                    b = b + 1;
                }
            },
            FieldAction::ConvertInt { old_offset, old_size, new_offset, new_size, signed } => {
                let v = read_le(oldp, old_offset as usize, old_size as usize);
                let c = convert_int(v, old_size as usize, new_size as usize, signed);
                write_le(&mut p, new_offset as usize, new_size as usize, c);
            },
            FieldAction::Zero { new_offset, size } => {
                let mut b: usize = 0;
                while b < size as usize
                    invariant
                        new_offset + size <= p@.len(),
                        p@.len() == p0.len(),
                        0 <= b <= size,
                        p@ == write_range(p0, new_offset as int, zeros(size as int).take(b as int)),
                    decreases size - b,
                {
                    p[new_offset as usize + b] = 0;
                    proof {
                        assert(p@ =~= write_range(
                            p0,
                            new_offset as int,
                            zeros(size as int).take(b + 1),
                        ));
                    }
                    b = b + 1;
                }
                proof {
                    assert(zeros(size as int).take(size as int) =~= zeros(size as int));
                }
            },
        }
        proof {
            assert(actions@.take(i + 1).drop_last() =~= actions@.take(i as int));
            assert(actions@.take(i + 1).last() == actions@[i as int]);
            assert(p@ =~= action_result(actions@[i as int], oldp@, p0));
        }
        i = i + 1;
    }
    proof {
        assert(actions@.take(n as int) =~= actions@);
    }
    p
}


/// Every instruction of one field's mapping stays within the two structs'
/// windows.
proof fn lemma_field_action_windows(
    tvo: Seq<TypeView>,
    osi: StructView,
    oi: int,
    tvn: Seq<TypeView>,
    nsi: StructView,
    ni: int,
    k: int,
    bo: int,
    bn: int,
)
    requires
        wf_type_registry(tvo),
        wf_type_registry(tvn),
        0 <= oi < tvo.len(),
        0 <= ni < tvn.len(),
        tvo[oi].group == TypeGroupView::Struct(osi),
        tvn[ni].group == TypeGroupView::Struct(nsi),
        0 <= k < nsi.field_names.len(),
        0 <= bo,
        0 <= bn,
        bo + osi.size <= u16::MAX,
        bn + nsi.size <= u16::MAX,
    ensures
        forall|q: int| 0 <= q < spec_field_action(tvo, osi, oi, tvn, nsi, k, bo, bn).len()
            ==> action_in_windows(
            #[trigger] spec_field_action(tvo, osi, oi, tvn, nsi, k, bo, bn)[q],
            bo,
            bo + osi.size,
            bn,
            bn + nsi.size,
        ),
    decreases oi, 0int, 0int,
{
    assert(wf_struct_info(nsi, tvn, ni));
    assert(wf_struct_info(osi, tvo, oi));
    assert(wf_field(nsi, tvn, ni, k));
    assert(nsi.field_offsets[k] + nsi.field_sizes[k] <= nsi.size);
    let acts = spec_field_action(tvo, osi, oi, tvn, nsi, k, bo, bn);
    let name = nsi.field_names[k];
    let j = crate::diff::find_field(osi, name, osi.field_names.len() as int);
    crate::diff::lemma_find_field(osi, name, osi.field_names.len() as int);
    if j < osi.field_names.len() {
        assert(wf_field(osi, tvo, oi, j));
        assert(osi.field_offsets[j] + osi.field_sizes[j] <= osi.size);
        let oft = osi.field_types[j] as int;
        let nft = nsi.field_types[k] as int;
        if 0 <= oft < tvo.len() && 0 <= nft < tvn.len() {
            let ot = tvo[oft];
            let nt = tvn[nft];
            if ot.guid == nt.guid {
                match (ot.group, nt.group) {
                    (TypeGroupView::Fundamental(ko), TypeGroupView::Fundamental(kn)) => {},
                    (TypeGroupView::Struct(ofsi), TypeGroupView::Struct(nfsi)) => {
                        if ofsi.memory_kind is Gc && nfsi.memory_kind is Gc {
                            assert(osi.field_sizes[j] == 8);
                            assert(nsi.field_sizes[k] == 8);
                        } else if ofsi.memory_kind is Value && nfsi.memory_kind is Value
                            && 0 <= oft < oi {
                            assert(osi.field_sizes[j] == ofsi.size);
                            assert(nsi.field_sizes[k] == nfsi.size);
                            assert(0 <= bo + osi.field_offsets[j] <= u16::MAX);
                            assert(0 <= bn + nsi.field_offsets[k] <= u16::MAX);
                            let bo2 = ((bo + osi.field_offsets[j]) as u16) as int;
                            let bn2 = ((bn + nsi.field_offsets[k]) as u16) as int;
                            assert(bo2 == bo + osi.field_offsets[j]);
                            assert(bn2 == bn + nsi.field_offsets[k]);
                            lemma_struct_actions_windows(tvo, oft, tvn, nft, bo2, bn2);
                            assert forall|q: int| 0 <= q < acts.len() implies action_in_windows(
                                #[trigger] acts[q],
                                bo,
                                bo + osi.size,
                                bn,
                                bn + nsi.size,
                            ) by {
                                assert(acts[q] == spec_struct_actions(
                                    tvo,
                                    oft,
                                    tvn,
                                    nft,
                                    bo2,
                                    bn2,
                                )[q]);
                                assert(action_in_windows(
                                    acts[q],
                                    bo2,
                                    bo2 + type_size(tvo[oft]),
                                    bn2,
                                    bn2 + type_size(tvn[nft]),
                                ));
                            }
                        }
                    },
                    _ => {},
                }
            } else {
                match (ot.group, nt.group) {
                    (
                        TypeGroupView::Fundamental(FundKind::Int { signed: so, bits: bo2 }),
                        TypeGroupView::Fundamental(FundKind::Int { signed: sn, bits: bn2 }),
                    ) => {
                        assert(wf_fund_kind(FundKind::Int { signed: so, bits: bo2 }));
                        assert(wf_fund_kind(FundKind::Int { signed: sn, bits: bn2 }));
                    },
                    _ => {},
                }
            }
        }
    }
}

/// Every instruction of the first `k` fields' mappings stays within the
/// two structs' windows.
proof fn lemma_struct_actions_prefix_windows(
    tvo: Seq<TypeView>,
    oi: int,
    tvn: Seq<TypeView>,
    ni: int,
    k: int,
    bo: int,
    bn: int,
)
    requires
        wf_type_registry(tvo),
        wf_type_registry(tvn),
        0 <= oi < tvo.len(),
        0 <= ni < tvn.len(),
        tvo[oi].group is Struct,
        tvn[ni].group is Struct,
        0 <= bo,
        0 <= bn,
        bo + tvo[oi].group->Struct_0.size <= u16::MAX,
        bn + tvn[ni].group->Struct_0.size <= u16::MAX,
    ensures
        forall|q: int| 0 <= q < spec_struct_actions_prefix(tvo, oi, tvn, ni, k, bo, bn).len()
            ==> action_in_windows(
            #[trigger] spec_struct_actions_prefix(tvo, oi, tvn, ni, k, bo, bn)[q],
            bo,
            bo + tvo[oi].group->Struct_0.size,
            bn,
            bn + tvn[ni].group->Struct_0.size,
        ),
    decreases oi, 1int, k,
{
    let osi = tvo[oi].group->Struct_0;
    let nsi = tvn[ni].group->Struct_0;
    let whole = spec_struct_actions_prefix(tvo, oi, tvn, ni, k, bo, bn);
    if k <= 0 || k > nsi.field_names.len() {
    } else {
        lemma_struct_actions_prefix_windows(tvo, oi, tvn, ni, k - 1, bo, bn);
        lemma_field_action_windows(tvo, osi, oi, tvn, nsi, ni, k - 1, bo, bn);
        let rest = spec_struct_actions_prefix(tvo, oi, tvn, ni, k - 1, bo, bn);
        let step = spec_field_action(tvo, osi, oi, tvn, nsi, k - 1, bo, bn);
        assert forall|q: int| 0 <= q < whole.len() implies action_in_windows(
            #[trigger] whole[q],
            bo,
            bo + osi.size,
            bn,
            bn + nsi.size,
        ) by {
            if q < rest.len() {
                assert(whole[q] == rest[q]);
            } else {
                assert(whole[q] == step[q - rest.len()]);
            }
        }
    }
}

/// Every instruction of a retained struct's mapping stays within the two
/// structs' windows.
pub proof fn lemma_struct_actions_windows(
    tvo: Seq<TypeView>,
    oi: int,
    tvn: Seq<TypeView>,
    ni: int,
    bo: int,
    bn: int,
)
    requires
        wf_type_registry(tvo),
        wf_type_registry(tvn),
        0 <= oi < tvo.len(),
        0 <= ni < tvn.len(),
        tvo[oi].group is Struct,
        0 <= bo,
        0 <= bn,
        bo + type_size(tvo[oi]) <= u16::MAX,
        bn + type_size(tvn[ni]) <= u16::MAX,
    ensures
        forall|q: int| 0 <= q < spec_struct_actions(tvo, oi, tvn, ni, bo, bn).len()
            ==> action_in_windows(
            #[trigger] spec_struct_actions(tvo, oi, tvn, ni, bo, bn)[q],
            bo,
            bo + type_size(tvo[oi]),
            bn,
            bn + type_size(tvn[ni]),
        ),
    decreases oi, 2int, 0int,
{
    match tvn[ni].group {
        TypeGroupView::Struct(nsi) => {
            lemma_struct_actions_prefix_windows(
                tvo,
                oi,
                tvn,
                ni,
                nsi.field_names.len() as int,
                bo,
                bn,
            );
            assert(spec_struct_actions(tvo, oi, tvn, ni, bo, bn)
                == spec_struct_actions_prefix(
                tvo,
                oi,
                tvn,
                ni,
                nsi.field_names.len() as int,
                bo,
                bn,
            ));
        },
        TypeGroupView::Fundamental(_) => {},
    }
}

/// Lookup ignores a prefix of mappings for other old indices.
proof fn lemma_retained_skip(s: Seq<StructMappingView>, oi: int, k: int)
    requires
        0 <= k <= s.len(),
        forall|j: int| 0 <= j < k ==> (#[trigger] s[j].old_index) != oi,
    ensures
        retained_lookup(s, oi) == retained_lookup(s.skip(k), oi),
    decreases k,
{
    if k > 0 {
        assert(s.drop_first().skip(k - 1) =~= s.skip(k));
        lemma_retained_skip(s.drop_first(), oi, k - 1);
    } else {
        assert(s.skip(0) =~= s);
    }
}

/// Finds the mapping of the retained struct at old index `oi`, if any.
fn retained_find<'a>(retained: &'a Vec<StructMapping>, oi: usize) -> (r: Option<
    &'a StructMapping,
>)
    ensures
        match r {
            Some(sm) => retained_lookup(
                crate::diff::retained_views(retained@),
                oi as int,
            ) == Some(sm@),
            None => retained_lookup(crate::diff::retained_views(retained@), oi as int)
                is None,
        },
{
    let ghost rv = crate::diff::retained_views(retained@);
    let n = retained.len();
    let mut i: usize = 0;
    while i < n
        invariant
            rv == crate::diff::retained_views(retained@),
            n == rv.len(),
            0 <= i <= n,
            forall|j: int| 0 <= j < i ==> (#[trigger] rv[j].old_index) != oi,
        decreases n - i,
    {
        proof {
            assert(rv[i as int] == retained@[i as int]@);
        }
        if retained[i].old_index == oi {
            proof {
                lemma_retained_skip(rv, oi as int, i as int);
                assert(rv.skip(i as int)[0] == rv[i as int]);
            }
            return Some(&retained[i]);
        }
        i = i + 1;
    }
    proof {
        lemma_retained_skip(rv, oi as int, n as int);
    }
    None
}


/// An instruction list always yields a payload of the requested size.
pub proof fn lemma_apply_len(actions: Seq<FieldAction>, oldp: Seq<u8>, size: int)
    requires
        size >= 0,
    ensures
        apply_actions(actions, oldp, size).len() == size,
    decreases actions.len(),
{
    if actions.len() > 0 {
        lemma_apply_len(actions.drop_last(), oldp, size);
    }
}

/// A byte-for-byte copy of a payload.
fn copy_payload(p: &Vec<u8>) -> (r: Vec<u8>)
    ensures
        r@ == p@,
{
    let mut r: Vec<u8> = Vec::new();
    let n = p.len();
    let mut i: usize = 0;
    while i < n
        invariant
            n == p@.len(),
            0 <= i <= n,
            r@ == p@.take(i as int),
        decreases n - i,
    {
        r.push(p[i]);
        proof {
            assert(p@.take(i as int).push(p@[i as int]) =~= p@.take(i + 1));
        }
        i = i + 1;
    }
    proof {
        assert(p@.take(n as int) =~= p@);
    }
    r
}

impl GarbageCollector {
    /// Rewrites every live object for the new type registry: instances of
    /// retained struct types are migrated field by field into their new
    /// layout, instances of removed types are invalidated, and instances
    /// of fundamental types are retargeted unchanged.  Handles never
    /// change.  Where a kept reference slot points at a live object of a
    /// removed type, nothing is changed and the migration fails.
    #[verifier::rlimit(100)]
    pub fn map_memory(&mut self, new_types: Vec<TypeInfo>, mapping: &Mapping) -> (r: Result<
        (),
        MigrationError,
    >)
        requires
            old(self).wf(),
            wf_type_registry(types_view(new_types@)),
            mapping_ok(mapping@, old(self).types_v(), types_view(new_types@)),
        ensures
            r is Ok <==> !heap_has_dangling(
                old(self).types_v(),
                types_view(new_types@),
                old(self).objects_v(),
            ),
            match r {
                Ok(_) => {
                    &&& final(self).wf()
                    &&& final(self).types_v() == types_view(new_types@)
                    &&& final(self).roots@ == old(self).roots@
                    &&& final(self).objects_v().len() == old(self).objects_v().len()
                    &&& forall|h: int| 0 <= h < old(self).objects_v().len()
                        ==> final(self).objects_v()[h] == migrate_object(
                        old(self).types_v(),
                        types_view(new_types@),
                        #[trigger] old(self).objects_v()[h],
                    )
                },
                Err(e) => {
                    &&& *final(self) == *old(self)
                    &&& e == MigrationError::Dangling
                },
            },
    {
        let ghost tvo = self.types_v();
        let ghost tvn = types_view(new_types@);
        let ghost objs = self.objects_v();
        let n = self.objects.len();
        let nt_len = new_types.len();
        proof {
            assert(tvn.len() == nt_len as int);
        }
        let mut new_objects: Vec<Option<HeapObject>> = Vec::new();
        let mut h: usize = 0;
        while h < n
            invariant
                *self == *old(self),
                old(self).wf(),
                wf_type_registry(tvn),
                tvn.len() == nt_len as int,
                mapping_ok(mapping@, tvo, tvn),
                tvo == self.types_v(),
                tvn == types_view(new_types@),
                objs == self.objects_v(),
                n == objs.len(),
                n == self.objects@.len(),
                0 <= h <= n,
                new_objects@.len() == h,
                forall|j: int| 0 <= j < h ==> objects_view(new_objects@)[j] == migrate_object(
                    tvo,
                    tvn,
                    #[trigger] objs[j],
                ),
                forall|j: int| 0 <= j < h ==> !object_has_dangling(tvo, tvn, objs, j),
            decreases n - h,
        {
            proof {
                assert(objs[h as int] == (match self.objects@[h as int] {
                    Some(ob) => Some(ob@),
                    None => None::<ObjView>,
                }));
            }
            let ghost before = new_objects@;
            match &self.objects[h] {
                None => {
                    new_objects.push(None);
                    proof {
                        assert(objects_view(new_objects@) =~= objects_view(before).push(
                            None::<ObjView>,
                        ));
                    }
                },
                Some(o) => {
                    let ti = o.type_index;
                    proof {
                        assert(ti < tvo.len());
                        assert(o@.payload.len() == type_size(tvo[ti as int]));
                        assert(tvo[ti as int] == self.types@[ti as int]@);
                        assert(mapping_entry_ok(mapping@, tvo, tvn, ti as int));
                        lemma_find_guid(tvn, tvo[ti as int].guid);
                    }
                    match &self.types[ti].group {
                        TypeGroup::Fundamental(_) => {
                            let g = self.types[ti].guid;
                            let ni = find_guid_in(&new_types, &g);
                            if ni < new_types.len() {
                                proof {
                                    assert(tvn[ni as int] == new_types@[ni as int]@);
                                }
                                let sz = new_types[ni].size_in_bytes();
                                if sz as usize == o.payload.len() {
                                    let np = copy_payload(&o.payload);
                                    new_objects.push(
                                        Some(HeapObject { type_index: ni, payload: np }),
                                    );
                                    proof {
                                        assert(objects_view(new_objects@) =~= objects_view(
                                            before,
                                        ).push(
                                            Some(
                                                ObjView {
                                                    type_index: ni,
                                                    payload: o@.payload,
                                                },
                                            ),
                                        ));
                                    }
                                } else {
                                    new_objects.push(None);
                                    proof {
                                        assert(objects_view(new_objects@) =~= objects_view(
                                            before,
                                        ).push(None::<ObjView>));
                                    }
                                }
                            } else {
                                new_objects.push(None);
                                proof {
                                    assert(objects_view(new_objects@) =~= objects_view(
                                        before,
                                    ).push(None::<ObjView>));
                                }
                            }
                        },
                        TypeGroup::Struct(_) => {
                            match retained_find(&mapping.retained, ti) {
                                None => {
                                    proof {
                                        assert(!guid_in(tvn, tvo[ti as int].guid));
                                    }
                                    new_objects.push(None);
                                    proof {
                                        assert(objects_view(new_objects@) =~= objects_view(
                                            before,
                                        ).push(None::<ObjView>));
                                    }
                                },
                                Some(sm) => {
                                    let ghost smv = sm@;
                                    proof {
                                        assert(guid_in(tvn, tvo[ti as int].guid));
                                        assert(smv.new_index as int == find_guid(
                                            tvn,
                                            tvo[ti as int].guid,
                                        ));
                                        assert(smv.actions == spec_struct_actions(
                                            tvo,
                                            ti as int,
                                            tvn,
                                            smv.new_index as int,
                                            0,
                                            0,
                                        ));
                                        assert(smv.new_index < tvn.len());
                                        assert(tvn[smv.new_index as int]
                                            == new_types@[smv.new_index as int]@);
                                        lemma_struct_actions_windows(
                                            tvo,
                                            ti as int,
                                            tvn,
                                            smv.new_index as int,
                                            0,
                                            0,
                                        );
                                        assert(smv.actions == object_actions(tvo, tvn, o@));
                                    }
                                    let ni = sm.new_index;

                                    // Refuse the swap if a kept reference
                                    // slot points at an object whose type
                                    // is removed.
                                    let na = sm.actions.len();
                                    let mut k: usize = 0;
                                    while k < na
                                        invariant
                                            *self == *old(self),
                                            old(self).wf(),
                                            tvo == self.types_v(),
                                            tvn == types_view(new_types@),
                                            objs == self.objects_v(),
                                            n == objs.len(),
                                            n == self.objects@.len(),
                                            h < n,
                                            objs[h as int] == Some(o@),
                                            o@.type_index < tvo.len(),
                                            tvo[o@.type_index as int].group is Struct,
                                            guid_in(tvn, tvo[o@.type_index as int].guid),
                                            o@.payload.len() == type_size(tvo[o@.type_index as int]),
                                            na == smv.actions.len(),
                                            smv.actions == sm.actions@,
                                            smv.actions == object_actions(tvo, tvn, o@),
                                            forall|q: int| 0 <= q < smv.actions.len()
                                                ==> action_in_windows(
                                                #[trigger] smv.actions[q],
                                                0,
                                                o@.payload.len() as int,
                                                0,
                                                type_size(tvn[smv.new_index as int]),
                                            ),
                                            0 <= k <= na,
                                            forall|q: int| 0 <= q < k ==> !action_dangles(
                                                #[trigger] smv.actions[q],
                                                o@.payload,
                                                tvo,
                                                tvn,
                                                objs,
                                            ),
                                        decreases na - k,
                                    {
                                        match sm.actions[k] {
                                            FieldAction::CopyHandle { old_offset, .. } => {
                                                let v = read_slot(
                                                    &o.payload,
                                                    old_offset as usize,
                                                );
                                                if v != 0 && v - 1 < n as u64 {
                                                    let t = (v - 1) as usize;
                                                    proof {
                                                        assert(objs[t as int] == (
                                                        match self.objects@[t as int] {
                                                            Some(ob) => Some(ob@),
                                                            None => None::<ObjView>,
                                                        }));
                                                    }
                                                    let target_removed = match &self
                                                        .objects[t] {
                                                        Some(to) => {
                                                            proof {
                                                                assert(to@.type_index
                                                                    < tvo.len());
                                                                assert(tvo[to@.type_index as int]
                                                                    == self.types@[to@.type_index as int]@);
                                                                lemma_find_guid(
                                                                    tvn,
                                                                    tvo[to@.type_index as int].guid,
                                                                );
                                                            }
                                                            match &self.types[to.type_index]
                                                                .group {
                                                                TypeGroup::Struct(_) => {
                                                                    let tg = self.types[to
                                                                        .type_index].guid;
                                                                    let tni = find_guid_in(
                                                                        &new_types,
                                                                        &tg,
                                                                    );
                                                                    tni >= new_types.len()
                                                                },
                                                                TypeGroup::Fundamental(_) => false,
                                                            }
                                                        },
                                                        None => false,
                                                    };
                                                    if target_removed {
                                                        proof {
                                                            assert(action_dangles(
                                                                smv.actions[k as int],
                                                                o@.payload,
                                                                tvo,
                                                                tvn,
                                                                objs,
                                                            ));
                                                            assert(object_actions(
                                                                tvo,
                                                                tvn,
                                                                objs[h as int]->Some_0,
                                                            )[k as int] == smv.actions[k as int]);
                                                            assert(object_has_dangling(
                                                                tvo,
                                                                tvn,
                                                                objs,
                                                                h as int,
                                                            ));
                                                        }
                                                        return Err(MigrationError::Dangling);
                                                    }
                                                }
                                                proof {
                                                    assert(!action_dangles(
                                                        smv.actions[k as int],
                                                        o@.payload,
                                                        tvo,
                                                        tvn,
                                                        objs,
                                                    ));
                                                }
                                            },
                                            _ => {
                                                proof {
                                                    assert(!action_dangles(
                                                        smv.actions[k as int],
                                                        o@.payload,
                                                        tvo,
                                                        tvn,
                                                        objs,
                                                    ));
                                                }
                                            },
                                        }
                                        k = k + 1;
                                    }
                                    proof {
                                        assert(!object_has_dangling(tvo, tvn, objs, h as int));
                                    }
                                    let sz = new_types[ni].size_in_bytes();
                                    let np = apply_to_payload(&sm.actions, &o.payload, sz);
                                    new_objects.push(
                                        Some(HeapObject { type_index: ni, payload: np }),
                                    );
                                    proof {
                                        assert(objects_view(new_objects@) =~= objects_view(
                                            before,
                                        ).push(
                                            Some(
                                                ObjView { type_index: ni, payload: np@ },
                                            ),
                                        ));
                                        assert(migrate_object(tvo, tvn, objs[h as int])
                                            == Some(
                                            ObjView { type_index: ni, payload: np@ },
                                        ));
                                    }
                                },
                            }
                        },
                    }
                },
            }
            proof {
                assert forall|j: int| 0 <= j < h + 1 implies objects_view(new_objects@)[j]
                    == migrate_object(tvo, tvn, #[trigger] objs[j]) by {
                    if j < h as int {
                        assert(objects_view(new_objects@)[j] == objects_view(before)[j]);
                    }
                }
            }
            h = h + 1;
        }

        // Commit: the whole migration succeeded, so the new state becomes
        // visible at once.
        self.types = new_types;
        self.objects = new_objects;
        proof {
            assert forall|j: int| 0 <= j < n implies !object_has_dangling(
                tvo,
                tvn,
                objs,
                j,
            ) by {}
            assert(!heap_has_dangling(tvo, tvn, objs));
            assert(self.types_v() == tvn);
            assert(self.objects_v().len() == n);
            assert forall|j: int| 0 <= j < self.objects_v().len() implies (
            match #[trigger] self.objects_v()[j] {
                Some(ob) => ob.type_index < tvn.len() && ob.payload.len() == type_size(
                    tvn[ob.type_index as int],
                ),
                None => true,
            }) by {
                assert(self.objects_v()[j] == migrate_object(tvo, tvn, objs[j]));
                assert(objs[j] == old(self).objects_v()[j]);
                match objs[j] {
                    Some(o) => {
                        if o.type_index < tvo.len() {
                            lemma_find_guid(tvn, tvo[o.type_index as int].guid);
                            match tvo[o.type_index as int].group {
                                TypeGroupView::Struct(_) => {
                                    let ni = find_guid(tvn, tvo[o.type_index as int].guid);
                                    if ni < tvn.len() {
                                        lemma_apply_len(
                                            spec_struct_actions(
                                                tvo,
                                                o.type_index as int,
                                                tvn,
                                                ni,
                                                0,
                                                0,
                                            ),
                                            o.payload,
                                            type_size(tvn[ni]),
                                        );
                                    }
                                },
                                TypeGroupView::Fundamental(_) => {},
                            }
                        }
                    },
                    None => {},
                }
            }
        }
        Ok(())
    }
}


/// No host-held handle dangles after a successful swap: a handle that was
/// live before the migration either still refers to a live object — its
/// type retained under the same GUID, or a fundamental type of unchanged
/// size, with the rewritten payload — or has been invalidated exactly
/// because the new schema has no type of that GUID (or no room for the
/// old value).  A handle that was already dead stays dead.
pub proof fn lemma_migration_handle_safety(
    tvo: Seq<TypeView>,
    tvn: Seq<TypeView>,
    obj: Option<ObjView>,
)
    requires
        tvn.len() <= usize::MAX,
    ensures
        obj is None ==> migrate_object(tvo, tvn, obj) is None,
        (obj is Some && obj->Some_0.type_index < tvo.len() && tvo[obj->Some_0.type_index as int].group is Struct)
            ==> {
            let o = obj->Some_0;
            let g = tvo[o.type_index as int].guid;
            if guid_in(tvn, g) {
                &&& migrate_object(tvo, tvn, obj) is Some
                &&& tvn[migrate_object(tvo, tvn, obj)->Some_0.type_index as int].guid == g
            } else {
                migrate_object(tvo, tvn, obj) is None
            }
        },
{
    if obj is Some {
        let o = obj->Some_0;
        if o.type_index < tvo.len() && tvo[o.type_index as int].group is Struct {
            let g = tvo[o.type_index as int].guid;
            lemma_find_guid(tvn, g);
        }
    }
}


/// Every type of the registry bears its own GUID.
pub open spec fn unique_guids(tv: Seq<TypeView>) -> bool {
    forall|i: int, j: int| 0 <= i < j < tv.len() ==> (#[trigger] tv[i].guid) != (
    #[trigger] tv[j].guid)
}

/// No two fields of one struct share a name.
pub open spec fn unique_field_names(si: StructView) -> bool {
    forall|a: int, b: int| 0 <= a < b < si.field_names.len() ==> (
    #[trigger] si.field_names[a]) != (#[trigger] si.field_names[b])
}

/// Every struct of the registry has uniquely named fields.
pub open spec fn all_unique_field_names(tv: Seq<TypeView>) -> bool {
    forall|ti: int| 0 <= ti < tv.len() ==> (match (#[trigger] tv[ti]).group {
        TypeGroupView::Struct(si) => unique_field_names(si),
        TypeGroupView::Fundamental(_) => true,
    })
}

/// An instruction that moves bytes without relocating them.
pub open spec fn identity_action(a: FieldAction) -> bool {
    match a {
        FieldAction::CopyBytes { old_offset, new_offset, .. } => old_offset == new_offset,
        FieldAction::CopyHandle { old_offset, new_offset } => old_offset == new_offset,
        _ => false,
    }
}

/// The byte at `i` of the new payload is written by the instruction.
pub open spec fn action_covers(a: FieldAction, i: int) -> bool {
    match a {
        FieldAction::CopyBytes { new_offset, size, .. } => new_offset <= i < new_offset + size,
        FieldAction::CopyHandle { new_offset, .. } => new_offset <= i < new_offset + 8,
        FieldAction::ConvertInt { new_offset, new_size, .. } => new_offset <= i < new_offset
            + new_size,
        FieldAction::Zero { new_offset, size } => new_offset <= i < new_offset + size,
    }
}

/// Some instruction of the list writes the byte at `i`.
pub open spec fn actions_cover(actions: Seq<FieldAction>, i: int) -> bool {
    exists|q: int| 0 <= q < actions.len() && action_covers(#[trigger] actions[q], i)
}

/// Diffing a retained struct against itself in one registry yields
/// in-place copies only: one field's case.
proof fn lemma_noop_field_action(
    tv: Seq<TypeView>,
    si: StructView,
    ti: int,
    k: int,
    b: int,
)
    requires
        wf_type_registry(tv),
        unique_guids(tv),
        all_unique_field_names(tv),
        0 <= ti < tv.len(),
        tv[ti].group == TypeGroupView::Struct(si),
        0 <= k < si.field_names.len(),
        0 <= b,
        b + si.size <= u16::MAX,
    ensures
        forall|q: int| 0 <= q < spec_field_action(tv, si, ti, tv, si, k, b, b).len()
            ==> identity_action(#[trigger] spec_field_action(tv, si, ti, tv, si, k, b, b)[q]),
    decreases ti, 0int, 0int,
{
    assert(wf_struct_info(si, tv, ti));
    assert(wf_field(si, tv, ti, k));
    let name = si.field_names[k];
    crate::diff::lemma_find_field(si, name, si.field_names.len() as int);
    let j = crate::diff::find_field(si, name, si.field_names.len() as int);
    assert(j == k) by {
        if j < k {
            assert(si.field_names[j] != si.field_names[k]);
        }
        if j > k {
            assert(si.field_names[k] != name);
        }
    }
    let ft = si.field_types[k] as int;
    assert(0 <= ft < tv.len());
    assert(si.field_offsets[k] + si.field_sizes[k] <= si.size);
    let acts = spec_field_action(tv, si, ti, tv, si, k, b, b);
    let off = ((b + si.field_offsets[k]) as u16) as int;
    assert(off == b + si.field_offsets[k]);
    match tv[ft].group {
        TypeGroupView::Fundamental(_) => {
            assert(acts.len() == 1);
            assert(identity_action(acts[0]));
        },
        TypeGroupView::Struct(fsi) => {
            if fsi.memory_kind is Gc {
                assert(acts.len() == 1);
                assert(identity_action(acts[0]));
            } else {
                assert(ft < ti);
                assert(si.field_sizes[k] == fsi.size);
                lemma_noop_struct_actions(tv, ft, off);
                assert(acts == spec_struct_actions(tv, ft, tv, ft, off, off));
                assert forall|q: int| 0 <= q < acts.len() implies identity_action(
                    #[trigger] acts[q],
                ) by {
                    assert(acts[q] == spec_struct_actions(tv, ft, tv, ft, off, off)[q]);
                }
            }
        },
    }
}

/// Diffing a retained struct against itself yields in-place copies only:
/// the first `k` fields.
proof fn lemma_noop_struct_prefix(tv: Seq<TypeView>, ti: int, k: int, b: int)
    requires
        wf_type_registry(tv),
        unique_guids(tv),
        all_unique_field_names(tv),
        0 <= ti < tv.len(),
        tv[ti].group is Struct,
        0 <= b,
        b + tv[ti].group->Struct_0.size <= u16::MAX,
    ensures
        forall|q: int| 0 <= q < spec_struct_actions_prefix(tv, ti, tv, ti, k, b, b).len()
            ==> identity_action(
            #[trigger] spec_struct_actions_prefix(tv, ti, tv, ti, k, b, b)[q],
        ),
    decreases ti, 1int, k,
{
    let si = tv[ti].group->Struct_0;
    if k <= 0 || k > si.field_names.len() {
    } else {
        lemma_noop_struct_prefix(tv, ti, k - 1, b);
        lemma_noop_field_action(tv, si, ti, k - 1, b);
        let rest = spec_struct_actions_prefix(tv, ti, tv, ti, k - 1, b, b);
        let step = spec_field_action(tv, si, ti, tv, si, k - 1, b, b);
        let whole = spec_struct_actions_prefix(tv, ti, tv, ti, k, b, b);
        assert forall|q: int| 0 <= q < whole.len() implies identity_action(
            #[trigger] whole[q],
        ) by {
            if q < rest.len() {
                assert(whole[q] == rest[q]);
            } else {
                assert(whole[q] == step[q - rest.len()]);
            }
        }
    }
}

/// Diffing a retained struct against itself yields in-place copies only.
pub proof fn lemma_noop_struct_actions(tv: Seq<TypeView>, ti: int, b: int)
    requires
        wf_type_registry(tv),
        unique_guids(tv),
        all_unique_field_names(tv),
        0 <= ti < tv.len(),
        tv[ti].group is Struct,
        0 <= b,
        b + type_size(tv[ti]) <= u16::MAX,
    ensures
        forall|q: int| 0 <= q < spec_struct_actions(tv, ti, tv, ti, b, b).len()
            ==> identity_action(#[trigger] spec_struct_actions(tv, ti, tv, ti, b, b)[q]),
    decreases ti, 2int, 0int,
{
    let si = tv[ti].group->Struct_0;
    lemma_noop_struct_prefix(tv, ti, si.field_names.len() as int, b);
    assert(spec_struct_actions(tv, ti, tv, ti, b, b) == spec_struct_actions_prefix(
        tv,
        ti,
        tv,
        ti,
        si.field_names.len() as int,
        b,
        b,
    ));
}

/// Applying in-place copies reproduces the old bytes where they write
/// and zero everywhere else.
proof fn lemma_identity_apply(actions: Seq<FieldAction>, oldp: Seq<u8>, size: int, i: int)
    requires
        size >= 0,
        oldp.len() == size,
        forall|q: int| 0 <= q < actions.len() ==> identity_action(#[trigger] actions[q])
            && action_in_windows(#[trigger] actions[q], 0, size, 0, size),
        0 <= i < size,
    ensures
        apply_actions(actions, oldp, size)[i] == (if actions_cover(actions, i) {
            oldp[i]
        } else {
            0u8
        }),
    decreases actions.len(),
{
    lemma_apply_len(actions, oldp, size);
    if actions.len() == 0 {
    } else {
        let rest = actions.drop_last();
        let last = actions.last();
        lemma_apply_len(rest, oldp, size);
        lemma_identity_apply(rest, oldp, size, i);
        assert(identity_action(last) && action_in_windows(last, 0, size, 0, size)) by {
            assert(actions[actions.len() - 1] == last);
        }
        assert forall|q: int| 0 <= q < rest.len() implies identity_action(
            #[trigger] rest[q],
        ) && action_in_windows(#[trigger] rest[q], 0, size, 0, size) by {
            assert(rest[q] == actions[q]);
        }
        if action_covers(last, i) {
            assert(apply_actions(actions, oldp, size)[i] == oldp[i]);
            assert(actions_cover(actions, i)) by {
                assert(action_covers(actions[actions.len() - 1], i));
            }
        } else {
            assert(apply_actions(actions, oldp, size)[i] == apply_actions(
                rest,
                oldp,
                size,
            )[i]);
            assert(actions_cover(actions, i) <==> actions_cover(rest, i)) by {
                if actions_cover(actions, i) {
                    let q = choose|q: int| 0 <= q < actions.len() && action_covers(
                        #[trigger] actions[q],
                        i,
                    );
                    if q < actions.len() - 1 {
                        assert(action_covers(rest[q], i));
                    }
                }
                if actions_cover(rest, i) {
                    let q = choose|q: int| 0 <= q < rest.len() && action_covers(
                        #[trigger] rest[q],
                        i,
                    );
                    assert(action_covers(actions[q], i));
                }
            }
        }
    }
}

/// The migration round-trip: recompiling the same schema and swapping
/// leaves every live object byte-identical.  A payload written only
/// through its fields — its padding zero — comes out of a no-change
/// migration exactly as it went in, at the same handle, with its type
/// retained.
pub proof fn lemma_noop_migration(tv: Seq<TypeView>, o: ObjView)
    requires
        wf_type_registry(tv),
        unique_guids(tv),
        all_unique_field_names(tv),
        tv.len() <= usize::MAX,
        o.type_index < tv.len(),
        tv[o.type_index as int].group is Struct,
        o.payload.len() == type_size(tv[o.type_index as int]),
        forall|i: int| 0 <= i < o.payload.len() && !actions_cover(
            spec_struct_actions(tv, o.type_index as int, tv, o.type_index as int, 0, 0),
            i,
        ) ==> o.payload[i] == 0u8,
    ensures
        migrate_object(tv, tv, Some(o)) == Some(o),
{
    let ti = o.type_index as int;
    let g = tv[ti].guid;
    lemma_find_guid(tv, g);
    let ni = find_guid(tv, g);
    assert(ni == ti) by {
        assert(guid_in(tv, g));
        if ni < ti {
            assert(tv[ni].guid != tv[ti].guid);
        }
        if ni > ti {
            assert(tv[ti].guid != g);
        }
    }
    let actions = spec_struct_actions(tv, ti, tv, ti, 0, 0);
    let size = type_size(tv[ti]);
    lemma_noop_struct_actions(tv, ti, 0);
    lemma_struct_actions_windows(tv, ti, tv, ti, 0, 0);
    lemma_apply_len(actions, o.payload, size);
    assert forall|i: int| 0 <= i < size implies apply_actions(actions, o.payload, size)[i]
        == o.payload[i] by {
        lemma_identity_apply(actions, o.payload, size, i);
    }
    assert(apply_actions(actions, o.payload, size) =~= o.payload);
}


/// Fields of a well-formed struct occupy disjoint ranges: an earlier
/// field ends before a later one begins.
proof fn lemma_fields_disjoint(si: StructView, tv: Seq<TypeView>, ti: int, a: int, b: int)
    requires
        wf_struct_info(si, tv, ti),
        0 <= a < b < si.field_names.len(),
    ensures
        si.field_offsets[a] + si.field_sizes[a] <= si.field_offsets[b],
    decreases b - a,
{
    if a + 1 == b {
    } else {
        lemma_fields_disjoint(si, tv, ti, a, b - 1);
        assert(si.field_offsets[b - 1] + si.field_sizes[b - 1] <= si.field_offsets[b]);
    }
}

/// One field's instructions write only within that field's own range.
proof fn lemma_field_action_own_window(
    tvo: Seq<TypeView>,
    osi: StructView,
    oi: int,
    tvn: Seq<TypeView>,
    nsi: StructView,
    ni: int,
    k: int,
    bo: int,
    bn: int,
)
    requires
        wf_type_registry(tvo),
        wf_type_registry(tvn),
        0 <= oi < tvo.len(),
        0 <= ni < tvn.len(),
        tvo[oi].group == TypeGroupView::Struct(osi),
        tvn[ni].group == TypeGroupView::Struct(nsi),
        0 <= k < nsi.field_names.len(),
        0 <= bo,
        0 <= bn,
        bo + osi.size <= u16::MAX,
        bn + nsi.size <= u16::MAX,
    ensures
        forall|q: int, i: int| 0 <= q < spec_field_action(tvo, osi, oi, tvn, nsi, k, bo, bn).len()
            && #[trigger] action_covers(spec_field_action(tvo, osi, oi, tvn, nsi, k, bo, bn)[q], i)
            ==> bn + nsi.field_offsets[k] <= i < bn + nsi.field_offsets[k]
            + nsi.field_sizes[k],
    decreases oi, 0int, 0int,
{
    assert(wf_struct_info(nsi, tvn, ni));
    assert(wf_struct_info(osi, tvo, oi));
    assert(wf_field(nsi, tvn, ni, k));
    let acts = spec_field_action(tvo, osi, oi, tvn, nsi, k, bo, bn);
    let name = nsi.field_names[k];
    crate::diff::lemma_find_field(osi, name, osi.field_names.len() as int);
    let j = crate::diff::find_field(osi, name, osi.field_names.len() as int);
    let new_off = ((bn + nsi.field_offsets[k]) as u16) as int;
    assert(new_off == bn + nsi.field_offsets[k]);
    if j < osi.field_names.len() {
        assert(wf_field(osi, tvo, oi, j));
        let oft = osi.field_types[j] as int;
        let nft = nsi.field_types[k] as int;
        if 0 <= oft < tvo.len() && 0 <= nft < tvn.len() {
            match (tvo[oft].group, tvn[nft].group) {
                (TypeGroupView::Struct(ofsi), TypeGroupView::Struct(nfsi)) => {
                    if tvo[oft].guid == tvn[nft].guid && ofsi.memory_kind is Value
                        && nfsi.memory_kind is Value && 0 <= oft < oi {
                        assert(nsi.field_sizes[k] == nfsi.size);
                        assert(osi.field_sizes[j] == ofsi.size);
                        let old_off = ((bo + osi.field_offsets[j]) as u16) as int;
                        assert(old_off == bo + osi.field_offsets[j]);
                        lemma_struct_actions_windows(tvo, oft, tvn, nft, old_off, new_off);
                        assert forall|q: int, i: int| 0 <= q < acts.len()
                            && #[trigger] action_covers(acts[q], i) implies new_off <= i
                            < new_off + nsi.field_sizes[k] by {
                            assert(acts[q] == spec_struct_actions(
                                tvo,
                                oft,
                                tvn,
                                nft,
                                old_off,
                                new_off,
                            )[q]);
                            assert(action_in_windows(
                                acts[q],
                                old_off,
                                old_off + type_size(tvo[oft]),
                                new_off,
                                new_off + type_size(tvn[nft]),
                            ));
                        }
                    }
                },
                _ => {},
            }
        }
    }
}

/// Applying instructions that write the byte only as zero leaves it zero.
proof fn lemma_zero_apply(actions: Seq<FieldAction>, oldp: Seq<u8>, size: int, i: int)
    requires
        size >= 0,
        forall|q: int| 0 <= q < actions.len() && action_covers(#[trigger] actions[q], i)
            ==> actions[q] is Zero,
        forall|q: int| 0 <= q < actions.len() ==> action_in_windows(
            #[trigger] actions[q],
            0,
            oldp.len() as int,
            0,
            size,
        ),
        0 <= i < size,
    ensures
        apply_actions(actions, oldp, size)[i] == 0u8,
    decreases actions.len(),
{
    lemma_apply_len(actions, oldp, size);
    if actions.len() == 0 {
    } else {
        let rest = actions.drop_last();
        let last = actions.last();
        lemma_apply_len(rest, oldp, size);
        assert(actions[actions.len() - 1] == last);
        assert forall|q: int| 0 <= q < rest.len() && action_covers(
            #[trigger] rest[q],
            i,
        ) implies rest[q] is Zero by {
            assert(rest[q] == actions[q]);
        }
        assert forall|q: int| 0 <= q < rest.len() implies action_in_windows(
            #[trigger] rest[q],
            0,
            oldp.len() as int,
            0,
            size,
        ) by {
            assert(rest[q] == actions[q]);
        }
        lemma_zero_apply(rest, oldp, size, i);
        let prev = apply_actions(rest, oldp, size);
        if action_covers(last, i) {
            assert(last is Zero);
            match last {
                FieldAction::Zero { new_offset, size: z } => {
                    assert(apply_actions(actions, oldp, size)[i] == zeros(
                        z as int,
                    )[i - new_offset]);
                },
                _ => {},
            }
        } else {
            assert(apply_actions(actions, oldp, size)[i] == prev[i]);
        }
    }
}

/// Additive migration: a field of the new schema whose name names no old
/// field comes out of the migration zero-initialized, whatever the old
/// payload held.
pub proof fn lemma_added_field_zero(
    tvo: Seq<TypeView>,
    oi: int,
    tvn: Seq<TypeView>,
    ni: int,
    k: int,
    p: Seq<u8>,
    i: int,
)
    requires
        wf_type_registry(tvo),
        wf_type_registry(tvn),
        0 <= oi < tvo.len(),
        0 <= ni < tvn.len(),
        tvo[oi].group is Struct,
        tvn[ni].group is Struct,
        0 <= k < tvn[ni].group->Struct_0.field_names.len(),
        forall|j: int| 0 <= j < tvo[oi].group->Struct_0.field_names.len() ==> (
        #[trigger] tvo[oi].group->Struct_0.field_names[j])
            != tvn[ni].group->Struct_0.field_names[k],
        p.len() == type_size(tvo[oi]),
        tvn[ni].group->Struct_0.field_offsets[k] <= i
            < tvn[ni].group->Struct_0.field_offsets[k]
            + tvn[ni].group->Struct_0.field_sizes[k],
    ensures
        apply_actions(spec_struct_actions(tvo, oi, tvn, ni, 0, 0), p, type_size(tvn[ni]))[i]
            == 0u8,
{
    let osi = tvo[oi].group->Struct_0;
    let nsi = tvn[ni].group->Struct_0;
    assert(wf_struct_info(nsi, tvn, ni));
    assert(wf_field(nsi, tvn, ni, k));
    let size = type_size(tvn[ni]);
    assert(0 <= i < size) by {
        assert(nsi.field_offsets[k] + nsi.field_sizes[k] <= nsi.size);
    }
    lemma_prefix_zero_at(tvo, oi, tvn, ni, nsi.field_names.len() as int, k, i);
    let actions = spec_struct_actions(tvo, oi, tvn, ni, 0, 0);
    assert(actions == spec_struct_actions_prefix(
        tvo,
        oi,
        tvn,
        ni,
        nsi.field_names.len() as int,
        0,
        0,
    ));
    lemma_struct_actions_windows(tvo, oi, tvn, ni, 0, 0);
    assert forall|q: int| 0 <= q < actions.len() implies action_in_windows(
        #[trigger] actions[q],
        0,
        p.len() as int,
        0,
        size,
    ) by {
        assert(action_in_windows(actions[q], 0, type_size(tvo[oi]), 0, type_size(tvn[ni])));
    }
    lemma_zero_apply(actions, p, size, i);
}

/// Within the first `m` fields' instructions, only the added field `k`
/// writes into `k`'s range, and it writes zero.
proof fn lemma_prefix_zero_at(
    tvo: Seq<TypeView>,
    oi: int,
    tvn: Seq<TypeView>,
    ni: int,
    m: int,
    k: int,
    i: int,
)
    requires
        wf_type_registry(tvo),
        wf_type_registry(tvn),
        0 <= oi < tvo.len(),
        0 <= ni < tvn.len(),
        tvo[oi].group is Struct,
        tvn[ni].group is Struct,
        0 <= k < tvn[ni].group->Struct_0.field_names.len(),
        0 <= m <= tvn[ni].group->Struct_0.field_names.len(),
        forall|j: int| 0 <= j < tvo[oi].group->Struct_0.field_names.len() ==> (
        #[trigger] tvo[oi].group->Struct_0.field_names[j])
            != tvn[ni].group->Struct_0.field_names[k],
        tvn[ni].group->Struct_0.field_offsets[k] <= i
            < tvn[ni].group->Struct_0.field_offsets[k]
            + tvn[ni].group->Struct_0.field_sizes[k],
    ensures
        forall|q: int| 0 <= q < spec_struct_actions_prefix(tvo, oi, tvn, ni, m, 0, 0).len()
            && action_covers(#[trigger] spec_struct_actions_prefix(tvo, oi, tvn, ni, m, 0, 0)[q], i)
            ==> spec_struct_actions_prefix(tvo, oi, tvn, ni, m, 0, 0)[q] is Zero,
    decreases m,
{
    let osi = tvo[oi].group->Struct_0;
    let nsi = tvn[ni].group->Struct_0;
    assert(wf_struct_info(nsi, tvn, ni));
    if m <= 0 {
    } else {
        lemma_prefix_zero_at(tvo, oi, tvn, ni, m - 1, k, i);
        let rest = spec_struct_actions_prefix(tvo, oi, tvn, ni, m - 1, 0, 0);
        let step = spec_field_action(tvo, osi, oi, tvn, nsi, m - 1, 0, 0);
        let whole = spec_struct_actions_prefix(tvo, oi, tvn, ni, m, 0, 0);
        lemma_field_action_own_window(tvo, osi, oi, tvn, nsi, ni, m - 1, 0, 0);
        assert forall|q: int| 0 <= q < whole.len() && action_covers(
            #[trigger] whole[q],
            i,
        ) implies whole[q] is Zero by {
            if q < rest.len() {
                assert(whole[q] == rest[q]);
            } else {
                assert(whole[q] == step[q - rest.len()]);
                if m - 1 != k {
                    // A different field's instructions stay in that
                    // field's own range, which is disjoint from `k`'s.
                    assert(nsi.field_offsets[m - 1] <= i < nsi.field_offsets[m - 1]
                        + nsi.field_sizes[m - 1]);
                    if m - 1 < k {
                        lemma_fields_disjoint(nsi, tvn, ni, m - 1, k);
                        assert(false);
                    } else {
                        lemma_fields_disjoint(nsi, tvn, ni, k, m - 1);
                        assert(false);
                    }
                } else {
                    // The added field's own instruction zero-initializes.
                    crate::diff::lemma_find_field(
                        osi,
                        nsi.field_names[k],
                        osi.field_names.len() as int,
                    );
                    assert(crate::diff::find_field(
                        osi,
                        nsi.field_names[k],
                        osi.field_names.len() as int,
                    ) >= osi.field_names.len());
                    assert(step[0] is Zero);
                }
            }
        }
    }
}


/// The new schema keeps old field `j` as its field `k`, unchanged: same
/// name (and `j` is the first old field of that name), same offset and
/// size, and a retained type — equal GUIDs, both fundamental or both
/// references to a garbage-collected struct.
pub open spec fn kept_field_retained(
    tvo: Seq<TypeView>,
    oi: int,
    tvn: Seq<TypeView>,
    ni: int,
    j: int,
    k: int,
) -> bool {
    let osi = tvo[oi].group->Struct_0;
    let nsi = tvn[ni].group->Struct_0;
    let oft = osi.field_types[j] as int;
    let nft = nsi.field_types[k] as int;
    &&& nsi.field_names[k] == osi.field_names[j]
    &&& (forall|j2: int| 0 <= j2 < j ==> (#[trigger] osi.field_names[j2])
        != osi.field_names[j])
    &&& osi.field_offsets[j] == nsi.field_offsets[k]
    &&& osi.field_sizes[j] == nsi.field_sizes[k]
    &&& tvo[oft].guid == tvn[nft].guid
    &&& ((tvo[oft].group is Fundamental && tvn[nft].group is Fundamental) || (tvo[oft].group
        is Struct && tvn[nft].group is Struct
        && tvo[oft].group->Struct_0.memory_kind is Gc
        && tvn[nft].group->Struct_0.memory_kind is Gc))
}

/// Applying instructions that write a byte only by in-place copies
/// reproduces the old byte; an unwritten byte is zero.
proof fn lemma_copy_at(actions: Seq<FieldAction>, oldp: Seq<u8>, size: int, i: int)
    requires
        size >= 0,
        forall|q: int| 0 <= q < actions.len() ==> action_in_windows(
            #[trigger] actions[q],
            0,
            oldp.len() as int,
            0,
            size,
        ),
        forall|q: int| 0 <= q < actions.len() && action_covers(#[trigger] actions[q], i)
            ==> identity_action(actions[q]),
        0 <= i < size,
    ensures
        apply_actions(actions, oldp, size)[i] == (if actions_cover(actions, i) {
            oldp[i]
        } else {
            0u8
        }),
    decreases actions.len(),
{
    lemma_apply_len(actions, oldp, size);
    if actions.len() == 0 {
    } else {
        let rest = actions.drop_last();
        let last = actions.last();
        lemma_apply_len(rest, oldp, size);
        assert(actions[actions.len() - 1] == last);
        assert forall|q: int| 0 <= q < rest.len() implies (#[trigger] rest[q])
            == actions[q] by {}
        lemma_copy_at(rest, oldp, size, i);
        let prev = apply_actions(rest, oldp, size);
        if action_covers(last, i) {
            assert(identity_action(last));
            assert(apply_actions(actions, oldp, size)[i] == oldp[i]);
            assert(actions_cover(actions, i)) by {
                assert(action_covers(actions[actions.len() - 1], i));
            }
        } else {
            assert(apply_actions(actions, oldp, size)[i] == prev[i]);
            assert(actions_cover(actions, i) <==> actions_cover(rest, i)) by {
                if actions_cover(actions, i) {
                    let q = choose|q: int| 0 <= q < actions.len() && action_covers(
                        #[trigger] actions[q],
                        i,
                    );
                    if q < actions.len() - 1 {
                        assert(action_covers(rest[q], i));
                    }
                }
                if actions_cover(rest, i) {
                    let q = choose|q: int| 0 <= q < rest.len() && action_covers(
                        #[trigger] rest[q],
                        i,
                    );
                    assert(action_covers(actions[q], i));
                }
            }
        }
    }
}

/// A kept, unchanged field's instruction is an in-place copy of its whole
/// range.
proof fn lemma_kept_step_identity(
    tvo: Seq<TypeView>,
    oi: int,
    tvn: Seq<TypeView>,
    ni: int,
    j: int,
    k: int,
)
    requires
        wf_type_registry(tvo),
        wf_type_registry(tvn),
        0 <= oi < tvo.len(),
        0 <= ni < tvn.len(),
        tvo[oi].group is Struct,
        tvn[ni].group is Struct,
        0 <= k < tvn[ni].group->Struct_0.field_names.len(),
        0 <= j < tvo[oi].group->Struct_0.field_names.len(),
        kept_field_retained(tvo, oi, tvn, ni, j, k),
    ensures
        ({
            let step = spec_field_action(
                tvo,
                tvo[oi].group->Struct_0,
                oi,
                tvn,
                tvn[ni].group->Struct_0,
                k,
                0,
                0,
            );
            step.len() == 1 && identity_action(step[0]) && (match step[0] {
                FieldAction::CopyBytes { new_offset, size, .. } => new_offset as int
                    == tvn[ni].group->Struct_0.field_offsets[k] && size
                    == tvn[ni].group->Struct_0.field_sizes[k],
                FieldAction::CopyHandle { new_offset, .. } => new_offset as int
                    == tvn[ni].group->Struct_0.field_offsets[k]
                    && tvn[ni].group->Struct_0.field_sizes[k] == 8,
                _ => false,
            })
        }),
{
    let osi = tvo[oi].group->Struct_0;
    let nsi = tvn[ni].group->Struct_0;
    assert(wf_struct_info(osi, tvo, oi));
    assert(wf_struct_info(nsi, tvn, ni));
    assert(wf_field(osi, tvo, oi, j));
    assert(wf_field(nsi, tvn, ni, k));
    crate::diff::lemma_find_field(osi, nsi.field_names[k], osi.field_names.len() as int);
    let jf = crate::diff::find_field(osi, nsi.field_names[k], osi.field_names.len() as int);
    assert(jf == j) by {
        if jf < j {
            assert(osi.field_names[jf] != osi.field_names[j]);
            assert(osi.field_names[jf] == nsi.field_names[k]);
            assert(false);
        }
        if jf > j {
            assert(osi.field_names[j] != nsi.field_names[k]);
            assert(false);
        }
    }
    let oft = osi.field_types[j] as int;
    let nft = nsi.field_types[k] as int;
    if tvo[oft].group is Fundamental {
        assert(osi.field_sizes[j] as int == crate::abi::field_slot_size(tvo, oft));
        assert(nsi.field_sizes[k] as int == crate::abi::field_slot_size(tvn, nft));
    } else {
        assert(osi.field_sizes[j] == 8);
        assert(nsi.field_sizes[k] == 8);
    }
    assert(((0 + osi.field_offsets[j]) as u16) as int == osi.field_offsets[j] as int);
    assert(((0 + nsi.field_offsets[k]) as u16) as int == nsi.field_offsets[k] as int);
}

/// Within the first `m` fields' instructions, whatever writes into kept
/// field `k`'s range is an in-place copy.
proof fn lemma_prefix_copy_at(
    tvo: Seq<TypeView>,
    oi: int,
    tvn: Seq<TypeView>,
    ni: int,
    m: int,
    j: int,
    k: int,
    i: int,
)
    requires
        wf_type_registry(tvo),
        wf_type_registry(tvn),
        0 <= oi < tvo.len(),
        0 <= ni < tvn.len(),
        tvo[oi].group is Struct,
        tvn[ni].group is Struct,
        0 <= k < tvn[ni].group->Struct_0.field_names.len(),
        0 <= j < tvo[oi].group->Struct_0.field_names.len(),
        0 <= m <= tvn[ni].group->Struct_0.field_names.len(),
        kept_field_retained(tvo, oi, tvn, ni, j, k),
        tvn[ni].group->Struct_0.field_offsets[k] <= i
            < tvn[ni].group->Struct_0.field_offsets[k]
            + tvn[ni].group->Struct_0.field_sizes[k],
    ensures
        forall|q: int| 0 <= q < spec_struct_actions_prefix(tvo, oi, tvn, ni, m, 0, 0).len()
            && #[trigger] action_covers(
            spec_struct_actions_prefix(tvo, oi, tvn, ni, m, 0, 0)[q],
            i,
        ) ==> identity_action(spec_struct_actions_prefix(tvo, oi, tvn, ni, m, 0, 0)[q]),
    decreases m,
{
    let osi = tvo[oi].group->Struct_0;
    let nsi = tvn[ni].group->Struct_0;
    assert(wf_struct_info(nsi, tvn, ni));
    if m <= 0 {
    } else {
        lemma_prefix_copy_at(tvo, oi, tvn, ni, m - 1, j, k, i);
        let rest = spec_struct_actions_prefix(tvo, oi, tvn, ni, m - 1, 0, 0);
        let step = spec_field_action(tvo, osi, oi, tvn, nsi, m - 1, 0, 0);
        let whole = spec_struct_actions_prefix(tvo, oi, tvn, ni, m, 0, 0);
        lemma_field_action_own_window(tvo, osi, oi, tvn, nsi, ni, m - 1, 0, 0);
        assert forall|q: int| 0 <= q < whole.len() && #[trigger] action_covers(
            whole[q],
            i,
        ) implies identity_action(whole[q]) by {
            if q < rest.len() {
                assert(whole[q] == rest[q]);
            } else {
                assert(whole[q] == step[q - rest.len()]);
                if m - 1 != k {
                    assert(nsi.field_offsets[m - 1] <= i < nsi.field_offsets[m - 1]
                        + nsi.field_sizes[m - 1]);
                    if m - 1 < k {
                        lemma_fields_disjoint(nsi, tvn, ni, m - 1, k);
                        assert(false);
                    } else {
                        lemma_fields_disjoint(nsi, tvn, ni, k, m - 1);
                        assert(false);
                    }
                } else {
                    lemma_kept_step_identity(tvo, oi, tvn, ni, j, k);
                }
            }
        }
    }
}

/// A prefix's instructions remain, unchanged, in every longer prefix.
proof fn lemma_prefix_monotone(
    tvo: Seq<TypeView>,
    oi: int,
    tvn: Seq<TypeView>,
    ni: int,
    m1: int,
    m2: int,
    pos: int,
)
    requires
        0 <= oi < tvo.len(),
        0 <= ni < tvn.len(),
        tvo[oi].group is Struct,
        tvn[ni].group is Struct,
        0 <= m1 <= m2 <= tvn[ni].group->Struct_0.field_names.len(),
        0 <= pos < spec_struct_actions_prefix(tvo, oi, tvn, ni, m1, 0, 0).len(),
    ensures
        pos < spec_struct_actions_prefix(tvo, oi, tvn, ni, m2, 0, 0).len(),
        spec_struct_actions_prefix(tvo, oi, tvn, ni, m2, 0, 0)[pos]
            == spec_struct_actions_prefix(tvo, oi, tvn, ni, m1, 0, 0)[pos],
    decreases m2 - m1,
{
    if m1 < m2 {
        lemma_prefix_monotone(tvo, oi, tvn, ni, m1, m2 - 1, pos);
        let prev = spec_struct_actions_prefix(tvo, oi, tvn, ni, m2 - 1, 0, 0);
        let whole = spec_struct_actions_prefix(tvo, oi, tvn, ni, m2, 0, 0);
        assert(whole[pos] == prev[pos]);
    }
}

/// Additive migration, the preservation half: a field the new schema
/// keeps unchanged — same name, offset, size, and a retained fundamental
/// or reference type — reads back exactly its old bytes after the
/// migration, whatever else the schema adds or drops elsewhere.
pub proof fn lemma_kept_field_preserved(
    tvo: Seq<TypeView>,
    oi: int,
    tvn: Seq<TypeView>,
    ni: int,
    j: int,
    k: int,
    p: Seq<u8>,
    i: int,
)
    requires
        wf_type_registry(tvo),
        wf_type_registry(tvn),
        0 <= oi < tvo.len(),
        0 <= ni < tvn.len(),
        tvo[oi].group is Struct,
        tvn[ni].group is Struct,
        0 <= k < tvn[ni].group->Struct_0.field_names.len(),
        0 <= j < tvo[oi].group->Struct_0.field_names.len(),
        kept_field_retained(tvo, oi, tvn, ni, j, k),
        p.len() == type_size(tvo[oi]),
        tvn[ni].group->Struct_0.field_offsets[k] <= i
            < tvn[ni].group->Struct_0.field_offsets[k]
            + tvn[ni].group->Struct_0.field_sizes[k],
    ensures
        apply_actions(spec_struct_actions(tvo, oi, tvn, ni, 0, 0), p, type_size(tvn[ni]))[i]
            == p[i],
{
    let osi = tvo[oi].group->Struct_0;
    let nsi = tvn[ni].group->Struct_0;
    assert(wf_struct_info(osi, tvo, oi));
    assert(wf_struct_info(nsi, tvn, ni));
    assert(wf_field(nsi, tvn, ni, k));
    let size = type_size(tvn[ni]);
    assert(0 <= i < size) by {
        assert(nsi.field_offsets[k] + nsi.field_sizes[k] <= nsi.size);
    }
    let actions = spec_struct_actions(tvo, oi, tvn, ni, 0, 0);
    let nf = nsi.field_names.len() as int;
    assert(actions == spec_struct_actions_prefix(tvo, oi, tvn, ni, nf, 0, 0));
    lemma_struct_actions_windows(tvo, oi, tvn, ni, 0, 0);
    assert forall|q: int| 0 <= q < actions.len() implies action_in_windows(
        #[trigger] actions[q],
        0,
        p.len() as int,
        0,
        size,
    ) by {
        assert(action_in_windows(actions[q], 0, type_size(tvo[oi]), 0, type_size(tvn[ni])));
    }
    lemma_prefix_copy_at(tvo, oi, tvn, ni, nf, j, k, i);
    lemma_copy_at(actions, p, size, i);
    // Field `k`'s own in-place copy covers `i`.
    lemma_kept_step_identity(tvo, oi, tvn, ni, j, k);
    let step = spec_field_action(tvo, osi, oi, tvn, nsi, k, 0, 0);
    assert(action_covers(step[0], i));
    assert(spec_struct_actions_prefix(tvo, oi, tvn, ni, k + 1, 0, 0)
        == spec_struct_actions_prefix(tvo, oi, tvn, ni, k, 0, 0) + step);
    let rlen = spec_struct_actions_prefix(tvo, oi, tvn, ni, k, 0, 0).len() as int;
    assert(spec_struct_actions_prefix(tvo, oi, tvn, ni, k + 1, 0, 0)[rlen] == step[0]);
    lemma_prefix_monotone(tvo, oi, tvn, ni, k + 1, nf, rlen);
    assert(actions[rlen] == step[0]);
    assert(actions_cover(actions, i)) by {
        assert(action_covers(actions[rlen], i));
    }
}

} // verus!
