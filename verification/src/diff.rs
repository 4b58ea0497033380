//! Schema diff: the field-level mapping between the old and the new
//! version of each named struct type.
//!
//! Types are paired by GUID: present in both registries is *retained*,
//! only in the old is *removed*, only in the new is *added*.  Within a
//! retained struct, fields are paired by name; a kept field is copied,
//! converted, or re-initialized according to its old and new types, an
//! added field is zero-initialized, a dropped field is simply not carried
//! over (a dropped reference thereby releases its target).  A kept value
//! struct of the same GUID is migrated field by field, so its actions are
//! flattened here, with shifted offsets.  A field whose memory kind
//! changed between GC and value is re-initialized.

use vstd::prelude::*;
use crate::guid::Guid;
use crate::abi::{
    wf_field, wf_struct_info, wf_type_registry, types_view, FundKind, MemoryKind, StructInfo,
    StructView,
    TypeGroup, TypeGroupView, TypeInfo, TypeView,
};

verus! {

/// One instruction of a struct mapping.  Offsets are absolute within the
/// old and new payloads.
#[derive(Clone, Copy, Debug, Eq, PartialEq, Structural)]
pub enum FieldAction {
    /// The field's bytes are copied unchanged.
    CopyBytes { old_offset: u16, new_offset: u16, size: u16 },
    /// An 8-byte reference slot is carried over; the handle is checked
    /// against removed types during migration.
    CopyHandle { old_offset: u16, new_offset: u16 },
    /// An integer field changed width: sign-extend (signed) or zero-extend
    /// (unsigned) on widening, two's-complement truncate on narrowing.
    ConvertInt { old_offset: u16, old_size: u16, new_offset: u16, new_size: u16, signed: bool },
    /// The slot is zero-initialized: an added field, or a kept field whose
    /// old value has no representation in its new type.
    Zero { new_offset: u16, size: u16 },
}

/// The mapping of one retained struct type: where it sits in each
/// registry, and how to rewrite an instance.
#[derive(Debug)]
pub struct StructMapping {
    pub guid: Guid,
    pub old_index: usize,
    pub new_index: usize,
    pub actions: Vec<FieldAction>,
}

/// Mathematical view of a retained struct's mapping.
pub ghost struct StructMappingView {
    pub guid: Guid,
    pub old_index: usize,
    pub new_index: usize,
    pub actions: Seq<FieldAction>,
}

impl View for StructMapping {
    type V = StructMappingView;

    open spec fn view(&self) -> StructMappingView {
        StructMappingView {
            guid: self.guid,
            old_index: self.old_index,
            new_index: self.new_index,
            actions: self.actions@,
        }
    }
}

/// The whole schema diff: a mapping for every retained struct type, and
/// the old indices of the removed struct types.
#[derive(Debug)]
pub struct Mapping {
    pub retained: Vec<StructMapping>,
    pub removed: Vec<usize>,
}

/// Mathematical view of a schema diff.
pub ghost struct MappingView {
    pub retained: Seq<StructMappingView>,
    pub removed: Seq<usize>,
}

/// The views of a list of retained-struct mappings, in list order.
pub open spec fn retained_views(v: Seq<StructMapping>) -> Seq<StructMappingView> {
    v.map_values(|sm: StructMapping| sm@)
}

impl View for Mapping {
    type V = MappingView;

    open spec fn view(&self) -> MappingView {
        MappingView {
            retained: retained_views(self.retained@),
            removed: self.removed@,
        }
    }
}

/// Whether some type of `types` bears the GUID.
pub open spec fn guid_in(types: Seq<TypeView>, g: Guid) -> bool {
    exists|i: int| 0 <= i < types.len() && types[i].guid == g
}

/// The first index of `types` bearing the GUID, or the length where none
/// does.
pub open spec fn find_guid(types: Seq<TypeView>, g: Guid) -> int
    decreases types.len(),
{
    if types.len() == 0 {
        0
    } else if types[0].guid == g {
        0
    } else {
        1 + find_guid(types.drop_first(), g)
    }
}

/// `find_guid` finds the first occurrence, and finds one exactly when the
/// GUID occurs.
pub proof fn lemma_find_guid(types: Seq<TypeView>, g: Guid)
    ensures
        guid_in(types, g) <==> find_guid(types, g) < types.len(),
        0 <= find_guid(types, g) <= types.len(),
        find_guid(types, g) < types.len() ==> types[find_guid(types, g)].guid == g,
        forall|j: int| 0 <= j < find_guid(types, g) ==> (#[trigger] types[j].guid) != g,
    decreases types.len(),
{
    if types.len() > 0 && types[0].guid != g {
        lemma_find_guid(types.drop_first(), g);
        assert forall|j: int| 0 <= j < find_guid(types, g) implies (#[trigger] types[j].guid)
            != g by {
            if j > 0 {
                assert(types.drop_first()[j - 1].guid != g);
            }
        }
        if guid_in(types, g) {
            let i = choose|i: int| 0 <= i < types.len() && types[i].guid == g;
            assert(types.drop_first()[i - 1].guid == g);
        }
        if find_guid(types, g) < types.len() {
            assert(types[find_guid(types, g)]
                == types.drop_first()[find_guid(types.drop_first(), g)]);
        }
    }
}

/// The first index among the first `k` fields of `si` bearing `name`, or
/// `k` where none does.
pub open spec fn find_field(si: StructView, name: Seq<char>, k: int) -> int
    decreases k,
{
    if k <= 0 {
        0
    } else if find_field(si, name, k - 1) < k - 1 {
        find_field(si, name, k - 1)
    } else if si.field_names[k - 1] == name {
        k - 1
    } else {
        k
    }
}

/// `find_field` finds the first occurrence among the first `k` fields.
pub proof fn lemma_find_field(si: StructView, name: Seq<char>, k: int)
    requires
        0 <= k,
    ensures
        0 <= find_field(si, name, k) <= k,
        find_field(si, name, k) < k ==> si.field_names[find_field(si, name, k)] == name,
        forall|j: int| 0 <= j < find_field(si, name, k) ==> (#[trigger] si.field_names[j])
            != name,
        (exists|j: int| 0 <= j < k && (#[trigger] si.field_names[j]) == name)
            <==> find_field(si, name, k) < k,
    decreases k,
{
    if k > 0 {
        lemma_find_field(si, name, k - 1);
    }
}

/// The instruction for one kept or added field of a retained struct.  The
/// new field `k` sits at `base_new + offset`; where its name also names an
/// old field, the old value is carried over as the two types allow.
pub open spec fn spec_field_action(
    old_types: Seq<TypeView>,
    osi: StructView,
    oi: int,
    new_types: Seq<TypeView>,
    nsi: StructView,
    k: int,
    base_old: int,
    base_new: int,
) -> Seq<FieldAction>
    decreases oi, 0int, 0int,
{
    let name = nsi.field_names[k];
    let new_off = (base_new + nsi.field_offsets[k]) as u16;
    let new_size = nsi.field_sizes[k];
    let j = find_field(osi, name, osi.field_names.len() as int);
    if j >= osi.field_names.len() {
        // Added field: zero-initialize.
        seq![FieldAction::Zero { new_offset: new_off, size: new_size }]
    } else {
        let old_off = (base_old + osi.field_offsets[j]) as u16;
        let old_size = osi.field_sizes[j];
        let oft = osi.field_types[j] as int;
        let nft = nsi.field_types[k] as int;
        if !(0 <= oft < old_types.len() && 0 <= nft < new_types.len()) {
            seq![FieldAction::Zero { new_offset: new_off, size: new_size }]
        } else {
            let ot = old_types[oft];
            let nt = new_types[nft];
            if ot.guid == nt.guid {
                match (ot.group, nt.group) {
                    (TypeGroupView::Fundamental(_), TypeGroupView::Fundamental(_)) => seq![
                        FieldAction::CopyBytes {
                            old_offset: old_off,
                            new_offset: new_off,
                            size: if old_size < new_size {
                                old_size
                            } else {
                                new_size
                            },
                        },
                    ],
                    (TypeGroupView::Struct(ofsi), TypeGroupView::Struct(nfsi)) => {
                        if ofsi.memory_kind is Gc && nfsi.memory_kind is Gc {
                            seq![
                                FieldAction::CopyHandle {
                                    old_offset: old_off,
                                    new_offset: new_off,
                                },
                            ]
                        } else if ofsi.memory_kind is Value && nfsi.memory_kind is Value
                            && 0 <= oft < oi {
                            // A kept value struct is migrated field by
                            // field, flattened at these offsets.
                            spec_struct_actions(
                                old_types,
                                oft,
                                new_types,
                                nft,
                                old_off as int,
                                new_off as int,
                            )
                        } else {
                            // The memory kind changed: re-initialize.
                            seq![FieldAction::Zero { new_offset: new_off, size: new_size }]
                        }
                    },
                    _ => seq![FieldAction::Zero { new_offset: new_off, size: new_size }],
                }
            } else {
                match (ot.group, nt.group) {
                    (
                        TypeGroupView::Fundamental(FundKind::Int { signed, .. }),
                        TypeGroupView::Fundamental(FundKind::Int { .. }),
                    ) => seq![
                        FieldAction::ConvertInt {
                            old_offset: old_off,
                            old_size,
                            new_offset: new_off,
                            new_size,
                            signed,
                        },
                    ],
                    _ => seq![FieldAction::Zero { new_offset: new_off, size: new_size }],
                }
            }
        }
    }
}

/// The instructions for the first `k` new fields of a retained struct.
pub open spec fn spec_struct_actions_prefix(
    old_types: Seq<TypeView>,
    oi: int,
    new_types: Seq<TypeView>,
    ni: int,
    k: int,
    base_old: int,
    base_new: int,
) -> Seq<FieldAction>
    decreases oi, 1int, k,
{
    if !(0 <= oi < old_types.len() && 0 <= ni < new_types.len()) {
        Seq::empty()
    } else {
        match (old_types[oi].group, new_types[ni].group) {
            (TypeGroupView::Struct(osi), TypeGroupView::Struct(nsi)) => {
                if k <= 0 || k > nsi.field_names.len() {
                    Seq::empty()
                } else {
                    spec_struct_actions_prefix(
                        old_types,
                        oi,
                        new_types,
                        ni,
                        k - 1,
                        base_old,
                        base_new,
                    ) + spec_field_action(
                        old_types,
                        osi,
                        oi,
                        new_types,
                        nsi,
                        k - 1,
                        base_old,
                        base_new,
                    )
                }
            },
            _ => Seq::empty(),
        }
    }
}

/// The full instruction list rewriting an instance of the retained struct
/// at `oi` (old registry) into its form at `ni` (new registry).
pub open spec fn spec_struct_actions(
    old_types: Seq<TypeView>,
    oi: int,
    new_types: Seq<TypeView>,
    ni: int,
    base_old: int,
    base_new: int,
) -> Seq<FieldAction>
    decreases oi, 2int, 0int,
{
    if !(0 <= oi < old_types.len() && 0 <= ni < new_types.len()) {
        Seq::empty()
    } else {
        match new_types[ni].group {
            TypeGroupView::Struct(nsi) => spec_struct_actions_prefix(
                old_types,
                oi,
                new_types,
                ni,
                nsi.field_names.len() as int,
                base_old,
                base_new,
            ),
            _ => Seq::empty(),
        }
    }
}

/// The first retained mapping of the given old type index, front to back.
pub open spec fn retained_lookup(
    retained: Seq<StructMappingView>,
    oi: int,
) -> Option<StructMappingView>
    decreases retained.len(),
{
    if retained.len() == 0 {
        None
    } else if retained[0].old_index == oi {
        Some(retained[0])
    } else {
        retained_lookup(retained.drop_first(), oi)
    }
}

/// Whether the removed list holds the old type index.
pub open spec fn removed_contains(removed: Seq<usize>, oi: int) -> bool {
    exists|i: int| 0 <= i < removed.len() && removed[i] == oi
}

/// What a correct diff of the two registries says about old index `oi`:
/// a retained struct carries its new index and instruction list, a
/// removed struct is listed as removed, and a fundamental never migrates.
pub open spec fn mapping_entry_ok(
    m: MappingView,
    old_types: Seq<TypeView>,
    new_types: Seq<TypeView>,
    oi: int,
) -> bool {
    match old_types[oi].group {
        TypeGroupView::Fundamental(_) => retained_lookup(m.retained, oi) is None
            && !removed_contains(m.removed, oi),
        TypeGroupView::Struct(_) => if guid_in(new_types, old_types[oi].guid) {
            let ni = find_guid(new_types, old_types[oi].guid);
            &&& !removed_contains(m.removed, oi)
            &&& retained_lookup(m.retained, oi) == Some(
                StructMappingView {
                    guid: old_types[oi].guid,
                    old_index: oi as usize,
                    new_index: ni as usize,
                    actions: spec_struct_actions(old_types, oi, new_types, ni, 0, 0),
                },
            )
        } else {
            &&& retained_lookup(m.retained, oi) is None
            &&& removed_contains(m.removed, oi)
        },
    }
}

/// A diff is correct about every old type below `n`.
pub open spec fn mapping_ok_upto(
    m: MappingView,
    old_types: Seq<TypeView>,
    new_types: Seq<TypeView>,
    n: int,
) -> bool {
    forall|oi: int| 0 <= oi < n ==> #[trigger] mapping_entry_ok(m, old_types, new_types, oi)
}

/// A diff is correct when it is correct about every old type.
pub open spec fn mapping_ok(
    m: MappingView,
    old_types: Seq<TypeView>,
    new_types: Seq<TypeView>,
) -> bool {
    forall|oi: int| 0 <= oi < old_types.len() ==> #[trigger] mapping_entry_ok(
        m,
        old_types,
        new_types,
        oi,
    )
}


/// Looking a mapping up past entries of other old indices.
proof fn lemma_retained_push(s: Seq<StructMappingView>, e: StructMappingView, x: int)
    ensures
        retained_lookup(s.push(e), x) == (match retained_lookup(s, x) {
            Some(g) => Some(g),
            None => if e.old_index == x {
                Some(e)
            } else {
                None
            },
        }),
    decreases s.len(),
{
    if s.len() == 0 {
        assert(s.push(e).drop_first() =~= s);
    } else {
        assert(s.push(e).drop_first() =~= s.drop_first().push(e));
        lemma_retained_push(s.drop_first(), e, x);
    }
}

/// First index of `types` bearing the GUID, as an executable search.
pub(crate) fn find_guid_in(types: &Vec<TypeInfo>, g: &Guid) -> (r: usize)
    ensures
        r as int == find_guid(types_view(types@), *g),
{
    let ghost tv = types_view(types@);
    proof {
        lemma_find_guid(tv, *g);
    }
    let n = types.len();
    let mut i: usize = 0;
    while i < n
        invariant
            tv == types_view(types@),
            n == types@.len(),
            0 <= i <= n,
            forall|j: int| 0 <= j < i ==> (#[trigger] tv[j].guid) != *g,
            0 <= find_guid(tv, *g) <= tv.len(),
            forall|j: int| 0 <= j < find_guid(tv, *g) ==> (#[trigger] tv[j].guid) != *g,
            find_guid(tv, *g) < tv.len() ==> tv[find_guid(tv, *g)].guid == *g,
        decreases n - i,
    {
        proof {
            assert(tv[i as int] == types@[i as int]@);
        }
        if types[i].guid.value == g.value {
            proof {
                assert(tv[i as int].guid == *g);
                if find_guid(tv, *g) < i as int {
                    assert(tv[find_guid(tv, *g)].guid == *g);
                    assert(false);
                }
                if find_guid(tv, *g) > i as int {
                    assert(tv[i as int].guid != *g);
                    assert(false);
                }
            }
            return i;
        }
        i = i + 1;
    }
    proof {
        if find_guid(tv, *g) < tv.len() {
            assert(tv[find_guid(tv, *g)].guid == *g);
            assert(false);
        }
    }
    n
}

/// First field of `si` bearing `name`, as an executable search.
fn find_field_in(si: &StructInfo, name: &String) -> (r: usize)
    ensures
        r as int == find_field(si@, name@, si@.field_names.len() as int),
{
    let ghost sv = si@;
    let ghost m = sv.field_names.len() as int;
    proof {
        lemma_find_field(sv, name@, m);
    }
    let n = si.field_names.len();
    let mut i: usize = 0;
    while i < n
        invariant
            sv == si@,
            m == sv.field_names.len() as int,
            n as int == m,
            0 <= i <= n,
            forall|j: int| 0 <= j < i ==> (#[trigger] sv.field_names[j]) != name@,
            0 <= find_field(sv, name@, m) <= m,
            forall|j: int| 0 <= j < find_field(sv, name@, m) ==> (
            #[trigger] sv.field_names[j]) != name@,
            find_field(sv, name@, m) < m ==> sv.field_names[find_field(sv, name@, m)]
                == name@,
        decreases n - i,
    {
        proof {
            assert(sv.field_names[i as int] == si.field_names@.map_values(
                |s: String| s@,
            )[i as int]);
        }
        if si.field_names[i] == *name {
            proof {
                assert(sv.field_names[i as int] == name@);
                if find_field(sv, name@, m) < i as int {
                    assert(sv.field_names[find_field(sv, name@, m)] == name@);
                    assert(false);
                }
                if find_field(sv, name@, m) > i as int {
                    assert(sv.field_names[i as int] != name@);
                    assert(false);
                }
            }
            return i;
        }
        i = i + 1;
    }
    proof {
        if find_field(sv, name@, m) < m {
            assert(sv.field_names[find_field(sv, name@, m)] == name@);
            assert(false);
        }
    }
    n
}

/// Appends to `out` the instruction list rewriting an instance of the
/// retained struct at `oi` into its form at `ni`, fields at `base_old` /
/// `base_new`.
fn push_struct_actions(
    old_types: &Vec<TypeInfo>,
    oi: usize,
    new_types: &Vec<TypeInfo>,
    ni: usize,
    base_old: u16,
    base_new: u16,
    out: &mut Vec<FieldAction>,
)
    requires
        wf_type_registry(types_view(old_types@)),
        wf_type_registry(types_view(new_types@)),
        oi < old_types@.len(),
        ni < new_types@.len(),
        old_types@[oi as int]@.group is Struct,
        new_types@[ni as int]@.group is Struct,
        base_old + old_types@[oi as int]@.group->Struct_0.size <= u16::MAX,
        base_new + new_types@[ni as int]@.group->Struct_0.size <= u16::MAX,
    ensures
        final(out)@ == old(out)@ + spec_struct_actions(
            types_view(old_types@),
            oi as int,
            types_view(new_types@),
            ni as int,
            base_old as int,
            base_new as int,
        ),
    decreases oi,
{
    let ghost tvo = types_view(old_types@);
    let ghost tvn = types_view(new_types@);
    proof {
        assert(tvo[oi as int] == old_types@[oi as int]@);
        assert(tvn[ni as int] == new_types@[ni as int]@);
    }
    let osi = match &old_types[oi].group {
        TypeGroup::Struct(s) => s,
        TypeGroup::Fundamental(_) => {
            proof {
                assert(false);
            }
            return ;
        },
    };
    let nsi = match &new_types[ni].group {
        TypeGroup::Struct(s) => s,
        TypeGroup::Fundamental(_) => {
            proof {
                assert(false);
            }
            return ;
        },
    };
    proof {
        assert(wf_struct_info(nsi@, tvn, ni as int));
        assert(wf_struct_info(osi@, tvo, oi as int));
    }
    let nf = nsi.field_names.len();
    let mut k: usize = 0;
    while k < nf
        invariant
            wf_type_registry(tvo),
            wf_type_registry(tvn),
            tvo == types_view(old_types@),
            tvn == types_view(new_types@),
            oi < old_types@.len(),
            ni < new_types@.len(),
            tvo[oi as int].group == TypeGroupView::Struct(osi@),
            tvn[ni as int].group == TypeGroupView::Struct(nsi@),
            wf_struct_info(osi@, tvo, oi as int),
            wf_struct_info(nsi@, tvn, ni as int),
            base_old + osi@.size <= u16::MAX,
            base_new + nsi@.size <= u16::MAX,
            nf == nsi.field_names@.len(),
            nf == nsi@.field_names.len(),
            0 <= k <= nf,
            out@ == old(out)@ + spec_struct_actions_prefix(
                tvo,
                oi as int,
                tvn,
                ni as int,
                k as int,
                base_old as int,
                base_new as int,
            ),
        decreases oi, 1int, nf - k,
    {
        let ghost stepv = spec_field_action(
            tvo,
            osi@,
            oi as int,
            tvn,
            nsi@,
            k as int,
            base_old as int,
            base_new as int,
        );
        proof {
            assert(wf_field(nsi@, tvn, ni as int, k as int));
            assert(nsi@.field_offsets[k as int] + nsi@.field_sizes[k as int] <= nsi@.size);
            assert(nsi@.field_names[k as int] == nsi.field_names@.map_values(
                |s: String| s@,
            )[k as int]);
        }
        let name = &nsi.field_names[k];
        let new_off: u16 = base_new + nsi.field_offsets[k];
        let new_size: u16 = nsi.field_sizes[k];
        let j = find_field_in(osi, name);
        let ghost before = out@;
        if j >= osi.field_names.len() {
            out.push(FieldAction::Zero { new_offset: new_off, size: new_size });
        } else {
            proof {
                assert(wf_field(osi@, tvo, oi as int, j as int));
                assert(osi@.field_offsets[j as int] + osi@.field_sizes[j as int]
                    <= osi@.size);
            }
            let old_off: u16 = base_old + osi.field_offsets[j];
            let old_size: u16 = osi.field_sizes[j];
            let oft = osi.field_types[j];
            let nft = nsi.field_types[k];
            proof {
                assert(tvo[oft as int] == old_types@[oft as int]@);
                assert(tvn[nft as int] == new_types@[nft as int]@);
            }
            if old_types[oft].guid.value == new_types[nft].guid.value {
                proof {
                    assert(tvo[oft as int].guid == tvn[nft as int].guid);
                }
                match (&old_types[oft].group, &new_types[nft].group) {
                    (TypeGroup::Fundamental(_), TypeGroup::Fundamental(_)) => {
                        out.push(FieldAction::CopyBytes {
                            old_offset: old_off,
                            new_offset: new_off,
                            size: if old_size < new_size {
                                old_size
                            } else {
                                new_size
                            },
                        });
                    },
                    (TypeGroup::Struct(ofsi), TypeGroup::Struct(nfsi)) => {
                        let o_gc = matches!(ofsi.memory_kind, MemoryKind::Gc);
                        let n_gc = matches!(nfsi.memory_kind, MemoryKind::Gc);
                        if o_gc && n_gc {
                            out.push(FieldAction::CopyHandle {
                                old_offset: old_off,
                                new_offset: new_off,
                            });
                        } else if !o_gc && !n_gc && oft < oi {
                            proof {
                                assert(osi@.field_sizes[j as int] == ofsi@.size);
                                assert(nsi@.field_sizes[k as int] == nfsi@.size);
                            }
                            push_struct_actions(
                                old_types,
                                oft,
                                new_types,
                                nft,
                                old_off,
                                new_off,
                                out,
                            );
                        } else {
                            out.push(FieldAction::Zero { new_offset: new_off, size: new_size });
                        }
                    },
                    _ => {
                        out.push(FieldAction::Zero { new_offset: new_off, size: new_size });
                    },
                }
            } else {
                match (&old_types[oft].group, &new_types[nft].group) {
                    (
                        TypeGroup::Fundamental(FundKind::Int { signed, .. }),
                        TypeGroup::Fundamental(FundKind::Int { .. }),
                    ) => {
                        out.push(FieldAction::ConvertInt {
                            old_offset: old_off,
                            old_size,
                            new_offset: new_off,
                            new_size,
                            signed: *signed,
                        });
                    },
                    _ => {
                        out.push(FieldAction::Zero { new_offset: new_off, size: new_size });
                    },
                }
            }
        }
        proof {
            assert(out@ =~= before + stepv);
            assert(out@ =~= old(out)@ + spec_struct_actions_prefix(
                tvo,
                oi as int,
                tvn,
                ni as int,
                k + 1 as int,
                base_old as int,
                base_new as int,
            ));
        }
        k = k + 1;
    }
    proof {
        assert(spec_struct_actions_prefix(
            tvo,
            oi as int,
            tvn,
            ni as int,
            nf as int,
            base_old as int,
            base_new as int,
        ) == spec_struct_actions(
            tvo,
            oi as int,
            tvn,
            ni as int,
            base_old as int,
            base_new as int,
        ));
    }
}

/// Computes the field-level mapping between the old and new registries:
/// a mapping for every retained struct type, a removal record for every
/// struct type only the old registry holds.
pub fn diff(old_types: &Vec<TypeInfo>, new_types: &Vec<TypeInfo>) -> (m: Mapping)
    requires
        wf_type_registry(types_view(old_types@)),
        wf_type_registry(types_view(new_types@)),
    ensures
        mapping_ok(m@, types_view(old_types@), types_view(new_types@)),
{
    let ghost tvo = types_view(old_types@);
    let ghost tvn = types_view(new_types@);
    let mut retained: Vec<StructMapping> = Vec::new();
    let mut removed: Vec<usize> = Vec::new();
    let n = old_types.len();
    let mut oi: usize = 0;
    while oi < n
        invariant
            wf_type_registry(tvo),
            wf_type_registry(tvn),
            tvo == types_view(old_types@),
            tvn == types_view(new_types@),
            n == old_types@.len(),
            0 <= oi <= n,
            forall|e: int| 0 <= e < retained@.len() ==> (
            #[trigger] retained@[e]@.old_index) < oi,
            forall|e: int| 0 <= e < removed@.len() ==> (#[trigger] removed@[e]) < oi,
            mapping_ok_upto(
                MappingView {
                    retained: retained_views(retained@),
                    removed: removed@,
                },
                tvo,
                tvn,
                oi as int,
            ),
        decreases n - oi,
    {
        let ghost mv0 = MappingView {
            retained: retained_views(retained@),
            removed: removed@,
        };
        proof {
            assert(tvo[oi as int] == old_types@[oi as int]@);
        }
        match &old_types[oi].group {
            TypeGroup::Fundamental(_) => {
                proof {
                    assert forall|x: int| 0 <= x < oi + 1 implies #[trigger] mapping_entry_ok(
                        mv0,
                        tvo,
                        tvn,
                        x,
                    ) by {
                        if x == oi as int {
                            assert forall|e: int| 0 <= e < mv0.retained.len() implies (
                            #[trigger] mv0.retained[e].old_index) != x by {
                                assert(mv0.retained[e] == retained@[e]@);
                            }
                            lemma_retained_none(mv0.retained, x);
                        } else {
                            assert(mapping_ok_upto(mv0, tvo, tvn, oi as int));
                        }
                    }
                    assert(mapping_ok_upto(mv0, tvo, tvn, oi + 1));
                }
            },
            TypeGroup::Struct(_) => {
                let g = old_types[oi].guid;
                let ni = find_guid_in(new_types, &g);
                proof {
                    lemma_find_guid(tvn, g);
                }
                if ni < new_types.len() {
                    proof {
                        assert(tvn[ni as int] == new_types@[ni as int]@);
                    }
                    let mut actions: Vec<FieldAction> = Vec::new();
                    match &new_types[ni].group {
                        TypeGroup::Struct(_) => {
                            push_struct_actions(old_types, oi, new_types, ni, 0, 0, &mut actions);
                        },
                        TypeGroup::Fundamental(_) => {
                            // A GUID that now names a fundamental: no
                            // per-instance work is defined for it.
                        },
                    }
                    let entry = StructMapping { guid: g, old_index: oi, new_index: ni, actions };
                    proof {
                        assert(entry@.actions =~= spec_struct_actions(
                            tvo,
                            oi as int,
                            tvn,
                            ni as int,
                            0,
                            0,
                        ));
                    }
                    let ghost ev = entry@;
                    retained.push(entry);
                    proof {
                        let rv = retained_views(retained@);
                        assert(rv =~= mv0.retained.push(ev));
                        let mv1 = MappingView { retained: rv, removed: removed@ };
                        assert forall|x: int| 0 <= x < oi + 1 implies #[trigger] mapping_entry_ok(
                            mv1,
                            tvo,
                            tvn,
                            x,
                        ) by {
                            lemma_retained_push(mv0.retained, ev, x);
                            if x == oi as int {
                                assert forall|e: int| 0 <= e < mv0.retained.len() implies (
                                #[trigger] mv0.retained[e].old_index) != x by {
                                    assert(mv0.retained[e]
                                        == retained@.subrange(0, retained@.len() - 1)[e]@);
                                }
                                lemma_retained_none(mv0.retained, x);
                            } else {
                                assert(mapping_ok_upto(mv0, tvo, tvn, oi as int));
                                assert(mapping_entry_ok(mv0, tvo, tvn, x));
                            }
                        }
                        assert(mapping_ok_upto(mv1, tvo, tvn, oi + 1));
                    }
                } else {
                    removed.push(oi);
                    proof {
                        let mv1 = MappingView {
                            retained: retained_views(retained@),
                            removed: removed@,
                        };
                        assert(removed@ =~= mv0.removed.push(oi));
                        assert(removed@[mv0.removed.len() as int] == oi);
                        assert forall|x: int| 0 <= x < oi + 1 implies #[trigger] mapping_entry_ok(
                            mv1,
                            tvo,
                            tvn,
                            x,
                        ) by {
                            assert forall|x2: int| 0 <= x2 < oi && removed_contains(
                                mv1.removed,
                                x2,
                            ) implies removed_contains(mv0.removed, x2) by {
                                let e = choose|e: int| 0 <= e < mv1.removed.len()
                                    && mv1.removed[e] == x2;
                                assert(mv0.removed[e] == x2);
                            }
                            assert forall|x2: int| removed_contains(
                                mv0.removed,
                                x2,
                            ) implies removed_contains(mv1.removed, x2) by {
                                let e = choose|e: int| 0 <= e < mv0.removed.len()
                                    && mv0.removed[e] == x2;
                                assert(mv1.removed[e] == x2);
                            }
                            if x == oi as int {
                                assert forall|e: int| 0 <= e < mv1.retained.len() implies (
                                #[trigger] mv1.retained[e].old_index) != x by {
                                    assert(mv1.retained[e] == retained@[e]@);
                                }
                                lemma_retained_none(mv1.retained, x);
                                assert(removed_contains(mv1.removed, x));
                            } else {
                                assert(mapping_ok_upto(mv0, tvo, tvn, oi as int));
                                assert(mapping_entry_ok(mv0, tvo, tvn, x));
                            }
                        }
                        assert(mapping_ok_upto(mv1, tvo, tvn, oi + 1));
                    }
                }
            },
        }
        oi = oi + 1;
    }
    Mapping { retained, removed }
}

/// Where every mapping bears a smaller old index, lookup finds nothing.
proof fn lemma_retained_none(s: Seq<StructMappingView>, x: int)
    requires
        forall|e: int| 0 <= e < s.len() ==> (#[trigger] s[e].old_index) != x,
    ensures
        retained_lookup(s, x) is None,
    decreases s.len(),
{
    if s.len() > 0 {
        lemma_retained_none(s.drop_first(), x);
    }
}

} // verus!
