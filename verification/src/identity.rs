//! Type identity across artifacts.
//!
//! A GUID uniquely determines a type's semantics.  Two descriptors with
//! equal GUIDs in two loaded artifacts must therefore agree: on their
//! group, and for structs on their field count, their alignment and the
//! ordered list of field names and field-type GUIDs.  The checker here
//! decides that condition for two artifacts' type lists.

use vstd::prelude::*;
use crate::abi::{
    types_view, wf_struct_info, wf_type_registry, StructView, TypeGroup, TypeGroupView,
    TypeInfo, TypeView,
};

verus! {

/// Two struct descriptors, each read in its own registry, present the
/// same schema: equal field count, equal alignment, and the same ordered
/// list of field names and field-type GUIDs.
pub open spec fn struct_schema_eq(
    sa: StructView,
    ta: Seq<TypeView>,
    sb: StructView,
    tb: Seq<TypeView>,
) -> bool {
    &&& sa.field_names.len() == sb.field_names.len()
    &&& sa.alignment == sb.alignment
    &&& forall|i: int| 0 <= i < sa.field_names.len() ==> (#[trigger] sa.field_names[i])
        == sb.field_names[i]
    &&& forall|i: int| 0 <= i < sa.field_names.len() ==> ta[(
    #[trigger] sa.field_types[i]) as int].guid == tb[sb.field_types[i] as int].guid
}

/// Two type descriptors with equal GUIDs agree on their semantics.
pub open spec fn type_schema_compatible(
    ta: Seq<TypeView>,
    i: int,
    tb: Seq<TypeView>,
    j: int,
) -> bool {
    match (ta[i].group, tb[j].group) {
        (TypeGroupView::Fundamental(ka), TypeGroupView::Fundamental(kb)) => ka == kb,
        (TypeGroupView::Struct(sa), TypeGroupView::Struct(sb)) => struct_schema_eq(
            sa,
            ta,
            sb,
            tb,
        ),
        _ => false,
    }
}

/// In every pair of one type from each registry, equal GUIDs imply equal
/// schemas.  This is what every artifact the code generator emits must
/// satisfy against every other loaded artifact.
pub open spec fn registries_identity_consistent(ta: Seq<TypeView>, tb: Seq<TypeView>) -> bool {
    forall|i: int, j: int| 0 <= i < ta.len() && 0 <= j < tb.len() && ta[i].guid == tb[j].guid
        ==> #[trigger] type_schema_compatible(ta, i, tb, j)
}

/// Decides whether one pair of descriptors is schema-compatible.
fn check_pair(
    a_types: &Vec<TypeInfo>,
    i: usize,
    b_types: &Vec<TypeInfo>,
    j: usize,
) -> (r: bool)
    requires
        wf_type_registry(types_view(a_types@)),
        wf_type_registry(types_view(b_types@)),
        i < a_types@.len(),
        j < b_types@.len(),
    ensures
        r == type_schema_compatible(types_view(a_types@), i as int, types_view(b_types@), j as int),
{
    let ghost ta = types_view(a_types@);
    let ghost tb = types_view(b_types@);
    proof {
        assert(ta[i as int] == a_types@[i as int]@);
        assert(tb[j as int] == b_types@[j as int]@);
    }
    match (&a_types[i].group, &b_types[j].group) {
        (TypeGroup::Fundamental(ka), TypeGroup::Fundamental(kb)) => *ka == *kb,
        (TypeGroup::Struct(sa), TypeGroup::Struct(sb)) => {
            proof {
                assert(wf_struct_info(sa@, ta, i as int));
                assert(wf_struct_info(sb@, tb, j as int));
            }
            if sa.field_names.len() != sb.field_names.len() {
                return false;
            }
            if sa.alignment != sb.alignment {
                return false;
            }
            let n = sa.field_names.len();
            let mut k: usize = 0;
            while k < n
                invariant
                    ta == types_view(a_types@),
                    tb == types_view(b_types@),
                    i < a_types@.len(),
                    j < b_types@.len(),
                    ta[i as int].group == TypeGroupView::Struct(sa@),
                    tb[j as int].group == TypeGroupView::Struct(sb@),
                    wf_struct_info(sa@, ta, i as int),
                    wf_struct_info(sb@, tb, j as int),
                    n == sa.field_names@.len(),
                    n == sb.field_names@.len(),
                    0 <= k <= n,
                    forall|q: int| 0 <= q < k ==> (#[trigger] sa@.field_names[q])
                        == sb@.field_names[q],
                    forall|q: int| 0 <= q < k ==> ta[(#[trigger] sa@.field_types[q]) as int].guid
                        == tb[sb@.field_types[q] as int].guid,
                decreases n - k,
            {
                proof {
                    assert(crate::abi::wf_field(sa@, ta, i as int, k as int));
                    assert(crate::abi::wf_field(sb@, tb, j as int, k as int));
                    assert(sa@.field_names[k as int] == sa.field_names@[k as int]@);
                    assert(sb@.field_names[k as int] == sb.field_names@[k as int]@);
                }
                if !(sa.field_names[k] == sb.field_names[k]) {
                    return false;
                }
                let fa = sa.field_types[k];
                let fb = sb.field_types[k];
                proof {
                    assert(ta[fa as int] == a_types@[fa as int]@);
                    assert(tb[fb as int] == b_types@[fb as int]@);
                }
                if a_types[fa].guid.value != b_types[fb].guid.value {
                    return false;
                }
                k = k + 1;
            }
            true
        },
        _ => false,
    }
}

/// Decides whether two artifacts' type lists satisfy the identity
/// requirement: every pair of descriptors with equal GUIDs presents the
/// same schema.  A loader may hold every new artifact to this against
/// each artifact already loaded.
pub fn check_type_identity(a_types: &Vec<TypeInfo>, b_types: &Vec<TypeInfo>) -> (r: bool)
    requires
        wf_type_registry(types_view(a_types@)),
        wf_type_registry(types_view(b_types@)),
    ensures
        r == registries_identity_consistent(types_view(a_types@), types_view(b_types@)),
{
    let ghost ta = types_view(a_types@);
    let ghost tb = types_view(b_types@);
    let na = a_types.len();
    let nb = b_types.len();
    let mut i: usize = 0;
    while i < na
        invariant
            ta == types_view(a_types@),
            tb == types_view(b_types@),
            wf_type_registry(ta),
            wf_type_registry(tb),
            na == ta.len(),
            nb == tb.len(),
            0 <= i <= na,
            forall|x: int, y: int| 0 <= x < i && 0 <= y < nb && ta[x].guid == tb[y].guid
                ==> #[trigger] type_schema_compatible(ta, x, tb, y),
        decreases na - i,
    {
        let mut j: usize = 0;
        while j < nb
            invariant
                ta == types_view(a_types@),
                tb == types_view(b_types@),
                wf_type_registry(ta),
                wf_type_registry(tb),
                na == ta.len(),
                nb == tb.len(),
                i < na,
                0 <= j <= nb,
                forall|x: int, y: int| 0 <= x < i && 0 <= y < nb && ta[x].guid == tb[y].guid
                    ==> #[trigger] type_schema_compatible(ta, x, tb, y),
                forall|y: int| 0 <= y < j && ta[i as int].guid == tb[y].guid
                    ==> #[trigger] type_schema_compatible(ta, i as int, tb, y),
            decreases nb - j,
        {
            proof {
                assert(ta[i as int] == a_types@[i as int]@);
                assert(tb[j as int] == b_types@[j as int]@);
            }
            if a_types[i].guid.value == b_types[j].guid.value {
                if !check_pair(a_types, i, b_types, j) {
                    return false;
                }
            }
            j = j + 1;
        }
        i = i + 1;
    }
    true
}

} // verus!
