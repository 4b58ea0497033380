//! The garbage collector: a stop-the-world mark-and-sweep allocator for
//! all language-visible heap objects.
//!
//! An object is a typed payload of bytes.  The host and other objects hold
//! *handles*: indices into the collector's object table, stable across
//! collections and migrations.  A reference field holds, as an 8-byte
//! little-endian slot, either 0 (null) or one plus the handle of the
//! referenced object.  Collection frees exactly the objects no root
//! reaches.

use vstd::prelude::*;
use crate::abi::{
    type_size, wf_field, wf_struct_info, wf_type_registry, types_view, MemoryKind, StructView,
    TypeGroup, TypeGroupView, TypeInfo, TypeView,
};

verus! {

/// The value of an `n`-byte little-endian unsigned integer at `off`.
pub open spec fn le_bytes(p: Seq<u8>, off: int, n: nat) -> int
    decreases n,
{
    if n == 0 {
        0
    } else {
        p[off] + 256 * le_bytes(p, off + 1, (n - 1) as nat)
    }
}

/// The value of the 8-byte reference slot at `off`: 0 for null, one plus
/// the referenced handle otherwise.
pub open spec fn slot_value(p: Seq<u8>, off: int) -> int {
    le_bytes(p, off, 8)
}

/// 256 to the `n`th power.
pub open spec fn pow256(n: nat) -> int
    decreases n,
{
    if n == 0 {
        1
    } else {
        256 * pow256((n - 1) as nat)
    }
}

/// The concrete powers of 256 the byte loops reason with.
pub proof fn lemma_pow256_values()
    ensures
        pow256(0) == 1,
        pow256(1) == 0x100,
        pow256(2) == 0x1_0000,
        pow256(3) == 0x100_0000,
        pow256(4) == 0x1_0000_0000,
        pow256(5) == 0x100_0000_0000,
        pow256(6) == 0x1_0000_0000_0000,
        pow256(7) == 0x100_0000_0000_0000,
        pow256(8) == 0x1_0000_0000_0000_0000,
{
    assert(pow256(1) == 256 * pow256(0));
    assert(pow256(2) == 256 * pow256(1));
    assert(pow256(3) == 256 * pow256(2));
    assert(pow256(4) == 256 * pow256(3));
    assert(pow256(5) == 256 * pow256(4));
    assert(pow256(6) == 256 * pow256(5));
    assert(pow256(7) == 256 * pow256(6));
    assert(pow256(8) == 256 * pow256(7));
}

/// A little-endian value of `n` bytes is below `256^n`.
pub proof fn lemma_le_bytes_bound(p: Seq<u8>, off: int, n: nat)
    requires
        0 <= off,
        off + n <= p.len(),
    ensures
        0 <= le_bytes(p, off, n) < pow256(n),
    decreases n,
{
    if n > 0 {
        lemma_le_bytes_bound(p, off + 1, (n - 1) as nat);
    }
}

/// The offsets, relative to `base`, of every 8-byte reference slot in a
/// value of type `ti`: its own GC-struct fields, and recursively those of
/// its value-struct fields.  (The guard `ft < ti` is vacuous for a
/// well-formed registry, where value containment descends the type list.)
pub open spec fn type_gc_offsets(types: Seq<TypeView>, ti: int, base: int) -> Seq<int>
    decreases ti, 1int, 0int,
{
    if 0 <= ti < types.len() {
        match types[ti].group {
            TypeGroupView::Fundamental(_) => Seq::empty(),
            TypeGroupView::Struct(si) => struct_gc_offsets(
                types,
                si,
                ti,
                si.field_names.len() as int,
                base,
            ),
        }
    } else {
        Seq::empty()
    }
}

/// The reference-slot offsets contributed by the first `k` fields of a
/// struct descriptor.
pub open spec fn struct_gc_offsets(
    types: Seq<TypeView>,
    si: StructView,
    ti: int,
    k: int,
    base: int,
) -> Seq<int>
    decreases ti, 0int, k,
{
    if k <= 0 || k > si.field_types.len() {
        Seq::empty()
    } else {
        let rest = struct_gc_offsets(types, si, ti, k - 1, base);
        let ft = si.field_types[k - 1] as int;
        let off = base + si.field_offsets[k - 1];
        rest + (if 0 <= ft < types.len() {
            match types[ft].group {
                TypeGroupView::Struct(fsi) => if fsi.memory_kind is Gc {
                    seq![off]
                } else if ft < ti {
                    type_gc_offsets(types, ft, off)
                } else {
                    Seq::empty()
                },
                TypeGroupView::Fundamental(_) => Seq::empty(),
            }
        } else {
            Seq::empty()
        })
    }
}

/// A heap allocation: the object's type, as an index into the collector's
/// type registry, and its payload bytes.
#[derive(Debug)]
pub struct HeapObject {
    pub type_index: usize,
    pub payload: Vec<u8>,
}

/// Mathematical view of a heap allocation.
pub ghost struct ObjView {
    pub type_index: usize,
    pub payload: Seq<u8>,
}

impl View for HeapObject {
    type V = ObjView;

    open spec fn view(&self) -> ObjView {
        ObjView { type_index: self.type_index, payload: self.payload@ }
    }
}

/// The views of the object table: one entry per handle, `None` where the
/// object was freed or its type removed.
pub open spec fn objects_view(objects: Seq<Option<HeapObject>>) -> Seq<Option<ObjView>> {
    objects.map_values(|o: Option<HeapObject>| match o {
        Some(ob) => Some(ob@),
        None => None,
    })
}

/// The object at handle `a` holds a reference to handle `b` in one of its
/// reference slots.
pub open spec fn points_to(types: Seq<TypeView>, o: ObjView, b: int) -> bool {
    exists|k: int| 0 <= k < type_gc_offsets(types, o.type_index as int, 0).len()
        && slot_value(o.payload, #[trigger] type_gc_offsets(types, o.type_index as int, 0)[k])
        == b + 1
}

/// Both handles are live and `a`'s object references `b`'s.
pub open spec fn edge(
    types: Seq<TypeView>,
    objects: Seq<Option<ObjView>>,
    a: int,
    b: int,
) -> bool {
    &&& 0 <= a < objects.len() && objects[a] is Some
    &&& 0 <= b < objects.len() && objects[b] is Some
    &&& points_to(types, objects[a]->Some_0, b)
}

/// Handle `h` is a root: the host holds it and its object is live.
pub open spec fn is_root(objects: Seq<Option<ObjView>>, roots: Seq<bool>, h: int) -> bool {
    &&& 0 <= h < objects.len()
    &&& roots[h]
    &&& objects[h] is Some
}

/// Handle `b` is reachable from a root by a path of at most `n` edges.
pub open spec fn reachable_in(
    types: Seq<TypeView>,
    objects: Seq<Option<ObjView>>,
    roots: Seq<bool>,
    b: int,
    n: nat,
) -> bool
    decreases n,
{
    if n == 0 {
        is_root(objects, roots, b)
    } else {
        reachable_in(types, objects, roots, b, (n - 1) as nat) || exists|a: int|
            reachable_in(types, objects, roots, a, (n - 1) as nat) && #[trigger] edge(
            types,
            objects,
            a,
            b,
        )
    }
}

/// Handle `b` is reachable from a root.
pub open spec fn reachable(
    types: Seq<TypeView>,
    objects: Seq<Option<ObjView>>,
    roots: Seq<bool>,
    b: int,
) -> bool {
    exists|n: nat| reachable_in(types, objects, roots, b, n)
}

/// The mark-and-sweep collector.  It owns the current type registry, the
/// object table and the host's root flags.
#[derive(Debug)]
pub struct GarbageCollector {
    pub types: Vec<TypeInfo>,
    pub objects: Vec<Option<HeapObject>>,
    pub roots: Vec<bool>,
}

impl GarbageCollector {
    /// The views of the registry's type descriptors.
    pub open spec fn types_v(self) -> Seq<TypeView> {
        types_view(self.types@)
    }

    /// The views of the object table.
    pub open spec fn objects_v(self) -> Seq<Option<ObjView>> {
        objects_view(self.objects@)
    }

    /// Well-formedness: the registry is well formed, there is one root
    /// flag per handle, and every live object's payload has exactly its
    /// type's size.
    pub open spec fn wf(self) -> bool {
        &&& wf_type_registry(self.types_v())
        &&& self.roots@.len() == self.objects_v().len()
        &&& forall|h: int| 0 <= h < self.objects_v().len() ==> (match #[trigger] self.objects_v()[h] {
            Some(o) => o.type_index < self.types_v().len() && o.payload.len() == type_size(
                self.types_v()[o.type_index as int],
            ),
            None => true,
        })
    }

    /// A collector with the given type registry and no objects.
    pub fn new(types: Vec<TypeInfo>) -> (r: GarbageCollector)
        requires
            wf_type_registry(types_view(types@)),
        ensures
            r.wf(),
            r.types_v() == types_view(types@),
            r.objects_v().len() == 0,
    {
        GarbageCollector { types, objects: Vec::new(), roots: Vec::new() }
    }

    /// Allocates a zero-initialized object of the given type and hands the
    /// host a handle to it, rooted until released.
    pub fn allocate(&mut self, type_index: usize) -> (h: usize)
        requires
            old(self).wf(),
            type_index < old(self).types_v().len(),
        ensures
            final(self).wf(),
            final(self).types_v() == old(self).types_v(),
            h == old(self).objects_v().len(),
            final(self).objects_v() == old(self).objects_v().push(
                Some(
                    ObjView {
                        type_index,
                        payload: Seq::new(
                            type_size(old(self).types_v()[type_index as int]) as nat,
                            |i: int| 0u8,
                        ),
                    },
                ),
            ),
            final(self).roots@ == old(self).roots@.push(true),
    {
        let size = self.types[type_index].size_in_bytes();
        let payload: Vec<u8> = vec![0u8; size as usize];
        let h = self.objects.len();
        proof {
            assert(payload@ =~= Seq::new(
                type_size(self.types_v()[type_index as int]) as nat,
                |i: int| 0u8,
            ));
        }
        self.objects.push(Some(HeapObject { type_index, payload }));
        self.roots.push(true);
        proof {
            assert(self.objects_v() =~= old(self).objects_v().push(
                Some(self.objects@[h as int]->Some_0@),
            ));
        }
        h
    }

    /// Sets or clears the host's root flag of a handle.
    pub fn set_root(&mut self, h: usize, rooted: bool)
        requires
            old(self).wf(),
            h < old(self).roots@.len(),
        ensures
            final(self).wf(),
            final(self).types_v() == old(self).types_v(),
            final(self).objects_v() == old(self).objects_v(),
            final(self).roots@ == old(self).roots@.update(h as int, rooted),
    {
        self.roots[h] = rooted;
    }


    /// Mark-and-sweep collection.  Frees exactly the objects unreachable
    /// from the host's roots; everything reachable keeps its handle, its
    /// type and its payload bytes.
    pub fn collect(&mut self)
        requires
            old(self).wf(),
        ensures
            final(self).wf(),
            final(self).types_v() == old(self).types_v(),
            final(self).roots@ == old(self).roots@,
            final(self).objects_v().len() == old(self).objects_v().len(),
            forall|h: int| 0 <= h < old(self).objects_v().len() ==> final(self).objects_v()[h]
                == (if reachable(
                old(self).types_v(),
                old(self).objects_v(),
                old(self).roots@,
                h,
            ) {
                old(self).objects_v()[h]
            } else {
                None::<ObjView>
            }),
    {
        let ghost tv = self.types_v();
        let ghost objs = self.objects_v();
        let ghost rts = self.roots@;
        let n = self.objects.len();
        let mut marked: Vec<bool> = vec![false; n];
        let mut queue: Vec<usize> = Vec::new();

        // Mark the roots.
        let mut h: usize = 0;
        while h < n
            invariant
                *self == *old(self),
                old(self).wf(),
                tv == self.types_v(),
                objs == self.objects_v(),
                rts == self.roots@,
                n == objs.len(),
                n == self.objects@.len(),
                marked@.len() == n,
                0 <= h <= n,
                forall|j: int| 0 <= j < h && is_root(objs, rts, j) ==> marked@[j],
                forall|j: int| 0 <= j < n && marked@[j] ==> is_root(objs, rts, j),
                forall|j: int| 0 <= j < n && marked@[j] ==> in_queue(queue@, j),
                forall|i: int| 0 <= i < queue@.len() ==> (#[trigger] queue@[i]) < n
                    && marked@[queue@[i] as int] && objs[queue@[i] as int] is Some,
                forall|i: int, j: int| 0 <= i < j < queue@.len() ==> queue@[i] != queue@[j],
            decreases n - h,
        {
            proof {
                assert(objs[h as int] == (match self.objects@[h as int] {
                    Some(ob) => Some(ob@),
                    None => None::<ObjView>,
                }));
            }
            if self.roots[h] {
                if self.objects[h].is_some() {
                    if !marked[h] {
                        let ghost qb = queue@;
                        marked[h] = true;
                        queue.push(h);
                        proof {
                            assert(queue@[qb.len() as int] == h);
                            assert forall|j: int| 0 <= j < n && marked@[j] implies in_queue(
                                queue@,
                                j,
                            ) by {
                                if j != h as int {
                                    let i = choose|i: int| 0 <= i < qb.len() && qb[i] == j;
                                    assert(queue@[i] == j);
                                }
                            }
                        }
                    }
                }
            }
            h = h + 1;
        }

        proof {
            assert forall|j: int| 0 <= j < n && marked@[j] implies reachable(tv, objs, rts, j)
                && objs[j] is Some by {
                assert(is_root(objs, rts, j));
                assert(reachable_in(tv, objs, rts, j, 0));
            }
        }

        // Trace: mark everything an already marked object references.
        while queue.len() > 0
            invariant
                *self == *old(self),
                old(self).wf(),
                tv == self.types_v(),
                objs == self.objects_v(),
                rts == self.roots@,
                n == objs.len(),
                n == self.objects@.len(),
                marked@.len() == n,
                forall|i: int| 0 <= i < queue@.len() ==> (#[trigger] queue@[i]) < n
                    && marked@[queue@[i] as int] && objs[queue@[i] as int] is Some,
                forall|i: int, j: int| 0 <= i < j < queue@.len() ==> queue@[i] != queue@[j],
                forall|j: int| 0 <= j < n && marked@[j] ==> reachable(tv, objs, rts, j)
                    && objs[j] is Some,
                forall|j: int| is_root(objs, rts, j) ==> 0 <= j < n && marked@[j],
                forall|a: int, b: int| 0 <= a < n && marked@[a] && !in_queue(queue@, a)
                    && #[trigger] edge(tv, objs, a, b) ==> marked@[b],
            decreases n - count_true(marked@), queue@.len(),
        {
            let ghost count0 = count_true(marked@);
            let ghost q0 = queue@;
            proof {
                lemma_count_true_bound(marked@);
            }
            let hh = match queue.pop() {
                Some(v) => v,
                None => 0,
            };
            proof {
                assert(q0[q0.len() - 1] == hh);
                assert(queue@ =~= q0.drop_last());
                assert forall|a: int, b: int| 0 <= a < n && marked@[a] && a != hh as int
                    && !in_queue(queue@, a) && #[trigger] edge(tv, objs, a, b)
                    implies marked@[b] by {
                    if in_queue(q0, a) {
                        let i = choose|i: int| 0 <= i < q0.len() && q0[i] == a;
                        if i < q0.len() - 1 {
                            assert(queue@[i] == a);
                            assert(in_queue(queue@, a));
                        } else {
                            assert(a == hh as int);
                        }
                    }
                }
            }
            let ghost offs_spec = type_gc_offsets(tv, objs[hh as int]->Some_0.type_index as int, 0);
            let mut offs: Vec<u16> = Vec::new();
            match &self.objects[hh] {
                Some(o) => {
                    proof {
                        assert(objs[hh as int] == Some(o@));
                        assert(o@.type_index < tv.len());
                        assert(o@.payload.len() == type_size(tv[o@.type_index as int]));
                        lemma_type_gc_offsets_bounds(tv, o@.type_index as int, 0);
                    }
                    push_gc_offsets(&self.types, o.type_index, 0, &mut offs);
                    proof {
                        assert(offsets_view(offs@) =~= offs_spec);
                    }
                    let m = offs.len();
                    let mut j: usize = 0;
                    while j < m
                        invariant
                            *self == *old(self),
                            old(self).wf(),
                            tv == self.types_v(),
                            objs == self.objects_v(),
                            rts == self.roots@,
                            n == objs.len(),
                            n == self.objects@.len(),
                            marked@.len() == n,
                            0 <= j <= m,
                            m == offs@.len(),
                            offsets_view(offs@) == offs_spec,
                            objs[hh as int] is Some,
                            hh < n,
                            objs[hh as int]->Some_0 == o@,
                            o@.payload.len() == type_size(tv[o@.type_index as int]),
                            offs_spec == type_gc_offsets(tv, o@.type_index as int, 0),
                            forall|q: int| 0 <= q < offs_spec.len() ==> 0 <= (
                            #[trigger] offs_spec[q]) && offs_spec[q] + 8 <= o@.payload.len(),
                            marked@[hh as int],
                            forall|i: int| 0 <= i < queue@.len() ==> (#[trigger] queue@[i]) < n
                                && marked@[queue@[i] as int] && objs[queue@[i] as int] is Some,
                            forall|i: int, j2: int| 0 <= i < j2 < queue@.len() ==> queue@[i]
                                != queue@[j2],
                            forall|jj: int| 0 <= jj < n && marked@[jj] ==> reachable(
                                tv,
                                objs,
                                rts,
                                jj,
                            ) && objs[jj] is Some,
                            forall|jj: int| is_root(objs, rts, jj) ==> 0 <= jj < n
                                && marked@[jj],
                            forall|a: int, b: int| 0 <= a < n && marked@[a] && a != hh as int
                                && !in_queue(queue@, a) && #[trigger] edge(tv, objs, a, b)
                                ==> marked@[b],
                            forall|b: int| 0 <= b < n && objs[b] is Some && (exists|q: int|
                                0 <= q < j && slot_value(
                                    o@.payload,
                                    #[trigger] offs_spec[q],
                                ) == b + 1) ==> marked@[b],
                            count_true(marked@) >= count0,
                            count_true(marked@) - count0 >= queue@.len() - (q0.len() - 1),
                        decreases m - j,
                    {
                        proof {
                            assert(offs_spec[j as int] == offs@[j as int] as int);
                        }
                        let v = read_slot(&o.payload, offs[j] as usize);
                        if v >= 1 && v - 1 < n as u64 {
                            let b = (v - 1) as usize;
                            proof {
                                assert(objs[b as int] == (match self.objects@[b as int] {
                                    Some(ob) => Some(ob@),
                                    None => None::<ObjView>,
                                }));
                            }
                            if self.objects[b].is_some() {
                                if !marked[b] {
                                    let ghost mb = marked@;
                                    let ghost qb = queue@;
                                    marked[b] = true;
                                    queue.push(b);
                                    proof {
                                        lemma_count_true_update(mb, b as int);
                                        assert(points_to(tv, o@, b as int));
                                        assert(edge(tv, objs, hh as int, b as int));
                                        lemma_reachable_step(tv, objs, rts, hh as int, b as int);
                                        assert forall|a: int, c: int| 0 <= a < n && marked@[a]
                                            && a != hh as int && !in_queue(queue@, a)
                                            && #[trigger] edge(tv, objs, a, c)
                                            implies marked@[c] by {
                                            if a == b as int {
                                                assert(queue@[qb.len() as int] == b);
                                                assert(in_queue(queue@, a));
                                            } else if !in_queue(qb, a) {
                                                assert(mb[a]);
                                            } else {
                                                let i = choose|i: int| 0 <= i < qb.len()
                                                    && qb[i] == a;
                                                assert(queue@[i] == a);
                                            }
                                        }
                                    }
                                }
                            }
                        }
                        proof {
                            assert forall|b: int| 0 <= b < n && objs[b] is Some && (exists|
                                q: int,
                            |
                                0 <= q < j + 1 && slot_value(
                                    o@.payload,
                                    #[trigger] offs_spec[q],
                                ) == b + 1) implies marked@[b] by {
                                let q = choose|q: int| 0 <= q < j + 1 && slot_value(
                                    o@.payload,
                                    #[trigger] offs_spec[q],
                                ) == b + 1;
                                if q < j as int {
                                    assert(exists|q2: int| 0 <= q2 < j && slot_value(
                                        o@.payload,
                                        #[trigger] offs_spec[q2],
                                    ) == b + 1);
                                }
                            }
                        }
                        j = j + 1;
                    }
                    proof {
                        assert forall|a: int, c: int| 0 <= a < n && marked@[a]
                            && !in_queue(queue@, a) && #[trigger] edge(tv, objs, a, c)
                            implies marked@[c] by {
                            if a == hh as int {
                                assert(points_to(tv, objs[a]->Some_0, c));
                                let q = choose|q: int| 0 <= q < type_gc_offsets(
                                    tv,
                                    objs[a]->Some_0.type_index as int,
                                    0,
                                ).len() && slot_value(
                                    objs[a]->Some_0.payload,
                                    #[trigger] type_gc_offsets(
                                        tv,
                                        objs[a]->Some_0.type_index as int,
                                        0,
                                    )[q],
                                ) == c + 1;
                                assert(slot_value(o@.payload, offs_spec[q]) == c + 1);
                            }
                        }
                    }
                },
                None => {
                    proof {
                        assert(objs[hh as int] == (match self.objects@[hh as int] {
                            Some(ob) => Some(ob@),
                            None => None::<ObjView>,
                        }));
                        assert(false);
                    }
                },
            }
            proof {
                lemma_count_true_bound(marked@);
                assert(count_true(marked@) >= count0);
                assert(count_true(marked@) - count0 >= queue@.len() - (q0.len() - 1));
            }
        }

        // Sweep: free every unmarked object.
        proof {
            assert forall|a: int, b: int| 0 <= a < n && marked@[a] && #[trigger] edge(
                tv,
                objs,
                a,
                b,
            ) implies marked@[b] by {
                assert(!in_queue(queue@, a));
            }
        }
        let mut h2: usize = 0;
        while h2 < n
            invariant
                old(self).wf(),
                self.types@ == old(self).types@,
                self.roots@ == old(self).roots@,
                tv == self.types_v(),
                rts == self.roots@,
                objs == objects_view(old(self).objects@),
                n == objs.len(),
                n == self.objects@.len(),
                marked@.len() == n,
                0 <= h2 <= n,
                forall|j: int| 0 <= j < h2 ==> self.objects_v()[j] == (if marked@[j] {
                    objs[j]
                } else {
                    None::<ObjView>
                }),
                forall|j: int| h2 <= j < n ==> self.objects_v()[j] == objs[j],
                forall|j: int| 0 <= j < n && marked@[j] ==> reachable(tv, objs, rts, j)
                    && objs[j] is Some,
                forall|j: int| is_root(objs, rts, j) ==> 0 <= j < n && marked@[j],
                forall|a: int, b: int| 0 <= a < n && marked@[a] && #[trigger] edge(
                    tv,
                    objs,
                    a,
                    b,
                ) ==> marked@[b],
            decreases n - h2,
        {
            if !marked[h2] {
                let ghost ob = self.objects_v();
                self.objects[h2] = None;
                proof {
                    assert(self.objects_v() =~= ob.update(h2 as int, None::<ObjView>));
                }
            }
            h2 = h2 + 1;
        }
        proof {
            assert forall|j: int| 0 <= j < n implies self.objects_v()[j] == (if reachable(
                tv,
                objs,
                rts,
                j,
            ) {
                objs[j]
            } else {
                None::<ObjView>
            }) by {
                if reachable(tv, objs, rts, j) {
                    let nn = choose|nn: nat| reachable_in(tv, objs, rts, j, nn);
                    lemma_reachable_implies_marked(tv, objs, rts, marked@, j, nn);
                }
            }
            assert forall|j: int| 0 <= j < n implies (match #[trigger] self.objects_v()[j] {
                Some(o) => o.type_index < tv.len() && o.payload.len() == type_size(
                    tv[o.type_index as int],
                ),
                None => true,
            }) by {
                assert(objs[j] == objects_view(old(self).objects@)[j]);
            }
        }
    }

    /// Borrows the object a handle refers to, if it is live.
    pub fn object(&self, h: usize) -> (r: Option<&HeapObject>)
        requires
            h < self.objects_v().len(),
        ensures
            match r {
                Some(o) => self.objects_v()[h as int] == Some(o@),
                None => self.objects_v()[h as int] is None,
            },
    {
        proof {
            assert(self.objects_v()[h as int] == (match self.objects@[h as int] {
                Some(ob) => Some(ob@),
                None => None::<ObjView>,
            }));
        }
        match &self.objects[h] {
            Some(o) => Some(o),
            None => None,
        }
    }
}


/// Whether handle `a` occurs in the work queue.
pub open spec fn in_queue(q: Seq<usize>, a: int) -> bool {
    exists|i: int| 0 <= i < q.len() && q[i] == a
}

/// How many entries of `s` are true.
pub open spec fn count_true(s: Seq<bool>) -> int
    decreases s.len(),
{
    if s.len() == 0 {
        0
    } else {
        count_true(s.drop_last()) + if s.last() {
            1int
        } else {
            0int
        }
    }
}

/// Marking one false entry raises the count by one.
proof fn lemma_count_true_update(s: Seq<bool>, i: int)
    requires
        0 <= i < s.len(),
        !s[i],
    ensures
        count_true(s.update(i, true)) == count_true(s) + 1,
    decreases s.len(),
{
    if i == s.len() - 1 {
        assert(s.update(i, true).drop_last() =~= s.drop_last());
    } else {
        assert(s.update(i, true).drop_last() =~= s.drop_last().update(i, true));
        lemma_count_true_update(s.drop_last(), i);
    }
}

/// The count lies between zero and the length.
proof fn lemma_count_true_bound(s: Seq<bool>)
    ensures
        0 <= count_true(s) <= s.len(),
    decreases s.len(),
{
    if s.len() > 0 {
        lemma_count_true_bound(s.drop_last());
    }
}

/// One edge extends reachability.
proof fn lemma_reachable_step(
    types: Seq<TypeView>,
    objects: Seq<Option<ObjView>>,
    roots: Seq<bool>,
    a: int,
    b: int,
)
    requires
        reachable(types, objects, roots, a),
        edge(types, objects, a, b),
    ensures
        reachable(types, objects, roots, b),
{
    let n = choose|n: nat| reachable_in(types, objects, roots, a, n);
    assert(reachable_in(types, objects, roots, b, n + 1));
}

/// A mark set that holds every root and is closed under edges holds every
/// reachable handle.
proof fn lemma_reachable_implies_marked(
    types: Seq<TypeView>,
    objects: Seq<Option<ObjView>>,
    roots: Seq<bool>,
    marked: Seq<bool>,
    b: int,
    n: nat,
)
    requires
        marked.len() == objects.len(),
        forall|j: int| is_root(objects, roots, j) ==> marked[j],
        forall|a: int, c: int| 0 <= a < objects.len() && marked[a] && #[trigger] edge(
            types,
            objects,
            a,
            c,
        ) ==> marked[c],
        reachable_in(types, objects, roots, b, n),
    ensures
        0 <= b < objects.len() && marked[b],
    decreases n,
{
    if n == 0 {
    } else if reachable_in(types, objects, roots, b, (n - 1) as nat) {
        lemma_reachable_implies_marked(types, objects, roots, marked, b, (n - 1) as nat);
    } else {
        let a = choose|a: int| reachable_in(types, objects, roots, a, (n - 1) as nat)
            && #[trigger] edge(types, objects, a, b);
        lemma_reachable_implies_marked(types, objects, roots, marked, a, (n - 1) as nat);
    }
}

/// Every reference-slot offset of a struct's first `k` fields lies within
/// the struct's extent.
proof fn lemma_struct_gc_offsets_bounds(
    types: Seq<TypeView>,
    si: StructView,
    ti: int,
    k: int,
    base: int,
)
    requires
        wf_type_registry(types),
        0 <= ti < types.len(),
        types[ti].group == TypeGroupView::Struct(si),
        0 <= k <= si.field_types.len(),
    ensures
        forall|q: int| 0 <= q < struct_gc_offsets(types, si, ti, k, base).len() ==> base <= (
        #[trigger] struct_gc_offsets(types, si, ti, k, base)[q]) && struct_gc_offsets(
            types,
            si,
            ti,
            k,
            base,
        )[q] + 8 <= base + si.size,
    decreases ti, 0int, k,
{
    if k <= 0 || k > si.field_types.len() {
    } else {
        lemma_struct_gc_offsets_bounds(types, si, ti, k - 1, base);
        assert(wf_struct_info(si, types, ti));
        assert(wf_field(si, types, ti, k - 1));
        let rest = struct_gc_offsets(types, si, ti, k - 1, base);
        let ft = si.field_types[k - 1] as int;
        let off = base + si.field_offsets[k - 1];
        let whole = struct_gc_offsets(types, si, ti, k, base);
        if 0 <= ft < types.len() {
            match types[ft].group {
                TypeGroupView::Struct(fsi) => {
                    if fsi.memory_kind is Gc {
                        assert(si.field_sizes[k - 1] == 8);
                    } else if ft < ti {
                        lemma_type_gc_offsets_bounds(types, ft, off);
                        assert(si.field_sizes[k - 1] == fsi.size);
                    }
                },
                TypeGroupView::Fundamental(_) => {},
            }
        }
        assert forall|q: int| 0 <= q < whole.len() implies base <= whole[q] && whole[q] + 8
            <= base + si.size by {
            if q < rest.len() {
                assert(whole[q] == rest[q]);
            } else {
                assert(si.field_offsets[k - 1] + si.field_sizes[k - 1] <= si.size);
                let qq = q - rest.len();
                if 0 <= ft < types.len() {
                    match types[ft].group {
                        TypeGroupView::Struct(fsi) => {
                            if fsi.memory_kind is Gc {
                                assert(whole[q] == off);
                            } else if ft < ti {
                                assert(whole[q] == type_gc_offsets(types, ft, off)[qq]);
                                assert(off <= type_gc_offsets(types, ft, off)[qq]
                                    && type_gc_offsets(types, ft, off)[qq] + 8 <= off
                                    + type_size(types[ft]));
                                assert(type_size(types[ft]) == fsi.size as int);
                            }
                        },
                        TypeGroupView::Fundamental(_) => {},
                    }
                }
            }
        }
    }
}

/// Every reference-slot offset of a type lies within a value's extent.
pub proof fn lemma_type_gc_offsets_bounds(types: Seq<TypeView>, ti: int, base: int)
    requires
        wf_type_registry(types),
        0 <= ti < types.len(),
    ensures
        forall|q: int| 0 <= q < type_gc_offsets(types, ti, base).len() ==> base <= (
        #[trigger] type_gc_offsets(types, ti, base)[q]) && type_gc_offsets(types, ti, base)[q]
            + 8 <= base + type_size(types[ti]),
    decreases ti, 1int, 0int,
{
    match types[ti].group {
        TypeGroupView::Fundamental(_) => {},
        TypeGroupView::Struct(si) => {
            lemma_struct_gc_offsets_bounds(
                types,
                si,
                ti,
                si.field_names.len() as int,
                base,
            );
            assert(wf_struct_info(si, types, ti));
            let whole = struct_gc_offsets(types, si, ti, si.field_names.len() as int, base);
            assert(type_gc_offsets(types, ti, base) == whole);
            assert forall|q: int| 0 <= q < type_gc_offsets(types, ti, base).len() implies base
                <= (#[trigger] type_gc_offsets(types, ti, base)[q]) && type_gc_offsets(
                types,
                ti,
                base,
            )[q] + 8 <= base + type_size(types[ti]) by {
                assert(type_gc_offsets(types, ti, base)[q] == whole[q]);
                assert(base <= whole[q] && whole[q] + 8 <= base + si.size);
            }
        },
    }
}

/// The integer values of a list of offsets.
pub open spec fn offsets_view(s: Seq<u16>) -> Seq<int> {
    s.map_values(|x: u16| x as int)
}

/// Appends to `out` the offsets, shifted by `base`, of every reference
/// slot of type `ti`.
fn push_gc_offsets(types: &Vec<TypeInfo>, ti: usize, base: u16, out: &mut Vec<u16>)
    requires
        wf_type_registry(types_view(types@)),
        ti < types@.len(),
        base + type_size(types_view(types@)[ti as int]) <= u16::MAX,
    ensures
        offsets_view(final(out)@) == offsets_view(old(out)@) + type_gc_offsets(
            types_view(types@),
            ti as int,
            base as int,
        ),
    decreases ti,
{
    let ghost tv = types_view(types@);
    proof {
        assert(tv[ti as int] == types@[ti as int]@);
    }
    match &types[ti].group {
        TypeGroup::Fundamental(_) => {
            proof {
                assert(offsets_view(out@) =~= offsets_view(old(out)@) + type_gc_offsets(
                    tv,
                    ti as int,
                    base as int,
                ));
            }
        },
        TypeGroup::Struct(si) => {
            proof {
                assert(tv[ti as int].group == TypeGroupView::Struct(si@));
                assert(wf_struct_info(si@, tv, ti as int));
            }
            let nf = si.field_types.len();
            let mut f: usize = 0;
            while f < nf
                invariant
                    wf_type_registry(tv),
                    tv == types_view(types@),
                    ti < types@.len(),
                    tv[ti as int].group == TypeGroupView::Struct(si@),
                    wf_struct_info(si@, tv, ti as int),
                    base + si@.size <= u16::MAX,
                    si@.size == type_size(tv[ti as int]),
                    nf == si.field_types@.len(),
                    0 <= f <= nf,
                    offsets_view(out@) == offsets_view(old(out)@) + struct_gc_offsets(
                        tv,
                        si@,
                        ti as int,
                        f as int,
                        base as int,
                    ),
                decreases nf - f,
            {
                proof {
                    assert(wf_field(si@, tv, ti as int, f as int));
                    assert(si@.field_offsets[f as int] + si@.field_sizes[f as int]
                        <= si@.size);
                }
                let ft = si.field_types[f];
                proof {
                    assert(tv[ft as int] == types@[ft as int]@);
                }
                let ghost before = offsets_view(out@);
                match &types[ft].group {
                    TypeGroup::Struct(fsi) => {
                        if matches!(fsi.memory_kind, MemoryKind::Gc) {
                            out.push(base + si.field_offsets[f]);
                            proof {
                                assert(offsets_view(out@) =~= before + seq![
                                    (base + si@.field_offsets[f as int]) as int,
                                ]);
                            }
                        } else {
                            proof {
                                assert(si@.field_sizes[f as int] == fsi@.size);
                            }
                            push_gc_offsets(types, ft, base + si.field_offsets[f], out);
                        }
                    },
                    TypeGroup::Fundamental(_) => {},
                }
                proof {
                    assert(offsets_view(out@) =~= offsets_view(old(out)@)
                        + struct_gc_offsets(tv, si@, ti as int, f + 1 as int, base as int));
                }
                f = f + 1;
            }
            proof {
                assert(struct_gc_offsets(tv, si@, ti as int, nf as int, base as int)
                    == type_gc_offsets(tv, ti as int, base as int));
            }
        },
    }
}

/// Reads the 8-byte little-endian reference slot at `off`.
pub fn read_slot(payload: &Vec<u8>, off: usize) -> (r: u64)
    requires
        off + 8 <= payload@.len(),
    ensures
        r as int == slot_value(payload@, off as int),
{
    let plen = payload.len();
    let mut r: u64 = 0;
    let mut k: usize = 0;
    proof {
        lemma_le_bytes_bound(payload@, off as int, 8);
        lemma_pow256_values();
    }
    while k < 8
        invariant
            plen == payload@.len(),
            off + 8 <= plen,
            0 <= k <= 8,
            r as int == le_bytes(payload@, off + 8 - k, k as nat),
            (r as int) < pow256(k as nat),
            pow256(8) == 0x1_0000_0000_0000_0000,
        decreases 8 - k,
    {
        proof {
            lemma_pow256_monotonic(k as nat, 7);
            lemma_le_bytes_bound(payload@, off + 8 - k, k as nat);
        }
        r = r * 256 + payload[off + (7 - k)] as u64;
        k = k + 1;
    }
    r
}

/// `256^a <= 256^b` when `a <= b`.
proof fn lemma_pow256_monotonic(a: nat, b: nat)
    requires
        a <= b,
    ensures
        pow256(a) <= pow256(b),
        pow256(a) >= 1,
    decreases b,
{
    if b > 0 {
        if a == b {
            lemma_pow256_monotonic((a - 1) as nat, (b - 1) as nat);
        } else {
            lemma_pow256_monotonic(a, (b - 1) as nat);
        }
    }
}

} // verus!
