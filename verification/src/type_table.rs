//! The code generator's type table: the list of unique type descriptors
//! an artifact will publish, collected from the signatures of its public
//! functions and the fields of its structs.
//!
//! A descriptor is identified here by its name; the table keeps the
//! descriptors in first-collection order, deduplicated, so the same
//! program always yields the same table.  The table's index stands for
//! the slot of the emitted global descriptor array.

use vstd::prelude::*;
use crate::hir::{ApplicationTy, FloatBitness, IntBitness, Signedness, StructId, Target, Ty, TypeCtor};
use crate::Privacy;

verus! {

/// Whether a descriptor names a fundamental type or a struct of the
/// program.
#[derive(Clone, Copy, Debug, Eq, PartialEq, Structural)]
pub enum TypeGroup {
    FundamentalTypes,
    StructTypes(StructId),
}

/// A type descriptor the generated artifact will publish.
#[derive(Debug)]
pub struct TypeInfo {
    pub name: String,
    pub group: TypeGroup,
}

/// Mathematical view of a collected descriptor.
pub ghost struct DescView {
    pub name: Seq<char>,
    pub group: TypeGroup,
}

impl View for TypeInfo {
    type V = DescView;

    open spec fn view(&self) -> DescView {
        DescView { name: self.name@, group: self.group }
    }
}

/// A struct definition of the program being compiled: its name and its
/// fields' names and types.
#[derive(Debug)]
pub struct StructDef {
    pub name: String,
    pub field_names: Vec<String>,
    pub field_tys: Vec<Ty>,
}

/// Mathematical view of a struct definition.
pub ghost struct StructDefView {
    pub name: Seq<char>,
    pub field_names: Seq<Seq<char>>,
    pub field_tys: Seq<Ty>,
}

impl View for StructDef {
    type V = StructDefView;

    open spec fn view(&self) -> StructDefView {
        StructDefView {
            name: self.name@,
            field_names: self.field_names.deep_view(),
            field_tys: self.field_tys@,
        }
    }
}

/// The views of the program's struct definitions.
pub open spec fn sdefs_view(sdefs: Seq<StructDef>) -> Seq<StructDefView> {
    sdefs.map_values(|s: StructDef| s@)
}

/// A function definition of the program: what the collector reads of it.
#[derive(Debug)]
pub struct FunctionDef {
    pub name: String,
    pub visibility: Privacy,
    pub arg_tys: Vec<Ty>,
    pub ret_ty: Ty,
}

/// A type the collector can describe: a fully applied scalar or struct.
pub open spec fn queryable(ty: Ty, sdefs: Seq<StructDefView>) -> bool {
    match ty {
        Ty::Apply(a) => match a.ctor {
            TypeCtor::Bool => true,
            TypeCtor::Int(_) => true,
            TypeCtor::Float(_) => true,
            TypeCtor::Struct(s) => s.index < sdefs.len(),
            TypeCtor::FnDef(_) => false,
        },
        _ => false,
    }
}

/// The descriptor of a queryable type.
pub open spec fn spec_type_desc(ty: Ty, sdefs: Seq<StructDefView>) -> DescView {
    match ty {
        Ty::Apply(a) => match a.ctor {
            TypeCtor::Bool => DescView {
                name: "core::bool"@,
                group: TypeGroup::FundamentalTypes,
            },
            TypeCtor::Float(f) => if f.bitness is X32 {
                DescView { name: "core::f32"@, group: TypeGroup::FundamentalTypes }
            } else {
                DescView { name: "core::f64"@, group: TypeGroup::FundamentalTypes }
            },
            TypeCtor::Int(it) => {
                let signed = it.signedness is Signed;
                let name = match it.bitness {
                    IntBitness::X8 => if signed {
                        "core::i8"@
                    } else {
                        "core::u8"@
                    },
                    IntBitness::X16 => if signed {
                        "core::i16"@
                    } else {
                        "core::u16"@
                    },
                    IntBitness::X32 => if signed {
                        "core::i32"@
                    } else {
                        "core::u32"@
                    },
                    _ => if signed {
                        "core::i64"@
                    } else {
                        "core::u64"@
                    },
                };
                DescView { name, group: TypeGroup::FundamentalTypes }
            },
            TypeCtor::Struct(s) => DescView {
                name: sdefs[s.index as int].name,
                group: TypeGroup::StructTypes(s),
            },
            TypeCtor::FnDef(_) => DescView {
                name: Seq::empty(),
                group: TypeGroup::FundamentalTypes,
            },
        },
        _ => DescView { name: Seq::empty(), group: TypeGroup::FundamentalTypes },
    }
}

/// Constructs the descriptor for the specified type: its published name
/// — fundamentals under `core::`, with undefined widths resolved for the
/// target — and its group.
pub fn type_info_query(ty: Ty, target: &Target, sdefs: &Vec<StructDef>) -> (r: TypeInfo)
    requires
        queryable(ty, sdefs_view(sdefs@)),
    ensures
        r@ == spec_type_desc(resolve_ty(ty), sdefs_view(sdefs@)),
{
    match ty {
        Ty::Apply(a) => match a.ctor {
            TypeCtor::Bool => TypeInfo {
                name: String::from_str("core::bool"),
                group: TypeGroup::FundamentalTypes,
            },
            TypeCtor::Float(f) => {
                let rf = f.resolve(target);
                let name = match rf.bitness {
                    FloatBitness::X32 => String::from_str("core::f32"),
                    _ => String::from_str("core::f64"),
                };
                TypeInfo { name, group: TypeGroup::FundamentalTypes }
            },
            TypeCtor::Int(it) => {
                let ri = it.resolve(target);
                let signed = matches!(ri.signedness, Signedness::Signed);
                let name = match ri.bitness {
                    IntBitness::X8 => if signed {
                        String::from_str("core::i8")
                    } else {
                        String::from_str("core::u8")
                    },
                    IntBitness::X16 => if signed {
                        String::from_str("core::i16")
                    } else {
                        String::from_str("core::u16")
                    },
                    IntBitness::X32 => if signed {
                        String::from_str("core::i32")
                    } else {
                        String::from_str("core::u32")
                    },
                    _ => if signed {
                        String::from_str("core::i64")
                    } else {
                        String::from_str("core::u64")
                    },
                };
                TypeInfo { name, group: TypeGroup::FundamentalTypes }
            },
            TypeCtor::Struct(s) => {
                proof {
                    assert(sdefs_view(sdefs@)[s.index as int] == sdefs@[s.index as int]@);
                }
                TypeInfo {
                    name: sdefs[s.index].name.clone(),
                    group: TypeGroup::StructTypes(s),
                }
            },
            TypeCtor::FnDef(_) => {
                proof {
                    assert(false);
                }
                TypeInfo { name: String::new(), group: TypeGroup::FundamentalTypes }
            },
        },
        _ => {
            proof {
                assert(false);
            }
            TypeInfo { name: String::new(), group: TypeGroup::FundamentalTypes }
        },
    }
}

/// The type with its numeric widths resolved for the target.
pub open spec fn resolve_ty(ty: Ty) -> Ty {
    match ty {
        Ty::Apply(a) => match a.ctor {
            TypeCtor::Float(f) => Ty::Apply(
                ApplicationTy {
                    ctor: TypeCtor::Float(
                        crate::hir::FloatTy {
                            bitness: if f.bitness is Undefined {
                                FloatBitness::X64
                            } else {
                                f.bitness
                            },
                        },
                    ),
                },
            ),
            TypeCtor::Int(it) => Ty::Apply(
                ApplicationTy {
                    ctor: TypeCtor::Int(
                        crate::hir::IntTy {
                            signedness: it.signedness,
                            bitness: if it.bitness is Undefined || it.bitness is Xsize {
                                IntBitness::X64
                            } else {
                                it.bitness
                            },
                        },
                    ),
                },
            ),
            _ => ty,
        },
        _ => ty,
    }
}

/// Whether the table already holds a descriptor of that name.
pub open spec fn has_desc(entries: Seq<DescView>, name: Seq<char>) -> bool {
    exists|i: int| 0 <= i < entries.len() && (#[trigger] entries[i]).name == name
}

/// The table after inserting a descriptor: unchanged if its name is
/// already present, appended otherwise.
pub open spec fn insert_desc(entries: Seq<DescView>, d: DescView) -> Seq<DescView> {
    if has_desc(entries, d.name) {
        entries
    } else {
        entries.push(d)
    }
}

/// Whether a queryable type resolves to a struct of the program, and to
/// which.
pub open spec fn resolved_struct(ty: Ty) -> Option<StructId> {
    match resolve_ty(ty) {
        Ty::Apply(a) => match a.ctor {
            TypeCtor::Struct(fs) => Some(fs),
            _ => None,
        },
        _ => None,
    }
}

/// Every struct descriptor in the table names a struct of the program,
/// under that struct's own name.
pub open spec fn entries_wf(entries: Seq<DescView>, sdefs: Seq<StructDefView>) -> bool {
    forall|e: int| 0 <= e < entries.len() ==> (match (#[trigger] entries[e]).group {
        TypeGroup::StructTypes(s) => s.index < sdefs.len() && entries[e].name
            == sdefs[s.index as int].name,
        TypeGroup::FundamentalTypes => true,
    })
}

/// The descriptors of every field type of the struct descriptor at `e`
/// are present in the table.
pub open spec fn entry_fields_present(
    entries: Seq<DescView>,
    sdefs: Seq<StructDefView>,
    e: int,
) -> bool {
    match entries[e].group {
        TypeGroup::StructTypes(s) => s.index < sdefs.len() ==> forall|f: int|
            0 <= f < sdefs[s.index as int].field_tys.len() ==> has_desc(
                entries,
                spec_type_desc(
                    resolve_ty(#[trigger] sdefs[s.index as int].field_tys[f]),
                    sdefs,
                ).name,
            ),
        TypeGroup::FundamentalTypes => true,
    }
}

/// The table is closed under fields: for every struct descriptor it
/// holds, the descriptor of each of that struct's field types is present
/// — so every type transitively reachable through struct fields is
/// published.
pub open spec fn entries_closed(entries: Seq<DescView>, sdefs: Seq<StructDefView>) -> bool {
    forall|e: int| 0 <= e < entries.len() ==> #[trigger] entry_fields_present(
        entries,
        sdefs,
        e,
    )
}

/// How many of the first `k` structs of the program have no descriptor in
/// the table yet.
pub open spec fn missing_structs(
    entries: Seq<DescView>,
    sdefs: Seq<StructDefView>,
    k: int,
) -> int
    decreases k,
{
    if k <= 0 {
        0
    } else {
        missing_structs(entries, sdefs, k - 1) + if has_desc(entries, sdefs[k - 1].name) {
            0int
        } else {
            1int
        }
    }
}

/// The count of missing structs is bounded by `k`.
proof fn lemma_missing_bounds(entries: Seq<DescView>, sdefs: Seq<StructDefView>, k: int)
    ensures
        0 <= missing_structs(entries, sdefs, k) <= (if k <= 0 {
            0int
        } else {
            k
        }),
    decreases k,
{
    if k > 0 {
        lemma_missing_bounds(entries, sdefs, k - 1);
    }
}

/// Appending a descriptor never makes a struct missing.
proof fn lemma_missing_push(
    entries: Seq<DescView>,
    d: DescView,
    sdefs: Seq<StructDefView>,
    k: int,
)
    ensures
        missing_structs(entries.push(d), sdefs, k) <= missing_structs(entries, sdefs, k),
    decreases k,
{
    if k > 0 {
        lemma_missing_push(entries, d, sdefs, k - 1);
        if has_desc(entries, sdefs[k - 1].name) {
            let i = choose|i: int| 0 <= i < entries.len() && (#[trigger] entries[i]).name
                == sdefs[k - 1].name;
            assert(entries.push(d)[i].name == sdefs[k - 1].name);
        }
    }
}

/// Appending the descriptor of a struct whose name was missing makes at
/// least one fewer struct missing.
proof fn lemma_missing_insert(
    entries: Seq<DescView>,
    d: DescView,
    sdefs: Seq<StructDefView>,
    t: int,
    k: int,
)
    requires
        0 <= t < k,
        !has_desc(entries, sdefs[t].name),
        d.name == sdefs[t].name,
    ensures
        missing_structs(entries.push(d), sdefs, k) <= missing_structs(entries, sdefs, k) - 1,
    decreases k,
{
    if t == k - 1 {
        lemma_missing_push(entries, d, sdefs, k - 1);
        assert(entries.push(d)[entries.len() as int].name == sdefs[k - 1].name);
        assert(has_desc(entries.push(d), sdefs[k - 1].name));
    } else {
        lemma_missing_insert(entries, d, sdefs, t, k - 1);
        if has_desc(entries, sdefs[k - 1].name) {
            let i = choose|i: int| 0 <= i < entries.len() && (#[trigger] entries[i]).name
                == sdefs[k - 1].name;
            assert(entries.push(d)[i].name == sdefs[k - 1].name);
        }
    }
}

/// A descriptor present in a table is present in any extension of it.
proof fn lemma_has_desc_grow(e1: Seq<DescView>, e2: Seq<DescView>, n: Seq<char>)
    requires
        e2.len() >= e1.len(),
        e2.take(e1.len() as int) == e1,
        has_desc(e1, n),
    ensures
        has_desc(e2, n),
{
    let i = choose|i: int| 0 <= i < e1.len() && (#[trigger] e1[i]).name == n;
    assert(e2[i] == e2.take(e1.len() as int)[i]);
}

/// Whether the work list still holds the struct.
pub open spec fn in_work(w: Seq<usize>, x: int) -> bool {
    exists|i: int| 0 <= i < w.len() && w[i] == x
}

/// A struct-typed field is already queued for collection.
pub open spec fn field_queued(
    sdefs: Seq<StructDefView>,
    w: Seq<usize>,
    si: int,
    f: int,
) -> bool {
    match resolved_struct(sdefs[si].field_tys[f]) {
        Some(fs) => in_work(w, fs.index as int),
        None => false,
    }
}

/// Each field descriptor of the struct descriptor at `e` is present, or
/// its struct is still queued.
pub open spec fn entry_ok_or_queued(
    entries: Seq<DescView>,
    sdefs: Seq<StructDefView>,
    w: Seq<usize>,
    e: int,
) -> bool {
    match entries[e].group {
        TypeGroup::StructTypes(s) => s.index < sdefs.len() ==> forall|f: int|
            0 <= f < sdefs[s.index as int].field_tys.len() ==> has_desc(
                entries,
                spec_type_desc(
                    resolve_ty(#[trigger] sdefs[s.index as int].field_tys[f]),
                    sdefs,
                ).name,
            ) || field_queued(sdefs, w, s.index as int, f),
        TypeGroup::FundamentalTypes => true,
    }
}

/// A type table in an artifact: the list of unique type descriptors, in
/// collection order; each index stands for one slot of the emitted
/// descriptor array.
#[derive(Debug)]
pub struct TypeTable {
    pub entries: Vec<TypeInfo>,
}

impl TypeTable {
    /// The views of the table's descriptors.
    pub open spec fn entries_v(self) -> Seq<DescView> {
        self.entries@.map_values(|t: TypeInfo| t@)
    }

    /// Retrieves the slot of a descriptor, if the table holds its name.
    pub fn get(&self, type_info: &TypeInfo) -> (r: Option<usize>)
        ensures
            match r {
                Some(i) => i < self.entries_v().len() && self.entries_v()[i as int].name
                    == type_info@.name,
                None => !has_desc(self.entries_v(), type_info@.name),
            },
    {
        let ghost ev = self.entries_v();
        let n = self.entries.len();
        let mut i: usize = 0;
        while i < n
            invariant
                ev == self.entries_v(),
                n == ev.len(),
                n == self.entries@.len(),
                0 <= i <= n,
                forall|j: int| 0 <= j < i ==> (#[trigger] ev[j]).name != type_info@.name,
            decreases n - i,
        {
            proof {
                assert(ev[i as int] == self.entries@[i as int]@);
            }
            if self.entries[i].name == type_info.name {
                return Some(i);
            }
            i = i + 1;
        }
        None
    }

    /// Returns the number of types in the table.
    pub fn num_types(&self) -> (r: usize)
        ensures
            r == self.entries_v().len(),
    {
        self.entries.len()
    }
}

/// Builds a type table from the types a program uses.
#[derive(Debug)]
pub struct TypeTableBuilder {
    pub entries: Vec<TypeInfo>,
}

impl TypeTableBuilder {
    /// The views of the descriptors collected so far.
    pub open spec fn entries_v(self) -> Seq<DescView> {
        self.entries@.map_values(|t: TypeInfo| t@)
    }

    /// Creates a new builder with nothing collected.
    pub fn new() -> (r: TypeTableBuilder)
        ensures
            r.entries_v().len() == 0,
    {
        TypeTableBuilder { entries: Vec::new() }
    }

    /// Collects one descriptor, keeping names unique.
    fn insert(&mut self, d: TypeInfo)
        ensures
            final(self).entries_v() == insert_desc(old(self).entries_v(), d@),
            has_desc(old(self).entries_v(), d@.name) ==> *final(self) == *old(self),
    {
        let ghost ev = self.entries_v();
        let n = self.entries.len();
        let mut i: usize = 0;
        while i < n
            invariant
                *self == *old(self),
                ev == self.entries_v(),
                n == ev.len(),
                n == self.entries@.len(),
                0 <= i <= n,
                forall|j: int| 0 <= j < i ==> (#[trigger] ev[j]).name != d@.name,
            decreases n - i,
        {
            proof {
                assert(ev[i as int] == self.entries@[i as int]@);
            }
            if self.entries[i].name == d.name {
                proof {
                    assert(has_desc(ev, d@.name));
                }
                return ;
            }
            i = i + 1;
        }
        proof {
            assert(!has_desc(ev, d@.name));
        }
        self.entries.push(d);
        proof {
            assert(self.entries_v() =~= ev.push(d@));
        }
    }

    /// Returns whether a descriptor of that name was already collected.
    fn has_name(&self, name: &String) -> (r: bool)
        ensures
            r == has_desc(self.entries_v(), name@),
    {
        let ghost ev = self.entries_v();
        let n = self.entries.len();
        let mut i: usize = 0;
        while i < n
            invariant
                ev == self.entries_v(),
                n == ev.len(),
                n == self.entries@.len(),
                0 <= i <= n,
                forall|j: int| 0 <= j < i ==> (#[trigger] ev[j]).name != name@,
            decreases n - i,
        {
            proof {
                assert(ev[i as int] == self.entries@[i as int]@);
            }
            if self.entries[i].name == *name {
                return true;
            }
            i = i + 1;
        }
        false
    }

    /// Collects the descriptor of one type; a struct type is collected
    /// together with every type transitively reachable through its
    /// fields.
    pub fn collect_type(&mut self, ty: Ty, target: &Target, sdefs: &Vec<StructDef>)
        requires
            queryable(ty, sdefs_view(sdefs@)),
            wf_struct_defs(sdefs_view(sdefs@)),
            entries_wf(old(self).entries_v(), sdefs_view(sdefs@)),
            entries_closed(old(self).entries_v(), sdefs_view(sdefs@)),
        ensures
            entries_wf(final(self).entries_v(), sdefs_view(sdefs@)),
            entries_closed(final(self).entries_v(), sdefs_view(sdefs@)),
            final(self).entries_v().len() >= old(self).entries_v().len(),
            final(self).entries_v().take(old(self).entries_v().len() as int) == old(
                self,
            ).entries_v(),
            has_desc(
                final(self).entries_v(),
                spec_type_desc(resolve_ty(ty), sdefs_view(sdefs@)).name,
            ),
            has_desc(
                old(self).entries_v(),
                spec_type_desc(resolve_ty(ty), sdefs_view(sdefs@)).name,
            ) ==> *final(self) == *old(self),
    {
        let ghost sv = sdefs_view(sdefs@);
        match ty {
            Ty::Apply(a) => match a.ctor {
                TypeCtor::Struct(s) => {
                    proof {
                        assert(sv[s.index as int] == sdefs@[s.index as int]@);
                    }
                    self.collect_struct(s, target, sdefs);
                },
                _ => {
                    let d = type_info_query(ty, target, sdefs);
                    let ghost e0 = self.entries_v();
                    self.insert(d);
                    proof {
                        let e1 = self.entries_v();
                        if !has_desc(e0, d@.name) {
                            assert(e1 == e0.push(d@));
                            assert(e1.take(e0.len() as int) =~= e0);
                            assert(e1[e0.len() as int].name == d@.name);
                            assert forall|e: int| 0 <= e < e1.len() implies
                                #[trigger] entry_fields_present(e1, sv, e) by {
                                if e < e0.len() {
                                    assert(e1[e] == e0[e]);
                                    assert(entry_fields_present(e0, sv, e));
                                    lemma_entry_grows(e0, e1, sv, e);
                                } else {
                                    assert(e1[e] == d@);
                                }
                            }
                        } else {
                            assert(e1.take(e0.len() as int) =~= e0);
                        }
                    }
                },
            },
            _ => {
                proof {
                    assert(false);
                }
            },
        }
    }

    /// Collects a struct type and closes over its fields: its own
    /// descriptor, the descriptors of its field types, and so on through
    /// every struct reachable by fields.  Descriptors already collected
    /// are kept as they are — the table only grows, and collecting an
    /// already-present struct changes nothing.
    pub fn collect_struct(&mut self, s: StructId, target: &Target, sdefs: &Vec<StructDef>)
        requires
            s.index < sdefs@.len(),
            wf_struct_defs(sdefs_view(sdefs@)),
            entries_wf(old(self).entries_v(), sdefs_view(sdefs@)),
            entries_closed(old(self).entries_v(), sdefs_view(sdefs@)),
        ensures
            entries_wf(final(self).entries_v(), sdefs_view(sdefs@)),
            entries_closed(final(self).entries_v(), sdefs_view(sdefs@)),
            final(self).entries_v().len() >= old(self).entries_v().len(),
            final(self).entries_v().take(old(self).entries_v().len() as int) == old(
                self,
            ).entries_v(),
            has_desc(final(self).entries_v(), sdefs_view(sdefs@)[s.index as int].name),
            has_desc(old(self).entries_v(), sdefs_view(sdefs@)[s.index as int].name)
                ==> *final(self) == *old(self),
    {
        let ghost sv = sdefs_view(sdefs@);
        proof {
            assert(sv[s.index as int] == sdefs@[s.index as int]@);
        }
        if self.has_name(&sdefs[s.index].name) {
            proof {
                assert(self.entries_v().take(self.entries_v().len() as int)
                    =~= self.entries_v());
            }
            return ;
        }
        let ghost e0 = self.entries_v();
        let nsd = sdefs.len();
        let mut work: Vec<usize> = Vec::new();
        work.push(s.index);
        proof {
            assert(e0.take(e0.len() as int) =~= e0);
            assert(work@[0] == s.index);
            assert(in_work(work@, s.index as int));
            assert forall|e: int| 0 <= e < e0.len() implies #[trigger] entry_ok_or_queued(
                e0,
                sv,
                work@,
                e,
            ) by {
                assert(entry_fields_present(e0, sv, e));
                lemma_present_implies_queued(e0, sv, work@, e);
            }
        }
        while work.len() > 0
            invariant
                sv == sdefs_view(sdefs@),
                nsd == sdefs@.len(),
                nsd == sv.len(),
                s.index < nsd,
                wf_struct_defs(sv),
                forall|w: int| 0 <= w < work@.len() ==> (#[trigger] work@[w]) < nsd,
                self.entries_v().len() >= e0.len(),
                self.entries_v().take(e0.len() as int) == e0,
                entries_wf(self.entries_v(), sv),
                forall|e: int| 0 <= e < self.entries_v().len() ==> #[trigger] entry_ok_or_queued(
                    self.entries_v(),
                    sv,
                    work@,
                    e,
                ),
                has_desc(self.entries_v(), sv[s.index as int].name) || in_work(
                    work@,
                    s.index as int,
                ),
            decreases missing_structs(self.entries_v(), sv, nsd as int), work@.len(),
        {
            let ghost m0 = missing_structs(self.entries_v(), sv, nsd as int);
            let ghost w0 = work@;
            let ghost eb = self.entries_v();
            proof {
                lemma_missing_bounds(eb, sv, nsd as int);
            }
            let t = match work.pop() {
                Some(v) => v,
                None => 0,
            };
            proof {
                assert(w0[w0.len() - 1] == t);
                assert(work@ =~= w0.drop_last());
                assert(sv[t as int] == sdefs@[t as int]@);
            }
            if self.has_name(&sdefs[t].name) {
                // Already collected: every field obligation queued under
                // this occurrence is answered by the present descriptor.
                proof {
                    assert(t < nsd);
                    assert(has_desc(eb, sv[t as int].name));
                    assert forall|e: int| 0 <= e < self.entries_v().len() implies
                        #[trigger] entry_ok_or_queued(self.entries_v(), sv, work@, e) by {
                        lemma_requeue(eb, sv, w0, work@, t as int, e);
                    }
                    if !has_desc(eb, sv[s.index as int].name) {
                        let i = choose|i: int| 0 <= i < w0.len() && w0[i] == s.index as int;
                        if i < w0.len() - 1 {
                            assert(work@[i] == s.index);
                        } else {
                            assert(t == s.index);
                        }
                    }
                }
            } else {
                let own = TypeInfo {
                    name: sdefs[t].name.clone(),
                    group: TypeGroup::StructTypes(StructId { index: t }),
                };
                let ghost e_pre = self.entries_v();
                self.insert(own);
                let ghost t_pos = e_pre.len() as int;
                proof {
                    assert(t < nsd);
                    assert(self.entries_v() == e_pre.push(own@));
                    lemma_missing_insert(e_pre, own@, sv, t as int, nsd as int);
                    assert(self.entries_v().take(e0.len() as int) =~= e0);
                    assert(self.entries_v()[t_pos].name == sv[t as int].name);
                    assert(self.entries_v()[t_pos].group == TypeGroup::StructTypes(
                        StructId { index: t },
                    ));
                    assert forall|e: int| 0 <= e < self.entries_v().len() implies
                        #[trigger] entry_ok_or_queued_upto(
                        self.entries_v(),
                        sv,
                        work@,
                        e,
                        t_pos,
                        0,
                    ) by {
                        if e < t_pos {
                            lemma_full_grow(eb, self.entries_v(), sv, w0, e);
                            lemma_requeue(self.entries_v(), sv, w0, work@, t as int, e);
                            lemma_full_to_upto_grow(
                                self.entries_v(),
                                self.entries_v(),
                                sv,
                                work@,
                                e,
                                t_pos,
                                0,
                            );
                        }
                    }
                    // The struct being collected is contained now, or s is
                    // still queued elsewhere.
                    if t == s.index {
                        assert(has_desc(self.entries_v(), sv[s.index as int].name)) by {
                            assert(self.entries_v()[t_pos].name == sv[s.index as int].name);
                        }
                    } else if has_desc(eb, sv[s.index as int].name) {
                        lemma_has_desc_grow2(eb, self.entries_v(), sv[s.index as int].name);
                    } else {
                        let i = choose|i: int| 0 <= i < w0.len() && (#[trigger] w0[i])
                            == s.index as int;
                        if i < w0.len() - 1 {
                            assert(work@[i] == s.index);
                            assert(in_work(work@, s.index as int));
                        } else {
                            assert(t == s.index);
                        }
                    }
                }
                let ghost e_own = self.entries_v();
                let nf = sdefs[t].field_tys.len();
                let mut k: usize = 0;
                while k < nf
                    invariant
                        sv == sdefs_view(sdefs@),
                        nsd == sdefs@.len(),
                        nsd == sv.len(),
                        s.index < nsd,
                        t < nsd,
                        wf_struct_defs(sv),
                        sv[t as int] == sdefs@[t as int]@,
                        nf == sdefs@[t as int].field_tys@.len(),
                        nf == sv[t as int].field_tys.len(),
                        0 <= k <= nf,
                        t_pos == e_own.len() - 1,
                        0 <= t_pos < self.entries_v().len(),
                        forall|w: int| 0 <= w < work@.len() ==> (#[trigger] work@[w]) < nsd,
                        self.entries_v().len() >= e_own.len(),
                        self.entries_v().take(e_own.len() as int) == e_own,
                        e_own.len() >= e0.len(),
                        e_own.take(e0.len() as int) == e0,
                        self.entries_v()[t_pos].group == TypeGroup::StructTypes(
                            StructId { index: t },
                        ),
                        entries_wf(self.entries_v(), sv),
                        missing_structs(self.entries_v(), sv, nsd as int) <= m0 - 1,
                        forall|e: int| 0 <= e < self.entries_v().len()
                            ==> #[trigger] entry_ok_or_queued_upto(
                            self.entries_v(),
                            sv,
                            work@,
                            e,
                            t_pos,
                            k as int,
                        ),
                        has_desc(self.entries_v(), sv[s.index as int].name) || in_work(
                            work@,
                            s.index as int,
                        ),
                    decreases nf - k,
                {
                    proof {
                        assert(wf_struct_defs(sv));
                        assert(queryable(sv[t as int].field_tys[k as int], sv));
                        lemma_resolve_queryable(sv[t as int].field_tys[k as int], sv);
                    }
                    let fty = sdefs[t].field_tys[k];
                    let ghost ek = self.entries_v();
                    let ghost wk = work@;
                    match fty {
                        Ty::Apply(a2) => match a2.ctor {
                            TypeCtor::Struct(fs) => {
                                work.push(fs.index);
                                proof {
                                    assert(work@ =~= wk.push(fs.index));
                                    assert(work@[wk.len() as int] == fs.index);
                                    assert(in_work(work@, fs.index as int));
                                    assert(field_queued(sv, work@, t as int, k as int));
                                    assert forall|e: int| 0 <= e < ek.len() implies
                                        #[trigger] entry_ok_or_queued_upto(
                                        ek,
                                        sv,
                                        work@,
                                        e,
                                        t_pos,
                                        k + 1,
                                    ) by {
                                        lemma_queue_push(ek, sv, wk, work@, e, t_pos,
                                            k as int, t as int);
                                    }
                                    if !has_desc(ek, sv[s.index as int].name) {
                                        let i = choose|i: int| 0 <= i < wk.len() && wk[i]
                                            == s.index as int;
                                        assert(work@[i] == s.index);
                                    }
                                }
                            },
                            _ => {
                                let d = type_info_query(fty, target, sdefs);
                                self.insert(d);
                                proof {
                                    let e1 = self.entries_v();
                                    if has_desc(ek, d@.name) {
                                        assert(e1 == ek);
                                    } else {
                                        assert(e1 == ek.push(d@));
                                        lemma_missing_push(ek, d@, sv, nsd as int);
                                        assert(e1.take(e_own.len() as int) =~= ek.take(
                                            e_own.len() as int,
                                        ));
                                        assert(e1[ek.len() as int] == d@);
                                    }
                                    assert(e1[t_pos] == ek[t_pos]);
                                    assert(has_desc(e1, d@.name)) by {
                                        if has_desc(ek, d@.name) {
                                            lemma_has_desc_grow2(ek, e1, d@.name);
                                        } else {
                                            assert(e1[ek.len() as int].name == d@.name);
                                        }
                                    }
                                    assert forall|e: int| 0 <= e < e1.len() implies
                                        #[trigger] entry_ok_or_queued_upto(
                                        e1,
                                        sv,
                                        work@,
                                        e,
                                        t_pos,
                                        k + 1,
                                    ) by {
                                        if e < ek.len() {
                                            assert(entry_ok_or_queued_upto(ek, sv, work@,
                                                e, t_pos, k as int));
                                            lemma_upto_grow(ek, e1, sv, work@, e, t_pos,
                                                k as int);
                                            assert(e1[e] == ek[e]);
                                            if e == t_pos {
                                                assert(has_desc(
                                                    e1,
                                                    spec_type_desc(
                                                        resolve_ty(
                                                            sv[t as int].field_tys[k as int],
                                                        ),
                                                        sv,
                                                    ).name,
                                                ));
                                            }
                                        } else {
                                            assert(e1[e] == d@);
                                        }
                                    }
                                    if !has_desc(ek, sv[s.index as int].name)
                                        && !has_desc(e1, sv[s.index as int].name) {
                                        assert(in_work(work@, s.index as int));
                                    } else if has_desc(ek, sv[s.index as int].name) {
                                        lemma_has_desc_grow2(ek, e1, sv[s.index as int].name);
                                    }
                                }
                            },
                        },
                        _ => {
                            proof {
                                assert(false);
                            }
                        },
                    }
                    k = k + 1;
                }
                proof {
                    assert forall|e: int| 0 <= e < self.entries_v().len() implies
                        #[trigger] entry_ok_or_queued(self.entries_v(), sv, work@, e) by {
                        assert(entry_ok_or_queued_upto(
                            self.entries_v(),
                            sv,
                            work@,
                            e,
                            t_pos,
                            nf as int,
                        ));
                        lemma_upto_full(self.entries_v(), sv, work@, e, t_pos, nf as int);
                    }
                    lemma_missing_bounds(self.entries_v(), sv, nsd as int);
                    assert(self.entries_v().take(e0.len() as int) =~= e0);
                }
            }
        }
        proof {
            assert forall|e: int| 0 <= e < self.entries_v().len() implies
                #[trigger] entry_fields_present(self.entries_v(), sv, e) by {
                assert(entry_ok_or_queued(self.entries_v(), sv, work@, e));
                lemma_no_queue(self.entries_v(), sv, work@, e);
            }
        }
    }

    /// Collects the types a function's public signature uses: each
    /// argument type, and the return type unless the function returns
    /// unit.  A private function contributes nothing.
    pub fn collect_fn(&mut self, hir_fn: &FunctionDef, target: &Target, sdefs: &Vec<StructDef>)
        requires
            wf_struct_defs(sdefs_view(sdefs@)),
            wf_fn_def(hir_fn.arg_tys@, hir_fn.ret_ty, sdefs_view(sdefs@)),
            entries_wf(old(self).entries_v(), sdefs_view(sdefs@)),
            entries_closed(old(self).entries_v(), sdefs_view(sdefs@)),
        ensures
            entries_wf(final(self).entries_v(), sdefs_view(sdefs@)),
            entries_closed(final(self).entries_v(), sdefs_view(sdefs@)),
            final(self).entries_v().len() >= old(self).entries_v().len(),
            final(self).entries_v().take(old(self).entries_v().len() as int) == old(
                self,
            ).entries_v(),
            hir_fn.visibility is Private ==> *final(self) == *old(self),
            hir_fn.visibility is Public ==> forall|i: int| 0 <= i < hir_fn.arg_tys@.len()
                ==> has_desc(
                final(self).entries_v(),
                spec_type_desc(
                    resolve_ty(#[trigger] hir_fn.arg_tys@[i]),
                    sdefs_view(sdefs@),
                ).name,
            ),
            hir_fn.visibility is Public && !(hir_fn.ret_ty is Empty) ==> has_desc(
                final(self).entries_v(),
                spec_type_desc(resolve_ty(hir_fn.ret_ty), sdefs_view(sdefs@)).name,
            ),
    {
        let ghost sv = sdefs_view(sdefs@);
        if matches!(hir_fn.visibility, Privacy::Private) {
            proof {
                assert(self.entries_v().take(self.entries_v().len() as int)
                    =~= self.entries_v());
            }
            return ;
        }
        let ghost e_start = self.entries_v();
        let na = hir_fn.arg_tys.len();
        let mut i: usize = 0;
        while i < na
            invariant
                sv == sdefs_view(sdefs@),
                wf_struct_defs(sv),
                wf_fn_def(hir_fn.arg_tys@, hir_fn.ret_ty, sv),
                e_start == old(self).entries_v(),
                na == hir_fn.arg_tys@.len(),
                0 <= i <= na,
                entries_wf(self.entries_v(), sv),
                entries_closed(self.entries_v(), sv),
                self.entries_v().len() >= e_start.len(),
                self.entries_v().take(e_start.len() as int) == e_start,
                forall|j: int| 0 <= j < i ==> has_desc(
                    self.entries_v(),
                    spec_type_desc(resolve_ty(#[trigger] hir_fn.arg_tys@[j]), sv).name,
                ),
            decreases na - i,
        {
            proof {
                assert(queryable(hir_fn.arg_tys@[i as int], sv));
            }
            let ty = hir_fn.arg_tys[i];
            let ghost eb = self.entries_v();
            self.collect_type(ty, target, sdefs);
            proof {
                assert(self.entries_v().take(e_start.len() as int) =~= e_start);
                assert forall|j: int| 0 <= j < i + 1 implies has_desc(
                    self.entries_v(),
                    spec_type_desc(resolve_ty(#[trigger] hir_fn.arg_tys@[j]), sv).name,
                ) by {
                    if j < i as int {
                        lemma_has_desc_grow(
                            eb,
                            self.entries_v(),
                            spec_type_desc(resolve_ty(hir_fn.arg_tys@[j]), sv).name,
                        );
                    }
                }
            }
            i = i + 1;
        }
        if !matches!(hir_fn.ret_ty, Ty::Empty) {
            let ghost eb = self.entries_v();
            self.collect_type(hir_fn.ret_ty, target, sdefs);
            proof {
                assert(self.entries_v().take(e_start.len() as int) =~= e_start);
                assert forall|j: int| 0 <= j < na as int implies has_desc(
                    self.entries_v(),
                    spec_type_desc(resolve_ty(#[trigger] hir_fn.arg_tys@[j]), sv).name,
                ) by {
                    lemma_has_desc_grow(
                        eb,
                        self.entries_v(),
                        spec_type_desc(resolve_ty(hir_fn.arg_tys@[j]), sv).name,
                    );
                }
            }
        }
    }

    /// Constructs the type table from all collected types.
    pub fn build(self) -> (r: TypeTable)
        ensures
            r.entries_v() == self.entries_v(),
    {
        TypeTable { entries: self.entries }
    }
}


/// Like `entry_ok_or_queued`, except that of the struct being processed —
/// the entry at `t_pos` — only the first `k` fields are demanded yet.
pub open spec fn entry_ok_or_queued_upto(
    entries: Seq<DescView>,
    sdefs: Seq<StructDefView>,
    w: Seq<usize>,
    e: int,
    t_pos: int,
    k: int,
) -> bool {
    match entries[e].group {
        TypeGroup::StructTypes(s) => s.index < sdefs.len() ==> forall|f: int|
            0 <= f < sdefs[s.index as int].field_tys.len() && (e != t_pos || f < k)
            ==> has_desc(
                entries,
                spec_type_desc(
                    resolve_ty(#[trigger] sdefs[s.index as int].field_tys[f]),
                    sdefs,
                ).name,
            ) || field_queued(sdefs, w, s.index as int, f),
        TypeGroup::FundamentalTypes => true,
    }
}

/// An entry whose fields are all present needs no queue.
proof fn lemma_present_implies_queued(
    entries: Seq<DescView>,
    sdefs: Seq<StructDefView>,
    w: Seq<usize>,
    e: int,
)
    requires
        0 <= e < entries.len(),
        entry_fields_present(entries, sdefs, e),
    ensures
        entry_ok_or_queued(entries, sdefs, w, e),
{
}

/// Descriptor presence is monotone under pointwise extension.
proof fn lemma_has_desc_grow2(e1: Seq<DescView>, e2: Seq<DescView>, n: Seq<char>)
    requires
        e2.len() >= e1.len(),
        forall|j: int| 0 <= j < e1.len() ==> e2[j] == e1[j],
        has_desc(e1, n),
    ensures
        has_desc(e2, n),
{
    let i = choose|i: int| 0 <= i < e1.len() && (#[trigger] e1[i]).name == n;
    assert(e2[i].name == n);
}

/// An entry's field closure survives appending descriptors.
proof fn lemma_entry_grows(
    e0: Seq<DescView>,
    e1: Seq<DescView>,
    sdefs: Seq<StructDefView>,
    e: int,
)
    requires
        e1.len() >= e0.len(),
        e1.take(e0.len() as int) == e0,
        0 <= e < e0.len(),
        entry_fields_present(e0, sdefs, e),
    ensures
        entry_fields_present(e1, sdefs, e),
{
    assert forall|j: int| 0 <= j < e0.len() implies e1[j] == e0[j] by {
        assert(e1[j] == e1.take(e0.len() as int)[j]);
    }
    match e1[e].group {
        TypeGroup::StructTypes(s) => {
            if s.index < sdefs.len() {
                assert forall|f: int| 0 <= f < sdefs[s.index as int].field_tys.len()
                    implies has_desc(
                    e1,
                    spec_type_desc(
                        resolve_ty(#[trigger] sdefs[s.index as int].field_tys[f]),
                        sdefs,
                    ).name,
                ) by {
                    lemma_has_desc_grow2(
                        e0,
                        e1,
                        spec_type_desc(
                            resolve_ty(sdefs[s.index as int].field_tys[f]),
                            sdefs,
                        ).name,
                    );
                }
            }
        },
        TypeGroup::FundamentalTypes => {},
    }
}

/// Popping an occurrence of an already-present struct keeps every entry
/// closed-or-queued: obligations that pointed at the popped struct are
/// answered by its present descriptor.
proof fn lemma_requeue(
    entries: Seq<DescView>,
    sdefs: Seq<StructDefView>,
    w0: Seq<usize>,
    w1: Seq<usize>,
    t: int,
    e: int,
)
    requires
        w0.len() > 0,
        w1 == w0.drop_last(),
        w0[w0.len() - 1] as int == t,
        0 <= t < sdefs.len(),
        has_desc(entries, sdefs[t].name),
        0 <= e < entries.len(),
        entry_ok_or_queued(entries, sdefs, w0, e),
    ensures
        entry_ok_or_queued(entries, sdefs, w1, e),
{
    match entries[e].group {
        TypeGroup::StructTypes(s) => {
            if s.index < sdefs.len() {
                assert forall|f: int| 0 <= f < sdefs[s.index as int].field_tys.len()
                    implies has_desc(
                    entries,
                    spec_type_desc(
                        resolve_ty(#[trigger] sdefs[s.index as int].field_tys[f]),
                        sdefs,
                    ).name,
                ) || field_queued(sdefs, w1, s.index as int, f) by {
                    let name = spec_type_desc(
                        resolve_ty(sdefs[s.index as int].field_tys[f]),
                        sdefs,
                    ).name;
                    if !has_desc(entries, name) {
                        assert(field_queued(sdefs, w0, s.index as int, f));
                        match resolved_struct(sdefs[s.index as int].field_tys[f]) {
                            Some(fs) => {
                                let i = choose|i: int| 0 <= i < w0.len() && (
                                #[trigger] w0[i]) == fs.index as int;
                                if i < w0.len() - 1 {
                                    assert(w1[i] == w0[i]);
                                    assert(in_work(w1, fs.index as int));
                                } else {
                                    assert(fs.index as int == t);
                                    assert(name == sdefs[t].name);
                                    assert(false);
                                }
                            },
                            None => {},
                        }
                    }
                }
            }
        },
        TypeGroup::FundamentalTypes => {},
    }
}

/// A fully closed-or-queued entry stays so in any pointwise extension of
/// the table.
proof fn lemma_full_grow(
    e0: Seq<DescView>,
    e1: Seq<DescView>,
    sdefs: Seq<StructDefView>,
    w: Seq<usize>,
    e: int,
)
    requires
        e1.len() >= e0.len(),
        forall|j: int| 0 <= j < e0.len() ==> e1[j] == e0[j],
        0 <= e < e0.len(),
        entry_ok_or_queued(e0, sdefs, w, e),
    ensures
        entry_ok_or_queued(e1, sdefs, w, e),
{
    match e1[e].group {
        TypeGroup::StructTypes(s) => {
            if s.index < sdefs.len() {
                assert forall|f: int| 0 <= f < sdefs[s.index as int].field_tys.len()
                    implies has_desc(
                    e1,
                    spec_type_desc(
                        resolve_ty(#[trigger] sdefs[s.index as int].field_tys[f]),
                        sdefs,
                    ).name,
                ) || field_queued(sdefs, w, s.index as int, f) by {
                    let name = spec_type_desc(
                        resolve_ty(sdefs[s.index as int].field_tys[f]),
                        sdefs,
                    ).name;
                    if has_desc(e0, name) {
                        lemma_has_desc_grow2(e0, e1, name);
                    }
                }
            }
        },
        TypeGroup::FundamentalTypes => {},
    }
}

/// A fully closed-or-queued entry is closed-or-queued up to any bound,
/// in any pointwise extension of the table.
proof fn lemma_full_to_upto_grow(
    e0: Seq<DescView>,
    e1: Seq<DescView>,
    sdefs: Seq<StructDefView>,
    w: Seq<usize>,
    e: int,
    t_pos: int,
    k: int,
)
    requires
        e1.len() >= e0.len(),
        forall|j: int| 0 <= j < e0.len() ==> e1[j] == e0[j],
        0 <= e < e0.len(),
        entry_ok_or_queued(e0, sdefs, w, e),
    ensures
        entry_ok_or_queued_upto(e1, sdefs, w, e, t_pos, k),
{
    match e1[e].group {
        TypeGroup::StructTypes(s) => {
            if s.index < sdefs.len() {
                assert forall|f: int| 0 <= f < sdefs[s.index as int].field_tys.len() && (e
                    != t_pos || f < k) implies has_desc(
                    e1,
                    spec_type_desc(
                        resolve_ty(#[trigger] sdefs[s.index as int].field_tys[f]),
                        sdefs,
                    ).name,
                ) || field_queued(sdefs, w, s.index as int, f) by {
                    let name = spec_type_desc(
                        resolve_ty(sdefs[s.index as int].field_tys[f]),
                        sdefs,
                    ).name;
                    if has_desc(e0, name) {
                        lemma_has_desc_grow2(e0, e1, name);
                    }
                }
            }
        },
        TypeGroup::FundamentalTypes => {},
    }
}

/// Closed-or-queued up to a bound survives appending descriptors.
proof fn lemma_upto_grow(
    e0: Seq<DescView>,
    e1: Seq<DescView>,
    sdefs: Seq<StructDefView>,
    w: Seq<usize>,
    e: int,
    t_pos: int,
    k: int,
)
    requires
        e1.len() >= e0.len(),
        forall|j: int| 0 <= j < e0.len() ==> e1[j] == e0[j],
        0 <= e < e0.len(),
        entry_ok_or_queued_upto(e0, sdefs, w, e, t_pos, k),
    ensures
        entry_ok_or_queued_upto(e1, sdefs, w, e, t_pos, k),
{
    match e1[e].group {
        TypeGroup::StructTypes(s) => {
            if s.index < sdefs.len() {
                assert forall|f: int| 0 <= f < sdefs[s.index as int].field_tys.len() && (e
                    != t_pos || f < k) implies has_desc(
                    e1,
                    spec_type_desc(
                        resolve_ty(#[trigger] sdefs[s.index as int].field_tys[f]),
                        sdefs,
                    ).name,
                ) || field_queued(sdefs, w, s.index as int, f) by {
                    let name = spec_type_desc(
                        resolve_ty(sdefs[s.index as int].field_tys[f]),
                        sdefs,
                    ).name;
                    if has_desc(e0, name) {
                        lemma_has_desc_grow2(e0, e1, name);
                    }
                }
            }
        },
        TypeGroup::FundamentalTypes => {},
    }
}

/// Queuing one more struct extends the processed prefix of the struct
/// under collection by the field that queued it.
proof fn lemma_queue_push(
    entries: Seq<DescView>,
    sdefs: Seq<StructDefView>,
    wk: Seq<usize>,
    w1: Seq<usize>,
    e: int,
    t_pos: int,
    k: int,
    t: int,
)
    requires
        w1.len() == wk.len() + 1,
        forall|j: int| 0 <= j < wk.len() ==> w1[j] == wk[j],
        0 <= e < entries.len(),
        entry_ok_or_queued_upto(entries, sdefs, wk, e, t_pos, k),
        0 <= t_pos < entries.len(),
        entries[t_pos].group == TypeGroup::StructTypes(StructId { index: t as usize }),
        0 <= t < sdefs.len(),
        t <= usize::MAX,
        0 <= k < sdefs[t].field_tys.len(),
        field_queued(sdefs, w1, t, k),
    ensures
        entry_ok_or_queued_upto(entries, sdefs, w1, e, t_pos, k + 1),
{
    match entries[e].group {
        TypeGroup::StructTypes(s) => {
            if s.index < sdefs.len() {
                assert forall|f: int| 0 <= f < sdefs[s.index as int].field_tys.len() && (e
                    != t_pos || f < k + 1) implies has_desc(
                    entries,
                    spec_type_desc(
                        resolve_ty(#[trigger] sdefs[s.index as int].field_tys[f]),
                        sdefs,
                    ).name,
                ) || field_queued(sdefs, w1, s.index as int, f) by {
                    if e == t_pos && f == k {
                        assert(s.index as int == t);
                        assert(field_queued(sdefs, w1, t, k));
                    } else {
                        let name = spec_type_desc(
                            resolve_ty(sdefs[s.index as int].field_tys[f]),
                            sdefs,
                        ).name;
                        if !has_desc(entries, name) {
                            assert(field_queued(sdefs, wk, s.index as int, f));
                            match resolved_struct(sdefs[s.index as int].field_tys[f]) {
                                Some(fs) => {
                                    let i = choose|i: int| 0 <= i < wk.len() && (
                                    #[trigger] wk[i]) == fs.index as int;
                                    assert(w1[i] == wk[i]);
                                    assert(in_work(w1, fs.index as int));
                                },
                                None => {},
                            }
                        }
                    }
                }
            }
        },
        TypeGroup::FundamentalTypes => {},
    }
}

/// With every field of the struct under collection processed, the bound
/// no longer excuses anything.
proof fn lemma_upto_full(
    entries: Seq<DescView>,
    sdefs: Seq<StructDefView>,
    w: Seq<usize>,
    e: int,
    t_pos: int,
    nf: int,
)
    requires
        0 <= e < entries.len(),
        entry_ok_or_queued_upto(entries, sdefs, w, e, t_pos, nf),
        e == t_pos ==> (match entries[e].group {
            TypeGroup::StructTypes(s) => s.index < sdefs.len()
                ==> sdefs[s.index as int].field_tys.len() <= nf,
            TypeGroup::FundamentalTypes => true,
        }),
    ensures
        entry_ok_or_queued(entries, sdefs, w, e),
{
}

/// With an empty work list, closed-or-queued is simply closed.
proof fn lemma_no_queue(
    entries: Seq<DescView>,
    sdefs: Seq<StructDefView>,
    w: Seq<usize>,
    e: int,
)
    requires
        w.len() == 0,
        0 <= e < entries.len(),
        entry_ok_or_queued(entries, sdefs, w, e),
    ensures
        entry_fields_present(entries, sdefs, e),
{
}

/// Every struct's fields are queryable types.
pub open spec fn wf_struct_defs(sdefs: Seq<StructDefView>) -> bool {
    forall|s: int, k: int| 0 <= s < sdefs.len() && 0 <= k < sdefs[s].field_tys.len()
        ==> queryable(#[trigger] sdefs[s].field_tys[k], sdefs)
}

/// Every type of a function's signature is queryable, the unit return
/// aside.
pub open spec fn wf_fn_def(arg_tys: Seq<Ty>, ret_ty: Ty, sdefs: Seq<StructDefView>) -> bool {
    &&& forall|i: int| 0 <= i < arg_tys.len() ==> queryable(#[trigger] arg_tys[i], sdefs)
    &&& (ret_ty is Empty || queryable(ret_ty, sdefs))
}

/// Resolving widths keeps a type queryable and keeps struct identity.
pub proof fn lemma_resolve_queryable(ty: Ty, sdefs: Seq<StructDefView>)
    requires
        queryable(ty, sdefs),
    ensures
        queryable(resolve_ty(ty), sdefs),
{
}

} // verus!
