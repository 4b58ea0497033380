//! The descriptors a compiled artifact publishes about itself: its types,
//! their memory layout, and its functions.
//!
//! Within one artifact, struct fields refer to other types by index into
//! the artifact's type list; across artifacts, types are identified by
//! GUID alone.  Function signatures carry the GUIDs of their argument and
//! return types, so two artifacts can agree on a signature without sharing
//! descriptors.
//!
//! Every descriptor has a mathematical view (`@`); the contracts of the
//! whole crate speak of those views.

use vstd::prelude::*;
use crate::guid::Guid;

verus! {

/// How values of a struct type live in memory: on the garbage-collected
/// heap, referenced through an 8-byte handle slot, or inline by layout.
#[derive(Clone, Copy, Debug, Eq, PartialEq, Structural)]
pub enum MemoryKind {
    Gc,
    Value,
}

/// A fundamental (non-struct) type, as the runtime reads it from the
/// descriptor's name.
#[derive(Clone, Copy, Debug, Eq, PartialEq, Structural)]
pub enum FundKind {
    Bool,
    Int { bits: u16, signed: bool },
    Float { bits: u16 },
    Unit,
}

/// Layout and field list of a struct type.  Field types are indices into
/// the owning artifact's type list.
#[derive(Debug)]
pub struct StructInfo {
    pub field_names: Vec<String>,
    pub field_types: Vec<usize>,
    pub field_offsets: Vec<u16>,
    pub field_sizes: Vec<u16>,
    pub alignment: u16,
    pub size: u16,
    pub memory_kind: MemoryKind,
}

/// Mathematical view of a struct descriptor.
pub ghost struct StructView {
    pub field_names: Seq<Seq<char>>,
    pub field_types: Seq<usize>,
    pub field_offsets: Seq<u16>,
    pub field_sizes: Seq<u16>,
    pub alignment: u16,
    pub size: u16,
    pub memory_kind: MemoryKind,
}

impl View for StructInfo {
    type V = StructView;

    open spec fn view(&self) -> StructView {
        StructView {
            field_names: self.field_names.deep_view(),
            field_types: self.field_types@,
            field_offsets: self.field_offsets@,
            field_sizes: self.field_sizes@,
            alignment: self.alignment,
            size: self.size,
            memory_kind: self.memory_kind,
        }
    }
}

/// What kind of type a descriptor describes.
#[derive(Debug)]
pub enum TypeGroup {
    Fundamental(FundKind),
    Struct(StructInfo),
}

/// Mathematical view of a type group.
pub ghost enum TypeGroupView {
    Fundamental(FundKind),
    Struct(StructView),
}

impl View for TypeGroup {
    type V = TypeGroupView;

    open spec fn view(&self) -> TypeGroupView {
        match self {
            TypeGroup::Fundamental(k) => TypeGroupView::Fundamental(*k),
            TypeGroup::Struct(si) => TypeGroupView::Struct(si@),
        }
    }
}

/// A type descriptor.  The GUID alone determines identity; the name is a
/// human-readable label.
#[derive(Debug)]
pub struct TypeInfo {
    pub guid: Guid,
    pub name: String,
    pub group: TypeGroup,
}

/// Mathematical view of a type descriptor.
pub ghost struct TypeView {
    pub guid: Guid,
    pub name: Seq<char>,
    pub group: TypeGroupView,
}

impl View for TypeInfo {
    type V = TypeView;

    open spec fn view(&self) -> TypeView {
        TypeView { guid: self.guid, name: self.name@, group: self.group@ }
    }
}

/// The views of an artifact's type descriptors, in list order.
pub open spec fn types_view(types: Seq<TypeInfo>) -> Seq<TypeView> {
    types.map_values(|t: TypeInfo| t@)
}

/// A function signature.  Argument and return types are named by GUID;
/// an absent return type means the function returns unit.
#[derive(Debug)]
pub struct FunctionSignature {
    pub name: String,
    pub arg_types: Vec<Guid>,
    pub return_type: Option<Guid>,
}

/// Mathematical view of a function signature.
pub ghost struct SigView {
    pub name: Seq<char>,
    pub arg_types: Seq<Guid>,
    pub return_type: Option<Guid>,
}

impl View for FunctionSignature {
    type V = SigView;

    open spec fn view(&self) -> SigView {
        SigView {
            name: self.name@,
            arg_types: self.arg_types@,
            return_type: self.return_type,
        }
    }
}

/// A function an artifact provides: its signature and the address of its
/// native code.  The address is borrowed from the artifact and is never
/// dereferenced by the core.
#[derive(Debug)]
pub struct FunctionInfo {
    pub signature: FunctionSignature,
    pub fn_ptr: usize,
}

/// Mathematical view of a named native address: a function the table
/// holds, or a call slot.
pub ghost struct FnView {
    pub signature: SigView,
    pub fn_ptr: usize,
}

impl View for FunctionInfo {
    type V = FnView;

    open spec fn view(&self) -> FnView {
        FnView { signature: self.signature@, fn_ptr: self.fn_ptr }
    }
}

/// The views of a function list, in list order.
pub open spec fn fns_view(fns: Seq<FunctionInfo>) -> Seq<FnView> {
    fns.map_values(|f: FunctionInfo| f@)
}

/// Everything one artifact exports: its module path, its type descriptors
/// and its functions.
#[derive(Debug)]
pub struct Symbols {
    pub path: String,
    pub types: Vec<TypeInfo>,
    pub functions: Vec<FunctionInfo>,
}

/// Mathematical view of an artifact's symbols.
pub ghost struct SymbolsView {
    pub path: Seq<char>,
    pub types: Seq<TypeView>,
    pub functions: Seq<FnView>,
}

impl View for Symbols {
    type V = SymbolsView;

    open spec fn view(&self) -> SymbolsView {
        SymbolsView {
            path: self.path@,
            types: types_view(self.types@),
            functions: fns_view(self.functions@),
        }
    }
}

/// An unresolved call site of an artifact: the signature the artifact
/// expects, and the address last written into the slot (0 while
/// unresolved).
#[derive(Debug)]
pub struct DispatchSlot {
    pub signature: FunctionSignature,
    pub fn_ptr: usize,
}

impl View for DispatchSlot {
    type V = FnView;

    open spec fn view(&self) -> FnView {
        FnView { signature: self.signature@, fn_ptr: self.fn_ptr }
    }
}

/// The views of a call-slot list, in list order.
pub open spec fn slots_view(slots: Seq<DispatchSlot>) -> Seq<FnView> {
    slots.map_values(|s: DispatchSlot| s@)
}

/// What an artifact hands the runtime at load: its symbols and its
/// unresolved call slots.
#[derive(Debug)]
pub struct AssemblyInfo {
    pub symbols: Symbols,
    pub dispatch_table: Vec<DispatchSlot>,
}

/// Mathematical view of what an artifact hands the runtime.
pub ghost struct AssemblyView {
    pub symbols: SymbolsView,
    pub dispatch_table: Seq<FnView>,
}

impl View for AssemblyInfo {
    type V = AssemblyView;

    open spec fn view(&self) -> AssemblyView {
        AssemblyView {
            symbols: self.symbols@,
            dispatch_table: slots_view(self.dispatch_table@),
        }
    }
}

/// Size in bytes of a value of a fundamental type.
pub open spec fn fund_size(k: FundKind) -> int {
    match k {
        FundKind::Bool => 1,
        FundKind::Unit => 0,
        FundKind::Int { bits, .. } => bits as int / 8,
        FundKind::Float { bits } => bits as int / 8,
    }
}

/// Size in bytes a field of the given type occupies inside a struct:
/// GC structs are held through an 8-byte handle slot, value structs
/// inline, fundamentals by their own size.
pub open spec fn field_slot_size(types: Seq<TypeView>, ft: int) -> int {
    match types[ft].group {
        TypeGroupView::Struct(fsi) => if fsi.memory_kind is Gc {
            8
        } else {
            fsi.size as int
        },
        TypeGroupView::Fundamental(k) => fund_size(k),
    }
}

/// Well-formedness of one field of a struct descriptor: the field's type
/// index is in range, the declared size agrees with the field's type, and
/// a struct held by value comes earlier in the type list than the struct
/// containing it (so value containment cannot cycle).
pub open spec fn wf_field(si: StructView, types: Seq<TypeView>, self_index: int, i: int) -> bool {
    let ft = si.field_types[i] as int;
    &&& ft < types.len()
    &&& si.field_sizes[i] as int == field_slot_size(types, ft)
    &&& match types[ft].group {
        TypeGroupView::Struct(fsi) => fsi.memory_kind is Gc || ft < self_index,
        TypeGroupView::Fundamental(k) => wf_fund_kind(k),
    }
}

/// The widths the code generator emits: byte-addressable integers up to
/// 64 bits, 32- or 64-bit floats.
pub open spec fn wf_fund_kind(k: FundKind) -> bool {
    match k {
        FundKind::Bool => true,
        FundKind::Unit => true,
        FundKind::Int { bits, .. } => bits == 8 || bits == 16 || bits == 32 || bits == 64,
        FundKind::Float { bits } => bits == 32 || bits == 64,
    }
}

/// Well-formedness of a struct descriptor at index `self_index` of `types`:
/// the four field arrays have one entry per field, offsets are strictly
/// increasing, fields do not overlap and fit in the struct's size, and the
/// size is a positive-alignment multiple.
pub open spec fn wf_struct_info(si: StructView, types: Seq<TypeView>, self_index: int) -> bool {
    let n = si.field_names.len() as int;
    &&& si.field_types.len() == n
    &&& si.field_offsets.len() == n
    &&& si.field_sizes.len() == n
    &&& si.alignment > 0
    &&& si.size as int % si.alignment as int == 0
    &&& forall|i: int| 0 <= i < n ==> #[trigger] wf_field(si, types, self_index, i)
    &&& forall|i: int| 0 <= i < n - 1 ==> (#[trigger] si.field_offsets[i]) <
        si.field_offsets[i + 1]
    &&& forall|i: int| 0 <= i < n - 1 ==> (#[trigger] si.field_offsets[i]) +
        si.field_sizes[i] <= si.field_offsets[i + 1]
    &&& forall|i: int| 0 <= i < n ==> (#[trigger] si.field_offsets[i]) + si.field_sizes[i]
        <= si.size
}

/// Well-formedness of an artifact's type list: every struct descriptor in
/// it is well formed with respect to the list.
pub open spec fn wf_type_registry(types: Seq<TypeView>) -> bool {
    forall|ti: int| 0 <= ti < types.len() ==> match (#[trigger] types[ti]).group {
        TypeGroupView::Struct(si) => wf_struct_info(si, types, ti),
        TypeGroupView::Fundamental(_) => true,
    }
}

/// Size in bytes of a value of the given type: a struct's declared size,
/// a fundamental's own size.
pub open spec fn type_size(t: TypeView) -> int {
    match t.group {
        TypeGroupView::Struct(si) => si.size as int,
        TypeGroupView::Fundamental(k) => fund_size(k),
    }
}

/// Structural equality of two signatures: equal return type and equal
/// argument types, each compared by GUID.  Names are compared separately
/// by the callers that care.
pub open spec fn sig_matches(a: SigView, b: SigView) -> bool {
    &&& a.return_type == b.return_type
    &&& a.arg_types == b.arg_types
}

impl TypeInfo {
    /// The size in bytes of a value of this type.
    pub fn size_in_bytes(&self) -> (r: u16)
        ensures
            r as int == type_size(self@),
    {
        match &self.group {
            TypeGroup::Struct(si) => si.size,
            TypeGroup::Fundamental(k) => match k {
                FundKind::Bool => 1,
                FundKind::Unit => 0,
                FundKind::Int { bits, .. } => *bits / 8,
                FundKind::Float { bits } => *bits / 8,
            },
        }
    }
}

impl Clone for FunctionSignature {
    /// The copy has the same view as the original.
    fn clone(&self) -> (r: Self)
        ensures
            r@ == self@,
    {
        let mut arg_types: Vec<Guid> = Vec::new();
        let n = self.arg_types.len();
        let mut i: usize = 0;
        while i < n
            invariant
                0 <= i <= n,
                n == self.arg_types@.len(),
                arg_types@ == self.arg_types@.take(i as int),
            decreases n - i,
        {
            arg_types.push(self.arg_types[i]);
            proof {
                assert(self.arg_types@.take(i as int).push(self.arg_types@[i as int])
                    =~= self.arg_types@.take(i + 1 as int));
            }
            i = i + 1;
        }
        proof {
            assert(arg_types@ =~= self.arg_types@);
        }
        let return_type = match &self.return_type {
            Option::Some(g) => Option::Some(*g),
            Option::None => Option::None,
        };
        FunctionSignature { name: self.name.clone(), arg_types, return_type }
    }
}

impl Clone for FunctionInfo {
    /// The copy has the same view as the original.
    fn clone(&self) -> (r: Self)
        ensures
            r@ == self@,
    {
        FunctionInfo { signature: self.signature.clone(), fn_ptr: self.fn_ptr }
    }
}

impl Clone for DispatchSlot {
    /// The copy has the same view as the original.
    fn clone(&self) -> (r: Self)
        ensures
            r@ == self@,
    {
        DispatchSlot { signature: self.signature.clone(), fn_ptr: self.fn_ptr }
    }
}

impl FunctionSignature {
    /// Whether `self` and `other` agree on return type, arity and argument
    /// types; names take no part.
    pub fn matches(&self, other: &FunctionSignature) -> (r: bool)
        ensures
            r == sig_matches(self@, other@),
    {
        let ret_ok = match (&self.return_type, &other.return_type) {
            (Option::None, Option::None) => true,
            (Option::Some(a), Option::Some(b)) => a.value == b.value,
            _ => false,
        };
        if !ret_ok {
            return false;
        }
        if self.arg_types.len() != other.arg_types.len() {
            assert(self.arg_types@ !~= other.arg_types@);
            return false;
        }
        let n = self.arg_types.len();
        let mut i: usize = 0;
        while i < n
            invariant
                n == self.arg_types@.len(),
                n == other.arg_types@.len(),
                0 <= i <= n,
                forall|j: int| 0 <= j < i ==> self.arg_types@[j] == other.arg_types@[j],
            decreases n - i,
        {
            if self.arg_types[i].value != other.arg_types[i].value {
                return false;
            }
            i = i + 1;
        }
        assert(self.arg_types@ =~= other.arg_types@);
        true
    }
}

} // verus!
