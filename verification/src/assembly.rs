//! An assembly: one loaded compiled artifact and its binding state.
//!
//! The host side copies the artifact to a scratch path, opens it, reads its
//! exports and hands the resulting [`AssemblyInfo`] here.  This module
//! decides whether the artifact can be linked against the runtime's
//! dispatch table, performs the linking, and swaps the assembly for a newer
//! compilation.

use vstd::prelude::*;
use crate::abi::{sig_matches, AssemblyInfo, DispatchSlot, FnView, FunctionInfo, SigView};
use crate::dispatch::{
    lemma_lookup_is_member, lemma_lookup_push, lemma_lookup_skip, lookup_fn, DepView,
    DispatchTable,
};
use crate::error::{LinkError, LoadError, MigrationError};
use crate::abi::{types_view, wf_type_registry};
use crate::diff::diff;
use crate::gc::GarbageCollector;
use crate::mapping::{heap_has_dangling, migrate_object};

verus! {

/// Name lookup as the linker sees it while binding one assembly: the
/// assembly's own functions shadow the table's.
pub open spec fn merged_lookup(
    own: Seq<FnView>,
    table_fns: Seq<FnView>,
    name: Seq<char>,
) -> Option<FnView> {
    match lookup_fn(own, name) {
        Some(f) => Some(f),
        None => lookup_fn(table_fns, name),
    }
}

/// One call slot of an assembly can be bound: the merged lookup of the
/// slot's name finds a function whose signature equals the slot's.
pub open spec fn slot_resolvable(
    own: Seq<FnView>,
    table_fns: Seq<FnView>,
    slot: FnView,
) -> bool {
    match merged_lookup(own, table_fns, slot.signature.name) {
        Some(f) => sig_matches(f.signature, slot.signature),
        None => false,
    }
}

/// The table satisfies an assembly's dependencies: every call slot of the
/// assembly can be bound, its own functions shadowing the table's.
pub open spec fn assembly_linkable(
    own: Seq<FnView>,
    table_fns: Seq<FnView>,
    slots: Seq<FnView>,
) -> bool {
    forall|i: int| 0 <= i < slots.len() ==> slot_resolvable(own, table_fns, #[trigger] slots[i])
}

/// Well-formedness of what an artifact publishes: function names are
/// unique and every provided function has a real (non-null) address.
pub open spec fn wf_assembly_info(info: AssemblyInfo) -> bool {
    let fns = info@.symbols.functions;
    &&& forall|i: int, j: int| 0 <= i < j < fns.len() ==> (#[trigger] fns[i].signature.name)
        != (#[trigger] fns[j].signature.name)
    &&& forall|i: int| 0 <= i < fns.len() ==> (#[trigger] fns[i].fn_ptr) != 0
}

/// Decides whether an artifact's published information is well formed:
/// its function names unique and every address non-null.  A host holds
/// each artifact to this before linking or swapping it in.
pub fn check_assembly_info(info: &AssemblyInfo) -> (r: bool)
    ensures
        r == wf_assembly_info(*info),
{
    let ghost fns = info@.symbols.functions;
    let n = info.symbols.functions.len();
    let mut i: usize = 0;
    while i < n
        invariant
            fns == info@.symbols.functions,
            n == fns.len(),
            n == info.symbols.functions@.len(),
            0 <= i <= n,
            forall|a: int, b: int| 0 <= a < b < i ==> (#[trigger] fns[a].signature.name)
                != (#[trigger] fns[b].signature.name),
            forall|a: int| 0 <= a < i ==> (#[trigger] fns[a].fn_ptr) != 0,
        decreases n - i,
    {
        proof {
            assert(fns[i as int] == info.symbols.functions@[i as int]@);
        }
        if info.symbols.functions[i].fn_ptr == 0 {
            proof {
                assert(fns[i as int].fn_ptr == 0);
                assert(!wf_assembly_info(*info)) by {
                    if wf_assembly_info(*info) {
                        assert(fns[i as int].fn_ptr != 0);
                    }
                }
            }
            return false;
        }
        let mut j: usize = 0;
        while j < i
            invariant
                fns == info@.symbols.functions,
                n == fns.len(),
                n == info.symbols.functions@.len(),
                i < n,
                0 <= j <= i,
                forall|a: int| 0 <= a < j ==> (#[trigger] fns[a].signature.name)
                    != fns[i as int].signature.name,
            decreases i - j,
        {
            proof {
                assert(fns[j as int] == info.symbols.functions@[j as int]@);
                assert(fns[i as int] == info.symbols.functions@[i as int]@);
            }
            if info.symbols.functions[j].signature.name == info.symbols.functions[i].signature.name {
                proof {
                    assert(fns[j as int].signature.name == fns[i as int].signature.name);
                    assert(!wf_assembly_info(*info)) by {
                        if wf_assembly_info(*info) {
                            assert(fns[j as int].signature.name
                                != fns[i as int].signature.name);
                        }
                    }
                }
                return false;
            }
            j = j + 1;
        }
        i = i + 1;
    }
    proof {
        assert forall|a: int, b: int| 0 <= a < b < fns.len() implies (
        #[trigger] fns[a].signature.name) != (#[trigger] fns[b].signature.name) by {}
    }
    true
}

/// An assembly is a hot-reloadable compilation unit: the artifact's
/// published information, bound to the path it was loaded from.
#[derive(Debug)]
pub struct Assembly {
    pub library_path: String,
    pub info: AssemblyInfo,
}

/// Checks that an artifact exports the two entry points the runtime
/// requires.  The host reads the artifact's export list and reports here
/// whether `get_info` and `set_allocator_handle` were found; loading fails
/// with the first missing name.
pub fn validate_exports(has_get_info: bool, has_set_allocator_handle: bool) -> (r: Result<
    (),
    LoadError,
>)
    ensures
        r is Ok <==> (has_get_info && has_set_allocator_handle),
        !has_get_info ==> (match r {
            Err(LoadError::SymbolMissing { name }) => name@ == "get_info"@,
            _ => false,
        }),
        has_get_info && !has_set_allocator_handle ==> (match r {
            Err(LoadError::SymbolMissing { name }) => name@ == "set_allocator_handle"@,
            _ => false,
        }),
{
    if !has_get_info {
        return Err(LoadError::SymbolMissing { name: String::from_str("get_info") });
    }
    if !has_set_allocator_handle {
        return Err(LoadError::SymbolMissing { name: String::from_str("set_allocator_handle") });
    }
    Ok(())
}

impl Assembly {
    /// The views of the assembly's own functions.
    pub open spec fn own_fns(self) -> Seq<FnView> {
        self.info@.symbols.functions
    }

    /// The views of the assembly's call slots.
    pub open spec fn slots(self) -> Seq<FnView> {
        self.info@.dispatch_table
    }

    /// Verifies that the assembly resolves all dependencies in the
    /// dispatch table: every call slot must name a function — its own
    /// shadowing the table's — with exactly the expected signature.
    pub fn ensure_linkable(&self, runtime_dispatch_table: &DispatchTable) -> (r: Result<
        (),
        LinkError,
    >)
        ensures
            r is Ok <==> assembly_linkable(
                self.own_fns(),
                runtime_dispatch_table.fns(),
                self.slots(),
            ),
            match r {
                Ok(_) => true,
                Err(LinkError::UnresolvedSymbol { name }) => exists|i: int|
                    0 <= i < self.slots().len()
                    && (#[trigger] self.slots()[i]).signature.name == name@
                    && merged_lookup(
                        self.own_fns(),
                        runtime_dispatch_table.fns(),
                        name@,
                    ) is None,
                Err(LinkError::SignatureMismatch { name, expected, found }) => {
                    let resolved = merged_lookup(
                        self.own_fns(),
                        runtime_dispatch_table.fns(),
                        name@,
                    );
                    &&& exists|i: int| 0 <= i < self.slots().len()
                        && (#[trigger] self.slots()[i]).signature == expected@
                    &&& expected@.name == name@
                    &&& resolved is Some
                    &&& resolved->Some_0.signature == found@
                    &&& !sig_matches(found@, expected@)
                },
            },
    {
        let n = self.info.dispatch_table.len();
        let mut i: usize = 0;
        while i < n
            invariant
                n == self.info.dispatch_table@.len(),
                n == self.slots().len(),
                0 <= i <= n,
                forall|j: int| 0 <= j < i ==> slot_resolvable(
                    self.own_fns(),
                    runtime_dispatch_table.fns(),
                    #[trigger] self.slots()[j],
                ),
            decreases n - i,
        {
            let ghost slotv = self.slots()[i as int];
            proof {
                assert(slotv == self.info.dispatch_table@[i as int]@);
            }
            let slot_sig = &self.info.dispatch_table[i].signature;
            let own_found = lookup_in(&self.info.symbols.functions, &slot_sig.name);
            let resolved = match own_found {
                Some(f) => Some(f),
                None => runtime_dispatch_table.get_fn(&slot_sig.name),
            };
            match resolved {
                None => {
                    proof {
                        assert(merged_lookup(
                            self.own_fns(),
                            runtime_dispatch_table.fns(),
                            slotv.signature.name,
                        ) is None);
                        assert(!slot_resolvable(
                            self.own_fns(),
                            runtime_dispatch_table.fns(),
                            slotv,
                        ));
                    }
                    return Err(LinkError::UnresolvedSymbol { name: slot_sig.name.clone() });
                },
                Some(f) => {
                    if !f.signature.matches(slot_sig) {
                        proof {
                            assert(merged_lookup(
                                self.own_fns(),
                                runtime_dispatch_table.fns(),
                                slotv.signature.name,
                            ) == Some(f@));
                            assert(!slot_resolvable(
                                self.own_fns(),
                                runtime_dispatch_table.fns(),
                                slotv,
                            ));
                        }
                        return Err(LinkError::SignatureMismatch {
                            name: slot_sig.name.clone(),
                            expected: slot_sig.clone(),
                            found: f.signature.clone(),
                        });
                    }
                    proof {
                        assert(slot_resolvable(
                            self.own_fns(),
                            runtime_dispatch_table.fns(),
                            slotv,
                        ));
                    }
                },
            }
            i = i + 1;
        }
        Ok(())
    }

    /// Loads an assembly from the information the artifact at
    /// `library_path` published.  The resulting assembly is ensured to be
    /// linkable against the dispatch table; otherwise the link error is
    /// returned and nothing is retained.
    pub fn load(library_path: String, info: AssemblyInfo, runtime_dispatch_table: &DispatchTable)
        -> (r: Result<Assembly, LinkError>)
        ensures
            r is Ok <==> assembly_linkable(
                info@.symbols.functions,
                runtime_dispatch_table.fns(),
                info@.dispatch_table,
            ),
            match r {
                Ok(a) => a.library_path@ == library_path@ && a.info@ == info@,
                Err(_) => true,
            },
    {
        let assembly = Assembly { library_path, info };
        match assembly.ensure_linkable(runtime_dispatch_table) {
            Ok(_) => Ok(assembly),
            Err(e) => Err(e),
        }
    }

    /// Links the assembly: registers every function it provides in the
    /// dispatch table, then writes into each of its call slots the address
    /// of the function the slot's name resolves to.  Afterwards every slot
    /// holds the resolved address, whose signature matches the slot's.
    pub fn link(&mut self, runtime_dispatch_table: &mut DispatchTable)
        requires
            old(runtime_dispatch_table).wf(),
            wf_assembly_info(old(self).info),
            assembly_linkable(
                old(self).own_fns(),
                old(runtime_dispatch_table).fns(),
                old(self).slots(),
            ),
        ensures
            final(runtime_dispatch_table).wf(),
            forall|n: Seq<char>| lookup_fn(final(runtime_dispatch_table).fns(), n)
                == merged_lookup(old(self).own_fns(), old(runtime_dispatch_table).fns(), n),
            final(runtime_dispatch_table).deps() == old(runtime_dispatch_table).deps(),
            final(self).library_path@ == old(self).library_path@,
            final(self).info@.symbols == old(self).info@.symbols,
            final(self).slots().len() == old(self).slots().len(),
            forall|k: int| 0 <= k < old(self).slots().len() ==> {
                let slot = #[trigger] final(self).slots()[k];
                let old_slot = old(self).slots()[k];
                let resolved = merged_lookup(
                    old(self).own_fns(),
                    old(runtime_dispatch_table).fns(),
                    old_slot.signature.name,
                );
                &&& slot.signature == old_slot.signature
                &&& resolved is Some
                &&& slot.fn_ptr == resolved->Some_0.fn_ptr
                &&& sig_matches(resolved->Some_0.signature, slot.signature)
            },
    {
        let ghost own = self.own_fns();
        let ghost t0 = runtime_dispatch_table.fns();

        // Fill the runtime's dispatch table with the functions this
        // assembly provides.
        let nfns = self.info.symbols.functions.len();
        let mut i: usize = 0;
        while i < nfns
            invariant
                runtime_dispatch_table.wf(),
                wf_assembly_info(self.info),
                *self == *old(self),
                own == self.own_fns(),
                nfns == own.len(),
                nfns == self.info.symbols.functions@.len(),
                0 <= i <= nfns,
                runtime_dispatch_table.deps() == old(runtime_dispatch_table).deps(),
                forall|n: Seq<char>| lookup_fn(runtime_dispatch_table.fns(), n)
                    == merged_lookup(own.take(i as int), t0, n),
            decreases nfns - i,
        {
            let f = self.info.symbols.functions[i].clone();
            proof {
                assert(own[i as int] == self.info.symbols.functions@.map_values(
                    |g: FunctionInfo| g@,
                )[i as int]);
            }
            runtime_dispatch_table.insert_fn(f);
            proof {
                assert(own.take(i as int).push(own[i as int]) =~= own.take(i + 1 as int));
                assert forall|n: Seq<char>| lookup_fn(runtime_dispatch_table.fns(), n)
                    == merged_lookup(own.take(i + 1 as int), t0, n) by {
                    lemma_lookup_push(own.take(i as int), own[i as int], n);
                    if n == own[i as int].signature.name
                        && lookup_fn(own.take(i as int), n) is Some {
                        // The assembly's function names are unique, so the
                        // name cannot already occur among the first `i`.
                        lemma_lookup_is_member(own.take(i as int), n);
                        let j = choose|j: int| 0 <= j < own.take(i as int).len()
                            && #[trigger] own.take(i as int)[j] == lookup_fn(
                            own.take(i as int),
                            n,
                        )->Some_0 && own.take(i as int)[j].signature.name == n;
                        assert(own[j].signature.name != own[i as int].signature.name);
                    }
                }
            }
            i = i + 1;
        }
        proof {
            assert(own.take(nfns as int) =~= own);
        }

        // Resolve every call slot against the now-filled table.
        let nslots = self.info.dispatch_table.len();
        let mut new_slots: Vec<DispatchSlot> = Vec::new();
        let mut k: usize = 0;
        while k < nslots
            invariant
                runtime_dispatch_table.wf(),
                *self == *old(self),
                own == self.own_fns(),
                forall|n: Seq<char>| lookup_fn(runtime_dispatch_table.fns(), n)
                    == merged_lookup(own, t0, n),
                assembly_linkable(own, t0, self.slots()),
                nslots == self.slots().len(),
                0 <= k <= nslots,
                new_slots@.len() == k,
                forall|j: int| 0 <= j < k ==> {
                    let slot = (#[trigger] new_slots@[j])@;
                    let old_slot = self.slots()[j];
                    let resolved = merged_lookup(own, t0, old_slot.signature.name);
                    &&& slot.signature == old_slot.signature
                    &&& resolved is Some
                    &&& slot.fn_ptr == resolved->Some_0.fn_ptr
                },
            decreases nslots - k,
        {
            let slot_sig = self.info.dispatch_table[k].signature.clone();
            proof {
                assert(self.slots()[k as int] == self.info.dispatch_table@.map_values(
                    |s: DispatchSlot| s@,
                )[k as int]);
                assert(slot_resolvable(own, t0, self.slots()[k as int]));
            }
            let resolved = runtime_dispatch_table.get_fn(&slot_sig.name);
            match resolved {
                Some(f) => {
                    new_slots.push(DispatchSlot { signature: slot_sig, fn_ptr: f.fn_ptr });
                },
                None => {
                    // Unreachable: linkability was required.
                    assert(false);
                    new_slots.push(DispatchSlot { signature: slot_sig, fn_ptr: 0 });
                },
            }
            k = k + 1;
        }
        self.info.dispatch_table = new_slots;
        proof {
            assert(self.info@.symbols == old(self).info@.symbols);
        }
    }

    /// Returns the assembly's information.
    pub fn info(&self) -> (r: &AssemblyInfo)
        ensures
            r@ == self.info@,
    {
        &self.info
    }

    /// Returns the path the assembly's library was loaded from.
    pub fn library_path(&self) -> (r: &String)
        ensures
            r@ == self.library_path@,
    {
        &self.library_path
    }
}


/// Why a hot swap was refused.  Every failure here happens before any
/// state is rewritten: the old assembly stays live and linked.
#[derive(Debug)]
pub enum SwapError {
    /// The new artifact cannot be linked, either against the current
    /// table or once the old assembly's functions are withdrawn.
    Link(LinkError),
    /// The live objects cannot be migrated.
    Migration(MigrationError),
}

/// What a name resolves to once one assembly's functions are withdrawn
/// from the table: the entry vanishes if the assembly owns it (same name,
/// same address), and is kept otherwise.
pub open spec fn removal_lookup(
    own: Seq<FnView>,
    table_fns: Seq<FnView>,
    name: Seq<char>,
) -> Option<FnView> {
    match lookup_fn(table_fns, name) {
        Some(f) => match lookup_fn(own, name) {
            Some(g) => if g.fn_ptr == f.fn_ptr {
                None
            } else {
                Some(f)
            },
            None => Some(f),
        },
        None => None,
    }
}

/// An expected signature can still be bound after the swap: the new
/// assembly's functions shadow what remains of the table once the old
/// assembly's functions are withdrawn, and the match must be exact.
pub open spec fn sig_resolvable_after(
    new_own: Seq<FnView>,
    old_own: Seq<FnView>,
    table_fns: Seq<FnView>,
    sig: SigView,
) -> bool {
    match (match lookup_fn(new_own, sig.name) {
        Some(f) => Some(f),
        None => removal_lookup(old_own, table_fns, sig.name),
    }) {
        Some(f) => sig_matches(f.signature, sig),
        None => false,
    }
}

/// A call slot can still be bound after the withdrawal.
pub open spec fn slot_resolvable_after(
    new_own: Seq<FnView>,
    old_own: Seq<FnView>,
    table_fns: Seq<FnView>,
    slot: FnView,
) -> bool {
    sig_resolvable_after(new_own, old_own, table_fns, slot.signature)
}

/// Every call-slot requirement other artifacts have registered still
/// resolves, with its exact signature, in the table as it will stand
/// after the swap.
pub open spec fn deps_satisfied_after(
    deps: Seq<DepView>,
    new_own: Seq<FnView>,
    old_own: Seq<FnView>,
    table_fns: Seq<FnView>,
) -> bool {
    forall|d: int, r: int| 0 <= d < deps.len() && 0 <= r < deps[d].requirements.len()
        ==> sig_resolvable_after(
        new_own,
        old_own,
        table_fns,
        #[trigger] deps[d].requirements[r],
    )
}

/// Every call slot of the new assembly can still be bound after the old
/// assembly's functions are withdrawn.
pub open spec fn linkable_after_removal(
    new_own: Seq<FnView>,
    old_own: Seq<FnView>,
    table_fns: Seq<FnView>,
    slots: Seq<FnView>,
) -> bool {
    forall|i: int| 0 <= i < slots.len() ==> slot_resolvable_after(
        new_own,
        old_own,
        table_fns,
        #[trigger] slots[i],
    )
}

impl Assembly {
    /// The views of the assembly's published type descriptors.
    pub open spec fn types(self) -> Seq<crate::abi::TypeView> {
        self.info@.symbols.types
    }

    /// Swaps the assembly for the newer compilation the host loaded from
    /// `library_path`.  The new artifact is verified to be linkable both
    /// against the current table and against the table as it stands once
    /// this assembly's functions are withdrawn; then every live object is
    /// migrated to the new type schema; then the table is rewritten and
    /// the new assembly linked.  On any error nothing has changed: the
    /// old assembly, the table and the heap stay as they were.
    pub fn swap(
        &mut self,
        library_path: String,
        new_info: AssemblyInfo,
        runtime_dispatch_table: &mut DispatchTable,
        gc: &mut GarbageCollector,
    ) -> (r: Result<(), SwapError>)
        requires
            old(runtime_dispatch_table).wf(),
            old(gc).wf(),
            wf_assembly_info(old(self).info),
            wf_assembly_info(new_info),
            wf_type_registry(new_info@.symbols.types),
            old(gc).types_v() == old(self).types(),
        ensures
            final(runtime_dispatch_table).wf(),
            final(gc).wf(),
            r is Ok <==> {
                &&& assembly_linkable(
                    new_info@.symbols.functions,
                    old(runtime_dispatch_table).fns(),
                    new_info@.dispatch_table,
                )
                &&& linkable_after_removal(
                    new_info@.symbols.functions,
                    old(self).own_fns(),
                    old(runtime_dispatch_table).fns(),
                    new_info@.dispatch_table,
                )
                &&& deps_satisfied_after(
                    old(runtime_dispatch_table).deps(),
                    new_info@.symbols.functions,
                    old(self).own_fns(),
                    old(runtime_dispatch_table).fns(),
                )
                &&& !heap_has_dangling(
                    old(self).types(),
                    new_info@.symbols.types,
                    old(gc).objects_v(),
                )
            },
            match r {
                Ok(_) => {
                    &&& final(self).library_path@ == library_path@
                    &&& final(self).info@.symbols == new_info@.symbols
                    &&& final(gc).types_v() == new_info@.symbols.types
                    &&& final(gc).roots@ == old(gc).roots@
                    &&& final(gc).objects_v().len() == old(gc).objects_v().len()
                    &&& forall|h: int| 0 <= h < old(gc).objects_v().len()
                        ==> final(gc).objects_v()[h] == migrate_object(
                        old(self).types(),
                        new_info@.symbols.types,
                        #[trigger] old(gc).objects_v()[h],
                    )
                    &&& forall|n: Seq<char>| #[trigger] lookup_fn(
                        final(runtime_dispatch_table).fns(),
                        n,
                    ) == (match lookup_fn(new_info@.symbols.functions, n) {
                        Some(f) => Some(f),
                        None => removal_lookup(
                            old(self).own_fns(),
                            old(runtime_dispatch_table).fns(),
                            n,
                        ),
                    })
                    &&& final(self).slots().len() == new_info@.dispatch_table.len()
                    &&& forall|k: int| 0 <= k < new_info@.dispatch_table.len() ==> {
                        let slot = #[trigger] final(self).slots()[k];
                        let old_slot = new_info@.dispatch_table[k];
                        let resolved = (match lookup_fn(
                            new_info@.symbols.functions,
                            old_slot.signature.name,
                        ) {
                            Some(f) => Some(f),
                            None => removal_lookup(
                                old(self).own_fns(),
                                old(runtime_dispatch_table).fns(),
                                old_slot.signature.name,
                            ),
                        });
                        &&& slot.signature == old_slot.signature
                        &&& resolved is Some
                        &&& slot.fn_ptr == resolved->Some_0.fn_ptr
                        &&& sig_matches(resolved->Some_0.signature, slot.signature)
                    }
                },
                Err(e) => {
                    &&& *final(self) == *old(self)
                    &&& *final(runtime_dispatch_table) == *old(runtime_dispatch_table)
                    &&& *final(gc) == *old(gc)
                    &&& (e matches SwapError::Migration(m) ==> m == MigrationError::Dangling
                        && heap_has_dangling(
                        old(self).types(),
                        new_info@.symbols.types,
                        old(gc).objects_v(),
                    ))
                },
            },
    {
        // The new artifact must resolve against the current table (as at
        // load), and still resolve once this assembly's functions leave.
        let new_assembly = match Assembly::load(library_path, new_info, runtime_dispatch_table) {
            Ok(a) => a,
            Err(e) => {
                return Err(SwapError::Link(e));
            },
        };
        match check_linkable_after_removal(
            &new_assembly.info,
            &self.info.symbols.functions,
            runtime_dispatch_table,
        ) {
            Ok(_) => {},
            Err(e) => {
                return Err(SwapError::Link(e));
            },
        }

        // Every requirement other artifacts registered must still resolve
        // with its exact signature once this assembly is replaced.
        match check_registered_deps(
            &new_assembly.info,
            &self.info.symbols.functions,
            runtime_dispatch_table,
        ) {
            Ok(_) => {},
            Err(e) => {
                return Err(SwapError::Link(e));
            },
        }

        // Migrate every live object to the new schema; on failure the old
        // heap is untouched.
        let mapping = diff(&self.info.symbols.types, &new_assembly.info.symbols.types);
        let new_types = copy_types(&new_assembly.info.symbols.types);
        match gc.map_memory(new_types, &mapping) {
            Ok(_) => {},
            Err(e) => {
                return Err(SwapError::Migration(e));
            },
        }

        // Withdraw the old assembly's functions, then link the new one.
        let mut new_assembly = new_assembly;
        proof {
            assert forall|a: int, b: int|
                0 <= a < b < self.info.symbols.functions@.len() implies (
            #[trigger] self.info.symbols.functions@[a]@.signature.name) != (
            #[trigger] self.info.symbols.functions@[b]@.signature.name) by {
                assert(self.own_fns()[a] == self.info.symbols.functions@[a]@);
                assert(self.own_fns()[b] == self.info.symbols.functions@[b]@);
            }
        }
        remove_own_functions(&self.info.symbols.functions, runtime_dispatch_table);
        proof {
            assert(self.info.symbols.functions@.map_values(|g: FunctionInfo| g@)
                =~= old(self).own_fns());
            lemma_linkable_views(
                new_assembly.own_fns(),
                old(self).own_fns(),
                old(runtime_dispatch_table).fns(),
                runtime_dispatch_table.fns(),
                new_assembly.slots(),
            );
        }
        new_assembly.link(runtime_dispatch_table);
        *self = new_assembly;
        Ok(())
    }
}

/// After-removal linkability written over per-name lookups implies the
/// `assembly_linkable` form `link` requires.
proof fn lemma_linkable_views(
    new_own: Seq<FnView>,
    old_own: Seq<FnView>,
    t0: Seq<FnView>,
    t1: Seq<FnView>,
    slots: Seq<FnView>,
)
    requires
        linkable_after_removal(new_own, old_own, t0, slots),
        forall|n: Seq<char>| #[trigger] lookup_fn(t1, n) == removal_lookup(old_own, t0, n),
    ensures
        assembly_linkable(new_own, t1, slots),
{
    assert forall|i: int| 0 <= i < slots.len() implies slot_resolvable(
        new_own,
        t1,
        #[trigger] slots[i],
    ) by {
        assert(slot_resolvable_after(new_own, old_own, t0, slots[i]));
        assert(lookup_fn(t1, slots[i].signature.name) == removal_lookup(
            old_own,
            t0,
            slots[i].signature.name,
        ));
    }
}

/// Copies an artifact's type descriptors; the copy has the same views.
fn copy_types(types: &Vec<crate::abi::TypeInfo>) -> (r: Vec<crate::abi::TypeInfo>)
    ensures
        types_view(r@) == types_view(types@),
{
    let mut r: Vec<crate::abi::TypeInfo> = Vec::new();
    let n = types.len();
    let mut i: usize = 0;
    while i < n
        invariant
            n == types@.len(),
            0 <= i <= n,
            r@.len() == i,
            forall|j: int| 0 <= j < i ==> (#[trigger] r@[j])@ == types@[j]@,
        decreases n - i,
    {
        let t = copy_type(&types[i]);
        r.push(t);
        i = i + 1;
    }
    proof {
        assert(types_view(r@) =~= types_view(types@));
    }
    r
}

/// Copies one type descriptor; the copy has the same view.
fn copy_type(t: &crate::abi::TypeInfo) -> (r: crate::abi::TypeInfo)
    ensures
        r@ == t@,
{
    let group = match &t.group {
        crate::abi::TypeGroup::Fundamental(k) => crate::abi::TypeGroup::Fundamental(*k),
        crate::abi::TypeGroup::Struct(si) => {
            let mut field_names: Vec<String> = Vec::new();
            let nf = si.field_names.len();
            let mut i: usize = 0;
            while i < nf
                invariant
                    nf == si.field_names@.len(),
                    0 <= i <= nf,
                    field_names@.len() == i,
                    forall|j: int| 0 <= j < i ==> (#[trigger] field_names@[j])@
                        == si.field_names@[j]@,
                decreases nf - i,
            {
                field_names.push(si.field_names[i].clone());
                i = i + 1;
            }
            let mut field_types: Vec<usize> = Vec::new();
            let ntf = si.field_types.len();
            let mut i2: usize = 0;
            while i2 < ntf
                invariant
                    ntf == si.field_types@.len(),
                    0 <= i2 <= ntf,
                    field_types@ == si.field_types@.take(i2 as int),
                decreases ntf - i2,
            {
                field_types.push(si.field_types[i2]);
                proof {
                    assert(si.field_types@.take(i2 as int).push(si.field_types@[i2 as int])
                        =~= si.field_types@.take(i2 + 1));
                }
                i2 = i2 + 1;
            }
            let mut field_offsets: Vec<u16> = Vec::new();
            let nof = si.field_offsets.len();
            let mut i3: usize = 0;
            while i3 < nof
                invariant
                    nof == si.field_offsets@.len(),
                    0 <= i3 <= nof,
                    field_offsets@ == si.field_offsets@.take(i3 as int),
                decreases nof - i3,
            {
                field_offsets.push(si.field_offsets[i3]);
                proof {
                    assert(si.field_offsets@.take(i3 as int).push(
                        si.field_offsets@[i3 as int],
                    ) =~= si.field_offsets@.take(i3 + 1));
                }
                i3 = i3 + 1;
            }
            let mut field_sizes: Vec<u16> = Vec::new();
            let nsf = si.field_sizes.len();
            let mut i4: usize = 0;
            while i4 < nsf
                invariant
                    nsf == si.field_sizes@.len(),
                    0 <= i4 <= nsf,
                    field_sizes@ == si.field_sizes@.take(i4 as int),
                decreases nsf - i4,
            {
                field_sizes.push(si.field_sizes[i4]);
                proof {
                    assert(si.field_sizes@.take(i4 as int).push(si.field_sizes@[i4 as int])
                        =~= si.field_sizes@.take(i4 + 1));
                }
                i4 = i4 + 1;
            }
            proof {
                assert(field_types@ =~= si.field_types@);
                assert(field_offsets@ =~= si.field_offsets@);
                assert(field_sizes@ =~= si.field_sizes@);
            }
            let c = crate::abi::StructInfo {
                field_names,
                field_types,
                field_offsets,
                field_sizes,
                alignment: si.alignment,
                size: si.size,
                memory_kind: si.memory_kind,
            };
            proof {
                assert(c@.field_names =~= si@.field_names);
                assert(c@ =~= si@);
            }
            crate::abi::TypeGroup::Struct(c)
        },
    };
    crate::abi::TypeInfo { guid: t.guid, name: t.name.clone(), group }
}

/// Checks that every requirement other artifacts have registered in the
/// table still resolves, with its exact signature, once the swap has
/// replaced the old assembly's functions by the new artifact's.
fn check_registered_deps(
    new_info: &AssemblyInfo,
    old_own: &Vec<FunctionInfo>,
    runtime_dispatch_table: &DispatchTable,
) -> (r: Result<(), LinkError>)
    ensures
        r is Ok <==> deps_satisfied_after(
            runtime_dispatch_table.deps(),
            new_info@.symbols.functions,
            old_own@.map_values(|g: FunctionInfo| g@),
            runtime_dispatch_table.fns(),
        ),
{
    let ghost new_own = new_info@.symbols.functions;
    let ghost oldv = old_own@.map_values(|g: FunctionInfo| g@);
    let ghost tf = runtime_dispatch_table.fns();
    let ghost deps = runtime_dispatch_table.deps();
    let nd = runtime_dispatch_table.fn_dependencies.len();
    let mut d: usize = 0;
    while d < nd
        invariant
            new_own == new_info@.symbols.functions,
            oldv == old_own@.map_values(|g: FunctionInfo| g@),
            tf == runtime_dispatch_table.fns(),
            deps == runtime_dispatch_table.deps(),
            nd == deps.len(),
            nd == runtime_dispatch_table.fn_dependencies@.len(),
            0 <= d <= nd,
            forall|x: int, y: int| 0 <= x < d && 0 <= y < deps[x].requirements.len()
                ==> sig_resolvable_after(
                new_own,
                oldv,
                tf,
                #[trigger] deps[x].requirements[y],
            ),
        decreases nd - d,
    {
        proof {
            assert(deps[d as int] == runtime_dispatch_table.fn_dependencies@[d as int]@);
        }
        let nr = runtime_dispatch_table.fn_dependencies[d].requirements.len();
        let mut r: usize = 0;
        while r < nr
            invariant
                new_own == new_info@.symbols.functions,
                oldv == old_own@.map_values(|g: FunctionInfo| g@),
                tf == runtime_dispatch_table.fns(),
                deps == runtime_dispatch_table.deps(),
                d < nd,
                nd == deps.len(),
                nd == runtime_dispatch_table.fn_dependencies@.len(),
                deps[d as int] == runtime_dispatch_table.fn_dependencies@[d as int]@,
                nr == deps[d as int].requirements.len(),
                nr == runtime_dispatch_table.fn_dependencies@[d as int].requirements@.len(),
                0 <= r <= nr,
                forall|y: int| 0 <= y < r ==> sig_resolvable_after(
                    new_own,
                    oldv,
                    tf,
                    #[trigger] deps[d as int].requirements[y],
                ),
            decreases nr - r,
        {
            let ghost reqv = deps[d as int].requirements[r as int];
            proof {
                assert(reqv == runtime_dispatch_table.fn_dependencies@[d as int]
                    .requirements@[r as int]@);
            }
            let req = &runtime_dispatch_table.fn_dependencies[d].requirements[r];
            let resolved: Option<&FunctionInfo> = match lookup_in(
                &new_info.symbols.functions,
                &req.name,
            ) {
                Some(f) => Some(f),
                None => {
                    match runtime_dispatch_table.get_fn(&req.name) {
                        Some(f) => {
                            match lookup_in(old_own, &req.name) {
                                Some(g) => {
                                    if g.fn_ptr == f.fn_ptr {
                                        None
                                    } else {
                                        Some(f)
                                    }
                                },
                                None => Some(f),
                            }
                        },
                        None => None,
                    }
                },
            };
            match resolved {
                None => {
                    proof {
                        assert(!sig_resolvable_after(new_own, oldv, tf, reqv));
                    }
                    return Err(LinkError::UnresolvedSymbol { name: req.name.clone() });
                },
                Some(f) => {
                    if !f.signature.matches(req) {
                        proof {
                            assert(!sig_resolvable_after(new_own, oldv, tf, reqv));
                        }
                        return Err(LinkError::SignatureMismatch {
                            name: req.name.clone(),
                            expected: req.clone(),
                            found: f.signature.clone(),
                        });
                    }
                    proof {
                        assert(sig_resolvable_after(new_own, oldv, tf, reqv));
                    }
                },
            }
            r = r + 1;
        }
        d = d + 1;
    }
    Ok(())
}

/// Checks that every call slot of the new artifact still resolves once
/// the old assembly's functions are withdrawn from the table.
fn check_linkable_after_removal(
    new_info: &AssemblyInfo,
    old_own: &Vec<FunctionInfo>,
    runtime_dispatch_table: &DispatchTable,
) -> (r: Result<(), LinkError>)
    ensures
        r is Ok <==> linkable_after_removal(
            new_info@.symbols.functions,
            old_own@.map_values(|g: FunctionInfo| g@),
            runtime_dispatch_table.fns(),
            new_info@.dispatch_table,
        ),
{
    let ghost new_own = new_info@.symbols.functions;
    let ghost oldv = old_own@.map_values(|g: FunctionInfo| g@);
    let ghost tf = runtime_dispatch_table.fns();
    let n = new_info.dispatch_table.len();
    let mut i: usize = 0;
    while i < n
        invariant
            new_own == new_info@.symbols.functions,
            oldv == old_own@.map_values(|g: FunctionInfo| g@),
            tf == runtime_dispatch_table.fns(),
            n == new_info.dispatch_table@.len(),
            n == new_info@.dispatch_table.len(),
            0 <= i <= n,
            forall|j: int| 0 <= j < i ==> slot_resolvable_after(
                new_own,
                oldv,
                tf,
                #[trigger] new_info@.dispatch_table[j],
            ),
        decreases n - i,
    {
        let ghost slotv = new_info@.dispatch_table[i as int];
        proof {
            assert(slotv == new_info.dispatch_table@[i as int]@);
        }
        let slot_sig = &new_info.dispatch_table[i].signature;
        let resolved: Option<&FunctionInfo> = match lookup_in(
            &new_info.symbols.functions,
            &slot_sig.name,
        ) {
            Some(f) => Some(f),
            None => {
                match runtime_dispatch_table.get_fn(&slot_sig.name) {
                    Some(f) => {
                        match lookup_in(old_own, &slot_sig.name) {
                            Some(g) => {
                                if g.fn_ptr == f.fn_ptr {
                                    None
                                } else {
                                    Some(f)
                                }
                            },
                            None => Some(f),
                        }
                    },
                    None => None,
                }
            },
        };
        match resolved {
            None => {
                proof {
                    assert(!slot_resolvable_after(new_own, oldv, tf, slotv));
                }
                return Err(LinkError::UnresolvedSymbol { name: slot_sig.name.clone() });
            },
            Some(f) => {
                if !f.signature.matches(slot_sig) {
                    proof {
                        assert(!slot_resolvable_after(new_own, oldv, tf, slotv));
                    }
                    return Err(LinkError::SignatureMismatch {
                        name: slot_sig.name.clone(),
                        expected: slot_sig.clone(),
                        found: f.signature.clone(),
                    });
                }
                proof {
                    assert(slot_resolvable_after(new_own, oldv, tf, slotv));
                }
            },
        }
        i = i + 1;
    }
    Ok(())
}

/// Withdraws an assembly's functions from the table: each of its entries
/// leaves only if the table still maps the name to that assembly's own
/// address.
fn remove_own_functions(own: &Vec<FunctionInfo>, runtime_dispatch_table: &mut DispatchTable)
    requires
        old(runtime_dispatch_table).wf(),
        forall|i: int, j: int| 0 <= i < j < own@.len()
            ==> (#[trigger] own@[i]@.signature.name) != (#[trigger] own@[j]@.signature.name),
    ensures
        final(runtime_dispatch_table).wf(),
        forall|n: Seq<char>| #[trigger] lookup_fn(final(runtime_dispatch_table).fns(), n)
            == removal_lookup(
            own@.map_values(|g: FunctionInfo| g@),
            old(runtime_dispatch_table).fns(),
            n,
        ),
        final(runtime_dispatch_table).deps() == old(runtime_dispatch_table).deps(),
{
    let ghost ov = own@.map_values(|g: FunctionInfo| g@);
    let ghost t0 = runtime_dispatch_table.fns();
    let n = own.len();
    let mut i: usize = 0;
    while i < n
        invariant
            runtime_dispatch_table.wf(),
            ov == own@.map_values(|g: FunctionInfo| g@),
            n == ov.len(),
            0 <= i <= n,
            forall|a: int, b: int| 0 <= a < b < ov.len() ==> (
            #[trigger] ov[a].signature.name) != (#[trigger] ov[b].signature.name),
            runtime_dispatch_table.deps() == old(runtime_dispatch_table).deps(),
            forall|m: Seq<char>| #[trigger] lookup_fn(runtime_dispatch_table.fns(), m)
                == removal_lookup(ov.take(i as int), t0, m),
        decreases n - i,
    {
        proof {
            assert(ov[i as int] == own@[i as int]@);
        }
        let name = &own[i].signature.name;
        let ghost before = runtime_dispatch_table.fns();
        runtime_dispatch_table.remove_fn(name, own[i].fn_ptr);
        proof {
            assert(ov.take(i as int).push(ov[i as int]) =~= ov.take(i + 1));
            assert forall|m: Seq<char>| #[trigger] lookup_fn(runtime_dispatch_table.fns(), m)
                == removal_lookup(ov.take(i + 1), t0, m) by {
                lemma_lookup_push(ov.take(i as int), ov[i as int], m);
                if m == ov[i as int].signature.name {
                    if lookup_fn(ov.take(i as int), m) is Some {
                        lemma_lookup_is_member(ov.take(i as int), m);
                        let j = choose|j: int| 0 <= j < ov.take(i as int).len()
                            && #[trigger] ov.take(i as int)[j] == lookup_fn(
                            ov.take(i as int),
                            m,
                        )->Some_0 && ov.take(i as int)[j].signature.name == m;
                        assert(ov[j].signature.name != ov[i as int].signature.name);
                    }
                }
            }
        }
        i = i + 1;
    }
    proof {
        assert(ov.take(n as int) =~= ov);
    }
}

/// Looks a function up by name in an assembly's own function list.
pub fn lookup_in<'a>(functions: &'a Vec<FunctionInfo>, name: &String) -> (r: Option<&'a FunctionInfo>)
    ensures
        match r {
            Some(f) => lookup_fn(functions@.map_values(|g: FunctionInfo| g@), name@)
                == Some(f@),
            None => lookup_fn(functions@.map_values(|g: FunctionInfo| g@), name@) is None,
        },
{
    let ghost fns = functions@.map_values(|g: FunctionInfo| g@);
    let n = functions.len();
    let mut i: usize = 0;
    while i < n
        invariant
            fns == functions@.map_values(|g: FunctionInfo| g@),
            n == fns.len(),
            0 <= i <= n,
            forall|j: int| 0 <= j < i ==> (#[trigger] fns[j].signature.name) != name@,
        decreases n - i,
    {
        if functions[i].signature.name == *name {
            proof {
                lemma_lookup_skip(fns, name@, i as int);
                assert(fns.skip(i as int)[0] == fns[i as int]);
            }
            return Some(&functions[i]);
        }
        i = i + 1;
    }
    proof {
        lemma_lookup_skip(fns, name@, n as int);
    }
    None
}

/// Linkability is monotonic: if the table satisfies an assembly's
/// dependencies, then after other assemblies register or replace functions
/// — provided no function a dependency resolves to is removed or replaced
/// with an incompatible signature — the assembly still links.
pub proof fn lemma_linkability_monotonic(
    own: Seq<FnView>,
    t1: Seq<FnView>,
    t2: Seq<FnView>,
    slots: Seq<FnView>,
)
    requires
        assembly_linkable(own, t1, slots),
        forall|n: Seq<char>| lookup_fn(t1, n) is Some ==> lookup_fn(t2, n) is Some
            && sig_matches(
            (#[trigger] lookup_fn(t2, n))->Some_0.signature,
            lookup_fn(t1, n)->Some_0.signature,
        ),
    ensures
        assembly_linkable(own, t2, slots),
{
    assert forall|i: int| 0 <= i < slots.len() implies slot_resolvable(
        own,
        t2,
        #[trigger] slots[i],
    ) by {
        assert(slot_resolvable(own, t1, slots[i]));
        let name = slots[i].signature.name;
        if lookup_fn(own, name) is None {
            assert(lookup_fn(t1, name) is Some);
        }
    }
}

} // verus!
