//! The runtime's dispatch table: the process-wide mapping from function
//! name to signature and native address, together with the unresolved call
//! sites each assembly has registered.
//!
//! Lookup is by name; the table keeps names unique, so the first entry
//! with a name is the only one.

use vstd::prelude::*;
use crate::abi::{sig_matches, FnView, FunctionInfo, FunctionSignature, SigView};

verus! {

/// The first function of `fns` named `name`, front to back.
pub open spec fn lookup_fn(fns: Seq<FnView>, name: Seq<char>) -> Option<FnView>
    decreases fns.len(),
{
    if fns.len() == 0 {
        None
    } else if fns[0].signature.name == name {
        Some(fns[0])
    } else {
        lookup_fn(fns.drop_first(), name)
    }
}

/// A call slot can be bound against `fns`: a function of the slot's name
/// exists and its signature matches the slot's.
pub open spec fn slot_linkable(fns: Seq<FnView>, sig: SigView) -> bool {
    match lookup_fn(fns, sig.name) {
        Some(f) => sig_matches(f.signature, sig),
        None => false,
    }
}

/// Lookup ignores a prefix in which no entry bears the name.
pub proof fn lemma_lookup_skip(fns: Seq<FnView>, name: Seq<char>, k: int)
    requires
        0 <= k <= fns.len(),
        forall|j: int| 0 <= j < k ==> (#[trigger] fns[j].signature.name) != name,
    ensures
        lookup_fn(fns, name) == lookup_fn(fns.skip(k), name),
    decreases k,
{
    if k > 0 {
        assert(fns.drop_first().skip(k - 1) =~= fns.skip(k));
        lemma_lookup_skip(fns.drop_first(), name, k - 1);
    } else {
        assert(fns.skip(0) =~= fns);
    }
}

/// What lookup finds is an entry of the sequence.
pub proof fn lemma_lookup_is_member(fns: Seq<FnView>, name: Seq<char>)
    requires
        lookup_fn(fns, name) is Some,
    ensures
        exists|i: int| 0 <= i < fns.len() && #[trigger] fns[i] == lookup_fn(fns, name)->Some_0
            && fns[i].signature.name == name,
    decreases fns.len(),
{
    if fns[0].signature.name == name {
    } else {
        lemma_lookup_is_member(fns.drop_first(), name);
        let i = choose|i: int| 0 <= i < fns.drop_first().len() && #[trigger] fns.drop_first()[i]
            == lookup_fn(fns.drop_first(), name)->Some_0
            && fns.drop_first()[i].signature.name == name;
        assert(fns[i + 1] == fns.drop_first()[i]);
    }
}

/// Appending an entry answers exactly the lookups the sequence did not
/// already answer.
pub proof fn lemma_lookup_push(fns: Seq<FnView>, f: FnView, n: Seq<char>)
    ensures
        lookup_fn(fns.push(f), n) == (match lookup_fn(fns, n) {
            Some(g) => Some(g),
            None => if f.signature.name == n {
                Some(f)
            } else {
                None
            },
        }),
    decreases fns.len(),
{
    if fns.len() == 0 {
        assert(fns.push(f).drop_first() =~= fns);
    } else {
        assert(fns.push(f).drop_first() =~= fns.drop_first().push(f));
        lemma_lookup_push(fns.drop_first(), f, n);
    }
}

/// Replacing the entry at `i` leaves lookups of other names unchanged,
/// provided the replacement bears the same name as the replaced entry.
proof fn lemma_lookup_replace_other(fns: Seq<FnView>, i: int, f: FnView, m: Seq<char>)
    requires
        0 <= i < fns.len(),
        m != f.signature.name,
        fns[i].signature.name == f.signature.name,
    ensures
        lookup_fn(fns.update(i, f), m) == lookup_fn(fns, m),
    decreases fns.len(),
{
    if i == 0 {
        assert(fns.update(0, f).drop_first() =~= fns.drop_first());
    } else {
        assert(fns.update(i, f).drop_first() =~= fns.drop_first().update(i - 1, f));
        lemma_lookup_replace_other(fns.drop_first(), i - 1, f, m);
    }
}

/// Where no entry bears the name, lookup finds nothing.
proof fn lemma_lookup_none(fns: Seq<FnView>, name: Seq<char>)
    requires
        forall|j: int| 0 <= j < fns.len() ==> (#[trigger] fns[j].signature.name) != name,
    ensures
        lookup_fn(fns, name) is None,
    decreases fns.len(),
{
    if fns.len() > 0 {
        lemma_lookup_none(fns.drop_first(), name);
    }
}

/// Removing the first entry of a name erases exactly that lookup, when no
/// other entry bears the name.
proof fn lemma_lookup_remove(fns: Seq<FnView>, i: int, name: Seq<char>)
    requires
        0 <= i < fns.len(),
        fns[i].signature.name == name,
        forall|j: int| 0 <= j < fns.len() ==> (j != i ==> (#[trigger] fns[j].signature.name)
            != name),
    ensures
        lookup_fn(fns.remove(i), name) is None,
    decreases fns.len(),
{
    if i == 0 {
        assert(fns.remove(0) =~= fns.drop_first());
        lemma_lookup_none(fns.drop_first(), name);
    } else {
        assert(fns.remove(i).drop_first() =~= fns.drop_first().remove(i - 1));
        lemma_lookup_remove(fns.drop_first(), i - 1, name);
    }
}

/// Removing an entry leaves lookups of other names unchanged.
proof fn lemma_lookup_remove_other(fns: Seq<FnView>, i: int, m: Seq<char>)
    requires
        0 <= i < fns.len(),
        m != fns[i].signature.name,
    ensures
        lookup_fn(fns.remove(i), m) == lookup_fn(fns, m),
    decreases fns.len(),
{
    if i == 0 {
        assert(fns.remove(0) =~= fns.drop_first());
    } else {
        assert(fns.remove(i).drop_first() =~= fns.drop_first().remove(i - 1));
        lemma_lookup_remove_other(fns.drop_first(), i - 1, m);
    }
}

/// The unresolved call sites one artifact has registered: the signatures
/// it expects the table to satisfy before it may be linked.
#[derive(Debug)]
pub struct AssemblyDependencies {
    pub path: String,
    pub requirements: Vec<FunctionSignature>,
}

/// Mathematical view of one artifact's registered dependencies.
pub ghost struct DepView {
    pub path: Seq<char>,
    pub requirements: Seq<SigView>,
}

impl View for AssemblyDependencies {
    type V = DepView;

    open spec fn view(&self) -> DepView {
        DepView {
            path: self.path@,
            requirements: self.requirements@.map_values(|s: FunctionSignature| s@),
        }
    }
}

/// The signatures registered for the artifact at `path`, or the empty
/// sequence where none were.
pub open spec fn lookup_deps(deps: Seq<DepView>, path: Seq<char>) -> Seq<SigView>
    decreases deps.len(),
{
    if deps.len() == 0 {
        Seq::empty()
    } else if deps[0].path == path {
        deps[0].requirements
    } else {
        lookup_deps(deps.drop_first(), path)
    }
}

/// Dependency lookup ignores a prefix in which no entry bears the path.
proof fn lemma_deps_skip(deps: Seq<DepView>, path: Seq<char>, k: int)
    requires
        0 <= k <= deps.len(),
        forall|j: int| 0 <= j < k ==> (#[trigger] deps[j].path) != path,
    ensures
        lookup_deps(deps, path) == lookup_deps(deps.skip(k), path),
    decreases k,
{
    if k > 0 {
        assert(deps.drop_first().skip(k - 1) =~= deps.skip(k));
        lemma_deps_skip(deps.drop_first(), path, k - 1);
    } else {
        assert(deps.skip(0) =~= deps);
    }
}

/// Replacing the entry at `i` leaves lookups of other paths unchanged,
/// provided the replacement keeps the path.
proof fn lemma_deps_replace_same_path(deps: Seq<DepView>, i: int, d: DepView, p: Seq<char>)
    requires
        0 <= i < deps.len(),
        p != d.path,
        deps[i].path == d.path,
    ensures
        lookup_deps(deps.update(i, d), p) == lookup_deps(deps, p),
    decreases deps.len(),
{
    if i == 0 {
        assert(deps.update(0, d).drop_first() =~= deps.drop_first());
    } else {
        assert(deps.update(i, d).drop_first() =~= deps.drop_first().update(i - 1, d));
        lemma_deps_replace_same_path(deps.drop_first(), i - 1, d, p);
    }
}

/// Appending an entry leaves lookups of other paths unchanged.
proof fn lemma_deps_push_other(deps: Seq<DepView>, d: DepView, p: Seq<char>)
    requires
        p != d.path,
    ensures
        lookup_deps(deps.push(d), p) == lookup_deps(deps, p),
    decreases deps.len(),
{
    if deps.len() == 0 {
        assert(deps.push(d).drop_first() =~= deps);
    } else {
        assert(deps.push(d).drop_first() =~= deps.drop_first().push(d));
        lemma_deps_push_other(deps.drop_first(), d, p);
    }
}

/// The runtime's name-to-function registry, with each assembly's
/// registered unresolved call sites.
#[derive(Debug)]
pub struct DispatchTable {
    pub functions: Vec<FunctionInfo>,
    pub fn_dependencies: Vec<AssemblyDependencies>,
}

impl DispatchTable {
    /// The views of the table's entries, in table order.
    pub open spec fn fns(self) -> Seq<FnView> {
        self.functions@.map_values(|f: FunctionInfo| f@)
    }

    /// The views of the registered per-assembly dependencies.
    pub open spec fn deps(self) -> Seq<DepView> {
        self.fn_dependencies@.map_values(|d: AssemblyDependencies| d@)
    }

    /// Names in the registry are unique, so the first match is the only
    /// one.
    pub open spec fn wf(self) -> bool {
        forall|i: int, j: int| 0 <= i < j < self.fns().len() ==> (
        #[trigger] self.fns()[i].signature.name) != (#[trigger] self.fns()[j].signature.name)
    }

    /// An empty table.
    pub fn new() -> (r: DispatchTable)
        ensures
            r.wf(),
            r.fns().len() == 0,
            r.deps().len() == 0,
    {
        DispatchTable { functions: Vec::new(), fn_dependencies: Vec::new() }
    }

    /// Looks a function up by name.
    pub fn get_fn(&self, name: &String) -> (r: Option<&FunctionInfo>)
        ensures
            match r {
                Some(f) => lookup_fn(self.fns(), name@) == Some(f@),
                None => lookup_fn(self.fns(), name@) is None,
            },
    {
        let n = self.functions.len();
        let mut i: usize = 0;
        while i < n
            invariant
                n == self.fns().len(),
                0 <= i <= n,
                forall|j: int| 0 <= j < i ==> (#[trigger] self.fns()[j].signature.name) != name@,
            decreases n - i,
        {
            if self.functions[i].signature.name == *name {
                proof {
                    lemma_lookup_skip(self.fns(), name@, i as int);
                    assert(self.fns().skip(i as int)[0] == self.fns()[i as int]);
                }
                return Some(&self.functions[i]);
            }
            i = i + 1;
        }
        proof {
            lemma_lookup_skip(self.fns(), name@, n as int);
            assert(self.fns().skip(n as int).len() == 0);
        }
        None
    }

    /// Registers a function under its signature's name.  An entry already
    /// bearing that name is replaced; every other lookup is unchanged.
    pub fn insert_fn(&mut self, function: FunctionInfo)
        requires
            old(self).wf(),
        ensures
            final(self).wf(),
            lookup_fn(final(self).fns(), function@.signature.name) == Some(function@),
            forall|n: Seq<char>| n != function@.signature.name ==> lookup_fn(
                final(self).fns(),
                n,
            ) == lookup_fn(old(self).fns(), n),
            final(self).deps() == old(self).deps(),
    {
        let name = function.signature.name.clone();
        let n = self.functions.len();
        let mut i: usize = 0;
        while i < n
            invariant
                *self == *old(self),
                old(self).wf(),
                n == self.fns().len(),
                0 <= i <= n,
                name@ == function@.signature.name,
                forall|j: int| 0 <= j < i ==> (#[trigger] self.fns()[j].signature.name) != name@,
            decreases n - i,
        {
            if self.functions[i].signature.name == name {
                let ghost oldfns = self.fns();
                self.functions[i] = function;
                proof {
                    let fns = self.fns();
                    assert(fns =~= oldfns.update(i as int, function@));
                    assert forall|j: int| 0 <= j < i as int implies (
                    #[trigger] fns[j].signature.name) != name@ by {
                        assert(fns[j] == oldfns[j]);
                    }
                    lemma_lookup_skip(fns, name@, i as int);
                    assert(fns.skip(i as int)[0] == function@);
                    assert forall|m: Seq<char>| m != name@ implies lookup_fn(fns, m)
                        == lookup_fn(oldfns, m) by {
                        lemma_lookup_replace_other(oldfns, i as int, function@, m);
                    }
                    assert forall|a: int, b: int| 0 <= a < b < fns.len() implies (
                    #[trigger] fns[a].signature.name) != (
                    #[trigger] fns[b].signature.name) by {
                        assert(oldfns[a].signature.name != oldfns[b].signature.name);
                    }
                }
                return;
            }
            i = i + 1;
        }
        let ghost oldfns = self.fns();
        self.functions.push(function);
        proof {
            let fns = self.fns();
            assert(fns =~= oldfns.push(function@));
            assert forall|j: int| 0 <= j < n as int implies (#[trigger] fns[j].signature.name)
                != name@ by {
                assert(fns[j] == oldfns[j]);
            }
            lemma_lookup_skip(fns, name@, n as int);
            assert(fns.skip(n as int) =~= seq![function@]);
            assert forall|m: Seq<char>| m != name@ implies lookup_fn(fns, m) == lookup_fn(
                oldfns,
                m,
            ) by {
                lemma_lookup_push(oldfns, function@, m);
            }
            assert forall|a: int, b: int| 0 <= a < b < fns.len() implies (
            #[trigger] fns[a].signature.name) != (#[trigger] fns[b].signature.name) by {
                if b < n as int {
                    assert(oldfns[a].signature.name != oldfns[b].signature.name);
                } else {
                    assert(fns[b].signature.name == name@);
                    assert(fns[a] == oldfns[a]);
                }
            }
        }
    }

    /// Erases the entry of that name if its address belongs to the remover
    /// — that is, if it equals `owner_ptr`; a no-op otherwise.
    pub fn remove_fn(&mut self, name: &String, owner_ptr: usize)
        requires
            old(self).wf(),
        ensures
            final(self).wf(),
            lookup_fn(final(self).fns(), name@) == (
            match lookup_fn(old(self).fns(), name@) {
                Some(f) => if f.fn_ptr == owner_ptr {
                    None::<FnView>
                } else {
                    Some(f)
                },
                None => None::<FnView>,
            }),
            forall|n: Seq<char>| n != name@ ==> lookup_fn(final(self).fns(), n) == lookup_fn(
                old(self).fns(),
                n,
            ),
            final(self).deps() == old(self).deps(),
    {
        let n = self.functions.len();
        let mut i: usize = 0;
        while i < n
            invariant
                *self == *old(self),
                old(self).wf(),
                n == self.fns().len(),
                0 <= i <= n,
                forall|j: int| 0 <= j < i ==> (#[trigger] self.fns()[j].signature.name) != name@,
            decreases n - i,
        {
            if self.functions[i].signature.name == *name {
                proof {
                    lemma_lookup_skip(self.fns(), name@, i as int);
                    assert(self.fns().skip(i as int)[0] == self.fns()[i as int]);
                }
                if self.functions[i].fn_ptr == owner_ptr {
                    let ghost oldfns = self.fns();
                    self.functions.remove(i);
                    proof {
                        let fns = self.fns();
                        assert(fns =~= oldfns.remove(i as int));
                        assert forall|j: int| 0 <= j < oldfns.len() && j != i as int implies (
                        #[trigger] oldfns[j].signature.name) != name@ by {
                            if j > i as int {
                                assert(oldfns[i as int].signature.name
                                    != oldfns[j].signature.name);
                            }
                        }
                        lemma_lookup_remove(oldfns, i as int, name@);
                        assert forall|m: Seq<char>| m != name@ implies lookup_fn(fns, m)
                            == lookup_fn(oldfns, m) by {
                            lemma_lookup_remove_other(oldfns, i as int, m);
                        }
                        assert forall|a: int, b: int| 0 <= a < b < fns.len() implies (
                        #[trigger] fns[a].signature.name) != (
                        #[trigger] fns[b].signature.name) by {
                            let a0: int = if a < i as int { a } else { a + 1 };
                            let b0: int = if b < i as int { b } else { b + 1 };
                            assert(fns[a] == oldfns[a0]);
                            assert(fns[b] == oldfns[b0]);
                            assert(oldfns[a0].signature.name != oldfns[b0].signature.name);
                        }
                    }
                }
                return;
            }
            i = i + 1;
        }
        proof {
            lemma_lookup_skip(self.fns(), name@, n as int);
        }
    }

    /// Records that the artifact at `path` has an unresolved call slot
    /// expecting `signature`.
    pub fn register_dependency(&mut self, path: &String, signature: FunctionSignature)
        ensures
            final(self).fns() == old(self).fns(),
            lookup_deps(final(self).deps(), path@) == lookup_deps(
                old(self).deps(),
                path@,
            ).push(signature@),
            forall|p: Seq<char>| p != path@ ==> lookup_deps(final(self).deps(), p)
                == lookup_deps(old(self).deps(), p),
            old(self).wf() ==> final(self).wf(),
    {
        let n = self.fn_dependencies.len();
        let mut i: usize = 0;
        while i < n
            invariant
                *self == *old(self),
                n == self.deps().len(),
                0 <= i <= n,
                forall|j: int| 0 <= j < i ==> (#[trigger] self.deps()[j].path) != path@,
            decreases n - i,
        {
            if self.fn_dependencies[i].path == *path {
                let ghost olddeps = self.deps();
                let ghost oldreqs = self.deps()[i as int].requirements;
                self.fn_dependencies[i].requirements.push(signature);
                proof {
                    let deps = self.deps();
                    assert(deps[i as int].requirements =~= oldreqs.push(signature@));
                    assert(deps =~= olddeps.update(i as int, deps[i as int]));
                    assert forall|j: int| 0 <= j < i as int implies (
                    #[trigger] deps[j].path) != path@ by {
                        assert(deps[j] == olddeps[j]);
                    }
                    lemma_deps_skip(olddeps, path@, i as int);
                    lemma_deps_skip(deps, path@, i as int);
                    assert(deps.skip(i as int)[0] == deps[i as int]);
                    assert(olddeps.skip(i as int)[0] == olddeps[i as int]);
                    assert forall|p: Seq<char>| p != path@ implies lookup_deps(deps, p)
                        == lookup_deps(olddeps, p) by {
                        lemma_deps_replace_same_path(olddeps, i as int, deps[i as int], p);
                    }
                }
                return;
            }
            i = i + 1;
        }
        let ghost olddeps = self.deps();
        let entry = AssemblyDependencies { path: path.clone(), requirements: vec![signature] };
        self.fn_dependencies.push(entry);
        proof {
            let deps = self.deps();
            assert(deps =~= olddeps.push(entry@));
            assert forall|j: int| 0 <= j < n as int implies (#[trigger] deps[j].path)
                != path@ by {
                assert(deps[j] == olddeps[j]);
            }
            lemma_deps_skip(olddeps, path@, n as int);
            lemma_deps_skip(deps, path@, n as int);
            assert(deps.skip(n as int).len() == 1);
            assert(deps.skip(n as int)[0].path == path@);
            assert(lookup_deps(deps, path@) =~= lookup_deps(olddeps, path@).push(signature@));
            assert forall|p: Seq<char>| p != path@ implies lookup_deps(deps, p) == lookup_deps(
                olddeps,
                p,
            ) by {
                lemma_deps_push_other(olddeps, deps[n as int], p);
            }
        }
    }
}

} // verus!
