//! The runtime's host-facing decisions: resolving a host-initiated
//! invocation against an assembly's published functions, and vetting one
//! coordinated reload step.
//!
//! The host driver owns the loop — watching artifacts, performing calls —
//! and asks here which function address an invocation binds to, and
//! whether a set of artifacts may be (re)loaded together.

use vstd::prelude::*;
use crate::abi::{AssemblyInfo, FnView};
use crate::dispatch::lookup_fn;
use crate::error::{InvokeError, LinkError};
use crate::guid::Guid;
use crate::assembly::lookup_in;

verus! {

/// Resolves an invocation: the named function must exist in the
/// assembly, take exactly the given argument types (by GUID, in order)
/// and return the given type.  On success the function's native address
/// is returned for the host to call.
pub fn resolve_invoke(
    info: &AssemblyInfo,
    fn_name: &String,
    arg_types: &Vec<Guid>,
    return_type: Option<Guid>,
) -> (r: Result<usize, InvokeError>)
    ensures
        match r {
            Ok(ptr) => {
                let f = lookup_fn(info@.symbols.functions, fn_name@);
                &&& f is Some
                &&& f->Some_0.fn_ptr == ptr
                &&& f->Some_0.signature.arg_types == arg_types@
                &&& f->Some_0.signature.return_type == return_type
            },
            Err(InvokeError::FunctionMissing { name }) => name@ == fn_name@ && lookup_fn(
                info@.symbols.functions,
                fn_name@,
            ) is None,
            Err(InvokeError::ArityMismatch { expected, found }) => {
                let f = lookup_fn(info@.symbols.functions, fn_name@);
                &&& f is Some
                &&& expected == f->Some_0.signature.arg_types.len()
                &&& found == arg_types@.len()
                &&& expected != found
            },
            Err(InvokeError::TypeMismatch { argument }) => {
                let f = lookup_fn(info@.symbols.functions, fn_name@);
                &&& f is Some
                &&& f->Some_0.signature.arg_types.len() == arg_types@.len()
                &&& (argument < arg_types@.len() && f->Some_0.signature.arg_types[
                argument as int] != arg_types@[argument as int] || argument == arg_types@.len()
                    && f->Some_0.signature.return_type != return_type)
            },
        },
{
    let f = match lookup_in(&info.symbols.functions, fn_name) {
        Some(f) => f,
        None => {
            return Err(InvokeError::FunctionMissing { name: fn_name.clone() });
        },
    };
    if f.signature.arg_types.len() != arg_types.len() {
        return Err(
            InvokeError::ArityMismatch {
                expected: f.signature.arg_types.len(),
                found: arg_types.len(),
            },
        );
    }
    let n = arg_types.len();
    let mut i: usize = 0;
    while i < n
        invariant
            lookup_fn(info@.symbols.functions, fn_name@) == Some(f@),
            n == arg_types@.len(),
            n == f.signature.arg_types@.len(),
            0 <= i <= n,
            forall|j: int| 0 <= j < i ==> f.signature.arg_types@[j] == arg_types@[j],
        decreases n - i,
    {
        if f.signature.arg_types[i].value != arg_types[i].value {
            return Err(InvokeError::TypeMismatch { argument: i });
        }
        i = i + 1;
    }
    let ret_ok = match (&f.signature.return_type, &return_type) {
        (Option::None, Option::None) => true,
        (Option::Some(a), Option::Some(b)) => a.value == b.value,
        _ => false,
    };
    if !ret_ok {
        return Err(InvokeError::TypeMismatch { argument: n });
    }
    proof {
        assert(f.signature.arg_types@ =~= arg_types@);
    }
    Ok(f.fn_ptr)
}

/// Two artifacts of one reload step collide: both provide a function of
/// the same name with different signatures.
pub open spec fn reload_collision(a: Seq<FnView>, b: Seq<FnView>) -> bool {
    exists|i: int, j: int| 0 <= i < a.len() && 0 <= j < b.len()
        && (#[trigger] a[i]).signature.name == (#[trigger] b[j]).signature.name
        && !crate::abi::sig_matches(a[i].signature, b[j].signature)
}

/// Checks one coordinated reload step of two artifacts: if both register
/// a function of the same name with different signatures, the whole step
/// is rejected and neither artifact is to be linked.
pub fn check_reload_pair(a: &AssemblyInfo, b: &AssemblyInfo) -> (r: Result<(), LinkError>)
    ensures
        r is Ok <==> !reload_collision(a@.symbols.functions, b@.symbols.functions),
        match r {
            Ok(_) => true,
            Err(LinkError::SignatureMismatch { name, expected, found }) => exists|i: int, j: int|
                0 <= i < a@.symbols.functions.len() && 0 <= j < b@.symbols.functions.len()
                && (#[trigger] a@.symbols.functions[i]).signature.name == name@
                && (#[trigger] b@.symbols.functions[j]).signature.name == name@
                && a@.symbols.functions[i].signature == expected@
                && b@.symbols.functions[j].signature == found@
                && !crate::abi::sig_matches(expected@, found@),
            Err(_) => false,
        },
{
    let ghost av = a@.symbols.functions;
    let ghost bv = b@.symbols.functions;
    let na = a.symbols.functions.len();
    let nb = b.symbols.functions.len();
    let mut i: usize = 0;
    while i < na
        invariant
            av == a@.symbols.functions,
            bv == b@.symbols.functions,
            na == av.len(),
            nb == bv.len(),
            0 <= i <= na,
            forall|x: int, y: int| 0 <= x < i && 0 <= y < nb && (
            #[trigger] av[x]).signature.name == (#[trigger] bv[y]).signature.name
                ==> crate::abi::sig_matches(av[x].signature, bv[y].signature),
        decreases na - i,
    {
        let fa = &a.symbols.functions[i];
        proof {
            assert(av[i as int] == a.symbols.functions@[i as int]@);
        }
        let mut j: usize = 0;
        while j < nb
            invariant
                av == a@.symbols.functions,
                bv == b@.symbols.functions,
                na == av.len(),
                nb == bv.len(),
                i < na,
                fa@ == av[i as int],
                0 <= j <= nb,
                forall|y: int| 0 <= y < j && av[i as int].signature.name == (
                #[trigger] bv[y]).signature.name ==> crate::abi::sig_matches(
                    av[i as int].signature,
                    bv[y].signature,
                ),
            decreases nb - j,
        {
            let fb = &b.symbols.functions[j];
            proof {
                assert(bv[j as int] == b.symbols.functions@[j as int]@);
            }
            if fa.signature.name == fb.signature.name {
                if !fa.signature.matches(&fb.signature) {
                    return Err(LinkError::SignatureMismatch {
                        name: fa.signature.name.clone(),
                        expected: fa.signature.clone(),
                        found: fb.signature.clone(),
                    });
                }
            }
            j = j + 1;
        }
        i = i + 1;
    }
    Ok(())
}

} // verus!
