use vstd::prelude::*;

use crate::error::CompileError;
use crate::model::{Domain, TypeDef};

verus! {

/// The domain defines a type of that name.
pub open spec fn defines(d: Domain, name: Seq<char>) -> bool {
    exists|j: int| 0 <= j < d.types@.len() && (#[trigger] d.types@[j]).name@ == name
}

/// No two domains share a name.
pub open spec fn domain_names_unique(ds: Seq<Domain>) -> bool {
    forall|i: int, j: int|
        0 <= i < ds.len() && 0 <= j < ds.len() && i != j ==> (#[trigger] ds[i]).name@ != (
        #[trigger] ds[j]).name@
}

/// No two types of one domain share a name.
pub open spec fn type_names_unique(types: Seq<TypeDef>) -> bool {
    forall|i: int, j: int|
        0 <= i < types.len() && 0 <= j < types.len() && i != j ==> (#[trigger] types[i]).name@
            != (#[trigger] types[j]).name@
}

/// The symbol table is well defined: domains are unique, and so is each
/// `(domain, type name)` pair.
pub open spec fn symbols_unique(ds: Seq<Domain>) -> bool {
    &&& domain_names_unique(ds)
    &&& forall|i: int| 0 <= i < ds.len() ==> type_names_unique(#[trigger] ds[i].types@)
}

/// `name` is defined twice: by two domains, or as two types of one domain.
pub open spec fn duplicated_symbol(ds: Seq<Domain>, name: Seq<char>) -> bool {
    ||| exists|i: int, j: int|
        0 <= i < ds.len() && 0 <= j < ds.len() && i != j && (#[trigger] ds[i]).name@ == name && (
        #[trigger] ds[j]).name@ == name
    ||| exists|i: int, a: int, b: int|
        0 <= i < ds.len() && 0 <= a < ds[i].types@.len() && 0 <= b < ds[i].types@.len() && a != b
            && (#[trigger] ds[i].types@[a]).name@ == name && (#[trigger] ds[i].types@[b]).name@ == name
}

/// Returns whether `d` defines a type named `name`.
pub fn domain_defines(d: &Domain, name: &String) -> (r: bool)
    ensures
        r == defines(*d, name@),
{
    let mut k: usize = 0;
    while k < d.types.len()
        invariant
            k <= d.types@.len(),
            forall|j: int| 0 <= j < k ==> (#[trigger] d.types@[j]).name@ != name@,
        decreases d.types@.len() - k,
    {
        if d.types[k].name == *name {
            assert(d.types@[k as int].name@ == name@);
            return true;
        }
        k = k + 1;
    }
    false
}

/// Returns the index of the domain called `name`, if any (the first one).
pub fn find_domain(ds: &Vec<Domain>, name: &String) -> (r: Option<usize>)
    ensures
        match r {
            Some(i) => i < ds@.len() && ds@[i as int].name@ == name@ && forall|j: int|
                0 <= j < i ==> (#[trigger] ds@[j]).name@ != name@,
            None => forall|j: int| 0 <= j < ds@.len() ==> (#[trigger] ds@[j]).name@ != name@,
        },
{
    let mut k: usize = 0;
    while k < ds.len()
        invariant
            k <= ds@.len(),
            forall|j: int| 0 <= j < k ==> (#[trigger] ds@[j]).name@ != name@,
        decreases ds@.len() - k,
    {
        if ds[k].name == *name {
            return Some(k);
        }
        k = k + 1;
    }
    None
}

/// Checks that the symbol table built from `ds` has no duplicate entry:
/// no two domains share a name and no domain defines a type twice.
pub fn check_symbols(ds: &Vec<Domain>) -> (r: Result<(), CompileError>)
    ensures
        r is Ok <==> symbols_unique(ds@),
        r is Err ==> (r->Err_0 matches CompileError::NameCollision { name } && duplicated_symbol(
            ds@,
            name@,
        )),
{
    let mut i: usize = 0;
    while i < ds.len()
        invariant
            i <= ds@.len(),
            forall|a: int, b: int|
                0 <= a < i && 0 <= b < ds@.len() && a != b ==> (#[trigger] ds@[a]).name@ != (
                #[trigger] ds@[b]).name@,
            forall|a: int| 0 <= a < i ==> type_names_unique(#[trigger] ds@[a].types@),
        decreases ds@.len() - i,
    {
        let mut j: usize = 0;
        while j < ds.len()
            invariant
                i < ds@.len(),
                j <= ds@.len(),
                forall|b: int| 0 <= b < j && i != b ==> ds@[i as int].name@ != (#[trigger] ds@[b]).name@,
            decreases ds@.len() - j,
        {
            if i != j && ds[i].name == ds[j].name {
                assert(ds@[i as int].name@ == ds@[j as int].name@);
                return Err(CompileError::NameCollision { name: ds[i].name.clone() });
            }
            j = j + 1;
        }
        let types = &ds[i].types;
        let mut a: usize = 0;
        while a < types.len()
            invariant
                i < ds@.len(),
                types@ == ds@[i as int].types@,
                a <= types@.len(),
                forall|x: int, y: int|
                    0 <= x < a && 0 <= y < types@.len() && x != y ==> (#[trigger] types@[x]).name@
                        != (#[trigger] types@[y]).name@,
            decreases types@.len() - a,
        {
            let mut b: usize = 0;
            while b < types.len()
                invariant
                    i < ds@.len(),
                    types@ == ds@[i as int].types@,
                    a < types@.len(),
                    b <= types@.len(),
                    forall|y: int|
                        0 <= y < b && a != y ==> types@[a as int].name@ != (#[trigger] types@[y]).name@,
                decreases types@.len() - b,
            {
                if a != b && types[a].name == types[b].name {
                    assert(!type_names_unique(ds@[i as int].types@));
                    assert(ds@[i as int].types@[a as int] == types@[a as int]);
                    assert(ds@[i as int].types@[b as int] == types@[b as int]);
                    return Err(CompileError::NameCollision { name: types[a].name.clone() });
                }
                b = b + 1;
            }
            a = a + 1;
        }
        i = i + 1;
    }
    Ok(())
}

} // verus!
