use vstd::prelude::*;

use crate::error::CompileError;
use crate::model::{Domain, Property, TypeDef, TypeKind, TypeRef};
use crate::symbols::{defines, domain_defines, domain_names_unique, find_domain};

verus! {

/// Domain `i` is where an unqualified reference to `name`, written in domain
/// `owner`, leads: the owner itself when it defines the name, else the one
/// domain that does.
pub open spec fn unqualified_target(ds: Seq<Domain>, owner: int, name: Seq<char>, i: int) -> bool {
    &&& 0 <= i < ds.len()
    &&& if defines(ds[owner], name) {
        i == owner
    } else {
        &&& defines(ds[i], name)
        &&& forall|j: int| 0 <= j < ds.len() && j != i ==> !defines(#[trigger] ds[j], name)
    }
}

/// Domain `i` is the one named by a qualified reference `domain.name`.
pub open spec fn qualified_target(ds: Seq<Domain>, domain: Seq<char>, name: Seq<char>, i: int) -> bool {
    0 <= i < ds.len() && ds[i].name@ == domain && defines(ds[i], name)
}

/// A reference written in domain `owner` leads to domain `i`.
pub open spec fn target_of(
    ds: Seq<Domain>,
    owner: int,
    domain: Option<String>,
    name: Seq<char>,
    i: int,
) -> bool {
    match domain {
        Some(q) => qualified_target(ds, q@, name, i),
        None => unqualified_target(ds, owner, name, i),
    }
}

/// An unqualified reference that its own domain cannot answer and that two
/// other domains could.
pub open spec fn ambiguous(ds: Seq<Domain>, owner: int, name: Seq<char>) -> bool {
    &&& !defines(ds[owner], name)
    &&& exists|a: int, b: int|
        0 <= a < ds.len() && 0 <= b < ds.len() && a != b && #[trigger] defines(ds[a], name)
            && #[trigger] defines(ds[b], name)
}

/// Every named reference inside `r` leads somewhere.
pub open spec fn ref_resolves(ds: Seq<Domain>, owner: int, r: TypeRef) -> bool
    decreases r,
{
    match r {
        TypeRef::Primitive(_) => true,
        TypeRef::Ref { domain, name } => exists|i: int| target_of(ds, owner, domain, name@, i),
        TypeRef::ArrayOf(inner) => ref_resolves(ds, owner, *inner),
    }
}

pub open spec fn props_resolve(ds: Seq<Domain>, owner: int, ps: Seq<Property>) -> bool {
    forall|k: int| 0 <= k < ps.len() ==> ref_resolves(ds, owner, (#[trigger] ps[k]).type_ref)
}

pub open spec fn typedef_resolves(ds: Seq<Domain>, owner: int, t: TypeDef) -> bool {
    match t.kind {
        TypeKind::Alias(_) => true,
        TypeKind::Enum(_) => true,
        TypeKind::ArrayOf(r) => ref_resolves(ds, owner, r),
        TypeKind::Object(ps) => props_resolve(ds, owner, ps@),
    }
}

/// Every reference written in domain `owner` leads somewhere.
pub open spec fn domain_resolves(ds: Seq<Domain>, owner: int) -> bool {
    let d = ds[owner];
    &&& forall|k: int| 0 <= k < d.types@.len() ==> typedef_resolves(ds, owner, #[trigger] d.types@[k])
    &&& forall|k: int|
        0 <= k < d.commands@.len() ==> props_resolve(ds, owner, (#[trigger] d.commands@[k]).parameters@)
            && props_resolve(ds, owner, d.commands@[k].returns@)
    &&& forall|k: int|
        0 <= k < d.events@.len() ==> props_resolve(ds, owner, (#[trigger] d.events@[k]).parameters@)
}

/// Every reference of every domain leads somewhere.
pub open spec fn all_resolve(ds: Seq<Domain>) -> bool {
    forall|o: int| 0 <= o < ds.len() ==> #[trigger] domain_resolves(ds, o)
}

/// `e` is the error that an unresolved reference `domain.name` (or bare
/// `name`), written in domain `owner`, gives: the ambiguous kind when it is
/// ambiguous, else the not-found kind; it holds the qualifier (for a bare name,
/// the owner's name) and the name.
pub open spec fn unresolved_error_for(
    ds: Seq<Domain>,
    owner: int,
    domain: Option<String>,
    name: Seq<char>,
    e: CompileError,
) -> bool {
    &&& !exists|i: int| target_of(ds, owner, domain, name, i)
    &&& if domain is None && ambiguous(ds, owner, name) {
        e matches CompileError::UnresolvedAmbiguous { domain: d, name: n } && d@ == ds[owner].name@
            && n@ == name
    } else {
        e matches CompileError::UnresolvedNotFound { domain: d, name: n } && n@ == name && d@ == match domain {
            Some(q) => q@,
            None => ds[owner].name@,
        }
    }
}

/// The reference `domain.name` occurs in `r`.
pub open spec fn ref_mentions(r: TypeRef, domain: Option<String>, name: Seq<char>) -> bool
    decreases r,
{
    match r {
        TypeRef::Primitive(_) => false,
        TypeRef::Ref { domain: d, name: n } => d == domain && n@ == name,
        TypeRef::ArrayOf(inner) => ref_mentions(*inner, domain, name),
    }
}

pub open spec fn props_mention(ps: Seq<Property>, domain: Option<String>, name: Seq<char>) -> bool {
    exists|k: int| 0 <= k < ps.len() && #[trigger] ref_mentions(ps[k].type_ref, domain, name)
}

pub open spec fn typedef_mentions(t: TypeDef, domain: Option<String>, name: Seq<char>) -> bool {
    match t.kind {
        TypeKind::ArrayOf(r) => ref_mentions(r, domain, name),
        TypeKind::Object(ps) => props_mention(ps@, domain, name),
        _ => false,
    }
}

/// The reference `domain.name` occurs somewhere in domain `d`.
pub open spec fn domain_mentions(d: Domain, domain: Option<String>, name: Seq<char>) -> bool {
    ||| exists|k: int| 0 <= k < d.types@.len() && #[trigger] typedef_mentions(d.types@[k], domain, name)
    ||| exists|k: int|
        0 <= k < d.commands@.len() && (props_mention((#[trigger] d.commands@[k]).parameters@, domain, name)
            || props_mention(d.commands@[k].returns@, domain, name))
    ||| exists|k: int|
        0 <= k < d.events@.len() && #[trigger] props_mention(d.events@[k].parameters@, domain, name)
}

/// `e` is the error of some reference of the model that does not resolve.
pub open spec fn unresolved_error(ds: Seq<Domain>, e: CompileError) -> bool {
    exists|o: int, domain: Option<String>, name: Seq<char>|
        0 <= o < ds.len() && #[trigger] domain_mentions(ds[o], domain, name) && #[trigger] unresolved_error_for(
            ds,
            o,
            domain,
            name,
            e,
        )
}

/// Resolves the reference `domain.name` (or bare `name` when `domain` is
/// `None`) written in domain `owner`, to the index of the defining domain.
pub fn resolve_name(ds: &Vec<Domain>, owner: usize, domain: &Option<String>, name: &String) -> (r:
    Result<usize, CompileError>)
    requires
        owner < ds@.len(),
        domain_names_unique(ds@),
    ensures
        r is Ok ==> target_of(ds@, owner as int, *domain, name@, r->Ok_0 as int),
        r is Ok <==> exists|i: int| target_of(ds@, owner as int, *domain, name@, i),
        r is Err ==> unresolved_error_for(ds@, owner as int, *domain, name@, r->Err_0),
        r is Err ==> (r->Err_0 is UnresolvedAmbiguous <==> (domain is None && ambiguous(
            ds@,
            owner as int,
            name@,
        ))),
{
    match domain {
        Some(q) => {
            match find_domain(ds, q) {
                Some(i) => {
                    if domain_defines(&ds[i], name) {
                        assert(target_of(ds@, owner as int, *domain, name@, i as int));
                        Ok(i)
                    } else {
                        proof {
                            assert forall|j: int| !qualified_target(ds@, q@, name@, j) by {
                                if 0 <= j < ds@.len() && j != i && ds@[j].name@ == q@ {
                                    assert(ds@[j].name@ != ds@[i as int].name@);
                                }
                            }
                        }
                        Err(CompileError::UnresolvedNotFound { domain: q.clone(), name: name.clone() })
                    }
                },
                None => Err(CompileError::UnresolvedNotFound { domain: q.clone(), name: name.clone() }),
            }
        },
        None => {
            if domain_defines(&ds[owner], name) {
                assert(target_of(ds@, owner as int, *domain, name@, owner as int));
                return Ok(owner);
            }
            let mut found: Option<usize> = None;
            let mut k: usize = 0;
            while k < ds.len()
                invariant
                    k <= ds@.len(),
                    owner < ds@.len(),
                    *domain is None,
                    !defines(ds@[owner as int], name@),
                    match found {
                        None => forall|j: int| 0 <= j < k ==> !defines(#[trigger] ds@[j], name@),
                        Some(f) => f < k && defines(ds@[f as int], name@) && forall|j: int|
                            0 <= j < k && j != f ==> !defines(#[trigger] ds@[j], name@),
                    },
                decreases ds@.len() - k,
            {
                if domain_defines(&ds[k], name) {
                    match found {
                        Some(f) => {
                            proof {
                                assert(defines(ds@[f as int], name@) && defines(ds@[k as int], name@));
                                assert(ambiguous(ds@, owner as int, name@));
                                assert forall|i: int| !unqualified_target(ds@, owner as int, name@, i) by {
                                    if i != f {
                                        assert(!(0 <= f < ds@.len() && f != i ==> !defines(ds@[f as int], name@)));
                                    } else {
                                        assert(!(0 <= k < ds@.len() && k != i ==> !defines(ds@[k as int], name@)));
                                    }
                                }
                                assert forall|i: int| !target_of(ds@, owner as int, *domain, name@, i) by {
                                    assert(!unqualified_target(ds@, owner as int, name@, i));
                                }
                            }
                            return Err(
                                CompileError::UnresolvedAmbiguous {
                                    domain: ds[owner].name.clone(),
                                    name: name.clone(),
                                },
                            );
                        },
                        None => {
                            found = Some(k);
                        },
                    }
                }
                k = k + 1;
            }
            match found {
                Some(f) => {
                    assert(target_of(ds@, owner as int, *domain, name@, f as int));
                    Ok(f)
                },
                None => {
                    proof {
                        assert forall|a: int, b: int|
                            0 <= a < ds@.len() && 0 <= b < ds@.len() && a != b && #[trigger] defines(ds@[a], name@)
                                implies !#[trigger] defines(ds@[b], name@) by {}
                    }
                    Err(CompileError::UnresolvedNotFound { domain: ds[owner].name.clone(), name: name.clone() })
                },
            }
        },
    }
}

} // verus!

verus! {

/// Checks that every named reference inside `r`, written in domain `owner`,
/// resolves.
pub fn check_ref(ds: &Vec<Domain>, owner: usize, r: &TypeRef) -> (res: Result<(), CompileError>)
    requires
        owner < ds@.len(),
        domain_names_unique(ds@),
    ensures
        res is Ok <==> ref_resolves(ds@, owner as int, *r),
        res is Err ==> exists|domain: Option<String>, name: Seq<char>|
            #[trigger] ref_mentions(*r, domain, name) && unresolved_error_for(
                ds@,
                owner as int,
                domain,
                name,
                res->Err_0,
            ),
    decreases r,
{
    match r {
        TypeRef::Primitive(_) => Ok(()),
        TypeRef::Ref { domain, name } => match resolve_name(ds, owner, domain, name) {
            Ok(_) => Ok(()),
            Err(e) => {
                assert(ref_mentions(*r, *domain, name@));
                Err(e)
            },
        },
        TypeRef::ArrayOf(inner) => {
            let res = check_ref(ds, owner, &**inner);
            assert(forall|domain: Option<String>, name: Seq<char>|
                ref_mentions(*r, domain, name) == ref_mentions(**inner, domain, name));
            res
        },
    }
}

/// Checks the references of a list of properties.
pub fn check_props(ds: &Vec<Domain>, owner: usize, ps: &Vec<Property>) -> (res: Result<(), CompileError>)
    requires
        owner < ds@.len(),
        domain_names_unique(ds@),
    ensures
        res is Ok <==> props_resolve(ds@, owner as int, ps@),
        res is Err ==> exists|domain: Option<String>, name: Seq<char>|
            #[trigger] props_mention(ps@, domain, name) && unresolved_error_for(
                ds@,
                owner as int,
                domain,
                name,
                res->Err_0,
            ),
{
    let mut k: usize = 0;
    while k < ps.len()
        invariant
            owner < ds@.len(),
            domain_names_unique(ds@),
            k <= ps@.len(),
            forall|j: int| 0 <= j < k ==> ref_resolves(ds@, owner as int, (#[trigger] ps@[j]).type_ref),
        decreases ps@.len() - k,
    {
        match check_ref(ds, owner, &ps[k].type_ref) {
            Ok(()) => {},
            Err(e) => {
                proof {
                    let (d, n) = choose|d: Option<String>, n: Seq<char>|
                        #[trigger] ref_mentions(ps@[k as int].type_ref, d, n) && unresolved_error_for(
                            ds@,
                            owner as int,
                            d,
                            n,
                            e,
                        );
                    assert(props_mention(ps@, d, n));
                }
                return Err(e);
            },
        }
        k = k + 1;
    }
    Ok(())
}

/// Checks the references of one type definition.
pub fn check_typedef(ds: &Vec<Domain>, owner: usize, t: &TypeDef) -> (res: Result<(), CompileError>)
    requires
        owner < ds@.len(),
        domain_names_unique(ds@),
    ensures
        res is Ok <==> typedef_resolves(ds@, owner as int, *t),
        res is Err ==> exists|domain: Option<String>, name: Seq<char>|
            #[trigger] typedef_mentions(*t, domain, name) && unresolved_error_for(
                ds@,
                owner as int,
                domain,
                name,
                res->Err_0,
            ),
{
    match &t.kind {
        TypeKind::Alias(_) => Ok(()),
        TypeKind::Enum(_) => Ok(()),
        TypeKind::ArrayOf(r) => {
            let res = check_ref(ds, owner, r);
            proof {
                if res is Err {
                    let (dm, nm) = choose|dm: Option<String>, nm: Seq<char>|
                        #[trigger] ref_mentions(*r, dm, nm) && unresolved_error_for(
                            ds@,
                            owner as int,
                            dm,
                            nm,
                            res->Err_0,
                        );
                    assert(typedef_mentions(*t, dm, nm));
                }
            }
            res
        },
        TypeKind::Object(ps) => {
            let res = check_props(ds, owner, ps);
            proof {
                if res is Err {
                    let (dm, nm) = choose|dm: Option<String>, nm: Seq<char>|
                        #[trigger] props_mention(ps@, dm, nm) && unresolved_error_for(
                            ds@,
                            owner as int,
                            dm,
                            nm,
                            res->Err_0,
                        );
                    assert(typedef_mentions(*t, dm, nm));
                }
            }
            res
        },
    }
}

/// Checks every reference written in domain `owner`.
pub fn check_domain(ds: &Vec<Domain>, owner: usize) -> (res: Result<(), CompileError>)
    requires
        owner < ds@.len(),
        domain_names_unique(ds@),
    ensures
        res is Ok <==> domain_resolves(ds@, owner as int),
        res is Err ==> exists|domain: Option<String>, name: Seq<char>|
            #[trigger] domain_mentions(ds@[owner as int], domain, name) && unresolved_error_for(
                ds@,
                owner as int,
                domain,
                name,
                res->Err_0,
            ),
{
    let d = &ds[owner];
    let mut k: usize = 0;
    while k < d.types.len()
        invariant
            owner < ds@.len(),
            domain_names_unique(ds@),
            *d == ds@[owner as int],
            k <= d.types@.len(),
            forall|j: int| 0 <= j < k ==> typedef_resolves(ds@, owner as int, #[trigger] d.types@[j]),
        decreases d.types@.len() - k,
    {
        match check_typedef(ds, owner, &d.types[k]) {
            Ok(()) => {},
            Err(e) => {
                proof {
                    let (dm, nm) = choose|dm: Option<String>, nm: Seq<char>|
                        #[trigger] typedef_mentions(d.types@[k as int], dm, nm) && unresolved_error_for(ds@, owner as int, dm, nm, e);
                    assert(domain_mentions(ds@[owner as int], dm, nm));
                }
                return Err(e);
            },
        }
        k = k + 1;
    }
    let mut k: usize = 0;
    while k < d.commands.len()
        invariant
            owner < ds@.len(),
            domain_names_unique(ds@),
            *d == ds@[owner as int],
            k <= d.commands@.len(),
            forall|j: int|
                0 <= j < k ==> props_resolve(ds@, owner as int, (#[trigger] d.commands@[j]).parameters@)
                    && props_resolve(ds@, owner as int, d.commands@[j].returns@),
        decreases d.commands@.len() - k,
    {
        match check_props(ds, owner, &d.commands[k].parameters) {
            Ok(()) => {},
            Err(e) => {
                proof {
                    let (dm, nm) = choose|dm: Option<String>, nm: Seq<char>|
                        #[trigger] props_mention(d.commands@[k as int].parameters@, dm, nm) && unresolved_error_for(ds@, owner as int, dm, nm, e);
                    assert(domain_mentions(ds@[owner as int], dm, nm));
                }
                return Err(e);
            },
        }
        match check_props(ds, owner, &d.commands[k].returns) {
            Ok(()) => {},
            Err(e) => {
                proof {
                    let (dm, nm) = choose|dm: Option<String>, nm: Seq<char>|
                        #[trigger] props_mention(d.commands@[k as int].returns@, dm, nm) && unresolved_error_for(ds@, owner as int, dm, nm, e);
                    assert(props_mention(d.commands@[k as int].parameters@, dm, nm) || props_mention(
                        d.commands@[k as int].returns@,
                        dm,
                        nm,
                    ));
                    assert(domain_mentions(ds@[owner as int], dm, nm));
                }
                return Err(e);
            },
        }
        k = k + 1;
    }
    let mut k: usize = 0;
    while k < d.events.len()
        invariant
            owner < ds@.len(),
            domain_names_unique(ds@),
            *d == ds@[owner as int],
            k <= d.events@.len(),
            forall|j: int|
                0 <= j < k ==> props_resolve(ds@, owner as int, (#[trigger] d.events@[j]).parameters@),
        decreases d.events@.len() - k,
    {
        match check_props(ds, owner, &d.events[k].parameters) {
            Ok(()) => {},
            Err(e) => {
                proof {
                    let (dm, nm) = choose|dm: Option<String>, nm: Seq<char>|
                        #[trigger] props_mention(d.events@[k as int].parameters@, dm, nm) && unresolved_error_for(ds@, owner as int, dm, nm, e);
                    assert(domain_mentions(ds@[owner as int], dm, nm));
                }
                return Err(e);
            },
        }
        k = k + 1;
    }
    Ok(())
}

/// Checks every reference of every domain.
pub fn check_references(ds: &Vec<Domain>) -> (res: Result<(), CompileError>)
    requires
        domain_names_unique(ds@),
    ensures
        res is Ok <==> all_resolve(ds@),
        res is Err ==> unresolved_error(ds@, res->Err_0),
{
    let mut o: usize = 0;
    while o < ds.len()
        invariant
            domain_names_unique(ds@),
            o <= ds@.len(),
            forall|j: int| 0 <= j < o ==> #[trigger] domain_resolves(ds@, j),
        decreases ds@.len() - o,
    {
        match check_domain(ds, o) {
            Ok(()) => {},
            Err(e) => {
                proof {
                    let (dm, nm) = choose|dm: Option<String>, nm: Seq<char>|
                        #[trigger] domain_mentions(ds@[o as int], dm, nm) && unresolved_error_for(
                            ds@,
                            o as int,
                            dm,
                            nm,
                            e,
                        );
                    assert(unresolved_error_for(ds@, o as int, dm, nm, e));
                }
                return Err(e);
            },
        }
        o = o + 1;
    }
    Ok(())
}

} // verus!
