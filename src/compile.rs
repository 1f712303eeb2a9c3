use vstd::prelude::*;

use crate::cycles::{indirection_flags, indirection_table};
use crate::error::CompileError;
use crate::names::{check_identifiers, ident_collision, idents_distinct};
use crate::model::{Domain, ProtocolDocument, TypeKind, TypeRef};
use crate::resolve::{
    all_resolve, check_references, domain_resolves, props_resolve, ref_resolves, target_of,
    typedef_resolves, unresolved_error, unresolved_error_for, ambiguous,
};
use crate::symbols::{check_symbols, defines, duplicated_symbol, symbols_unique};
use crate::tags::{
    check_distinct, collect_command_tags, collect_event_tags, command_tags, distinct, event_tags,
    occurs_twice, views,
};

verus! {

/// The domains of all documents, in load order.
pub open spec fn flatten(docs: Seq<ProtocolDocument>) -> Seq<Domain>
    decreases docs.len(),
{
    if docs.len() == 0 {
        seq![]
    } else {
        docs[0].domains@ + flatten(docs.subrange(1, docs.len() as int))
    }
}

/// The set of domains compiles: its symbol table has no duplicate, every
/// reference resolves, no two events or commands share a tag, and no two
/// emitted identifiers of one namespace are equal.
pub open spec fn well_formed(ds: Seq<Domain>) -> bool {
    &&& symbols_unique(ds)
    &&& all_resolve(ds)
    &&& distinct(event_tags(ds))
    &&& distinct(command_tags(ds))
    &&& idents_distinct(ds)
}

/// The provenance line put at the top of the generated artifact.
pub open spec fn header(commit: Seq<char>) -> Seq<char> {
    "// Auto-generated from ChromeDevTools/devtools-protocol at commit "@ + commit
}

/// A checked model, ready to be rendered.
#[derive(Debug)]
pub struct CompiledModel {
    /// The provenance line naming the schema revision.
    pub header: String,
    /// All domains, in load order.
    pub domains: Vec<Domain>,
    /// The variants of the global event type, by tag, in load order.
    pub event_tags: Vec<String>,
    /// The dispatch tags of all commands, in load order.
    pub command_tags: Vec<String>,
    /// `boxed[i][t][k]`: field `k` of type `t` of domain `i` lies on a cycle
    /// of references and is held indirectly.
    pub boxed: Vec<Vec<Vec<bool>>>,
}

/// `m` is what compiling `ds` under provenance `commit` yields.
pub open spec fn compiled_from(m: CompiledModel, ds: Seq<Domain>, commit: Seq<char>) -> bool {
    &&& m.header@ == header(commit)
    &&& m.domains@ == ds
    &&& views(m.event_tags@) == event_tags(ds)
    &&& views(m.command_tags@) == command_tags(ds)
    &&& indirection_table(ds, m.boxed@)
}

/// The error that compiling `ds` must fail with, by stage: symbol table,
/// then references, then event tags, then command tags, then emitted
/// identifiers. A collision names
/// what occurs twice; an unresolved reference error is that of a reference
/// of the model that does not resolve.
pub open spec fn expected_error(ds: Seq<Domain>, e: CompileError) -> bool {
    if !symbols_unique(ds) {
        e matches CompileError::NameCollision { name } && duplicated_symbol(ds, name@)
    } else if !all_resolve(ds) {
        unresolved_error(ds, e)
    } else if !distinct(event_tags(ds)) {
        e matches CompileError::NameCollision { name } && occurs_twice(event_tags(ds), name@)
    } else if !distinct(command_tags(ds)) {
        e matches CompileError::NameCollision { name } && occurs_twice(command_tags(ds), name@)
    } else {
        e matches CompileError::NameCollision { name } && ident_collision(ds, name@)
    }
}

/// Moves the domains of all documents into one sequence, in load order.
pub fn flatten_documents(docs: Vec<ProtocolDocument>) -> (r: Vec<Domain>)
    ensures
        r@ == flatten(docs@),
{
    let mut docs = docs;
    let ghost all = docs@;
    let mut out: Vec<Domain> = Vec::new();
    while docs.len() > 0
        invariant
            out@ + flatten(docs@) == flatten(all),
        decreases docs@.len(),
    {
        let ghost before = docs@;
        let mut doc = docs.remove(0);
        assert(docs@ =~= before.subrange(1, before.len() as int));
        out.append(&mut doc.domains);
        assert(out@ + flatten(docs@) =~= flatten(all));
    }
    assert(out@ + flatten(docs@) =~= out@);
    out
}

/// Builds the provenance line for `commit`.
pub fn make_header(commit: &str) -> (r: String)
    ensures
        r@ == header(commit@),
{
    let mut r = String::from_str("// Auto-generated from ChromeDevTools/devtools-protocol at commit ");
    r.append(commit);
    r
}

/// Checks `domains` and builds the model that the emitter renders.
pub fn compile(domains: Vec<Domain>, commit: &str) -> (r: Result<CompiledModel, CompileError>)
    ensures
        r is Ok <==> well_formed(domains@),
        r is Ok ==> compiled_from(r->Ok_0, domains@, commit@),
        r is Err ==> expected_error(domains@, r->Err_0),
{
    check_symbols(&domains)?;
    check_references(&domains)?;
    let event_tags = collect_event_tags(&domains);
    check_distinct(&event_tags)?;
    let command_tags = collect_command_tags(&domains);
    check_distinct(&command_tags)?;
    check_identifiers(&domains)?;
    let boxed = indirection_flags(&domains);
    Ok(CompiledModel { header: make_header(commit), domains, event_tags, command_tags, boxed })
}

/// The generation gate: a prior artifact of `existing_len` bytes is reused
/// unless it is empty.
pub fn should_generate(existing_len: u64) -> (r: bool)
    ensures
        r == (existing_len == 0),
{
    existing_len == 0
}

/// A named reference that resolves leads to a domain that defines the named
/// type, and to the named domain when it is qualified.
pub proof fn lemma_resolved_reference_is_defined(
    ds: Seq<Domain>,
    owner: int,
    domain: Option<String>,
    name: String,
)
    requires
        0 <= owner < ds.len(),
        ref_resolves(ds, owner, TypeRef::Ref { domain, name }),
    ensures
        exists|i: int|
            0 <= i < ds.len() && #[trigger] defines(ds[i], name@) && (domain is Some ==> ds[i].name@
                == domain->Some_0@),
{
    let i = choose|i: int| target_of(ds, owner, domain, name@, i);
    assert(0 <= i < ds.len() && defines(ds[i], name@));
}

/// A property of an object type that refers to a type no domain defines
/// makes the compilation fail with an unresolved reference, and that
/// reference's own error is of the not-found kind.
pub proof fn lemma_undefined_reference_fails(
    ds: Seq<Domain>,
    owner: int,
    t: int,
    k: int,
    domain: Option<String>,
    name: String,
)
    requires
        symbols_unique(ds),
        0 <= owner < ds.len(),
        0 <= t < ds[owner].types@.len(),
        ds[owner].types@[t].kind matches TypeKind::Object(ps) && 0 <= k < ps@.len()
            && ps@[k].type_ref == (TypeRef::Ref { domain, name }),
        forall|i: int| 0 <= i < ds.len() ==> !defines(#[trigger] ds[i], name@),
    ensures
        !well_formed(ds),
        forall|e: CompileError| expected_error(ds, e) ==> e.is_unresolved(),
        forall|e: CompileError|
            unresolved_error_for(ds, owner, domain, name@, e) ==> e is UnresolvedNotFound,
{
    let ps = ds[owner].types@[t].kind->Object_0;
    assert(!target_of(ds, owner, domain, name@, owner));
    assert(!ref_resolves(ds, owner, ps@[k].type_ref));
    assert(!props_resolve(ds, owner, ps@));
    assert(!typedef_resolves(ds, owner, ds[owner].types@[t]));
    assert(!domain_resolves(ds, owner));
    assert(!ambiguous(ds, owner, name@));
}

/// Compiling the same domains under the same provenance gives the same
/// model.
pub proof fn lemma_compile_deterministic(
    m1: CompiledModel,
    m2: CompiledModel,
    ds: Seq<Domain>,
    commit: Seq<char>,
)
    requires
        compiled_from(m1, ds, commit),
        compiled_from(m2, ds, commit),
    ensures
        m1.header@ == m2.header@,
        m1.domains@ == m2.domains@,
        views(m1.event_tags@) == views(m2.event_tags@),
        views(m1.command_tags@) == views(m2.command_tags@),
{
}

} // verus!
