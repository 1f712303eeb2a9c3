//! A compiler for protocol schemas of the DevTools kind: named domains that
//! declare types, commands and events. It loads the documents, checks the
//! symbol table, resolves every type reference, finds the references that lie
//! on cycles, and assigns the dispatch tags of commands and events. What it
//! returns is the checked model that an emitter renders as source bindings.
use vstd::prelude::*;

pub mod compile;
pub mod cycles;
pub mod error;
pub mod loader;
pub mod model;
pub mod names;
pub mod resolve;
pub mod symbols;
pub mod tags;

use crate::compile::{
    compile, compiled_from, expected_error, flatten, flatten_documents, should_generate, well_formed,
    CompiledModel,
};
use crate::error::CompileError;
use crate::model::ProtocolDocument;

verus! {

/// The schema revision stamped on output when none is given.
pub const CDP_COMMIT: &'static str = "4f13107aac59fe418043f9edfdaef3b7da579614";

/// What a compilation with provenance `commit` returns, given the length of
/// the artifact already at the output location and the documents.
pub open spec fn init_result(
    commit: Seq<char>,
    existing_len: u64,
    docs: Seq<ProtocolDocument>,
    r: Result<Option<CompiledModel>, CompileError>,
) -> bool {
    if existing_len > 0 {
        r == Ok::<Option<CompiledModel>, CompileError>(None)
    } else {
        &&& (r is Ok <==> well_formed(flatten(docs)))
        &&& r is Ok ==> r->Ok_0 is Some && compiled_from(r->Ok_0->Some_0, flatten(docs), commit)
        &&& r is Err ==> expected_error(flatten(docs), r->Err_0)
    }
}

/// Compiles `docs` with provenance `commit`, unless the output location
/// already holds a non-empty artifact (`existing_len` bytes): then nothing is
/// generated and `None` is returned.
pub fn init_with_commit(commit: &str, existing_len: u64, docs: Vec<ProtocolDocument>) -> (r: Result<
    Option<CompiledModel>,
    CompileError,
>)
    ensures
        init_result(commit@, existing_len, docs@, r),
{
    if !should_generate(existing_len) {
        return Ok(None);
    }
    let domains = flatten_documents(docs);
    match compile(domains, commit) {
        Ok(m) => Ok(Some(m)),
        Err(e) => Err(e),
    }
}

/// `init_with_commit` with the default provenance.
pub fn init(existing_len: u64, docs: Vec<ProtocolDocument>) -> (r: Result<Option<CompiledModel>, CompileError>)
    ensures
        init_result(CDP_COMMIT@, existing_len, docs@, r),
{
    init_with_commit(CDP_COMMIT, existing_len, docs)
}

/// Once a compilation has produced a model, its artifact holds at least the
/// provenance line, so any later run against that location generates nothing.
pub proof fn lemma_second_run_is_noop(
    commit: Seq<char>,
    docs: Seq<ProtocolDocument>,
    first: Result<Option<CompiledModel>, CompileError>,
    existing_len: u64,
    commit2: Seq<char>,
    docs2: Seq<ProtocolDocument>,
    second: Result<Option<CompiledModel>, CompileError>,
)
    requires
        init_result(commit, 0, docs, first),
        first matches Ok(Some(m)),
        existing_len >= first->Ok_0->Some_0.header@.len(),
        init_result(commit2, existing_len, docs2, second),
    ensures
        second == Ok::<Option<CompiledModel>, CompileError>(None),
{
    reveal_strlit("// Auto-generated from ChromeDevTools/devtools-protocol at commit ");
    assert(first->Ok_0->Some_0.header@.len() > 0);
}

} // verus!
