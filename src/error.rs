use vstd::prelude::*;

verus! {

/// Why a compilation failed.
#[derive(Debug)]
pub enum CompileError {
    /// An input document is malformed or incomplete.
    SchemaParse { detail: String },
    /// A qualified reference names a missing domain or type, or an
    /// unqualified one names a type that no domain defines.
    UnresolvedNotFound { domain: String, name: String },
    /// An unqualified reference names a type that its own domain lacks and
    /// that two or more other domains define.
    UnresolvedAmbiguous { domain: String, name: String },
    /// A type or property descriptor matches none of the recognised shapes.
    UnsupportedTypeShape { detail: String },
    /// Two entities flatten to the same identifier.
    NameCollision { name: String },
}

impl CompileError {
    pub open spec fn is_unresolved(&self) -> bool {
        self is UnresolvedNotFound || self is UnresolvedAmbiguous
    }
}

} // verus!
