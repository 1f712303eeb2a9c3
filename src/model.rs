use vstd::prelude::*;

verus! {

/// A primitive kind that a schema type or property may name directly.
#[derive(Clone, Copy, Debug, PartialEq, Eq, Structural)]
pub enum Primitive {
    Text,
    Integer,
    Number,
    Boolean,
    Any,
    Binary,
}

/// A reference to a type, as written in the schema.
#[derive(Debug)]
pub enum TypeRef {
    Primitive(Primitive),
    /// A named type, optionally qualified by its domain.
    Ref { domain: Option<String>, name: String },
    ArrayOf(Box<TypeRef>),
}

/// A field of an object, a command parameter or return, or an event parameter.
#[derive(Debug)]
pub struct Property {
    pub name: String,
    pub type_ref: TypeRef,
    pub optional: bool,
}

/// The shape of a named type.
#[derive(Debug)]
pub enum TypeKind {
    Alias(Primitive),
    Enum(Vec<String>),
    ArrayOf(TypeRef),
    Object(Vec<Property>),
}

#[derive(Debug)]
pub struct TypeDef {
    pub name: String,
    pub kind: TypeKind,
}

#[derive(Debug)]
pub struct CommandDef {
    pub name: String,
    pub parameters: Vec<Property>,
    pub returns: Vec<Property>,
    pub redirect: Option<String>,
}

#[derive(Debug)]
pub struct EventDef {
    pub name: String,
    pub parameters: Vec<Property>,
}

#[derive(Debug)]
pub struct Domain {
    pub name: String,
    pub dependencies: Vec<String>,
    pub experimental: bool,
    pub deprecated: bool,
    pub types: Vec<TypeDef>,
    pub commands: Vec<CommandDef>,
    pub events: Vec<EventDef>,
}

/// One parsed schema file.
#[derive(Debug)]
pub struct ProtocolDocument {
    pub domains: Vec<Domain>,
}

} // verus!
