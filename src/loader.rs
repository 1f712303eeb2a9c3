use vstd::prelude::*;

use crate::error::CompileError;
use crate::model::{
    CommandDef, Domain, EventDef, Primitive, Property, ProtocolDocument, TypeDef, TypeKind, TypeRef,
};

verus! {

/// The type part of a descriptor as written in a schema document: a `$ref`,
/// a `type`, and for arrays the `items` descriptor.
#[derive(Debug)]
pub struct RawShape {
    pub reference: Option<String>,
    pub kind: Option<String>,
    pub items: Option<Box<RawShape>>,
}

/// A property descriptor: `{name, optional?, $ref | type, items?}`.
#[derive(Debug)]
pub struct RawProperty {
    pub name: String,
    pub optional: Option<bool>,
    pub shape: RawShape,
}

/// A type descriptor: an `id` and one of `enum`, `properties`, or a `type`
/// (with `items` for arrays).
#[derive(Debug)]
pub struct RawType {
    pub id: String,
    pub literals: Option<Vec<String>>,
    pub properties: Option<Vec<RawProperty>>,
    pub shape: RawShape,
}

#[derive(Debug)]
pub struct RawCommand {
    pub name: String,
    pub parameters: Option<Vec<RawProperty>>,
    pub returns: Option<Vec<RawProperty>>,
    pub redirect: Option<String>,
}

#[derive(Debug)]
pub struct RawEvent {
    pub name: String,
    pub parameters: Option<Vec<RawProperty>>,
}

#[derive(Debug)]
pub struct RawDomain {
    pub domain: String,
    pub dependencies: Option<Vec<String>>,
    pub experimental: Option<bool>,
    pub deprecated: Option<bool>,
    pub types: Option<Vec<RawType>>,
    pub commands: Option<Vec<RawCommand>>,
    pub events: Option<Vec<RawEvent>>,
}

/// One schema document as read: `{ domains: [...] }`.
#[derive(Debug)]
pub struct RawDocument {
    pub domains: Vec<RawDomain>,
}

/// A list that a descriptor may leave out, read as empty when it does.
pub open spec fn listed<T>(o: Option<Vec<T>>) -> Seq<T> {
    match o {
        Some(v) => v@,
        None => seq![],
    }
}

/// The primitive kind that a `type` string names.
pub open spec fn primitive_named(s: Seq<char>) -> Option<Primitive> {
    if s == "string"@ {
        Some(Primitive::Text)
    } else if s == "integer"@ {
        Some(Primitive::Integer)
    } else if s == "number"@ {
        Some(Primitive::Number)
    } else if s == "boolean"@ {
        Some(Primitive::Boolean)
    } else if s == "any"@ || s == "object"@ {
        Some(Primitive::Any)
    } else if s == "binary"@ {
        Some(Primitive::Binary)
    } else {
        None
    }
}

/// `k` is the position of the first `.` of `s`.
pub open spec fn first_dot(s: Seq<char>, k: int) -> bool {
    0 <= k < s.len() && s[k] == '.' && forall|j: int| 0 <= j < k ==> s[j] != '.'
}

/// `r` is the reference that the text `s` of a `$ref` denotes: `Domain.Name`
/// is qualified, a name without a dot is not.
pub open spec fn ref_text_denotes(s: Seq<char>, r: TypeRef) -> bool {
    match r {
        TypeRef::Ref { domain, name } => match domain {
            Some(d) => exists|k: int|
                first_dot(s, k) && d@ == s.take(k) && name@ == s.skip(k + 1),
            None => (forall|k: int| 0 <= k < s.len() ==> s[k] != '.') && name@ == s,
        },
        _ => false,
    }
}

/// The descriptor names a type: a reference, a primitive, or an array of
/// such.
pub open spec fn shape_valid(s: RawShape) -> bool
    decreases s,
{
    match s.reference {
        Some(_) => true,
        None => match s.kind {
            None => false,
            Some(k) => if k@ == "array"@ {
                match s.items {
                    Some(b) => shape_valid(*b),
                    None => false,
                }
            } else {
                primitive_named(k@) is Some
            },
        },
    }
}

/// `r` is the type reference that the descriptor `s` denotes.
pub open spec fn shape_denotes(s: RawShape, r: TypeRef) -> bool
    decreases s,
{
    match s.reference {
        Some(x) => ref_text_denotes(x@, r),
        None => match s.kind {
            None => false,
            Some(k) => if k@ == "array"@ {
                match (s.items, r) {
                    (Some(b), TypeRef::ArrayOf(inner)) => shape_denotes(*b, *inner),
                    _ => false,
                }
            } else {
                primitive_named(k@) == Some(r->Primitive_0) && r is Primitive
            },
        },
    }
}

/// Which error an invalid descriptor gives: a schema-parse error (`true`)
/// when it has neither `$ref` nor `type` or is an array without `items`, an
/// unsupported-shape error (`false`) when its `type` names nothing known.
pub open spec fn shape_error_is_parse(s: RawShape) -> bool
    decreases s,
{
    match s.reference {
        Some(_) => false,
        None => match s.kind {
            None => true,
            Some(k) => if k@ == "array"@ {
                match s.items {
                    Some(b) => shape_error_is_parse(*b),
                    None => true,
                }
            } else {
                false
            },
        },
    }
}

pub open spec fn error_kind_matches(e: CompileError, parse: bool) -> bool {
    if parse {
        e is SchemaParse
    } else {
        e is UnsupportedTypeShape
    }
}

pub open spec fn property_denotes(raw: RawProperty, p: Property) -> bool {
    &&& p.name@ == raw.name@
    &&& p.optional == (raw.optional == Some(true))
    &&& shape_denotes(raw.shape, p.type_ref)
}

fn literal(s: &str) -> (r: String)
    ensures
        r@ == s@,
{
    String::from_str(s)
}

/// The primitive kind that the `type` string `k` names, if any.
pub fn parse_primitive(k: &String) -> (r: Option<Primitive>)
    ensures
        r == primitive_named(k@),
{
    proof {
        reveal_strlit("string");
        reveal_strlit("integer");
        reveal_strlit("number");
        reveal_strlit("boolean");
        reveal_strlit("any");
        reveal_strlit("object");
        reveal_strlit("binary");
    }
    if *k == literal("string") {
        Some(Primitive::Text)
    } else if *k == literal("integer") {
        Some(Primitive::Integer)
    } else if *k == literal("number") {
        Some(Primitive::Number)
    } else if *k == literal("boolean") {
        Some(Primitive::Boolean)
    } else if *k == literal("any") || *k == literal("object") {
        Some(Primitive::Any)
    } else if *k == literal("binary") {
        Some(Primitive::Binary)
    } else {
        None
    }
}

/// Reads the text of a `$ref`: `Domain.Name` or a bare `Name`.
pub fn parse_ref(s: &String) -> (r: TypeRef)
    ensures
        ref_text_denotes(s@, r),
{
    let t = s.as_str();
    let n = t.unicode_len();
    let mut k: usize = 0;
    while k < n
        invariant
            n == s@.len(),
            t@ == s@,
            k <= n,
            forall|j: int| 0 <= j < k ==> s@[j] != '.',
        decreases n - k,
    {
        if t.get_char(k) == '.' {
            let domain = String::from_str(t.substring_char(0, k));
            let name = String::from_str(t.substring_char(k + 1, n));
            let r = TypeRef::Ref { domain: Some(domain), name };
            assert(first_dot(s@, k as int));
            assert(domain@ =~= s@.take(k as int));
            assert(name@ =~= s@.skip(k + 1));
            return r;
        }
        k = k + 1;
    }
    TypeRef::Ref { domain: None, name: s.clone() }
}

/// Turns a type descriptor into a type reference.
pub fn convert_shape(s: &RawShape) -> (r: Result<TypeRef, CompileError>)
    ensures
        r is Ok <==> shape_valid(*s),
        r is Ok ==> shape_denotes(*s, r->Ok_0),
        r is Err ==> error_kind_matches(r->Err_0, shape_error_is_parse(*s)),
    decreases s,
{
    proof {
        reveal_strlit("array");
    }
    match &s.reference {
        Some(x) => Ok(parse_ref(x)),
        None => match &s.kind {
            None => Err(
                CompileError::SchemaParse { detail: literal("descriptor without $ref or type") },
            ),
            Some(k) => {
                if *k == literal("array") {
                    match &s.items {
                        Some(b) => {
                            let inner = convert_shape(&**b)?;
                            Ok(TypeRef::ArrayOf(Box::new(inner)))
                        },
                        None => Err(CompileError::SchemaParse { detail: literal("array without items") }),
                    }
                } else {
                    match parse_primitive(k) {
                        Some(p) => Ok(TypeRef::Primitive(p)),
                        None => Err(CompileError::UnsupportedTypeShape { detail: k.clone() }),
                    }
                }
            },
        },
    }
}

/// Turns a property descriptor into a property.
pub fn convert_property(raw: RawProperty) -> (r: Result<Property, CompileError>)
    ensures
        r is Ok <==> shape_valid(raw.shape),
        r is Ok ==> property_denotes(raw, r->Ok_0),
        r is Err ==> error_kind_matches(r->Err_0, shape_error_is_parse(raw.shape)),
{
    let type_ref = convert_shape(&raw.shape)?;
    let optional = match raw.optional {
        Some(b) => b,
        None => false,
    };
    Ok(Property { name: raw.name, type_ref, optional })
}

pub open spec fn props_valid(raws: Seq<RawProperty>) -> bool {
    forall|i: int| 0 <= i < raws.len() ==> shape_valid(#[trigger] raws[i].shape)
}

pub open spec fn props_denote(raws: Seq<RawProperty>, ps: Seq<Property>) -> bool {
    raws.len() == ps.len() && forall|i: int| 0 <= i < raws.len() ==> property_denotes(#[trigger] raws[i], ps[i])
}

/// `e` is the error of some invalid property of `raws`.
pub open spec fn props_error(raws: Seq<RawProperty>, e: CompileError) -> bool {
    exists|k: int|
        0 <= k < raws.len() && !shape_valid(#[trigger] raws[k].shape) && error_kind_matches(
            e,
            shape_error_is_parse(raws[k].shape),
        )
}

/// `e` is the error that the invalid type descriptor `raw` gives.
pub open spec fn type_error(raw: RawType, e: CompileError) -> bool {
    &&& !type_valid(raw)
    &&& if raw.properties is Some {
        props_error(raw.properties->Some_0@, e)
    } else {
        match raw.shape.kind {
            None => e is SchemaParse,
            Some(k) => if k@ == "array"@ {
                match raw.shape.items {
                    Some(b) => error_kind_matches(e, shape_error_is_parse(*b)),
                    None => e is SchemaParse,
                }
            } else {
                e is UnsupportedTypeShape
            },
        }
    }
}

/// `e` is the error of some invalid descriptor of domain `raw`.
pub open spec fn domain_error(raw: RawDomain, e: CompileError) -> bool {
    ||| exists|i: int| 0 <= i < listed(raw.types).len() && #[trigger] type_error(listed(raw.types)[i], e)
    ||| exists|i: int|
        0 <= i < listed(raw.commands).len() && (props_error(listed((#[trigger] listed(raw.commands)[i]).parameters), e)
            || props_error(listed(listed(raw.commands)[i].returns), e))
    ||| exists|i: int|
        0 <= i < listed(raw.events).len() && props_error(listed((#[trigger] listed(raw.events)[i]).parameters), e)
}

/// `e` is the error of some invalid descriptor of document `raw`.
pub open spec fn document_error(raw: RawDocument, e: CompileError) -> bool {
    exists|i: int| 0 <= i < raw.domains@.len() && #[trigger] domain_error(raw.domains@[i], e)
}

/// `e` is the error of some invalid descriptor of one of the documents.
pub open spec fn documents_error(raws: Seq<RawDocument>, e: CompileError) -> bool {
    exists|i: int| 0 <= i < raws.len() && #[trigger] document_error(raws[i], e)
}

pub open spec fn type_valid(raw: RawType) -> bool {
    if raw.literals is Some {
        true
    } else if raw.properties is Some {
        props_valid(raw.properties->Some_0@)
    } else {
        match raw.shape.kind {
            None => false,
            Some(k) => if k@ == "array"@ {
                raw.shape.items is Some && shape_valid(*raw.shape.items->Some_0)
            } else {
                primitive_named(k@) is Some
            },
        }
    }
}

/// `t` is the type that the descriptor `raw` defines.
pub open spec fn type_denotes(raw: RawType, t: TypeDef) -> bool {
    &&& t.name@ == raw.id@
    &&& match raw.literals {
        Some(v) => t.kind == TypeKind::Enum(v),
        None => match raw.properties {
            Some(ps) => t.kind matches TypeKind::Object(qs) && props_denote(ps@, qs@),
            None => match raw.shape.kind {
                None => false,
                Some(k) => if k@ == "array"@ {
                    t.kind matches TypeKind::ArrayOf(e) && raw.shape.items is Some && shape_denotes(
                        *raw.shape.items->Some_0,
                        e,
                    )
                } else {
                    primitive_named(k@) is Some && t.kind == TypeKind::Alias(primitive_named(k@)->Some_0)
                },
            },
        },
    }
}

pub open spec fn command_valid(raw: RawCommand) -> bool {
    props_valid(listed(raw.parameters)) && props_valid(listed(raw.returns))
}

pub open spec fn command_denotes(raw: RawCommand, c: CommandDef) -> bool {
    &&& c.name@ == raw.name@
    &&& props_denote(listed(raw.parameters), c.parameters@)
    &&& props_denote(listed(raw.returns), c.returns@)
    &&& c.redirect == raw.redirect
}

pub open spec fn event_denotes(raw: RawEvent, e: EventDef) -> bool {
    e.name@ == raw.name@ && props_denote(listed(raw.parameters), e.parameters@)
}

pub open spec fn domain_valid(raw: RawDomain) -> bool {
    &&& forall|i: int| 0 <= i < listed(raw.types).len() ==> type_valid(#[trigger] listed(raw.types)[i])
    &&& forall|i: int|
        0 <= i < listed(raw.commands).len() ==> command_valid(#[trigger] listed(raw.commands)[i])
    &&& forall|i: int|
        0 <= i < listed(raw.events).len() ==> props_valid(listed((#[trigger] listed(raw.events)[i]).parameters))
}

/// `d` is the domain that the descriptor `raw` declares.
pub open spec fn domain_denotes(raw: RawDomain, d: Domain) -> bool {
    &&& d.name@ == raw.domain@
    &&& d.dependencies@ == listed(raw.dependencies)
    &&& d.experimental == (raw.experimental == Some(true))
    &&& d.deprecated == (raw.deprecated == Some(true))
    &&& d.types@.len() == listed(raw.types).len()
    &&& forall|i: int| 0 <= i < d.types@.len() ==> type_denotes(listed(raw.types)[i], #[trigger] d.types@[i])
    &&& d.commands@.len() == listed(raw.commands).len()
    &&& forall|i: int|
        0 <= i < d.commands@.len() ==> command_denotes(listed(raw.commands)[i], #[trigger] d.commands@[i])
    &&& d.events@.len() == listed(raw.events).len()
    &&& forall|i: int|
        0 <= i < d.events@.len() ==> event_denotes(listed(raw.events)[i], #[trigger] d.events@[i])
}

pub open spec fn document_valid(raw: RawDocument) -> bool {
    forall|i: int| 0 <= i < raw.domains@.len() ==> domain_valid(#[trigger] raw.domains@[i])
}

pub open spec fn document_denotes(raw: RawDocument, doc: ProtocolDocument) -> bool {
    &&& doc.domains@.len() == raw.domains@.len()
    &&& forall|i: int|
        0 <= i < raw.domains@.len() ==> domain_denotes(raw.domains@[i], #[trigger] doc.domains@[i])
}

fn take_list<T>(o: Option<Vec<T>>) -> (r: Vec<T>)
    ensures
        r@ == listed(o),
{
    match o {
        Some(v) => v,
        None => Vec::new(),
    }
}

/// Turns a list of property descriptors, in order.
pub fn convert_properties(raws: Option<Vec<RawProperty>>) -> (r: Result<Vec<Property>, CompileError>)
    ensures
        r is Ok <==> props_valid(listed(raws)),
        r is Ok ==> props_denote(listed(raws), r->Ok_0@),
        r is Err ==> props_error(listed(raws), r->Err_0),
{
    let mut rest = take_list(raws);
    let ghost all = rest@;
    let mut out: Vec<Property> = Vec::new();
    while rest.len() > 0
        invariant
            all == listed(raws),
            out@.len() + rest@.len() == all.len(),
            rest@ == all.skip(out@.len() as int),
            forall|i: int| 0 <= i < out@.len() ==> property_denotes(all[i], #[trigger] out@[i]),
            forall|i: int| 0 <= i < out@.len() ==> shape_valid(#[trigger] all[i].shape),
        decreases rest@.len(),
    {
        let ghost before = rest@;
        let raw = rest.remove(0);
        assert(raw == all[out@.len() as int]);
        assert(rest@ =~= all.skip(out@.len() as int + 1));
        match convert_property(raw) {
            Ok(p) => {
                out.push(p);
            },
            Err(e) => {
                assert(!shape_valid(all[out@.len() as int].shape));
                assert(!props_valid(all));
                assert(props_error(all, e));
                return Err(e);
            },
        }
    }
    Ok(out)
}

/// Turns a type descriptor into a type definition.
pub fn convert_type(raw: RawType) -> (r: Result<TypeDef, CompileError>)
    ensures
        r is Ok <==> type_valid(raw),
        r is Ok ==> type_denotes(raw, r->Ok_0),
        r is Err ==> type_error(raw, r->Err_0),
{
    proof {
        reveal_strlit("array");
    }
    let RawType { id, literals, properties, shape } = raw;
    if let Some(v) = literals {
        return Ok(TypeDef { name: id, kind: TypeKind::Enum(v) });
    }
    if properties.is_some() {
        let ps = match convert_properties(properties) {
            Ok(ps) => ps,
            Err(e) => {
                return Err(e);
            },
        };
        return Ok(TypeDef { name: id, kind: TypeKind::Object(ps) });
    }
    match &shape.kind {
        None => Err(CompileError::SchemaParse { detail: id }),
        Some(k) => {
            if *k == literal("array") {
                match &shape.items {
                    Some(b) => {
                        let e = match convert_shape(&**b) {
                            Ok(e) => e,
                            Err(err) => {
                                return Err(err);
                            },
                        };
                        Ok(TypeDef { name: id, kind: TypeKind::ArrayOf(e) })
                    },
                    None => Err(CompileError::SchemaParse { detail: id }),
                }
            } else {
                match parse_primitive(k) {
                    Some(p) => Ok(TypeDef { name: id, kind: TypeKind::Alias(p) }),
                    None => Err(CompileError::UnsupportedTypeShape { detail: id }),
                }
            }
        },
    }
}

/// Turns a domain descriptor into a domain.
pub fn convert_domain(raw: RawDomain) -> (r: Result<Domain, CompileError>)
    ensures
        r is Ok <==> domain_valid(raw),
        r is Ok ==> domain_denotes(raw, r->Ok_0),
        r is Err ==> domain_error(raw, r->Err_0),
{
    let ghost raw_types = listed(raw.types);
    let ghost raw_commands = listed(raw.commands);
    let ghost raw_events = listed(raw.events);
    let RawDomain { domain, dependencies, experimental, deprecated, types, commands, events } = raw;

    let mut rest = take_list(types);
    let mut out_types: Vec<TypeDef> = Vec::new();
    while rest.len() > 0
        invariant
            raw_types == listed(raw.types),
            raw_commands == listed(raw.commands),
            raw_events == listed(raw.events),
            out_types@.len() + rest@.len() == raw_types.len(),
            rest@ == raw_types.skip(out_types@.len() as int),
            forall|i: int| 0 <= i < out_types@.len() ==> type_denotes(raw_types[i], #[trigger] out_types@[i]),
            forall|i: int| 0 <= i < out_types@.len() ==> type_valid(#[trigger] raw_types[i]),
        decreases rest@.len(),
    {
        let t = rest.remove(0);
        assert(t == raw_types[out_types@.len() as int]);
        assert(rest@ =~= raw_types.skip(out_types@.len() as int + 1));
        let d = match convert_type(t) {
            Ok(d) => d,
            Err(e) => {
                assert(!type_valid(raw_types[out_types@.len() as int]));
                assert(type_error(raw_types[out_types@.len() as int], e));
                return Err(e);
            },
        };
        out_types.push(d);
    }

    let mut rest = take_list(commands);
    let mut out_commands: Vec<CommandDef> = Vec::new();
    while rest.len() > 0
        invariant
            raw_types == listed(raw.types),
            raw_commands == listed(raw.commands),
            raw_events == listed(raw.events),
            out_commands@.len() + rest@.len() == raw_commands.len(),
            rest@ == raw_commands.skip(out_commands@.len() as int),
            forall|i: int|
                0 <= i < out_commands@.len() ==> command_denotes(raw_commands[i], #[trigger] out_commands@[i]),
            forall|i: int| 0 <= i < out_commands@.len() ==> command_valid(#[trigger] raw_commands[i]),
        decreases rest@.len(),
    {
        let c = rest.remove(0);
        assert(c == raw_commands[out_commands@.len() as int]);
        assert(rest@ =~= raw_commands.skip(out_commands@.len() as int + 1));
        let name = c.name;
        let redirect = c.redirect;
        let ghost rc = raw_commands[out_commands@.len() as int];
        let parameters = match convert_properties(c.parameters) {
            Ok(ps) => ps,
            Err(e) => {
                assert(!command_valid(rc));
                assert(rc == listed(raw.commands)[out_commands@.len() as int]);
                assert(props_error(listed(rc.parameters), e) || props_error(listed(rc.returns), e));
                return Err(e);
            },
        };
        let results = match convert_properties(c.returns) {
            Ok(ps) => ps,
            Err(e) => {
                assert(!command_valid(rc));
                assert(rc == listed(raw.commands)[out_commands@.len() as int]);
                assert(props_error(listed(rc.parameters), e) || props_error(listed(rc.returns), e));
                return Err(e);
            },
        };
        out_commands.push(CommandDef { name, parameters, returns: results, redirect });
    }

    let mut rest = take_list(events);
    let mut out_events: Vec<EventDef> = Vec::new();
    while rest.len() > 0
        invariant
            raw_types == listed(raw.types),
            raw_commands == listed(raw.commands),
            raw_events == listed(raw.events),
            out_events@.len() + rest@.len() == raw_events.len(),
            rest@ == raw_events.skip(out_events@.len() as int),
            forall|i: int| 0 <= i < out_events@.len() ==> event_denotes(raw_events[i], #[trigger] out_events@[i]),
            forall|i: int| 0 <= i < out_events@.len() ==> props_valid(listed((#[trigger] raw_events[i]).parameters)),
        decreases rest@.len(),
    {
        let e = rest.remove(0);
        assert(e == raw_events[out_events@.len() as int]);
        assert(rest@ =~= raw_events.skip(out_events@.len() as int + 1));
        let ghost re = raw_events[out_events@.len() as int];
        let RawEvent { name, parameters } = e;
        let parameters = match convert_properties(parameters) {
            Ok(ps) => ps,
            Err(e) => {
                assert(!props_valid(listed(re.parameters)));
                assert(re == listed(raw.events)[out_events@.len() as int]);
                return Err(e);
            },
        };
        out_events.push(EventDef { name, parameters });
    }

    Ok(Domain {
        name: domain,
        dependencies: take_list(dependencies),
        experimental: experimental == Some(true),
        deprecated: deprecated == Some(true),
        types: out_types,
        commands: out_commands,
        events: out_events,
    })
}

/// Turns a document as read into a protocol document.
pub fn load_document(raw: RawDocument) -> (r: Result<ProtocolDocument, CompileError>)
    ensures
        r is Ok <==> document_valid(raw),
        r is Ok ==> document_denotes(raw, r->Ok_0),
        r is Err ==> document_error(raw, r->Err_0),
{
    let ghost all = raw.domains@;
    let mut rest = raw.domains;
    let mut out: Vec<Domain> = Vec::new();
    while rest.len() > 0
        invariant
            all == raw.domains@,
            out@.len() + rest@.len() == all.len(),
            rest@ == all.skip(out@.len() as int),
            forall|i: int| 0 <= i < out@.len() ==> domain_denotes(all[i], #[trigger] out@[i]),
            forall|i: int| 0 <= i < out@.len() ==> domain_valid(#[trigger] all[i]),
        decreases rest@.len(),
    {
        let d = rest.remove(0);
        assert(d == all[out@.len() as int]);
        assert(rest@ =~= all.skip(out@.len() as int + 1));
        let d = match convert_domain(d) {
            Ok(d) => d,
            Err(e) => {
                assert(!domain_valid(all[out@.len() as int]));
                assert(domain_error(all[out@.len() as int], e));
                return Err(e);
            },
        };
        out.push(d);
    }
    Ok(ProtocolDocument { domains: out })
}

/// Loads every document, in order; fails on the first malformed one.
pub fn load_documents(raws: Vec<RawDocument>) -> (r: Result<Vec<ProtocolDocument>, CompileError>)
    ensures
        r is Ok <==> forall|i: int| 0 <= i < raws@.len() ==> document_valid(#[trigger] raws@[i]),
        r is Ok ==> r->Ok_0@.len() == raws@.len() && forall|i: int|
            0 <= i < raws@.len() ==> document_denotes(raws@[i], #[trigger] r->Ok_0@[i]),
        r is Err ==> documents_error(raws@, r->Err_0),
{
    let ghost all = raws@;
    let mut rest = raws;
    let mut out: Vec<ProtocolDocument> = Vec::new();
    while rest.len() > 0
        invariant
            all == raws@,
            out@.len() + rest@.len() == all.len(),
            rest@ == all.skip(out@.len() as int),
            forall|i: int| 0 <= i < out@.len() ==> document_denotes(all[i], #[trigger] out@[i]),
            forall|i: int| 0 <= i < out@.len() ==> document_valid(#[trigger] all[i]),
        decreases rest@.len(),
    {
        let d = rest.remove(0);
        assert(d == all[out@.len() as int]);
        assert(rest@ =~= all.skip(out@.len() as int + 1));
        let d = match load_document(d) {
            Ok(d) => d,
            Err(e) => {
                assert(!document_valid(all[out@.len() as int]));
                assert(document_error(all[out@.len() as int], e));
                assert(documents_error(all, e));
                return Err(e);
            },
        };
        out.push(d);
    }
    Ok(out)
}

} // verus!
