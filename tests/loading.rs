use cdp_codegen::names::make_type_ident;
use cdp_codegen::error::CompileError;
use cdp_codegen::loader::{
    convert_shape, convert_type, load_document, load_documents, parse_primitive, parse_ref, RawCommand,
    RawDocument, RawDomain, RawEvent, RawProperty, RawShape, RawType,
};
use cdp_codegen::model::{Primitive, TypeKind, TypeRef};

fn st(x: &str) -> String {
    x.to_string()
}

fn kind(k: &str) -> RawShape {
    RawShape { reference: None, kind: Some(st(k)), items: None }
}

fn reference(r: &str) -> RawShape {
    RawShape { reference: Some(st(r)), kind: None, items: None }
}

fn array_of(inner: RawShape) -> RawShape {
    RawShape { reference: None, kind: Some(st("array")), items: Some(Box::new(inner)) }
}

fn none_shape() -> RawShape {
    RawShape { reference: None, kind: None, items: None }
}

fn raw_prop(name: &str, optional: Option<bool>, shape: RawShape) -> RawProperty {
    RawProperty { name: st(name), optional, shape }
}

fn raw_domain(name: &str, types: Vec<RawType>, commands: Vec<RawCommand>, events: Vec<RawEvent>) -> RawDomain {
    RawDomain {
        domain: st(name),
        dependencies: Some(vec![st("Runtime")]),
        experimental: Some(true),
        deprecated: None,
        types: Some(types),
        commands: Some(commands),
        events: Some(events),
    }
}

#[test]
fn primitive_names() {
    assert_eq!(parse_primitive(&st("string")), Some(Primitive::Text));
    assert_eq!(parse_primitive(&st("integer")), Some(Primitive::Integer));
    assert_eq!(parse_primitive(&st("number")), Some(Primitive::Number));
    assert_eq!(parse_primitive(&st("boolean")), Some(Primitive::Boolean));
    assert_eq!(parse_primitive(&st("any")), Some(Primitive::Any));
    assert_eq!(parse_primitive(&st("object")), Some(Primitive::Any));
    assert_eq!(parse_primitive(&st("binary")), Some(Primitive::Binary));
    assert_eq!(parse_primitive(&st("array")), None);
    assert_eq!(parse_primitive(&st("String")), None);
}

#[test]
fn qualified_ref_text_splits_at_dot() {
    match parse_ref(&st("Runtime.RemoteObject")) {
        TypeRef::Ref { domain, name } => {
            assert_eq!(domain.as_deref(), Some("Runtime"));
            assert_eq!(name, "RemoteObject");
        }
        other => panic!("unexpected {:?}", other),
    }
    match parse_ref(&st("FrameId")) {
        TypeRef::Ref { domain, name } => {
            assert_eq!(domain, None);
            assert_eq!(name, "FrameId");
        }
        other => panic!("unexpected {:?}", other),
    }
}

#[test]
fn array_shape_converts() {
    match convert_shape(&array_of(reference("Node"))).unwrap() {
        TypeRef::ArrayOf(inner) => match *inner {
            TypeRef::Ref { domain: None, name } => assert_eq!(name, "Node"),
            other => panic!("unexpected {:?}", other),
        },
        other => panic!("unexpected {:?}", other),
    }
}

#[test]
fn shape_without_type_or_ref_fails() {
    assert!(matches!(convert_shape(&none_shape()), Err(CompileError::SchemaParse { .. })));
    let bad_array = RawShape { reference: None, kind: Some(st("array")), items: None };
    assert!(matches!(convert_shape(&bad_array), Err(CompileError::SchemaParse { .. })));
}

#[test]
fn unknown_type_name_is_unsupported() {
    assert!(matches!(convert_shape(&kind("tuple")), Err(CompileError::UnsupportedTypeShape { .. })));
}

#[test]
fn enum_type_keeps_literals() {
    let t = RawType { id: st("State"), literals: Some(vec![st("open"), st("closed")]), properties: None, shape: kind("string") };
    let d = convert_type(t).unwrap();
    assert_eq!(d.name, "State");
    match d.kind {
        TypeKind::Enum(v) => assert_eq!(v, vec![st("open"), st("closed")]),
        other => panic!("unexpected {:?}", other),
    }
}

#[test]
fn object_type_with_optional_count() {
    let t = RawType {
        id: st("Counter"),
        literals: None,
        properties: Some(vec![raw_prop("count", Some(true), kind("integer"))]),
        shape: kind("object"),
    };
    match convert_type(t).unwrap().kind {
        TypeKind::Object(ps) => {
            assert_eq!(ps.len(), 1);
            assert_eq!(ps[0].name, "count");
            assert!(ps[0].optional);
            assert!(matches!(ps[0].type_ref, TypeRef::Primitive(Primitive::Integer)));
        }
        other => panic!("unexpected {:?}", other),
    }
}

#[test]
fn alias_and_array_types() {
    let alias = RawType { id: st("FrameId"), literals: None, properties: None, shape: kind("string") };
    assert!(matches!(convert_type(alias).unwrap().kind, TypeKind::Alias(Primitive::Text)));
    let arr = RawType { id: st("Ids"), literals: None, properties: None, shape: array_of(kind("integer")) };
    assert!(matches!(convert_type(arr).unwrap().kind, TypeKind::ArrayOf(TypeRef::Primitive(Primitive::Integer))));
}

#[test]
fn type_without_discriminant_fails() {
    let t = RawType { id: st("X"), literals: None, properties: None, shape: none_shape() };
    assert!(matches!(convert_type(t), Err(CompileError::SchemaParse { .. })));
}

#[test]
fn document_loads_in_order() {
    let page = raw_domain(
        "Page",
        vec![RawType { id: st("FrameId"), literals: None, properties: None, shape: kind("string") }],
        vec![RawCommand {
            name: st("navigate"),
            parameters: Some(vec![raw_prop("url", None, kind("string"))]),
            returns: None,
            redirect: Some(st("Target")),
        }],
        vec![RawEvent { name: st("loadEventFired"), parameters: None }],
    );
    let doc = load_document(RawDocument { domains: vec![page] }).unwrap();
    let d = &doc.domains[0];
    assert_eq!(d.name, "Page");
    assert_eq!(d.dependencies, vec![st("Runtime")]);
    assert!(d.experimental);
    assert!(!d.deprecated);
    assert_eq!(d.commands[0].name, "navigate");
    assert!(d.commands[0].returns.is_empty());
    assert_eq!(d.commands[0].redirect.as_deref(), Some("Target"));
    assert!(!d.commands[0].parameters[0].optional);
    assert_eq!(d.events[0].name, "loadEventFired");
    assert!(d.events[0].parameters.is_empty());
}

#[test]
fn malformed_document_fails() {
    let bad = raw_domain("A", vec![], vec![], vec![RawEvent { name: st("e"), parameters: Some(vec![raw_prop("p", None, none_shape())]) }]);
    let r = load_documents(vec![RawDocument { domains: vec![] }, RawDocument { domains: vec![bad] }]);
    assert!(matches!(r, Err(CompileError::SchemaParse { .. })));
    assert_eq!(load_documents(vec![RawDocument { domains: vec![] }]).unwrap().len(), 1);
}

#[test]
fn error_kinds_follow_the_descriptor() {
    let nested = array_of(array_of(kind("tuple")));
    assert!(matches!(convert_shape(&nested), Err(CompileError::UnsupportedTypeShape { .. })));
    let nested_missing = array_of(none_shape());
    assert!(matches!(convert_shape(&nested_missing), Err(CompileError::SchemaParse { .. })));
    let t = RawType { id: st("X"), literals: None, properties: None, shape: kind("tuple") };
    assert!(matches!(convert_type(t), Err(CompileError::UnsupportedTypeShape { .. })));
    let bad = raw_domain("A", vec![], vec![RawCommand { name: st("c"), parameters: None, returns: Some(vec![raw_prop("r", None, kind("tuple"))]), redirect: None }], vec![]);
    let r = load_documents(vec![RawDocument { domains: vec![bad] }]);
    assert!(matches!(r, Err(CompileError::UnsupportedTypeShape { .. })));
}

#[test]
fn type_identifiers_are_pascal_case() {
    let spell = |x: &str| -> String { make_type_ident(&st(x)).into_iter().collect() };
    assert_eq!(spell("targetCreated"), "TargetCreated");
    assert_eq!(spell("open-now"), "OpenNow");
    assert_eq!(spell("a_b"), "AB");
    assert_eq!(spell("3d"), "V3d");
    assert_eq!(spell(""), "V");
}
