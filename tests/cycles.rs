use cdp_codegen::cycles::{needs_indirection, reaches};
use cdp_codegen::model::{Domain, Primitive, Property, TypeDef, TypeKind, TypeRef};

fn named(name: &str) -> TypeRef {
    TypeRef::Ref { domain: None, name: name.to_string() }
}

fn prop(name: &str, type_ref: TypeRef) -> Property {
    Property { name: name.to_string(), type_ref, optional: false }
}

fn object(name: &str, props: Vec<Property>) -> TypeDef {
    TypeDef { name: name.to_string(), kind: TypeKind::Object(props) }
}

fn domain(name: &str, types: Vec<TypeDef>) -> Domain {
    Domain {
        name: name.to_string(),
        dependencies: vec![],
        experimental: false,
        deprecated: false,
        types,
        commands: vec![],
        events: vec![],
    }
}

#[test]
fn self_reference_needs_indirection() {
    let node = object(
        "Node",
        vec![
            prop("nodeId", TypeRef::Primitive(Primitive::Integer)),
            prop("children", TypeRef::ArrayOf(Box::new(named("Node")))),
        ],
    );
    let ds = vec![domain("DOM", vec![node])];
    assert!(needs_indirection(&ds, (0, 0), &TypeRef::ArrayOf(Box::new(named("Node")))));
    assert!(!needs_indirection(&ds, (0, 0), &TypeRef::Primitive(Primitive::Integer)));
}

#[test]
fn mutual_recursion_across_domains() {
    let a = object("A", vec![prop("b", TypeRef::Ref { domain: Some("Two".to_string()), name: "B".to_string() })]);
    let c = object("C", vec![prop("a", named("A"))]);
    let b = object("B", vec![prop("a", TypeRef::Ref { domain: Some("One".to_string()), name: "A".to_string() })]);
    let ds = vec![domain("One", vec![a, c]), domain("Two", vec![b])];
    assert!(reaches(&ds, (0, 0), (1, 0)));
    assert!(reaches(&ds, (1, 0), (0, 0)));
    assert!(reaches(&ds, (0, 1), (1, 0)));
    assert!(!reaches(&ds, (0, 0), (0, 1)));
    // A -> B lies on the cycle A -> B -> A.
    assert!(needs_indirection(&ds, (0, 0), &TypeRef::Ref { domain: Some("Two".to_string()), name: "B".to_string() }));
    // C -> A does not: nothing leads back to C.
    assert!(!needs_indirection(&ds, (0, 1), &named("A")));
}

#[test]
fn unresolved_reference_needs_no_indirection() {
    let ds = vec![domain("One", vec![object("A", vec![])])];
    assert!(!needs_indirection(&ds, (0, 0), &named("Missing")));
}
