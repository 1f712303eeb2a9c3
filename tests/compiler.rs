use cdp_codegen::compile::{compile, flatten_documents, make_header, should_generate};
use cdp_codegen::error::CompileError;
use cdp_codegen::model::{
    CommandDef, Domain, EventDef, Primitive, Property, ProtocolDocument, TypeDef, TypeKind, TypeRef,
};
use cdp_codegen::resolve::resolve_name;
use cdp_codegen::symbols::check_symbols;
use cdp_codegen::tags::make_tag;
use cdp_codegen::{init, init_with_commit, CDP_COMMIT};

fn s(x: &str) -> String {
    x.to_string()
}

fn named(name: &str) -> TypeRef {
    TypeRef::Ref { domain: None, name: s(name) }
}

fn qualified(domain: &str, name: &str) -> TypeRef {
    TypeRef::Ref { domain: Some(s(domain)), name: s(name) }
}

fn prop(name: &str, type_ref: TypeRef, optional: bool) -> Property {
    Property { name: s(name), type_ref, optional }
}

fn domain(name: &str, types: Vec<TypeDef>, commands: Vec<CommandDef>, events: Vec<EventDef>) -> Domain {
    Domain {
        name: s(name),
        dependencies: Vec::new(),
        experimental: false,
        deprecated: false,
        types,
        commands,
        events,
    }
}

fn object(name: &str, props: Vec<Property>) -> TypeDef {
    TypeDef { name: s(name), kind: TypeKind::Object(props) }
}

fn event(name: &str, parameters: Vec<Property>) -> EventDef {
    EventDef { name: s(name), parameters }
}

fn command(name: &str, parameters: Vec<Property>, returns: Vec<Property>) -> CommandDef {
    CommandDef { name: s(name), parameters, returns, redirect: None }
}

fn target_domain() -> Domain {
    domain(
        "Target",
        vec![object("TargetInfo", vec![prop("targetId", TypeRef::Primitive(Primitive::Text), false)])],
        vec![],
        vec![event("targetCreated", vec![prop("targetInfo", named("TargetInfo"), false)])],
    )
}

fn browser_domain() -> Domain {
    domain(
        "Browser",
        vec![TypeDef { name: s("WindowID"), kind: TypeKind::Alias(Primitive::Integer) }],
        vec![command("close", vec![], vec![])],
        vec![],
    )
}

fn page_domain() -> Domain {
    domain(
        "Page",
        vec![],
        vec![command("navigate", vec![prop("url", TypeRef::Primitive(Primitive::Text), false)], vec![])],
        vec![],
    )
}

fn doc(domains: Vec<Domain>) -> ProtocolDocument {
    ProtocolDocument { domains }
}

fn tags(v: &[String]) -> Vec<&str> {
    v.iter().map(|t| t.as_str()).collect()
}

#[test]
fn test() {
    let r = init(0, vec![doc(vec![target_domain()]), doc(vec![browser_domain()])]);
    let m = r.unwrap().unwrap();
    assert!(m.header.ends_with(CDP_COMMIT));
    assert_eq!(m.domains.len(), 2);
}

#[test]
fn header_names_revision() {
    assert_eq!(
        make_header("abc"),
        "// Auto-generated from ChromeDevTools/devtools-protocol at commit abc"
    );
    let m = init_with_commit("abc", 0, vec![doc(vec![page_domain()])]).unwrap().unwrap();
    assert_eq!(m.header, "// Auto-generated from ChromeDevTools/devtools-protocol at commit abc");
}

#[test]
fn tag_joins_domain_and_name() {
    assert_eq!(make_tag(&s("Page"), &s("navigate")), "Page.navigate");
}

#[test]
fn undefined_reference_fails() {
    let d = domain("A", vec![object("T", vec![prop("x", named("Missing"), false)])], vec![], vec![]);
    match compile(vec![d], "c") {
        Err(CompileError::UnresolvedNotFound { domain, name }) => {
            assert_eq!(domain, "A");
            assert_eq!(name, "Missing");
        }
        other => panic!("unexpected {:?}", other),
    }
}

#[test]
fn qualified_missing_type_names_qualifier() {
    let d = domain("A", vec![], vec![], vec![event("e", vec![prop("x", qualified("Target", "Nope"), false)])]);
    match compile(vec![target_domain(), d], "c") {
        Err(CompileError::UnresolvedNotFound { domain, name }) => {
            assert_eq!(domain, "Target");
            assert_eq!(name, "Nope");
        }
        other => panic!("unexpected {:?}", other),
    }
}

#[test]
fn colliding_domain_is_named() {
    match compile(vec![page_domain(), target_domain(), page_domain()], "c") {
        Err(CompileError::NameCollision { name }) => assert_eq!(name, "Page"),
        other => panic!("unexpected {:?}", other),
    }
    let d = domain("A", vec![object("T", vec![]), object("U", vec![]), object("T", vec![])], vec![], vec![]);
    match compile(vec![d], "c") {
        Err(CompileError::NameCollision { name }) => assert_eq!(name, "T"),
        other => panic!("unexpected {:?}", other),
    }
}

#[test]
fn self_referential_field_is_boxed_in_model() {
    let node = object(
        "Node",
        vec![
            prop("nodeId", TypeRef::Primitive(Primitive::Integer), false),
            prop("children", TypeRef::ArrayOf(Box::new(named("Node"))), true),
        ],
    );
    let leaf = object("Leaf", vec![prop("node", named("Node"), false)]);
    let m = compile(vec![domain("DOM", vec![node, leaf], vec![], vec![])], "c").unwrap();
    assert_eq!(m.boxed, vec![vec![vec![false, true], vec![false]]]);
}

#[test]
fn qualified_reference_to_missing_domain_fails() {
    let d = domain("A", vec![object("T", vec![prop("x", qualified("Nope", "T"), false)])], vec![], vec![]);
    assert!(matches!(compile(vec![d], "c"), Err(CompileError::UnresolvedNotFound { .. })));
}

#[test]
fn qualified_reference_resolves_across_domains() {
    let user = domain(
        "Browser",
        vec![],
        vec![command("getTargets", vec![], vec![prop("infos", TypeRef::ArrayOf(Box::new(qualified("Target", "TargetInfo"))), false)])],
        vec![],
    );
    let ds = vec![user, target_domain()];
    assert_eq!(resolve_name(&ds, 0, &Some(s("Target")), &s("TargetInfo")).unwrap(), 1);
    assert!(compile(ds, "c").is_ok());
}

#[test]
fn unqualified_reference_prefers_own_domain() {
    let a = domain("A", vec![object("T", vec![])], vec![], vec![]);
    let b = domain("B", vec![object("T", vec![])], vec![], vec![]);
    let c = domain("C", vec![object("T", vec![])], vec![], vec![]);
    let ds = vec![a, b, c];
    assert_eq!(resolve_name(&ds, 1, &None, &s("T")).unwrap(), 1);
}

#[test]
fn unqualified_reference_found_elsewhere() {
    let a = domain("A", vec![object("U", vec![prop("t", named("T"), true)])], vec![], vec![]);
    let b = domain("B", vec![object("T", vec![])], vec![], vec![]);
    let ds = vec![a, b];
    assert_eq!(resolve_name(&ds, 0, &None, &s("T")).unwrap(), 1);
    assert!(compile(ds, "c").is_ok());
}

#[test]
fn ambiguous_reference_fails() {
    let a = domain("A", vec![object("U", vec![prop("t", named("T"), false)])], vec![], vec![]);
    let b = domain("B", vec![object("T", vec![])], vec![], vec![]);
    let c = domain("C", vec![object("T", vec![])], vec![], vec![]);
    match compile(vec![a, b, c], "c") {
        Err(CompileError::UnresolvedAmbiguous { domain, name }) => {
            assert_eq!(domain, "A");
            assert_eq!(name, "T");
        }
        other => panic!("unexpected {:?}", other),
    }
}

#[test]
fn duplicate_domain_collides() {
    let r = compile(vec![page_domain(), page_domain()], "c");
    assert!(matches!(r, Err(CompileError::NameCollision { .. })));
}

#[test]
fn duplicate_type_collides() {
    let d = domain("A", vec![object("T", vec![]), object("T", vec![])], vec![], vec![]);
    assert!(check_symbols(&vec![d]).is_err());
}

#[test]
fn duplicate_event_in_domain_collides() {
    let d = domain("A", vec![], vec![], vec![event("e", vec![]), event("e", vec![])]);
    assert!(matches!(compile(vec![d], "c"), Err(CompileError::NameCollision { .. })));
}

#[test]
fn flattened_event_tags_collide_across_domains() {
    let a = domain("A.b", vec![], vec![], vec![event("c", vec![])]);
    let b = domain("A", vec![], vec![], vec![event("b.c", vec![])]);
    match compile(vec![a, b], "c") {
        Err(CompileError::NameCollision { name }) => assert_eq!(name, "A.b.c"),
        other => panic!("unexpected {:?}", other),
    }
}

#[test]
fn flattened_command_tags_collide_across_domains() {
    let a = domain("A.b", vec![], vec![command("c", vec![], vec![])], vec![]);
    let b = domain("A", vec![], vec![command("b.c", vec![], vec![])], vec![]);
    match compile(vec![a, b], "c") {
        Err(CompileError::NameCollision { name }) => assert_eq!(name, "A.b.c"),
        other => panic!("unexpected {:?}", other),
    }
}

#[test]
fn compiling_twice_gives_same_model() {
    let m1 = compile(vec![target_domain(), browser_domain()], "c").unwrap();
    let m2 = compile(vec![target_domain(), browser_domain()], "c").unwrap();
    assert_eq!(m1.header, m2.header);
    assert_eq!(m1.event_tags, m2.event_tags);
    assert_eq!(m1.command_tags, m2.command_tags);
    assert_eq!(format!("{:?}", m1.domains), format!("{:?}", m2.domains));
}

#[test]
fn populated_output_is_reused() {
    assert!(should_generate(0));
    assert!(!should_generate(1));
    let broken = domain("A", vec![object("T", vec![prop("x", named("Missing"), false)])], vec![], vec![]);
    assert!(matches!(init(10, vec![doc(vec![broken])]), Ok(None)));
    assert!(matches!(init_with_commit("x", 3, vec![doc(vec![page_domain()])]), Ok(None)));
}

#[test]
fn empty_output_is_generated() {
    let r = init(0, vec![]).unwrap().unwrap();
    assert!(r.domains.is_empty());
    assert!(r.event_tags.is_empty());
}

#[test]
fn navigate_command_tag() {
    let m = compile(vec![page_domain()], "c").unwrap();
    assert_eq!(tags(&m.command_tags), vec!["Page.navigate"]);
    assert!(m.domains[0].commands[0].returns.is_empty());
}

#[test]
fn event_type_holds_target_created() {
    let m = init(0, vec![doc(vec![target_domain(), browser_domain()])]).unwrap().unwrap();
    assert_eq!(tags(&m.event_tags), vec!["Target.targetCreated"]);
    let m = init(0, vec![doc(vec![browser_domain()]), doc(vec![page_domain(), target_domain()])]).unwrap().unwrap();
    assert_eq!(tags(&m.event_tags), vec!["Target.targetCreated"]);
    assert_eq!(tags(&m.command_tags), vec!["Browser.close", "Page.navigate"]);
}

#[test]
fn self_referential_type_compiles() {
    let node = object(
        "Node",
        vec![
            prop("nodeId", TypeRef::Primitive(Primitive::Integer), false),
            prop("children", TypeRef::ArrayOf(Box::new(named("Node"))), true),
        ],
    );
    let d = domain("DOM", vec![node], vec![], vec![]);
    assert!(compile(vec![d], "c").is_ok());
}

#[test]
fn documents_flatten_in_load_order() {
    let ds = flatten_documents(vec![doc(vec![target_domain(), browser_domain()]), doc(vec![]), doc(vec![page_domain()])]);
    let names: Vec<&str> = ds.iter().map(|d| d.name.as_str()).collect();
    assert_eq!(names, vec!["Target", "Browser", "Page"]);
}

#[test]
fn colliding_type_identifiers_fail() {
    let d = domain("A", vec![object("foo", vec![]), object("Foo", vec![])], vec![], vec![]);
    match compile(vec![d], "c") {
        Err(CompileError::NameCollision { name }) => assert_eq!(name, "foo"),
        other => panic!("unexpected {:?}", other),
    }
}

#[test]
fn colliding_event_variants_fail() {
    let a = domain("a_b", vec![], vec![], vec![event("c", vec![])]);
    let b = domain("A", vec![], vec![], vec![event("BC", vec![])]);
    match compile(vec![a, b], "c") {
        Err(CompileError::NameCollision { name }) => assert_eq!(name, "a_b.c"),
        other => panic!("unexpected {:?}", other),
    }
}

#[test]
fn colliding_enum_literals_fail() {
    let t = TypeDef { name: s("State"), kind: TypeKind::Enum(vec![s("open-now"), s("OpenNow")]) };
    let d = domain("A", vec![t], vec![], vec![]);
    match compile(vec![d], "c") {
        Err(CompileError::NameCollision { name }) => assert_eq!(name, "open-now"),
        other => panic!("unexpected {:?}", other),
    }
}

#[test]
fn type_and_command_share_a_module() {
    let d = domain("A", vec![object("navigate", vec![])], vec![command("Navigate", vec![], vec![])], vec![]);
    assert!(matches!(compile(vec![d], "c"), Err(CompileError::NameCollision { .. })));
}
