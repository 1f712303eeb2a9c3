use vstd::prelude::*;

use crate::error::CompileError;
use crate::model::{CommandDef, Domain, EventDef, TypeDef, TypeKind};
use crate::tags::{collect_event_tags, event_tags, occurs_twice};

verus! {

pub open spec fn is_alnum(c: char) -> bool {
    ('a' <= c && c <= 'z') || ('A' <= c && c <= 'Z') || ('0' <= c && c <= '9')
}

pub open spec fn to_upper(c: char) -> char {
    if 'a' <= c && c <= 'z' {
        ((c as u8) - 32) as u8 as char
    } else {
        c
    }
}

/// Words of `s` (runs of ASCII letters and digits) joined, each starting
/// upper case; `up` says whether the next letter starts a word.
pub open spec fn pascal_from(s: Seq<char>, up: bool) -> Seq<char>
    decreases s.len(),
{
    if s.len() == 0 {
        seq![]
    } else if !is_alnum(s[0]) {
        pascal_from(s.drop_first(), true)
    } else if up {
        seq![to_upper(s[0])] + pascal_from(s.drop_first(), false)
    } else {
        seq![s[0]] + pascal_from(s.drop_first(), false)
    }
}

/// The type identifier emitted for the schema name `s`: its words in
/// PascalCase, with a `V` in front when that would be empty or start with a
/// digit.
pub open spec fn type_ident(s: Seq<char>) -> Seq<char> {
    let p = pascal_from(s, true);
    if p.len() == 0 || ('0' <= p[0] && p[0] <= '9') {
        seq!['V'] + p
    } else {
        p
    }
}

proof fn lemma_pascal_step(s: Seq<char>, k: int, up: bool)
    requires
        0 <= k < s.len(),
    ensures
        pascal_from(s.skip(k), up) == if !is_alnum(s[k]) {
            pascal_from(s.skip(k + 1), true)
        } else if up {
            seq![to_upper(s[k])] + pascal_from(s.skip(k + 1), false)
        } else {
            seq![s[k]] + pascal_from(s.skip(k + 1), false)
        },
{
    assert(s.skip(k).drop_first() =~= s.skip(k + 1));
    assert(s.skip(k)[0] == s[k]);
}

/// Builds the type identifier emitted for the schema name `s`.
pub fn make_type_ident(s: &String) -> (r: Vec<char>)
    ensures
        r@ == type_ident(s@),
{
    let t = s.as_str();
    let n = t.unicode_len();
    let mut out: Vec<char> = Vec::new();
    let mut up = true;
    let mut k: usize = 0;
    assert(s@.skip(0) =~= s@);
    assert(out@ + pascal_from(s@, true) =~= pascal_from(s@, true));
    while k < n
        invariant
            n == s@.len(),
            t@ == s@,
            k <= n,
            out@ + pascal_from(s@.skip(k as int), up) == pascal_from(s@, true),
        decreases n - k,
    {
        let c = t.get_char(k);
        proof {
            lemma_pascal_step(s@, k as int, up);
        }
        let alnum = ('a' <= c && c <= 'z') || ('A' <= c && c <= 'Z') || ('0' <= c && c <= '9');
        if !alnum {
            up = true;
        } else if up {
            let u = if 'a' <= c && c <= 'z' {
                ((c as u8) - 32) as u8 as char
            } else {
                c
            };
            out.push(u);
            up = false;
        } else {
            out.push(c);
        }
        proof {
            assert(out@ + pascal_from(s@.skip(k + 1), up) =~= pascal_from(s@, true));
        }
        k = k + 1;
    }
    assert(s@.skip(n as int) =~= seq![]);
    assert(out@ =~= pascal_from(s@, true));
    if out.len() == 0 || ('0' <= out[0] && out[0] <= '9') {
        out.insert(0, 'V');
        assert(out@ =~= type_ident(s@));
    }
    out
}

pub open spec fn char_views(v: Seq<Vec<char>>) -> Seq<Seq<char>> {
    v.map_values(|x: Vec<char>| x@)
}

pub open spec fn distinct_idents(s: Seq<Seq<char>>) -> bool {
    forall|i: int, j: int| 0 <= i < s.len() && 0 <= j < s.len() && i != j ==> s[i] != s[j]
}

/// The identifiers that share the module of domain `d`: its types, then its
/// commands.
pub open spec fn module_idents(d: Domain) -> Seq<Seq<char>> {
    d.types@.map_values(|t: TypeDef| type_ident(t.name@)) + d.commands@.map_values(
        |c: CommandDef| type_ident(c.name@),
    )
}

pub open spec fn enum_idents(literals: Seq<String>) -> Seq<Seq<char>> {
    literals.map_values(|l: String| type_ident(l@))
}

pub open spec fn domain_event_idents(d: Domain) -> Seq<Seq<char>> {
    d.events@.map_values(|e: EventDef| type_ident(d.name@) + type_ident(e.name@))
}

/// The variant identifiers of the global event type, in load order.
pub open spec fn event_idents(ds: Seq<Domain>) -> Seq<Seq<char>>
    decreases ds.len(),
{
    if ds.len() == 0 {
        seq![]
    } else {
        event_idents(ds.drop_last()) + domain_event_idents(ds.last())
    }
}

/// No two emitted identifiers of one namespace are equal.
pub open spec fn idents_distinct(ds: Seq<Domain>) -> bool {
    &&& forall|i: int| 0 <= i < ds.len() ==> distinct_idents(module_idents(#[trigger] ds[i]))
    &&& forall|i: int, t: int|
        0 <= i < ds.len() && 0 <= t < ds[i].types@.len() ==> match (#[trigger] ds[i].types@[t]).kind {
            TypeKind::Enum(ls) => distinct_idents(enum_idents(ls@)),
            _ => true,
        }
    &&& distinct_idents(event_idents(ds))
}

/// Whether two identifiers are equal.
pub fn same_chars(a: &Vec<char>, b: &Vec<char>) -> (r: bool)
    ensures
        r == (a@ == b@),
{
    if a.len() != b.len() {
        return false;
    }
    let mut k: usize = 0;
    while k < a.len()
        invariant
            a@.len() == b@.len(),
            k <= a@.len(),
            forall|j: int| 0 <= j < k ==> a@[j] == b@[j],
        decreases a@.len() - k,
    {
        if a[k] != b[k] {
            return false;
        }
        k = k + 1;
    }
    assert(a@ =~= b@);
    true
}

/// `name` names an entity whose emitted identifier another entity of the
/// same namespace also gets: a type or command of a module, a literal of an
/// enum, or (by its tag) an event.
pub open spec fn ident_collision(ds: Seq<Domain>, name: Seq<char>) -> bool {
    ||| exists|i: int| 0 <= i < ds.len() && occurs_twice(module_idents(#[trigger] ds[i]), type_ident(name))
    ||| exists|i: int, t: int|
        0 <= i < ds.len() && 0 <= t < ds[i].types@.len() && ((#[trigger] ds[i].types@[t]).kind matches TypeKind::Enum(ls)
            && occurs_twice(enum_idents(ls@), type_ident(name)))
    ||| exists|a: int, b: int|
        0 <= a < event_idents(ds).len() && 0 <= b < event_idents(ds).len() && a != b && #[trigger] event_idents(ds)[a]
            == #[trigger] event_idents(ds)[b] && event_tags(ds)[a] == name
}

proof fn lemma_event_lists_align(ds: Seq<Domain>)
    ensures
        event_idents(ds).len() == event_tags(ds).len(),
    decreases ds.len(),
{
    if ds.len() > 0 {
        lemma_event_lists_align(ds.drop_last());
    }
}

/// Finds two positions of `v` holding the same identifier.
pub fn find_duplicate(v: &Vec<Vec<char>>) -> (r: Option<(usize, usize)>)
    ensures
        r is None <==> distinct_idents(char_views(v@)),
        r matches Some((i, j)) ==> i < v@.len() && j < v@.len() && i != j && v@[i as int]@ == v@[j as int]@,
{
    let mut i: usize = 0;
    while i < v.len()
        invariant
            i <= v@.len(),
            forall|a: int, b: int| 0 <= a < i && 0 <= b < v@.len() && a != b ==> v@[a]@ != v@[b]@,
        decreases v@.len() - i,
    {
        let mut j: usize = 0;
        while j < v.len()
            invariant
                i < v@.len(),
                j <= v@.len(),
                forall|b: int| 0 <= b < j && b != i ==> v@[i as int]@ != v@[b]@,
            decreases v@.len() - j,
        {
            if i != j && same_chars(&v[i], &v[j]) {
                assert(char_views(v@)[i as int] == char_views(v@)[j as int]);
                return Some((i, j));
            }
            j = j + 1;
        }
        i = i + 1;
    }
    assert forall|a: int, b: int|
        0 <= a < v@.len() && 0 <= b < v@.len() && a != b implies char_views(v@)[a] != char_views(v@)[b] by {}
    None
}

fn module_ident_list(d: &Domain) -> (r: Vec<Vec<char>>)
    ensures
        char_views(r@) == module_idents(*d),
{
    let ghost types = d.types@.map_values(|t: TypeDef| type_ident(t.name@));
    let ghost commands = d.commands@.map_values(|c: CommandDef| type_ident(c.name@));
    let mut out: Vec<Vec<char>> = Vec::new();
    let mut k: usize = 0;
    while k < d.types.len()
        invariant
            types == d.types@.map_values(|t: TypeDef| type_ident(t.name@)),
            k <= d.types@.len(),
            char_views(out@) == types.take(k as int),
        decreases d.types@.len() - k,
    {
        let ghost before = out@;
        out.push(make_type_ident(&d.types[k].name));
        assert(char_views(out@) =~= char_views(before).push(types[k as int]));
        assert(types.take(k + 1) =~= types.take(k as int).push(types[k as int]));
        k = k + 1;
    }
    let mut k: usize = 0;
    while k < d.commands.len()
        invariant
            types == d.types@.map_values(|t: TypeDef| type_ident(t.name@)),
            commands == d.commands@.map_values(|c: CommandDef| type_ident(c.name@)),
            k <= d.commands@.len(),
            char_views(out@) == types + commands.take(k as int),
        decreases d.commands@.len() - k,
    {
        let ghost before = out@;
        out.push(make_type_ident(&d.commands[k].name));
        assert(char_views(out@) =~= char_views(before).push(commands[k as int]));
        assert(commands.take(k + 1) =~= commands.take(k as int).push(commands[k as int]));
        k = k + 1;
    }
    assert(types.take(types.len() as int) =~= types);
    assert(commands.take(commands.len() as int) =~= commands);
    out
}

fn enum_ident_list(ls: &Vec<String>) -> (r: Vec<Vec<char>>)
    ensures
        char_views(r@) == enum_idents(ls@),
{
    let mut out: Vec<Vec<char>> = Vec::new();
    let mut k: usize = 0;
    while k < ls.len()
        invariant
            k <= ls@.len(),
            char_views(out@) == enum_idents(ls@).take(k as int),
        decreases ls@.len() - k,
    {
        let ghost before = out@;
        let v = make_type_ident(&ls[k]);
        out.push(v);
        assert(char_views(out@) =~= char_views(before).push(v@));
        assert(enum_idents(ls@).take(k + 1) =~= enum_idents(ls@).take(k as int).push(v@));
        k = k + 1;
    }
    assert(enum_idents(ls@).take(k as int) =~= enum_idents(ls@));
    out
}

fn event_ident_list(ds: &Vec<Domain>) -> (r: Vec<Vec<char>>)
    ensures
        char_views(r@) == event_idents(ds@),
{
    let mut out: Vec<Vec<char>> = Vec::new();
    let mut i: usize = 0;
    while i < ds.len()
        invariant
            i <= ds@.len(),
            char_views(out@) == event_idents(ds@.take(i as int)),
        decreases ds@.len() - i,
    {
        let d = &ds[i];
        let mut k: usize = 0;
        while k < d.events.len()
            invariant
                i < ds@.len(),
                *d == ds@[i as int],
                k <= d.events@.len(),
                char_views(out@) == event_idents(ds@.take(i as int)) + domain_event_idents(*d).take(k as int),
            decreases d.events@.len() - k,
        {
            let mut v = make_type_ident(&d.name);
            let mut w = make_type_ident(&d.events[k].name);
            v.append(&mut w);
            let ghost before = out@;
            out.push(v);
            assert(char_views(out@) =~= char_views(before).push(v@));
            assert(domain_event_idents(*d).take(k + 1) =~= domain_event_idents(*d).take(k as int).push(v@));
            k = k + 1;
        }
        assert(ds@.take(i + 1).drop_last() =~= ds@.take(i as int));
        assert(domain_event_idents(*d).take(k as int) =~= domain_event_idents(*d));
        i = i + 1;
    }
    assert(ds@.take(i as int) =~= ds@);
    out
}

/// Checks that no two emitted identifiers of one namespace are equal: the
/// types and commands of a domain's module, the variants of each enum, and
/// the variants of the global event type.
pub fn check_identifiers(ds: &Vec<Domain>) -> (r: Result<(), CompileError>)
    ensures
        r is Ok <==> idents_distinct(ds@),
        r is Err ==> (r->Err_0 matches CompileError::NameCollision { name } && ident_collision(ds@, name@)),
{
    let mut i: usize = 0;
    while i < ds.len()
        invariant
            i <= ds@.len(),
            forall|a: int| 0 <= a < i ==> distinct_idents(module_idents(#[trigger] ds@[a])),
            forall|a: int, t: int|
                0 <= a < i && 0 <= t < ds@[a].types@.len() ==> match (#[trigger] ds@[a].types@[t]).kind {
                    TypeKind::Enum(ls) => distinct_idents(enum_idents(ls@)),
                    _ => true,
                },
        decreases ds@.len() - i,
    {
        let d = &ds[i];
        let m = module_ident_list(d);
        if let Some((a, b)) = find_duplicate(&m) {
            let name = if a < d.types.len() {
                d.types[a].name.clone()
            } else {
                d.commands[a - d.types.len()].name.clone()
            };
            proof {
                assert(char_views(m@)[a as int] == module_idents(*d)[a as int]);
                assert(char_views(m@)[b as int] == module_idents(*d)[b as int]);
                assert(module_idents(*d)[a as int] == type_ident(name@));
                assert(occurs_twice(module_idents(ds@[i as int]), type_ident(name@)));
            }
            return Err(CompileError::NameCollision { name });
        }
        let mut t: usize = 0;
        while t < d.types.len()
            invariant
                i < ds@.len(),
                *d == ds@[i as int],
                t <= d.types@.len(),
                forall|u: int| 0 <= u < t ==> match (#[trigger] d.types@[u]).kind {
                    TypeKind::Enum(ls) => distinct_idents(enum_idents(ls@)),
                    _ => true,
                },
            decreases d.types@.len() - t,
        {
            if let TypeKind::Enum(ls) = &d.types[t].kind {
                let e = enum_ident_list(ls);
                if let Some((a, b)) = find_duplicate(&e) {
                    let name = ls[a].clone();
                    proof {
                        assert(ds@[i as int].types@[t as int] == d.types@[t as int]);
                        assert(char_views(e@)[a as int] == enum_idents(ls@)[a as int]);
                        assert(char_views(e@)[b as int] == enum_idents(ls@)[b as int]);
                        assert(occurs_twice(enum_idents(ls@), type_ident(name@)));
                        assert(!idents_distinct(ds@));
                    }
                    return Err(CompileError::NameCollision { name });
                }
            }
            t = t + 1;
        }
        i = i + 1;
    }
    let ev = event_ident_list(ds);
    if let Some((a, b)) = find_duplicate(&ev) {
        let tags = collect_event_tags(ds);
        proof {
            lemma_event_lists_align(ds@);
            assert(char_views(ev@)[a as int] == event_idents(ds@)[a as int]);
            assert(char_views(ev@)[b as int] == event_idents(ds@)[b as int]);
            assert(tags@.len() == event_tags(ds@).len());
        }
        let name = tags[a].clone();
        proof {
            assert(crate::tags::views(tags@)[a as int] == name@);
            assert(ident_collision(ds@, name@));
        }
        return Err(CompileError::NameCollision { name });
    }
    Ok(())
}

} // verus!
