use vstd::prelude::*;

use crate::model::{Domain, Property, TypeDef, TypeKind, TypeRef};
use crate::resolve::{resolve_name, target_of};
use crate::symbols::{domain_names_unique, symbols_unique, type_names_unique};

verus! {

/// A type of the schema: `(domain index, type index)`.
pub open spec fn is_node(ds: Seq<Domain>, p: (int, int)) -> bool {
    0 <= p.0 < ds.len() && 0 <= p.1 < ds[p.0].types@.len()
}

pub open spec fn as_node(p: (usize, usize)) -> (int, int) {
    (p.0 as int, p.1 as int)
}

/// The named reference inside `r`, written in domain `owner`, leads to type `q`.
pub open spec fn ref_leads(ds: Seq<Domain>, owner: int, r: TypeRef, q: (int, int)) -> bool
    decreases r,
{
    match r {
        TypeRef::Primitive(_) => false,
        TypeRef::Ref { domain, name } => {
            &&& target_of(ds, owner, domain, name@, q.0)
            &&& is_node(ds, q)
            &&& ds[q.0].types@[q.1].name@ == name@
        },
        TypeRef::ArrayOf(inner) => ref_leads(ds, owner, *inner, q),
    }
}

/// Type `p` refers to type `q` through an array element or an object field.
pub open spec fn edge(ds: Seq<Domain>, p: (int, int), q: (int, int)) -> bool {
    &&& is_node(ds, p)
    &&& match ds[p.0].types@[p.1].kind {
        TypeKind::ArrayOf(r) => ref_leads(ds, p.0, r, q),
        TypeKind::Object(ps) => exists|k: int|
            0 <= k < ps@.len() && #[trigger] ref_leads(ds, p.0, ps@[k].type_ref, q),
        _ => false,
    }
}

/// `path` is a walk along edges.
pub open spec fn is_path(ds: Seq<Domain>, path: Seq<(int, int)>) -> bool {
    &&& path.len() >= 1
    &&& forall|i: int| 0 <= i < path.len() - 1 ==> edge(ds, #[trigger] path[i], path[i + 1])
}

/// Some walk leads from `a` to `b` (the empty walk leads from `a` to itself).
pub open spec fn reachable(ds: Seq<Domain>, a: (int, int), b: (int, int)) -> bool {
    exists|path: Seq<(int, int)>| #[trigger] is_path(ds, path) && path[0] == a && path.last() == b
}

proof fn lemma_target_unique(
    ds: Seq<Domain>,
    owner: int,
    domain: Option<String>,
    name: Seq<char>,
    i1: int,
    i2: int,
)
    requires
        domain_names_unique(ds),
        target_of(ds, owner, domain, name, i1),
        target_of(ds, owner, domain, name, i2),
    ensures
        i1 == i2,
{
    if domain is None && i1 != i2 {
        assert(ds[i1] == ds[i1]);
        assert(ds[i2] == ds[i2]);
    }
}

/// Returns the index of the type called `name` in `d`, if any.
pub fn find_type(d: &Domain, name: &String) -> (r: Option<usize>)
    ensures
        match r {
            Some(j) => j < d.types@.len() && d.types@[j as int].name@ == name@,
            None => forall|j: int| 0 <= j < d.types@.len() ==> (#[trigger] d.types@[j]).name@ != name@,
        },
{
    let mut k: usize = 0;
    while k < d.types.len()
        invariant
            k <= d.types@.len(),
            forall|j: int| 0 <= j < k ==> (#[trigger] d.types@[j]).name@ != name@,
        decreases d.types@.len() - k,
    {
        if d.types[k].name == *name {
            return Some(k);
        }
        k = k + 1;
    }
    None
}

/// The type that the named reference inside `r` leads to, if it resolves.
pub fn lead_of(ds: &Vec<Domain>, owner: usize, r: &TypeRef) -> (res: Option<(usize, usize)>)
    requires
        symbols_unique(ds@),
        owner < ds@.len(),
    ensures
        match res {
            Some(q) => forall|x: (int, int)| ref_leads(ds@, owner as int, *r, x) <==> x == as_node(q),
            None => forall|x: (int, int)| !ref_leads(ds@, owner as int, *r, x),
        },
    decreases r,
{
    match r {
        TypeRef::Primitive(_) => None,
        TypeRef::Ref { domain, name } => match resolve_name(ds, owner, domain, name) {
            Err(_) => None,
            Ok(i) => match find_type(&ds[i], name) {
                Some(j) => {
                    proof {
                        assert forall|x: (int, int)| ref_leads(ds@, owner as int, *r, x) implies x
                            == as_node((i, j)) by {
                            lemma_target_unique(ds@, owner as int, *domain, name@, x.0, i as int);
                            assert(type_names_unique(ds@[i as int].types@));
                        }
                        assert(ref_leads(ds@, owner as int, *r, as_node((i, j))));
                    }
                    Some((i, j))
                },
                None => {
                    proof {
                        assert forall|x: (int, int)| !ref_leads(ds@, owner as int, *r, x) by {
                            if ref_leads(ds@, owner as int, *r, x) {
                                lemma_target_unique(ds@, owner as int, *domain, name@, x.0, i as int);
                                assert(ds@[i as int].types@[x.1].name@ == name@);
                            }
                        }
                    }
                    None
                },
            },
        },
        TypeRef::ArrayOf(inner) => {
            let res = lead_of(ds, owner, &**inner);
            assert(forall|x: (int, int)|
                ref_leads(ds@, owner as int, *r, x) == ref_leads(ds@, owner as int, **inner, x));
            res
        },
    }
}

/// `nodes` lists every type of the schema, and nothing else.
pub open spec fn lists_all_nodes(ds: Seq<Domain>, nodes: Seq<(usize, usize)>) -> bool {
    &&& forall|k: int| 0 <= k < nodes.len() ==> is_node(ds, as_node(#[trigger] nodes[k]))
    &&& forall|a: int, b: int|
        0 <= a < nodes.len() && 0 <= b < nodes.len() && a != b ==> #[trigger] nodes[a] != #[trigger] nodes[b]
    &&& forall|p: (int, int)|
        is_node(ds, p) ==> exists|k: int| 0 <= k < nodes.len() && as_node(#[trigger] nodes[k]) == p
}

pub open spec fn count_true(v: Seq<bool>) -> nat
    decreases v.len(),
{
    if v.len() == 0 {
        0
    } else {
        count_true(v.drop_last()) + if v.last() {
            1nat
        } else {
            0nat
        }
    }
}

pub open spec fn visited_node(nodes: Seq<(usize, usize)>, visited: Seq<bool>, q: (int, int)) -> bool {
    exists|k: int| 0 <= k < nodes.len() && as_node(nodes[k]) == q && #[trigger] visited[k]
}

pub open spec fn closed_at(ds: Seq<Domain>, nodes: Seq<(usize, usize)>, visited: Seq<bool>, k: int) -> bool {
    forall|q: (int, int)| #[trigger] edge(ds, as_node(nodes[k]), q) ==> visited_node(nodes, visited, q)
}

pub open spec fn in_stack(stack: Seq<usize>, k: int) -> bool {
    exists|m: int| 0 <= m < stack.len() && stack[m] as int == k
}

/// The state of the search from `from`; `current` is the node whose
/// successors are being visited, or -1.
pub open spec fn search_state(
    ds: Seq<Domain>,
    nodes: Seq<(usize, usize)>,
    visited: Seq<bool>,
    stack: Seq<usize>,
    from: (int, int),
    current: int,
) -> bool {
    &&& lists_all_nodes(ds, nodes)
    &&& visited.len() == nodes.len()
    &&& visited_node(nodes, visited, from)
    &&& forall|k: int|
        0 <= k < nodes.len() && #[trigger] visited[k] ==> reachable(ds, from, as_node(nodes[k]))
    &&& forall|m: int|
        0 <= m < stack.len() ==> (#[trigger] stack[m]) < nodes.len() && visited[stack[m] as int]
    &&& forall|k: int|
        0 <= k < nodes.len() && #[trigger] visited[k] && k != current && !in_stack(stack, k)
            ==> closed_at(ds, nodes, visited, k)
}

proof fn lemma_count_set(v: Seq<bool>, k: int)
    requires
        0 <= k < v.len(),
        !v[k],
    ensures
        count_true(v.update(k, true)) == count_true(v) + 1,
    decreases v.len(),
{
    let w = v.update(k, true);
    if k == v.len() - 1 {
        assert(w.drop_last() =~= v.drop_last());
    } else {
        assert(w.drop_last() =~= v.drop_last().update(k, true));
        lemma_count_set(v.drop_last(), k);
    }
}

proof fn lemma_count_bound(v: Seq<bool>)
    ensures
        count_true(v) <= v.len(),
    decreases v.len(),
{
    if v.len() > 0 {
        lemma_count_bound(v.drop_last());
    }
}

proof fn lemma_reach_step(ds: Seq<Domain>, a: (int, int), c: (int, int), b: (int, int))
    requires
        reachable(ds, a, c),
        edge(ds, c, b),
    ensures
        reachable(ds, a, b),
{
    let path = choose|path: Seq<(int, int)>| #[trigger] is_path(ds, path) && path[0] == a && path.last() == c;
    let longer = path.push(b);
    assert forall|i: int| 0 <= i < longer.len() - 1 implies edge(ds, #[trigger] longer[i], longer[i + 1]) by {
        if i < path.len() - 1 {
            assert(longer[i] == path[i] && longer[i + 1] == path[i + 1]);
        }
    }
    assert(is_path(ds, longer));
}

proof fn lemma_closed_complete(
    ds: Seq<Domain>,
    nodes: Seq<(usize, usize)>,
    visited: Seq<bool>,
    path: Seq<(int, int)>,
    i: int,
)
    requires
        visited.len() == nodes.len(),
        is_path(ds, path),
        visited_node(nodes, visited, path[0]),
        forall|k: int| 0 <= k < nodes.len() && #[trigger] visited[k] ==> closed_at(ds, nodes, visited, k),
        0 <= i < path.len(),
    ensures
        visited_node(nodes, visited, path[i]),
    decreases i,
{
    if i > 0 {
        lemma_closed_complete(ds, nodes, visited, path, i - 1);
        let k = choose|k: int| 0 <= k < nodes.len() && as_node(nodes[k]) == path[i - 1] && #[trigger] visited[k];
        assert(closed_at(ds, nodes, visited, k));
        assert(edge(ds, path[i - 1], path[i - 1 + 1]));
        assert(edge(ds, as_node(nodes[k]), path[i]));
    }
}

/// Lists every type of the schema as `(domain index, type index)`.
pub fn all_nodes(ds: &Vec<Domain>) -> (r: Vec<(usize, usize)>)
    ensures
        lists_all_nodes(ds@, r@),
{
    let mut out: Vec<(usize, usize)> = Vec::new();
    let mut i: usize = 0;
    while i < ds.len()
        invariant
            i <= ds@.len(),
            forall|k: int| 0 <= k < out@.len() ==> is_node(ds@, as_node(#[trigger] out@[k])),
            forall|k: int| 0 <= k < out@.len() ==> (#[trigger] out@[k]).0 < i,
            forall|a: int, b: int|
                0 <= a < out@.len() && 0 <= b < out@.len() && a != b ==> #[trigger] out@[a] != #[trigger] out@[b],
            forall|p: (int, int)|
                is_node(ds@, p) && p.0 < i ==> exists|k: int|
                    0 <= k < out@.len() && as_node(#[trigger] out@[k]) == p,
        decreases ds@.len() - i,
    {
        let mut j: usize = 0;
        while j < ds[i].types.len()
            invariant
                i < ds@.len(),
                j <= ds@[i as int].types@.len(),
                forall|k: int| 0 <= k < out@.len() ==> is_node(ds@, as_node(#[trigger] out@[k])),
                forall|k: int|
                    0 <= k < out@.len() ==> (#[trigger] out@[k]).0 < i || (out@[k].0 == i && out@[k].1 < j),
                forall|a: int, b: int|
                    0 <= a < out@.len() && 0 <= b < out@.len() && a != b ==> #[trigger] out@[a] != #[trigger] out@[b],
                forall|p: (int, int)|
                    is_node(ds@, p) && (p.0 < i || (p.0 == i && p.1 < j)) ==> exists|k: int|
                        0 <= k < out@.len() && as_node(#[trigger] out@[k]) == p,
            decreases ds@[i as int].types@.len() - j,
        {
            let ghost before = out@;
            out.push((i, j));
            assert forall|p: (int, int)|
                is_node(ds@, p) && (p.0 < i || (p.0 == i && p.1 < j + 1)) implies exists|k: int|
                    0 <= k < out@.len() && as_node(#[trigger] out@[k]) == p by {
                if p == as_node((i, j)) {
                    assert(as_node(out@[before.len() as int]) == p);
                } else {
                    let k = choose|k: int| 0 <= k < before.len() && as_node(#[trigger] before[k]) == p;
                    assert(as_node(out@[k]) == p);
                }
            }
            j = j + 1;
        }
        i = i + 1;
    }
    out
}

/// Returns the position of `q` in `nodes`, if any.
pub fn find_node(nodes: &Vec<(usize, usize)>, q: (usize, usize)) -> (r: Option<usize>)
    ensures
        match r {
            Some(k) => k < nodes@.len() && nodes@[k as int] == q,
            None => forall|k: int| 0 <= k < nodes@.len() ==> as_node(#[trigger] nodes@[k]) != as_node(q),
        },
{
    let mut k: usize = 0;
    while k < nodes.len()
        invariant
            k <= nodes@.len(),
            forall|m: int| 0 <= m < k ==> as_node(#[trigger] nodes@[m]) != as_node(q),
        decreases nodes@.len() - k,
    {
        if nodes[k].0 == q.0 && nodes[k].1 == q.1 {
            return Some(k);
        }
        k = k + 1;
    }
    None
}

/// Marks node `q` visited; returns its position when it was not yet.
fn mark(nodes: &Vec<(usize, usize)>, visited: &mut Vec<bool>, q: (usize, usize)) -> (res: Option<usize>)
    requires
        old(visited)@.len() == nodes@.len(),
        exists|k: int| 0 <= k < nodes@.len() && as_node(#[trigger] nodes@[k]) == as_node(q),
    ensures
        final(visited)@.len() == nodes@.len(),
        visited_node(nodes@, final(visited)@, as_node(q)),
        match res {
            None => final(visited)@ == old(visited)@,
            Some(k) => k < nodes@.len() && nodes@[k as int] == q && !old(visited)@[k as int]
                && final(visited)@ == old(visited)@.update(k as int, true),
        },
{
    match find_node(nodes, q) {
        None => {
            proof {
                let k = choose|k: int| 0 <= k < nodes@.len() && as_node(#[trigger] nodes@[k]) == as_node(q);
                assert(as_node(nodes@[k]) != as_node(q));
            }
            None
        },
        Some(k) => {
            if visited[k] {
                assert(visited_node(nodes@, visited@, as_node(nodes@[k as int])));
                None
            } else {
                visited.set(k, true);
                assert(visited@[k as int]);
                Some(k)
            }
        },
    }
}

proof fn lemma_count_mono(v1: Seq<bool>, v2: Seq<bool>)
    requires
        v1.len() == v2.len(),
        forall|k: int| 0 <= k < v1.len() && v1[k] ==> v2[k],
    ensures
        count_true(v1) <= count_true(v2),
    decreases v1.len(),
{
    if v1.len() > 0 {
        lemma_count_mono(v1.drop_last(), v2.drop_last());
    }
}

proof fn lemma_leads_to_node(ds: Seq<Domain>, owner: int, r: TypeRef, q: (int, int))
    requires
        ref_leads(ds, owner, r, q),
    ensures
        is_node(ds, q),
    decreases r,
{
    if let TypeRef::ArrayOf(inner) = r {
        lemma_leads_to_node(ds, owner, *inner, q);
    }
}

proof fn lemma_count_none(v: Seq<bool>)
    requires
        forall|k: int| 0 <= k < v.len() ==> !v[k],
    ensures
        count_true(v) == 0,
    decreases v.len(),
{
    if v.len() > 0 {
        lemma_count_none(v.drop_last());
    }
}

proof fn lemma_visited_grow(ds: Seq<Domain>, nodes: Seq<(usize, usize)>, v1: Seq<bool>, v2: Seq<bool>)
    requires
        v1.len() == nodes.len(),
        v2.len() == nodes.len(),
        forall|k: int| 0 <= k < v1.len() && v1[k] ==> v2[k],
    ensures
        forall|q: (int, int)| visited_node(nodes, v1, q) ==> visited_node(nodes, v2, q),
        forall|k: int| 0 <= k < nodes.len() && closed_at(ds, nodes, v1, k) ==> closed_at(ds, nodes, v2, k),
{
    assert forall|q: (int, int)| visited_node(nodes, v1, q) implies visited_node(nodes, v2, q) by {
        let k = choose|k: int| 0 <= k < nodes.len() && as_node(nodes[k]) == q && #[trigger] v1[k];
        assert(v2[k]);
    }
}

/// Visits the type that `r`, a reference held by node `p`, leads to.
fn visit_ref(
    ds: &Vec<Domain>,
    nodes: &Vec<(usize, usize)>,
    visited: &mut Vec<bool>,
    stack: &mut Vec<usize>,
    from: Ghost<(int, int)>,
    p: usize,
    r: &TypeRef,
)
    requires
        symbols_unique(ds@),
        p < nodes@.len(),
        old(visited)@.len() == nodes@.len(),
        old(visited)@[p as int],
        search_state(ds@, nodes@, old(visited)@, old(stack)@, from@, p as int),
        forall|q: (int, int)|
            ref_leads(ds@, nodes@[p as int].0 as int, *r, q) ==> edge(ds@, as_node(nodes@[p as int]), q),
    ensures
        search_state(ds@, nodes@, final(visited)@, final(stack)@, from@, p as int),
        final(visited)@.len() == nodes@.len(),
        forall|k: int| 0 <= k < nodes@.len() && old(visited)@[k] ==> final(visited)@[k],
        forall|q: (int, int)|
            ref_leads(ds@, nodes@[p as int].0 as int, *r, q) ==> visited_node(nodes@, final(visited)@, q),
        final(stack)@.len() + count_true(old(visited)@) == old(stack)@.len() + count_true(final(visited)@),
{
    let owner = nodes[p].0;
    match lead_of(ds, owner, r) {
        None => {},
        Some(q) => {
            proof {
                lemma_leads_to_node(ds@, owner as int, *r, as_node(q));
            }
            let ghost v0 = visited@;
            let ghost s0 = stack@;
            match mark(nodes, visited, q) {
                None => {},
                Some(k) => {
                    proof {
                        lemma_count_set(v0, k as int);
                        lemma_visited_grow(ds@, nodes@, v0, visited@);
                        assert(edge(ds@, as_node(nodes@[p as int]), as_node(q)));
                        lemma_reach_step(ds@, from@, as_node(nodes@[p as int]), as_node(q));
                    }
                    stack.push(k);
                    proof {
                        assert(stack@[s0.len() as int] == k);
                        assert forall|j: int|
                            0 <= j < nodes@.len() && #[trigger] visited@[j] && j != p && !in_stack(stack@, j)
                                implies closed_at(ds@, nodes@, visited@, j) by {
                            assert(j != k);
                            if in_stack(s0, j) {
                                let m = choose|m: int| 0 <= m < s0.len() && s0[m] as int == j;
                                assert(stack@[m] == s0[m]);
                            }
                        }
                    }
                },
            }
        },
    }
}

/// Whether type `to` can be reached from type `from` along references.
pub fn reaches(ds: &Vec<Domain>, from: (usize, usize), to: (usize, usize)) -> (r: bool)
    requires
        symbols_unique(ds@),
        is_node(ds@, as_node(from)),
        is_node(ds@, as_node(to)),
    ensures
        r == reachable(ds@, as_node(from), as_node(to)),
{
    let nodes = all_nodes(ds);
    let mut visited: Vec<bool> = vec![false; nodes.len()];
    let mut stack: Vec<usize> = Vec::new();
    let ghost start = as_node(from);
    proof {
        lemma_count_none(visited@);
    }
    match mark(&nodes, &mut visited, from) {
        None => {},
        Some(k) => {
            stack.push(k);
            proof {
                let path = seq![start];
                assert(is_path(ds@, path) && path[0] == start && path.last() == start);
                assert forall|j: int| 0 <= j < nodes@.len() && #[trigger] visited@[j] implies j == k by {}
                assert(stack@[0] == k);
                assert(in_stack(stack@, k as int));
            }
        },
    }
    while stack.len() > 0
        invariant
            symbols_unique(ds@),
            search_state(ds@, nodes@, visited@, stack@, start, -1),
        decreases nodes@.len() - count_true(visited@), stack@.len(),
    {
        let ghost v0 = visited@;
        let ghost s0 = stack@;
        let p = match stack.pop() {
            Some(p) => p,
            None => 0,
        };
        assert(s0 =~= stack@.push(p));
        assert(s0[s0.len() - 1] == p);
        proof {
            lemma_count_bound(visited@);
            assert forall|j: int|
                0 <= j < nodes@.len() && #[trigger] visited@[j] && j != p && !in_stack(stack@, j)
                    implies closed_at(ds@, nodes@, visited@, j) by {
                if in_stack(s0, j) {
                    let m = choose|m: int| 0 <= m < s0.len() && s0[m] as int == j;
                    assert(m != s0.len() - 1);
                    assert(stack@[m] == s0[m]);
                }
            }
        }
        let (pi, pj) = nodes[p];
        assert(is_node(ds@, as_node(nodes@[p as int])));
        match &ds[pi].types[pj].kind {
            TypeKind::ArrayOf(r) => {
                visit_ref(ds, &nodes, &mut visited, &mut stack, Ghost(start), p, r);
            },
            TypeKind::Object(ps) => {
                let mut k: usize = 0;
                while k < ps.len()
                    invariant
                        symbols_unique(ds@),
                        p < nodes@.len(),
                        nodes@[p as int] == (pi, pj),
                        is_node(ds@, as_node((pi, pj))),
                        ds@[pi as int].types@[pj as int].kind == TypeKind::Object(*ps),
                        k <= ps@.len(),
                        visited@.len() == nodes@.len(),
                        v0.len() == nodes@.len(),
                        visited@[p as int],
                        search_state(ds@, nodes@, visited@, stack@, start, p as int),
                        forall|j: int| 0 <= j < nodes@.len() && v0[j] ==> visited@[j],
                        forall|kk: int, q: (int, int)|
                            0 <= kk < k && #[trigger] ref_leads(ds@, pi as int, ps@[kk].type_ref, q)
                                ==> visited_node(nodes@, visited@, q),
                        stack@.len() + count_true(v0) == s0.len() - 1 + count_true(visited@),
                    decreases ps@.len() - k,
                {
                    let ghost v1 = visited@;
                    visit_ref(ds, &nodes, &mut visited, &mut stack, Ghost(start), p, &ps[k].type_ref);
                    proof {
                        lemma_visited_grow(ds@, nodes@, v1, visited@);
                    }
                    k = k + 1;
                }
            },
            _ => {},
        }
        proof {
            lemma_count_bound(visited@);
            lemma_count_mono(v0, visited@);
            assert(closed_at(ds@, nodes@, visited@, p as int));
        }
    }
    match find_node(&nodes, to) {
        Some(t) => {
            proof {
                assert forall|j: int| 0 <= j < nodes@.len() && #[trigger] visited@[j]
                    implies closed_at(ds@, nodes@, visited@, j) by {
                    assert(!in_stack(stack@, j));
                }
                if reachable(ds@, start, as_node(to)) {
                    let path = choose|path: Seq<(int, int)>|
                        #[trigger] is_path(ds@, path) && path[0] == start && path.last() == as_node(to);
                    lemma_closed_complete(ds@, nodes@, visited@, path, path.len() - 1);
                    let j = choose|j: int| 0 <= j < nodes@.len() && as_node(nodes@[j]) == as_node(to) && #[trigger] visited@[j];
                    assert(nodes@[j] == nodes@[t as int]);
                }
            }
            visited[t]
        },
        None => false,
    }
}

/// Whether the field of type `owner` that holds `r` needs heap indirection:
/// the type that `r` leads to reaches `owner` again, so the reference lies on
/// a cycle.
pub fn needs_indirection(ds: &Vec<Domain>, owner: (usize, usize), r: &TypeRef) -> (b: bool)
    requires
        symbols_unique(ds@),
        is_node(ds@, as_node(owner)),
    ensures
        b == exists|q: (int, int)|
            #[trigger] ref_leads(ds@, owner.0 as int, *r, q) && reachable(ds@, q, as_node(owner)),
{
    match lead_of(ds, owner.0, r) {
        None => false,
        Some(q) => {
            proof {
                lemma_leads_to_node(ds@, owner.0 as int, *r, as_node(q));
            }
            reaches(ds, q, owner)
        },
    }
}

/// The fields of a type: its properties when it is an object, else none.
pub open spec fn fields_of(t: TypeDef) -> Seq<Property> {
    match t.kind {
        TypeKind::Object(ps) => ps@,
        _ => seq![],
    }
}

/// Field `k` of type `t` of domain `i` lies on a cycle and is held indirectly.
pub open spec fn boxed(ds: Seq<Domain>, i: int, t: int, k: int) -> bool {
    exists|q: (int, int)|
        #[trigger] ref_leads(ds, i, fields_of(ds[i].types@[t])[k].type_ref, q) && reachable(ds, q, (i, t))
}

/// `b[i][t][k]` tells, for every field of every type, whether it is held
/// indirectly.
pub open spec fn indirection_table(ds: Seq<Domain>, b: Seq<Vec<Vec<bool>>>) -> bool {
    &&& b.len() == ds.len()
    &&& forall|i: int| 0 <= i < ds.len() ==> (#[trigger] b[i])@.len() == ds[i].types@.len()
    &&& forall|i: int, t: int|
        0 <= i < ds.len() && 0 <= t < ds[i].types@.len() ==> (#[trigger] b[i]@[t])@.len() == fields_of(
            ds[i].types@[t],
        ).len()
    &&& forall|i: int, t: int, k: int|
        0 <= i < ds.len() && 0 <= t < ds[i].types@.len() && 0 <= k < fields_of(ds[i].types@[t]).len()
            ==> (#[trigger] b[i]@[t]@[k]) == boxed(ds, i, t, k)
}

fn type_flags(ds: &Vec<Domain>, i: usize, t: usize) -> (r: Vec<bool>)
    requires
        symbols_unique(ds@),
        is_node(ds@, (i as int, t as int)),
    ensures
        r@.len() == fields_of(ds@[i as int].types@[t as int]).len(),
        forall|k: int| 0 <= k < r@.len() ==> r@[k] == boxed(ds@, i as int, t as int, k),
{
    let mut out: Vec<bool> = Vec::new();
    match &ds[i].types[t].kind {
        TypeKind::Object(ps) => {
            let mut k: usize = 0;
            while k < ps.len()
                invariant
                    symbols_unique(ds@),
                    is_node(ds@, (i as int, t as int)),
                    fields_of(ds@[i as int].types@[t as int]) == ps@,
                    k <= ps@.len(),
                    out@.len() == k,
                    forall|j: int| 0 <= j < k ==> out@[j] == boxed(ds@, i as int, t as int, j),
                decreases ps@.len() - k,
            {
                let b = needs_indirection(ds, (i, t), &ps[k].type_ref);
                out.push(b);
                k = k + 1;
            }
        },
        _ => {},
    }
    out
}

/// For every field of every object type, whether it lies on a cycle of
/// references and must be held indirectly.
pub fn indirection_flags(ds: &Vec<Domain>) -> (r: Vec<Vec<Vec<bool>>>)
    requires
        symbols_unique(ds@),
    ensures
        indirection_table(ds@, r@),
{
    let mut out: Vec<Vec<Vec<bool>>> = Vec::new();
    let mut i: usize = 0;
    while i < ds.len()
        invariant
            symbols_unique(ds@),
            i <= ds@.len(),
            out@.len() == i,
            forall|a: int| 0 <= a < i ==> (#[trigger] out@[a])@.len() == ds@[a].types@.len(),
            forall|a: int, t: int|
                0 <= a < i && 0 <= t < ds@[a].types@.len() ==> (#[trigger] out@[a]@[t])@.len()
                    == fields_of(ds@[a].types@[t]).len(),
            forall|a: int, t: int, k: int|
                0 <= a < i && 0 <= t < ds@[a].types@.len() && 0 <= k < fields_of(ds@[a].types@[t]).len()
                    ==> (#[trigger] out@[a]@[t]@[k]) == boxed(ds@, a, t, k),
        decreases ds@.len() - i,
    {
        let mut row: Vec<Vec<bool>> = Vec::new();
        let mut t: usize = 0;
        while t < ds[i].types.len()
            invariant
                symbols_unique(ds@),
                i < ds@.len(),
                t <= ds@[i as int].types@.len(),
                row@.len() == t,
                forall|u: int| 0 <= u < t ==> (#[trigger] row@[u])@.len() == fields_of(ds@[i as int].types@[u]).len(),
                forall|u: int, k: int|
                    0 <= u < t && 0 <= k < fields_of(ds@[i as int].types@[u]).len() ==> (#[trigger] row@[u]@[k])
                        == boxed(ds@, i as int, u, k),
            decreases ds@[i as int].types@.len() - t,
        {
            let f = type_flags(ds, i, t);
            row.push(f);
            t = t + 1;
        }
        out.push(row);
        proof {
            assert forall|a: int, t: int, k: int|
                0 <= a < i + 1 && 0 <= t < ds@[a].types@.len() && 0 <= k < fields_of(ds@[a].types@[t]).len()
                    implies (#[trigger] out@[a]@[t]@[k]) == boxed(ds@, a, t, k) by {
                if a < i {
                } else {
                    assert(out@[a] == row);
                }
            }
        }
        i = i + 1;
    }
    out
}

/// A field whose reference leads back to the type that holds it (a `Node`
/// with `children` of type `Node`) lies on a cycle and is held indirectly.
pub proof fn lemma_self_reference_is_boxed(ds: Seq<Domain>, i: int, t: int, k: int)
    requires
        is_node(ds, (i, t)),
        0 <= k < fields_of(ds[i].types@[t]).len(),
        ref_leads(ds, i, fields_of(ds[i].types@[t])[k].type_ref, (i, t)),
    ensures
        boxed(ds, i, t, k),
{
    let path = seq![(i, t)];
    assert(is_path(ds, path) && path[0] == (i, t) && path.last() == (i, t));
    assert(reachable(ds, (i, t), (i, t)));
}

} // verus!
