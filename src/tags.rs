use vstd::prelude::*;

use crate::error::CompileError;
use crate::model::{CommandDef, Domain, EventDef};

verus! {

/// The dispatch tag `"<Domain>.<name>"`.
pub open spec fn tag(domain: Seq<char>, name: Seq<char>) -> Seq<char> {
    domain + seq!['.'] + name
}

pub open spec fn domain_event_tags(d: Domain) -> Seq<Seq<char>> {
    d.events@.map_values(|e: EventDef| tag(d.name@, e.name@))
}

pub open spec fn domain_command_tags(d: Domain) -> Seq<Seq<char>> {
    d.commands@.map_values(|c: CommandDef| tag(d.name@, c.name@))
}

/// The tags of the global event type: domains in load order, each domain's
/// events in declaration order.
pub open spec fn event_tags(ds: Seq<Domain>) -> Seq<Seq<char>>
    decreases ds.len(),
{
    if ds.len() == 0 {
        seq![]
    } else {
        event_tags(ds.drop_last()) + domain_event_tags(ds.last())
    }
}

/// The tags of all commands, in the same order.
pub open spec fn command_tags(ds: Seq<Domain>) -> Seq<Seq<char>>
    decreases ds.len(),
{
    if ds.len() == 0 {
        seq![]
    } else {
        command_tags(ds.drop_last()) + domain_command_tags(ds.last())
    }
}

pub open spec fn distinct(s: Seq<Seq<char>>) -> bool {
    forall|i: int, j: int| 0 <= i < s.len() && 0 <= j < s.len() && i != j ==> s[i] != s[j]
}

/// `t` stands at two positions of `s`.
pub open spec fn occurs_twice(s: Seq<Seq<char>>, t: Seq<char>) -> bool {
    exists|i: int, j: int| 0 <= i < s.len() && 0 <= j < s.len() && i != j && s[i] == t && s[j] == t
}

pub open spec fn views(v: Seq<String>) -> Seq<Seq<char>> {
    v.map_values(|s: String| s@)
}

/// Builds the dispatch tag of entity `name` in domain `domain`.
pub fn make_tag(domain: &String, name: &String) -> (r: String)
    ensures
        r@ == tag(domain@, name@),
{
    let mut r = domain.clone();
    r.append(".");
    r.append(name.as_str());
    proof {
        reveal_strlit(".");
        assert(r@ =~= tag(domain@, name@));
    }
    r
}

/// The tags of every event of every domain, in load order.
pub fn collect_event_tags(ds: &Vec<Domain>) -> (r: Vec<String>)
    ensures
        views(r@) == event_tags(ds@),
{
    let mut out: Vec<String> = Vec::new();
    let mut i: usize = 0;
    while i < ds.len()
        invariant
            i <= ds@.len(),
            views(out@) == event_tags(ds@.take(i as int)),
        decreases ds@.len() - i,
    {
        let d = &ds[i];
        let mut k: usize = 0;
        while k < d.events.len()
            invariant
                i < ds@.len(),
                *d == ds@[i as int],
                k <= d.events@.len(),
                views(out@) == event_tags(ds@.take(i as int)) + domain_event_tags(*d).take(k as int),
            decreases d.events@.len() - k,
        {
            let t = make_tag(&d.name, &d.events[k].name);
            let ghost before = out@;
            out.push(t);
            assert(views(out@) =~= views(before).push(t@));
            assert(domain_event_tags(*d).take(k + 1) =~= domain_event_tags(*d).take(k as int).push(t@));
            assert(views(out@) =~= event_tags(ds@.take(i as int)) + domain_event_tags(*d).take(k + 1));
            k = k + 1;
        }
        assert(ds@.take(i + 1).drop_last() =~= ds@.take(i as int));
        assert(domain_event_tags(*d).take(k as int) =~= domain_event_tags(*d));
        i = i + 1;
    }
    assert(ds@.take(i as int) =~= ds@);
    out
}

/// The tags of every command of every domain, in load order.
pub fn collect_command_tags(ds: &Vec<Domain>) -> (r: Vec<String>)
    ensures
        views(r@) == command_tags(ds@),
{
    let mut out: Vec<String> = Vec::new();
    let mut i: usize = 0;
    while i < ds.len()
        invariant
            i <= ds@.len(),
            views(out@) == command_tags(ds@.take(i as int)),
        decreases ds@.len() - i,
    {
        let d = &ds[i];
        let mut k: usize = 0;
        while k < d.commands.len()
            invariant
                i < ds@.len(),
                *d == ds@[i as int],
                k <= d.commands@.len(),
                views(out@) == command_tags(ds@.take(i as int)) + domain_command_tags(*d).take(k as int),
            decreases d.commands@.len() - k,
        {
            let t = make_tag(&d.name, &d.commands[k].name);
            let ghost before = out@;
            out.push(t);
            assert(views(out@) =~= views(before).push(t@));
            assert(domain_command_tags(*d).take(k + 1) =~= domain_command_tags(*d).take(k as int).push(t@));
            assert(views(out@) =~= command_tags(ds@.take(i as int)) + domain_command_tags(*d).take(k + 1));
            k = k + 1;
        }
        assert(ds@.take(i + 1).drop_last() =~= ds@.take(i as int));
        assert(domain_command_tags(*d).take(k as int) =~= domain_command_tags(*d));
        i = i + 1;
    }
    assert(ds@.take(i as int) =~= ds@);
    out
}

/// Fails with a collision on the first tag that occurs twice.
pub fn check_distinct(tags: &Vec<String>) -> (r: Result<(), CompileError>)
    ensures
        r is Ok <==> distinct(views(tags@)),
        r is Err ==> (r->Err_0 matches CompileError::NameCollision { name } && occurs_twice(
            views(tags@),
            name@,
        )),
{
    let mut i: usize = 0;
    while i < tags.len()
        invariant
            i <= tags@.len(),
            forall|a: int, b: int|
                0 <= a < i && 0 <= b < tags@.len() && a != b ==> tags@[a]@ != tags@[b]@,
        decreases tags@.len() - i,
    {
        let mut j: usize = 0;
        while j < tags.len()
            invariant
                i < tags@.len(),
                j <= tags@.len(),
                forall|b: int| 0 <= b < j && b != i ==> tags@[i as int]@ != tags@[b]@,
            decreases tags@.len() - j,
        {
            if i != j && tags[i] == tags[j] {
                assert(views(tags@)[i as int] == views(tags@)[j as int]);
                return Err(CompileError::NameCollision { name: tags[i].clone() });
            }
            j = j + 1;
        }
        i = i + 1;
    }
    Ok(())
}

/// Every event of every domain contributes its tag to the global event type,
/// whatever other domains are loaded and in whatever order: the variant for
/// event `k` of domain `i` stands at a position of `event_tags(ds)`.
pub proof fn lemma_event_tag_present(ds: Seq<Domain>, i: int, k: int)
    requires
        0 <= i < ds.len(),
        0 <= k < ds[i].events@.len(),
    ensures
        event_tags(ds).contains(tag(ds[i].name@, ds[i].events@[k].name@)),
    decreases ds.len(),
{
    let t = tag(ds[i].name@, ds[i].events@[k].name@);
    let prefix = event_tags(ds.drop_last());
    if i == ds.len() - 1 {
        assert(domain_event_tags(ds.last())[k] == t);
        assert(event_tags(ds)[prefix.len() + k] == t);
    } else {
        lemma_event_tag_present(ds.drop_last(), i, k);
        let j = choose|j: int| 0 <= j < prefix.len() && prefix[j] == t;
        assert(event_tags(ds)[j] == t);
    }
}

/// Every command of every domain has its dispatch tag among the command tags.
pub proof fn lemma_command_tag_present(ds: Seq<Domain>, i: int, k: int)
    requires
        0 <= i < ds.len(),
        0 <= k < ds[i].commands@.len(),
    ensures
        command_tags(ds).contains(tag(ds[i].name@, ds[i].commands@[k].name@)),
    decreases ds.len(),
{
    let t = tag(ds[i].name@, ds[i].commands@[k].name@);
    let prefix = command_tags(ds.drop_last());
    if i == ds.len() - 1 {
        assert(domain_command_tags(ds.last())[k] == t);
        assert(command_tags(ds)[prefix.len() + k] == t);
    } else {
        lemma_command_tag_present(ds.drop_last(), i, k);
        let j = choose|j: int| 0 <= j < prefix.len() && prefix[j] == t;
        assert(command_tags(ds)[j] == t);
    }
}

} // verus!
