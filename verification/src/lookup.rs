//! Id-keyed lookup into the three registries.
//!
//! Each registry is a vector of entities with pairwise distinct ids, so the
//! entity with a given id is unique whenever it exists.

use vstd::prelude::*;

verus! {

use crate::container::ContainerData;
use crate::port::Port;
use crate::ship::Ship;

pub open spec fn distinct_cont_ids(cs: Seq<ContainerData>) -> bool {
    forall|i: int, j: int|
        0 <= i < cs.len() && 0 <= j < cs.len() && i != j ==> cs[i].spec_id() != cs[j].spec_id()
}

pub open spec fn distinct_port_ids(ps: Seq<Port>) -> bool {
    forall|i: int, j: int|
        0 <= i < ps.len() && 0 <= j < ps.len() && i != j ==> ps[i].id != ps[j].id
}

pub open spec fn distinct_ship_ids(ss: Seq<Ship>) -> bool {
    forall|i: int, j: int|
        0 <= i < ss.len() && 0 <= j < ss.len() && i != j ==> ss[i].id != ss[j].id
}

pub open spec fn has_cont(cs: Seq<ContainerData>, id: u64) -> bool {
    exists|k: int| 0 <= k < cs.len() && cs[k].spec_id() == id
}

pub open spec fn has_port(ps: Seq<Port>, id: u64) -> bool {
    exists|k: int| 0 <= k < ps.len() && ps[k].id == id
}

pub open spec fn has_ship(ss: Seq<Ship>, id: u64) -> bool {
    exists|k: int| 0 <= k < ss.len() && ss[k].id == id
}

/// The registered container with the given id (arbitrary when absent).
pub open spec fn cont_at(cs: Seq<ContainerData>, id: u64) -> ContainerData {
    cs[choose|k: int| 0 <= k < cs.len() && cs[k].spec_id() == id]
}

/// With distinct ids, any index holding `id` is the one [`cont_at`] picks.
pub proof fn lemma_cont_at_is(cs: Seq<ContainerData>, id: u64, i: int)
    requires
        distinct_cont_ids(cs),
        0 <= i < cs.len(),
        cs[i].spec_id() == id,
    ensures
        cont_at(cs, id) == cs[i],
{
    let k = choose|k: int| 0 <= k < cs.len() && cs[k].spec_id() == id;
    assert(0 <= k < cs.len() && cs[k].spec_id() == id);
    assert(k == i);
}

/// A registered id looks up to a well-formed entry of the registry.
pub proof fn lemma_cont_at_in(cs: Seq<ContainerData>, id: u64)
    requires
        has_cont(cs, id),
    ensures
        cont_at(cs, id).spec_id() == id,
        exists|k: int| 0 <= k < cs.len() && cs[k] == cont_at(cs, id),
{
    let k = choose|k: int| 0 <= k < cs.len() && cs[k].spec_id() == id;
    assert(0 <= k < cs.len() && cs[k] == cont_at(cs, id));
}

/// Extending the registry with a fresh id leaves every other lookup as it
/// was.
pub proof fn lemma_cont_at_fresh(cs: Seq<ContainerData>, c: ContainerData, id: u64)
    requires
        distinct_cont_ids(cs),
        !has_cont(cs, c.spec_id()),
        id != c.spec_id(),
        has_cont(cs, id),
    ensures
        cont_at(cs.push(c), id) == cont_at(cs, id),
        has_cont(cs.push(c), id),
{
    let ext = cs.push(c);
    let k = choose|k: int| 0 <= k < cs.len() && cs[k].spec_id() == id;
    assert(ext[k] == cs[k]);
    assert(has_cont(ext, id));
    let k2 = choose|k2: int| 0 <= k2 < ext.len() && ext[k2].spec_id() == id;
    if k2 == cs.len() {
        assert(ext[k2] == c);
    } else {
        assert(ext[k2] == cs[k2]);
        assert(k2 == k);
    }
    lemma_cont_at_is(cs, id, k);
    assert(cont_at(ext, id) == ext[k2]);
}

/// The registered port with the given id (arbitrary when absent).
pub open spec fn port_at(ps: Seq<Port>, id: u64) -> Port {
    ps[choose|k: int| 0 <= k < ps.len() && ps[k].id == id]
}

/// The registered ship with the given id (arbitrary when absent).
pub open spec fn ship_at(ss: Seq<Ship>, id: u64) -> Ship {
    ss[choose|k: int| 0 <= k < ss.len() && ss[k].id == id]
}

/// With distinct ids, any index holding `id` is the one [`port_at`] picks.
pub proof fn lemma_port_at_is(ps: Seq<Port>, id: u64, i: int)
    requires
        distinct_port_ids(ps),
        0 <= i < ps.len(),
        ps[i].id == id,
    ensures
        port_at(ps, id) == ps[i],
{
    let k = choose|k: int| 0 <= k < ps.len() && ps[k].id == id;
    assert(0 <= k < ps.len() && ps[k].id == id);
    assert(k == i);
}

/// With distinct ids, any index holding `id` is the one [`ship_at`] picks.
pub proof fn lemma_ship_at_is(ss: Seq<Ship>, id: u64, i: int)
    requires
        distinct_ship_ids(ss),
        0 <= i < ss.len(),
        ss[i].id == id,
    ensures
        ship_at(ss, id) == ss[i],
{
    let k = choose|k: int| 0 <= k < ss.len() && ss[k].id == id;
    assert(0 <= k < ss.len() && ss[k].id == id);
    assert(k == i);
}

/// Finds the index of the container with the given id.
pub fn find_container(cs: &Vec<ContainerData>, id: u64) -> (r: Option<usize>)
    ensures
        match r {
            Some(i) => 0 <= i < cs@.len() && cs@[i as int].spec_id() == id,
            None => !has_cont(cs@, id),
        },
{
    let mut i: usize = 0;
    while i < cs.len()
        invariant
            i <= cs.len(),
            forall|k: int| 0 <= k < i ==> cs@[k].spec_id() != id,
        decreases cs.len() - i,
    {
        if cs[i].id() == id {
            return Some(i);
        }
        i += 1;
    }
    None
}

/// Finds the index of the port with the given id.
pub fn find_port(ps: &Vec<Port>, id: u64) -> (r: Option<usize>)
    ensures
        match r {
            Some(i) => 0 <= i < ps@.len() && ps@[i as int].id == id,
            None => !has_port(ps@, id),
        },
{
    let mut i: usize = 0;
    while i < ps.len()
        invariant
            i <= ps.len(),
            forall|k: int| 0 <= k < i ==> ps@[k].id != id,
        decreases ps.len() - i,
    {
        if ps[i].id == id {
            return Some(i);
        }
        i += 1;
    }
    None
}

/// Finds the index of the ship with the given id.
pub fn find_ship(ss: &Vec<Ship>, id: u64) -> (r: Option<usize>)
    ensures
        match r {
            Some(i) => 0 <= i < ss@.len() && ss@[i as int].id == id,
            None => !has_ship(ss@, id),
        },
{
    let mut i: usize = 0;
    while i < ss.len()
        invariant
            i <= ss.len(),
            forall|k: int| 0 <= k < i ==> ss@[k].id != id,
        decreases ss.len() - i,
    {
        if ss[i].id == id {
            return Some(i);
        }
        i += 1;
    }
    None
}

} // verus!
