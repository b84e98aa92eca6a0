//! Projection of the final world into a plain, ordered report.
//!
//! Ports appear in ascending id order; each carries its coordinates
//! rounded to centi-degrees, its stored containers partitioned by kind into
//! four ascending id lists, and the ships present, in ascending id order,
//! each with its fuel rounded to centi-units and its manifest partitioned
//! the same way. Serialisation of this report is left to the caller.

use vstd::prelude::*;

verus! {

use crate::container::ContainerData;
use crate::idvec::sort_ids;
use crate::idvec::sorted_ids;
use crate::lookup::cont_at;
use crate::lookup::distinct_cont_ids;
use crate::lookup::find_container;
use crate::lookup::find_port;
use crate::lookup::find_ship;
use crate::lookup::has_cont;
use crate::lookup::has_port;
use crate::lookup::has_ship;
use crate::lookup::lemma_cont_at_is;
use crate::lookup::lemma_port_at_is;
use crate::lookup::lemma_ship_at_is;
use crate::lookup::port_at;
use crate::lookup::ship_at;
use crate::world::World;
use vstd::pervasive::unreached;

/// One ship of the report.
pub struct ShipSnapshot {
    pub id: u64,
    /// Fuel rounded half-up from milli-units to centi-units.
    pub fuel_centi: u64,
    pub basic: Vec<u64>,
    pub heavy: Vec<u64>,
    pub refrigerated: Vec<u64>,
    pub liquid: Vec<u64>,
}

/// One port of the report.
pub struct PortSnapshot {
    pub id: u64,
    /// Latitude rounded half away from zero, micro-degrees to centi-degrees.
    pub lat_centi: i64,
    pub lon_centi: i64,
    pub basic: Vec<u64>,
    pub heavy: Vec<u64>,
    pub refrigerated: Vec<u64>,
    pub liquid: Vec<u64>,
    pub ships: Vec<ShipSnapshot>,
}

/// Rounding half-up from milli-units to centi-units.
pub open spec fn centi_of_milli(m: u64) -> int {
    (m + 5) / 10
}

/// Rounding half away from zero, micro-degrees to centi-degrees.
pub open spec fn centi_of_micro(v: i64) -> int {
    if v >= 0 {
        (v + 5000) / 10000
    } else {
        -((-v + 5000) / 10000)
    }
}

pub open spec fn k_basic() -> spec_fn(ContainerData) -> bool {
    |c: ContainerData| c is Basic
}

pub open spec fn k_heavy() -> spec_fn(ContainerData) -> bool {
    |c: ContainerData| c is Heavy
}

pub open spec fn k_refrigerated() -> spec_fn(ContainerData) -> bool {
    |c: ContainerData| c is Refrigerated
}

pub open spec fn k_liquid() -> spec_fn(ContainerData) -> bool {
    |c: ContainerData| c is Liquid
}

/// `list` holds exactly the ids of `inv` whose container satisfies `k`,
/// ascending and without duplicates.
pub open spec fn kind_list_ok(
    list: Seq<u64>,
    inv: Seq<u64>,
    cs: Seq<ContainerData>,
    k: spec_fn(ContainerData) -> bool,
) -> bool {
    &&& sorted_ids(list)
    &&& list.no_duplicates()
    &&& forall|y: u64| list.contains(y) == (inv.contains(y) && k(cont_at(cs, y)))
}

/// The snapshot faithfully reports the ship with its id.
pub open spec fn ship_snapshot_ok(sn: ShipSnapshot, w: World) -> bool {
    let s = ship_at(w.ships@, sn.id);
    &&& has_ship(w.ships@, sn.id)
    &&& sn.fuel_centi as int == centi_of_milli(s.fuel)
    &&& kind_list_ok(sn.basic@, s.containers@, w.containers@, k_basic())
    &&& kind_list_ok(sn.heavy@, s.containers@, w.containers@, k_heavy())
    &&& kind_list_ok(sn.refrigerated@, s.containers@, w.containers@, k_refrigerated())
    &&& kind_list_ok(sn.liquid@, s.containers@, w.containers@, k_liquid())
}

/// The snapshot faithfully reports the port with its id: rounded
/// coordinates, inventory partitioned by kind, and exactly the ships
/// present, ascending by id.
pub open spec fn port_snapshot_ok(e: PortSnapshot, w: World) -> bool {
    let p = port_at(w.ports@, e.id);
    &&& has_port(w.ports@, e.id)
    &&& e.lat_centi as int == centi_of_micro(p.latitude)
    &&& e.lon_centi as int == centi_of_micro(p.longitude)
    &&& kind_list_ok(e.basic@, p.containers@, w.containers@, k_basic())
    &&& kind_list_ok(e.heavy@, p.containers@, w.containers@, k_heavy())
    &&& kind_list_ok(e.refrigerated@, p.containers@, w.containers@, k_refrigerated())
    &&& kind_list_ok(e.liquid@, p.containers@, w.containers@, k_liquid())
    &&& e.ships@.len() == p.current@.len()
    &&& forall|t: int|
        0 <= t < e.ships@.len() ==> ship_snapshot_ok(#[trigger] e.ships@[t], w)
            && p.current@.contains(e.ships@[t].id)
    &&& forall|t1: int, t2: int|
        0 <= t1 < t2 < e.ships@.len() ==> e.ships@[t1].id < e.ships@[t2].id
    &&& forall|y: u64|
        p.current@.contains(y) ==> exists|t: int|
            0 <= t < e.ships@.len() && (#[trigger] e.ships@[t]).id == y
}

fn round_milli(m: u64) -> (r: u64)
    ensures
        r as int == centi_of_milli(m),
{
    (((m as u128) + 5) / 10) as u64
}

fn round_micro(v: i64) -> (r: i64)
    requires
        -200_000_000 <= v <= 200_000_000,
    ensures
        r as int == centi_of_micro(v),
{
    if v >= 0 {
        (v + 5000) / 10000
    } else {
        -((-v + 5000) / 10000)
    }
}

/// Splits a duplicate-free list of registered container ids into the four
/// kinds, each ascending.
fn partition_by_kind(ids: &Vec<u64>, cs: &Vec<ContainerData>) -> (r: (
    Vec<u64>,
    Vec<u64>,
    Vec<u64>,
    Vec<u64>,
))
    requires
        distinct_cont_ids(cs@),
        ids@.no_duplicates(),
        forall|t: int| 0 <= t < ids@.len() ==> has_cont(cs@, #[trigger] ids@[t]),
    ensures
        kind_list_ok(r.0@, ids@, cs@, k_basic()),
        kind_list_ok(r.1@, ids@, cs@, k_heavy()),
        kind_list_ok(r.2@, ids@, cs@, k_refrigerated()),
        kind_list_ok(r.3@, ids@, cs@, k_liquid()),
{
    let mut basic: Vec<u64> = Vec::new();
    let mut heavy: Vec<u64> = Vec::new();
    let mut refrigerated: Vec<u64> = Vec::new();
    let mut liquid: Vec<u64> = Vec::new();
    let mut i: usize = 0;
    while i < ids.len()
        invariant
            i <= ids@.len(),
            ids@.no_duplicates(),
            distinct_cont_ids(cs@),
            forall|t: int| 0 <= t < ids@.len() ==> has_cont(cs@, #[trigger] ids@[t]),
            basic@.no_duplicates(),
            heavy@.no_duplicates(),
            refrigerated@.no_duplicates(),
            liquid@.no_duplicates(),
            forall|y: u64|
                basic@.contains(y) == (exists|t: int|
                    0 <= t < i && ids@[t] == y && k_basic()(cont_at(cs@, y))),
            forall|y: u64|
                heavy@.contains(y) == (exists|t: int|
                    0 <= t < i && ids@[t] == y && k_heavy()(cont_at(cs@, y))),
            forall|y: u64|
                refrigerated@.contains(y) == (exists|t: int|
                    0 <= t < i && ids@[t] == y && k_refrigerated()(cont_at(cs@, y))),
            forall|y: u64|
                liquid@.contains(y) == (exists|t: int|
                    0 <= t < i && ids@[t] == y && k_liquid()(cont_at(cs@, y))),
        decreases ids.len() - i,
    {
        let cid = ids[i];
        let ci: usize = match find_container(cs, cid) {
            Some(ci) => ci,
            None => {
                proof {
                    assert(has_cont(cs@, ids@[i as int]));
                }
                unreached()
            },
        };
        proof {
            lemma_cont_at_is(cs@, cid, ci as int);
            assert forall|y: u64|
                #[trigger] basic@.contains(y) || heavy@.contains(y) || refrigerated@.contains(
                    y,
                ) || liquid@.contains(y)
                implies y != cid by {
                if y == cid {
                    let t = choose|t: int| 0 <= t < i && ids@[t] == cid;
                    assert(ids@[i as int] == cid);
                }
            }
        }
        let ghost pre_b = basic@;
        let ghost pre_h = heavy@;
        let ghost pre_r = refrigerated@;
        let ghost pre_l = liquid@;
        match &cs[ci] {
            ContainerData::Basic { .. } => basic.push(cid),
            ContainerData::Heavy { .. } => heavy.push(cid),
            ContainerData::Refrigerated { .. } => refrigerated.push(cid),
            ContainerData::Liquid { .. } => liquid.push(cid),
        }
        proof {
            lemma_push_membership(pre_b, basic@, cid);
            lemma_push_membership(pre_h, heavy@, cid);
            lemma_push_membership(pre_r, refrigerated@, cid);
            lemma_push_membership(pre_l, liquid@, cid);
        }
        i += 1;
    }
    proof {
        lemma_prefix_is_contains(ids@);
    }
    let sb = sort_ids(&basic);
    let sh = sort_ids(&heavy);
    let sr = sort_ids(&refrigerated);
    let sl = sort_ids(&liquid);
    (sb, sh, sr, sl)
}

/// After a possible push of `x`, membership either grew by `x` or is
/// unchanged.
proof fn lemma_push_membership(pre: Seq<u64>, post: Seq<u64>, x: u64)
    requires
        post == pre || post == pre.push(x),
        pre.no_duplicates(),
        !pre.contains(x),
    ensures
        post.no_duplicates(),
        forall|y: u64| y != x ==> post.contains(y) == pre.contains(y),
        post == pre.push(x) ==> post.contains(x),
        post == pre ==> !post.contains(x),
{
    if post == pre.push(x) {
        assert(post[pre.len() as int] == x);
        assert forall|y: u64| y != x implies post.contains(y) == pre.contains(y) by {
            if post.contains(y) {
                let t = choose|t: int| 0 <= t < post.len() && post[t] == y;
                assert(t < pre.len());
                assert(pre[t] == y);
            }
            if pre.contains(y) {
                let t = choose|t: int| 0 <= t < pre.len() && pre[t] == y;
                assert(post[t] == y);
            }
        }
        assert forall|a: int, b: int|
            0 <= a < post.len() && 0 <= b < post.len() && a != b
            implies post[a] != post[b] by {
            if post[a] == post[b] {
                if a < pre.len() && b < pre.len() {
                    assert(pre[a] == pre[b]);
                } else {
                    let o = if a < pre.len() {
                        a
                    } else {
                        b
                    };
                    assert(pre[o] == x);
                }
            }
        }
    }
}

/// Index-wise membership of a full prefix is plain membership.
proof fn lemma_prefix_is_contains(ids: Seq<u64>)
    ensures
        forall|y: u64|
            (exists|t: int| 0 <= t < ids.len() && ids[t] == y) == ids.contains(y),
{
}

/// Builds the report of a well-formed world: every port, ascending by id,
/// with rounded coordinates, kind-partitioned inventories, and the ships
/// present.
pub fn snapshot(w: &World) -> (r: Vec<PortSnapshot>)
    requires
        w.wf(),
    ensures
        r@.len() == w.ports@.len(),
        forall|a: int, b: int| 0 <= a < b < r@.len() ==> r@[a].id < r@[b].id,
        forall|k: int| 0 <= k < r@.len() ==> port_snapshot_ok(#[trigger] r@[k], *w),
        forall|pid: u64|
            has_port(w.ports@, pid) ==> exists|k: int|
                0 <= k < r@.len() && (#[trigger] r@[k]).id == pid,
{
    let mut pids: Vec<u64> = Vec::new();
    let mut i: usize = 0;
    while i < w.ports.len()
        invariant
            i <= w.ports@.len(),
            pids@.len() == i,
            forall|t: int| 0 <= t < i ==> pids@[t] == (#[trigger] w.ports@[t]).id,
        decreases w.ports.len() - i,
    {
        pids.push(w.ports[i].id);
        i += 1;
    }
    proof {
        assert forall|a: int, b: int|
            0 <= a < pids@.len() && 0 <= b < pids@.len() && a != b
            implies pids@[a] != pids@[b] by {
            assert(w.ports@[a].id != w.ports@[b].id);
        }
    }
    let sorted = sort_ids(&pids);
    let mut out: Vec<PortSnapshot> = Vec::new();
    let mut k: usize = 0;
    while k < sorted.len()
        invariant
            k <= sorted@.len(),
            out@.len() == k,
            w.wf(),
            sorted_ids(sorted@),
            sorted@.no_duplicates(),
            sorted@.len() == w.ports@.len(),
            forall|y: u64| sorted@.contains(y) == pids@.contains(y),
            pids@.len() == w.ports@.len(),
            forall|t: int| 0 <= t < pids@.len() ==> pids@[t] == (#[trigger] w.ports@[t]).id,
            forall|t: int|
                0 <= t < k ==> port_snapshot_ok(#[trigger] out@[t], *w) && out@[t].id
                    == sorted@[t],
        decreases sorted.len() - k,
    {
        let pid = sorted[k];
        let pi: usize = match find_port(&w.ports, pid) {
            Some(pi) => pi,
            None => {
                proof {
                    assert(sorted@[k as int] == pid);
                    assert(sorted@.contains(pid));
                    let t = choose|t: int| 0 <= t < pids@.len() && pids@[t] == pid;
                    assert(w.ports@[t].id == pid);
                    assert(has_port(w.ports@, pid));
                }
                unreached()
            },
        };
        proof {
            lemma_port_at_is(w.ports@, pid, pi as int);
            assert forall|t: int| 0 <= t < w.ports@[pi as int].containers@.len()
                implies has_cont(
                w.containers@,
                #[trigger] w.ports@[pi as int].containers@[t],
            ) by {
                assert(w.ports@[pi as int].containers@.contains(
                    w.ports@[pi as int].containers@[t],
                ));
            }
        }
        let (b, h, rf, lq) = partition_by_kind(&w.ports[pi].containers, &w.containers);
        let lat_centi = round_micro(w.ports[pi].latitude);
        let lon_centi = round_micro(w.ports[pi].longitude);
        let ships = port_ships(w, pi);
        let entry = PortSnapshot {
            id: pid,
            lat_centi,
            lon_centi,
            basic: b,
            heavy: h,
            refrigerated: rf,
            liquid: lq,
            ships,
        };
        out.push(entry);
        k += 1;
    }
    proof {
        assert forall|pid: u64| has_port(w.ports@, pid)
            implies exists|t: int| 0 <= t < out@.len() && (#[trigger] out@[t]).id == pid by {
            let i0 = choose|i0: int| 0 <= i0 < w.ports@.len() && w.ports@[i0].id == pid;
            assert(pids@[i0] == pid);
            assert(pids@.contains(pid));
            assert(sorted@.contains(pid));
            let t = choose|t: int| 0 <= t < sorted@.len() && sorted@[t] == pid;
            assert(out@[t].id == pid);
        }
    }
    out
}

/// The ships present at port `pi`, ascending by id, each snapshotted.
fn port_ships(w: &World, pi: usize) -> (r: Vec<ShipSnapshot>)
    requires
        w.wf(),
        pi < w.ports@.len(),
    ensures
        r@.len() == w.ports@[pi as int].current@.len(),
        forall|t: int|
            0 <= t < r@.len() ==> ship_snapshot_ok(#[trigger] r@[t], *w)
                && w.ports@[pi as int].current@.contains(r@[t].id),
        forall|t1: int, t2: int| 0 <= t1 < t2 < r@.len() ==> r@[t1].id < r@[t2].id,
        forall|y: u64|
            w.ports@[pi as int].current@.contains(y) ==> exists|t: int|
                0 <= t < r@.len() && (#[trigger] r@[t]).id == y,
{
    let sorted = sort_ids(&w.ports[pi].current);
    let mut out: Vec<ShipSnapshot> = Vec::new();
    let mut k: usize = 0;
    while k < sorted.len()
        invariant
            k <= sorted@.len(),
            out@.len() == k,
            w.wf(),
            pi < w.ports@.len(),
            sorted_ids(sorted@),
            sorted@.no_duplicates(),
            sorted@.len() == w.ports@[pi as int].current@.len(),
            forall|y: u64| sorted@.contains(y) == w.ports@[pi as int].current@.contains(y),
            forall|t: int|
                0 <= t < k ==> ship_snapshot_ok(#[trigger] out@[t], *w) && out@[t].id
                    == sorted@[t],
        decreases sorted.len() - k,
    {
        let sid = sorted[k];
        proof {
            assert(sorted@[k as int] == sid);
            assert(sorted@.contains(sid));
            assert(w.ports@[pi as int].current@.contains(sid));
            assert(has_ship(w.ships@, sid));
        }
        let si: usize = match find_ship(&w.ships, sid) {
            Some(si) => si,
            None => { unreached() },
        };
        proof {
            lemma_ship_at_is(w.ships@, sid, si as int);
            assert forall|t: int| 0 <= t < w.ships@[si as int].containers@.len()
                implies has_cont(
                w.containers@,
                #[trigger] w.ships@[si as int].containers@[t],
            ) by {
                assert(w.ships@[si as int].containers@.contains(
                    w.ships@[si as int].containers@[t],
                ));
            }
        }
        let (b, h, rf, lq) = partition_by_kind(&w.ships[si].containers, &w.containers);
        let entry = ShipSnapshot {
            id: sid,
            fuel_centi: round_milli(w.ships[si].fuel),
            basic: b,
            heavy: h,
            refrigerated: rf,
            liquid: lq,
        };
        out.push(entry);
        k += 1;
    }
    proof {
        assert forall|y: u64| w.ports@[pi as int].current@.contains(y)
            implies exists|t: int| 0 <= t < out@.len() && (#[trigger] out@[t]).id == y by {
            assert(sorted@.contains(y));
            let t = choose|t: int| 0 <= t < sorted@.len() && sorted@[t] == y;
            assert(out@[t].id == y);
        }
    }
    out
}

} // verus!
