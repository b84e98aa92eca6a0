//! The simulated world: the three registries and the operations on them.
//!
//! Entities are created once and never deleted; only a port's inventory and
//! presence sets and a ship's manifest, fuel and location change. The
//! well-formedness predicate [`World::wf`] carries the conservation
//! invariant: every registered container sits in exactly one place (one
//! port's inventory or one ship's manifest), and every ship's manifest
//! respects its five capacity limits.

use vstd::prelude::*;

verus! {

use crate::container::classify;
use crate::container::classify_spec;
use crate::container::marker_view;
use crate::container::ContainerData;
use crate::container::MAX_WEIGHT;
use crate::geo;
use crate::lookup::cont_at;
use crate::lookup::distinct_cont_ids;
use crate::lookup::distinct_port_ids;
use crate::lookup::distinct_ship_ids;
use crate::lookup::find_container;
use crate::lookup::find_port;
use crate::lookup::find_ship;
use crate::lookup::has_cont;
use crate::lookup::has_port;
use crate::lookup::has_ship;
use crate::lookup::lemma_cont_at_fresh;
use crate::lookup::lemma_cont_at_is;
use crate::lookup::lemma_port_at_is;
use crate::lookup::lemma_ship_at_is;
use crate::lookup::port_at;
use crate::lookup::ship_at;
use crate::port::IPort;
use crate::port::Port;
use crate::ship::all_conts_wf;
use vstd::pervasive::unreached;
use crate::ship::heavy_count;
use crate::ship::lemma_msum_same_lookup;
use crate::ship::liquid_count;
use crate::ship::refrigerated_count;
use crate::ship::surcharge_sum;
use crate::ship::weight_sum;
use crate::ship::Ship;

/// The ship `s0` with its fuel replaced.
pub open spec fn ship_with_fuel(s0: Ship, f: u64) -> Ship {
    Ship {
        id: s0.id,
        fuel: f,
        current_port: s0.current_port,
        total_weight_capacity: s0.total_weight_capacity,
        max_number_of_all_containers: s0.max_number_of_all_containers,
        max_number_of_heavy_containers: s0.max_number_of_heavy_containers,
        max_number_of_refrigerated_containers: s0.max_number_of_refrigerated_containers,
        max_number_of_liquid_containers: s0.max_number_of_liquid_containers,
        fuel_consumption_per_km: s0.fuel_consumption_per_km,
        containers: s0.containers,
    }
}


/// The effect of creating a port: appended with empty inventory, presence
/// and history; nothing else changed.
pub open spec fn port_created(w0: World, w1: World, id: u64, latitude: i64, longitude: i64) -> bool {
    &&& w1.ships@ == w0.ships@
    &&& w1.containers@ == w0.containers@
    &&& w1.ports@.len() == w0.ports@.len() + 1
    &&& forall|i: int| 0 <= i < w0.ports@.len() ==> w1.ports@[i] == w0.ports@[i]
    &&& w1.ports@.last().id == id
    &&& w1.ports@.last().latitude == latitude
    &&& w1.ports@.last().longitude == longitude
    &&& w1.ports@.last().containers@ == Seq::<u64>::empty()
    &&& w1.ports@.last().current@ == Seq::<u64>::empty()
    &&& w1.ports@.last().history@ == Seq::<u64>::empty()
}

/// The effect of creating a ship: appended with no fuel and an empty
/// manifest, and recorded as present at (and a visitor of) its port.
pub open spec fn ship_created(
    w0: World,
    w1: World,
    id: u64,
    port_id: u64,
    total_weight_capacity: u64,
    max_number_of_all_containers: u64,
    max_number_of_heavy_containers: u64,
    max_number_of_refrigerated_containers: u64,
    max_number_of_liquid_containers: u64,
    fuel_consumption_per_km: u64,
) -> bool {
    &&& w1.containers@ == w0.containers@
    &&& w1.ships@.len() == w0.ships@.len() + 1
    &&& forall|j: int| 0 <= j < w0.ships@.len() ==> w1.ships@[j] == w0.ships@[j]
    &&& w1.ships@.last() == (Ship {
        id,
        fuel: 0,
        current_port: port_id,
        total_weight_capacity,
        max_number_of_all_containers,
        max_number_of_heavy_containers,
        max_number_of_refrigerated_containers,
        max_number_of_liquid_containers,
        fuel_consumption_per_km,
        containers: w1.ships@.last().containers,
    })
    &&& w1.ships@.last().containers@ == Seq::<u64>::empty()
    &&& w1.ports@.len() == w0.ports@.len()
    &&& forall|i: int|
        0 <= i < w0.ports@.len() && w0.ports@[i].id != port_id ==> w1.ports@[i] == w0.ports@[i]
    &&& forall|i: int|
        0 <= i < w0.ports@.len() && w0.ports@[i].id == port_id ==> {
            let p0 = w0.ports@[i];
            let p1 = w1.ports@[i];
            &&& p1.id == p0.id
            &&& p1.latitude == p0.latitude
            &&& p1.longitude == p0.longitude
            &&& p1.containers@ == p0.containers@
            &&& forall|y: u64| p1.current@.contains(y) == (p0.current@.contains(y) || y == id)
            &&& forall|y: u64| p1.history@.contains(y) == (p0.history@.contains(y) || y == id)
        }
}

/// The effect of creating a container: the classified container is
/// appended to the registry and stored in the named port, a placeholder
/// port at (0, 0) being created first when the port id is unknown.
pub open spec fn container_created(
    w0: World,
    w1: World,
    id: u64,
    weight: u64,
    special: Option<Seq<char>>,
    port_id: u64,
) -> bool {
    &&& w1.containers@ == w0.containers@.push(classify_spec(id, weight, special))
    &&& w1.ships@ == w0.ships@
    &&& has_port(w0.ports@, port_id) ==> {
        &&& w1.ports@.len() == w0.ports@.len()
        &&& forall|i: int|
            0 <= i < w0.ports@.len() && w0.ports@[i].id != port_id ==> w1.ports@[i]
                == w0.ports@[i]
        &&& forall|i: int|
            0 <= i < w0.ports@.len() && w0.ports@[i].id == port_id ==> {
                let p0 = w0.ports@[i];
                let p1 = w1.ports@[i];
                &&& p1.id == p0.id
                &&& p1.latitude == p0.latitude
                &&& p1.longitude == p0.longitude
                &&& p1.current@ == p0.current@
                &&& p1.history@ == p0.history@
                &&& forall|y: u64|
                    p1.containers@.contains(y) == (p0.containers@.contains(y) || y == id)
            }
    }
    &&& !has_port(w0.ports@, port_id) ==> {
        &&& w1.ports@.len() == w0.ports@.len() + 1
        &&& forall|i: int| 0 <= i < w0.ports@.len() ==> w1.ports@[i] == w0.ports@[i]
        &&& w1.ports@.last().id == port_id
        &&& w1.ports@.last().latitude == 0
        &&& w1.ports@.last().longitude == 0
        &&& w1.ports@.last().current@ == Seq::<u64>::empty()
        &&& w1.ports@.last().history@ == Seq::<u64>::empty()
        &&& forall|y: u64| w1.ports@.last().containers@.contains(y) == (y == id)
    }
}

/// The effect of a successful load: the container left the ship's current
/// port's inventory and was appended to the ship's manifest.
pub open spec fn loaded(w0: World, w1: World, ship_id: u64, cont_id: u64) -> bool {
    let s0 = ship_at(w0.ships@, ship_id);
    &&& w1.containers@ == w0.containers@
    &&& w1.ships@.len() == w0.ships@.len()
    &&& forall|j: int|
        0 <= j < w0.ships@.len() && w0.ships@[j].id != ship_id ==> w1.ships@[j]
            == w0.ships@[j]
    &&& forall|j: int|
        0 <= j < w0.ships@.len() && w0.ships@[j].id == ship_id ==> {
            let sj0 = w0.ships@[j];
            let sj1 = w1.ships@[j];
            &&& sj1.containers@ == sj0.containers@.push(cont_id)
            &&& sj1 == ship_with_manifest(sj0, sj1.containers)
        }
    &&& w1.ports@.len() == w0.ports@.len()
    &&& forall|i: int|
        0 <= i < w0.ports@.len() && w0.ports@[i].id != s0.current_port ==> w1.ports@[i]
            == w0.ports@[i]
    &&& forall|i: int|
        0 <= i < w0.ports@.len() && w0.ports@[i].id == s0.current_port ==> {
            let p0 = w0.ports@[i];
            let p1 = w1.ports@[i];
            &&& p1.id == p0.id
            &&& p1.latitude == p0.latitude
            &&& p1.longitude == p0.longitude
            &&& p1.current@ == p0.current@
            &&& p1.history@ == p0.history@
            &&& !p1.containers@.contains(cont_id)
            &&& forall|y: u64|
                y != cont_id ==> p1.containers@.contains(y) == p0.containers@.contains(y)
        }
}

/// The effect of a successful unload: the container left the manifest (the
/// remaining order is unspecified) and entered the current port's
/// inventory.
pub open spec fn unloaded(w0: World, w1: World, ship_id: u64, cont_id: u64) -> bool {
    let s0 = ship_at(w0.ships@, ship_id);
    &&& w1.containers@ == w0.containers@
    &&& w1.ships@.len() == w0.ships@.len()
    &&& forall|j: int|
        0 <= j < w0.ships@.len() && w0.ships@[j].id != ship_id ==> w1.ships@[j]
            == w0.ships@[j]
    &&& forall|j: int|
        0 <= j < w0.ships@.len() && w0.ships@[j].id == ship_id ==> {
            let sj0 = w0.ships@[j];
            let sj1 = w1.ships@[j];
            &&& sj1 == ship_with_manifest(sj0, sj1.containers)
            &&& sj1.containers@.no_duplicates()
            &&& !sj1.containers@.contains(cont_id)
            &&& sj1.containers@.len() == sj0.containers@.len() - 1
            &&& forall|y: u64|
                y != cont_id ==> sj1.containers@.contains(y) == sj0.containers@.contains(y)
        }
    &&& w1.ports@.len() == w0.ports@.len()
    &&& forall|i: int|
        0 <= i < w0.ports@.len() && w0.ports@[i].id != s0.current_port ==> w1.ports@[i]
            == w0.ports@[i]
    &&& forall|i: int|
        0 <= i < w0.ports@.len() && w0.ports@[i].id == s0.current_port ==> {
            let p0 = w0.ports@[i];
            let p1 = w1.ports@[i];
            &&& p1.id == p0.id
            &&& p1.latitude == p0.latitude
            &&& p1.longitude == p0.longitude
            &&& p1.current@ == p0.current@
            &&& p1.history@ == p0.history@
            &&& forall|y: u64|
                p1.containers@.contains(y) == (p0.containers@.contains(y) || y == cont_id)
        }
}

/// The effect of a refuel: the amount is added to the ship's tank,
/// saturating at the largest representable fuel level.
pub open spec fn refueled(w0: World, w1: World, ship_id: u64, amount: u64) -> bool {
    &&& w1.ports@ == w0.ports@
    &&& w1.containers@ == w0.containers@
    &&& w1.ships@.len() == w0.ships@.len()
    &&& forall|j: int|
        0 <= j < w0.ships@.len() && w0.ships@[j].id != ship_id ==> w1.ships@[j]
            == w0.ships@[j]
    &&& forall|j: int|
        0 <= j < w0.ships@.len() && w0.ships@[j].id == ship_id ==> w1.ships@[j]
            == ship_with_fuel(w0.ships@[j], crate::ship::sat_add_u64(w0.ships@[j].fuel, amount))
}

/// How applying one operation ended.
#[derive(Clone, Copy, Debug, PartialEq, Eq, Structural)]
pub enum OpOutcome {
    /// The operation took full effect.
    Applied,
    /// A load or sail was refused (capacity or fuel); nothing changed.
    Failed,
    /// A sail ended stranded at the intermediate refuelling port.
    PartiallyApplied,
    /// The operation referenced an unknown id and was skipped.
    Ignored,
    /// A creation named an id that already exists; nothing changed.
    DuplicateId,
}

/// The registries of the simulation.
#[derive(Debug)]
pub struct World {
    pub ports: Vec<Port>,
    pub ships: Vec<Ship>,
    pub containers: Vec<ContainerData>,
}

impl World {
    /// All ids are pairwise distinct within each registry.
    pub open spec fn ids_ok(&self) -> bool {
        &&& distinct_port_ids(self.ports@)
        &&& distinct_ship_ids(self.ships@)
        &&& distinct_cont_ids(self.containers@)
    }

    /// Every entity is structurally well-formed.
    pub open spec fn entities_wf(&self) -> bool {
        &&& forall|i: int| 0 <= i < self.ports@.len() ==> (#[trigger] self.ports@[i]).wf()
        &&& forall|j: int| 0 <= j < self.ships@.len() ==> (#[trigger] self.ships@[j]).wf()
        &&& all_conts_wf(self.containers@)
    }

    /// Every ship sits at a port that exists.
    pub open spec fn ships_placed(&self) -> bool {
        forall|j: int|
            0 <= j < self.ships@.len() ==> has_port(
                self.ports@,
                (#[trigger] self.ships@[j]).current_port,
            )
    }

    /// A port's presence set holds exactly the ships whose current port it
    /// is, and nothing but ship ids.
    pub open spec fn presence_ok(&self) -> bool {
        &&& forall|i: int, j: int|
            0 <= i < self.ports@.len() && 0 <= j < self.ships@.len() ==> ((
            #[trigger] self.ports@[i].current@.contains(#[trigger] self.ships@[j].id))
                <==> self.ships@[j].current_port == self.ports@[i].id)
        &&& forall|i: int, x: u64|
            0 <= i < self.ports@.len() && #[trigger] self.ports@[i].current@.contains(x)
                ==> has_ship(self.ships@, x)
    }

    /// Whatever an inventory or manifest holds is a registered container.
    pub open spec fn cargo_registered(&self) -> bool {
        &&& forall|i: int, x: u64|
            0 <= i < self.ports@.len() && #[trigger] self.ports@[i].containers@.contains(x)
                ==> has_cont(self.containers@, x)
        &&& forall|j: int, x: u64|
            0 <= j < self.ships@.len() && #[trigger] self.ships@[j].containers@.contains(x)
                ==> has_cont(self.containers@, x)
    }

    /// No container sits in two places.
    pub open spec fn cargo_unique(&self) -> bool {
        &&& forall|i1: int, i2: int, x: u64|
            0 <= i1 < self.ports@.len() && 0 <= i2 < self.ports@.len()
                && #[trigger] self.ports@[i1].containers@.contains(x)
                && #[trigger] self.ports@[i2].containers@.contains(x) ==> i1 == i2
        &&& forall|j1: int, j2: int, x: u64|
            0 <= j1 < self.ships@.len() && 0 <= j2 < self.ships@.len()
                && #[trigger] self.ships@[j1].containers@.contains(x)
                && #[trigger] self.ships@[j2].containers@.contains(x) ==> j1 == j2
        &&& forall|i: int, j: int, x: u64|
            0 <= i < self.ports@.len() && 0 <= j < self.ships@.len() ==> !(
            #[trigger] self.ports@[i].containers@.contains(x)
                && #[trigger] self.ships@[j].containers@.contains(x))
    }

    /// Whether a container id sits somewhere in the world.
    pub open spec fn placed(&self, cid: u64) -> bool {
        ||| exists|i: int|
            0 <= i < self.ports@.len() && (#[trigger] self.ports@[i]).containers@.contains(cid)
        ||| exists|j: int|
            0 <= j < self.ships@.len() && (#[trigger] self.ships@[j]).containers@.contains(cid)
    }

    /// Every registered container sits somewhere.
    pub open spec fn cargo_covered(&self) -> bool {
        forall|k: int|
            0 <= k < self.containers@.len() ==> self.placed(
                (#[trigger] self.containers@[k]).spec_id(),
            )
    }

    /// One ship's manifest respects its five capacity limits.
    pub open spec fn cap_ok(s: Ship, cs: Seq<ContainerData>) -> bool {
        &&& weight_sum(s.containers@, cs) <= s.total_weight_capacity
        &&& s.containers@.len() <= s.max_number_of_all_containers
        &&& heavy_count(s.containers@, cs) <= s.max_number_of_heavy_containers
        &&& refrigerated_count(s.containers@, cs) <= s.max_number_of_refrigerated_containers
        &&& liquid_count(s.containers@, cs) <= s.max_number_of_liquid_containers
    }

    /// Every ship respects its capacity limits.
    pub open spec fn capacities_ok(&self) -> bool {
        forall|j: int|
            0 <= j < self.ships@.len() ==> Self::cap_ok(
                #[trigger] self.ships@[j],
                self.containers@,
            )
    }

    /// The world invariant: distinct ids, well-formed entities, consistent
    /// presence bookkeeping, conservation of containers, and capacities.
    pub open spec fn wf(&self) -> bool {
        &&& self.ids_ok()
        &&& self.entities_wf()
        &&& self.ships_placed()
        &&& self.presence_ok()
        &&& self.cargo_registered()
        &&& self.cargo_unique()
        &&& self.cargo_covered()
        &&& self.capacities_ok()
    }

    /// An empty world.
    pub fn new() -> (w: World)
        ensures
            w.wf(),
            w.ports@ == Seq::<Port>::empty(),
            w.ships@ == Seq::<Ship>::empty(),
            w.containers@ == Seq::<ContainerData>::empty(),
    {
        World { ports: Vec::new(), ships: Vec::new(), containers: Vec::new() }
    }

    /// Creates a port; fails (returning `false`, with nothing changed) only
    /// when the id already exists.
    pub fn create_port(&mut self, id: u64, latitude: i64, longitude: i64) -> (r: bool)
        requires
            old(self).wf(),
            geo::valid_lat(latitude as int),
            geo::valid_lon(longitude as int),
        ensures
            final(self).wf(),
            r == !has_port(old(self).ports@, id),
            !r ==> *final(self) == *old(self),
            r ==> port_created(*old(self), *final(self), id, latitude, longitude),
    {
        match find_port(&self.ports, id) {
            Some(_) => false,
            None => {
                let ghost w0 = *self;
                let p = Port::new(id, latitude, longitude);
                self.ports.push(p);
                proof {
                    let n = w0.ports@.len() as int;
                    assert(self.ships@ == w0.ships@);
                    assert forall|j: int| 0 <= j < self.ships@.len()
                        implies has_port(self.ports@, (#[trigger] self.ships@[j]).current_port)
                    by {
                        assert(self.ships@[j] == w0.ships@[j]);
                        assert(has_port(w0.ports@, w0.ships@[j].current_port));
                        let k = choose|k: int|
                            0 <= k < w0.ports@.len() && w0.ports@[k].id
                                == w0.ships@[j].current_port;
                        assert(self.ports@[k].id == self.ships@[j].current_port);
                    }
                    assert(!has_port(w0.ports@, id));
                    assert forall|i: int, j: int|
                        0 <= i < self.ports@.len() && 0 <= j < self.ships@.len()
                        implies ((#[trigger] self.ports@[i].current@.contains(
                            #[trigger] self.ships@[j].id,
                        )) <==> self.ships@[j].current_port == self.ports@[i].id) by {
                        assert(self.ships@[j] == w0.ships@[j]);
                        if i < n {
                            assert(self.ports@[i] == w0.ports@[i]);
                            assert(w0.ports@[i].current@.contains(w0.ships@[j].id)
                                <==> w0.ships@[j].current_port == w0.ports@[i].id);
                        } else {
                            assert(self.ports@[i].current@.len() == 0);
                            assert(!self.ports@[i].current@.contains(self.ships@[j].id));
                            if self.ships@[j].current_port == id {
                                assert(has_port(w0.ports@, w0.ships@[j].current_port));
                                let k = choose|k: int|
                                    0 <= k < w0.ports@.len() && w0.ports@[k].id
                                        == w0.ships@[j].current_port;
                                assert(has_port(w0.ports@, id));
                            }
                        }
                    }
                    assert forall|i: int, x: u64|
                        0 <= i < self.ports@.len()
                            && #[trigger] self.ports@[i].current@.contains(x)
                        implies has_ship(self.ships@, x) by {
                        if i < n {
                            assert(w0.ports@[i].current@.contains(x));
                        } else {
                            assert(self.ports@[i].current@.len() == 0);
                        }
                    }
                    assert forall|k: int| 0 <= k < self.containers@.len()
                        implies self.placed((#[trigger] self.containers@[k]).spec_id()) by {
                        assert(w0.placed(w0.containers@[k].spec_id()));
                        if exists|i: int|
                            0 <= i < w0.ports@.len()
                                && (#[trigger] w0.ports@[i]).containers@.contains(
                                w0.containers@[k].spec_id(),
                            ) {
                            let i = choose|i: int|
                                0 <= i < w0.ports@.len()
                                    && (#[trigger] w0.ports@[i]).containers@.contains(
                                    w0.containers@[k].spec_id(),
                                );
                            assert(self.ports@[i].containers@.contains(
                                self.containers@[k].spec_id(),
                            ));
                        }
                    }
                }
                true
            },
        }
    }

    /// Creates a ship at an existing port, with no fuel and an empty
    /// manifest. A duplicate ship id is refused distinctly; an unknown port
    /// id makes the operation a no-op.
    pub fn create_ship(
        &mut self,
        id: u64,
        port_id: u64,
        total_weight_capacity: u64,
        max_number_of_all_containers: u64,
        max_number_of_heavy_containers: u64,
        max_number_of_refrigerated_containers: u64,
        max_number_of_liquid_containers: u64,
        fuel_consumption_per_km: u64,
    ) -> (r: OpOutcome)
        requires
            old(self).wf(),
        ensures
            final(self).wf(),
            r == (if has_ship(old(self).ships@, id) {
                OpOutcome::DuplicateId
            } else if !has_port(old(self).ports@, port_id) {
                OpOutcome::Ignored
            } else {
                OpOutcome::Applied
            }),
            r != OpOutcome::Applied ==> *final(self) == *old(self),
            r == OpOutcome::Applied ==> ship_created(
                *old(self),
                *final(self),
                id,
                port_id,
                total_weight_capacity,
                max_number_of_all_containers,
                max_number_of_heavy_containers,
                max_number_of_refrigerated_containers,
                max_number_of_liquid_containers,
                fuel_consumption_per_km,
            ),
    {
        match find_ship(&self.ships, id) {
            Some(_) => OpOutcome::DuplicateId,
            None => {
                match find_port(&self.ports, port_id) {
                    None => OpOutcome::Ignored,
                    Some(pi) => {
                        let ghost w0 = *self;
                        let s = Ship::new(
                            id,
                            port_id,
                            total_weight_capacity,
                            max_number_of_all_containers,
                            max_number_of_heavy_containers,
                            max_number_of_refrigerated_containers,
                            max_number_of_liquid_containers,
                            fuel_consumption_per_km,
                        );
                        self.ships.push(s);
                        let p = &mut self.ports[pi];
                        p.incoming_ship(id);
                        proof {
                            lemma_wf_after_create_ship(w0, *self, id, port_id, pi as int);
                        }
                        OpOutcome::Applied
                    },
                }
            },
        }
    }

    /// Registers a fuelled amount: unknown ship ids are skipped.
    pub fn refuel(&mut self, ship_id: u64, amount: u64) -> (r: OpOutcome)
        requires
            old(self).wf(),
        ensures
            final(self).wf(),
            r == (if has_ship(old(self).ships@, ship_id) {
                OpOutcome::Applied
            } else {
                OpOutcome::Ignored
            }),
            r == OpOutcome::Ignored ==> *final(self) == *old(self),
            r == OpOutcome::Applied ==> refueled(*old(self), *final(self), ship_id, amount),
    {
        match find_ship(&self.ships, ship_id) {
            None => OpOutcome::Ignored,
            Some(si) => {
                let ghost w0 = *self;
                let s = &mut self.ships[si];
                s.re_fuel(amount);
                proof {
                    assert forall|j: int|
                        0 <= j < w0.ships@.len() && w0.ships@[j].id == ship_id
                        implies self.ships@[j] == ship_with_fuel(
                            w0.ships@[j],
                            crate::ship::sat_add_u64(w0.ships@[j].fuel, amount),
                        ) by {
                        assert(j == si as int);
                    }
                    lemma_wf_fuel_only(w0, *self);
                }
                OpOutcome::Applied
            },
        }
    }
}

impl World {
    /// Whether a load of `cont_id` onto `ship_id` must succeed: the ship
    /// exists, the container sits in the ship's current port, and all five
    /// capacity limits still hold with the container added.
    pub open spec fn load_allowed(&self, ship_id: u64, cont_id: u64) -> bool {
        let s = ship_at(self.ships@, ship_id);
        let p = port_at(self.ports@, s.current_port);
        let c = cont_at(self.containers@, cont_id);
        &&& has_ship(self.ships@, ship_id)
        &&& p.containers@.contains(cont_id)
        &&& weight_sum(s.containers@, self.containers@) + c.spec_weight()
            <= s.total_weight_capacity
        &&& s.containers@.len() + 1 <= s.max_number_of_all_containers
        &&& heavy_count(s.containers@, self.containers@) + (if c.is_heavy_class() {
            1int
        } else {
            0int
        }) <= s.max_number_of_heavy_containers
        &&& refrigerated_count(s.containers@, self.containers@) + (if c.is_refrigerated() {
            1int
        } else {
            0int
        }) <= s.max_number_of_refrigerated_containers
        &&& liquid_count(s.containers@, self.containers@) + (if c.is_liquid() {
            1int
        } else {
            0int
        }) <= s.max_number_of_liquid_containers
    }

    /// Creates and stores a classified container. A duplicate container id
    /// is refused distinctly; an unknown port id creates a placeholder port
    /// at coordinates (0, 0) holding the new container.
    pub fn create_container(
        &mut self,
        id: u64,
        weight: u64,
        special: Option<&str>,
        port_id: u64,
    ) -> (r: OpOutcome)
        requires
            old(self).wf(),
            weight <= MAX_WEIGHT,
        ensures
            final(self).wf(),
            r == (if has_cont(old(self).containers@, id) {
                OpOutcome::DuplicateId
            } else {
                OpOutcome::Applied
            }),
            r == OpOutcome::DuplicateId ==> *final(self) == *old(self),
            r == OpOutcome::Applied ==> container_created(
                *old(self),
                *final(self),
                id,
                weight,
                marker_view(special),
                port_id,
            ),
    {
        match find_container(&self.containers, id) {
            Some(_) => OpOutcome::DuplicateId,
            None => {
                let pi: usize = match find_port(&self.ports, port_id) {
                    Some(pi) => pi,
                    None => {
                        let _ = self.create_port(port_id, 0, 0);
                        self.ports.len() - 1
                    },
                };
                let ghost w0 = *self;
                proof {
                    assert(w0.ports@[pi as int].id == port_id);
                    assert(!has_cont(w0.containers@, id));
                }
                let c = classify(id, weight, special);
                self.containers.push(c);
                let p = &mut self.ports[pi];
                p.add_container(id);
                proof {
                    lemma_wf_after_create_container(
                        w0,
                        *self,
                        classify_spec(id, weight, marker_view(special)),
                        pi as int,
                    );
                }
                OpOutcome::Applied
            },
        }
    }

    /// Loads a container onto a ship. The preconditions of [`World::load_allowed`]
    /// are checked in order (presence in the ship's port, then the five
    /// capacity limits), failing fast with no mutation; on success the
    /// container moves from the port inventory to the end of the manifest.
    pub fn load(&mut self, ship_id: u64, cont_id: u64) -> (r: bool)
        requires
            old(self).wf(),
        ensures
            final(self).wf(),
            r == old(self).load_allowed(ship_id, cont_id),
            !r ==> *final(self) == *old(self),
            r ==> loaded(*old(self), *final(self), ship_id, cont_id),
    {
        let si: usize = match find_ship(&self.ships, ship_id) {
            Some(si) => si,
            None => {
                return false;
            },
        };
        proof {
            lemma_ship_at_is(self.ships@, ship_id, si as int);
        }
        let s_port = self.ships[si].current_port;
        let pi: usize = match find_port(&self.ports, s_port) {
            Some(pi) => pi,
            None => {
                proof {
                    assert(has_port(self.ports@, self.ships@[si as int].current_port));
                }
                unreached()
            },
        };
        proof {
            lemma_port_at_is(self.ports@, s_port, pi as int);
        }
        if !self.ports[pi].has_container(cont_id) {
            return false;
        }
        let ci: usize = match find_container(&self.containers, cont_id) {
            Some(ci) => ci,
            None => {
                proof {
                    assert(self.ports@[pi as int].containers@.contains(cont_id));
                }
                unreached()
            },
        };
        proof {
            lemma_cont_at_is(self.containers@, cont_id, ci as int);
            assert(World::cap_ok(self.ships@[si as int], self.containers@));
            assert forall|t: int| 0 <= t < self.ships@[si as int].containers@.len()
                implies has_cont(
                self.containers@,
                #[trigger] self.ships@[si as int].containers@[t],
            ) by {
                assert(self.ships@[si as int].containers@.contains(
                    self.ships@[si as int].containers@[t],
                ));
            }
        }
        let stats = crate::ship::manifest_stats(&self.ships[si].containers, &self.containers);
        let c_weight = self.containers[ci].weight();
        let cap = self.ships[si].total_weight_capacity;
        if stats.weight + (c_weight as u128) > cap as u128 {
            return false;
        }
        if (self.ships[si].containers.len() as u128) + 1 > (
        self.ships[si].max_number_of_all_containers as u128) {
            return false;
        }
        let is_heavy_class = match &self.containers[ci] {
            ContainerData::Basic { .. } => false,
            _ => true,
        };
        let is_reefer = matches!(&self.containers[ci], ContainerData::Refrigerated { .. });
        let is_liq = matches!(&self.containers[ci], ContainerData::Liquid { .. });
        let h_inc: u128 = if is_heavy_class {
            1
        } else {
            0
        };
        if (stats.heavy as u128) + h_inc > (
        self.ships[si].max_number_of_heavy_containers as u128) {
            return false;
        }
        let r_inc: u128 = if is_reefer {
            1
        } else {
            0
        };
        if (stats.refrigerated as u128) + r_inc > (
        self.ships[si].max_number_of_refrigerated_containers as u128) {
            return false;
        }
        let l_inc: u128 = if is_liq {
            1
        } else {
            0
        };
        if (stats.liquid as u128) + l_inc > (
        self.ships[si].max_number_of_liquid_containers as u128) {
            return false;
        }
        let ghost w0 = *self;
        let p = &mut self.ports[pi];
        p.remove_container(cont_id);
        let sh = &mut self.ships[si];
        sh.containers.push(cont_id);
        proof {
            assert(w0.load_allowed(ship_id, cont_id));
            lemma_wf_after_load(w0, *self, si as int, pi as int, cont_id);
        }
        true
    }

    /// Unloads a container from a ship into the ship's current port; fails
    /// (with nothing changed) when the ship is unknown or the container is
    /// not aboard. The manifest order after a removal is not preserved.
    pub fn un_load(&mut self, ship_id: u64, cont_id: u64) -> (r: bool)
        requires
            old(self).wf(),
        ensures
            final(self).wf(),
            r == (has_ship(old(self).ships@, ship_id) && ship_at(
                old(self).ships@,
                ship_id,
            ).containers@.contains(cont_id)),
            !r ==> *final(self) == *old(self),
            r ==> unloaded(*old(self), *final(self), ship_id, cont_id),
    {
        let si: usize = match find_ship(&self.ships, ship_id) {
            Some(si) => si,
            None => {
                return false;
            },
        };
        proof {
            lemma_ship_at_is(self.ships@, ship_id, si as int);
        }
        let s_port = self.ships[si].current_port;
        let pi: usize = match find_port(&self.ports, s_port) {
            Some(pi) => pi,
            None => {
                proof {
                    assert(has_port(self.ports@, self.ships@[si as int].current_port));
                }
                unreached()
            },
        };
        proof {
            lemma_port_at_is(self.ports@, s_port, pi as int);
        }
        if !crate::idvec::contains_id(&self.ships[si].containers, cont_id) {
            return false;
        }
        let ghost w0 = *self;
        let sh = &mut self.ships[si];
        let _ = crate::idvec::remove_id(&mut sh.containers, cont_id);
        let p = &mut self.ports[pi];
        p.add_container(cont_id);
        proof {
            lemma_wf_after_unload(w0, *self, si as int, pi as int, cont_id);
        }
        true
    }
}

/// Fixed top-up granted at the intermediate port of a detour, in
/// milli-units (10000 fuel units).
pub const DETOUR_TOPUP: u64 = 10_000_000;

/// How a sail request ended.
#[derive(Clone, Copy, Debug, PartialEq, Eq, Structural)]
pub enum SailOutcome {
    /// The ship id is unknown; the request was skipped.
    UnknownShip,
    /// The destination port id is unknown; the request was skipped.
    UnknownDestination,
    /// The ship reached the destination in one leg.
    Direct,
    /// The ship refuelled at the nearest port and then reached the
    /// destination.
    ViaDetour,
    /// The ship reached the nearest port and refuelled there, but still
    /// cannot afford the remaining leg: it stays there.
    Stranded,
    /// Not even the nearest port is reachable (or no other port exists):
    /// nothing moved and no fuel was spent.
    Failed,
}

/// Fuel needed for one leg, in milli-units: distance times the ship's rate,
/// plus the cargo surcharge, which is charged once per leg and does not
/// scale with distance (so it is owed in full even for a zero-distance leg).
pub open spec fn required_fuel(d_mkm: int, rate: int, surcharge: int) -> int {
    d_mkm * rate / (crate::MILLI as int) + surcharge
}

/// Distance between two ports, in milli-kilometres.
pub open spec fn port_dist(p: Port, q: Port) -> int {
    geo::dist_mkm(p.latitude as int, p.longitude as int, q.latitude as int, q.longitude as int)
}

/// Port `ps[i]` is no farther from `cur` than `ps[j]`, ties broken by the
/// lower port id.
pub open spec fn detour_no_worse(ps: Seq<Port>, cur: Port, i: int, j: int) -> bool {
    let di = port_dist(cur, ps[i]);
    let dj = port_dist(cur, ps[j]);
    di < dj || (di == dj && ps[i].id <= ps[j].id)
}

/// Port `ps[i]` is the nearest port other than `cur` itself (unique, since
/// ties go to the lowest id and ids are distinct).
pub open spec fn is_nearest_other(ps: Seq<Port>, cur: Port, i: int) -> bool {
    &&& 0 <= i < ps.len()
    &&& ps[i].id != cur.id
    &&& forall|j: int|
        0 <= j < ps.len() && (#[trigger] ps[j]).id != cur.id ==> detour_no_worse(ps, cur, i, j)
}

/// The ship `s0` moved to port `pid` with fuel `f`.
pub open spec fn ship_moved_to(s0: Ship, pid: u64, f: u64) -> Ship {
    Ship {
        id: s0.id,
        fuel: f,
        current_port: pid,
        total_weight_capacity: s0.total_weight_capacity,
        max_number_of_all_containers: s0.max_number_of_all_containers,
        max_number_of_heavy_containers: s0.max_number_of_heavy_containers,
        max_number_of_refrigerated_containers: s0.max_number_of_refrigerated_containers,
        max_number_of_liquid_containers: s0.max_number_of_liquid_containers,
        fuel_consumption_per_km: s0.fuel_consumption_per_km,
        containers: s0.containers,
    }
}

/// The whole effect of a voyage on the world: the ship `sid` now sits at
/// `final_pid` with fuel `fuel1`; every port it arrived at (`visited`, by
/// id) keeps it in its history; the port it left no longer lists it as
/// present; nothing else changed.
pub open spec fn sail_moved(
    w0: World,
    w1: World,
    sid: u64,
    final_pid: u64,
    visited: Set<u64>,
    fuel1: u64,
) -> bool {
    &&& w1.containers@ == w0.containers@
    &&& w1.ships@.len() == w0.ships@.len()
    &&& w1.ports@.len() == w0.ports@.len()
    &&& forall|j: int|
        0 <= j < w0.ships@.len() && (#[trigger] w0.ships@[j]).id != sid ==> w1.ships@[j]
            == w0.ships@[j]
    &&& forall|j: int|
        0 <= j < w0.ships@.len() && (#[trigger] w0.ships@[j]).id == sid ==> w1.ships@[j]
            == ship_moved_to(w0.ships@[j], final_pid, fuel1)
    &&& forall|i: int|
        0 <= i < w0.ports@.len() ==> {
            let p0 = #[trigger] w0.ports@[i];
            let p1 = w1.ports@[i];
            &&& p1.id == p0.id
            &&& p1.latitude == p0.latitude
            &&& p1.longitude == p0.longitude
            &&& p1.containers@ == p0.containers@
            &&& p1.current@.no_duplicates()
            &&& p1.history@.no_duplicates()
            &&& forall|y: u64| y != sid ==> p1.current@.contains(y) == p0.current@.contains(y)
            &&& (p1.current@.contains(sid) <==> p0.id == final_pid)
            &&& forall|y: u64| y != sid ==> p1.history@.contains(y) == p0.history@.contains(y)
            &&& (p1.history@.contains(sid) <==> (p0.history@.contains(sid) || visited.contains(
                p0.id,
            )))
        }
}

/// The contract of [`World::sail`], case by case.
pub open spec fn sail_spec(
    w0: World,
    w1: World,
    ship_id: u64,
    dest_port_id: u64,
    r: SailOutcome,
) -> bool {
    let s = ship_at(w0.ships@, ship_id);
    let cur = port_at(w0.ports@, s.current_port);
    let dst = port_at(w0.ports@, dest_port_id);
    let sur = surcharge_sum(s.containers@, w0.containers@);
    let req = required_fuel(port_dist(cur, dst), s.fuel_consumption_per_km as int, sur);
    if !has_ship(w0.ships@, ship_id) {
        r == SailOutcome::UnknownShip && w1 == w0
    } else if !has_port(w0.ports@, dest_port_id) {
        r == SailOutcome::UnknownDestination && w1 == w0
    } else if s.fuel >= req {
        r == SailOutcome::Direct && sail_moved(
            w0,
            w1,
            ship_id,
            dest_port_id,
            set![dest_port_id],
            (s.fuel - req) as u64,
        )
    } else if w0.ports@.len() <= 1 {
        r == SailOutcome::Failed && w1 == w0
    } else {
        exists|ni: int|
            #[trigger] is_nearest_other(w0.ports@, cur, ni) && sail_detour_spec(
                w0,
                w1,
                ship_id,
                dest_port_id,
                ni,
                r,
            )
    }
}

/// The detour cases of [`sail_spec`], relative to the nearest other port
/// `ps[ni]`: either even that leg is unaffordable (nothing happens), or the
/// ship moves there, gains the fixed top-up, and completes the remaining
/// leg exactly when the recomputed requirement fits the new fuel level.
/// The cargo surcharge is charged once per leg travelled.
pub open spec fn sail_detour_spec(
    w0: World,
    w1: World,
    ship_id: u64,
    dest_port_id: u64,
    ni: int,
    r: SailOutcome,
) -> bool {
    let s = ship_at(w0.ships@, ship_id);
    let cur = port_at(w0.ports@, s.current_port);
    let dst = port_at(w0.ports@, dest_port_id);
    let sur = surcharge_sum(s.containers@, w0.containers@);
    let mid = w0.ports@[ni];
    let leg_req = required_fuel(port_dist(cur, mid), s.fuel_consumption_per_km as int, sur);
    if s.fuel < leg_req {
        r == SailOutcome::Failed && w1 == w0
    } else {
        let fuel_mid = crate::ship::sat_add_u64((s.fuel - leg_req) as u64, DETOUR_TOPUP);
        let req2 = required_fuel(port_dist(mid, dst), s.fuel_consumption_per_km as int, sur);
        if fuel_mid >= req2 {
            r == SailOutcome::ViaDetour && sail_moved(
                w0,
                w1,
                ship_id,
                dest_port_id,
                set![mid.id, dest_port_id],
                (fuel_mid - req2) as u64,
            )
        } else {
            r == SailOutcome::Stranded && sail_moved(
                w0,
                w1,
                ship_id,
                mid.id,
                set![mid.id],
                fuel_mid,
            )
        }
    }
}

/// The ship `s0` with its manifest replaced.
pub open spec fn ship_with_manifest(s0: Ship, m: Vec<u64>) -> Ship {
    Ship {
        id: s0.id,
        fuel: s0.fuel,
        current_port: s0.current_port,
        total_weight_capacity: s0.total_weight_capacity,
        max_number_of_all_containers: s0.max_number_of_all_containers,
        max_number_of_heavy_containers: s0.max_number_of_heavy_containers,
        max_number_of_refrigerated_containers: s0.max_number_of_refrigerated_containers,
        max_number_of_liquid_containers: s0.max_number_of_liquid_containers,
        fuel_consumption_per_km: s0.fuel_consumption_per_km,
        containers: m,
    }
}

/// Well-formedness is kept by a change that touches nothing but ship fuel
/// levels.
proof fn lemma_wf_fuel_only(w0: World, w1: World)
    requires
        w0.wf(),
        w1.ports@ == w0.ports@,
        w1.containers@ == w0.containers@,
        w1.ships@.len() == w0.ships@.len(),
        forall|j: int|
            0 <= j < w0.ships@.len() ==> {
                let s0 = #[trigger] w0.ships@[j];
                let s1 = #[trigger] w1.ships@[j];
                &&& s1.id == s0.id
                &&& s1.current_port == s0.current_port
                &&& s1.containers == s0.containers
                &&& s1.total_weight_capacity == s0.total_weight_capacity
                &&& s1.max_number_of_all_containers == s0.max_number_of_all_containers
                &&& s1.max_number_of_heavy_containers == s0.max_number_of_heavy_containers
                &&& s1.max_number_of_refrigerated_containers
                    == s0.max_number_of_refrigerated_containers
                &&& s1.max_number_of_liquid_containers == s0.max_number_of_liquid_containers
            },
    ensures
        w1.wf(),
{
    assert forall|j1: int, j2: int|
        0 <= j1 < w1.ships@.len() && 0 <= j2 < w1.ships@.len() && j1 != j2
        implies w1.ships@[j1].id != w1.ships@[j2].id by {
        assert(w0.ships@[j1].id != w0.ships@[j2].id);
    }
    assert forall|j: int| 0 <= j < w1.ships@.len()
        implies (#[trigger] w1.ships@[j]).wf() by {
        assert(w0.ships@[j].wf());
    }
    assert forall|j: int| 0 <= j < w1.ships@.len()
        implies has_port(w1.ports@, (#[trigger] w1.ships@[j]).current_port) by {
        assert(has_port(w0.ports@, w0.ships@[j].current_port));
    }
    assert forall|i: int, j: int| 0 <= i < w1.ports@.len() && 0 <= j < w1.ships@.len()
        implies ((#[trigger] w1.ports@[i].current@.contains(#[trigger] w1.ships@[j].id))
            <==> w1.ships@[j].current_port == w1.ports@[i].id) by {
        assert(w0.ports@[i].current@.contains(w0.ships@[j].id) <==> w0.ships@[j].current_port
            == w0.ports@[i].id);
    }
    assert forall|i: int, x: u64|
        0 <= i < w1.ports@.len() && #[trigger] w1.ports@[i].current@.contains(x)
        implies has_ship(w1.ships@, x) by {
        assert(w0.ports@[i].current@.contains(x));
        let k = choose|k: int| 0 <= k < w0.ships@.len() && w0.ships@[k].id == x;
        assert(w1.ships@[k].id == x);
    }
    assert forall|j: int, x: u64|
        0 <= j < w1.ships@.len() && #[trigger] w1.ships@[j].containers@.contains(x)
        implies has_cont(w1.containers@, x) by {
        assert(w0.ships@[j].containers@.contains(x));
    }
    assert forall|j1: int, j2: int, x: u64|
        0 <= j1 < w1.ships@.len() && 0 <= j2 < w1.ships@.len()
            && #[trigger] w1.ships@[j1].containers@.contains(x)
            && #[trigger] w1.ships@[j2].containers@.contains(x)
        implies j1 == j2 by {
        assert(w0.ships@[j1].containers@.contains(x) && w0.ships@[j2].containers@.contains(x));
    }
    assert forall|i: int, j: int, x: u64|
        0 <= i < w1.ports@.len() && 0 <= j < w1.ships@.len()
        implies !(#[trigger] w1.ports@[i].containers@.contains(x)
            && #[trigger] w1.ships@[j].containers@.contains(x)) by {
        assert(!(w0.ports@[i].containers@.contains(x)
            && w0.ships@[j].containers@.contains(x)));
    }
    assert forall|k: int| 0 <= k < w1.containers@.len()
        implies w1.placed((#[trigger] w1.containers@[k]).spec_id()) by {
        lemma_placed_same(w0, w1, w1.containers@[k].spec_id());
    }
    assert forall|j: int| 0 <= j < w1.ships@.len()
        implies World::cap_ok(#[trigger] w1.ships@[j], w1.containers@) by {
        assert(World::cap_ok(w0.ships@[j], w0.containers@));
        assert(w1.ships@[j].containers@ == w0.ships@[j].containers@);
    }
}

impl World {
    /// One leg of a voyage: the ship leaves its current port, arrives at
    /// `to_pi`, and its fuel is set to `new_fuel` (the caller accounts for
    /// the leg's cost and any top-up).
    fn move_leg(&mut self, si: usize, from_pi: usize, to_pi: usize, new_fuel: u64)
        requires
            old(self).wf(),
            si < old(self).ships@.len(),
            from_pi < old(self).ports@.len(),
            to_pi < old(self).ports@.len(),
            old(self).ports@[from_pi as int].id == old(self).ships@[si as int].current_port,
        ensures
            final(self).wf(),
            sail_moved(
                *old(self),
                *final(self),
                old(self).ships@[si as int].id,
                old(self).ports@[to_pi as int].id,
                set![old(self).ports@[to_pi as int].id],
                new_fuel,
            ),
    {
        let ghost w0 = *self;
        let sid = self.ships[si].id;
        let to_id = self.ports[to_pi].id;
        let p = &mut self.ports[from_pi];
        p.outgoing_ship(sid);
        let q = &mut self.ports[to_pi];
        q.incoming_ship(sid);
        let sh = &mut self.ships[si];
        sh.current_port = to_id;
        sh.fuel = new_fuel;
        proof {
            let ghost w1 = *self;
            let visited = set![to_id];
            assert forall|j: int|
                0 <= j < w0.ships@.len() && (#[trigger] w0.ships@[j]).id == sid
                implies w1.ships@[j] == ship_moved_to(w0.ships@[j], to_id, new_fuel) by {
                assert(j == si as int);
            }
            assert forall|i: int| 0 <= i < w0.ports@.len()
                implies {
                    let p0 = #[trigger] w0.ports@[i];
                    let p1 = w1.ports@[i];
                    &&& p1.id == p0.id
                    &&& p1.latitude == p0.latitude
                    &&& p1.longitude == p0.longitude
                    &&& p1.containers@ == p0.containers@
                    &&& p1.current@.no_duplicates()
                    &&& p1.history@.no_duplicates()
                    &&& forall|y: u64|
                        y != sid ==> p1.current@.contains(y) == p0.current@.contains(y)
                    &&& (p1.current@.contains(sid) <==> p0.id == to_id)
                    &&& forall|y: u64|
                        y != sid ==> p1.history@.contains(y) == p0.history@.contains(y)
                    &&& (p1.history@.contains(sid) <==> (p0.history@.contains(sid)
                        || visited.contains(p0.id)))
                } by {
                if i != from_pi as int && i != to_pi as int {
                    assert(w1.ports@[i] == w0.ports@[i]);
                    assert(w0.ports@[i].current@.contains(w0.ships@[si as int].id)
                        <==> w0.ships@[si as int].current_port == w0.ports@[i].id);
                    assert(w0.ports@[i].id != w0.ports@[from_pi as int].id);
                    assert(w0.ports@[i].id != to_id);
                    assert(!visited.contains(w0.ports@[i].id));
                }
            }
            lemma_wf_after_sail_moved(w0, w1, sid, to_id, visited, new_fuel);
        }
    }

    /// Sails a ship toward a destination port, the central voyage
    /// algorithm: an unknown ship or destination is skipped; a direct leg
    /// is taken when the fuel covers its cost (distance times rate plus the
    /// cargo surcharge); otherwise the ship tries a single detour through
    /// the nearest other port (ties by lowest id), refuels a fixed top-up
    /// there, and completes the remaining leg if the recomputed cost fits,
    /// else stays stranded there. If even the nearest port is unaffordable,
    /// or no other port exists, nothing moves and no fuel is spent.
    #[verifier::rlimit(100)]
    pub fn sail(&mut self, ship_id: u64, dest_port_id: u64) -> (r: SailOutcome)
        requires
            old(self).wf(),
        ensures
            final(self).wf(),
            sail_spec(*old(self), *final(self), ship_id, dest_port_id, r),
    {
        let ghost w0 = *self;
        let si: usize = match find_ship(&self.ships, ship_id) {
            Some(si) => si,
            None => {
                return SailOutcome::UnknownShip;
            },
        };
        proof {
            lemma_ship_at_is(self.ships@, ship_id, si as int);
        }
        let dst_pi: usize = match find_port(&self.ports, dest_port_id) {
            Some(p) => p,
            None => {
                return SailOutcome::UnknownDestination;
            },
        };
        let cur_pid = self.ships[si].current_port;
        let cur_pi: usize = match find_port(&self.ports, cur_pid) {
            Some(p) => p,
            None => {
                proof {
                    assert(has_port(self.ports@, self.ships@[si as int].current_port));
                }
                unreached()
            },
        };
        proof {
            lemma_port_at_is(self.ports@, dest_port_id, dst_pi as int);
            lemma_port_at_is(self.ports@, cur_pid, cur_pi as int);
            assert forall|t: int| 0 <= t < self.ships@[si as int].containers@.len()
                implies has_cont(
                self.containers@,
                #[trigger] self.ships@[si as int].containers@[t],
            ) by {
                assert(self.ships@[si as int].containers@.contains(
                    self.ships@[si as int].containers@[t],
                ));
            }
        }
        let stats = crate::ship::manifest_stats(&self.ships[si].containers, &self.containers);
        let sur: u128 = stats.surcharge;
        let rate = self.ships[si].fuel_consumption_per_km;
        let fuel = self.ships[si].fuel;
        let d = self.ports[cur_pi].get_distance(&self.ports[dst_pi]);
        proof {
            assert((d as int) * (rate as int) <= (geo::DIST_MKM_MAX as int) * (u64::MAX as int))
                by (nonlinear_arith)
                requires
                    0 <= d as int <= geo::DIST_MKM_MAX as int,
                    0 <= rate as int <= u64::MAX as int,
            ;
        }
        let req: u128 = (d as u128) * (rate as u128) / (crate::MILLI as u128) + sur;
        if (fuel as u128) >= req {
            let new_fuel: u64 = ((fuel as u128) - req) as u64;
            self.move_leg(si, cur_pi, dst_pi, new_fuel);
            return SailOutcome::Direct;
        }
        if self.ports.len() <= 1 {
            return SailOutcome::Failed;
        }
        // nearest-other-port search: smallest distance, ties by lowest id
        let ghost cur = self.ports@[cur_pi as int];
        let mut best: usize = 0;
        let mut best_d: u64 = 0;
        let mut have: bool = false;
        let mut i: usize = 0;
        while i < self.ports.len()
            invariant
                self == old(self),
                i <= self.ports@.len(),
                cur == self.ports@[cur_pi as int],
                cur_pi < self.ports@.len(),
                self.wf(),
                !have ==> forall|j: int| 0 <= j < i ==> (#[trigger] self.ports@[j]).id == cur.id,
                have ==> {
                    &&& best < self.ports@.len()
                    &&& self.ports@[best as int].id != cur.id
                    &&& best_d <= geo::DIST_MKM_MAX
                    &&& best_d as int == port_dist(cur, self.ports@[best as int])
                    &&& forall|j: int|
                        0 <= j < i && (#[trigger] self.ports@[j]).id != cur.id
                            ==> detour_no_worse(self.ports@, cur, best as int, j)
                },
            decreases self.ports@.len() - i,
        {
            if self.ports[i].id != cur_pid {
                let di = self.ports[cur_pi].get_distance(&self.ports[i]);
                if !have || di < best_d || (di == best_d && self.ports[i].id
                    < self.ports[best].id) {
                    best = i;
                    best_d = di;
                    have = true;
                }
            }
            i += 1;
        }
        proof {
            if !have {
                assert(self.ports@[cur_pi as int].id == cur.id);
                let other: int = if cur_pi == 0 {
                    1
                } else {
                    0
                };
                assert(self.ports@[other].id == cur.id);
                assert(false);
            }
            assert(is_nearest_other(self.ports@, cur, best as int));
        }
        let ni = best;
        let leg_d = best_d;
        proof {
            assert((leg_d as int) * (rate as int) <= (geo::DIST_MKM_MAX as int) * (
            u64::MAX as int)) by (nonlinear_arith)
                requires
                    0 <= leg_d as int <= geo::DIST_MKM_MAX as int,
                    0 <= rate as int <= u64::MAX as int,
            ;
        }
        let leg_req: u128 = (leg_d as u128) * (rate as u128) / (crate::MILLI as u128) + sur;
        if (fuel as u128) < leg_req {
            proof {
                assert(sail_detour_spec(w0, *self, ship_id, dest_port_id, best as int,
                    SailOutcome::Failed));
            }
            return SailOutcome::Failed;
        }
        let fuel_after_leg: u64 = ((fuel as u128) - leg_req) as u64;
        let fuel_mid: u64 = if fuel_after_leg > u64::MAX - DETOUR_TOPUP {
            u64::MAX
        } else {
            fuel_after_leg + DETOUR_TOPUP
        };
        let mid_pid = self.ports[ni].id;
        self.move_leg(si, cur_pi, ni, fuel_mid);
        let ghost wa = *self;
        proof {
            assert(self.ports@[ni as int].id == mid_pid);
            assert(self.ships@[si as int] == ship_moved_to(w0.ships@[si as int], mid_pid,
                fuel_mid));
            assert(self.ports@[dst_pi as int].latitude == w0.ports@[dst_pi as int].latitude);
        }
        let d2 = self.ports[ni].get_distance(&self.ports[dst_pi]);
        proof {
            assert((d2 as int) * (rate as int) <= (geo::DIST_MKM_MAX as int) * (
            u64::MAX as int)) by (nonlinear_arith)
                requires
                    0 <= d2 as int <= geo::DIST_MKM_MAX as int,
                    0 <= rate as int <= u64::MAX as int,
            ;
            assert(d2 as int == port_dist(w0.ports@[ni as int], port_at(
                w0.ports@,
                dest_port_id,
            )));
        }
        let req2: u128 = (d2 as u128) * (rate as u128) / (crate::MILLI as u128) + sur;
        if (fuel_mid as u128) >= req2 {
            let f2: u64 = ((fuel_mid as u128) - req2) as u64;
            self.move_leg(si, ni, dst_pi, f2);
            proof {
                lemma_sail_moved_compose(
                    w0,
                    wa,
                    *self,
                    ship_id,
                    mid_pid,
                    dest_port_id,
                    fuel_mid,
                    f2,
                );
                assert(sail_detour_spec(w0, *self, ship_id, dest_port_id, ni as int,
                    SailOutcome::ViaDetour));
            }
            SailOutcome::ViaDetour
        } else {
            proof {
                assert(sail_detour_spec(w0, *self, ship_id, dest_port_id, ni as int,
                    SailOutcome::Stranded));
            }
            SailOutcome::Stranded
        }
    }
}

/// Two composed voyage legs are one voyage: through the intermediate port
/// `mid_pid` and on to `dest_pid`, with both arrivals recorded.
proof fn lemma_sail_moved_compose(
    w0: World,
    wa: World,
    w1: World,
    sid: u64,
    mid_pid: u64,
    dest_pid: u64,
    fuel_mid: u64,
    fuel_end: u64,
)
    requires
        sail_moved(w0, wa, sid, mid_pid, set![mid_pid], fuel_mid),
        sail_moved(wa, w1, sid, dest_pid, set![dest_pid], fuel_end),
    ensures
        sail_moved(w0, w1, sid, dest_pid, set![mid_pid, dest_pid], fuel_end),
{
    assert forall|j: int| 0 <= j < w0.ships@.len() && (#[trigger] w0.ships@[j]).id != sid
        implies w1.ships@[j] == w0.ships@[j] by {
        assert(wa.ships@[j] == w0.ships@[j]);
    }
    assert forall|j: int| 0 <= j < w0.ships@.len() && (#[trigger] w0.ships@[j]).id == sid
        implies w1.ships@[j] == ship_moved_to(w0.ships@[j], dest_pid, fuel_end) by {
        assert(wa.ships@[j] == ship_moved_to(w0.ships@[j], mid_pid, fuel_mid));
        assert(wa.ships@[j].id == sid);
        assert(w1.ships@[j] == ship_moved_to(wa.ships@[j], dest_pid, fuel_end));
    }
    assert forall|i: int| 0 <= i < w0.ports@.len()
        implies {
            let p0 = #[trigger] w0.ports@[i];
            let p1 = w1.ports@[i];
            &&& p1.id == p0.id
            &&& p1.latitude == p0.latitude
            &&& p1.longitude == p0.longitude
            &&& p1.containers@ == p0.containers@
            &&& p1.current@.no_duplicates()
            &&& p1.history@.no_duplicates()
            &&& forall|y: u64| y != sid ==> p1.current@.contains(y) == p0.current@.contains(y)
            &&& (p1.current@.contains(sid) <==> p0.id == dest_pid)
            &&& forall|y: u64| y != sid ==> p1.history@.contains(y) == p0.history@.contains(y)
            &&& (p1.history@.contains(sid) <==> (p0.history@.contains(sid) || set![
                mid_pid,
                dest_pid,
            ].contains(p0.id)))
        } by {
        let p0 = w0.ports@[i];
        let pa = wa.ports@[i];
        let p1 = w1.ports@[i];
        assert(pa.id == p0.id);
        assert(pa.history@.contains(sid) <==> (p0.history@.contains(sid) || set![
            mid_pid,
        ].contains(p0.id)));
        assert(p1.history@.contains(sid) <==> (pa.history@.contains(sid) || set![
            dest_pid,
        ].contains(p0.id)));
        assert(set![mid_pid].contains(p0.id) == (p0.id == mid_pid));
        assert(set![dest_pid].contains(p0.id) == (p0.id == dest_pid));
        assert(set![mid_pid, dest_pid].contains(p0.id) == (p0.id == mid_pid || p0.id
            == dest_pid));
    }
}

/// Well-formedness is kept by a voyage's bookkeeping.
#[verifier::spinoff_prover]
proof fn lemma_wf_after_sail_moved(
    w0: World,
    w1: World,
    sid: u64,
    final_pid: u64,
    visited: Set<u64>,
    fuel1: u64,
)
    requires
        w0.wf(),
        has_ship(w0.ships@, sid),
        has_port(w0.ports@, final_pid),
        visited.contains(final_pid),
        sail_moved(w0, w1, sid, final_pid, visited, fuel1),
    ensures
        w1.wf(),
{
    assert forall|j1: int, j2: int|
        0 <= j1 < w1.ships@.len() && 0 <= j2 < w1.ships@.len() && j1 != j2
        implies w1.ships@[j1].id != w1.ships@[j2].id by {
        assert(w1.ships@[j1].id == w0.ships@[j1].id);
        assert(w1.ships@[j2].id == w0.ships@[j2].id);
    }
    assert forall|i1: int, i2: int|
        0 <= i1 < w1.ports@.len() && 0 <= i2 < w1.ports@.len() && i1 != i2
        implies w1.ports@[i1].id != w1.ports@[i2].id by {
        assert(w1.ports@[i1].id == w0.ports@[i1].id);
        assert(w1.ports@[i2].id == w0.ports@[i2].id);
    }
    assert forall|i: int| 0 <= i < w1.ports@.len() implies (#[trigger] w1.ports@[i]).wf() by {
        assert(w0.ports@[i].wf());
        assert forall|y: u64| w1.ports@[i].current@.contains(y)
            implies w1.ports@[i].history@.contains(y) by {
            if y != sid {
                assert(w0.ports@[i].current@.contains(y));
            } else {
                assert(w0.ports@[i].id == final_pid);
                assert(visited.contains(w0.ports@[i].id));
            }
        }
    }
    assert forall|j: int| 0 <= j < w1.ships@.len() implies (#[trigger] w1.ships@[j]).wf() by {
        assert(w0.ships@[j].wf());
        assert(w1.ships@[j].containers@ == w0.ships@[j].containers@);
    }
    assert forall|j: int| 0 <= j < w1.ships@.len()
        implies has_port(w1.ports@, (#[trigger] w1.ships@[j]).current_port) by {
        let cp = w1.ships@[j].current_port;
        if w0.ships@[j].id == sid {
            assert(cp == final_pid);
            let k = choose|k: int| 0 <= k < w0.ports@.len() && w0.ports@[k].id == final_pid;
            assert(w1.ports@[k].id == final_pid);
        } else {
            assert(cp == w0.ships@[j].current_port);
            let k = choose|k: int| 0 <= k < w0.ports@.len() && w0.ports@[k].id == cp;
            assert(w1.ports@[k].id == cp);
        }
    }
    assert forall|i: int, j: int| 0 <= i < w1.ports@.len() && 0 <= j < w1.ships@.len()
        implies ((#[trigger] w1.ports@[i].current@.contains(#[trigger] w1.ships@[j].id))
            <==> w1.ships@[j].current_port == w1.ports@[i].id) by {
        assert(w1.ships@[j].id == w0.ships@[j].id);
        assert(w1.ports@[i].id == w0.ports@[i].id);
        if w0.ships@[j].id == sid {
            assert(w1.ships@[j].current_port == final_pid);
            assert(w1.ports@[i].current@.contains(sid) <==> w0.ports@[i].id == final_pid);
        } else {
            assert(w1.ports@[i].current@.contains(w0.ships@[j].id) == w0.ports@[i].current@.contains(w0.ships@[j].id));
            assert(w1.ships@[j].current_port == w0.ships@[j].current_port);
        }
    }
    assert forall|i: int, x: u64|
        0 <= i < w1.ports@.len() && #[trigger] w1.ports@[i].current@.contains(x)
        implies has_ship(w1.ships@, x) by {
        if x == sid {
            let k = choose|k: int| 0 <= k < w0.ships@.len() && w0.ships@[k].id == sid;
            assert(w1.ships@[k].id == sid);
        } else {
            assert(w0.ports@[i].current@.contains(x));
            let k = choose|k: int| 0 <= k < w0.ships@.len() && w0.ships@[k].id == x;
            assert(w1.ships@[k].id == x);
        }
    }
    assert forall|i: int, x: u64|
        0 <= i < w1.ports@.len() && #[trigger] w1.ports@[i].containers@.contains(x)
        implies has_cont(w1.containers@, x) by {
        assert(w0.ports@[i].containers@.contains(x));
    }
    assert forall|j: int, x: u64|
        0 <= j < w1.ships@.len() && #[trigger] w1.ships@[j].containers@.contains(x)
        implies has_cont(w1.containers@, x) by {
        assert(w1.ships@[j].containers@ == w0.ships@[j].containers@);
        assert(w0.ships@[j].containers@.contains(x));
    }
    assert forall|i1: int, i2: int, x: u64|
        0 <= i1 < w1.ports@.len() && 0 <= i2 < w1.ports@.len()
            && #[trigger] w1.ports@[i1].containers@.contains(x)
            && #[trigger] w1.ports@[i2].containers@.contains(x)
        implies i1 == i2 by {
        assert(w0.ports@[i1].containers@.contains(x));
        assert(w0.ports@[i2].containers@.contains(x));
    }
    assert forall|j1: int, j2: int, x: u64|
        0 <= j1 < w1.ships@.len() && 0 <= j2 < w1.ships@.len()
            && #[trigger] w1.ships@[j1].containers@.contains(x)
            && #[trigger] w1.ships@[j2].containers@.contains(x)
        implies j1 == j2 by {
        assert(w1.ships@[j1].containers@ == w0.ships@[j1].containers@);
        assert(w1.ships@[j2].containers@ == w0.ships@[j2].containers@);
        assert(w0.ships@[j1].containers@.contains(x));
        assert(w0.ships@[j2].containers@.contains(x));
    }
    assert forall|i: int, j: int, x: u64|
        0 <= i < w1.ports@.len() && 0 <= j < w1.ships@.len()
        implies !(#[trigger] w1.ports@[i].containers@.contains(x)
            && #[trigger] w1.ships@[j].containers@.contains(x)) by {
        assert(w1.ships@[j].containers@ == w0.ships@[j].containers@);
        if w1.ports@[i].containers@.contains(x) {
            assert(w0.ports@[i].containers@.contains(x));
            assert(!(w0.ports@[i].containers@.contains(x)
                && w0.ships@[j].containers@.contains(x)));
        }
    }
    assert forall|k: int| 0 <= k < w1.containers@.len()
        implies w1.placed((#[trigger] w1.containers@[k]).spec_id()) by {
        let x = w1.containers@[k].spec_id();
        assert(w0.placed(x));
        if exists|i: int|
            0 <= i < w0.ports@.len() && (#[trigger] w0.ports@[i]).containers@.contains(x) {
            let i = choose|i: int|
                0 <= i < w0.ports@.len() && (#[trigger] w0.ports@[i]).containers@.contains(x);
            assert(w1.ports@[i].containers@.contains(x));
        } else {
            let j = choose|j: int|
                0 <= j < w0.ships@.len() && (#[trigger] w0.ships@[j]).containers@.contains(x);
            assert(w1.ships@[j].containers@ == w0.ships@[j].containers@);
            assert(w1.ships@[j].containers@.contains(x));
        }
    }
    assert forall|j: int| 0 <= j < w1.ships@.len()
        implies World::cap_ok(#[trigger] w1.ships@[j], w1.containers@) by {
        assert(World::cap_ok(w0.ships@[j], w0.containers@));
        assert(w1.ships@[j].containers@ == w0.ships@[j].containers@);
        assert(w1.ships@[j].total_weight_capacity == w0.ships@[j].total_weight_capacity);
        assert(w1.ships@[j].max_number_of_all_containers == w0.ships@[j].max_number_of_all_containers);
        assert(w1.ships@[j].max_number_of_heavy_containers == w0.ships@[j].max_number_of_heavy_containers);
        assert(w1.ships@[j].max_number_of_refrigerated_containers == w0.ships@[j].max_number_of_refrigerated_containers);
        assert(w1.ships@[j].max_number_of_liquid_containers == w0.ships@[j].max_number_of_liquid_containers);
    }
}

/// Well-formedness after storing a fresh container in an existing port.
#[verifier::spinoff_prover]
proof fn lemma_wf_after_create_container(w0: World, w1: World, c: ContainerData, pi: int)
    requires
        w0.wf(),
        c.wf(),
        !has_cont(w0.containers@, c.spec_id()),
        0 <= pi < w0.ports@.len(),
        w1.containers@ == w0.containers@.push(c),
        w1.ships@ == w0.ships@,
        w1.ports@.len() == w0.ports@.len(),
        forall|i: int| 0 <= i < w0.ports@.len() && i != pi ==> w1.ports@[i] == w0.ports@[i],
        w1.ports@[pi].id == w0.ports@[pi].id,
        w1.ports@[pi].latitude == w0.ports@[pi].latitude,
        w1.ports@[pi].longitude == w0.ports@[pi].longitude,
        w1.ports@[pi].current@ == w0.ports@[pi].current@,
        w1.ports@[pi].history@ == w0.ports@[pi].history@,
        w1.ports@[pi].containers@.no_duplicates(),
        forall|y: u64|
            w1.ports@[pi].containers@.contains(y) == (w0.ports@[pi].containers@.contains(y)
                || y == c.spec_id()),
    ensures
        w1.wf(),
{
    let n = w0.containers@.len() as int;
    let cid = c.spec_id();
    assert forall|k1: int, k2: int|
        0 <= k1 < w1.containers@.len() && 0 <= k2 < w1.containers@.len() && k1 != k2
        implies w1.containers@[k1].spec_id() != w1.containers@[k2].spec_id() by {
        if k1 < n && k2 < n {
            assert(w1.containers@[k1] == w0.containers@[k1]);
            assert(w1.containers@[k2] == w0.containers@[k2]);
        } else if k1 == n {
            assert(w1.containers@[k2] == w0.containers@[k2]);
        } else {
            assert(w1.containers@[k1] == w0.containers@[k1]);
        }
    }
    assert forall|k: int| 0 <= k < w1.containers@.len()
        implies (#[trigger] w1.containers@[k]).wf() by {
        if k < n {
            assert(w1.containers@[k] == w0.containers@[k]);
        }
    }
    assert forall|i: int| 0 <= i < w1.ports@.len() implies (#[trigger] w1.ports@[i]).wf() by {
        if i != pi {
            assert(w1.ports@[i] == w0.ports@[i]);
        } else {
            assert(w0.ports@[pi].wf());
        }
    }
    assert forall|j: int| 0 <= j < w1.ships@.len()
        implies has_port(w1.ports@, (#[trigger] w1.ships@[j]).current_port) by {
        let k = choose|k: int|
            0 <= k < w0.ports@.len() && w0.ports@[k].id == w0.ships@[j].current_port;
        assert(w1.ports@[k].id == w0.ports@[k].id);
    }
    assert forall|i: int, j: int| 0 <= i < w1.ports@.len() && 0 <= j < w1.ships@.len()
        implies ((#[trigger] w1.ports@[i].current@.contains(#[trigger] w1.ships@[j].id))
            <==> w1.ships@[j].current_port == w1.ports@[i].id) by {
        assert(w1.ports@[i].current@ == w0.ports@[i].current@);
        assert(w1.ports@[i].id == w0.ports@[i].id);
    }
    assert forall|i: int, x: u64|
        0 <= i < w1.ports@.len() && #[trigger] w1.ports@[i].current@.contains(x)
        implies has_ship(w1.ships@, x) by {
        assert(w1.ports@[i].current@ == w0.ports@[i].current@);
    }
    assert forall|i: int, x: u64|
        0 <= i < w1.ports@.len() && #[trigger] w1.ports@[i].containers@.contains(x)
        implies has_cont(w1.containers@, x) by {
        if i == pi && x == cid {
            assert(w1.containers@[n].spec_id() == cid);
        } else {
            assert(w0.ports@[i].containers@.contains(x));
            let k = choose|k: int|
                0 <= k < w0.containers@.len() && w0.containers@[k].spec_id() == x;
            assert(w1.containers@[k].spec_id() == x);
        }
    }
    assert forall|j: int, x: u64|
        0 <= j < w1.ships@.len() && #[trigger] w1.ships@[j].containers@.contains(x)
        implies has_cont(w1.containers@, x) by {
        assert(w0.ships@[j].containers@.contains(x));
        let k = choose|k: int| 0 <= k < w0.containers@.len() && w0.containers@[k].spec_id() == x;
        assert(w1.containers@[k].spec_id() == x);
    }
    assert forall|i1: int, i2: int, x: u64|
        0 <= i1 < w1.ports@.len() && 0 <= i2 < w1.ports@.len()
            && #[trigger] w1.ports@[i1].containers@.contains(x)
            && #[trigger] w1.ports@[i2].containers@.contains(x)
        implies i1 == i2 by {
        if x == cid {
            if i1 != pi {
                assert(w1.ports@[i1] == w0.ports@[i1]);
                assert(has_cont(w0.containers@, cid));
            }
            if i2 != pi {
                assert(w1.ports@[i2] == w0.ports@[i2]);
                assert(has_cont(w0.containers@, cid));
            }
        } else {
            assert(w0.ports@[i1].containers@.contains(x));
            assert(w0.ports@[i2].containers@.contains(x));
        }
    }
    assert forall|j1: int, j2: int, x: u64|
        0 <= j1 < w1.ships@.len() && 0 <= j2 < w1.ships@.len()
            && #[trigger] w1.ships@[j1].containers@.contains(x)
            && #[trigger] w1.ships@[j2].containers@.contains(x)
        implies j1 == j2 by {
        assert(w0.ships@[j1].containers@.contains(x) && w0.ships@[j2].containers@.contains(x));
    }
    assert forall|i: int, j: int, x: u64|
        0 <= i < w1.ports@.len() && 0 <= j < w1.ships@.len()
        implies !(#[trigger] w1.ports@[i].containers@.contains(x)
            && #[trigger] w1.ships@[j].containers@.contains(x)) by {
        if w1.ships@[j].containers@.contains(x) {
            assert(w0.ships@[j].containers@.contains(x));
            assert(has_cont(w0.containers@, x));
            assert(x != cid);
            if w1.ports@[i].containers@.contains(x) {
                assert(w0.ports@[i].containers@.contains(x));
            }
        }
    }
    assert forall|k: int| 0 <= k < w1.containers@.len()
        implies w1.placed((#[trigger] w1.containers@[k]).spec_id()) by {
        if k < n {
            assert(w1.containers@[k] == w0.containers@[k]);
            assert(w0.placed(w0.containers@[k].spec_id()));
            if exists|i: int|
                0 <= i < w0.ports@.len() && (#[trigger] w0.ports@[i]).containers@.contains(
                    w0.containers@[k].spec_id(),
                ) {
                let i = choose|i: int|
                    0 <= i < w0.ports@.len() && (#[trigger] w0.ports@[i]).containers@.contains(
                        w0.containers@[k].spec_id(),
                    );
                assert(w1.ports@[i].containers@.contains(w1.containers@[k].spec_id()));
            } else {
                let j = choose|j: int|
                    0 <= j < w0.ships@.len() && (#[trigger] w0.ships@[j]).containers@.contains(
                        w0.containers@[k].spec_id(),
                    );
                assert(w1.ships@[j].containers@.contains(w1.containers@[k].spec_id()));
            }
        } else {
            assert(w1.ports@[pi].containers@.contains(cid));
        }
    }
    assert forall|j: int| 0 <= j < w1.ships@.len()
        implies World::cap_ok(#[trigger] w1.ships@[j], w1.containers@) by {
        assert(World::cap_ok(w0.ships@[j], w0.containers@));
        let m = w0.ships@[j].containers@;
        assert forall|t: int| 0 <= t < m.len()
            implies cont_at(w1.containers@, #[trigger] m[t]) == cont_at(w0.containers@, m[t])
        by {
            assert(m.contains(m[t]));
            assert(has_cont(w0.containers@, m[t]));
            assert(m[t] != cid);
            lemma_cont_at_fresh(w0.containers@, c, m[t]);
        }
        lemma_msum_same_lookup(m, w1.containers@, w0.containers@, crate::ship::f_weight(), 0);
        lemma_msum_same_lookup(m, w1.containers@, w0.containers@, crate::ship::f_heavy(), 0);
        lemma_msum_same_lookup(
            m,
            w1.containers@,
            w0.containers@,
            crate::ship::f_refrigerated(),
            0,
        );
        lemma_msum_same_lookup(m, w1.containers@, w0.containers@, crate::ship::f_liquid(), 0);
        assert(w1.ships@[j].containers@ == m);
    }
}

/// Well-formedness after a successful load: the container left port `pi`'s
/// inventory and was appended to ship `si`'s manifest, within capacity.
#[verifier::spinoff_prover]
proof fn lemma_wf_after_load(w0: World, w1: World, si: int, pi: int, cid: u64)
    requires
        w0.wf(),
        0 <= si < w0.ships@.len(),
        0 <= pi < w0.ports@.len(),
        w0.ports@[pi].id == w0.ships@[si].current_port,
        w0.ports@[pi].containers@.contains(cid),
        w0.load_allowed(w0.ships@[si].id, cid),
        w1.containers@ == w0.containers@,
        w1.ships@.len() == w0.ships@.len(),
        forall|j: int| 0 <= j < w0.ships@.len() && j != si ==> w1.ships@[j] == w0.ships@[j],
        w1.ships@[si] == ship_with_manifest(w0.ships@[si], w1.ships@[si].containers),
        w1.ships@[si].containers@ == w0.ships@[si].containers@.push(cid),
        w1.ports@.len() == w0.ports@.len(),
        forall|i: int| 0 <= i < w0.ports@.len() && i != pi ==> w1.ports@[i] == w0.ports@[i],
        w1.ports@[pi].id == w0.ports@[pi].id,
        w1.ports@[pi].latitude == w0.ports@[pi].latitude,
        w1.ports@[pi].longitude == w0.ports@[pi].longitude,
        w1.ports@[pi].current@ == w0.ports@[pi].current@,
        w1.ports@[pi].history@ == w0.ports@[pi].history@,
        w1.ports@[pi].containers@.no_duplicates(),
        !w1.ports@[pi].containers@.contains(cid),
        forall|y: u64|
            y != cid ==> w1.ports@[pi].containers@.contains(y)
                == w0.ports@[pi].containers@.contains(y),
    ensures
        w1.wf(),
{
    let m0 = w0.ships@[si].containers@;
    let cs = w0.containers@;
    lemma_ship_at_is(w0.ships@, w0.ships@[si].id, si);
    assert(!m0.contains(cid));
    assert forall|j1: int, j2: int|
        0 <= j1 < w1.ships@.len() && 0 <= j2 < w1.ships@.len() && j1 != j2
        implies w1.ships@[j1].id != w1.ships@[j2].id by {
        assert(w1.ships@[j1].id == w0.ships@[j1].id);
        assert(w1.ships@[j2].id == w0.ships@[j2].id);
    }
    assert forall|i: int| 0 <= i < w1.ports@.len() implies (#[trigger] w1.ports@[i]).wf() by {
        if i != pi {
            assert(w1.ports@[i] == w0.ports@[i]);
        } else {
            assert(w0.ports@[pi].wf());
        }
    }
    assert forall|j: int| 0 <= j < w1.ships@.len() implies (#[trigger] w1.ships@[j]).wf() by {
        if j != si {
            assert(w1.ships@[j] == w0.ships@[j]);
        } else {
            let m1 = w1.ships@[si].containers@;
            assert forall|a: int, b: int|
                0 <= a < m1.len() && 0 <= b < m1.len() && a != b implies m1[a] != m1[b] by {
                if a < m0.len() && b < m0.len() {
                    assert(w0.ships@[si].wf());
                } else if a == m0.len() {
                    if m1[a] == m1[b] {
                        assert(m0.contains(cid));
                    }
                } else if b == m0.len() {
                    if m1[a] == m1[b] {
                        assert(m0.contains(cid));
                    }
                }
            }
        }
    }
    assert forall|j: int| 0 <= j < w1.ships@.len()
        implies has_port(w1.ports@, (#[trigger] w1.ships@[j]).current_port) by {
        assert(w1.ships@[j].current_port == w0.ships@[j].current_port);
        let k = choose|k: int|
            0 <= k < w0.ports@.len() && w0.ports@[k].id == w0.ships@[j].current_port;
        assert(w1.ports@[k].id == w0.ports@[k].id);
    }
    assert forall|i: int, j: int| 0 <= i < w1.ports@.len() && 0 <= j < w1.ships@.len()
        implies ((#[trigger] w1.ports@[i].current@.contains(#[trigger] w1.ships@[j].id))
            <==> w1.ships@[j].current_port == w1.ports@[i].id) by {
        assert(w1.ports@[i].current@ == w0.ports@[i].current@);
        assert(w1.ports@[i].id == w0.ports@[i].id);
        assert(w1.ships@[j].id == w0.ships@[j].id);
        assert(w1.ships@[j].current_port == w0.ships@[j].current_port);
    }
    assert forall|i: int, x: u64|
        0 <= i < w1.ports@.len() && #[trigger] w1.ports@[i].current@.contains(x)
        implies has_ship(w1.ships@, x) by {
        assert(w1.ports@[i].current@ == w0.ports@[i].current@);
        let k = choose|k: int| 0 <= k < w0.ships@.len() && w0.ships@[k].id == x;
        assert(w1.ships@[k].id == x);
    }
    assert forall|i: int, x: u64|
        0 <= i < w1.ports@.len() && #[trigger] w1.ports@[i].containers@.contains(x)
        implies has_cont(w1.containers@, x) by {
        if i == pi {
            assert(w0.ports@[pi].containers@.contains(x));
        } else {
            assert(w0.ports@[i].containers@.contains(x));
        }
    }
    assert forall|j: int, x: u64|
        0 <= j < w1.ships@.len() && #[trigger] w1.ships@[j].containers@.contains(x)
        implies has_cont(w1.containers@, x) by {
        if j == si {
            let m1 = w1.ships@[si].containers@;
            let t = choose|t: int| 0 <= t < m1.len() && m1[t] == x;
            if t < m0.len() {
                assert(m0.contains(x));
            } else {
                assert(x == cid);
                assert(w0.ports@[pi].containers@.contains(cid));
            }
        } else {
            assert(w0.ships@[j].containers@.contains(x));
        }
    }
    assert forall|i1: int, i2: int, x: u64|
        0 <= i1 < w1.ports@.len() && 0 <= i2 < w1.ports@.len()
            && #[trigger] w1.ports@[i1].containers@.contains(x)
            && #[trigger] w1.ports@[i2].containers@.contains(x)
        implies i1 == i2 by {
        assert(w0.ports@[i1].containers@.contains(x));
        assert(w0.ports@[i2].containers@.contains(x));
    }
    assert forall|j1: int, j2: int, x: u64|
        0 <= j1 < w1.ships@.len() && 0 <= j2 < w1.ships@.len()
            && #[trigger] w1.ships@[j1].containers@.contains(x)
            && #[trigger] w1.ships@[j2].containers@.contains(x)
        implies j1 == j2 by {
        if j1 != j2 {
            if j1 == si || j2 == si {
                let o = if j1 == si { j2 } else { j1 };
                assert(w0.ships@[o].containers@.contains(x));
                let m1 = w1.ships@[si].containers@;
                let t = choose|t: int| 0 <= t < m1.len() && m1[t] == x;
                if t < m0.len() {
                    assert(m0.contains(x));
                } else {
                    assert(x == cid);
                    assert(!(w0.ports@[pi].containers@.contains(cid)
                        && w0.ships@[o].containers@.contains(cid)));
                }
            } else {
                assert(w0.ships@[j1].containers@.contains(x));
                assert(w0.ships@[j2].containers@.contains(x));
            }
        }
    }
    assert forall|i: int, j: int, x: u64|
        0 <= i < w1.ports@.len() && 0 <= j < w1.ships@.len()
        implies !(#[trigger] w1.ports@[i].containers@.contains(x)
            && #[trigger] w1.ships@[j].containers@.contains(x)) by {
        if w1.ports@[i].containers@.contains(x) {
            assert(x != cid || i != pi);
            if x == cid {
                assert(w0.ports@[i].containers@.contains(cid));
                assert(i == pi);
            } else {
                assert(w0.ports@[i].containers@.contains(x));
                if w1.ships@[j].containers@.contains(x) {
                    if j == si {
                        let m1 = w1.ships@[si].containers@;
                        let t = choose|t: int| 0 <= t < m1.len() && m1[t] == x;
                        assert(t < m0.len());
                        assert(m0.contains(x));
                    } else {
                        assert(w0.ships@[j].containers@.contains(x));
                    }
                }
            }
        }
    }
    assert forall|k: int| 0 <= k < w1.containers@.len()
        implies w1.placed((#[trigger] w1.containers@[k]).spec_id()) by {
        let x = w1.containers@[k].spec_id();
        assert(w0.placed(x));
        if exists|i: int|
            0 <= i < w0.ports@.len() && (#[trigger] w0.ports@[i]).containers@.contains(x) {
            let i = choose|i: int|
                0 <= i < w0.ports@.len() && (#[trigger] w0.ports@[i]).containers@.contains(x);
            if i == pi && x == cid {
                assert(w1.ships@[si].containers@.contains(cid)) by {
                    assert(w1.ships@[si].containers@[m0.len() as int] == cid);
                }
            } else {
                assert(w1.ports@[i].containers@.contains(x));
            }
        } else {
            let j = choose|j: int|
                0 <= j < w0.ships@.len() && (#[trigger] w0.ships@[j]).containers@.contains(x);
            if j == si {
                let t = choose|t: int| 0 <= t < m0.len() && m0[t] == x;
                assert(w1.ships@[si].containers@[t] == x);
            } else {
                assert(w1.ships@[j].containers@.contains(x));
            }
        }
    }
    assert forall|j: int| 0 <= j < w1.ships@.len()
        implies World::cap_ok(#[trigger] w1.ships@[j], w1.containers@) by {
        if j != si {
            assert(w1.ships@[j] == w0.ships@[j]);
            assert(World::cap_ok(w0.ships@[j], w0.containers@));
        } else {
            crate::ship::lemma_msum_push(m0, cs, crate::ship::f_weight(), cid, 0);
            crate::ship::lemma_msum_push(m0, cs, crate::ship::f_heavy(), cid, 0);
            crate::ship::lemma_msum_push(m0, cs, crate::ship::f_refrigerated(), cid, 0);
            crate::ship::lemma_msum_push(m0, cs, crate::ship::f_liquid(), cid, 0);
        }
    }
}

/// Well-formedness after a successful unload: the container left ship
/// `si`'s manifest and entered port `pi`'s inventory.
#[verifier::spinoff_prover]
proof fn lemma_wf_after_unload(w0: World, w1: World, si: int, pi: int, cid: u64)
    requires
        w0.wf(),
        0 <= si < w0.ships@.len(),
        0 <= pi < w0.ports@.len(),
        w0.ports@[pi].id == w0.ships@[si].current_port,
        w0.ships@[si].containers@.contains(cid),
        w1.containers@ == w0.containers@,
        w1.ships@.len() == w0.ships@.len(),
        forall|j: int| 0 <= j < w0.ships@.len() && j != si ==> w1.ships@[j] == w0.ships@[j],
        w1.ships@[si] == ship_with_manifest(w0.ships@[si], w1.ships@[si].containers),
        w1.ships@[si].containers@.no_duplicates(),
        !w1.ships@[si].containers@.contains(cid),
        forall|y: u64|
            y != cid ==> w1.ships@[si].containers@.contains(y)
                == w0.ships@[si].containers@.contains(y),
        exists|pos: int|
            0 <= pos < w0.ships@[si].containers@.len() && w0.ships@[si].containers@[pos] == cid
                && w1.ships@[si].containers@ == w0.ships@[si].containers@.update(
                pos,
                w0.ships@[si].containers@.last(),
            ).drop_last(),
        w1.ports@.len() == w0.ports@.len(),
        forall|i: int| 0 <= i < w0.ports@.len() && i != pi ==> w1.ports@[i] == w0.ports@[i],
        w1.ports@[pi].id == w0.ports@[pi].id,
        w1.ports@[pi].latitude == w0.ports@[pi].latitude,
        w1.ports@[pi].longitude == w0.ports@[pi].longitude,
        w1.ports@[pi].current@ == w0.ports@[pi].current@,
        w1.ports@[pi].history@ == w0.ports@[pi].history@,
        w1.ports@[pi].containers@.no_duplicates(),
        forall|y: u64|
            w1.ports@[pi].containers@.contains(y) == (w0.ports@[pi].containers@.contains(y)
                || y == cid),
    ensures
        w1.wf(),
{
    let m0 = w0.ships@[si].containers@;
    let m1 = w1.ships@[si].containers@;
    let cs = w0.containers@;
    assert forall|j1: int, j2: int|
        0 <= j1 < w1.ships@.len() && 0 <= j2 < w1.ships@.len() && j1 != j2
        implies w1.ships@[j1].id != w1.ships@[j2].id by {
        assert(w1.ships@[j1].id == w0.ships@[j1].id);
        assert(w1.ships@[j2].id == w0.ships@[j2].id);
    }
    assert forall|i: int| 0 <= i < w1.ports@.len() implies (#[trigger] w1.ports@[i]).wf() by {
        if i != pi {
            assert(w1.ports@[i] == w0.ports@[i]);
        } else {
            assert(w0.ports@[pi].wf());
        }
    }
    assert forall|j: int| 0 <= j < w1.ships@.len() implies (#[trigger] w1.ships@[j]).wf() by {
        if j != si {
            assert(w1.ships@[j] == w0.ships@[j]);
        }
    }
    assert forall|j: int| 0 <= j < w1.ships@.len()
        implies has_port(w1.ports@, (#[trigger] w1.ships@[j]).current_port) by {
        assert(w1.ships@[j].current_port == w0.ships@[j].current_port);
        let k = choose|k: int|
            0 <= k < w0.ports@.len() && w0.ports@[k].id == w0.ships@[j].current_port;
        assert(w1.ports@[k].id == w0.ports@[k].id);
    }
    assert forall|i: int, j: int| 0 <= i < w1.ports@.len() && 0 <= j < w1.ships@.len()
        implies ((#[trigger] w1.ports@[i].current@.contains(#[trigger] w1.ships@[j].id))
            <==> w1.ships@[j].current_port == w1.ports@[i].id) by {
        assert(w1.ports@[i].current@ == w0.ports@[i].current@);
        assert(w1.ports@[i].id == w0.ports@[i].id);
        assert(w1.ships@[j].id == w0.ships@[j].id);
        assert(w1.ships@[j].current_port == w0.ships@[j].current_port);
    }
    assert forall|i: int, x: u64|
        0 <= i < w1.ports@.len() && #[trigger] w1.ports@[i].current@.contains(x)
        implies has_ship(w1.ships@, x) by {
        assert(w1.ports@[i].current@ == w0.ports@[i].current@);
        let k = choose|k: int| 0 <= k < w0.ships@.len() && w0.ships@[k].id == x;
        assert(w1.ships@[k].id == x);
    }
    assert forall|i: int, x: u64|
        0 <= i < w1.ports@.len() && #[trigger] w1.ports@[i].containers@.contains(x)
        implies has_cont(w1.containers@, x) by {
        if i == pi && x == cid {
            assert(m0.contains(cid));
        } else {
            assert(w0.ports@[i].containers@.contains(x));
        }
    }
    assert forall|j: int, x: u64|
        0 <= j < w1.ships@.len() && #[trigger] w1.ships@[j].containers@.contains(x)
        implies has_cont(w1.containers@, x) by {
        if j == si {
            assert(m0.contains(x));
        } else {
            assert(w0.ships@[j].containers@.contains(x));
        }
    }
    assert forall|i1: int, i2: int, x: u64|
        0 <= i1 < w1.ports@.len() && 0 <= i2 < w1.ports@.len()
            && #[trigger] w1.ports@[i1].containers@.contains(x)
            && #[trigger] w1.ports@[i2].containers@.contains(x)
        implies i1 == i2 by {
        if x == cid {
            if i1 != pi {
                assert(w0.ports@[i1].containers@.contains(cid));
                assert(!(w0.ports@[i1].containers@.contains(cid) && m0.contains(cid)));
            }
            if i2 != pi {
                assert(w0.ports@[i2].containers@.contains(cid));
                assert(!(w0.ports@[i2].containers@.contains(cid) && m0.contains(cid)));
            }
        } else {
            assert(w0.ports@[i1].containers@.contains(x));
            assert(w0.ports@[i2].containers@.contains(x));
        }
    }
    assert forall|j1: int, j2: int, x: u64|
        0 <= j1 < w1.ships@.len() && 0 <= j2 < w1.ships@.len()
            && #[trigger] w1.ships@[j1].containers@.contains(x)
            && #[trigger] w1.ships@[j2].containers@.contains(x)
        implies j1 == j2 by {
        assert(w0.ships@[j1].containers@.contains(x) || j1 == si);
        assert(w0.ships@[j2].containers@.contains(x) || j2 == si);
        if j1 == si {
            assert(m0.contains(x) || x == cid);
            assert(x != cid);
            assert(m0.contains(x));
        }
        if j2 == si {
            assert(x != cid);
            assert(m0.contains(x));
        }
        assert(w0.ships@[j1].containers@.contains(x));
        assert(w0.ships@[j2].containers@.contains(x));
    }
    assert forall|i: int, j: int, x: u64|
        0 <= i < w1.ports@.len() && 0 <= j < w1.ships@.len()
        implies !(#[trigger] w1.ports@[i].containers@.contains(x)
            && #[trigger] w1.ships@[j].containers@.contains(x)) by {
        if w1.ships@[j].containers@.contains(x) {
            if j == si {
                assert(x != cid);
                assert(m0.contains(x));
            } else {
                assert(w0.ships@[j].containers@.contains(x));
            }
            assert(w0.ships@[j].containers@.contains(x) || (j == si && m0.contains(x)));
            if w1.ports@[i].containers@.contains(x) {
                if i == pi && x == cid {
                } else {
                    assert(w0.ports@[i].containers@.contains(x));
                    if j == si {
                        assert(!(w0.ports@[i].containers@.contains(x) && m0.contains(x)));
                    }
                }
            }
        }
    }
    assert forall|k: int| 0 <= k < w1.containers@.len()
        implies w1.placed((#[trigger] w1.containers@[k]).spec_id()) by {
        let x = w1.containers@[k].spec_id();
        assert(w0.placed(x));
        if exists|i: int|
            0 <= i < w0.ports@.len() && (#[trigger] w0.ports@[i]).containers@.contains(x) {
            let i = choose|i: int|
                0 <= i < w0.ports@.len() && (#[trigger] w0.ports@[i]).containers@.contains(x);
            assert(w1.ports@[i].containers@.contains(x));
        } else {
            let j = choose|j: int|
                0 <= j < w0.ships@.len() && (#[trigger] w0.ships@[j]).containers@.contains(x);
            if j == si && x == cid {
                assert(w1.ports@[pi].containers@.contains(cid));
            } else if j == si {
                assert(w1.ships@[si].containers@.contains(x));
            } else {
                assert(w1.ships@[j].containers@.contains(x));
            }
        }
    }
    assert forall|j: int| 0 <= j < w1.ships@.len()
        implies World::cap_ok(#[trigger] w1.ships@[j], w1.containers@) by {
        if j != si {
            assert(w1.ships@[j] == w0.ships@[j]);
            assert(World::cap_ok(w0.ships@[j], w0.containers@));
        } else {
            let pos = choose|pos: int|
                0 <= pos < m0.len() && m0[pos] == cid && m1 == m0.update(
                    pos,
                    m0.last(),
                ).drop_last();
            lemma_unload_sums(m0, cs, pos, crate::ship::f_weight());
            lemma_unload_sums(m0, cs, pos, crate::ship::f_heavy());
            lemma_unload_sums(m0, cs, pos, crate::ship::f_refrigerated());
            lemma_unload_sums(m0, cs, pos, crate::ship::f_liquid());
            assert(crate::ship::f_weight()(cont_at(cs, cid)) >= 0);
            assert(crate::ship::f_heavy()(cont_at(cs, cid)) >= 0);
            assert(crate::ship::f_refrigerated()(cont_at(cs, cid)) >= 0);
            assert(crate::ship::f_liquid()(cont_at(cs, cid)) >= 0);
            assert(World::cap_ok(w0.ships@[si], cs));
        }
    }
}

/// Removing the element at `pos` by a swap with the last lowers each fold
/// by exactly that element's contribution.
proof fn lemma_unload_sums(
    m0: Seq<u64>,
    cs: Seq<ContainerData>,
    pos: int,
    f: spec_fn(ContainerData) -> int,
)
    requires
        0 <= pos < m0.len(),
    ensures
        crate::ship::msum(m0.update(pos, m0.last()).drop_last(), cs, f, 0) == crate::ship::msum(
            m0,
            cs,
            f,
            0,
        ) - f(cont_at(cs, m0[pos])),
{
    let upd = m0.update(pos, m0.last());
    crate::ship::lemma_msum_update(m0, cs, f, pos, m0.last(), 0);
    crate::ship::lemma_msum_drop_last(upd, cs, f, 0);
    if pos == m0.len() - 1 {
        assert(upd.last() == m0.last());
    } else {
        assert(upd.last() == m0.last());
        assert(upd[pos] == m0.last());
    }
}

/// Placement carries over between worlds whose ports hold the same
/// inventories and whose ships hold the same manifests.
proof fn lemma_placed_same(w0: World, w1: World, cid: u64)
    requires
        w0.placed(cid),
        w1.ports@.len() == w0.ports@.len(),
        w1.ships@.len() == w0.ships@.len(),
        forall|i: int|
            0 <= i < w0.ports@.len() ==> (#[trigger] w1.ports@[i]).containers@ == (
            #[trigger] w0.ports@[i]).containers@,
        forall|j: int|
            0 <= j < w0.ships@.len() ==> (#[trigger] w1.ships@[j]).containers@ == (
            #[trigger] w0.ships@[j]).containers@,
    ensures
        w1.placed(cid),
{
    if exists|i: int|
        0 <= i < w0.ports@.len() && (#[trigger] w0.ports@[i]).containers@.contains(cid) {
        let i = choose|i: int|
            0 <= i < w0.ports@.len() && (#[trigger] w0.ports@[i]).containers@.contains(cid);
        assert((w1.ports@[i]).containers@.contains(cid));
    } else {
        let j = choose|j: int|
            0 <= j < w0.ships@.len() && (#[trigger] w0.ships@[j]).containers@.contains(cid);
        assert((w1.ships@[j]).containers@.contains(cid));
    }
}

/// Well-formedness after creating a ship: the ship was appended with a
/// fresh id and an empty manifest, and the chosen port recorded it.
#[verifier::spinoff_prover]
proof fn lemma_wf_after_create_ship(w0: World, w1: World, id: u64, port_id: u64, pi: int)
    requires
        w0.wf(),
        !has_ship(w0.ships@, id),
        0 <= pi < w0.ports@.len(),
        w0.ports@[pi].id == port_id,
        w1.containers@ == w0.containers@,
        w1.ships@.len() == w0.ships@.len() + 1,
        forall|j: int| 0 <= j < w0.ships@.len() ==> w1.ships@[j] == w0.ships@[j],
        w1.ships@.last().id == id,
        w1.ships@.last().current_port == port_id,
        w1.ships@.last().containers@ == Seq::<u64>::empty(),
        w1.ports@.len() == w0.ports@.len(),
        forall|i: int| 0 <= i < w0.ports@.len() && i != pi ==> w1.ports@[i] == w0.ports@[i],
        w1.ports@[pi].id == w0.ports@[pi].id,
        w1.ports@[pi].latitude == w0.ports@[pi].latitude,
        w1.ports@[pi].longitude == w0.ports@[pi].longitude,
        w1.ports@[pi].containers@ == w0.ports@[pi].containers@,
        w1.ports@[pi].current@.no_duplicates(),
        w1.ports@[pi].history@.no_duplicates(),
        forall|y: u64|
            w1.ports@[pi].current@.contains(y) == (w0.ports@[pi].current@.contains(y) || y
                == id),
        forall|y: u64|
            w1.ports@[pi].history@.contains(y) == (w0.ports@[pi].history@.contains(y) || y
                == id),
    ensures
        w1.wf(),
{
    let n = w0.ships@.len() as int;
    // distinct ship ids, including the fresh one
    assert forall|j1: int, j2: int|
        0 <= j1 < w1.ships@.len() && 0 <= j2 < w1.ships@.len() && j1 != j2
        implies w1.ships@[j1].id != w1.ships@[j2].id by {
        if j1 == n {
            assert(w1.ships@[j2] == w0.ships@[j2]);
        } else if j2 == n {
            assert(w1.ships@[j1] == w0.ships@[j1]);
        }
    }
    // entity well-formedness
    assert forall|i: int| 0 <= i < w1.ports@.len() implies (#[trigger] w1.ports@[i]).wf() by {
        if i == pi {
            assert(w0.ports@[pi].wf());
            assert forall|y: u64| w1.ports@[pi].current@.contains(y)
                implies w1.ports@[pi].history@.contains(y) by {
                if y != id {
                    assert(w0.ports@[pi].current@.contains(y));
                }
            }
        }
    }
    assert forall|j: int| 0 <= j < w1.ships@.len() implies (#[trigger] w1.ships@[j]).wf() by {
        if j < n {
            assert(w1.ships@[j] == w0.ships@[j]);
        }
    }
    // every ship has a port
    assert forall|j: int| 0 <= j < w1.ships@.len()
        implies has_port(w1.ports@, (#[trigger] w1.ships@[j]).current_port) by {
        let cp = w1.ships@[j].current_port;
        if j < n {
            let k = choose|k: int| 0 <= k < w0.ports@.len() && w0.ports@[k].id == cp;
            assert(w1.ports@[k].id == cp);
        } else {
            assert(w1.ports@[pi].id == cp);
        }
    }
    // presence consistency
    assert forall|i: int, j: int| 0 <= i < w1.ports@.len() && 0 <= j < w1.ships@.len()
        implies ((#[trigger] w1.ports@[i].current@.contains(#[trigger] w1.ships@[j].id))
            <==> w1.ships@[j].current_port == w1.ports@[i].id) by {
        if j < n {
            assert(w1.ships@[j] == w0.ships@[j]);
            if i == pi {
                assert(w0.ships@[j].id != id);
                assert(w1.ports@[pi].current@.contains(w0.ships@[j].id)
                    == w0.ports@[pi].current@.contains(w0.ships@[j].id));
            }
        } else {
            // the new ship: present exactly at its creation port
            if i == pi {
                assert(w1.ports@[pi].current@.contains(id));
            } else {
                if w1.ports@[i].current@.contains(id) {
                    assert(has_ship(w0.ships@, id));
                }
                assert(w1.ports@[i].id != port_id);
            }
        }
    }
    assert forall|i: int, x: u64|
        0 <= i < w1.ports@.len() && #[trigger] w1.ports@[i].current@.contains(x)
        implies has_ship(w1.ships@, x) by {
        if i == pi && x == id {
            assert(w1.ships@[n].id == id);
        } else {
            assert(w0.ports@[i].current@.contains(x));
            let k = choose|k: int| 0 <= k < w0.ships@.len() && w0.ships@[k].id == x;
            assert(w1.ships@[k].id == x);
        }
    }
    // cargo clauses: inventories and manifests unchanged, new manifest empty
    assert forall|i: int, x: u64|
        0 <= i < w1.ports@.len() && #[trigger] w1.ports@[i].containers@.contains(x)
        implies has_cont(w1.containers@, x) by {
        assert(w0.ports@[i].containers@.contains(x));
    }
    assert forall|j: int, x: u64|
        0 <= j < w1.ships@.len() && #[trigger] w1.ships@[j].containers@.contains(x)
        implies has_cont(w1.containers@, x) by {
        assert(j < n);
        assert(w0.ships@[j].containers@.contains(x));
    }
    assert forall|j1: int, j2: int, x: u64|
        0 <= j1 < w1.ships@.len() && 0 <= j2 < w1.ships@.len()
            && #[trigger] w1.ships@[j1].containers@.contains(x)
            && #[trigger] w1.ships@[j2].containers@.contains(x)
        implies j1 == j2 by {
        assert(j1 < n && j2 < n);
        assert(w0.ships@[j1].containers@.contains(x) && w0.ships@[j2].containers@.contains(x));
    }
    assert forall|i: int, j: int, x: u64|
        0 <= i < w1.ports@.len() && 0 <= j < w1.ships@.len()
        implies !(#[trigger] w1.ports@[i].containers@.contains(x)
            && #[trigger] w1.ships@[j].containers@.contains(x)) by {
        if j < n {
            assert(!(w0.ports@[i].containers@.contains(x)
                && w0.ships@[j].containers@.contains(x)));
        }
    }
    assert forall|k: int| 0 <= k < w1.containers@.len()
        implies w1.placed((#[trigger] w1.containers@[k]).spec_id()) by {
        let cid = w1.containers@[k].spec_id();
        assert(w0.placed(cid));
        if exists|i: int|
            0 <= i < w0.ports@.len() && (#[trigger] w0.ports@[i]).containers@.contains(cid) {
            let i = choose|i: int|
                0 <= i < w0.ports@.len() && (#[trigger] w0.ports@[i]).containers@.contains(cid);
            assert((w1.ports@[i]).containers@.contains(cid));
        } else {
            let j = choose|j: int|
                0 <= j < w0.ships@.len() && (#[trigger] w0.ships@[j]).containers@.contains(cid);
            assert((w1.ships@[j]).containers@.contains(cid));
        }
    }
    // capacities: old manifests unchanged, the new manifest is empty
    assert forall|j: int| 0 <= j < w1.ships@.len()
        implies World::cap_ok(#[trigger] w1.ships@[j], w1.containers@) by {
        if j < n {
            assert(w1.ships@[j] == w0.ships@[j]);
            assert(World::cap_ok(w0.ships@[j], w0.containers@));
        } else {
            assert(w1.ships@[j].containers@.len() == 0);
        }
    }
}


/// One externally supplied operation of the input stream.
#[derive(Debug, Clone)]
pub enum Operation {
    CreatePort { id: u64, latitude: i64, longitude: i64 },
    CreateShip {
        id: u64,
        port_id: u64,
        total_weight_capacity: u64,
        max_number_of_all_containers: u64,
        max_number_of_heavy_containers: u64,
        max_number_of_refrigerated_containers: u64,
        max_number_of_liquid_containers: u64,
        fuel_consumption_per_km: u64,
    },
    CreateContainer { id: u64, weight: u64, special: Option<String>, port_id: u64 },
    Load { ship_id: u64, container_id: u64 },
    Unload { ship_id: u64, container_id: u64 },
    Sail { ship_id: u64, dest_port_id: u64 },
    Refuel { ship_id: u64, amount: u64 },
}

/// How a voyage outcome reports at the operation level: a stranded ship is
/// a partially applied sail; an unreachable or missing detour port is a
/// plain failure; unknown ids are skipped.
pub open spec fn sail_outcome_as_op(sr: SailOutcome) -> OpOutcome {
    match sr {
        SailOutcome::UnknownShip => OpOutcome::Ignored,
        SailOutcome::UnknownDestination => OpOutcome::Ignored,
        SailOutcome::Direct => OpOutcome::Applied,
        SailOutcome::ViaDetour => OpOutcome::Applied,
        SailOutcome::Stranded => OpOutcome::PartiallyApplied,
        SailOutcome::Failed => OpOutcome::Failed,
    }
}

/// The contract of [`World::process`], case by case. Operations whose
/// values do not fit the model (coordinates out of range, a weight beyond
/// [`MAX_WEIGHT`]) are skipped like unknown ids.
pub open spec fn process_spec(w0: World, w1: World, op: Operation, r: OpOutcome) -> bool {
    match op {
        Operation::CreatePort { id, latitude, longitude } => {
            if !geo::valid_lat(latitude as int) || !geo::valid_lon(longitude as int) {
                r == OpOutcome::Ignored && w1 == w0
            } else if has_port(w0.ports@, id) {
                r == OpOutcome::DuplicateId && w1 == w0
            } else {
                r == OpOutcome::Applied && port_created(w0, w1, id, latitude, longitude)
            }
        },
        Operation::CreateShip {
            id,
            port_id,
            total_weight_capacity,
            max_number_of_all_containers,
            max_number_of_heavy_containers,
            max_number_of_refrigerated_containers,
            max_number_of_liquid_containers,
            fuel_consumption_per_km,
        } => {
            if has_ship(w0.ships@, id) {
                r == OpOutcome::DuplicateId && w1 == w0
            } else if !has_port(w0.ports@, port_id) {
                r == OpOutcome::Ignored && w1 == w0
            } else {
                r == OpOutcome::Applied && ship_created(
                    w0,
                    w1,
                    id,
                    port_id,
                    total_weight_capacity,
                    max_number_of_all_containers,
                    max_number_of_heavy_containers,
                    max_number_of_refrigerated_containers,
                    max_number_of_liquid_containers,
                    fuel_consumption_per_km,
                )
            }
        },
        Operation::CreateContainer { id, weight, special, port_id } => {
            if weight > MAX_WEIGHT {
                r == OpOutcome::Ignored && w1 == w0
            } else if has_cont(w0.containers@, id) {
                r == OpOutcome::DuplicateId && w1 == w0
            } else {
                r == OpOutcome::Applied && container_created(
                    w0,
                    w1,
                    id,
                    weight,
                    match special {
                        Some(st) => Some(st@),
                        None => None,
                    },
                    port_id,
                )
            }
        },
        Operation::Load { ship_id, container_id } => {
            if !has_ship(w0.ships@, ship_id) {
                r == OpOutcome::Ignored && w1 == w0
            } else if w0.load_allowed(ship_id, container_id) {
                r == OpOutcome::Applied && loaded(w0, w1, ship_id, container_id)
            } else {
                r == OpOutcome::Failed && w1 == w0
            }
        },
        Operation::Unload { ship_id, container_id } => {
            if !has_ship(w0.ships@, ship_id) {
                r == OpOutcome::Ignored && w1 == w0
            } else if ship_at(w0.ships@, ship_id).containers@.contains(container_id) {
                r == OpOutcome::Applied && unloaded(w0, w1, ship_id, container_id)
            } else {
                r == OpOutcome::Failed && w1 == w0
            }
        },
        Operation::Sail { ship_id, dest_port_id } => {
            exists|sr: SailOutcome|
                #[trigger] sail_spec(w0, w1, ship_id, dest_port_id, sr) && r
                    == sail_outcome_as_op(sr)
        },
        Operation::Refuel { ship_id, amount } => {
            if !has_ship(w0.ships@, ship_id) {
                r == OpOutcome::Ignored && w1 == w0
            } else {
                r == OpOutcome::Applied && refueled(w0, w1, ship_id, amount)
            }
        },
    }
}

impl World {
    /// Applies one operation of the stream and reports how it ended;
    /// processing never aborts, so the caller simply continues with the
    /// next operation whatever the outcome.
    pub fn process(&mut self, op: &Operation) -> (r: OpOutcome)
        requires
            old(self).wf(),
        ensures
            final(self).wf(),
            process_spec(*old(self), *final(self), *op, r),
    {
        match op {
            Operation::CreatePort { id, latitude, longitude } => {
                if *latitude > geo::LAT_UDEG_MAX || *latitude < -geo::LAT_UDEG_MAX
                    || *longitude > geo::LON_UDEG_MAX || *longitude < -geo::LON_UDEG_MAX {
                    OpOutcome::Ignored
                } else if self.create_port(*id, *latitude, *longitude) {
                    OpOutcome::Applied
                } else {
                    OpOutcome::DuplicateId
                }
            },
            Operation::CreateShip {
                id,
                port_id,
                total_weight_capacity,
                max_number_of_all_containers,
                max_number_of_heavy_containers,
                max_number_of_refrigerated_containers,
                max_number_of_liquid_containers,
                fuel_consumption_per_km,
            } => {
                self.create_ship(
                    *id,
                    *port_id,
                    *total_weight_capacity,
                    *max_number_of_all_containers,
                    *max_number_of_heavy_containers,
                    *max_number_of_refrigerated_containers,
                    *max_number_of_liquid_containers,
                    *fuel_consumption_per_km,
                )
            },
            Operation::CreateContainer { id, weight, special, port_id } => {
                if *weight > MAX_WEIGHT {
                    OpOutcome::Ignored
                } else {
                    let sp: Option<&str> = match special {
                        Some(st) => Some(st.as_str()),
                        None => None,
                    };
                    self.create_container(*id, *weight, sp, *port_id)
                }
            },
            Operation::Load { ship_id, container_id } => {
                match crate::lookup::find_ship(&self.ships, *ship_id) {
                    None => OpOutcome::Ignored,
                    Some(_) => {
                        if self.load(*ship_id, *container_id) {
                            OpOutcome::Applied
                        } else {
                            OpOutcome::Failed
                        }
                    },
                }
            },
            Operation::Unload { ship_id, container_id } => {
                match crate::lookup::find_ship(&self.ships, *ship_id) {
                    None => OpOutcome::Ignored,
                    Some(_) => {
                        if self.un_load(*ship_id, *container_id) {
                            OpOutcome::Applied
                        } else {
                            OpOutcome::Failed
                        }
                    },
                }
            },
            Operation::Sail { ship_id, dest_port_id } => {
                let sr = self.sail(*ship_id, *dest_port_id);
                let r = match sr {
                    SailOutcome::UnknownShip => OpOutcome::Ignored,
                    SailOutcome::UnknownDestination => OpOutcome::Ignored,
                    SailOutcome::Direct => OpOutcome::Applied,
                    SailOutcome::ViaDetour => OpOutcome::Applied,
                    SailOutcome::Stranded => OpOutcome::PartiallyApplied,
                    SailOutcome::Failed => OpOutcome::Failed,
                };
                proof {
                    assert(sail_spec(*old(self), *self, *ship_id, *dest_port_id, sr));
                }
                r
            },
            Operation::Refuel { ship_id, amount } => self.refuel(*ship_id, *amount),
        }
    }
}

/// Conservation of containers: in a well-formed world every registered
/// container sits in exactly one place, either one port's inventory or one
/// ship's manifest, never both and never neither. Since every operation
/// preserves well-formedness, this holds at every point after creation.
pub proof fn lemma_conservation(w: World, cid: u64)
    requires
        w.wf(),
        has_cont(w.containers@, cid),
    ensures
        w.placed(cid),
        forall|i1: int, i2: int|
            0 <= i1 < w.ports@.len() && 0 <= i2 < w.ports@.len()
                && #[trigger] w.ports@[i1].containers@.contains(cid)
                && #[trigger] w.ports@[i2].containers@.contains(cid) ==> i1 == i2,
        forall|j1: int, j2: int|
            0 <= j1 < w.ships@.len() && 0 <= j2 < w.ships@.len()
                && #[trigger] w.ships@[j1].containers@.contains(cid)
                && #[trigger] w.ships@[j2].containers@.contains(cid) ==> j1 == j2,
        forall|i: int, j: int|
            0 <= i < w.ports@.len() && 0 <= j < w.ships@.len() ==> !(
            #[trigger] w.ports@[i].containers@.contains(cid)
                && #[trigger] w.ships@[j].containers@.contains(cid)),
{
    let k = choose|k: int| 0 <= k < w.containers@.len() && w.containers@[k].spec_id() == cid;
    assert(w.placed(w.containers@[k].spec_id()));
}

/// Capacity invariants: in a well-formed world every ship's manifest
/// respects all five of its limits; in particular they hold after any
/// successful load, which returns a well-formed world.
pub proof fn lemma_capacity_invariant(w: World, j: int)
    requires
        w.wf(),
        0 <= j < w.ships@.len(),
    ensures
        weight_sum(w.ships@[j].containers@, w.containers@) <= w.ships@[j].total_weight_capacity,
        w.ships@[j].containers@.len() <= w.ships@[j].max_number_of_all_containers,
        heavy_count(w.ships@[j].containers@, w.containers@) <= w.ships@[
            j
        ].max_number_of_heavy_containers,
        refrigerated_count(w.ships@[j].containers@, w.containers@) <= w.ships@[
            j
        ].max_number_of_refrigerated_containers,
        liquid_count(w.ships@[j].containers@, w.containers@) <= w.ships@[
            j
        ].max_number_of_liquid_containers,
{
    assert(World::cap_ok(w.ships@[j], w.containers@));
}

} // verus!
