//! Ports: geographic location, container inventory, ship presence and
//! visit history.
//!
//! A port's presence set holds the ships currently moored there; its
//! history holds every ship that has ever arrived and never shrinks. The
//! three id collections are duplicate-free vectors.

use vstd::prelude::*;

verus! {

use crate::geo;
use crate::idvec::contains_id;
use crate::idvec::insert_id;
use crate::idvec::remove_id;

/// A port of the simulated world. Coordinates are in micro-degrees.
#[derive(Debug)]
pub struct Port {
    pub id: u64,
    pub latitude: i64,
    pub longitude: i64,
    /// Ids of the containers stored in this port.
    pub containers: Vec<u64>,
    /// Ids of the ships that have ever visited this port.
    pub history: Vec<u64>,
    /// Ids of the ships currently present.
    pub current: Vec<u64>,
}

/// Arrival and departure bookkeeping of a port.
pub trait IPort {
    spec fn presence(&self) -> Seq<u64>;

    spec fn visited(&self) -> Seq<u64>;

    spec fn stored(&self) -> Seq<u64>;

    spec fn ident(&self) -> u64;

    spec fn coords(&self) -> (i64, i64);

    /// Records an arrival: the ship joins the presence set and the history;
    /// arriving twice has no further effect.
    fn incoming_ship(&mut self, s_id: u64)
        requires
            old(self).presence().no_duplicates(),
            old(self).visited().no_duplicates(),
        ensures
            final(self).presence().no_duplicates(),
            final(self).visited().no_duplicates(),
            forall|y: u64|
                final(self).presence().contains(y) == (old(self).presence().contains(y) || y
                    == s_id),
            forall|y: u64|
                final(self).visited().contains(y) == (old(self).visited().contains(y) || y
                    == s_id),
            final(self).stored() == old(self).stored(),
            final(self).ident() == old(self).ident(),
            final(self).coords() == old(self).coords(),
    ;

    /// Records a departure: the ship leaves the presence set; the history
    /// keeps it.
    fn outgoing_ship(&mut self, s_id: u64)
        requires
            old(self).presence().no_duplicates(),
        ensures
            final(self).presence().no_duplicates(),
            !final(self).presence().contains(s_id),
            forall|y: u64|
                y != s_id ==> final(self).presence().contains(y) == old(
                    self,
                ).presence().contains(y),
            final(self).visited() == old(self).visited(),
            final(self).stored() == old(self).stored(),
            final(self).ident() == old(self).ident(),
            final(self).coords() == old(self).coords(),
    ;
}

impl Port {
    /// Structural well-formedness: coordinates within range, id collections
    /// duplicate-free, and every present ship already recorded as a visitor.
    pub open spec fn wf(&self) -> bool {
        &&& geo::valid_lat(self.latitude as int)
        &&& geo::valid_lon(self.longitude as int)
        &&& self.containers@.no_duplicates()
        &&& self.current@.no_duplicates()
        &&& self.history@.no_duplicates()
        &&& forall|y: u64| self.current@.contains(y) ==> self.history@.contains(y)
    }

    /// A new port with empty inventory, presence and history.
    pub fn new(id: u64, latitude: i64, longitude: i64) -> (p: Port)
        requires
            geo::valid_lat(latitude as int),
            geo::valid_lon(longitude as int),
        ensures
            p.wf(),
            p.id == id,
            p.latitude == latitude,
            p.longitude == longitude,
            p.containers@ == Seq::<u64>::empty(),
            p.history@ == Seq::<u64>::empty(),
            p.current@ == Seq::<u64>::empty(),
    {
        Port {
            id,
            latitude,
            longitude,
            containers: Vec::new(),
            history: Vec::new(),
            current: Vec::new(),
        }
    }

    /// The great-circle distance to another port, in milli-kilometres.
    pub fn get_distance(&self, other: &Port) -> (d: u64)
        requires
            self.wf(),
            other.wf(),
        ensures
            d as int == geo::dist_mkm(
                self.latitude as int,
                self.longitude as int,
                other.latitude as int,
                other.longitude as int,
            ),
            d <= geo::DIST_MKM_MAX,
    {
        geo::distance(self.latitude, self.longitude, other.latitude, other.longitude)
    }

    /// Puts a container into this port's inventory (no capacity bound).
    pub fn add_container(&mut self, c_id: u64)
        requires
            old(self).containers@.no_duplicates(),
        ensures
            final(self).containers@.no_duplicates(),
            forall|y: u64|
                final(self).containers@.contains(y) == (old(self).containers@.contains(y) || y
                    == c_id),
            final(self).id == old(self).id,
            final(self).latitude == old(self).latitude,
            final(self).longitude == old(self).longitude,
            final(self).history == old(self).history,
            final(self).current == old(self).current,
    {
        insert_id(&mut self.containers, c_id);
    }

    /// Takes a container out of this port's inventory; reports whether it
    /// was there.
    pub fn remove_container(&mut self, c_id: u64) -> (found: bool)
        requires
            old(self).containers@.no_duplicates(),
        ensures
            final(self).containers@.no_duplicates(),
            found == old(self).containers@.contains(c_id),
            !final(self).containers@.contains(c_id),
            forall|y: u64|
                y != c_id ==> final(self).containers@.contains(y) == old(
                    self,
                ).containers@.contains(y),
            final(self).id == old(self).id,
            final(self).latitude == old(self).latitude,
            final(self).longitude == old(self).longitude,
            final(self).history == old(self).history,
            final(self).current == old(self).current,
    {
        remove_id(&mut self.containers, c_id)
    }

    /// Whether a container is stored in this port.
    pub fn has_container(&self, c_id: u64) -> (b: bool)
        ensures
            b == self.containers@.contains(c_id),
    {
        contains_id(&self.containers, c_id)
    }
}

impl IPort for Port {
    open spec fn presence(&self) -> Seq<u64> {
        self.current@
    }

    open spec fn visited(&self) -> Seq<u64> {
        self.history@
    }

    open spec fn stored(&self) -> Seq<u64> {
        self.containers@
    }

    open spec fn ident(&self) -> u64 {
        self.id
    }

    open spec fn coords(&self) -> (i64, i64) {
        (self.latitude, self.longitude)
    }

    fn incoming_ship(&mut self, s_id: u64) {
        insert_id(&mut self.current, s_id);
        insert_id(&mut self.history, s_id);
    }

    fn outgoing_ship(&mut self, s_id: u64) {
        remove_id(&mut self.current, s_id);
    }
}

} // verus!
