//! Ships: fuel, location, cargo manifest and capacity limits.
//!
//! A ship's manifest is an ordered, duplicate-free vector of container ids;
//! the manifest statistics (total weight, class counts, fuel surcharge) are
//! folds over it against the container registry.

use vstd::prelude::*;

verus! {

use crate::container::ContainerData;
use crate::container::MAX_WEIGHT;
use crate::container::RATE_REFRIGERATED;
use crate::idvec::sort_ids;
use crate::idvec::sorted_ids;
use crate::lookup::cont_at;
use crate::lookup::distinct_cont_ids;
use crate::lookup::find_container;
use crate::lookup::has_cont;
use crate::lookup::lemma_cont_at_in;
use crate::lookup::lemma_cont_at_is;

/// Largest fuel surcharge a single container can impose, in milli-units.
pub const MAX_SURCHARGE: u64 = 10_737_418_235_000;

/// A ship of the simulated world. Fuel and the fuel rate are in
/// milli-units; the five capacity limits are fixed at creation.
#[derive(Debug)]
pub struct Ship {
    pub id: u64,
    /// Current fuel, in milli-units.
    pub fuel: u64,
    /// Id of the port the ship is at.
    pub current_port: u64,
    pub total_weight_capacity: u64,
    pub max_number_of_all_containers: u64,
    pub max_number_of_heavy_containers: u64,
    pub max_number_of_refrigerated_containers: u64,
    pub max_number_of_liquid_containers: u64,
    /// Fuel burnt per kilometre, in milli-units.
    pub fuel_consumption_per_km: u64,
    /// Ids of the containers aboard, in loading order.
    pub containers: Vec<u64>,
}

/// Addition on `u64` that saturates at the largest representable value.
pub open spec fn sat_add_u64(a: u64, b: u64) -> u64 {
    if a + b > u64::MAX {
        u64::MAX
    } else {
        (a + b) as u64
    }
}

/// A fold over a manifest from position `k` on: applies `f` to the
/// registered container behind each id and sums the results.
pub open spec fn msum(
    m: Seq<u64>,
    cs: Seq<ContainerData>,
    f: spec_fn(ContainerData) -> int,
    k: int,
) -> int
    decreases m.len() - k,
{
    if k < 0 || k >= m.len() {
        0
    } else {
        f(cont_at(cs, m[k])) + msum(m, cs, f, k + 1)
    }
}

pub open spec fn f_weight() -> spec_fn(ContainerData) -> int {
    |c: ContainerData| c.spec_weight() as int
}

pub open spec fn f_heavy() -> spec_fn(ContainerData) -> int {
    |c: ContainerData|
        if c.is_heavy_class() {
            1int
        } else {
            0int
        }
}

pub open spec fn f_refrigerated() -> spec_fn(ContainerData) -> int {
    |c: ContainerData|
        if c.is_refrigerated() {
            1int
        } else {
            0int
        }
}

pub open spec fn f_liquid() -> spec_fn(ContainerData) -> int {
    |c: ContainerData|
        if c.is_liquid() {
            1int
        } else {
            0int
        }
}

pub open spec fn f_surcharge() -> spec_fn(ContainerData) -> int {
    |c: ContainerData| c.spec_total_consumption()
}

/// Total weight aboard, from the manifest and the container registry.
pub open spec fn weight_sum(m: Seq<u64>, cs: Seq<ContainerData>) -> int {
    msum(m, cs, f_weight(), 0)
}

/// Number of heavy-class (heavy, refrigerated or liquid) containers aboard.
pub open spec fn heavy_count(m: Seq<u64>, cs: Seq<ContainerData>) -> int {
    msum(m, cs, f_heavy(), 0)
}

pub open spec fn refrigerated_count(m: Seq<u64>, cs: Seq<ContainerData>) -> int {
    msum(m, cs, f_refrigerated(), 0)
}

pub open spec fn liquid_count(m: Seq<u64>, cs: Seq<ContainerData>) -> int {
    msum(m, cs, f_liquid(), 0)
}

/// The distance-independent fuel surcharge of one voyage leg, in
/// milli-units: the sum of the containers' total consumptions.
pub open spec fn surcharge_sum(m: Seq<u64>, cs: Seq<ContainerData>) -> int {
    msum(m, cs, f_surcharge(), 0)
}

/// Every id of the manifest refers to a registered container.
pub open spec fn manifest_registered(m: Seq<u64>, cs: Seq<ContainerData>) -> bool {
    forall|j: int| 0 <= j < m.len() ==> has_cont(cs, m[j])
}

/// Every container of the registry is well-formed.
pub open spec fn all_conts_wf(cs: Seq<ContainerData>) -> bool {
    forall|k: int| 0 <= k < cs.len() ==> cs[k].wf()
}

/// A fold is bounded by a per-item bound on `f`.
pub proof fn lemma_msum_bound(
    m: Seq<u64>,
    cs: Seq<ContainerData>,
    f: spec_fn(ContainerData) -> int,
    k: int,
    b: int,
)
    requires
        forall|j: int| k <= j < m.len() ==> 0 <= #[trigger] f(cont_at(cs, m[j])) <= b,
        0 <= b,
        k <= m.len(),
    ensures
        0 <= msum(m, cs, f, k) <= (m.len() - k) * b,
    decreases m.len() - k,
{
    if k < 0 {
        lemma_msum_bound(m, cs, f, 0, b);
        assert((m.len() - 0) * b <= (m.len() - k) * b) by (nonlinear_arith)
            requires
                k < 0,
                0 <= b,
        ;
    } else if k == m.len() {
        assert((m.len() - k) * b == 0) by (nonlinear_arith)
            requires
                k == m.len(),
        ;
        assert(msum(m, cs, f, k) == 0);
    } else {
        lemma_msum_bound(m, cs, f, k + 1, b);
        assert((m.len() - k) * b == (m.len() - (k + 1)) * b + b) by (nonlinear_arith);
    }
}

/// Appending an id adds that container's contribution to the fold.
pub proof fn lemma_msum_push(
    m: Seq<u64>,
    cs: Seq<ContainerData>,
    f: spec_fn(ContainerData) -> int,
    x: u64,
    k: int,
)
    requires
        0 <= k <= m.len(),
    ensures
        msum(m.push(x), cs, f, k) == msum(m, cs, f, k) + f(cont_at(cs, x)),
    decreases m.len() - k,
{
    let e = m.push(x);
    if k == m.len() {
        assert(e[k] == x);
        assert(msum(e, cs, f, k + 1) == 0);
    } else {
        assert(e[k] == m[k]);
        lemma_msum_push(m, cs, f, x, k + 1);
    }
}

/// Overwriting position `i` swaps its contribution in the fold.
pub proof fn lemma_msum_update(
    m: Seq<u64>,
    cs: Seq<ContainerData>,
    f: spec_fn(ContainerData) -> int,
    i: int,
    x: u64,
    k: int,
)
    requires
        0 <= k <= m.len(),
        0 <= i < m.len(),
    ensures
        k <= i ==> msum(m.update(i, x), cs, f, k) == msum(m, cs, f, k) - f(cont_at(cs, m[i]))
            + f(cont_at(cs, x)),
        k > i ==> msum(m.update(i, x), cs, f, k) == msum(m, cs, f, k),
    decreases m.len() - k,
{
    let e = m.update(i, x);
    if k == m.len() {
    } else {
        lemma_msum_update(m, cs, f, i, x, k + 1);
        if k == i {
            assert(e[k] == x);
        } else {
            assert(e[k] == m[k]);
        }
    }
}

/// Dropping the last id removes its contribution from the fold.
pub proof fn lemma_msum_drop_last(
    m: Seq<u64>,
    cs: Seq<ContainerData>,
    f: spec_fn(ContainerData) -> int,
    k: int,
)
    requires
        0 <= k < m.len(),
    ensures
        msum(m.drop_last(), cs, f, k) == msum(m, cs, f, k) - f(cont_at(cs, m.last())),
    decreases m.len() - k,
{
    let e = m.drop_last();
    assert(msum(m, cs, f, k) == f(cont_at(cs, m[k])) + msum(m, cs, f, k + 1));
    if k == m.len() - 1 {
        assert(msum(e, cs, f, k) == 0);
        assert(msum(m, cs, f, k + 1) == 0);
        assert(m[k] == m.last());
    } else {
        assert(e[k] == m[k]);
        assert(msum(e, cs, f, k) == f(cont_at(cs, e[k])) + msum(e, cs, f, k + 1));
        lemma_msum_drop_last(m, cs, f, k + 1);
    }
}

/// A fold does not change when every manifest id looks up to the same
/// container in two registries.
pub proof fn lemma_msum_same_lookup(
    m: Seq<u64>,
    cs1: Seq<ContainerData>,
    cs2: Seq<ContainerData>,
    f: spec_fn(ContainerData) -> int,
    k: int,
)
    requires
        forall|j: int|
            0 <= j < m.len() ==> cont_at(cs1, #[trigger] m[j]) == cont_at(cs2, m[j]),
    ensures
        msum(m, cs1, f, k) == msum(m, cs2, f, k),
    decreases m.len() - k,
{
    if 0 <= k < m.len() {
        lemma_msum_same_lookup(m, cs1, cs2, f, k + 1);
    }
}

/// Per-item bounds of the five statistic folds over a registered,
/// well-formed manifest.
pub proof fn lemma_stat_item_bounds(m: Seq<u64>, cs: Seq<ContainerData>)
    requires
        manifest_registered(m, cs),
        all_conts_wf(cs),
    ensures
        forall|j: int|
            0 <= j < m.len() ==> 0 <= #[trigger] f_weight()(cont_at(cs, m[j]))
                <= MAX_WEIGHT as int,
        forall|j: int| 0 <= j < m.len() ==> 0 <= #[trigger] f_heavy()(cont_at(cs, m[j])) <= 1,
        forall|j: int|
            0 <= j < m.len() ==> 0 <= #[trigger] f_refrigerated()(cont_at(cs, m[j])) <= 1,
        forall|j: int| 0 <= j < m.len() ==> 0 <= #[trigger] f_liquid()(cont_at(cs, m[j])) <= 1,
        forall|j: int|
            0 <= j < m.len() ==> 0 <= #[trigger] f_surcharge()(cont_at(cs, m[j]))
                <= MAX_SURCHARGE as int,
{
    assert forall|j: int| 0 <= j < m.len()
        implies (#[trigger] cont_at(cs, m[j])).wf() by {
        lemma_cont_at_in(cs, m[j]);
        let kk = choose|kk: int| 0 <= kk < cs.len() && cs[kk] == cont_at(cs, m[j]);
        assert(cs[kk].wf());
    }
    assert forall|j: int| 0 <= j < m.len()
        implies 0 <= #[trigger] f_weight()(cont_at(cs, m[j])) <= MAX_WEIGHT as int by {
        assert(cont_at(cs, m[j]).wf());
    }
    assert forall|j: int| 0 <= j < m.len()
        implies 0 <= #[trigger] f_heavy()(cont_at(cs, m[j])) <= 1 by {}
    assert forall|j: int| 0 <= j < m.len()
        implies 0 <= #[trigger] f_refrigerated()(cont_at(cs, m[j])) <= 1 by {}
    assert forall|j: int| 0 <= j < m.len()
        implies 0 <= #[trigger] f_liquid()(cont_at(cs, m[j])) <= 1 by {}
    assert forall|j: int| 0 <= j < m.len()
        implies 0 <= #[trigger] f_surcharge()(cont_at(cs, m[j])) <= MAX_SURCHARGE as int by {
        let c = cont_at(cs, m[j]);
        assert(c.wf());
        assert(c.spec_rate() * c.spec_weight() <= (RATE_REFRIGERATED as int) * (
        MAX_WEIGHT as int)) by (nonlinear_arith)
            requires
                0 <= c.spec_rate() <= RATE_REFRIGERATED as int,
                0 <= c.spec_weight() <= MAX_WEIGHT as int,
        ;
    }
}

/// The five manifest statistics, computed in one pass.
pub struct ManifestStats {
    pub weight: u128,
    pub heavy: u64,
    pub refrigerated: u64,
    pub liquid: u64,
    pub surcharge: u128,
}

/// Computes the manifest statistics of `m` against the registry `cs`.
pub fn manifest_stats(m: &Vec<u64>, cs: &Vec<ContainerData>) -> (r: ManifestStats)
    requires
        distinct_cont_ids(cs@),
        manifest_registered(m@, cs@),
        all_conts_wf(cs@),
    ensures
        r.weight as int == weight_sum(m@, cs@),
        r.heavy as int == heavy_count(m@, cs@),
        r.refrigerated as int == refrigerated_count(m@, cs@),
        r.liquid as int == liquid_count(m@, cs@),
        r.surcharge as int == surcharge_sum(m@, cs@),
        r.heavy <= m@.len(),
        r.refrigerated <= m@.len(),
        r.liquid <= m@.len(),
        r.surcharge < 0x1_0000_0000_0000_0000_0000_0000_0000,
{
    proof {
        lemma_stat_item_bounds(m@, cs@);
    }
    let mut weight: u128 = 0;
    let mut heavy: u64 = 0;
    let mut refrigerated: u64 = 0;
    let mut liquid: u64 = 0;
    let mut surcharge: u128 = 0;
    let mut i: usize = m.len();
    while i > 0
        invariant
            i <= m@.len(),
            weight as int == msum(m@, cs@, f_weight(), i as int),
            heavy as int == msum(m@, cs@, f_heavy(), i as int),
            refrigerated as int == msum(m@, cs@, f_refrigerated(), i as int),
            liquid as int == msum(m@, cs@, f_liquid(), i as int),
            surcharge as int == msum(m@, cs@, f_surcharge(), i as int),
        decreases i,
    {
        i = i - 1;
        let cid = m[i];
        proof {
            lemma_msum_bound(m@, cs@, f_weight(), i + 1, MAX_WEIGHT as int);
            lemma_msum_bound(m@, cs@, f_heavy(), i + 1, 1);
            lemma_msum_bound(m@, cs@, f_refrigerated(), i + 1, 1);
            lemma_msum_bound(m@, cs@, f_liquid(), i + 1, 1);
            lemma_msum_bound(m@, cs@, f_surcharge(), i + 1, MAX_SURCHARGE as int);
        }
        let j = match find_container(cs, cid) {
            Some(j) => j,
            None => {
                proof {
                    assert(has_cont(cs@, m@[i as int]));
                }
                unreached()
            },
        };
        proof {
            lemma_cont_at_is(cs@, cid, j as int);
        }
        let c = &cs[j];
        weight = weight + (c.weight() as u128);
        match c {
            ContainerData::Basic { .. } => {},
            _ => {
                heavy = heavy + 1;
            },
        }
        if let ContainerData::Refrigerated { .. } = c {
            refrigerated = refrigerated + 1;
        }
        if let ContainerData::Liquid { .. } = c {
            liquid = liquid + 1;
        }
        surcharge = surcharge + (c.total_consumption() as u128);
    }
    proof {
        lemma_msum_bound(m@, cs@, f_heavy(), 0, 1);
        lemma_msum_bound(m@, cs@, f_refrigerated(), 0, 1);
        lemma_msum_bound(m@, cs@, f_liquid(), 0, 1);
        lemma_msum_bound(m@, cs@, f_surcharge(), 0, MAX_SURCHARGE as int);
        assert(m@.len() * (MAX_SURCHARGE as int) < 0x1_0000_0000_0000_0000_0000_0000_0000)
            by (nonlinear_arith)
            requires
                0 <= m@.len() < 0x1_0000_0000_0000_0000,
        ;
    }
    ManifestStats { weight, heavy, refrigerated, liquid, surcharge }
}

impl Ship {
    /// Structural well-formedness: the manifest is duplicate-free.
    pub open spec fn wf(&self) -> bool {
        self.containers@.no_duplicates()
    }

    /// A new ship: no fuel, empty manifest, at the given port, with the
    /// given capacity limits and fuel rate.
    pub fn new(
        id: u64,
        current_port: u64,
        total_weight_capacity: u64,
        max_number_of_all_containers: u64,
        max_number_of_heavy_containers: u64,
        max_number_of_refrigerated_containers: u64,
        max_number_of_liquid_containers: u64,
        fuel_consumption_per_km: u64,
    ) -> (s: Ship)
        ensures
            s.wf(),
            s.id == id,
            s.fuel == 0,
            s.current_port == current_port,
            s.total_weight_capacity == total_weight_capacity,
            s.max_number_of_all_containers == max_number_of_all_containers,
            s.max_number_of_heavy_containers == max_number_of_heavy_containers,
            s.max_number_of_refrigerated_containers == max_number_of_refrigerated_containers,
            s.max_number_of_liquid_containers == max_number_of_liquid_containers,
            s.fuel_consumption_per_km == fuel_consumption_per_km,
            s.containers@ == Seq::<u64>::empty(),
    {
        Ship {
            id,
            fuel: 0,
            current_port,
            total_weight_capacity,
            max_number_of_all_containers,
            max_number_of_heavy_containers,
            max_number_of_refrigerated_containers,
            max_number_of_liquid_containers,
            fuel_consumption_per_km,
            containers: Vec::new(),
        }
    }

    /// Adds fuel; the tank saturates at the largest representable amount.
    pub fn re_fuel(&mut self, amount: u64)
        ensures
            final(self).fuel == sat_add_u64(old(self).fuel, amount),
            final(self).id == old(self).id,
            final(self).current_port == old(self).current_port,
            final(self).containers == old(self).containers,
            final(self).total_weight_capacity == old(self).total_weight_capacity,
            final(self).max_number_of_all_containers == old(self).max_number_of_all_containers,
            final(self).max_number_of_heavy_containers == old(
                self,
            ).max_number_of_heavy_containers,
            final(self).max_number_of_refrigerated_containers == old(
                self,
            ).max_number_of_refrigerated_containers,
            final(self).max_number_of_liquid_containers == old(
                self,
            ).max_number_of_liquid_containers,
            final(self).fuel_consumption_per_km == old(self).fuel_consumption_per_km,
    {
        if amount > u64::MAX - self.fuel {
            self.fuel = u64::MAX;
        } else {
            self.fuel = self.fuel + amount;
        }
    }

    /// Total manifest weight against the container registry.
    pub fn current_total_weight(&self, container_store: &Vec<ContainerData>) -> (r: u128)
        requires
            distinct_cont_ids(container_store@),
            manifest_registered(self.containers@, container_store@),
            all_conts_wf(container_store@),
        ensures
            r as int == weight_sum(self.containers@, container_store@),
    {
        manifest_stats(&self.containers, container_store).weight
    }

    /// Number of heavy-class (heavy, refrigerated or liquid) containers
    /// aboard.
    pub fn current_heavy_count(&self, container_store: &Vec<ContainerData>) -> (r: u64)
        requires
            distinct_cont_ids(container_store@),
            manifest_registered(self.containers@, container_store@),
            all_conts_wf(container_store@),
        ensures
            r as int == heavy_count(self.containers@, container_store@),
    {
        manifest_stats(&self.containers, container_store).heavy
    }

    /// Number of refrigerated containers aboard.
    pub fn current_refrigerated_count(&self, container_store: &Vec<ContainerData>) -> (r: u64)
        requires
            distinct_cont_ids(container_store@),
            manifest_registered(self.containers@, container_store@),
            all_conts_wf(container_store@),
        ensures
            r as int == refrigerated_count(self.containers@, container_store@),
    {
        manifest_stats(&self.containers, container_store).refrigerated
    }

    /// Number of liquid containers aboard.
    pub fn current_liquid_count(&self, container_store: &Vec<ContainerData>) -> (r: u64)
        requires
            distinct_cont_ids(container_store@),
            manifest_registered(self.containers@, container_store@),
            all_conts_wf(container_store@),
        ensures
            r as int == liquid_count(self.containers@, container_store@),
    {
        manifest_stats(&self.containers, container_store).liquid
    }

    /// The manifest in ascending id order.
    pub fn get_current_containers_sorted(&self) -> (r: Vec<u64>)
        requires
            self.wf(),
        ensures
            sorted_ids(r@),
            r@.no_duplicates(),
            r@.len() == self.containers@.len(),
            forall|y: u64| r@.contains(y) == self.containers@.contains(y),
    {
        sort_ids(&self.containers)
    }
}

} // verus!
