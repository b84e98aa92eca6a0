//! Cargo containers and their classification.
//!
//! A container is classified once, at creation: a special marker `"R"`
//! forces the refrigerated kind and `"L"` the liquid kind; otherwise the
//! weight decides between basic (up to 3000 units) and heavy. Each kind
//! carries a fixed consumption rate per weight unit, stored in milli-units:
//! basic 2.50, heavy 3.00, refrigerated 5.00, liquid 4.00.

use vstd::prelude::*;

verus! {

/// Largest admissible container weight (the interchange format carries
/// weights as signed 32-bit numbers).
pub const MAX_WEIGHT: u64 = 2_147_483_647;

/// Weights above this bound classify an unmarked container as heavy.
pub const BASIC_WEIGHT_LIMIT: u64 = 3000;

/// Consumption rates per weight unit, in milli-units.
pub const RATE_BASIC: u64 = 2500;
pub const RATE_HEAVY: u64 = 3000;
pub const RATE_REFRIGERATED: u64 = 5000;
pub const RATE_LIQUID: u64 = 4000;

/// A cargo container: an identity, a weight, and the kind fixed at creation.
#[derive(Clone, Debug)]
pub enum ContainerData {
    Basic { id: u64, weight: u64 },
    Heavy { id: u64, weight: u64 },
    Refrigerated { id: u64, weight: u64 },
    Liquid { id: u64, weight: u64 },
}

impl ContainerData {
    pub open spec fn spec_id(&self) -> u64 {
        match self {
            ContainerData::Basic { id, .. } => *id,
            ContainerData::Heavy { id, .. } => *id,
            ContainerData::Refrigerated { id, .. } => *id,
            ContainerData::Liquid { id, .. } => *id,
        }
    }

    pub open spec fn spec_weight(&self) -> u64 {
        match self {
            ContainerData::Basic { weight, .. } => *weight,
            ContainerData::Heavy { weight, .. } => *weight,
            ContainerData::Refrigerated { weight, .. } => *weight,
            ContainerData::Liquid { weight, .. } => *weight,
        }
    }

    /// Heavy, refrigerated and liquid containers all occupy a heavy-class
    /// slot aboard a ship.
    pub open spec fn is_heavy_class(&self) -> bool {
        !(self is Basic)
    }

    pub open spec fn is_refrigerated(&self) -> bool {
        self is Refrigerated
    }

    pub open spec fn is_liquid(&self) -> bool {
        self is Liquid
    }

    pub open spec fn wf(&self) -> bool {
        self.spec_weight() <= MAX_WEIGHT
    }

    pub open spec fn spec_rate(&self) -> u64 {
        match self {
            ContainerData::Basic { .. } => RATE_BASIC,
            ContainerData::Heavy { .. } => RATE_HEAVY,
            ContainerData::Refrigerated { .. } => RATE_REFRIGERATED,
            ContainerData::Liquid { .. } => RATE_LIQUID,
        }
    }

    /// The flat fuel surcharge this container adds to every voyage leg,
    /// in milli-units: rate times weight, independent of distance.
    pub open spec fn spec_total_consumption(&self) -> int {
        self.spec_rate() * self.spec_weight()
    }

    pub fn id(&self) -> (r: u64)
        ensures
            r == self.spec_id(),
    {
        match self {
            ContainerData::Basic { id, .. } => *id,
            ContainerData::Heavy { id, .. } => *id,
            ContainerData::Refrigerated { id, .. } => *id,
            ContainerData::Liquid { id, .. } => *id,
        }
    }

    pub fn weight(&self) -> (r: u64)
        ensures
            r == self.spec_weight(),
    {
        match self {
            ContainerData::Basic { weight, .. } => *weight,
            ContainerData::Heavy { weight, .. } => *weight,
            ContainerData::Refrigerated { weight, .. } => *weight,
            ContainerData::Liquid { weight, .. } => *weight,
        }
    }

    /// The consumption rate per weight unit, in milli-units.
    pub fn consumption_per_unit(&self) -> (r: u64)
        ensures
            r == self.spec_rate(),
    {
        match self {
            ContainerData::Basic { .. } => RATE_BASIC,
            ContainerData::Heavy { .. } => RATE_HEAVY,
            ContainerData::Refrigerated { .. } => RATE_REFRIGERATED,
            ContainerData::Liquid { .. } => RATE_LIQUID,
        }
    }

    /// The flat per-leg fuel surcharge of this container, in milli-units.
    pub fn total_consumption(&self) -> (r: u64)
        requires
            self.wf(),
        ensures
            r as int == self.spec_total_consumption(),
    {
        proof {
            assert(self.spec_rate() * self.spec_weight()
                <= (RATE_REFRIGERATED as int) * (MAX_WEIGHT as int)) by (nonlinear_arith)
                requires
                    0 <= self.spec_rate() <= RATE_REFRIGERATED as int,
                    0 <= self.spec_weight() <= MAX_WEIGHT as int,
            ;
        }
        self.consumption_per_unit() * self.weight()
    }

    pub fn kind_name(&self) -> (r: &'static str)
        ensures
            r@ == self.spec_kind_name(),
    {
        match self {
            ContainerData::Basic { .. } => "basic",
            ContainerData::Heavy { .. } => "heavy",
            ContainerData::Refrigerated { .. } => "refrigerated",
            ContainerData::Liquid { .. } => "liquid",
        }
    }

    pub open spec fn spec_kind_name(&self) -> Seq<char> {
        match self {
            ContainerData::Basic { .. } => "basic"@,
            ContainerData::Heavy { .. } => "heavy"@,
            ContainerData::Refrigerated { .. } => "refrigerated"@,
            ContainerData::Liquid { .. } => "liquid"@,
        }
    }
}

/// Whether the marker string is exactly the one-character marker `c`.
pub open spec fn is_marker(s: Seq<char>, c: char) -> bool {
    s.len() == 1 && s[0] == c
}

/// The classification rule: a marker `"R"` gives a refrigerated container
/// and `"L"` a liquid one; otherwise weight up to [`BASIC_WEIGHT_LIMIT`]
/// gives basic and anything heavier gives heavy.
pub open spec fn classify_spec(id: u64, weight: u64, special: Option<Seq<char>>) -> ContainerData {
    if special matches Some(s) && is_marker(s, 'R') {
        ContainerData::Refrigerated { id, weight }
    } else if special matches Some(s) && is_marker(s, 'L') {
        ContainerData::Liquid { id, weight }
    } else if weight <= BASIC_WEIGHT_LIMIT {
        ContainerData::Basic { id, weight }
    } else {
        ContainerData::Heavy { id, weight }
    }
}

/// The view of an optional marker string.
pub open spec fn marker_view(special: Option<&str>) -> Option<Seq<char>> {
    match special {
        Some(s) => Some(s@),
        None => None,
    }
}

/// Classifies a new container from its weight and optional special marker.
pub fn classify(id: u64, weight: u64, special: Option<&str>) -> (r: ContainerData)
    ensures
        r == classify_spec(id, weight, marker_view(special)),
{
    match special {
        Some(s) => {
            let n = s.unicode_len();
            if n == 1 {
                let c = s.get_char(0);
                if c == 'R' {
                    ContainerData::Refrigerated { id, weight }
                } else if c == 'L' {
                    ContainerData::Liquid { id, weight }
                } else if weight <= BASIC_WEIGHT_LIMIT {
                    ContainerData::Basic { id, weight }
                } else {
                    ContainerData::Heavy { id, weight }
                }
            } else if weight <= BASIC_WEIGHT_LIMIT {
                ContainerData::Basic { id, weight }
            } else {
                ContainerData::Heavy { id, weight }
            }
        },
        None => {
            if weight <= BASIC_WEIGHT_LIMIT {
                ContainerData::Basic { id, weight }
            } else {
                ContainerData::Heavy { id, weight }
            }
        },
    }
}

/// Classification is stable: the kind derived from a weight and marker is a
/// pure function of them, so re-deriving it from the original creation data
/// always yields the container created then, case by case.
pub proof fn lemma_classification_stable(id: u64, weight: u64, special: Option<Seq<char>>)
    ensures
        (special matches Some(s) && is_marker(s, 'R')) ==> classify_spec(id, weight, special)
            == (ContainerData::Refrigerated { id, weight }),
        (special matches Some(s) && is_marker(s, 'L')) ==> classify_spec(id, weight, special)
            == (ContainerData::Liquid { id, weight }),
        !(special matches Some(s) && (is_marker(s, 'R') || is_marker(s, 'L')))
            && weight <= BASIC_WEIGHT_LIMIT ==> classify_spec(id, weight, special)
            == (ContainerData::Basic { id, weight }),
        !(special matches Some(s) && (is_marker(s, 'R') || is_marker(s, 'L')))
            && weight > BASIC_WEIGHT_LIMIT ==> classify_spec(id, weight, special)
            == (ContainerData::Heavy { id, weight }),
        classify_spec(id, weight, special).spec_id() == id,
        classify_spec(id, weight, special).spec_weight() == weight,
{
}

} // verus!
