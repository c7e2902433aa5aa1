//! The closed sets the machine is built from: nozzle types, heads and rack
//! stations.

use vstd::prelude::*;

verus! {

/// A pick-up nozzle type. Each one handles a size class of component.
#[derive(Clone, Copy, Debug, PartialEq, Eq, Structural, PartialOrd, Ord, Hash)]
pub enum Nozzle {
    /// 0201
    CN030,
    /// 0402
    CN040,
    /// 0402, 0603
    CN065,
    /// 0805, diodes, 1206, 1210
    CN100,
    /// 1206, 1210, 1812, 2010, SOT23, 5050
    CN140,
    /// SOP, SOT89, SOT223, SOT252
    CN220,
    /// ICs from 5 to 12mm
    CN400,
    /// ICs bigger than 12mm
    CN750,
    /// 3528 soft bead
    YX01,
    /// High power lamp beads
    YX02,
    /// Chips and BGA from 11mm to 17mm
    YX03,
    /// Chips and BGA bigger than 17mm
    YX04,
    /// 4148 circular diode
    YX05,
    /// 3535 ball shape LED
    YX06,
}

/// Number of nozzle types.
pub const NOZZLE_KINDS: usize = 14;

impl Nozzle {
    /// Position of the nozzle type in declaration order, from 0.
    pub open spec fn spec_ordinal(self) -> nat {
        match self {
            Nozzle::CN030 => 0,
            Nozzle::CN040 => 1,
            Nozzle::CN065 => 2,
            Nozzle::CN100 => 3,
            Nozzle::CN140 => 4,
            Nozzle::CN220 => 5,
            Nozzle::CN400 => 6,
            Nozzle::CN750 => 7,
            Nozzle::YX01 => 8,
            Nozzle::YX02 => 9,
            Nozzle::YX03 => 10,
            Nozzle::YX04 => 11,
            Nozzle::YX05 => 12,
            Nozzle::YX06 => 13,
        }
    }

    pub fn ordinal(self) -> (r: usize)
        ensures
            r == self.spec_ordinal(),
            r < NOZZLE_KINDS,
    {
        match self {
            Nozzle::CN030 => 0,
            Nozzle::CN040 => 1,
            Nozzle::CN065 => 2,
            Nozzle::CN100 => 3,
            Nozzle::CN140 => 4,
            Nozzle::CN220 => 5,
            Nozzle::CN400 => 6,
            Nozzle::CN750 => 7,
            Nozzle::YX01 => 8,
            Nozzle::YX02 => 9,
            Nozzle::YX03 => 10,
            Nozzle::YX04 => 11,
            Nozzle::YX05 => 12,
            Nozzle::YX06 => 13,
        }
    }
}

/// One of the two pick heads.
#[derive(Clone, Copy, Debug, PartialEq, Eq, Structural)]
pub enum Head {
    Head1,
    Head2,
}

impl Head {
    pub open spec fn spec_other(self) -> Head {
        match self {
            Head::Head1 => Head::Head2,
            Head::Head2 => Head::Head1,
        }
    }

    /// The head that is not `self`.
    pub fn other(self) -> (r: Head)
        ensures
            r == self.spec_other(),
    {
        match self {
            Head::Head1 => Head::Head2,
            Head::Head2 => Head::Head1,
        }
    }

    pub open spec fn spec_number(self) -> u8 {
        match self {
            Head::Head1 => 1,
            Head::Head2 => 2,
        }
    }

    /// The number the machine uses for the head: 1 or 2.
    pub fn number(self) -> (r: u8)
        ensures
            r == self.spec_number(),
    {
        match self {
            Head::Head1 => 1,
            Head::Head2 => 2,
        }
    }
}

impl std::ops::Not for Head {
    type Output = Head;

    fn not(self) -> (r: Head) {
        self.other()
    }
}

impl vstd::std_specs::ops::NotSpecImpl for Head {
    open spec fn obeys_not_spec() -> bool {
        true
    }

    open spec fn not_req(self) -> bool {
        true
    }

    open spec fn not_spec(self) -> Head {
        self.spec_other()
    }
}

/// One of the three rack stations where an unmounted nozzle is parked.
#[derive(Clone, Copy, Debug, PartialEq, Eq, Structural)]
pub enum NozzleStation {
    Station1,
    Station2,
    Station3,
}

} // verus!
