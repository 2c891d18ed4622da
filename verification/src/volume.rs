//! How volume readouts are shown: in decibels or in percent.

use vstd::prelude::*;
use crate::text::str_eq;

verus! {

/// The unit of the volume readouts.
#[derive(Copy, Clone, Debug, PartialEq, Eq, Structural)]
pub enum VolumeDisplay {
    Decibel,
    Percentage,
}

impl Default for VolumeDisplay {
    fn default() -> (r: VolumeDisplay)
        ensures
            r == VolumeDisplay::Decibel,
    {
        VolumeDisplay::Decibel
    }
}

/// The settings key of a unit.
pub open spec fn display_key(d: VolumeDisplay) -> Seq<char> {
    match d {
        VolumeDisplay::Decibel => "db"@,
        VolumeDisplay::Percentage => "percent"@,
    }
}

/// The unit a settings key names; anything but "percent" reads as decibels.
pub open spec fn display_from_key(s: Seq<char>) -> VolumeDisplay {
    if s == "percent"@ {
        VolumeDisplay::Percentage
    } else {
        VolumeDisplay::Decibel
    }
}

impl VolumeDisplay {
    pub fn as_key(self) -> (r: &'static str)
        ensures
            r@ == display_key(self),
    {
        match self {
            VolumeDisplay::Decibel => "db",
            VolumeDisplay::Percentage => "percent",
        }
    }

    pub fn from_key(s: &str) -> (r: VolumeDisplay)
        ensures
            r == display_from_key(s@),
    {
        if str_eq(s, "percent") {
            VolumeDisplay::Percentage
        } else {
            VolumeDisplay::Decibel
        }
    }
}

/// A stored unit reads back as itself.
pub proof fn display_key_round_trip(d: VolumeDisplay)
    ensures
        display_from_key(display_key(d)) == d,
{
    reveal_strlit("db");
    reveal_strlit("percent");
    assert("db"@ != "percent"@) by {
        assert("db"@[0] != "percent"@[0]);
    }
}

} // verus!
