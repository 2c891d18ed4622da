//! The configured state: the two output sides, the virtual surround and the
//! Quick Switch presets. Settings storage itself lives with the application.

use vstd::prelude::*;
use crate::hw_sink::HwSink;
use crate::text::str_eq;

verus! {

/// One of the two virtual outputs of the crossfade mixer.
#[derive(Copy, Clone, Debug, PartialEq, Eq, Hash, Structural)]
pub enum Side {
    Aux,
    Main,
}

/// The `role` value a side carries in the loopback conf.
pub open spec fn side_wire(side: Side) -> Seq<char> {
    match side {
        Side::Aux => "aux"@,
        Side::Main => "main"@,
    }
}

/// The side that `s` names, if any.
pub open spec fn side_from_wire(s: Seq<char>) -> Option<Side> {
    if s == "aux"@ {
        Some(Side::Aux)
    } else if s == "main"@ {
        Some(Side::Main)
    } else {
        None
    }
}

impl Side {
    /// Parse the role value from the loopback conf.
    pub fn from_wire(s: &str) -> (r: Option<Side>)
        ensures
            r == side_from_wire(s@),
    {
        if str_eq(s, "aux") {
            Some(Side::Aux)
        } else if str_eq(s, "main") {
            Some(Side::Main)
        } else {
            None
        }
    }

    /// The role value for the loopback conf.
    pub fn as_wire(&self) -> (r: &'static str)
        ensures
            r@ == side_wire(*self),
    {
        match self {
            Side::Aux => "aux",
            Side::Main => "main",
        }
    }
}

/// Reading back what `as_wire` writes gives the side again.
pub proof fn side_wire_round_trip(side: Side)
    ensures
        side_from_wire(side_wire(side)) == Some(side),
{
    reveal_strlit("aux");
    reveal_strlit("main");
    assert("aux"@ != "main"@) by {
        assert("aux"@[0] != "main"@[0]);
    }
}

/// The hardware output a side routes to, and its layout.
#[derive(Clone, Debug, Default)]
pub struct SinkDef {
    pub channels: u32,
    pub position: String,
    pub hw_name: String,
    pub display_name: String,
}

/// Both sides of the mixer.
#[derive(Clone, Debug)]
pub struct SinkConfig {
    pub aux: SinkDef,
    pub main: SinkDef,
}

/// The virtual surround filter: the HRIR file and the output it plays to.
#[derive(Clone, Debug, Default)]
pub struct SurroundConfig {
    pub hrir_path: String,
    pub hw_name: String,
    pub display_name: String,
}

/// The definition of a side that routes to `sink`.
pub open spec fn sink_def_of(sink: HwSink) -> SinkDef {
    SinkDef {
        channels: sink.channels,
        position: sink.position,
        hw_name: sink.name,
        display_name: sink.display_name,
    }
}

impl From<HwSink> for SinkDef {
    fn from(sink: HwSink) -> (r: SinkDef) {
        SinkDef {
            channels: sink.channels,
            position: sink.position,
            hw_name: sink.name,
            display_name: sink.display_name,
        }
    }
}

impl vstd::std_specs::convert::FromSpecImpl<HwSink> for SinkDef {
    open spec fn obeys_from_spec() -> bool {
        true
    }

    open spec fn from_spec(sink: HwSink) -> SinkDef {
        sink_def_of(sink)
    }
}

impl SinkConfig {
    pub open spec fn side_spec(&self, side: Side) -> SinkDef {
        match side {
            Side::Aux => self.aux,
            Side::Main => self.main,
        }
    }

    /// The definition of one side.
    pub fn side(&self, side: Side) -> (r: &SinkDef)
        ensures
            *r == self.side_spec(side),
    {
        match side {
            Side::Aux => &self.aux,
            Side::Main => &self.main,
        }
    }

    /// Replaces the definition of one side, leaving the other as it was.
    pub fn set_side(&mut self, side: Side, def: SinkDef)
        ensures
            final(self).side_spec(side) == def,
            final(self).side_spec(other_side(side)) == old(self).side_spec(other_side(side)),
    {
        match side {
            Side::Aux => self.aux = def,
            Side::Main => self.main = def,
        }
    }
}

impl SinkConfig {
    /// First-run setup is done once both sides have an output.
    pub fn sides_configured(&self) -> (r: bool)
        ensures
            r == (self.aux.hw_name@.len() > 0 && self.main.hw_name@.len() > 0),
    {
        self.aux.hw_name.unicode_len() > 0 && self.main.hw_name.unicode_len() > 0
    }
}

impl SurroundConfig {
    /// Virtual surround is configured once an HRIR file is chosen.
    pub fn enabled(&self) -> (r: bool)
        ensures
            r == (self.hrir_path@.len() > 0),
    {
        self.hrir_path.unicode_len() > 0
    }
}

pub open spec fn other_side(side: Side) -> Side {
    match side {
        Side::Aux => Side::Main,
        Side::Main => Side::Aux,
    }
}

/// A Quick Switch preset: the hardware targets of both sides under a name.
/// An empty target leaves that side unchanged when the preset is applied.
#[derive(Clone, Debug, Default)]
pub struct Preset {
    pub id: String,
    pub name: String,
    pub aux_hw: String,
    pub main_hw: String,
}

pub open spec fn preset_valid(p: Preset) -> bool {
    p.aux_hw@.len() > 0 || p.main_hw@.len() > 0
}

/// The preset's targets agree with the current ones, an empty target
/// agreeing with anything.
pub open spec fn preset_matches(p: Preset, aux_hw: Seq<char>, main_hw: Seq<char>) -> bool {
    (p.aux_hw@.len() == 0 || p.aux_hw@ == aux_hw) && (p.main_hw@.len() == 0 || p.main_hw@
        == main_hw)
}

impl Preset {
    /// A preset with the given id and nothing set.
    pub fn with_id(id: String) -> (p: Preset)
        ensures
            p.id@ == id@,
            p.name@.len() == 0,
            p.aux_hw@.len() == 0,
            p.main_hw@.len() == 0,
    {
        Preset { id, name: String::new(), aux_hw: String::new(), main_hw: String::new() }
    }

    /// A preset sets at least one side.
    pub fn is_valid(&self) -> (r: bool)
        ensures
            r == preset_valid(*self),
    {
        !self.aux_hw.as_str().is_empty() || !self.main_hw.as_str().is_empty()
    }

    /// Whether the current targets are what this preset selects.
    pub fn matches(&self, aux_hw: &str, main_hw: &str) -> (r: bool)
        ensures
            r == preset_matches(*self, aux_hw@, main_hw@),
    {
        (self.aux_hw.as_str().is_empty() || str_eq(self.aux_hw.as_str(), aux_hw)) && (
        self.main_hw.as_str().is_empty() || str_eq(self.main_hw.as_str(), main_hw))
    }
}

/// Number of valid presets among the first `n`.
pub open spec fn count_valid(presets: Seq<Preset>, n: int) -> nat
    decreases n,
{
    if n <= 0 {
        0
    } else {
        count_valid(presets, n - 1) + if preset_valid(presets[n - 1]) {
            1nat
        } else {
            0nat
        }
    }
}

/// Quick Switch is configured once two valid presets exist.
pub fn presets_configured(presets: &Vec<Preset>) -> (r: bool)
    ensures
        r == (count_valid(presets@, presets@.len() as int) >= 2),
{
    let mut count: usize = 0;
    let mut i: usize = 0;
    while i < presets.len()
        invariant
            i <= presets@.len(),
            count == count_valid(presets@, i as int),
            count <= i,
        decreases presets@.len() - i,
    {
        if presets[i].is_valid() {
            count = count + 1;
        }
        i = i + 1;
    }
    count >= 2
}

/// The current hardware targets after applying `p`: each side the preset
/// sets takes the preset's target, the others keep theirs.
pub open spec fn applied(p: Preset, aux_hw: Seq<char>, main_hw: Seq<char>) -> (Seq<char>, Seq<char>) {
    (
        if p.aux_hw@.len() > 0 {
            p.aux_hw@
        } else {
            aux_hw
        },
        if p.main_hw@.len() > 0 {
            p.main_hw@
        } else {
            main_hw
        },
    )
}

/// After a preset is applied, the current targets match it.
pub proof fn preset_matches_after_apply(p: Preset, aux_hw: Seq<char>, main_hw: Seq<char>)
    ensures
        preset_matches(p, applied(p, aux_hw, main_hw).0, applied(p, aux_hw, main_hw).1),
{
}

/// A preset matches the current targets exactly when applying it would
/// change neither side: every side it sets already has that target.
pub proof fn preset_matches_iff_apply_changes_nothing(p: Preset, aux_hw: Seq<char>, main_hw: Seq<char>)
    ensures
        preset_matches(p, aux_hw, main_hw) <==> applied(p, aux_hw, main_hw) == (aux_hw, main_hw),
{
}

/// A preset that sets a side to another target than the current one does
/// not match, whichever side it is.
pub proof fn preset_with_other_target_does_not_match(p: Preset, aux_hw: Seq<char>, main_hw: Seq<char>)
    ensures
        p.aux_hw@.len() > 0 && p.aux_hw@ != aux_hw ==> !preset_matches(p, aux_hw, main_hw),
        p.main_hw@.len() > 0 && p.main_hw@ != main_hw ==> !preset_matches(p, aux_hw, main_hw),
{
}

} // verus!
