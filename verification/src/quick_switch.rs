//! Quick Switch: toggling the two output presets from the header.

use vstd::prelude::*;
use crate::config::{count_valid, preset_matches, presets_configured, Preset};
use crate::hw_sink::HwSink;
use crate::text::str_eq;
use crate::util::opt_string_view;

verus! {

/// A preset target is available: empty (side left alone) or a connected
/// output's node name.
pub open spec fn target_present(name: Seq<char>, sinks: Seq<HwSink>) -> bool {
    name.len() == 0 || exists|i: int| 0 <= i < sinks.len() && #[trigger] sinks[i].name@ == name
}

fn present(name: &str, sinks: &Vec<HwSink>) -> (r: bool)
    ensures
        r == target_present(name@, sinks@),
{
    if name.is_empty() {
        return true;
    }
    let mut i: usize = 0;
    while i < sinks.len()
        invariant
            i <= sinks@.len(),
            forall|j: int| 0 <= j < i ==> #[trigger] sinks@[j].name@ != name@,
        decreases sinks@.len() - i,
    {
        if str_eq(sinks[i].name.as_str(), name) {
            return true;
        }
        i = i + 1;
    }
    false
}

/// Both targets of the preset are available.
pub fn preset_devices_present(preset: &Preset, sinks: &Vec<HwSink>) -> (r: bool)
    ensures
        r == (target_present(preset.aux_hw@, sinks@) && target_present(preset.main_hw@, sinks@)),
{
    present(preset.aux_hw.as_str(), sinks) && present(preset.main_hw.as_str(), sinks)
}

/// The preset a switch goes to: the second when the first is the current
/// one, else the first.
pub open spec fn switch_target(a: Preset, b: Preset, aux_hw: Seq<char>, main_hw: Seq<char>) -> Preset {
    if preset_matches(a, aux_hw, main_hw) {
        b
    } else {
        a
    }
}

/// The target a preset sets on a side, None for a side it leaves alone.
pub open spec fn set_target(t: Seq<char>) -> Option<Seq<char>> {
    if t.len() > 0 {
        Some(t)
    } else {
        None
    }
}

/// What a switch selects on each side; None leaves the side unchanged.
pub struct SwitchPlan {
    pub aux_hw: Option<String>,
    pub main_hw: Option<String>,
}

/// Whether a switch runs: not in virtual surround, Quick Switch configured,
/// and the targets of the chosen preset connected.
pub open spec fn switch_runs(
    surround_active: bool,
    presets: Seq<Preset>,
    aux_hw: Seq<char>,
    main_hw: Seq<char>,
    sinks: Seq<HwSink>,
) -> bool {
    !surround_active && count_valid(presets, presets.len() as int) >= 2 && {
        let t = switch_target(presets[0], presets[1], aux_hw, main_hw);
        target_present(t.aux_hw@, sinks) && target_present(t.main_hw@, sinks)
    }
}

/// Switch to the other preset; a current setup that matches neither jumps
/// to the first.
pub fn quick_switch_plan(
    surround_active: bool,
    presets: &Vec<Preset>,
    aux_hw: &str,
    main_hw: &str,
    sinks: &Vec<HwSink>,
) -> (r: Option<SwitchPlan>)
    ensures
        r is Some <==> switch_runs(surround_active, presets@, aux_hw@, main_hw@, sinks@),
        r matches Some(plan) ==> {
            let t = switch_target(presets@[0], presets@[1], aux_hw@, main_hw@);
            &&& opt_string_view(plan.aux_hw) == set_target(t.aux_hw@)
            &&& opt_string_view(plan.main_hw) == set_target(t.main_hw@)
        },
{
    if surround_active {
        return None;
    }
    if !presets_configured(presets) {
        return None;
    }
    proof {
        lemma_count_valid_bound(presets@, presets@.len() as int);
    }
    let a = &presets[0];
    let b = &presets[1];
    let target = if a.matches(aux_hw, main_hw) {
        b
    } else {
        a
    };
    if !preset_devices_present(target, sinks) {
        return None;
    }
    let aux = if target.aux_hw.as_str().is_empty() {
        None
    } else {
        Some(target.aux_hw.clone())
    };
    let main = if target.main_hw.as_str().is_empty() {
        None
    } else {
        Some(target.main_hw.clone())
    };
    Some(SwitchPlan { aux_hw: aux, main_hw: main })
}

proof fn lemma_count_valid_bound(presets: Seq<Preset>, n: int)
    requires
        0 <= n <= presets.len(),
    ensures
        count_valid(presets, n) <= n,
    decreases n,
{
    if n > 0 {
        lemma_count_valid_bound(presets, n - 1);
    }
}

/// The first dropdown position holding a connected output named `hw_name`.
pub fn find_sink_position(sinks: &Vec<HwSink>, hw_name: &str) -> (r: Option<usize>)
    ensures
        match r {
            Some(i) => i < sinks@.len() && sinks@[i as int].node_id != 0 && sinks@[i as int].name@
                == hw_name@ && forall|j: int|
                0 <= j < i ==> !(#[trigger] sinks@[j].node_id != 0 && sinks@[j].name@ == hw_name@),
            None => forall|j: int|
                0 <= j < sinks@.len() ==> !(#[trigger] sinks@[j].node_id != 0 && sinks@[j].name@
                    == hw_name@),
        },
{
    let mut i: usize = 0;
    while i < sinks.len()
        invariant
            i <= sinks@.len(),
            forall|j: int|
                0 <= j < i ==> !(#[trigger] sinks@[j].node_id != 0 && sinks@[j].name@ == hw_name@),
        decreases sinks@.len() - i,
    {
        if sinks[i].node_id != 0 && str_eq(sinks[i].name.as_str(), hw_name) {
            return Some(i);
        }
        i = i + 1;
    }
    None
}

/// Two switches in a row come back: if the first preset is current, a switch
/// goes to the second, and once the second is applied, a switch goes back
/// to the first unless the first also matches the result.
pub proof fn switch_alternates(a: Preset, b: Preset, aux_hw: Seq<char>, main_hw: Seq<char>)
    requires
        preset_matches(a, aux_hw, main_hw),
    ensures
        switch_target(a, b, aux_hw, main_hw) == b,
        ({
            let (aux2, main2) = crate::config::applied(b, aux_hw, main_hw);
            !preset_matches(a, aux2, main2) ==> switch_target(a, b, aux2, main2) == a
        }),
{
}

} // verus!
