//! The diagnostic report shown in the About dialog, for bug reports.

use vstd::prelude::*;
use crate::config::{SinkConfig, SinkDef, SurroundConfig};
use crate::text::{decimal, push_decimal, push_str};
use crate::volume::{display_key, VolumeDisplay};

verus! {

/// What the report is made of: command outputs and files read by the
/// application, and the saved configuration.
pub struct DiagnosticInfo {
    pub version: String,
    pub kernel: String,
    pub desktop: String,
    pub pipewire_version: String,
    pub defaults: String,
    pub links: String,
    pub nodes: String,
    pub conf_path: String,
    pub conf: String,
    pub surround_conf: String,
    pub sinks: SinkConfig,
    pub surround: SurroundConfig,
    pub surround_active: bool,
    pub follows_main: bool,
    pub keep_routing_open: bool,
    pub volume_display: VolumeDisplay,
    pub window_width: i32,
    pub window_height: i32,
    pub maximized: bool,
}

/// `true` or `false`, as `bool` displays.
pub open spec fn bool_text(b: bool) -> Seq<char> {
    if b {
        "true"@
    } else {
        "false"@
    }
}

/// An integer in decimal, with a minus sign when negative.
pub open spec fn int_text(i: int) -> Seq<char> {
    if i < 0 {
        "-"@ + decimal((-i) as nat)
    } else {
        decimal(i as nat)
    }
}

/// A side's line in the summary: name, node name, channels and layout.
pub open spec fn sink_line_text(d: SinkDef) -> Seq<char> {
    "\""@ + d.display_name@ + "\" ["@ + d.hw_name@ + "] "@ + decimal(d.channels as nat) + "ch "@ + d.position@
}

/// The whole report.
pub open spec fn report_text(i: DiagnosticInfo) -> Seq<char> {
    "=== Bridge Diagnostic Report ===\nApp version: "@ + i.version@
        + "\n\n--- System ---\nKernel:  "@ + i.kernel@
        + "\nDesktop: "@ + i.desktop@
        + "\n\n--- PipeWire ---\n"@ + i.pipewire_version@
        + "\n\n--- Default sink/source (pw-metadata) ---\n"@ + i.defaults@
        + "\n\n--- Links (pw-link -l) ---\n"@ + i.links@
        + "\n\n--- Nodes (pw-cli ls Node) ---\n"@ + i.nodes@
        + "\n\n--- Bridge Aux/Main config ("@ + i.conf_path@
        + ") ---\n"@ + i.conf@
        + "\n\n--- Bridge Surround config ---\n"@ + i.surround_conf@
        + "\n\n--- Config summary ---\nAux:  "@ + sink_line_text(i.sinks.aux)
        + "\nMain: "@ + sink_line_text(i.sinks.main)
        + "\nSurround: hrir=\""@ + i.surround.hrir_path@
        + "\" hw=\""@ + i.surround.hw_name@
        + "\" name=\""@ + i.surround.display_name@
        + "\" active="@ + bool_text(i.surround_active)
        + "\nPrefs: default-follows-main="@ + bool_text(i.follows_main)
        + " keep-routing-open="@ + bool_text(i.keep_routing_open)
        + " volume-display="@ + display_key(i.volume_display)
        + "\nWindow: "@ + int_text(i.window_width as int)
        + "x"@ + int_text(i.window_height as int)
        + " maximized="@ + bool_text(i.maximized)
}

fn push_bool(s: &mut String, b: bool)
    ensures
        final(s)@ == old(s)@ + bool_text(b),
{
    if b {
        push_str(s, "true");
    } else {
        push_str(s, "false");
    }
}

fn push_int(s: &mut String, i: i32)
    ensures
        final(s)@ == old(s)@ + int_text(i as int),
{
    if i < 0 {
        let ghost before = s@;
        push_str(s, "-");
        let m: u64 = (0i64 - (i as i64)) as u64;
        push_decimal(s, m);
        assert(s@ =~= before + int_text(i as int));
    } else {
        push_decimal(s, i as u64);
    }
}

fn push_sink_line(s: &mut String, d: &SinkDef)
    ensures
        final(s)@ == old(s)@ + sink_line_text(*d),
{
    let ghost before = s@;
    push_str(s, "\"");
    push_str(s, d.display_name.as_str());
    push_str(s, "\" [");
    push_str(s, d.hw_name.as_str());
    push_str(s, "] ");
    push_decimal(s, d.channels as u64);
    push_str(s, "ch ");
    push_str(s, d.position.as_str());
    assert(s@ =~= before + sink_line_text(*d));
}

/// The diagnostic report, section by section.
pub fn diagnostic_report(i: &DiagnosticInfo) -> (r: String)
    ensures
        r@ == report_text(*i),
{
    let mut s = String::new();
    push_str(&mut s, "=== Bridge Diagnostic Report ===\nApp version: ");
    push_str(&mut s, i.version.as_str());
    push_str(&mut s, "\n\n--- System ---\nKernel:  ");
    push_str(&mut s, i.kernel.as_str());
    push_str(&mut s, "\nDesktop: ");
    push_str(&mut s, i.desktop.as_str());
    push_str(&mut s, "\n\n--- PipeWire ---\n");
    push_str(&mut s, i.pipewire_version.as_str());
    push_str(&mut s, "\n\n--- Default sink/source (pw-metadata) ---\n");
    push_str(&mut s, i.defaults.as_str());
    push_str(&mut s, "\n\n--- Links (pw-link -l) ---\n");
    push_str(&mut s, i.links.as_str());
    push_str(&mut s, "\n\n--- Nodes (pw-cli ls Node) ---\n");
    push_str(&mut s, i.nodes.as_str());
    push_str(&mut s, "\n\n--- Bridge Aux/Main config (");
    push_str(&mut s, i.conf_path.as_str());
    push_str(&mut s, ") ---\n");
    push_str(&mut s, i.conf.as_str());
    push_str(&mut s, "\n\n--- Bridge Surround config ---\n");
    push_str(&mut s, i.surround_conf.as_str());
    push_str(&mut s, "\n\n--- Config summary ---\nAux:  ");
    push_sink_line(&mut s, &i.sinks.aux);
    push_str(&mut s, "\nMain: ");
    push_sink_line(&mut s, &i.sinks.main);
    push_str(&mut s, "\nSurround: hrir=\"");
    push_str(&mut s, i.surround.hrir_path.as_str());
    push_str(&mut s, "\" hw=\"");
    push_str(&mut s, i.surround.hw_name.as_str());
    push_str(&mut s, "\" name=\"");
    push_str(&mut s, i.surround.display_name.as_str());
    push_str(&mut s, "\" active=");
    push_bool(&mut s, i.surround_active);
    push_str(&mut s, "\nPrefs: default-follows-main=");
    push_bool(&mut s, i.follows_main);
    push_str(&mut s, " keep-routing-open=");
    push_bool(&mut s, i.keep_routing_open);
    push_str(&mut s, " volume-display=");
    push_str(&mut s, i.volume_display.as_key());
    push_str(&mut s, "\nWindow: ");
    push_int(&mut s, i.window_width);
    push_str(&mut s, "x");
    push_int(&mut s, i.window_height);
    push_str(&mut s, " maximized=");
    push_bool(&mut s, i.maximized);
    s
}

} // verus!
