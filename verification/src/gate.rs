//! Startup environment gate: the fixed external-tool requirements and the
//! decision taken on the enumeration tool's diagnostic output before the
//! bridge starts.

use vstd::prelude::*;

use crate::probe::{parse_ir_keytable_output, sections_view, spec_probe, CapabilitySection};

verus! {

/// The external binaries the bridge needs: the enumeration tool first, the
/// transmit tool second.
pub fn required_binaries() -> (r: Vec<String>)
    ensures
        r.deep_view() == seq!["ir-keytable"@, "ir-ctl"@],
{
    let mut r: Vec<String> = Vec::new();
    r.push(String::from_str("ir-keytable"));
    r.push(String::from_str("ir-ctl"));
    proof {
        assert(r.deep_view() =~= seq!["ir-keytable"@, "ir-ctl"@]);
    }
    r
}

/// The user-facing remediation message for a missing binary.
pub fn missing_binary_message(name: &str) -> (r: String)
    ensures
        r@ == name@ + " is not installed. Please install "@ + name@
            + " (e.g., sudo apt install v4l-utils)."@,
{
    let mut r = String::from_str(name);
    r.append(" is not installed. Please install ");
    r.append(name);
    r.append(" (e.g., sudo apt install v4l-utils).");
    r
}

/// The user-facing message when the probe found no infrared device.
pub fn no_device_message() -> (r: String)
    ensures
        r@ == "We cannot find any infrared device."@,
{
    String::from_str("We cannot find any infrared device.")
}

/// The startup decision on the enumeration tool's diagnostic output: empty
/// output means no infrared device was found and the bridge must not
/// start; any other output is parsed into its capability sections and
/// startup proceeds.
pub fn evaluate_probe_output(text: &str) -> (r: Option<Vec<CapabilitySection>>)
    ensures
        match r {
            None => text@.len() == 0,
            Some(secs) => text@.len() > 0 && sections_view(secs@) == spec_probe(text@) && (forall|
                i: int,
            | 0 <= i < secs@.len() ==> (#[trigger] secs@[i]).wf()),
        },
{
    if text.unicode_len() == 0 {
        None
    } else {
        Some(parse_ir_keytable_output(text))
    }
}

} // verus!
