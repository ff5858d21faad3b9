//! Construction of the external transmit invocation: the fixed tool name
//! and the ordered argument list for one parsed command, with the
//! repetition and inter-frame-gap quirks that Sony-family receivers need.

use vstd::prelude::*;

use crate::command::{spec_split_first_colon, colon_free, ParsedCommand};
use crate::text::{lemma_find_char_at, starts_with, str_starts_with};

verus! {

/// An external-process invocation: a program name and its ordered
/// argument list.
pub struct Invocation {
    pub program: String,
    pub args: Vec<String>,
}

/// The value handed to each `-S` argument: `protocol:scancode`.
pub open spec fn send_arg(p: Seq<char>, sc: Seq<char>) -> Seq<char> {
    p + seq![':'] + sc
}

/// The full transmit argument list for a command.  Sony-family protocols
/// get a fixed 600 microsecond inter-frame gap and two extra repetitions
/// of the send argument; every other protocol sends exactly once.
pub open spec fn spec_transmit_args(p: Seq<char>, sc: Seq<char>) -> Seq<Seq<char>> {
    let send = send_arg(p, sc);
    if starts_with(p, "sony"@) {
        seq!["-v"@, "-d"@, "/dev/lirc-tx"@, "-g"@, "600"@, "-S"@, send, "-S"@, send, "-S"@, send]
    } else {
        seq!["-v"@, "-d"@, "/dev/lirc-tx"@, "-S"@, send]
    }
}

/// Build the transmit invocation for one parsed command.
pub fn build_transmit_invocation(cmd: &ParsedCommand) -> (r: Invocation)
    ensures
        r.program@ == "ir-ctl"@,
        r.args.deep_view() == spec_transmit_args(cmd.protocol@, cmd.scancode@),
{
    proof {
        reveal_strlit(":");
    }
    let mut args: Vec<String> = Vec::new();
    args.push(String::from_str("-v"));
    args.push(String::from_str("-d"));
    args.push(String::from_str("/dev/lirc-tx"));
    let sony = str_starts_with(cmd.protocol.as_str(), "sony");
    if sony {
        args.push(String::from_str("-g"));
        args.push(String::from_str("600"));
    }
    let mut send = String::from_str(cmd.protocol.as_str());
    send.append(":");
    send.append(cmd.scancode.as_str());
    proof {
        assert(send@ =~= send_arg(cmd.protocol@, cmd.scancode@));
    }
    args.push(String::from_str("-S"));
    args.push(send.clone());
    if sony {
        args.push(String::from_str("-S"));
        args.push(send.clone());
        args.push(String::from_str("-S"));
        args.push(send);
    }
    let r = Invocation { program: String::from_str("ir-ctl"), args };
    proof {
        assert(r.args.deep_view() =~= spec_transmit_args(cmd.protocol@, cmd.scancode@));
    }
    r
}

/// Round-trip law: splitting a built send argument at its first colon gives
/// back the protocol and the scancode, for every protocol that holds no
/// colon itself (the framer only ever produces such protocols).
pub proof fn lemma_send_arg_round_trip(p: Seq<char>, sc: Seq<char>)
    requires
        colon_free(p),
    ensures
        spec_split_first_colon(send_arg(p, sc)) == Some((p, sc)),
{
    let t = send_arg(p, sc);
    assert(t[p.len() as int] == ':');
    lemma_find_char_at(t, ':', p.len() as int);
    assert(t.take(p.len() as int) =~= p);
    assert(t.skip(p.len() as int + 1) =~= sc);
}

} // verus!
