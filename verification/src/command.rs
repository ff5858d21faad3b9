//! Command framing: a `CommandBuffer` accumulates streamed text fragments,
//! and one processing pass extracts at most one complete tagged command
//! `<dummycmd>PROTOCOL:SCANCODE</dummycmd>` from it.

use vstd::prelude::*;

use crate::text::{
    find_char, find_str, rfind_str_before, lemma_find_prefix, lemma_rfind_prefix,
    lemma_spec_find_props, lemma_spec_find_char_props, lemma_spec_rfind_before_props, spec_find,
    spec_find_char, spec_rfind_before,
};

verus! {

/// The marker that opens a tagged command.
pub open spec fn open_marker() -> Seq<char> {
    "<dummycmd>"@
}

/// The marker that closes a tagged command.
pub open spec fn close_marker() -> Seq<char> {
    "</dummycmd>"@
}

/// True when no character of `s` is a colon.
pub open spec fn colon_free(s: Seq<char>) -> bool {
    forall|i: int| 0 <= i < s.len() ==> s[i] != ':'
}

/// Split `t` at its first colon: the part before is the protocol, the part
/// after is the scancode.  `None` when `t` holds no colon.
pub open spec fn spec_split_first_colon(t: Seq<char>) -> Option<(Seq<char>, Seq<char>)> {
    match spec_find_char(t, ':') {
        Some(c) => Some((t.take(c), t.skip(c + 1))),
        None => None,
    }
}

/// The command that one processing pass extracts from buffer contents `b`:
/// the text strictly between the opening marker that most recently precedes
/// the first closing marker and that closing marker, split at its first
/// colon.  `None` when the closing marker is absent, when no opening marker
/// fits before it, or when the framed text holds no colon.
pub open spec fn spec_extract(b: Seq<char>) -> Option<(Seq<char>, Seq<char>)> {
    match spec_find(b, close_marker()) {
        None => None,
        Some(e) => match spec_rfind_before(b, open_marker(), e) {
            None => None,
            Some(o) => spec_split_first_colon(b.subrange(o + open_marker().len() as int, e)),
        },
    }
}

/// Buffer contents after one processing pass: the whole buffer is cleared
/// as soon as a closing marker is present (also when the framed command is
/// malformed), and kept untouched otherwise.
pub open spec fn spec_residue(b: Seq<char>) -> Seq<char> {
    if spec_find(b, close_marker()) is Some {
        Seq::<char>::empty()
    } else {
        b
    }
}

/// A completed command: a transmission-protocol identifier and the
/// scan-code payload to send under it.
pub struct ParsedCommand {
    pub protocol: String,
    pub scancode: String,
}

/// Accumulator for streamed command text.  It holds at most one
/// unterminated command prefix between processing passes and is mutated
/// only by appending received text and by being cleared after a pass that
/// saw a complete command.
pub struct CommandBuffer {
    text: String,
}

impl View for CommandBuffer {
    type V = Seq<char>;

    closed spec fn view(&self) -> Seq<char> {
        self.text@
    }
}

impl CommandBuffer {
    /// An empty buffer.
    pub fn new() -> (r: Self)
        ensures
            r@ == Seq::<char>::empty(),
    {
        CommandBuffer { text: String::new() }
    }

    /// Append a received text fragment.
    pub fn append(&mut self, fragment: &str)
        ensures
            final(self)@ == old(self)@ + fragment@,
    {
        self.text.append(fragment);
    }

    /// The buffered text.
    pub fn contents(&self) -> (r: &str)
        ensures
            r@ == self@,
    {
        self.text.as_str()
    }
}

/// One processing pass: extract a complete tagged command from the buffer
/// if one is there, clearing the buffer whenever a closing marker was seen.
pub fn process_command_if_complete(buffer: &mut CommandBuffer) -> (r: Option<ParsedCommand>)
    ensures
        final(buffer)@ == spec_residue(old(buffer)@),
        match r {
            Some(cmd) => spec_extract(old(buffer)@) == Some((cmd.protocol@, cmd.scancode@))
                && colon_free(cmd.protocol@),
            None => spec_extract(old(buffer)@) is None,
        },
{
    proof {
        reveal_strlit("<dummycmd>");
        reveal_strlit("</dummycmd>");
    }
    let ghost b: Seq<char> = buffer.text@;
    let (saw_close, result) = {
        let s: &str = buffer.text.as_str();
        match find_str(s, "</dummycmd>") {
            None => (false, None),
            Some(e) => {
                proof {
                    lemma_spec_find_props(b, close_marker());
                }
                match rfind_str_before(s, "<dummycmd>", e) {
                    None => (true, None),
                    Some(o) => {
                        proof {
                            lemma_spec_rfind_before_props(b, open_marker(), e as int);
                        }
                        let command_text = s.substring_char(o + 10, e);
                        let ghost t: Seq<char> = b.subrange(
                            o + open_marker().len() as int,
                            e as int,
                        );
                        match find_char(command_text, ':') {
                            None => (true, None),
                            Some(c) => {
                                proof {
                                    lemma_spec_find_char_props(t, ':');
                                }
                                let protocol = String::from_str(
                                    command_text.substring_char(0, c),
                                );
                                let scancode = String::from_str(
                                    command_text.substring_char(c + 1, command_text.unicode_len()),
                                );
                                proof {
                                    assert(protocol@ =~= t.take(c as int));
                                    assert(scancode@ =~= t.skip(c + 1));
                                }
                                (true, Some(ParsedCommand { protocol, scancode }))
                            },
                        }
                    },
                }
            },
        }
    };
    if saw_close {
        buffer.text = String::new();
    }
    result
}

/// Partial-command law: with no closing marker in the buffer, a processing
/// pass extracts nothing and leaves the buffer unmodified.
pub proof fn lemma_partial_command_kept(b: Seq<char>)
    requires
        spec_find(b, close_marker()) is None,
    ensures
        spec_extract(b) is None,
        spec_residue(b) == b,
{
}

/// Trailing-data-discard law: whenever a pass extracts a command, the
/// buffer afterwards is empty, whatever bytes followed the closing marker.
pub proof fn lemma_extraction_clears_buffer(b: Seq<char>)
    requires
        spec_extract(b) is Some,
    ensures
        spec_residue(b) == Seq::<char>::empty(),
{
    match spec_find(b, close_marker()) {
        Some(e) => {},
        None => {},
    }
}

/// Fragmentation-invariance law: a command delivered across fragments is
/// extracted exactly as if the concatenation had arrived at once.  While a
/// fragment boundary leaves the buffer without a closing marker, a pass
/// extracts nothing and keeps the buffer, so later fragments append to the
/// same concatenation; and once the closing marker is in, the appended tail
/// no longer changes what is extracted.
pub proof fn lemma_fragmented_delivery(b1: Seq<char>, b2: Seq<char>)
    ensures
        spec_find(b1, close_marker()) is None ==> spec_extract(b1) is None && spec_residue(b1)
            + b2 == b1 + b2,
        spec_find(b1, close_marker()) is Some ==> spec_extract(b1 + b2) == spec_extract(b1),
{
    if spec_find(b1, close_marker()) is Some {
        reveal_strlit("<dummycmd>");
        reveal_strlit("</dummycmd>");
        lemma_find_prefix(b1, b2, close_marker());
        lemma_spec_find_props(b1, close_marker());
        match spec_find(b1, close_marker()) {
            Some(e) => {
                lemma_rfind_prefix(b1, b2, open_marker(), e);
                match spec_rfind_before(b1, open_marker(), e) {
                    Some(o) => {
                        lemma_spec_rfind_before_props(b1, open_marker(), e);
                        assert(b1.subrange(o + open_marker().len() as int, e) =~= (b1
                            + b2).subrange(o + open_marker().len() as int, e));
                    },
                    None => {},
                }
            },
            None => {},
        }
    }
}

} // verus!
