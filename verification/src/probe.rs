//! Capability probe: parsing of the hardware-enumeration tool's diagnostic
//! text into per-device capability sections, keeping only the sections
//! that report an infrared (LIRC) capability.

use vstd::prelude::*;

use crate::text::{
    contains_seq, contains_str, find_char, lemma_spec_find_char_props, matches_at, spec_find_char,
    spec_lines, spec_split, spec_trim, split_char_str, split_lines, str_eq, str_starts_with,
    trim_str,
};

verus! {

/// The reserved attribute name under which a section holds the device
/// path captured from its header line.
pub open spec fn sysdev_key() -> Seq<char> {
    "__sysdev__"@
}

/// The capability marker: a section is kept only when some attribute name
/// holds this substring.
pub open spec fn lirc_marker() -> Seq<char> {
    "LIRC"@
}

/// The map that a sequence of attribute entries builds up, later entries
/// overwriting earlier ones with the same name.
pub open spec fn entries_map(es: Seq<(Seq<char>, Seq<char>)>) -> Map<Seq<char>, Seq<char>>
    decreases es.len(),
{
    if es.len() == 0 {
        Map::<Seq<char>, Seq<char>>::empty()
    } else {
        entries_map(es.drop_last()).insert(es.last().0, es.last().1)
    }
}

/// A key is in the built map exactly when some entry carries it.
pub proof fn lemma_entries_map_contains(es: Seq<(Seq<char>, Seq<char>)>, k: Seq<char>)
    ensures
        entries_map(es).contains_key(k) <==> exists|j: int| 0 <= j < es.len() && es[j].0 == k,
    decreases es.len(),
{
    if es.len() > 0 {
        lemma_entries_map_contains(es.drop_last(), k);
        if es.last().0 == k {
            assert(es[es.len() - 1].0 == k);
        } else if exists|j: int| 0 <= j < es.len() && es[j].0 == k {
            let j = choose|j: int| 0 <= j < es.len() && es[j].0 == k;
            assert(es.drop_last()[j] == es[j]);
        }
    }
}

/// The value of a key carried by exactly one entry.
pub proof fn lemma_entries_map_value(es: Seq<(Seq<char>, Seq<char>)>, j: int)
    requires
        0 <= j < es.len(),
        forall|l: int| j < l < es.len() ==> es[l].0 != es[j].0,
    ensures
        entries_map(es).contains_key(es[j].0),
        entries_map(es)[es[j].0] == es[j].1,
    decreases es.len(),
{
    if j == es.len() - 1 {
    } else {
        lemma_entries_map_value(es.drop_last(), j);
        assert(es.drop_last()[j] == es[j]);
    }
}

/// Replacing the value of the one entry that carries a key updates the
/// built map as an insert of that key does.
pub proof fn lemma_entries_map_update(es: Seq<(Seq<char>, Seq<char>)>, j: int, v: Seq<char>)
    requires
        0 <= j < es.len(),
        forall|l: int| j < l < es.len() ==> es[l].0 != es[j].0,
    ensures
        entries_map(es.update(j, (es[j].0, v))) == entries_map(es).insert(es[j].0, v),
    decreases es.len(),
{
    let k = es[j].0;
    let es2 = es.update(j, (k, v));
    if j == es.len() - 1 {
        assert(es2.drop_last() =~= es.drop_last());
        assert(entries_map(es2) =~= entries_map(es).insert(k, v));
    } else {
        lemma_entries_map_update(es.drop_last(), j, v);
        assert(es2.drop_last() =~= es.drop_last().update(j, (k, v)));
        assert(es.drop_last()[j] == es[j]);
        assert(entries_map(es2) == entries_map(es.drop_last()).insert(k, v).insert(
            es.last().0,
            es.last().1,
        ));
        assert(es.last().0 != k);
        assert(entries_map(es.drop_last()).insert(k, v).insert(es.last().0, es.last().1)
            =~= entries_map(es.drop_last()).insert(es.last().0, es.last().1).insert(k, v));
    }
}

/// Appending a fresh entry updates the built map as an insert does.
pub proof fn lemma_entries_map_push(es: Seq<(Seq<char>, Seq<char>)>, k: Seq<char>, v: Seq<char>)
    ensures
        entries_map(es.push((k, v))) == entries_map(es).insert(k, v),
{
    assert(es.push((k, v)).drop_last() =~= es);
}

/// One enumerated device: a mapping from attribute names to attribute
/// values, one reserved name holding the device path from the header line.
pub struct CapabilitySection {
    entries: Vec<(String, String)>,
}

impl View for CapabilitySection {
    type V = Map<Seq<char>, Seq<char>>;

    closed spec fn view(&self) -> Map<Seq<char>, Seq<char>> {
        entries_map(self.entries_seq())
    }
}

/// Whether some attribute name of the section holds the capability marker.
pub open spec fn spec_qualifies(m: Map<Seq<char>, Seq<char>>) -> bool {
    exists|k: Seq<char>| m.dom().contains(k) && contains_seq(k, lirc_marker())
}

impl CapabilitySection {
    /// The attribute entries in insertion order, as character sequences.
    pub closed spec fn entries_seq(&self) -> Seq<(Seq<char>, Seq<char>)> {
        self.entries@.map_values(|p: (String, String)| (p.0@, p.1@))
    }

    /// Attribute names are pairwise distinct.
    pub closed spec fn wf(&self) -> bool {
        forall|i: int, j: int|
            0 <= i < j < self.entries_seq().len() ==> self.entries_seq()[i].0
                != self.entries_seq()[j].0
    }

    /// An empty section.
    pub fn new() -> (r: Self)
        ensures
            r.wf(),
            r@ == Map::<Seq<char>, Seq<char>>::empty(),
    {
        let r = CapabilitySection { entries: Vec::new() };
        proof {
            assert(r.entries_seq() =~= Seq::<(Seq<char>, Seq<char>)>::empty());
        }
        r
    }

    /// Set an attribute, overwriting an earlier value under the same name.
    pub fn insert(&mut self, key: String, value: String)
        requires
            old(self).wf(),
        ensures
            final(self).wf(),
            final(self)@ == old(self)@.insert(key@, value@),
    {
        let ghost es = self.entries_seq();
        let n = self.entries.len();
        let mut j: usize = 0;
        while j < n
            invariant
                j <= n,
                n == self.entries@.len(),
                self == old(self),
                forall|l: int| 0 <= l < j ==> es[l].0 != key@,
            decreases n - j,
        {
            if str_eq(self.entries[j].0.as_str(), key.as_str()) {
                proof {
                    assert(es[j as int].0 == key@);
                    assert forall|l: int| j < l < es.len() implies es[l].0 != es[j as int].0 by {}
                    lemma_entries_map_update(es, j as int, value@);
                }
                self.entries.set(j, (key, value));
                proof {
                    assert(self.entries_seq() =~= es.update(j as int, (es[j as int].0, value@)));
                }
                return ;
            }
            j = j + 1;
        }
        proof {
            lemma_entries_map_push(es, key@, value@);
        }
        self.entries.push((key, value));
        proof {
            assert(self.entries_seq() =~= es.push((key@, value@)));
        }
    }

    /// Look an attribute up by name.
    pub fn get(&self, key: &str) -> (r: Option<&String>)
        requires
            self.wf(),
        ensures
            match r {
                Some(v) => self@.contains_key(key@) && v@ == self@[key@],
                None => !self@.contains_key(key@),
            },
    {
        let ghost es = self.entries_seq();
        let n = self.entries.len();
        let mut j: usize = 0;
        while j < n
            invariant
                j <= n,
                n == self.entries@.len(),
                forall|l: int| 0 <= l < j ==> es[l].0 != key@,
            decreases n - j,
        {
            if str_eq(self.entries[j].0.as_str(), key) {
                proof {
                    lemma_entries_map_value(es, j as int);
                }
                return Some(&self.entries[j].1);
            }
            j = j + 1;
        }
        proof {
            lemma_entries_map_contains(es, key@);
        }
        None
    }

    /// The number of attributes held.
    pub fn len(&self) -> (r: usize)
        ensures
            r == self.entries_seq().len(),
    {
        self.entries.len()
    }

    /// The attribute name at insertion position `i`.
    pub fn key_at(&self, i: usize) -> (r: &String)
        requires
            i < self.entries_seq().len(),
        ensures
            r@ == self.entries_seq()[i as int].0,
    {
        &self.entries[i].0
    }

    /// The attribute value at insertion position `i`.
    pub fn value_at(&self, i: usize) -> (r: &String)
        requires
            i < self.entries_seq().len(),
        ensures
            r@ == self.entries_seq()[i as int].1,
    {
        &self.entries[i].1
    }

    /// Whether some attribute name holds the capability marker.
    pub fn has_capability_marker(&self) -> (r: bool)
        requires
            self.wf(),
        ensures
            r == spec_qualifies(self@),
    {
        let ghost es = self.entries_seq();
        let n = self.entries.len();
        let mut j: usize = 0;
        while j < n
            invariant
                j <= n,
                n == self.entries@.len(),
                forall|l: int| 0 <= l < j ==> !contains_seq(es[l].0, lirc_marker()),
            decreases n - j,
        {
            if contains_str(self.entries[j].0.as_str(), "LIRC") {
                proof {
                    lemma_entries_map_value(es, j as int);
                }
                return true;
            }
            j = j + 1;
        }
        proof {
            if spec_qualifies(self@) {
                let k = choose|k: Seq<char>|
                    self@.dom().contains(k) && contains_seq(k, lirc_marker());
                lemma_entries_map_contains(es, k);
            }
        }
        false
    }
}

/// The fixed text before the device description on a header line.
pub open spec fn header_prefix() -> Seq<char> {
    "Found "@
}

/// The fixed text after the device description on a header line.
pub open spec fn header_suffix() -> Seq<char> {
    " with:"@
}

/// The device description captured from a header line
/// `Found <device-description> with:`, or `None` where the line is no
/// header.  The description must be non-empty.
pub open spec fn header_capture(l: Seq<char>) -> Option<Seq<char>> {
    if l.len() > header_prefix().len() + header_suffix().len() && l.subrange(
        0,
        header_prefix().len() as int,
    ) == header_prefix() && l.subrange(l.len() - header_suffix().len(), l.len() as int)
        == header_suffix() {
        Some(l.subrange(header_prefix().len() as int, l.len() - header_suffix().len()))
    } else {
        None
    }
}

/// One comma-separated fragment folded into the current section: a
/// fragment with a colon sets the attribute named before its first colon
/// to the value after it, both trimmed; a fragment without one is ignored.
pub open spec fn frag_apply(m: Map<Seq<char>, Seq<char>>, f: Seq<char>) -> Map<
    Seq<char>,
    Seq<char>,
> {
    match spec_find_char(f, ':') {
        Some(i) => m.insert(
            spec_trim(f.subrange(0, i)),
            spec_trim(f.subrange(i + 1, f.len() as int)),
        ),
        None => m,
    }
}

/// All fragments of a line folded into the current section, left to right.
pub open spec fn frags_fold(m: Map<Seq<char>, Seq<char>>, fs: Seq<Seq<char>>) -> Map<
    Seq<char>,
    Seq<char>,
>
    decreases fs.len(),
{
    if fs.len() == 0 {
        m
    } else {
        frag_apply(frags_fold(m, fs.drop_last()), fs.last())
    }
}

/// One line applied to the probe state `(sections, current accumulator,
/// header seen)`.  A header line closes the current section — kept only
/// when a header opened it and it qualifies — and opens a new one seeded
/// with the device path; then, on every line, the comma-separated
/// `key: value` fragments are folded in.  Fragments before the first
/// header accumulate but never form a section of the result: only
/// header-delimited sections are retained.
pub open spec fn line_apply(
    secs: Seq<Map<Seq<char>, Seq<char>>>,
    cur: Map<Seq<char>, Seq<char>>,
    opened: bool,
    l: Seq<char>,
) -> (Seq<Map<Seq<char>, Seq<char>>>, Map<Seq<char>, Seq<char>>, bool) {
    let at_header = match header_capture(l) {
        Some(dev) => (
            if opened && spec_qualifies(cur) {
                secs.push(cur)
            } else {
                secs
            },
            Map::<Seq<char>, Seq<char>>::empty().insert(sysdev_key(), dev),
            true,
        ),
        None => (secs, cur, opened),
    };
    (at_header.0, frags_fold(at_header.1, spec_split(l, ',')), at_header.2)
}

/// All lines applied in order to the probe state.
pub open spec fn probe_fold(
    secs: Seq<Map<Seq<char>, Seq<char>>>,
    cur: Map<Seq<char>, Seq<char>>,
    opened: bool,
    lines: Seq<Seq<char>>,
) -> (Seq<Map<Seq<char>, Seq<char>>>, Map<Seq<char>, Seq<char>>, bool)
    decreases lines.len(),
{
    if lines.len() == 0 {
        (secs, cur, opened)
    } else {
        let st = probe_fold(secs, cur, opened, lines.drop_last());
        line_apply(st.0, st.1, st.2, lines.last())
    }
}

/// The qualifying sections parsed from the whole diagnostic text: every
/// line folded in, and the final section kept when a header opened it and
/// it qualifies.  Text without any header line yields no section.
pub open spec fn spec_probe(text: Seq<char>) -> Seq<Map<Seq<char>, Seq<char>>> {
    let st = probe_fold(
        Seq::<Map<Seq<char>, Seq<char>>>::empty(),
        Map::empty(),
        false,
        spec_lines(text),
    );
    if st.2 && spec_qualifies(st.1) {
        st.0.push(st.1)
    } else {
        st.0
    }
}

/// The maps that a sequence of sections holds.
pub open spec fn sections_view(v: Seq<CapabilitySection>) -> Seq<Map<Seq<char>, Seq<char>>> {
    v.map_values(|s: CapabilitySection| s@)
}

/// The device description of a header line, or `None` for any other line.
fn header_capture_exec(l: &str) -> (r: Option<String>)
    ensures
        match r {
            Some(d) => header_capture(l@) == Some(d@),
            None => header_capture(l@) is None,
        },
{
    proof {
        reveal_strlit("Found ");
        reveal_strlit(" with:");
    }
    let n = l.unicode_len();
    if n < 13 {
        return None;
    }
    if !str_starts_with(l, "Found ") {
        return None;
    }
    if !matches_at(l, " with:", n - 6) {
        return None;
    }
    Some(String::from_str(l.substring_char(6, n - 6)))
}

/// Parse the enumeration tool's diagnostic text into the qualifying
/// capability sections, in order of appearance.
pub fn parse_ir_keytable_output(output: &str) -> (r: Vec<CapabilitySection>)
    ensures
        sections_view(r@) == spec_probe(output@),
        forall|i: int| 0 <= i < r@.len() ==> (#[trigger] r@[i]).wf(),
{
    let ghost all_lines: Seq<Seq<char>> = spec_lines(output@);
    let lines = split_lines(output);
    let mut sections: Vec<CapabilitySection> = Vec::new();
    let mut current = CapabilitySection::new();
    let mut opened: bool = false;
    proof {
        assert(all_lines.take(0) =~= Seq::<Seq<char>>::empty());
        assert(sections_view(sections@) =~= Seq::<Map<Seq<char>, Seq<char>>>::empty());
    }
    let n = lines.len();
    let mut li: usize = 0;
    while li < n
        invariant
            li <= n,
            n == lines@.len(),
            lines.deep_view() == all_lines,
            current.wf(),
            forall|i: int| 0 <= i < sections@.len() ==> (#[trigger] sections@[i]).wf(),
            sections_view(sections@) == probe_fold(
                Seq::<Map<Seq<char>, Seq<char>>>::empty(),
                Map::empty(),
                false,
                all_lines.take(li as int),
            ).0,
            current@ == probe_fold(
                Seq::<Map<Seq<char>, Seq<char>>>::empty(),
                Map::empty(),
                false,
                all_lines.take(li as int),
            ).1,
            opened == probe_fold(
                Seq::<Map<Seq<char>, Seq<char>>>::empty(),
                Map::empty(),
                false,
                all_lines.take(li as int),
            ).2,
        decreases n - li,
    {
        let ghost st = probe_fold(
            Seq::<Map<Seq<char>, Seq<char>>>::empty(),
            Map::empty(),
            false,
            all_lines.take(li as int),
        );
        let line: &str = lines[li].as_str();
        proof {
            assert(lines.deep_view()[li as int] == lines@[li as int]@);
            assert(line@ == all_lines[li as int]);
        }
        match header_capture_exec(line) {
            Some(dev) => {
                if opened && current.has_capability_marker() {
                    sections.push(current);
                    proof {
                        assert(sections_view(sections@) =~= sections_view(
                            sections@.drop_last(),
                        ).push(sections@.last()@));
                    }
                }
                current = CapabilitySection::new();
                current.insert(String::from_str("__sysdev__"), dev);
                opened = true;
            },
            None => {},
        }
        let ghost opened: Map<Seq<char>, Seq<char>> = current@;
        let ghost frag_seq: Seq<Seq<char>> = spec_split(line@, ',');
        let frags = split_char_str(line, ',');
        let fn_count = frags.len();
        let mut fi: usize = 0;
        proof {
            assert(frag_seq.take(0) =~= Seq::<Seq<char>>::empty());
        }
        while fi < fn_count
            invariant
                fi <= fn_count,
                fn_count == frags@.len(),
                frags.deep_view() == frag_seq,
                current.wf(),
                current@ == frags_fold(opened, frag_seq.take(fi as int)),
            decreases fn_count - fi,
        {
            let frag: &str = frags[fi].as_str();
            proof {
                assert(frags.deep_view()[fi as int] == frags@[fi as int]@);
                assert(frag@ == frag_seq[fi as int]);
                assert(frag_seq.take(fi as int + 1).drop_last() =~= frag_seq.take(fi as int));
            }
            let fl = frag.unicode_len();
            match find_char(frag, ':') {
                Some(ci) => {
                    proof {
                        lemma_spec_find_char_props(frag@, ':');
                    }
                    let key = trim_str(frag.substring_char(0, ci));
                    let value = trim_str(frag.substring_char(ci + 1, fl));
                    current.insert(key, value);
                },
                None => {},
            }
            fi = fi + 1;
        }
        proof {
            assert(frag_seq.take(fn_count as int) =~= frag_seq);
            assert(all_lines.take(li as int + 1).drop_last() =~= all_lines.take(li as int));
            assert(all_lines.take(li as int + 1).last() == all_lines[li as int]);
        }
        li = li + 1;
    }
    proof {
        assert(all_lines.take(n as int) =~= all_lines);
    }
    if opened && current.has_capability_marker() {
        sections.push(current);
        proof {
            assert(sections_view(sections@) =~= sections_view(sections@.drop_last()).push(
                sections@.last()@,
            ));
        }
    }
    sections
}

/// No-header law: diagnostic text in which no line is a device header
/// yields no section, whatever comma/colon fragments its lines hold.  No
/// header ever opens a section, so nothing is pushed at a header and the
/// final accumulator is not retained either.
pub proof fn lemma_no_header_yields_empty(text: Seq<char>)
    requires
        forall|i: int|
            0 <= i < spec_lines(text).len() ==> header_capture(
                #[trigger] spec_lines(text)[i],
            ) is None,
    ensures
        spec_probe(text) == Seq::<Map<Seq<char>, Seq<char>>>::empty(),
{
    lemma_probe_fold_no_header(spec_lines(text));
}

proof fn lemma_probe_fold_no_header(lines: Seq<Seq<char>>)
    requires
        forall|i: int| 0 <= i < lines.len() ==> header_capture(#[trigger] lines[i]) is None,
    ensures
        probe_fold(Seq::<Map<Seq<char>, Seq<char>>>::empty(), Map::empty(), false, lines).0
            == Seq::<Map<Seq<char>, Seq<char>>>::empty(),
        !probe_fold(Seq::<Map<Seq<char>, Seq<char>>>::empty(), Map::empty(), false, lines).2,
    decreases lines.len(),
{
    if lines.len() > 0 {
        lemma_probe_fold_no_header(lines.drop_last());
        assert(lines.last() == lines[lines.len() - 1]);
    }
}

} // verus!
