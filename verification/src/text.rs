//! Verified text primitives: substring search, character search, and the
//! lemmas that characterise them.  All contracts speak over `Seq<char>`,
//! the view of `&str` and `String`.

use vstd::prelude::*;

verus! {

/// True when `pat` occurs in `s` starting at index `i`.
pub open spec fn match_at(s: Seq<char>, pat: Seq<char>, i: int) -> bool {
    0 <= i && i + pat.len() <= s.len() && s.subrange(i, i + pat.len() as int) == pat
}

/// True when `pat` occurs somewhere in `s`.
pub open spec fn contains_seq(s: Seq<char>, pat: Seq<char>) -> bool {
    exists|i: int| match_at(s, pat, i)
}

/// True when `p` is a prefix of `s`.
pub open spec fn starts_with(s: Seq<char>, p: Seq<char>) -> bool {
    match_at(s, p, 0)
}

/// Index of the first occurrence of `pat` in `s`, if any.
pub open spec fn spec_find(s: Seq<char>, pat: Seq<char>) -> Option<int>
    decreases s.len(),
{
    if match_at(s, pat, 0) {
        Some(0)
    } else if s.len() == 0 {
        None
    } else {
        match spec_find(s.subrange(1, s.len() as int), pat) {
            Some(i) => Some(i + 1),
            None => None,
        }
    }
}

/// Index of the first occurrence of the character `c` in `s`, if any.
pub open spec fn spec_find_char(s: Seq<char>, c: char) -> Option<int>
    decreases s.len(),
{
    if s.len() == 0 {
        None
    } else if s[0] == c {
        Some(0)
    } else {
        match spec_find_char(s.subrange(1, s.len() as int), c) {
            Some(i) => Some(i + 1),
            None => None,
        }
    }
}

/// Index of the last occurrence of a non-empty `pat` in `s` that ends at
/// or before position `end`, if any.
pub open spec fn spec_rfind_before(s: Seq<char>, pat: Seq<char>, end: int) -> Option<int>
    decreases end,
{
    if pat.len() == 0 || end < pat.len() {
        None
    } else if match_at(s, pat, end - pat.len()) {
        Some(end - pat.len())
    } else {
        spec_rfind_before(s, pat, end - 1)
    }
}

proof fn lemma_match_at_shift(s: Seq<char>, pat: Seq<char>, j: int)
    requires
        s.len() > 0,
        j >= 0,
    ensures
        match_at(s, pat, j + 1) == match_at(s.subrange(1, s.len() as int), pat, j),
{
    let t = s.subrange(1, s.len() as int);
    if j + 1 + pat.len() <= s.len() {
        assert(s.subrange(j + 1, j + 1 + pat.len() as int) =~= t.subrange(j, j + pat.len() as int));
    }
}

/// `spec_find` returns the first match: a match where it answers an index,
/// and no match at all where it answers `None`.
pub proof fn lemma_spec_find_props(s: Seq<char>, pat: Seq<char>)
    ensures
        match spec_find(s, pat) {
            Some(i) => 0 <= i && match_at(s, pat, i) && (forall|j: int|
                0 <= j < i ==> !match_at(s, pat, j)),
            None => forall|j: int| !match_at(s, pat, j),
        },
    decreases s.len(),
{
    if match_at(s, pat, 0) {
    } else if s.len() == 0 {
        assert forall|j: int| !match_at(s, pat, j) by {
            if 0 <= j && j + pat.len() <= s.len() {
                assert(j == 0 && pat.len() == 0);
            }
        }
    } else {
        let t = s.subrange(1, s.len() as int);
        lemma_spec_find_props(t, pat);
        assert forall|j: int| j >= 0 implies match_at(s, pat, j + 1) == match_at(t, pat, j) by {
            lemma_match_at_shift(s, pat, j);
        }
        match spec_find(t, pat) {
            Some(i) => {
                assert(match_at(s, pat, i + 1));
                assert forall|j: int| 0 <= j < i + 1 implies !match_at(s, pat, j) by {
                    if j > 0 {
                        assert(!match_at(t, pat, j - 1));
                    }
                }
            },
            None => {
                assert forall|j: int| !match_at(s, pat, j) by {
                    if j >= 1 {
                        assert(!match_at(t, pat, j - 1));
                    }
                }
            },
        }
    }
}

/// Converse direction: a match with none before it pins `spec_find`.
pub proof fn lemma_find_at(s: Seq<char>, pat: Seq<char>, i: int)
    requires
        match_at(s, pat, i),
        forall|j: int| 0 <= j < i ==> !match_at(s, pat, j),
    ensures
        spec_find(s, pat) == Some(i),
{
    lemma_spec_find_props(s, pat);
    match spec_find(s, pat) {
        Some(k) => {
            if k < i {
                assert(!match_at(s, pat, k));
            } else if i < k {
                assert(!match_at(s, pat, i));
            }
        },
        None => {
            assert(!match_at(s, pat, i));
        },
    }
}

/// No match anywhere pins `spec_find` to `None`.
pub proof fn lemma_find_none(s: Seq<char>, pat: Seq<char>)
    requires
        forall|j: int| !match_at(s, pat, j),
    ensures
        spec_find(s, pat) is None,
{
    lemma_spec_find_props(s, pat);
    match spec_find(s, pat) {
        Some(k) => {
            assert(!match_at(s, pat, k));
        },
        None => {},
    }
}

/// `spec_rfind_before` returns the last match ending at or before `end`:
/// a match where it answers an index, and no such match where it answers
/// `None`.
pub proof fn lemma_spec_rfind_before_props(s: Seq<char>, pat: Seq<char>, end: int)
    requires
        pat.len() > 0,
    ensures
        match spec_rfind_before(s, pat, end) {
            Some(i) => 0 <= i && i + pat.len() <= end && match_at(s, pat, i) && (forall|j: int|
                i < j && j + pat.len() <= end ==> !match_at(s, pat, j)),
            None => forall|j: int| 0 <= j && j + pat.len() <= end ==> !match_at(s, pat, j),
        },
    decreases end,
{
    if pat.len() == 0 || end < pat.len() {
    } else if match_at(s, pat, end - pat.len()) {
    } else {
        lemma_spec_rfind_before_props(s, pat, end - 1);
        match spec_rfind_before(s, pat, end - 1) {
            Some(i) => {
                assert forall|j: int| i < j && j + pat.len() <= end implies !match_at(
                    s,
                    pat,
                    j,
                ) by {
                    if j + pat.len() == end {
                        assert(j == end - pat.len());
                    }
                }
            },
            None => {
                assert forall|j: int| 0 <= j && j + pat.len() <= end implies !match_at(
                    s,
                    pat,
                    j,
                ) by {
                    if j + pat.len() == end {
                        assert(j == end - pat.len());
                    }
                }
            },
        }
    }
}

/// Converse direction: a match with none after it (up to `end`) pins
/// `spec_rfind_before`.
pub proof fn lemma_rfind_at(s: Seq<char>, pat: Seq<char>, end: int, i: int)
    requires
        pat.len() > 0,
        0 <= i,
        i + pat.len() <= end,
        match_at(s, pat, i),
        forall|j: int| i < j && j + pat.len() <= end ==> !match_at(s, pat, j),
    ensures
        spec_rfind_before(s, pat, end) == Some(i),
{
    lemma_spec_rfind_before_props(s, pat, end);
    match spec_rfind_before(s, pat, end) {
        Some(k) => {
            if k < i {
                assert(!match_at(s, pat, i));
            } else if i < k {
                assert(!match_at(s, pat, k));
            }
        },
        None => {
            assert(!match_at(s, pat, i));
        },
    }
}

/// No match ending at or before `end` pins `spec_rfind_before` to `None`.
pub proof fn lemma_rfind_none(s: Seq<char>, pat: Seq<char>, end: int)
    requires
        pat.len() > 0,
        forall|j: int| 0 <= j && j + pat.len() <= end ==> !match_at(s, pat, j),
    ensures
        spec_rfind_before(s, pat, end) is None,
{
    lemma_spec_rfind_before_props(s, pat, end);
    match spec_rfind_before(s, pat, end) {
        Some(k) => {
            assert(!match_at(s, pat, k));
        },
        None => {},
    }
}

/// A match that lies within a prefix is a match of the prefix.
pub proof fn lemma_match_at_prefix(b1: Seq<char>, b2: Seq<char>, pat: Seq<char>, i: int)
    requires
        0 <= i,
        i + pat.len() <= b1.len(),
    ensures
        match_at(b1 + b2, pat, i) == match_at(b1, pat, i),
{
    assert((b1 + b2).subrange(i, i + pat.len() as int) =~= b1.subrange(i, i + pat.len() as int));
}

/// The first match inside a prefix is the first match of the whole.
pub proof fn lemma_find_prefix(b1: Seq<char>, b2: Seq<char>, pat: Seq<char>)
    requires
        spec_find(b1, pat) is Some,
    ensures
        spec_find(b1 + b2, pat) == spec_find(b1, pat),
{
    lemma_spec_find_props(b1, pat);
    match spec_find(b1, pat) {
        Some(e) => {
            lemma_match_at_prefix(b1, b2, pat, e);
            assert forall|j: int| 0 <= j < e implies !match_at(b1 + b2, pat, j) by {
                lemma_match_at_prefix(b1, b2, pat, j);
            }
            lemma_find_at(b1 + b2, pat, e);
        },
        None => {},
    }
}

/// A reverse search bounded inside the prefix is unchanged by an appended
/// suffix.
pub proof fn lemma_rfind_prefix(b1: Seq<char>, b2: Seq<char>, pat: Seq<char>, end: int)
    requires
        pat.len() > 0,
        0 <= end <= b1.len(),
    ensures
        spec_rfind_before(b1 + b2, pat, end) == spec_rfind_before(b1, pat, end),
{
    lemma_spec_rfind_before_props(b1, pat, end);
    match spec_rfind_before(b1, pat, end) {
        Some(i) => {
            lemma_match_at_prefix(b1, b2, pat, i);
            assert forall|j: int| i < j && j + pat.len() <= end implies !match_at(
                b1 + b2,
                pat,
                j,
            ) by {
                lemma_match_at_prefix(b1, b2, pat, j);
            }
            lemma_rfind_at(b1 + b2, pat, end, i);
        },
        None => {
            assert forall|j: int| 0 <= j && j + pat.len() <= end implies !match_at(
                b1 + b2,
                pat,
                j,
            ) by {
                lemma_match_at_prefix(b1, b2, pat, j);
            }
            lemma_rfind_none(b1 + b2, pat, end);
        },
    }
}

/// `spec_find_char` returns the first position of the character.
pub proof fn lemma_spec_find_char_props(s: Seq<char>, c: char)
    ensures
        match spec_find_char(s, c) {
            Some(i) => 0 <= i < s.len() && s[i] == c && (forall|j: int|
                0 <= j < i ==> s[j] != c),
            None => forall|j: int| 0 <= j < s.len() ==> s[j] != c,
        },
    decreases s.len(),
{
    if s.len() == 0 {
    } else if s[0] == c {
    } else {
        let t = s.subrange(1, s.len() as int);
        lemma_spec_find_char_props(t, c);
        match spec_find_char(t, c) {
            Some(i) => {
                assert(s[i + 1] == t[i]);
                assert forall|j: int| 0 <= j < i + 1 implies s[j] != c by {
                    if j > 0 {
                        assert(t[j - 1] != c);
                    }
                }
            },
            None => {
                assert forall|j: int| 0 <= j < s.len() implies s[j] != c by {
                    if j > 0 {
                        assert(t[j - 1] != c);
                    }
                }
            },
        }
    }
}

/// Converse direction for characters.
pub proof fn lemma_find_char_at(s: Seq<char>, c: char, i: int)
    requires
        0 <= i < s.len(),
        s[i] == c,
        forall|j: int| 0 <= j < i ==> s[j] != c,
    ensures
        spec_find_char(s, c) == Some(i),
{
    lemma_spec_find_char_props(s, c);
    match spec_find_char(s, c) {
        Some(k) => {
            if k < i {
                assert(s[k] != c);
            }
            if i < k {
                assert(s[i] != c);
            }
        },
        None => {
            assert(s[i] != c);
        },
    }
}

/// The characters that `str::trim` removes: the Unicode white-space
/// property.
pub open spec fn is_space(c: char) -> bool {
    c == ' ' || c == '\t' || c == '\n' || c == '\r' || c == '\u{000B}' || c == '\u{000C}' || c
        == '\u{0085}' || c == '\u{00A0}' || c == '\u{1680}' || ('\u{2000}' <= c && c
        <= '\u{200A}') || c == '\u{2028}' || c == '\u{2029}' || c == '\u{202F}' || c == '\u{205F}'
        || c == '\u{3000}'
}

/// `s` without its leading white space.
pub open spec fn trim_start(s: Seq<char>) -> Seq<char>
    decreases s.len(),
{
    if s.len() > 0 && is_space(s[0]) {
        trim_start(s.subrange(1, s.len() as int))
    } else {
        s
    }
}

/// `s` without its trailing white space.
pub open spec fn trim_end(s: Seq<char>) -> Seq<char>
    decreases s.len(),
{
    if s.len() > 0 && is_space(s[s.len() - 1]) {
        trim_end(s.subrange(0, s.len() - 1))
    } else {
        s
    }
}

/// `s` without its surrounding white space.
pub open spec fn spec_trim(s: Seq<char>) -> Seq<char> {
    trim_end(trim_start(s))
}

proof fn lemma_trim_start_at(s: Seq<char>, a: int)
    requires
        0 <= a <= s.len(),
        forall|j: int| 0 <= j < a ==> is_space(s[j]),
        a < s.len() ==> !is_space(s[a]),
    ensures
        trim_start(s) == s.subrange(a, s.len() as int),
    decreases a,
{
    if a == 0 {
        assert(s.subrange(0, s.len() as int) =~= s);
    } else {
        let t = s.subrange(1, s.len() as int);
        lemma_trim_start_at(t, a - 1);
        assert(t.subrange(a - 1, t.len() as int) =~= s.subrange(a, s.len() as int));
    }
}

proof fn lemma_trim_end_at(s: Seq<char>, b: int)
    requires
        0 <= b <= s.len(),
        forall|j: int| b <= j < s.len() ==> is_space(s[j]),
        b > 0 ==> !is_space(s[b - 1]),
    ensures
        trim_end(s) == s.subrange(0, b),
    decreases s.len() - b,
{
    if b == s.len() {
        assert(s.subrange(0, s.len() as int) =~= s);
    } else {
        let t = s.subrange(0, s.len() - 1);
        lemma_trim_end_at(t, b);
        assert(t.subrange(0, b) =~= s.subrange(0, b));
    }
}

/// Characterisation of `spec_trim` by the first and last non-space
/// positions.
pub proof fn lemma_trim_bounds(s: Seq<char>, a: int, b: int)
    requires
        0 <= a <= b <= s.len(),
        forall|j: int| 0 <= j < a ==> is_space(s[j]),
        forall|j: int| b <= j < s.len() ==> is_space(s[j]),
        a < s.len() ==> !is_space(s[a]),
        b > a ==> !is_space(s[b - 1]),
    ensures
        spec_trim(s) == s.subrange(a, b),
{
    lemma_trim_start_at(s, a);
    let t = s.subrange(a, s.len() as int);
    lemma_trim_end_at(t, b - a);
    assert(t.subrange(0, b - a) =~= s.subrange(a, b));
}

/// The pieces of `s` between occurrences of the separator `sep`, in order.
/// A string without the separator is one piece; every separator ends a
/// piece, so `n` separators give `n + 1` pieces.
pub open spec fn spec_split(s: Seq<char>, sep: char) -> Seq<Seq<char>>
    decreases s.len(),
    via spec_split_decreases
{
    match spec_find_char(s, sep) {
        Some(i) => seq![s.subrange(0, i)] + spec_split(s.subrange(i + 1, s.len() as int), sep),
        None => seq![s],
    }
}

#[via_fn]
proof fn spec_split_decreases(s: Seq<char>, sep: char) {
    lemma_spec_find_char_props(s, sep);
}

/// `s` with a final carriage return removed, as a line of `str::lines`.
pub open spec fn strip_cr(l: Seq<char>) -> Seq<char> {
    if l.len() > 0 && l[l.len() - 1] == '\r' {
        l.subrange(0, l.len() - 1)
    } else {
        l
    }
}

/// The lines of `s`, as `str::lines` yields them: pieces end at each
/// newline, a carriage return before a newline is dropped, and a final
/// newline opens no further empty line.
pub open spec fn spec_lines(s: Seq<char>) -> Seq<Seq<char>>
    decreases s.len(),
    via spec_lines_decreases
{
    if s.len() == 0 {
        Seq::<Seq<char>>::empty()
    } else {
        match spec_find_char(s, '\n') {
            Some(i) => seq![strip_cr(s.subrange(0, i))] + spec_lines(
                s.subrange(i + 1, s.len() as int),
            ),
            None => seq![s],
        }
    }
}

#[via_fn]
proof fn spec_lines_decreases(s: Seq<char>) {
    lemma_spec_find_char_props(s, '\n');
}

/// Whether `pat` occurs at position `i` of `s`, decided by character
/// comparison.
pub fn matches_at(s: &str, pat: &str, i: usize) -> (r: bool)
    requires
        i <= s@.len(),
    ensures
        r == match_at(s@, pat@, i as int),
{
    let n = s.unicode_len();
    let m = pat.unicode_len();
    if m > n - i {
        return false;
    }
    let mut k: usize = 0;
    while k < m
        invariant
            i + m <= n,
            k <= m,
            forall|t: int| 0 <= t < k ==> s@[i + t] == pat@[t],
        decreases m - k,
    {
        if s.get_char(i + k) != pat.get_char(k) {
            proof {
                if match_at(s@, pat@, i as int) {
                    assert(s@.subrange(i as int, i + pat@.len() as int)[k as int] == pat@[k as int]);
                }
            }
            return false;
        }
        k = k + 1;
    }
    proof {
        assert(s@.subrange(i as int, i + pat@.len() as int) =~= pat@);
    }
    true
}

/// First occurrence of `pat` in `s`, as `spec_find` names it.
pub fn find_str(s: &str, pat: &str) -> (r: Option<usize>)
    ensures
        match r {
            Some(i) => spec_find(s@, pat@) == Some(i as int),
            None => spec_find(s@, pat@) is None,
        },
{
    let n = s.unicode_len();
    let m = pat.unicode_len();
    if m == 0 {
        proof {
            assert(s@.subrange(0, 0) =~= pat@);
            lemma_find_at(s@, pat@, 0);
        }
        return Some(0);
    }
    if m > n {
        proof {
            lemma_find_none(s@, pat@);
        }
        return None;
    }
    let mut i: usize = 0;
    while i <= n - m
        invariant
            m <= n,
            i <= n - m + 1,
            forall|j: int| 0 <= j < i ==> !match_at(s@, pat@, j),
        decreases n - m + 1 - i,
    {
        if matches_at(s, pat, i) {
            proof {
                lemma_find_at(s@, pat@, i as int);
            }
            return Some(i);
        }
        i = i + 1;
    }
    proof {
        lemma_find_none(s@, pat@);
    }
    None
}

/// Last occurrence of `pat` in `s` ending at or before position `end`, as
/// `spec_rfind_before` names it.
pub fn rfind_str_before(s: &str, pat: &str, end: usize) -> (r: Option<usize>)
    requires
        end <= s@.len(),
        pat@.len() > 0,
    ensures
        match r {
            Some(i) => spec_rfind_before(s@, pat@, end as int) == Some(i as int),
            None => spec_rfind_before(s@, pat@, end as int) is None,
        },
{
    let m = pat.unicode_len();
    if m > end {
        return None;
    }
    let mut i: usize = end - m;
    loop
        invariant
            i <= end - m,
            forall|j: int| i < j && j + m <= end ==> !match_at(s@, pat@, j),
        decreases i,
    {
        if matches_at(s, pat, i) {
            proof {
                lemma_rfind_at(s@, pat@, end as int, i as int);
            }
            return Some(i);
        }
        if i == 0 {
            proof {
                lemma_rfind_none(s@, pat@, end as int);
            }
            return None;
        }
        i = i - 1;
    }
}

/// First occurrence of the character `c` in `s`.
pub fn find_char(s: &str, c: char) -> (r: Option<usize>)
    ensures
        match r {
            Some(i) => spec_find_char(s@, c) == Some(i as int),
            None => spec_find_char(s@, c) is None,
        },
{
    let n = s.unicode_len();
    let mut i: usize = 0;
    while i < n
        invariant
            i <= n,
            n == s@.len(),
            forall|j: int| 0 <= j < i ==> s@[j] != c,
        decreases n - i,
    {
        if s.get_char(i) == c {
            proof {
                lemma_find_char_at(s@, c, i as int);
            }
            return Some(i);
        }
        i = i + 1;
    }
    proof {
        lemma_spec_find_char_props(s@, c);
        match spec_find_char(s@, c) {
            Some(k) => {
                assert(s@[k] != c);
            },
            None => {},
        }
    }
    None
}

/// Whether `c` has the Unicode white-space property.
pub fn is_space_char(c: char) -> (r: bool)
    ensures
        r == is_space(c),
{
    c == ' ' || c == '\t' || c == '\n' || c == '\r' || c == '\u{000B}' || c == '\u{000C}' || c
        == '\u{0085}' || c == '\u{00A0}' || c == '\u{1680}' || ('\u{2000}' <= c && c
        <= '\u{200A}') || c == '\u{2028}' || c == '\u{2029}' || c == '\u{202F}' || c == '\u{205F}'
        || c == '\u{3000}'
}

/// `s` without its surrounding white space.
pub fn trim_str(s: &str) -> (r: String)
    ensures
        r@ == spec_trim(s@),
{
    let n = s.unicode_len();
    let mut a: usize = 0;
    while a < n && is_space_char(s.get_char(a))
        invariant
            a <= n,
            forall|j: int| 0 <= j < a ==> is_space(s@[j]),
        decreases n - a,
    {
        a = a + 1;
    }
    let mut b: usize = n;
    while b > a && is_space_char(s.get_char(b - 1))
        invariant
            a <= b <= n,
            forall|j: int| b <= j < n ==> is_space(s@[j]),
        decreases b,
    {
        b = b - 1;
    }
    let r = String::from_str(s.substring_char(a, b));
    proof {
        lemma_trim_bounds(s@, a as int, b as int);
    }
    r
}

/// The pieces of `s` between occurrences of `sep`, as `spec_split` names
/// them.
pub fn split_char_str(s: &str, sep: char) -> (r: Vec<String>)
    ensures
        r.deep_view() == spec_split(s@, sep),
    decreases s@.len(),
{
    let n = s.unicode_len();
    match find_char(s, sep) {
        Some(i) => {
            proof {
                lemma_spec_find_char_props(s@, sep);
            }
            let head = String::from_str(s.substring_char(0, i));
            let tail = s.substring_char(i + 1, n);
            let mut rest = split_char_str(tail, sep);
            rest.insert(0, head);
            proof {
                assert(rest.deep_view() =~= spec_split(s@, sep));
            }
            rest
        },
        None => {
            let mut r: Vec<String> = Vec::new();
            r.push(String::from_str(s));
            proof {
                assert(r.deep_view() =~= spec_split(s@, sep));
            }
            r
        },
    }
}

/// The lines of `s`, as `spec_lines` names them.
pub fn split_lines(s: &str) -> (r: Vec<String>)
    ensures
        r.deep_view() == spec_lines(s@),
    decreases s@.len(),
{
    let n = s.unicode_len();
    if n == 0 {
        let r: Vec<String> = Vec::new();
        proof {
            assert(r.deep_view() =~= spec_lines(s@));
        }
        return r;
    }
    match find_char(s, '\n') {
        Some(i) => {
            proof {
                lemma_spec_find_char_props(s@, '\n');
            }
            let head_end = if i > 0 && s.get_char(i - 1) == '\r' {
                i - 1
            } else {
                i
            };
            let head = String::from_str(s.substring_char(0, head_end));
            proof {
                assert(head@ =~= strip_cr(s@.subrange(0, i as int)));
            }
            let tail = s.substring_char(i + 1, n);
            let mut rest = split_lines(tail);
            rest.insert(0, head);
            proof {
                assert(rest.deep_view() =~= spec_lines(s@));
            }
            rest
        },
        None => {
            let mut r: Vec<String> = Vec::new();
            r.push(String::from_str(s));
            proof {
                assert(r.deep_view() =~= spec_lines(s@));
            }
            r
        },
    }
}

/// Whether two string slices hold the same characters.
pub fn str_eq(a: &str, b: &str) -> (r: bool)
    ensures
        r == (a@ == b@),
{
    let n = a.unicode_len();
    if n != b.unicode_len() {
        return false;
    }
    let r = matches_at(a, b, 0);
    proof {
        if match_at(a@, b@, 0) {
            assert(a@.subrange(0, b@.len() as int) =~= a@);
        } else if a@ == b@ {
            assert(a@.subrange(0, b@.len() as int) =~= b@);
        }
    }
    r
}

/// Whether `pat` occurs somewhere in `s`.
pub fn contains_str(s: &str, pat: &str) -> (r: bool)
    ensures
        r == contains_seq(s@, pat@),
{
    let f = find_str(s, pat);
    proof {
        lemma_spec_find_props(s@, pat@);
    }
    f.is_some()
}

/// Whether `p` is a prefix of `s`.
pub fn str_starts_with(s: &str, p: &str) -> (r: bool)
    ensures
        r == starts_with(s@, p@),
{
    matches_at(s, p, 0)
}

} // verus!
