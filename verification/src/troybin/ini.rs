//! The INI text form of a troybin: `[Section]` headers and `key=value`
//! lines, read into entries whose values are still text.
//!
//! The `[UNKNOWN_HASHES]` section is special: its keys are decimal hashes.

use vstd::prelude::*;

use super::hash::{section_field_hash, section_field_hash_of, strings_view};
use super::types::TroybinError;
use crate::text::chars_of;

verus! {

broadcast use vstd::string::group_string_axioms;

/// Whether `c` has the Unicode `White_Space` property, as
/// `char::is_whitespace` is documented to test.
pub open spec fn is_white_space(c: char) -> bool {
    ('\u{9}' <= c && c <= '\u{d}') || c == ' ' || c == '\u{85}' || c == '\u{a0}' || c == '\u{1680}'
        || ('\u{2000}' <= c && c <= '\u{200a}') || c == '\u{2028}' || c == '\u{2029}' || c
        == '\u{202f}' || c == '\u{205f}' || c == '\u{3000}'
}

/// Whether `c` is white space.
fn white_space(c: char) -> (r: bool)
    ensures
        r == is_white_space(c),
{
    ('\u{9}' <= c && c <= '\u{d}') || c == ' ' || c == '\u{85}' || c == '\u{a0}' || c == '\u{1680}'
        || ('\u{2000}' <= c && c <= '\u{200a}') || c == '\u{2028}' || c == '\u{2029}' || c
        == '\u{202f}' || c == '\u{205f}' || c == '\u{3000}'
}

/// `s` without its leading white space.
pub open spec fn trim_start(s: Seq<char>) -> Seq<char>
    decreases s.len(),
{
    if s.len() > 0 && is_white_space(s[0]) {
        trim_start(s.drop_first())
    } else {
        s
    }
}

/// `s` without its trailing white space.
pub open spec fn trim_end(s: Seq<char>) -> Seq<char>
    decreases s.len(),
{
    if s.len() > 0 && is_white_space(s.last()) {
        trim_end(s.drop_last())
    } else {
        s
    }
}

/// `s` without white space at either end, as `str::trim` gives it.
#[verifier::opaque]
pub open spec fn trim(s: Seq<char>) -> Seq<char> {
    trim_end(trim_start(s))
}

/// `s` without white space at either end.
fn trim_str(s: &str) -> (r: String)
    ensures
        r@ == trim(s@),
{
    reveal(trim);
    let chars = chars_of(s);
    let n = chars.len();
    let mut a: usize = 0;
    proof {
        assert(s@.subrange(0, n as int) =~= s@);
    }
    while a < n && white_space(chars[a])
        invariant
            chars@ == s@,
            n == s@.len(),
            a <= n,
            trim_start(s@) == trim_start(s@.subrange(a as int, n as int)),
        decreases n - a,
    {
        proof {
            let t = s@.subrange(a as int, n as int);
            assert(t[0] == s@[a as int]);
            assert(t.drop_first() =~= s@.subrange(a + 1, n as int));
        }
        a = a + 1;
    }
    proof {
        let t = s@.subrange(a as int, n as int);
        if a < n {
            assert(t[0] == s@[a as int]);
        }
        assert(trim_start(t) == t);
    }
    let mut b: usize = n;
    while b > a && white_space(chars[b - 1])
        invariant
            chars@ == s@,
            n == s@.len(),
            a <= b <= n,
            trim(s@) == trim_end(s@.subrange(a as int, b as int)),
        decreases b - a,
    {
        proof {
            let t = s@.subrange(a as int, b as int);
            assert(t.last() == s@[b - 1]);
            assert(t.drop_last() =~= s@.subrange(a as int, b - 1));
        }
        b = b - 1;
    }
    proof {
        let t = s@.subrange(a as int, b as int);
        if b > a {
            assert(t.last() == s@[b - 1]);
        }
        assert(trim_end(t) == t);
    }
    let mut out = String::new();
    out.append(s.substring_char(a, b));
    proof {
        assert(out@ =~= trim(s@));
    }
    out
}

/// The pieces of `text` between its line feeds, in order; a text ending in
/// a line feed ends with an empty piece.
pub open spec fn split_lines(text: Seq<char>) -> Seq<Seq<char>>
    decreases text.len(),
{
    if text.len() == 0 {
        seq![Seq::empty()]
    } else {
        let prev = split_lines(text.drop_last());
        if text.last() == '\n' {
            prev.push(Seq::empty())
        } else {
            prev.update(prev.len() - 1, prev.last().push(text.last()))
        }
    }
}

/// There is always a piece.
proof fn lemma_split_lines_len(text: Seq<char>)
    ensures
        split_lines(text).len() >= 1,
    decreases text.len(),
{
    if text.len() > 0 {
        lemma_split_lines_len(text.drop_last());
    }
}

/// The number `s` writes in decimal, optionally after a `+`, when it is one
/// an `u32` holds: what `u32::from_str` accepts.
pub open spec fn parse_u32(s: Seq<char>) -> Option<u32> {
    let digits = unsigned_digits(s);
    if digits.len() > 0 && (forall|i: int| 0 <= i < digits.len() ==> '0' <= #[trigger] digits[i] <= '9')
        && decimal_value(digits) <= u32::MAX {
        Some(decimal_value(digits) as u32)
    } else {
        None
    }
}

/// `s` without a leading `+`.
pub open spec fn unsigned_digits(s: Seq<char>) -> Seq<char> {
    if s.len() > 0 && s[0] == '+' {
        s.drop_first()
    } else {
        s
    }
}

/// The number the decimal digits of `s` write.
pub open spec fn decimal_value(s: Seq<char>) -> nat
    decreases s.len(),
{
    if s.len() == 0 {
        0
    } else {
        decimal_value(s.drop_last()) * 10 + (s.last() as nat - 0x30) as nat
    }
}

/// `s` parsed as an `u32`, as `u32::from_str` does.
fn parse_u32_str(s: &str) -> (r: Option<u32>)
    ensures
        r == parse_u32(s@),
{
    let chars = chars_of(s);
    let n = chars.len();
    let start: usize = if n > 0 && chars[0] == '+' {
        1
    } else {
        0
    };
    let ghost digits = unsigned_digits(s@);
    proof {
        assert(digits =~= s@.subrange(start as int, n as int));
    }
    if start == n {
        return None;
    }
    let mut value: u64 = 0;
    let mut i = start;
    proof {
        assert(s@.subrange(start as int, start as int) =~= Seq::<char>::empty());
    }
    while i < n
        invariant
            chars@ == s@,
            n == s@.len(),
            start <= i <= n,
            digits == s@.subrange(start as int, n as int),
            digits == unsigned_digits(s@),
            forall|k: int| start <= k < i ==> '0' <= #[trigger] s@[k] <= '9',
            value == decimal_value(s@.subrange(start as int, i as int)),
            value <= u32::MAX,
        decreases n - i,
    {
        let c = chars[i];
        if !('0' <= c && c <= '9') {
            proof {
                assert(digits[i - start] == c);
                assert(!('0' <= digits[i - start] <= '9'));
                assert(!(forall|k: int| 0 <= k < digits.len() ==> '0' <= #[trigger] digits[k] <= '9'));
                assert(parse_u32(s@) is None);
            }
            return None;
        }
        let next = value * 10 + (c as u64 - 0x30);
        proof {
            let p = s@.subrange(start as int, i + 1);
            assert(p.drop_last() =~= s@.subrange(start as int, i as int));
            assert(p.last() == c);
            assert(decimal_value(p) == value * 10 + (c as nat - 0x30));
            assert(next == decimal_value(p));
        }
        if next > 0xffff_ffff {
            proof {
                assert(digits.subrange(0, (i + 1 - start) as int) =~= s@.subrange(start as int, i + 1));
                if forall|k: int| 0 <= k < digits.len() ==> '0' <= #[trigger] digits[k] <= '9' {
                    lemma_decimal_value_grows(digits, (i + 1 - start) as nat);
                    assert(decimal_value(digits) > u32::MAX);
                }
            }
            return None;
        }
        value = next;
        i = i + 1;
    }
    proof {
        assert(s@.subrange(start as int, n as int) =~= digits);
        assert forall|k: int| 0 <= k < digits.len() implies '0' <= #[trigger] digits[k] <= '9' by {
            assert(digits[k] == s@[start + k]);
        }
    }
    Some(value as u32)
}

/// A longer run of digits writes a number at least as large.
proof fn lemma_decimal_value_grows(s: Seq<char>, k: nat)
    requires
        k <= s.len(),
        forall|i: int| 0 <= i < s.len() ==> '0' <= #[trigger] s[i] <= '9',
    ensures
        decimal_value(s.subrange(0, k as int)) <= decimal_value(s),
    decreases s.len() - k,
{
    if k < s.len() {
        lemma_decimal_value_grows(s, k + 1);
        let p = s.subrange(0, (k + 1) as int);
        assert(p.drop_last() =~= s.subrange(0, k as int));
        assert('0' <= p.last() <= '9');
    } else {
        assert(s.subrange(0, k as int) =~= s);
    }
}

/// One `key=value` line of an INI troybin, its value still text.
#[derive(Debug, Clone, PartialEq, Eq)]
pub struct IniEntry {
    /// The section the line stands in; `None` in `[UNKNOWN_HASHES]`.
    pub section: Option<String>,
    /// The key: a field name, or in `[UNKNOWN_HASHES]` a decimal hash.
    pub key: String,
    /// The hash of the section and key, or the hash the key writes.
    pub hash: u32,
    /// The value, trimmed.
    pub value: String,
}

/// The sections and entries of an INI troybin, in the order they come.
#[derive(Debug, Clone, PartialEq, Eq)]
pub struct IniDocument {
    /// The section names, each once, in the order their headers first come.
    pub sections: Vec<String>,
    /// The entries, in the order their lines come.
    pub entries: Vec<IniEntry>,
}

/// An [`IniEntry`] as a mathematical value.
pub struct IniEntryView {
    pub section: Option<Seq<char>>,
    pub key: Seq<char>,
    pub hash: u32,
    pub value: Seq<char>,
}

/// The view of an entry.
pub open spec fn entry_view(e: IniEntry) -> IniEntryView {
    IniEntryView {
        section: match e.section {
            Some(s) => Some(s@),
            None => None,
        },
        key: e.key@,
        hash: e.hash,
        value: e.value@,
    }
}

/// What reading an INI troybin has gathered after some lines.
pub struct IniState {
    /// The section the lines stand in, if any.
    pub current: Option<Seq<char>>,
    /// Whether the lines stand in `[UNKNOWN_HASHES]`.
    pub in_unknown: bool,
    /// The sections named so far.
    pub sections: Seq<Seq<char>>,
    /// The entries read so far.
    pub entries: Seq<IniEntryView>,
}

/// The name between the brackets of a section header line.
pub open spec fn header_name(t: Seq<char>) -> Option<Seq<char>> {
    if t.len() > 0 && t[0] == '[' && t.last() == ']' {
        Some(t.subrange(1, t.len() - 1))
    } else {
        None
    }
}

/// The position of the first `=` of `t` at or after `i`, if any.
pub open spec fn equals_from(t: Seq<char>, i: int) -> Option<int>
    decreases t.len() - i,
{
    if i < 0 || i >= t.len() {
        None
    } else if t[i] == '=' {
        Some(i)
    } else {
        equals_from(t, i + 1)
    }
}

/// The position of the first `=` of `t`, if any.
pub open spec fn first_equals(t: Seq<char>) -> Option<int> {
    equals_from(t, 0)
}

/// The name of the section of unresolved hashes.
pub open spec fn unknown_section() -> Seq<char> {
    "UNKNOWN_HASHES"@
}

/// The state after the header of section `name`.
#[verifier::opaque]
pub open spec fn header_state(st: IniState, name: Seq<char>) -> IniState {
    if name == unknown_section() {
        IniState { current: None, in_unknown: true, ..st }
    } else {
        IniState {
            current: Some(name),
            in_unknown: false,
            sections: if st.sections.contains(name) {
                st.sections
            } else {
                st.sections.push(name)
            },
            ..st
        }
    }
}

/// The state after an entry `key=value` on line `number`, or the failure
/// of a key in `[UNKNOWN_HASHES]` that is no hash.
#[verifier::opaque]
pub open spec fn entry_state(st: IniState, key: Seq<char>, value: Seq<char>, number: nat) -> Result<
    IniState,
    (nat, Seq<char>),
> {
    if st.in_unknown {
        match parse_u32(key) {
            None => Err((number, key)),
            Some(h) => Ok(
                IniState {
                    entries: st.entries.push(IniEntryView { section: None, key, hash: h, value }),
                    ..st
                },
            ),
        }
    } else {
        match st.current {
            Some(section) => Ok(
                IniState {
                    entries: st.entries.push(
                        IniEntryView {
                            section: Some(section),
                            key,
                            hash: section_field_hash_of(section, key),
                            value,
                        },
                    ),
                    ..st
                },
            ),
            None => Ok(st),
        }
    }
}

/// One line, numbered `number`, read into the state: a failure names the
/// line and the key that is no hash.
#[verifier::opaque]
pub open spec fn ini_step(st: IniState, line: Seq<char>, number: nat) -> Result<IniState, (nat, Seq<char>)> {
    let t = trim(line);
    if t.len() == 0 {
        Ok(st)
    } else if header_name(t) is Some {
        Ok(header_state(st, header_name(t)->0))
    } else {
        match first_equals(t) {
            None => Ok(st),
            Some(e) => entry_state(
                st,
                trim(t.subrange(0, e)),
                trim(t.subrange(e + 1, t.len() as int)),
                number,
            ),
        }
    }
}

/// The first `k` lines read from the empty state; lines are numbered from 1.
pub open spec fn ini_run(lines: Seq<Seq<char>>, k: nat) -> Result<IniState, (nat, Seq<char>)>
    decreases k,
{
    if k == 0 {
        Ok(IniState { current: None, in_unknown: false, sections: Seq::empty(), entries: Seq::empty() })
    } else {
        match ini_run(lines, (k - 1) as nat) {
            Err(e) => Err(e),
            Ok(st) => ini_step(st, lines[k - 1], k),
        }
    }
}

/// What reading the INI `text` gives.
pub open spec fn ini_of(text: Seq<char>) -> Result<IniState, (nat, Seq<char>)> {
    ini_run(split_lines(text), split_lines(text).len())
}

/// The pieces of `text` between its line feeds.
fn lines_of(text: &str) -> (r: Vec<String>)
    ensures
        strings_view(r@) == split_lines(text@),
{
    let chars = chars_of(text);
    let n = chars.len();
    let mut done: Vec<String> = Vec::new();
    let mut start: usize = 0;
    let mut i: usize = 0;
    proof {
        assert(text@.subrange(0, 0) =~= Seq::<char>::empty());
        assert(split_lines(Seq::<char>::empty()) == seq![Seq::<char>::empty()]);
        assert(strings_view(done@).push(text@.subrange(0, 0)) =~= seq![Seq::<char>::empty()]);
    }
    while i < n
        invariant
            chars@ == text@,
            n == text@.len(),
            start <= i <= n,
            split_lines(text@.subrange(0, i as int)) == strings_view(done@).push(
                text@.subrange(start as int, i as int),
            ),
        decreases n - i,
    {
        let ghost sub = text@.subrange(0, i + 1);
        proof {
            assert(sub.drop_last() =~= text@.subrange(0, i as int));
            assert(sub.last() == chars@[i as int]);
        }
        if chars[i] == '\n' {
            let ghost before = done@;
            done.push(String::from_str(text.substring_char(start, i)));
            proof {
                assert(strings_view(done@) =~= strings_view(before).push(
                    text@.subrange(start as int, i as int),
                ));
                assert(text@.subrange(i + 1, i + 1) =~= Seq::<char>::empty());
            }
            start = i + 1;
        } else {
            proof {
                let prev = split_lines(text@.subrange(0, i as int));
                assert(prev.last() == text@.subrange(start as int, i as int));
                assert(text@.subrange(start as int, i as int).push(chars@[i as int]) =~= text@.subrange(
                    start as int,
                    i + 1,
                ));
                assert(prev.update(prev.len() - 1, text@.subrange(start as int, i + 1)) =~= strings_view(
                    done@,
                ).push(text@.subrange(start as int, i + 1)));
            }
        }
        i = i + 1;
    }
    let ghost before = done@;
    done.push(String::from_str(text.substring_char(start, n)));
    proof {
        assert(text@.subrange(0, n as int) =~= text@);
        assert(strings_view(done@) =~= strings_view(before).push(text@.subrange(start as int, n as int)));
    }
    done
}

/// The message of a key in `[UNKNOWN_HASHES]` that is no hash.
pub open spec fn invalid_hash_message(key: Seq<char>) -> Seq<char> {
    "Invalid hash in UNKNOWN_HASHES: '"@ + key + "'"@
}

/// The views of entries.
pub open spec fn entries_of(v: Seq<IniEntry>) -> Seq<IniEntryView> {
    v.map_values(|e: IniEntry| entry_view(e))
}

/// The view of the section a line stands in.
pub open spec fn current_view(c: Option<String>) -> Option<Seq<char>> {
    match c {
        Some(s) => Some(s@),
        None => None,
    }
}

/// The first `=` of `t`, if any.
fn find_equals(t: &Vec<char>) -> (r: Option<usize>)
    ensures
        match first_equals(t@) {
            Some(e) => r == Some(e as usize),
            None => r is None,
        },
        r matches Some(i) ==> i < t@.len() && first_equals(t@) == Some(i as int),
{
    let mut i: usize = 0;
    while i < t.len()
        invariant
            i <= t@.len(),
            first_equals(t@) == equals_from(t@, i as int),
        decreases t@.len() - i,
    {
        if t[i] == '=' {
            return Some(i);
        }
        i = i + 1;
    }
    None
}

/// The state the reader's variables hold.
pub open spec fn state_of(
    current: Option<String>,
    in_unknown: bool,
    sections: Seq<String>,
    entries: Seq<IniEntry>,
) -> IniState {
    IniState {
        current: current_view(current),
        in_unknown,
        sections: strings_view(sections),
        entries: entries_of(entries),
    }
}

/// Reads the header of section `name` into the reader's variables.
fn read_header(
    current: &mut Option<String>,
    in_unknown: &mut bool,
    sections: &mut Vec<String>,
    entries: &Vec<IniEntry>,
    name: String,
    unknown: &String,
)
    requires
        unknown@ == unknown_section(),
    ensures
        header_state(state_of(*old(current), *old(in_unknown), old(sections)@, entries@), name@)
            == state_of(*final(current), *final(in_unknown), final(sections)@, entries@),
{
    reveal(header_state);
    if name == *unknown {
        *current = None;
        *in_unknown = true;
    } else {
        *in_unknown = false;
        if !super::dictionary::holds_name(sections, &name) {
            let ghost prev = sections@;
            sections.push(name.clone());
            proof {
                assert(strings_view(sections@) =~= strings_view(prev).push(name@));
            }
        }
        *current = Some(name);
    }
}

/// Reads the entry `key=value` of line `number` into the reader's
/// variables; the message of the failure when its key is no hash.
fn read_entry(
    current: &Option<String>,
    in_unknown: bool,
    sections: &Vec<String>,
    entries: &mut Vec<IniEntry>,
    key: String,
    value: String,
    number: usize,
) -> (r: Result<(), String>)
    ensures
        match entry_state(
            state_of(*current, in_unknown, sections@, old(entries)@),
            key@,
            value@,
            number as nat,
        ) {
            Ok(st) => r is Ok && st == state_of(*current, in_unknown, sections@, final(entries)@),
            Err(e) => r matches Err(m) && m@ == invalid_hash_message(e.1) && e.0 == number,
        },
{
    reveal(entry_state);
    if in_unknown {
        match parse_u32_str(key.as_str()) {
            None => {
                let mut message = String::from_str("Invalid hash in UNKNOWN_HASHES: '");
                message.append(key.as_str());
                message.append("'");
                Err(message)
            },
            Some(h) => {
                let ghost prev = entries@;
                entries.push(IniEntry { section: None, key, hash: h, value });
                proof {
                    assert(entries_of(entries@) =~= entries_of(prev).push(entry_view(entries@.last())));
                }
                Ok(())
            },
        }
    } else {
        match current {
            Some(section) => {
                let h = section_field_hash(section.as_str(), key.as_str());
                let ghost prev = entries@;
                entries.push(IniEntry { section: Some(section.clone()), key, hash: h, value });
                proof {
                    assert(entries_of(entries@) =~= entries_of(prev).push(entry_view(entries@.last())));
                }
                Ok(())
            },
            None => Ok(()),
        }
    }
}

/// Reads one line, numbered `number`, into the reader's variables; the
/// message of the failure when its key is no hash.
#[verifier::spinoff_prover]
fn read_line(
    current: &mut Option<String>,
    in_unknown: &mut bool,
    sections: &mut Vec<String>,
    entries: &mut Vec<IniEntry>,
    line: &str,
    number: usize,
    unknown: &String,
) -> (r: Result<(), String>)
    requires
        unknown@ == unknown_section(),
    ensures
        match ini_step(
            state_of(*old(current), *old(in_unknown), old(sections)@, old(entries)@),
            line@,
            number as nat,
        ) {
            Ok(st) => r is Ok && st == state_of(
                *final(current),
                *final(in_unknown),
                final(sections)@,
                final(entries)@,
            ),
            Err(e) => r matches Err(m) && m@ == invalid_hash_message(e.1) && e.0 == number,
        },
{
    reveal(ini_step);
    let t = trim_str(line);
    let tc = chars_of(t.as_str());
    let len = tc.len();
    if len == 0 {
        return Ok(());
    }
    if tc[0] == '[' && tc[len - 1] == ']' {
        let name = String::from_str(t.substring_char(1, len - 1));
        proof {
            assert(header_name(t@) == Some(name@));
        }
        read_header(current, in_unknown, sections, entries, name, unknown);
        return Ok(());
    }
    proof {
        assert(header_name(t@) is None);
    }
    let e = match find_equals(&tc) {
        None => {
            return Ok(());
        },
        Some(e) => e,
    };
    let key = trim_str(t.substring_char(0, e));
    let value = trim_str(t.substring_char(e + 1, len));
    let ghost before_entries = entries@;
    let unknown_now = *in_unknown;
    let r = read_entry(current, unknown_now, sections, entries, key, value, number);
    proof {
        assert(tc@ == t@);
        assert(first_equals(t@) == Some(e as int));
        assert(ini_step(
            state_of(*old(current), *old(in_unknown), old(sections)@, old(entries)@),
            line@,
            number as nat,
        ) == entry_state(
            state_of(*current, unknown_now, sections@, before_entries),
            key@,
            value@,
            number as nat,
        ));
    }
    r
}

/// Parse INI text into its sections and `key=value` entries, values still
/// text.
///
/// Lines are trimmed; empty lines and lines that are neither a `[Section]`
/// header nor hold a `=` are skipped, as are entries before the first
/// header. In `[UNKNOWN_HASHES]` the keys are decimal hashes, and a key that
/// is none fails with `IniParse`, naming its line (from 1).
pub fn read_ini(text: &str) -> (r: Result<IniDocument, TroybinError>)
    ensures
        match ini_of(text@) {
            Ok(st) => r matches Ok(doc) && strings_view(doc.sections@) == st.sections && entries_of(
                doc.entries@,
            ) == st.entries,
            Err(e) => r matches Err(TroybinError::IniParse { line, message }) && line == e.0
                && message@ == invalid_hash_message(e.1),
        },
{
    let lines = lines_of(text);
    let ghost lv = strings_view(lines@);
    let unknown = String::from_str("UNKNOWN_HASHES");
    let mut current: Option<String> = None;
    let mut in_unknown = false;
    let mut sections: Vec<String> = Vec::new();
    let mut entries: Vec<IniEntry> = Vec::new();
    let mut k: usize = 0;
    proof {
        assert(strings_view(sections@) =~= Seq::<Seq<char>>::empty());
        assert(entries_of(entries@) =~= Seq::<IniEntryView>::empty());
    }
    while k < lines.len()
        invariant
            lv == strings_view(lines@),
            lv == split_lines(text@),
            unknown@ == unknown_section(),
            k <= lines@.len(),
            ini_run(lv, k as nat) == Ok::<IniState, (nat, Seq<char>)>(
                state_of(current, in_unknown, sections@, entries@),
            ),
        decreases lines@.len() - k,
    {
        let ghost line = lv[k as int];
        match read_line(
            &mut current,
            &mut in_unknown,
            &mut sections,
            &mut entries,
            lines[k].as_str(),
            k + 1,
            &unknown,
        ) {
            Ok(()) => {},
            Err(message) => {
                proof {
                    lemma_ini_run_err(lv, (k + 1) as nat);
                }
                return Err(TroybinError::IniParse { line: k + 1, message });
            },
        }
        k = k + 1;
    }
    Ok(IniDocument { sections, entries })
}

/// Once reading fails, the failure stands for every later line.
proof fn lemma_ini_run_err(lines: Seq<Seq<char>>, k: nat)
    requires
        ini_run(lines, k) is Err,
        k <= lines.len(),
    ensures
        ini_run(lines, lines.len()) == ini_run(lines, k),
    decreases lines.len() - k,
{
    if k < lines.len() {
        assert(ini_run(lines, k + 1) == ini_run(lines, k));
        lemma_ini_run_err(lines, k + 1);
    }
}

} // verus!
