//! The grammar of the key/value maps that the game writes into its `.ini` files,
//! such as `(MasterAccountId="1234",PlatformId="5678")`.
//!
//! A map is `(` entry (`,` entry)* `)` and nothing after it. An entry is a key,
//! `=` and a value. A key is optional ASCII white space followed by one or more
//! characters other than `=`, with trailing white space removed. A value is
//! optional ASCII white space followed by one or more items, with trailing white
//! space removed; an item is a run of characters other than `"`, `,` and `)`, or
//! a quoted string. A quoted string is `"`, a non-empty body in which `\` escapes
//! the next character, and `"`. When a key occurs more than once the first
//! value counts.
//!
//! Errors carry a kind and the byte offset in the input at which they arose.
use vstd::prelude::*;

use crate::text::{chars_eq, chars_of, string_of, sub_chars, trim_end, trim_end_chars};

verus! {

/// What kind of rule failed.
#[derive(Debug, Clone, Copy, PartialEq, Eq, Structural)]
pub enum ErrorKind {
    /// An expected character was missing.
    Char,
    /// A key was empty.
    IsNot,
    /// A value held no item.
    Many1Count,
    /// A quoted body was empty or ended in a lone `\`.
    EscapedTransform,
    /// Input was left after a complete map or hexadecimal string.
    Eof,
    /// A hexadecimal string had the wrong number of digits.
    TakeWhileMN,
}

/// A parse failure: its kind and the byte offset at which it arose.
#[derive(Debug, Clone, Copy, PartialEq, Eq, Structural)]
pub struct ParserError {
    pub kind: ErrorKind,
    pub offset: isize,
}

impl ErrorKind {
    /// The name of the kind.
    pub fn name(&self) -> (r: &'static str)
        ensures
            r@ == (match *self {
                ErrorKind::Char => "Char"@,
                ErrorKind::IsNot => "IsNot"@,
                ErrorKind::Many1Count => "Many1Count"@,
                ErrorKind::EscapedTransform => "EscapedTransform"@,
                ErrorKind::Eof => "Eof"@,
                ErrorKind::TakeWhileMN => "TakeWhileMN"@,
            }),
    {
        match self {
            ErrorKind::Char => "Char",
            ErrorKind::IsNot => "IsNot",
            ErrorKind::Many1Count => "Many1Count",
            ErrorKind::EscapedTransform => "EscapedTransform",
            ErrorKind::Eof => "Eof",
            ErrorKind::TakeWhileMN => "TakeWhileMN",
        }
    }
}

/// A failure of the grammar: its kind and the character position at which it arose.
pub type SpecErr = (ErrorKind, int);

/// Number of bytes of the UTF-8 encoding of `c`.
pub open spec fn utf8_len(c: char) -> nat {
    let u = c as u32;
    if u < 0x80 {
        1
    } else if u < 0x800 {
        2
    } else if u < 0x10000 {
        3
    } else {
        4
    }
}

/// Number of bytes of the UTF-8 encoding of `s`.
pub open spec fn utf8_size(s: Seq<char>) -> nat
    decreases s.len(),
{
    if s.len() == 0 {
        0
    } else {
        utf8_size(s.drop_last()) + utf8_len(s.last())
    }
}

/// Whether the UTF-8 encoding of `s` is at most `isize::MAX` bytes long, as that of any
/// string held in memory is.
pub fn utf8_size_fits(s: &str) -> (r: bool)
    ensures
        r == (utf8_size(s@) <= isize::MAX),
{
    let cs = crate::text::chars_of(s);
    let mut total: u64 = 0;
    let mut i: usize = 0;
    while i < cs.len()
        invariant
            cs@ == s@,
            i <= cs@.len(),
            total == utf8_size(cs@.take(i as int)),
            total <= isize::MAX,
        decreases cs.len() - i,
    {
        assert(cs@.take(i + 1).drop_last() == cs@.take(i as int));
        let c = cs[i] as u32;
        let n: u64 = if c < 0x80 {
            1
        } else if c < 0x800 {
            2
        } else if c < 0x10000 {
            3
        } else {
            4
        };
        assert(cs@.take(i + 1).last() == cs@[i as int]);
        assert(utf8_size(cs@.take(i + 1)) == total + n);
        if total + n > isize::MAX as u64 {
            proof {
                lemma_utf8_size_prefix(cs@, i + 1);
                assert(utf8_size(cs@) >= total + n);
                assert(total + n > isize::MAX);
            }
            return false;
        }
        total = total + n;
        i += 1;
    }
    assert(cs@.take(cs@.len() as int) == cs@);
    true
}

/// Byte offset of character position `pos` in `s`.
pub open spec fn byte_offset(s: Seq<char>, pos: int) -> nat {
    utf8_size(s.take(pos))
}

pub proof fn lemma_utf8_size_prefix(s: Seq<char>, n: int)
    requires
        0 <= n <= s.len(),
    ensures
        utf8_size(s.take(n)) <= utf8_size(s),
    decreases s.len() - n,
{
    if n < s.len() {
        lemma_utf8_size_prefix(s.drop_last(), n);
        assert(s.drop_last().take(n) == s.take(n));
    } else {
        assert(s.take(n) == s);
    }
}

/// The error value for a failure at character position `pos` of `s`.
pub open spec fn spec_error(s: Seq<char>, e: SpecErr) -> ParserError {
    ParserError { kind: e.0, offset: byte_offset(s, e.1) as isize }
}

/// Converts a character position into a byte offset.
fn offset_of(cs: &[char], pos: usize) -> (r: isize)
    requires
        pos <= cs.len(),
        utf8_size(cs@) <= isize::MAX,
    ensures
        r as int == byte_offset(cs@, pos as int),
{
    let mut total: usize = 0;
    let mut i: usize = 0;
    while i < pos
        invariant
            i <= pos <= cs.len(),
            utf8_size(cs@) <= isize::MAX,
            total as int == utf8_size(cs@.take(i as int)),
        decreases pos - i,
    {
        proof {
            lemma_utf8_size_prefix(cs@, i + 1);
            assert(cs@.take(i + 1).drop_last() == cs@.take(i as int));
        }
        let u = cs[i] as u32;
        let n: usize = if u < 0x80 {
            1
        } else if u < 0x800 {
            2
        } else if u < 0x10000 {
            3
        } else {
            4
        };
        total = total + n;
        i += 1;
    }
    proof {
        lemma_utf8_size_prefix(cs@, pos as int);
    }
    total as isize
}

fn make_error(cs: &[char], kind: ErrorKind, pos: usize) -> (r: ParserError)
    requires
        pos <= cs.len(),
        utf8_size(cs@) <= isize::MAX,
    ensures
        r == spec_error(cs@, (kind, pos as int)),
{
    ParserError { kind, offset: offset_of(cs, pos) }
}

/// ASCII white space as the grammar skips it: space, tab, CR and LF.
pub open spec fn is_multispace(c: char) -> bool {
    c == ' ' || c == '\t' || c == '\r' || c == '\n'
}

/// The first position at or after `p` that does not hold skippable white space.
pub open spec fn ws_end(s: Seq<char>, p: int) -> int
    decreases s.len() - p,
{
    if 0 <= p < s.len() && is_multispace(s[p]) {
        ws_end(s, p + 1)
    } else {
        p
    }
}

/// The first position at or after `p` that holds `=`, or the end of `s`.
pub open spec fn key_end(s: Seq<char>, p: int) -> int
    decreases s.len() - p,
{
    if 0 <= p < s.len() && s[p] != '=' {
        key_end(s, p + 1)
    } else {
        p
    }
}

/// Scans a quoted body that starts at `start`, being at `i`: the position of its
/// closing quote (or the end of `s`), or `None` when it is empty or ends in a lone `\`.
pub open spec fn body_end(s: Seq<char>, start: int, i: int) -> Option<int>
    decreases s.len() - i,
{
    if i < 0 || i >= s.len() {
        Some(s.len() as int)
    } else if s[i] == '\\' {
        if i + 1 >= s.len() {
            None
        } else {
            body_end(s, start, i + 2)
        }
    } else if s[i] == '"' {
        if i == start {
            None
        } else {
            Some(i)
        }
    } else {
        body_end(s, start, i + 1)
    }
}

/// Where one value item that starts at `p` ends, if one starts there.
pub open spec fn item_end(s: Seq<char>, p: int) -> Option<int> {
    if 0 <= p < s.len() && s[p] != '"' && s[p] != ',' && s[p] != ')' {
        Some(p + 1)
    } else if 0 <= p < s.len() && s[p] == '"' {
        match body_end(s, p + 1, p + 1) {
            Some(e) => if e < s.len() {
                Some(e + 1)
            } else {
                None
            },
            None => None,
        }
    } else {
        None
    }
}

/// Where the run of value items that starts at `p` ends.
pub open spec fn items_end(s: Seq<char>, p: int) -> int
    decreases s.len() - p,
{
    match item_end(s, p) {
        Some(e) => if p < e <= s.len() {
            items_end(s, e)
        } else {
            p
        },
        None => p,
    }
}

/// A key starting at `p`: its end and its text, or the failure.
pub open spec fn spec_key(s: Seq<char>, p: int) -> Result<(int, Seq<char>), SpecErr> {
    let q = ws_end(s, p);
    let e = key_end(s, q);
    if e == q {
        Err((ErrorKind::IsNot, q))
    } else {
        Ok((e, trim_end(s.subrange(q, e))))
    }
}

/// A value starting at `p`: its end and its text, or the failure.
pub open spec fn spec_value(s: Seq<char>, p: int) -> Result<(int, Seq<char>), SpecErr> {
    let q = ws_end(s, p);
    let e = items_end(s, q);
    if e == q {
        Err((ErrorKind::Many1Count, q))
    } else {
        Ok((e, trim_end(s.subrange(q, e))))
    }
}

/// An entry starting at `p`: its end and its key and value, or the failure.
pub open spec fn spec_entry(s: Seq<char>, p: int) -> Result<
    (int, (Seq<char>, Seq<char>)),
    SpecErr,
> {
    match spec_key(s, p) {
        Err(e) => Err(e),
        Ok((k_end, key)) => if k_end < s.len() {
            match spec_value(s, k_end + 1) {
                Err(e) => Err(e),
                Ok((v_end, value)) => Ok((v_end, (key, value))),
            }
        } else {
            Err((ErrorKind::Char, k_end))
        },
    }
}

/// The entries that follow a first entry, each after a `,`, starting at `p`:
/// where they end and the entries, in order.
pub open spec fn spec_more_entries(s: Seq<char>, p: int) -> (int, Seq<(Seq<char>, Seq<char>)>)
    decreases s.len() - p,
{
    if 0 <= p < s.len() && s[p] == ',' {
        match spec_entry(s, p + 1) {
            Ok((e, kv)) => if p < e <= s.len() {
                let (e2, rest) = spec_more_entries(s, e);
                (e2, seq![kv] + rest)
            } else {
                (p, seq![])
            },
            Err(_) => (p, seq![]),
        }
    } else {
        (p, seq![])
    }
}

/// A whole map: its entries in order of appearance (duplicates included), or the failure.
pub open spec fn spec_map_entries(s: Seq<char>) -> Result<Seq<(Seq<char>, Seq<char>)>, SpecErr> {
    if s.len() == 0 || s[0] != '(' {
        Err((ErrorKind::Char, 0))
    } else {
        match spec_entry(s, 1) {
            Err(e) => Err(e),
            Ok((e, first)) => {
                let (p, rest) = spec_more_entries(s, e);
                if p < s.len() && s[p] == ')' {
                    if p + 1 == s.len() {
                        Ok(seq![first] + rest)
                    } else {
                        Err((ErrorKind::Eof, p + 1))
                    }
                } else {
                    Err((ErrorKind::Char, p))
                }
            },
        }
    }
}

/// The value of the first entry with key `key`, if any.
pub open spec fn lookup(entries: Seq<(Seq<char>, Seq<char>)>, key: Seq<char>) -> Option<Seq<char>>
    decreases entries.len(),
{
    if entries.len() == 0 {
        None
    } else if entries[0].0 == key {
        Some(entries[0].1)
    } else {
        lookup(entries.drop_first(), key)
    }
}

/// Keeps the first entry of each key, in order of appearance.
pub open spec fn first_of_each(entries: Seq<(Seq<char>, Seq<char>)>) -> Seq<(Seq<char>, Seq<char>)>
    decreases entries.len(),
{
    if entries.len() == 0 {
        seq![]
    } else {
        let prev = first_of_each(entries.drop_last());
        if lookup(entries.drop_last(), entries.last().0) is Some {
            prev
        } else {
            prev.push(entries.last())
        }
    }
}

/// The result of parsing a whole map, keeping the first value of each key.
pub open spec fn spec_parse_map(s: Seq<char>) -> Result<Seq<(Seq<char>, Seq<char>)>, ParserError> {
    match spec_map_entries(s) {
        Ok(entries) => Ok(first_of_each(entries)),
        Err(e) => Err(spec_error(s, e)),
    }
}

/// The text of a quoted string at the start of `s` with escapes resolved, or the failure.
/// Characters after the closing quote are ignored.
pub open spec fn spec_quoted(s: Seq<char>) -> Result<Seq<char>, SpecErr> {
    if s.len() == 0 || s[0] != '"' {
        Err((ErrorKind::Char, 0))
    } else {
        match unescape(s, 1, 1) {
            Err(pos) => Err((ErrorKind::EscapedTransform, pos)),
            Ok((e, text)) => if e < s.len() {
                Ok(text)
            } else {
                Err((ErrorKind::Char, e))
            },
        }
    }
}

/// Resolves the escapes of a quoted body that starts at `start`, being at `i`:
/// where the body ends and its text from `i` on, or the position of the failure.
pub open spec fn unescape(s: Seq<char>, start: int, i: int) -> Result<(int, Seq<char>), int>
    decreases s.len() - i,
{
    if i < 0 || i >= s.len() {
        Ok((s.len() as int, seq![]))
    } else if s[i] == '\\' {
        if i + 1 >= s.len() {
            Err(i)
        } else {
            match unescape(s, start, i + 2) {
                Ok((e, t)) => Ok((e, seq![s[i + 1]] + t)),
                Err(x) => Err(x),
            }
        }
    } else if s[i] == '"' {
        if i == start {
            Err(i)
        } else {
            Ok((i, seq![]))
        }
    } else {
        match unescape(s, start, i + 1) {
            Ok((e, t)) => Ok((e, seq![s[i]] + t)),
            Err(x) => Err(x),
        }
    }
}

/// The result of `parse_quoted` on `s`.
pub open spec fn spec_parse_quoted(s: Seq<char>) -> Result<Seq<char>, ParserError> {
    match spec_quoted(s) {
        Ok(t) => Ok(t),
        Err(e) => Err(spec_error(s, e)),
    }
}

/// Whether `c` is an ASCII hexadecimal digit.
pub open spec fn is_hex_digit(c: char) -> bool {
    ('0' <= c <= '9') || ('a' <= c <= 'f') || ('A' <= c <= 'F')
}

/// The result of `parse_hex` on `s`: `s` itself when it is exactly `len`
/// hexadecimal digits.
pub open spec fn spec_parse_hex(s: Seq<char>, len: nat) -> Result<Seq<char>, ParserError> {
    if s.len() >= len && forall|i: int| 0 <= i < len ==> is_hex_digit(#[trigger] s[i]) {
        if s.len() == len {
            Ok(s)
        } else {
            Err(spec_error(s, (ErrorKind::Eof, len as int)))
        }
    } else {
        Err(spec_error(s, (ErrorKind::TakeWhileMN, 0)))
    }
}

// ---------------------------------------------------------------------------
// Executable parsers
// ---------------------------------------------------------------------------

fn skip_ws(cs: &[char], p: usize) -> (r: usize)
    requires
        p <= cs.len(),
    ensures
        r == ws_end(cs@, p as int),
        p <= r <= cs.len(),
{
    let mut i = p;
    while i < cs.len() && (cs[i] == ' ' || cs[i] == '\t' || cs[i] == '\r' || cs[i] == '\n')
        invariant
            p <= i <= cs.len(),
            ws_end(cs@, i as int) == ws_end(cs@, p as int),
        decreases cs.len() - i,
    {
        i += 1;
    }
    i
}

fn scan_key_end(cs: &[char], p: usize) -> (r: usize)
    requires
        p <= cs.len(),
    ensures
        r == key_end(cs@, p as int),
        p <= r <= cs.len(),
        r < cs.len() ==> cs@[r as int] == '=',
{
    let mut i = p;
    while i < cs.len() && cs[i] != '='
        invariant
            p <= i <= cs.len(),
            key_end(cs@, i as int) == key_end(cs@, p as int),
        decreases cs.len() - i,
    {
        i += 1;
    }
    i
}

fn scan_body_end(cs: &[char], start: usize) -> (r: Option<usize>)
    requires
        start <= cs.len(),
    ensures
        r matches Some(e) ==> body_end(cs@, start as int, start as int) == Some(e as int),
        r is None ==> body_end(cs@, start as int, start as int) is None,
        r matches Some(e) ==> start <= e <= cs.len(),
{
    let mut i = start;
    while i < cs.len()
        invariant
            start <= i <= cs.len(),
            body_end(cs@, start as int, i as int) == body_end(cs@, start as int, start as int),
        decreases cs.len() - i,
    {
        if cs[i] == '\\' {
            if i + 1 >= cs.len() {
                return None;
            }
            i += 2;
        } else if cs[i] == '"' {
            if i == start {
                return None;
            }
            return Some(i);
        } else {
            i += 1;
        }
    }
    Some(cs.len())
}

fn scan_item_end(cs: &[char], p: usize) -> (r: Option<usize>)
    requires
        p <= cs.len(),
    ensures
        r matches Some(e) ==> item_end(cs@, p as int) == Some(e as int),
        r is None ==> item_end(cs@, p as int) is None,
        r matches Some(e) ==> p < e <= cs.len(),
{
    if p < cs.len() && cs[p] != '"' && cs[p] != ',' && cs[p] != ')' {
        Some(p + 1)
    } else if p < cs.len() && cs[p] == '"' {
        match scan_body_end(cs, p + 1) {
            Some(e) => if e < cs.len() {
                Some(e + 1)
            } else {
                None
            },
            None => None,
        }
    } else {
        None
    }
}

fn scan_items_end(cs: &[char], p: usize) -> (r: usize)
    requires
        p <= cs.len(),
    ensures
        r == items_end(cs@, p as int),
        p <= r <= cs.len(),
{
    let mut i = p;
    loop
        invariant
            p <= i <= cs.len(),
            items_end(cs@, i as int) == items_end(cs@, p as int),
        decreases cs.len() - i,
    {
        match scan_item_end(cs, i) {
            Some(e) => {
                assert(items_end(cs@, i as int) == items_end(cs@, e as int));
                i = e;
            },
            None => {
                return i;
            },
        }
    }
}

/// Parses a key at `p`.
fn key_at(cs: &[char], p: usize) -> (r: Result<(usize, Vec<char>), (ErrorKind, usize)>)
    requires
        p <= cs.len(),
    ensures
        r matches Ok((e, k)) ==> spec_key(cs@, p as int) == Ok::<(int, Seq<char>), SpecErr>(
            (e as int, k@),
        ) && p < e <= cs.len(),
        r matches Err((k, q)) ==> spec_key(cs@, p as int) == Err::<(int, Seq<char>), SpecErr>(
            (k, q as int),
        ) && q <= cs.len(),
{
    let q = skip_ws(cs, p);
    let e = scan_key_end(cs, q);
    if e == q {
        Err((ErrorKind::IsNot, q))
    } else {
        let k = sub_chars(cs, q, e);
        let k2 = trim_end_chars(k.as_slice());
        Ok((e, k2))
    }
}

/// Parses a value at `p`.
fn value_at(cs: &[char], p: usize) -> (r: Result<(usize, Vec<char>), (ErrorKind, usize)>)
    requires
        p <= cs.len(),
    ensures
        r matches Ok((e, v)) ==> spec_value(cs@, p as int) == Ok::<(int, Seq<char>), SpecErr>(
            (e as int, v@),
        ) && p < e <= cs.len(),
        r matches Err((k, q)) ==> spec_value(cs@, p as int) == Err::<(int, Seq<char>), SpecErr>(
            (k, q as int),
        ) && q <= cs.len(),
{
    let q = skip_ws(cs, p);
    let e = scan_items_end(cs, q);
    if e == q {
        Err((ErrorKind::Many1Count, q))
    } else {
        let v = sub_chars(cs, q, e);
        let v2 = trim_end_chars(v.as_slice());
        Ok((e, v2))
    }
}

/// Parses an entry at `p`.
fn entry_at(cs: &[char], p: usize) -> (r: Result<
    (usize, (Vec<char>, Vec<char>)),
    (ErrorKind, usize),
>)
    requires
        p <= cs.len(),
    ensures
        r matches Ok((e, (k, v))) ==> spec_entry(cs@, p as int) == Ok::<
            (int, (Seq<char>, Seq<char>)),
            SpecErr,
        >((e as int, (k@, v@))) && p < e <= cs.len(),
        r matches Err((k, q)) ==> spec_entry(cs@, p as int) == Err::<
            (int, (Seq<char>, Seq<char>)),
            SpecErr,
        >((k, q as int)) && q <= cs.len(),
{
    match key_at(cs, p) {
        Err(e) => Err(e),
        Ok((k_end, key)) => {
            if k_end < cs.len() {
                match value_at(cs, k_end + 1) {
                    Err(e) => Err(e),
                    Ok((v_end, value)) => {
                        Ok((v_end, (key, value)))
                    },
                }
            } else {
                Err((ErrorKind::Char, k_end))
            }
        },
    }
}

/// Pairs of characters as owned strings.
pub open spec fn pair_views(v: Seq<(String, String)>) -> Seq<(Seq<char>, Seq<char>)> {
    v.map_values(|p: (String, String)| (p.0@, p.1@))
}

/// Finds the value of the first entry with key `key`.
pub fn find_entry(entries: &Vec<(String, String)>, key: &[char]) -> (r: Option<usize>)
    ensures
        r matches Some(i) ==> i < entries.len() && lookup(pair_views(entries@), key@) == Some(
            entries@[i as int].1@,
        ),
        r is None ==> lookup(pair_views(entries@), key@) is None,
{
    let mut i: usize = 0;
    assert(pair_views(entries@).subrange(0, entries@.len() as int) == pair_views(entries@));
    while i < entries.len()
        invariant
            i <= entries.len(),
            lookup(pair_views(entries@), key@) == lookup(
                pair_views(entries@).subrange(i as int, entries@.len() as int),
                key@,
            ),
        decreases entries.len() - i,
    {
        let ghost rest = pair_views(entries@).subrange(i as int, entries@.len() as int);
        assert(rest[0] == (entries@[i as int].0@, entries@[i as int].1@));
        let kc = chars_of(entries[i].0.as_str());
        if chars_eq(kc.as_slice(), key) {
            return Some(i);
        }
        assert(rest.drop_first() == pair_views(entries@).subrange(i + 1, entries@.len() as int));
        i += 1;
    }
    None
}

/// Looks up the value of `key` in a map that `parse_map` returned.
pub fn map_get(entries: &Vec<(String, String)>, key: &str) -> (r: Option<String>)
    ensures
        r matches Some(v) ==> lookup(pair_views(entries@), key@) == Some(v@),
        r is None ==> lookup(pair_views(entries@), key@) is None,
{
    let kc = chars_of(key);
    match find_entry(entries, kc.as_slice()) {
        Some(i) => Some(entries[i].1.clone()),
        None => None,
    }
}

proof fn lemma_lookup_push(e: Seq<(Seq<char>, Seq<char>)>, kv: (Seq<char>, Seq<char>), k: Seq<char>)
    ensures
        lookup(e.push(kv), k) == (if lookup(e, k) is Some {
            lookup(e, k)
        } else if kv.0 == k {
            Some(kv.1)
        } else {
            None
        }),
    decreases e.len(),
{
    if e.len() > 0 {
        assert(e.push(kv)[0] == e[0]);
        assert(e.push(kv).drop_first() == e.drop_first().push(kv));
        lemma_lookup_push(e.drop_first(), kv, k);
    } else {
        assert(e.push(kv) == seq![kv]);
        assert(seq![kv].drop_first() == Seq::<(Seq<char>, Seq<char>)>::empty());
        assert(lookup(Seq::<(Seq<char>, Seq<char>)>::empty(), k) is None);
    }
}

proof fn lemma_lookup_first_of_each(e: Seq<(Seq<char>, Seq<char>)>, k: Seq<char>)
    ensures
        lookup(first_of_each(e), k) == lookup(e, k),
    decreases e.len(),
{
    if e.len() > 0 {
        lemma_lookup_first_of_each(e.drop_last(), k);
        assert(e.drop_last().push(e.last()) == e);
        lemma_lookup_push(e.drop_last(), e.last(), k);
        let prev = first_of_each(e.drop_last());
        if lookup(e.drop_last(), e.last().0) is None {
            lemma_lookup_push(prev, e.last(), k);
        }
    }
}

/// Parses a whole map. On success the result holds the first entry of each key,
/// in order of appearance.
pub fn parse_map(input: &str) -> (r: Result<Vec<(String, String)>, ParserError>)
    requires
        utf8_size(input@) <= isize::MAX,
    ensures
        r matches Ok(v) ==> spec_parse_map(input@) == Ok::<
            Seq<(Seq<char>, Seq<char>)>,
            ParserError,
        >(pair_views(v@)),
        r matches Err(e) ==> spec_parse_map(input@) == Err::<
            Seq<(Seq<char>, Seq<char>)>,
            ParserError,
        >(e),
{
    let cs = chars_of(input);
    let cs = cs.as_slice();
    if cs.len() == 0 || cs[0] != '(' {
        return Err(make_error(cs, ErrorKind::Char, 0));
    }
    let (e, (k, v)) = match entry_at(cs, 1) {
        Ok(x) => x,
        Err((kind, pos)) => {
            return Err(make_error(cs, kind, pos));
        },
    };
    let mut out: Vec<(String, String)> = Vec::new();
    let ghost mut all: Seq<(Seq<char>, Seq<char>)> = seq![(k@, v@)];
    out.push((string_of(k.as_slice()), string_of(v.as_slice())));
    proof {
        assert(pair_views(out@) == first_of_each(all)) by {
            let empty = Seq::<(Seq<char>, Seq<char>)>::empty();
            assert(all.drop_last() == empty);
            assert(first_of_each(empty) == empty);
            assert(lookup(empty, all.last().0) is None);
            assert(first_of_each(all) == empty.push(all.last()));
            assert(pair_views(out@) =~= seq![(k@, v@)]);
        }
    }
    let mut p = e;
    loop
        invariant
            1 < p <= cs.len(),
            spec_entry(cs@, 1) is Ok,
            ({
                let (e0, first) = spec_entry(cs@, 1)->Ok_0;
                let (pe, rest) = spec_more_entries(cs@, e0);
                let (pe2, rest2) = spec_more_entries(cs@, p as int);
                &&& pe == pe2
                &&& rest == all.drop_first() + rest2
                &&& all[0] == first
            }),
            all.len() >= 1,
            pair_views(out@) == first_of_each(all),
        ensures
            1 < p <= cs.len(),
            spec_more_entries(cs@, p as int) == (p as int, Seq::<(Seq<char>, Seq<char>)>::empty()),
            spec_entry(cs@, 1) is Ok,
            ({
                let (e0, first) = spec_entry(cs@, 1)->Ok_0;
                let (pe, rest) = spec_more_entries(cs@, e0);
                let (pe2, rest2) = spec_more_entries(cs@, p as int);
                &&& pe == pe2
                &&& rest == all.drop_first() + rest2
                &&& all[0] == first
            }),
            all.len() >= 1,
            pair_views(out@) == first_of_each(all),
        decreases cs.len() - p,
    {
        if p < cs.len() && cs[p] == ',' {
            match entry_at(cs, p + 1) {
                Ok((e2, (k2, v2))) => {
                    let ghost prev_all = all;
                    proof {
                        all = all.push((k2@, v2@));
                        let (pe2, rest2) = spec_more_entries(cs@, p as int);
                        let (pe3, rest3) = spec_more_entries(cs@, e2 as int);
                        assert(rest2 == seq![(k2@, v2@)] + rest3);
                        assert(all.drop_first() + rest3 == prev_all.drop_first() + rest2);
                        assert(all.drop_last() == prev_all);
                    }
                    match find_entry(&out, k2.as_slice()) {
                        Some(_) => {
                            proof {
                                lemma_lookup_first_of_each(prev_all, k2@);
                            }
                        },
                        None => {
                            proof {
                                lemma_lookup_first_of_each(prev_all, k2@);
                            }
                            let ghost old_out = out@;
                            out.push((string_of(k2.as_slice()), string_of(v2.as_slice())));
                            assert(pair_views(out@) == pair_views(old_out).push((k2@, v2@)));
                        },
                    }
                    p = e2;
                },
                Err(_) => {
                    break ;
                },
            }
        } else {
            break ;
        }
    }
    proof {
        let (e0, first) = spec_entry(cs@, 1)->Ok_0;
        let (pe2, rest2) = spec_more_entries(cs@, p as int);
        assert(pe2 == p);
        assert(rest2 == Seq::<(Seq<char>, Seq<char>)>::empty());
        assert(seq![first] + all.drop_first() == all);
    }
    if p < cs.len() && cs[p] == ')' {
        if p + 1 == cs.len() {
            Ok(out)
        } else {
            Err(make_error(cs, ErrorKind::Eof, p + 1))
        }
    } else {
        Err(make_error(cs, ErrorKind::Char, p))
    }
}

fn unescape_exec(cs: &[char], start: usize) -> (r: Result<(usize, Vec<char>), usize>)
    requires
        start <= cs.len(),
    ensures
        r matches Ok((e, t)) ==> unescape(cs@, start as int, start as int) == Ok::<
            (int, Seq<char>),
            int,
        >((e as int, t@)) && e <= cs.len(),
        r matches Err(x) ==> x < cs.len(),
        r matches Err(x) ==> unescape(cs@, start as int, start as int) == Err::<
            (int, Seq<char>),
            int,
        >(x as int),
{
    let mut out: Vec<char> = Vec::new();
    let mut i = start;
    while i < cs.len()
        invariant
            start <= i <= cs.len(),
            unescape(cs@, start as int, start as int) == (match unescape(
                cs@,
                start as int,
                i as int,
            ) {
                Ok((e, t)) => Ok((e, out@ + t)),
                Err(x) => Err(x),
            }),
        decreases cs.len() - i,
    {
        if cs[i] == '\\' {
            if i + 1 >= cs.len() {
                return Err(i);
            }
            let ghost old_out = out@;
            out.push(cs[i + 1]);
            proof {
                match unescape(cs@, start as int, i + 2) {
                    Ok((e, t)) => {
                        assert(old_out + (seq![cs@[i + 1]] + t) == out@ + t);
                    },
                    Err(_) => {},
                }
            }
            i += 2;
        } else if cs[i] == '"' {
            if i == start {
                return Err(i);
            }
            assert(out@ + Seq::<char>::empty() == out@);
            return Ok((i, out));
        } else {
            let ghost old_out = out@;
            out.push(cs[i]);
            proof {
                match unescape(cs@, start as int, i + 1) {
                    Ok((e, t)) => {
                        assert(old_out + (seq![cs@[i as int]] + t) == out@ + t);
                    },
                    Err(_) => {},
                }
            }
            i += 1;
        }
    }
    assert(out@ + Seq::<char>::empty() == out@);
    Ok((cs.len(), out))
}

/// Parses a quoted string at the start of `input`, resolving `\` escapes.
/// Characters after the closing quote are ignored.
pub fn parse_quoted(input: &str) -> (r: Result<String, ParserError>)
    requires
        utf8_size(input@) <= isize::MAX,
    ensures
        r matches Ok(t) ==> spec_parse_quoted(input@) == Ok::<Seq<char>, ParserError>(t@),
        r matches Err(e) ==> spec_parse_quoted(input@) == Err::<Seq<char>, ParserError>(e),
{
    let cs = chars_of(input);
    quoted_chars(cs.as_slice())
}

/// `parse_quoted` on a character slice.
pub fn quoted_chars(cs: &[char]) -> (r: Result<String, ParserError>)
    requires
        utf8_size(cs@) <= isize::MAX,
    ensures
        r matches Ok(t) ==> spec_parse_quoted(cs@) == Ok::<Seq<char>, ParserError>(t@),
        r matches Err(e) ==> spec_parse_quoted(cs@) == Err::<Seq<char>, ParserError>(e),
{
    if cs.len() == 0 || cs[0] != '"' {
        return Err(make_error(cs, ErrorKind::Char, 0));
    }
    match unescape_exec(cs, 1) {
        Err(pos) => Err(make_error(cs, ErrorKind::EscapedTransform, pos)),
        Ok((e, t)) => {
            if e < cs.len() {
                Ok(string_of(t.as_slice()))
            } else {
                Err(make_error(cs, ErrorKind::Char, e))
            }
        },
    }
}

/// The text of a quoted string at the start of `cs`, escapes resolved, if there is one.
pub fn quoted_text(cs: &[char]) -> (r: Option<Vec<char>>)
    ensures
        r matches Some(t) ==> spec_quoted(cs@) == Ok::<Seq<char>, SpecErr>(t@),
        r is None ==> spec_quoted(cs@) is Err,
{
    if cs.len() == 0 || cs[0] != '"' {
        return None;
    }
    match unescape_exec(cs, 1) {
        Err(_) => None,
        Ok((e, t)) => {
            if e < cs.len() {
                Some(t)
            } else {
                None
            }
        },
    }
}

/// Accepts `input` when it is exactly `len` ASCII hexadecimal digits.
pub fn parse_hex(input: &str, len: usize) -> (r: Result<String, ParserError>)
    requires
        utf8_size(input@) <= isize::MAX,
    ensures
        r matches Ok(t) ==> spec_parse_hex(input@, len as nat) == Ok::<Seq<char>, ParserError>(
            t@,
        ),
        r matches Err(e) ==> spec_parse_hex(input@, len as nat) == Err::<Seq<char>, ParserError>(
            e,
        ),
{
    let cs = chars_of(input);
    let cs = cs.as_slice();
    if cs.len() < len {
        return Err(make_error(cs, ErrorKind::TakeWhileMN, 0));
    }
    let mut i: usize = 0;
    while i < len
        invariant
            i <= len <= cs.len(),
            cs@ == input@,
            utf8_size(input@) <= isize::MAX,
            forall|j: int| 0 <= j < i ==> is_hex_digit(#[trigger] cs@[j]),
        decreases len - i,
    {
        let c = cs[i];
        if !(('0' <= c && c <= '9') || ('a' <= c && c <= 'f') || ('A' <= c && c <= 'F')) {
            assert(!is_hex_digit(cs@[i as int]));
            return Err(make_error(cs, ErrorKind::TakeWhileMN, 0));
        }
        i += 1;
    }
    if cs.len() == len {
        Ok(string_of(cs))
    } else {
        Err(make_error(cs, ErrorKind::Eof, len))
    }
}


// ---------------------------------------------------------------------------
// What the grammar gives for well-formed text
// ---------------------------------------------------------------------------

/// A plain quoted body: not empty, without quotes or backslashes.
pub open spec fn plain(f: Seq<char>) -> bool {
    f.len() > 0 && forall|j: int| 0 <= j < f.len() ==> f[j] != '"' && f[j] != '\\'
}

/// A plain key: not empty, without `=`, neither starting with skippable white space nor
/// ending with white space.
pub open spec fn plain_key(k: Seq<char>) -> bool {
    &&& k.len() > 0
    &&& forall|j: int| 0 <= j < k.len() ==> k[j] != '='
    &&& !is_multispace(k[0])
    &&& !crate::text::is_white_space(k.last())
}

proof fn lemma_key_end_at(s: Seq<char>, p: int, q: int)
    requires
        0 <= p <= q < s.len(),
        forall|j: int| p <= j < q ==> s[j] != '=',
        s[q] == '=',
    ensures
        key_end(s, p) == q,
    decreases q - p,
{
    if p < q {
        lemma_key_end_at(s, p + 1, q);
    }
}

proof fn lemma_body_end_at(s: Seq<char>, start: int, i: int, e: int)
    requires
        0 <= start <= i <= e < s.len(),
        start < e,
        forall|j: int| start <= j < e ==> s[j] != '"' && s[j] != '\\',
        s[e] == '"',
    ensures
        body_end(s, start, i) == Some(e),
    decreases e - i,
{
    if i < e {
        lemma_body_end_at(s, start, i + 1, e);
    }
}

proof fn lemma_unescape_plain(s: Seq<char>, start: int, i: int, e: int)
    requires
        0 <= start <= i <= e < s.len(),
        start < e,
        forall|j: int| start <= j < e ==> s[j] != '"' && s[j] != '\\',
        s[e] == '"',
    ensures
        unescape(s, start, i) == Ok::<(int, Seq<char>), int>((e, s.subrange(i, e))),
    decreases e - i,
{
    if i < e {
        lemma_unescape_plain(s, start, i + 1, e);
        assert(seq![s[i]] + s.subrange(i + 1, e) =~= s.subrange(i, e));
    } else {
        assert(s.subrange(i, e) =~= Seq::<char>::empty());
    }
}

proof fn lemma_trim_end_quote(t: Seq<char>)
    requires
        t.len() > 0,
        t.last() == '"',
    ensures
        trim_end(t) == t,
{
}

/// A quoted plain body reads back as itself.
pub proof fn lemma_quoted_plain(f: Seq<char>)
    requires
        plain(f),
    ensures
        spec_quoted(seq!['"'] + f + seq!['"']) == Ok::<Seq<char>, SpecErr>(f),
{
    let q = seq!['"'] + f + seq!['"'];
    let e = f.len() + 1;
    assert forall|j: int| 1 <= j < e implies q[j] != '"' && q[j] != '\\' by {
        assert(q[j] == f[j - 1]);
    }
    lemma_unescape_plain(q, 1, 1, e as int);
    assert(q.subrange(1, e as int) =~= f);
}

/// An entry `key="body"` that a `,` or `)` follows reads as that key and the quoted
/// body.
pub proof fn lemma_entry_plain(pre: Seq<char>, key: Seq<char>, f: Seq<char>, post: Seq<char>)
    requires
        plain_key(key),
        plain(f),
        post.len() > 0,
        post[0] == ',' || post[0] == ')',
    ensures
        ({
            let s = pre + key + seq!['=', '"'] + f + seq!['"'] + post;
            spec_entry(s, pre.len() as int) == Ok::<(int, (Seq<char>, Seq<char>)), SpecErr>(
                ((pre.len() + key.len() + f.len() + 3) as int, (key, seq!['"'] + f + seq!['"'])),
            )
        }),
{
    let s = pre + key + seq!['=', '"'] + f + seq!['"'] + post;
    let p = pre.len() as int;
    let k = p + key.len();
    let vq = k + 1;
    let e = vq + 1 + f.len();
    let end = e + 1;
    assert(s[p] == key[0]);
    assert forall|j: int| p <= j < k implies s[j] != '=' by {
        assert(s[j] == key[j - p]);
    }
    assert(s[k] == '=');
    lemma_key_end_at(s, p, k);
    assert(ws_end(s, p) == p);
    assert(s.subrange(p, k) =~= key);
    assert(spec_key(s, p) == Ok::<(int, Seq<char>), SpecErr>((k, key)));
    assert(s[vq] == '"');
    assert(ws_end(s, vq) == vq);
    assert forall|j: int| vq + 1 <= j < e implies s[j] != '"' && s[j] != '\\' by {
        assert(s[j] == f[j - vq - 1]);
    }
    assert(s[e] == '"');
    lemma_body_end_at(s, vq + 1, vq + 1, e);
    assert(item_end(s, vq) == Some(end));
    assert(s[end] == post[0]);
    assert(item_end(s, end) is None);
    assert(items_end(s, end) == end);
    assert(items_end(s, vq) == end);
    assert(s.subrange(vq, end) =~= seq!['"'] + f + seq!['"']);
    lemma_trim_end_quote(seq!['"'] + f + seq!['"']);
    assert(spec_value(s, vq) == Ok::<(int, Seq<char>), SpecErr>((end, seq!['"'] + f + seq!['"'])));
}

/// Looking up a key that no entry has finds nothing.
pub proof fn lemma_lookup_absent(es: Seq<(Seq<char>, Seq<char>)>, key: Seq<char>)
    requires
        forall|i: int| 0 <= i < es.len() ==> (#[trigger] es[i]).0 != key,
    ensures
        lookup(es, key) is None,
    decreases es.len(),
{
    if es.len() > 0 {
        assert(es[0].0 != key);
        lemma_lookup_absent(es.drop_first(), key);
    }
}

/// When no two entries share a key, keeping the first of each keeps them all.
pub proof fn lemma_first_of_each_distinct(es: Seq<(Seq<char>, Seq<char>)>)
    requires
        forall|i: int, j: int| 0 <= i < j < es.len() ==> (#[trigger] es[i]).0 != (#[trigger] es[j]).0,
    ensures
        first_of_each(es) == es,
    decreases es.len(),
{
    if es.len() > 0 {
        let d = es.drop_last();
        assert forall|i: int, j: int| 0 <= i < j < d.len() implies (#[trigger] d[i]).0 != (#[trigger] d[j]).0 by {
            assert(d[i] == es[i] && d[j] == es[j]);
        }
        lemma_first_of_each_distinct(d);
        assert forall|i: int| 0 <= i < d.len() implies (#[trigger] d[i]).0 != es.last().0 by {
            assert(d[i] == es[i]);
        }
        lemma_lookup_absent(d, es.last().0);
        assert(d.push(es.last()) =~= es);
    }
}

} // verus!
