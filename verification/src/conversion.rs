//! The JSON codec for outputs.
//!
//! An output serializes to a flat record `{"type": ..., "content": ...,
//! "narsese"?: ..., "operation"?: [...]}`; the optional fields are omitted
//! exactly when absent. Both directions are written here directly over
//! characters: the encoder emits a canonical form without extra whitespace,
//! and the decoder accepts whitespace, any field order, an explicit `null`
//! for an optional field, and unknown members (skipped, as a schema reader
//! should). Decoding what encoding produced yields the original record,
//! proved in [`lemma_record_round_trip`].
//!
//! Term payload texts are carried through both directions verbatim, only
//! validated: the producer of an output (the runtime that read the backend's
//! line) supplies canonical text, and carrying it unchanged is what lets the
//! codec promise to reproduce it, without assuming anything of the term
//! library's canonical form beyond its acceptance.

use vstd::prelude::*;
use vstd::string::*;
use crate::output::{
    content_text, is_fixed_type_tag, narsese_text, type_text, Operation, OperationV, Output,
    OutputV,
};
use crate::term::{narsese_ok, term_ok, NarseseText};
use crate::text::{char_code, chars_to_string, digit_char, digit_to_char, str_eq, str_to_chars};

verus! {

/// JSON insignificant whitespace.
pub open spec fn is_json_ws(c: char) -> bool {
    c == ' ' || c == '\t' || c == '\n' || c == '\r'
}

/// The lowercase hex digit for a value below sixteen.
pub open spec fn hex_char(d: int) -> char {
    if d < 10 {
        digit_char(d)
    } else if d == 10 {
        'a'
    } else if d == 11 {
        'b'
    } else if d == 12 {
        'c'
    } else if d == 13 {
        'd'
    } else if d == 14 {
        'e'
    } else {
        'f'
    }
}

/// The value of a hex digit character, or a negative number otherwise.
pub open spec fn hex_val(c: char) -> int {
    if '0' <= c && c <= '9' {
        c as int - 48
    } else if 'a' <= c && c <= 'f' {
        c as int - 87
    } else if 'A' <= c && c <= 'F' {
        c as int - 55
    } else {
        -1
    }
}

/// Whether a character is a hex digit.
pub open spec fn is_hex(c: char) -> bool {
    hex_val(c) >= 0
}

/// Hex digits code their values.
proof fn lemma_hex_char(d: int)
    requires
        0 <= d < 16,
    ensures
        is_hex(hex_char(d)),
        hex_val(hex_char(d)) == d,
{
}

/// How one character is written inside a JSON string literal: quote and
/// backslash escaped, the named control characters short-escaped, other
/// control characters as a four-digit hex escape, everything else verbatim.
pub open spec fn esc_char(c: char) -> Seq<char> {
    if c == '"' {
        seq!['\\', '"']
    } else if c == '\\' {
        seq!['\\', '\\']
    } else if c == '\u{8}' {
        seq!['\\', 'b']
    } else if c == '\t' {
        seq!['\\', 't']
    } else if c == '\n' {
        seq!['\\', 'n']
    } else if c == '\u{c}' {
        seq!['\\', 'f']
    } else if c == '\r' {
        seq!['\\', 'r']
    } else if (c as u32) < 32 {
        seq!['\\', 'u', '0', '0', hex_char((c as u32) as int / 16), hex_char((c as u32) as int % 16)]
    } else {
        seq![c]
    }
}

/// A text escaped for a JSON string literal.
pub open spec fn esc(s: Seq<char>) -> Seq<char>
    decreases s.len(),
{
    if s.len() == 0 {
        Seq::empty()
    } else {
        esc_char(s[0]) + esc(s.skip(1))
    }
}

/// A JSON string literal: quotes around the escaped text.
pub open spec fn enc_str(s: Seq<char>) -> Seq<char> {
    seq!['"'] + esc(s) + seq!['"']
}

/// Scans the body of a JSON string literal from `i` (just after the opening
/// quote): the decoded content and the position after the closing quote, or
/// nothing when malformed. Handles the named escapes, hex escapes with
/// surrogate pairs, and rejects raw control characters.
#[verifier::opaque]
pub open spec fn scan_str(s: Seq<char>, i: int) -> Option<(Seq<char>, int)>
    decreases s.len() - i,
{
    if i < 0 || i >= s.len() {
        None
    } else if s[i] == '"' {
        Some((Seq::empty(), i + 1))
    } else if s[i] == '\\' {
        if i + 2 > s.len() {
            None
        } else {
            let e = s[i + 1];
            if e == '"' || e == '\\' || e == '/' {
                scan_str_push(e, scan_str(s, i + 2))
            } else if e == 'b' {
                scan_str_push('\u{8}', scan_str(s, i + 2))
            } else if e == 'f' {
                scan_str_push('\u{c}', scan_str(s, i + 2))
            } else if e == 'n' {
                scan_str_push('\n', scan_str(s, i + 2))
            } else if e == 'r' {
                scan_str_push('\r', scan_str(s, i + 2))
            } else if e == 't' {
                scan_str_push('\t', scan_str(s, i + 2))
            } else if e == 'u' {
                if i + 6 > s.len() || !(is_hex(s[i + 2]) && is_hex(s[i + 3]) && is_hex(s[i + 4])
                    && is_hex(s[i + 5])) {
                    None
                } else {
                    let v = hex_val(s[i + 2]) * 4096 + hex_val(s[i + 3]) * 256 + hex_val(s[i + 4])
                        * 16 + hex_val(s[i + 5]);
                    if 0xD800 <= v < 0xDC00 {
                        if i + 12 > s.len() || s[i + 6] != '\\' || s[i + 7] != 'u' || !(is_hex(
                            s[i + 8],
                        ) && is_hex(s[i + 9]) && is_hex(s[i + 10]) && is_hex(s[i + 11])) {
                            None
                        } else {
                            let w = hex_val(s[i + 8]) * 4096 + hex_val(s[i + 9]) * 256 + hex_val(
                                s[i + 10],
                            ) * 16 + hex_val(s[i + 11]);
                            if 0xDC00 <= w < 0xE000 {
                                scan_str_push(
                                    (0x10000 + (v - 0xD800) * 1024 + (w - 0xDC00)) as char,
                                    scan_str(s, i + 12),
                                )
                            } else {
                                None
                            }
                        }
                    } else if 0xDC00 <= v < 0xE000 {
                        None
                    } else {
                        scan_str_push(v as char, scan_str(s, i + 6))
                    }
                }
            } else {
                None
            }
        }
    } else if (s[i] as u32) < 32 {
        None
    } else {
        scan_str_push(s[i], scan_str(s, i + 1))
    }
}

/// Prepends a decoded character to a string scan in progress.
pub open spec fn scan_str_push(c: char, rest: Option<(Seq<char>, int)>) -> Option<
    (Seq<char>, int),
> {
    match rest {
        Some((t, e)) => Some((seq![c] + t, e)),
        None => None,
    }
}

/// A character's code survives the spec-level cast round trip, and is a
/// unicode scalar value.
proof fn lemma_char_cast(c: char)
    ensures
        ((c as u32) as int) as char == c,
        0 <= (c as u32) <= 0x10FFFF,
        !(0xD800 <= (c as u32) && (c as u32) < 0xE000),
{
    vstd::utf8::char_is_scalar(c);
    vstd::utf8::char_u32_cast(c, c as u32);
}

/// Scanning what escaping wrote yields the text back and stops at the
/// closing quote.
#[verifier::rlimit(100)]
proof fn lemma_scan_esc(s: Seq<char>, i: int, x: Seq<char>)
    requires
        0 <= i,
        i + esc(x).len() + 1 <= s.len(),
        s.subrange(i, i + esc(x).len()) == esc(x),
        s[i + esc(x).len()] == '"',
    ensures
        scan_str(s, i) == Some((x, i + esc(x).len() + 1)),
    decreases x.len(),
{
    reveal(scan_str);
    if x.len() == 0 {
        assert(esc(x).len() == 0);
    } else {
        let c = x[0];
        let rest = x.skip(1);
        let ec = esc_char(c);
        assert(esc(x) == ec + esc(rest));
        assert forall|k: int| 0 <= k < ec.len() implies s[i + k] == ec[k] by {
            assert(s.subrange(i, i + esc(x).len())[k] == s[i + k]);
            assert((ec + esc(rest))[k] == ec[k]);
        }
        let j = i + ec.len();
        assert(s.subrange(j, j + esc(rest).len()) =~= esc(rest)) by {
            assert forall|k: int| 0 <= k < esc(rest).len() implies s.subrange(
                j,
                j + esc(rest).len(),
            )[k] == esc(rest)[k] by {
                assert(s.subrange(i, i + esc(x).len())[ec.len() + k] == s[j + k]);
                assert((ec + esc(rest))[ec.len() + k] == esc(rest)[k]);
            }
        }
        assert(s[j + esc(rest).len()] == '"');
        lemma_scan_esc(s, j, rest);
        assert(seq![c] + rest =~= x);
        if c == '"' || c == '\\' {
            assert(s[i] == '\\');
        } else if c == '\u{8}' || c == '\t' || c == '\n' || c == '\u{c}' || c == '\r' {
            assert(s[i] == '\\');
        } else if (c as u32) < 32 {
            lemma_char_cast(c);
            let u = (c as u32) as int;
            assert(s[i] == '\\');
            assert(s[i + 1] == 'u');
            assert(s[i + 2] == '0');
            assert(s[i + 3] == '0');
            assert(s[i + 4] == hex_char(u / 16));
            assert(s[i + 5] == hex_char(u % 16));
            lemma_hex_char(u / 16);
            lemma_hex_char(u % 16);
            assert(hex_val('0') == 0);
            let v = hex_val(s[i + 2]) * 4096 + hex_val(s[i + 3]) * 256 + hex_val(s[i + 4]) * 16
                + hex_val(s[i + 5]);
            assert(v == u);
            assert(!(0xD800 <= v < 0xDC00));
            assert(!(0xDC00 <= v < 0xE000));
            assert(v as char == c);
        } else {
            lemma_char_cast(c);
            assert(s[i] == c);
            assert(s[i] != '"' && s[i] != '\\');
            assert(!((s[i] as u32) < 32));
        }
    }
}

/// The spec-level shape of a serialized output record.
pub struct RecordV {
    pub type_tag: Seq<char>,
    pub content: Seq<char>,
    pub narsese: Option<Seq<char>>,
    pub operation: Option<Seq<Seq<char>>>,
}

/// One member of a serialized record: a string field or the operation's
/// string array.
pub enum MemberV {
    S(Seq<char>, Seq<char>),
    A(Seq<char>, Seq<Seq<char>>),
}

/// Leading whitespace skipped from position `i`.
pub open spec fn skip_ws(s: Seq<char>, i: int) -> int
    decreases s.len() - i,
{
    if 0 <= i < s.len() && is_json_ws(s[i]) {
        skip_ws(s, i + 1)
    } else {
        i
    }
}

/// A string value: optional whitespace, then a string literal.
pub open spec fn scan_string(s: Seq<char>, i: int) -> Option<(Seq<char>, int)> {
    let j = skip_ws(s, i);
    if 0 <= j < s.len() && s[j] == '"' {
        scan_str(s, j + 1)
    } else {
        None
    }
}

/// The items of a string array after the first: `, item` repeated, then `]`.
pub open spec fn scan_arr_rest(s: Seq<char>, i: int) -> Option<(Seq<Seq<char>>, int)>
    decreases s.len() - i,
{
    let j = skip_ws(s, i);
    if !(0 <= j < s.len()) {
        None
    } else if s[j] == ']' {
        Some((Seq::empty(), j + 1))
    } else if s[j] == ',' {
        match scan_string(s, j + 1) {
            None => None,
            Some((t, m)) => {
                if m <= i || m > s.len() {
                    None
                } else {
                    match scan_arr_rest(s, m) {
                        None => None,
                        Some((ts, e)) => Some((Seq::empty().push(t) + ts, e)),
                    }
                }
            },
        }
    } else {
        None
    }
}

/// A string array: `[`, items separated by commas, `]`.
pub open spec fn scan_array(s: Seq<char>, i: int) -> Option<(Seq<Seq<char>>, int)> {
    let j = skip_ws(s, i);
    if !(0 <= j < s.len() && s[j] == '[') {
        None
    } else {
        let k = skip_ws(s, j + 1);
        if 0 <= k < s.len() && s[k] == ']' {
            Some((Seq::empty(), k + 1))
        } else {
            match scan_string(s, j + 1) {
                None => None,
                Some((t, m)) => {
                    if m <= j + 1 {
                        None
                    } else {
                        match scan_arr_rest(s, m) {
                            None => None,
                            Some((ts, e)) => Some((Seq::empty().push(t) + ts, e)),
                        }
                    }
                },
            }
        }
    }
}


/// Whether a character can appear in a JSON number.
pub open spec fn is_number_char(c: char) -> bool {
    ('0' <= c && c <= '9') || c == '-' || c == '+' || c == '.' || c == 'e' || c == 'E'
}

/// The end of the maximal run of number characters from `i`.
pub open spec fn number_end(s: Seq<char>, i: int) -> int
    decreases s.len() - i,
{
    if 0 <= i < s.len() && is_number_char(s[i]) {
        number_end(s, i + 1)
    } else {
        i
    }
}

/// Whether the four characters of `null` stand at `j`.
pub open spec fn is_null_at(s: Seq<char>, j: int) -> bool {
    &&& 0 <= j
    &&& j + 4 <= s.len()
    &&& s[j] == 'n'
    &&& s[j + 1] == 'u'
    &&& s[j + 2] == 'l'
    &&& s[j + 3] == 'l'
}

/// Skips one JSON value of any shape inside an ignored member, checking only
/// its bracketing (strings fully, a number as a run of number characters):
/// the position after it, or nothing when malformed.
pub open spec fn skip_value(s: Seq<char>, i: int) -> Option<int>
    decreases s.len() - i, 2int,
{
    let j = skip_ws(s, i);
    if j < i || j >= s.len() {
        None
    } else if s[j] == '"' {
        match scan_str(s, j + 1) {
            Some((_t, e)) => Some(e),
            None => None,
        }
    } else if is_null_at(s, j) {
        Some(j + 4)
    } else if j + 4 <= s.len() && s[j] == 't' && s[j + 1] == 'r' && s[j + 2] == 'u' && s[j + 3]
        == 'e' {
        Some(j + 4)
    } else if j + 5 <= s.len() && s[j] == 'f' && s[j + 1] == 'a' && s[j + 2] == 'l' && s[j + 3]
        == 's' && s[j + 4] == 'e' {
        Some(j + 5)
    } else if s[j] == '[' {
        let k = skip_ws(s, j + 1);
        if 0 <= k < s.len() && s[k] == ']' {
            Some(k + 1)
        } else {
            match skip_value(s, j + 1) {
                None => None,
                Some(m) => {
                    if m <= j + 1 || m > s.len() {
                        None
                    } else {
                        skip_arr_items(s, m)
                    }
                },
            }
        }
    } else if s[j] == '{' {
        let k = skip_ws(s, j + 1);
        if 0 <= k < s.len() && s[k] == '}' {
            Some(k + 1)
        } else {
            match skip_obj_member(s, j + 1) {
                None => None,
                Some(m) => {
                    if m <= j + 1 || m > s.len() {
                        None
                    } else {
                        skip_obj_items(s, m)
                    }
                },
            }
        }
    } else if is_number_char(s[j]) {
        Some(number_end(s, j))
    } else {
        None
    }
}

/// Skips one `"key": value` member of an ignored object.
pub open spec fn skip_obj_member(s: Seq<char>, i: int) -> Option<int>
    decreases s.len() - i, 3int,
{
    if i < 0 {
        None
    } else {
        match scan_string(s, i) {
            None => None,
            Some((_key, j)) => {
                let k = skip_ws(s, j);
                if !(0 <= k < s.len() && s[k] == ':') {
                    None
                } else if k + 1 <= i {
                    None
                } else {
                    skip_value(s, k + 1)
                }
            },
        }
    }
}

/// After one element of an ignored array: a comma and another element, or
/// the closing bracket.
pub open spec fn skip_arr_items(s: Seq<char>, i: int) -> Option<int>
    decreases s.len() - i, 1int,
{
    let j = skip_ws(s, i);
    if j < i || j >= s.len() {
        None
    } else if s[j] == ']' {
        Some(j + 1)
    } else if s[j] == ',' {
        match skip_value(s, j + 1) {
            None => None,
            Some(m) => {
                if m <= i || m > s.len() {
                    None
                } else {
                    skip_arr_items(s, m)
                }
            },
        }
    } else {
        None
    }
}

/// After one member of an ignored object: a comma and another member, or the
/// closing brace.
pub open spec fn skip_obj_items(s: Seq<char>, i: int) -> Option<int>
    decreases s.len() - i, 1int,
{
    let j = skip_ws(s, i);
    if j < i || j >= s.len() {
        None
    } else if s[j] == '}' {
        Some(j + 1)
    } else if s[j] == ',' {
        match skip_obj_member(s, j + 1) {
            None => None,
            Some(m) => {
                if m <= i || m > s.len() {
                    None
                } else {
                    skip_obj_items(s, m)
                }
            },
        }
    } else {
        None
    }
}

/// The four optional fields gathered while scanning a record's members.
pub struct RecAcc {
    pub type_tag: Option<Seq<char>>,
    pub content: Option<Seq<char>>,
    pub narsese: Option<Seq<char>>,
    pub operation: Option<Seq<Seq<char>>>,
}

/// No field seen yet.
pub open spec fn empty_acc() -> RecAcc {
    RecAcc { type_tag: None, content: None, narsese: None, operation: None }
}

/// Stores a string field under its key; `None` for a duplicate or an unknown
/// key.
pub open spec fn put_str(acc: RecAcc, key: Seq<char>, val: Seq<char>) -> Option<RecAcc> {
    if key == "type"@ {
        if acc.type_tag is Some {
            None
        } else {
            Some(RecAcc { type_tag: Some(val), ..acc })
        }
    } else if key == "content"@ {
        if acc.content is Some {
            None
        } else {
            Some(RecAcc { content: Some(val), ..acc })
        }
    } else if key == "narsese"@ {
        if acc.narsese is Some {
            None
        } else {
            Some(RecAcc { narsese: Some(val), ..acc })
        }
    } else {
        None
    }
}

/// One `"key": value` member, stored into the accumulator. An unknown key's
/// value is skipped, as a reader of this schema ignores foreign fields; an
/// explicit `null` for one of the optional fields counts as absent.
#[verifier::opaque]
pub open spec fn scan_member(s: Seq<char>, i: int, acc: RecAcc) -> Option<(RecAcc, int)> {
    match scan_string(s, i) {
        None => None,
        Some((key, j)) => {
            let k = skip_ws(s, j);
            if !(0 <= k < s.len() && s[k] == ':') {
                None
            } else if key == "type"@ || key == "content"@ {
                match scan_string(s, k + 1) {
                    None => None,
                    Some((val, m)) => match put_str(acc, key, val) {
                        None => None,
                        Some(acc2) => Some((acc2, m)),
                    },
                }
            } else if key == "narsese"@ {
                let w = skip_ws(s, k + 1);
                if is_null_at(s, w) {
                    Some((acc, w + 4))
                } else {
                    match scan_string(s, k + 1) {
                        None => None,
                        Some((val, m)) => match put_str(acc, key, val) {
                            None => None,
                            Some(acc2) => Some((acc2, m)),
                        },
                    }
                }
            } else if key == "operation"@ {
                let w = skip_ws(s, k + 1);
                if is_null_at(s, w) {
                    Some((acc, w + 4))
                } else if acc.operation is Some {
                    None
                } else {
                    match scan_array(s, k + 1) {
                        None => None,
                        Some((a, m)) => Some((RecAcc { operation: Some(a), ..acc }, m)),
                    }
                }
            } else {
                match skip_value(s, k + 1) {
                    None => None,
                    Some(m) => Some((acc, m)),
                }
            }
        },
    }
}

/// The members of a record object from position `i` (after `{` or a comma):
/// one member, then either `}` or a comma and more members.
pub open spec fn scan_members(s: Seq<char>, i: int, acc: RecAcc) -> Option<(RecAcc, int)>
    decreases s.len() - i,
{
    match scan_member(s, i, acc) {
        None => None,
        Some((acc2, m)) => {
            let w = skip_ws(s, m);
            if !(0 <= w < s.len()) {
                None
            } else if s[w] == '}' {
                Some((acc2, w + 1))
            } else if s[w] == ',' {
                if w + 1 <= i || w >= s.len() {
                    None
                } else {
                    scan_members(s, w + 1, acc2)
                }
            } else {
                None
            }
        },
    }
}

/// A record object: `{`, its members, `}`; the type and content fields are
/// required, the others optional.
pub open spec fn scan_record(s: Seq<char>, i: int) -> Option<(RecordV, int)> {
    let j = skip_ws(s, i);
    if !(0 <= j < s.len() && s[j] == '{') {
        None
    } else {
        match scan_members(s, j + 1, empty_acc()) {
            None => None,
            Some((acc, e)) => match (acc.type_tag, acc.content) {
                (Some(t), Some(c)) => Some(
                    (
                        RecordV {
                            type_tag: t,
                            content: c,
                            narsese: acc.narsese,
                            operation: acc.operation,
                        },
                        e,
                    ),
                ),
                _ => None,
            },
        }
    }
}

/// The records of a top-level array after the first.
pub open spec fn scan_rec_rest(s: Seq<char>, i: int) -> Option<(Seq<RecordV>, int)>
    decreases s.len() - i,
{
    let j = skip_ws(s, i);
    if !(0 <= j < s.len()) {
        None
    } else if s[j] == ']' {
        Some((Seq::empty(), j + 1))
    } else if s[j] == ',' {
        match scan_record(s, j + 1) {
            None => None,
            Some((r, m)) => {
                if m <= i || m > s.len() {
                    None
                } else {
                    match scan_rec_rest(s, m) {
                        None => None,
                        Some((rs, e)) => Some((Seq::empty().push(r) + rs, e)),
                    }
                }
            },
        }
    } else {
        None
    }
}

/// A top-level array of records.
pub open spec fn scan_recs(s: Seq<char>, i: int) -> Option<(Seq<RecordV>, int)> {
    let j = skip_ws(s, i);
    if !(0 <= j < s.len() && s[j] == '[') {
        None
    } else {
        let k = skip_ws(s, j + 1);
        if 0 <= k < s.len() && s[k] == ']' {
            Some((Seq::empty(), k + 1))
        } else {
            match scan_record(s, j + 1) {
                None => None,
                Some((r, m)) => {
                    if m <= j + 1 {
                        None
                    } else {
                        match scan_rec_rest(s, m) {
                            None => None,
                            Some((rs, e)) => Some((Seq::empty().push(r) + rs, e)),
                        }
                    }
                },
            }
        }
    }
}

/// One whole record text: the record and nothing but trailing whitespace.
pub open spec fn dec_record_text(s: Seq<char>) -> Option<RecordV> {
    match scan_record(s, 0) {
        None => None,
        Some((r, e)) => if skip_ws(s, e) == s.len() {
            Some(r)
        } else {
            None
        },
    }
}

/// One whole array text: the records and nothing but trailing whitespace.
pub open spec fn dec_records_text(s: Seq<char>) -> Option<Seq<RecordV>> {
    match scan_recs(s, 0) {
        None => None,
        Some((rs, e)) => if skip_ws(s, e) == s.len() {
            Some(rs)
        } else {
            None
        },
    }
}

/// The items of an encoded string array after the first.
pub open spec fn enc_arr_tail(a: Seq<Seq<char>>) -> Seq<char>
    decreases a.len(),
{
    if a.len() == 0 {
        seq![']']
    } else {
        seq![','] + enc_str(a[0]) + enc_arr_tail(a.skip(1))
    }
}

/// An encoded string array.
pub open spec fn enc_arr(a: Seq<Seq<char>>) -> Seq<char> {
    if a.len() == 0 {
        seq!['[', ']']
    } else {
        seq!['['] + enc_str(a[0]) + enc_arr_tail(a.skip(1))
    }
}

/// One encoded member: `"key":` and its value.
pub open spec fn enc_member(m: MemberV) -> Seq<char> {
    match m {
        MemberV::S(key, val) => enc_str(key) + seq![':'] + enc_str(val),
        MemberV::A(key, a) => enc_str(key) + seq![':'] + enc_arr(a),
    }
}

/// Encoded members after the first, each preceded by a comma, then `}`.
pub open spec fn enc_members_tail(ms: Seq<MemberV>) -> Seq<char>
    decreases ms.len(),
{
    if ms.len() == 0 {
        seq!['}']
    } else {
        seq![','] + enc_member(ms[0]) + enc_members_tail(ms.skip(1))
    }
}

/// An encoded nonempty member list, closed by `}`.
pub open spec fn enc_members_seq(ms: Seq<MemberV>) -> Seq<char>
    recommends
        ms.len() > 0,
{
    enc_member(ms[0]) + enc_members_tail(ms.skip(1))
}

/// The member list a record serializes to: type and content, then the
/// optional fields that are present.
pub open spec fn members_of(r: RecordV) -> Seq<MemberV> {
    let base = seq![MemberV::S("type"@, r.type_tag), MemberV::S("content"@, r.content)];
    let with_narsese = match r.narsese {
        Some(n) => base.push(MemberV::S("narsese"@, n)),
        None => base,
    };
    match r.operation {
        Some(a) => with_narsese.push(MemberV::A("operation"@, a)),
        None => with_narsese,
    }
}

/// An encoded record.
pub open spec fn enc_record(r: RecordV) -> Seq<char> {
    seq!['{'] + enc_members_seq(members_of(r))
}

/// Encoded records after the first of an array.
pub open spec fn enc_recs_tail(rs: Seq<RecordV>) -> Seq<char>
    decreases rs.len(),
{
    if rs.len() == 0 {
        seq![']']
    } else {
        seq![','] + enc_record(rs[0]) + enc_recs_tail(rs.skip(1))
    }
}

/// An encoded array of records.
pub open spec fn enc_records(rs: Seq<RecordV>) -> Seq<char> {
    if rs.len() == 0 {
        seq!['[', ']']
    } else {
        seq!['['] + enc_record(rs[0]) + enc_recs_tail(rs.skip(1))
    }
}

/// Folds members into the accumulator, as scanning does.
pub open spec fn apply_members(acc: RecAcc, ms: Seq<MemberV>) -> Option<RecAcc>
    decreases ms.len(),
{
    if ms.len() == 0 {
        Some(acc)
    } else {
        let step = match ms[0] {
            MemberV::S(key, val) => put_str(acc, key, val),
            MemberV::A(key, a) => {
                if key == "operation"@ && acc.operation is None {
                    Some(RecAcc { operation: Some(a), ..acc })
                } else {
                    None
                }
            },
        };
        match step {
            None => None,
            Some(a2) => apply_members(a2, ms.skip(1)),
        }
    }
}

/// A part of a part of a text is a part of the text.
proof fn lemma_nested_subrange(s: Seq<char>, i: int, whole: Seq<char>, off: int, part: Seq<char>)
    requires
        0 <= i,
        i + whole.len() <= s.len(),
        s.subrange(i, i + whole.len()) == whole,
        0 <= off,
        off + part.len() <= whole.len(),
        whole.subrange(off, off + part.len()) == part,
    ensures
        s.subrange(i + off, i + off + part.len()) == part,
{
    assert(s.subrange(i + off, i + off + part.len()) =~= part) by {
        assert forall|k: int| 0 <= k < part.len() implies s.subrange(
            i + off,
            i + off + part.len(),
        )[k] == part[k] by {
            assert(s.subrange(i, i + whole.len())[off + k] == s[i + off + k]);
            assert(whole.subrange(off, off + part.len())[k] == whole[off + k]);
        }
    }
}

/// Scanning a string value written by the encoder yields the text back.
proof fn lemma_scan_enc_str(s: Seq<char>, i: int, x: Seq<char>)
    requires
        0 <= i,
        i + enc_str(x).len() <= s.len(),
        s.subrange(i, i + enc_str(x).len()) == enc_str(x),
    ensures
        scan_string(s, i) == Some((x, i + enc_str(x).len())),
{
    let n = enc_str(x).len() as int;
    assert(enc_str(x)[0] == '"');
    assert(s[i] == '"') by {
        assert(s.subrange(i, i + n)[0] == s[i]);
    }
    assert(skip_ws(s, i) == i);
    assert(s.subrange(i + 1, i + 1 + esc(x).len() as int) =~= esc(x)) by {
        assert forall|k: int| 0 <= k < esc(x).len() implies s.subrange(
            i + 1,
            i + 1 + esc(x).len() as int,
        )[k] == esc(x)[k] by {
            assert(s.subrange(i, i + n)[1 + k] == s[i + 1 + k]);
            assert(enc_str(x)[1 + k] == esc(x)[k]);
        }
    }
    assert(s[i + 1 + esc(x).len() as int] == '"') by {
        assert(enc_str(x)[n - 1] == '"');
        assert(s.subrange(i, i + n)[n - 1] == s[i + n - 1]);
    }
    lemma_scan_esc(s, i + 1, x);
}

/// Scanning the tail of an encoded string array yields its items.
proof fn lemma_scan_arr_tail(s: Seq<char>, i: int, a: Seq<Seq<char>>)
    requires
        0 <= i,
        i + enc_arr_tail(a).len() <= s.len(),
        s.subrange(i, i + enc_arr_tail(a).len()) == enc_arr_tail(a),
    ensures
        scan_arr_rest(s, i) == Some((a, i + enc_arr_tail(a).len())),
    decreases a.len(),
{
    let n = enc_arr_tail(a).len() as int;
    if a.len() == 0 {
        assert(s[i] == ']') by {
            assert(s.subrange(i, i + n)[0] == s[i]);
        }
        assert(skip_ws(s, i) == i);
        assert(a =~= Seq::<Seq<char>>::empty());
    } else {
        let w = enc_arr_tail(a);
        assert(w[0] == ',');
        assert(s[i] == ',') by {
            assert(s.subrange(i, i + n)[0] == s[i]);
        }
        assert(skip_ws(s, i) == i);
        let e0 = enc_str(a[0]);
        assert(w.subrange(1, 1 + e0.len() as int) =~= e0);
        lemma_nested_subrange(s, i, w, 1, e0);
        lemma_scan_enc_str(s, i + 1, a[0]);
        let m = i + 1 + e0.len() as int;
        assert(w.subrange(1 + e0.len() as int, n) =~= enc_arr_tail(a.skip(1)));
        lemma_nested_subrange(s, i, w, 1 + e0.len() as int, enc_arr_tail(a.skip(1)));
        lemma_scan_arr_tail(s, m, a.skip(1));
        assert(Seq::empty().push(a[0]) + a.skip(1) =~= a);
    }
}

/// Scanning an encoded string array yields its items.
proof fn lemma_scan_arr(s: Seq<char>, i: int, a: Seq<Seq<char>>)
    requires
        0 <= i,
        i + enc_arr(a).len() <= s.len(),
        s.subrange(i, i + enc_arr(a).len()) == enc_arr(a),
    ensures
        scan_array(s, i) == Some((a, i + enc_arr(a).len())),
{
    let n = enc_arr(a).len() as int;
    let w = enc_arr(a);
    assert(w[0] == '[');
    assert(s[i] == '[') by {
        assert(s.subrange(i, i + n)[0] == s[i]);
    }
    assert(skip_ws(s, i) == i);
    if a.len() == 0 {
        assert(w[1] == ']');
        assert(s[i + 1] == ']') by {
            assert(s.subrange(i, i + n)[1] == s[i + 1]);
        }
        assert(skip_ws(s, i + 1) == i + 1);
    } else {
        let e0 = enc_str(a[0]);
        assert(w[1] == '"');
        assert(s[i + 1] == '"') by {
            assert(s.subrange(i, i + n)[1] == s[i + 1]);
        }
        assert(skip_ws(s, i + 1) == i + 1);
        assert(w.subrange(1, 1 + e0.len() as int) =~= e0);
        lemma_nested_subrange(s, i, w, 1, e0);
        lemma_scan_enc_str(s, i + 1, a[0]);
        let m = i + 1 + e0.len() as int;
        assert(w.subrange(1 + e0.len() as int, n) =~= enc_arr_tail(a.skip(1)));
        lemma_nested_subrange(s, i, w, 1 + e0.len() as int, enc_arr_tail(a.skip(1)));
        lemma_scan_arr_tail(s, m, a.skip(1));
        assert(Seq::empty().push(a[0]) + a.skip(1) =~= a);
    }
}

/// The characters of the four field keys, and their distinctness.
proof fn lemma_keys()
    ensures
        "type"@ =~= seq!['t', 'y', 'p', 'e'],
        "content"@ =~= seq!['c', 'o', 'n', 't', 'e', 'n', 't'],
        "narsese"@ =~= seq!['n', 'a', 'r', 's', 'e', 's', 'e'],
        "operation"@ =~= seq!['o', 'p', 'e', 'r', 'a', 't', 'i', 'o', 'n'],
        "content"@ != "type"@,
        "narsese"@ != "type"@,
        "narsese"@ != "content"@,
        "operation"@ != "type"@,
        "operation"@ != "content"@,
        "operation"@ != "narsese"@,
{
    reveal_strlit("type");
    reveal_strlit("content");
    reveal_strlit("narsese");
    reveal_strlit("operation");
    assert("type"@.len() == 4);
    assert("content"@.len() == 7);
    assert("narsese"@.len() == 7);
    assert("operation"@.len() == 9);
    assert("narsese"@[0] != "content"@[0]);
}

/// Scanning one encoded member stores it and stops after its value.
#[verifier::rlimit(100)]
#[verifier::spinoff_prover]
proof fn lemma_scan_member_enc(s: Seq<char>, i: int, m: MemberV, acc: RecAcc, acc2: RecAcc)
    requires
        0 <= i,
        i + enc_member(m).len() <= s.len(),
        s.subrange(i, i + enc_member(m).len()) == enc_member(m),
        m matches MemberV::S(key, val) ==> (key == "type"@ || key == "content"@ || key
            == "narsese"@) && put_str(acc, key, val) == Some(acc2),
        m matches MemberV::A(key, a) ==> key == "operation"@ && acc.operation is None && acc2
            == (RecAcc { operation: Some(a), ..acc }),
    ensures
        scan_member(s, i, acc) == Some((acc2, i + enc_member(m).len())),
{
    lemma_keys();
    reveal(scan_member);
    let em = enc_member(m);
    match m {
        MemberV::S(key, val) => {
            let ek = enc_str(key);
            assert(em.subrange(0, ek.len() as int) =~= ek);
            lemma_nested_subrange(s, i, em, 0, ek);
            lemma_scan_enc_str(s, i, key);
            let j = i + ek.len() as int;
            assert(em[ek.len() as int] == ':');
            assert(s[j] == ':') by {
                assert(s.subrange(i, i + em.len())[ek.len() as int] == s[j]);
            }
            assert(skip_ws(s, j) == j);
            assert(em.subrange(ek.len() as int + 1, em.len() as int) =~= enc_str(val));
            lemma_nested_subrange(s, i, em, ek.len() as int + 1, enc_str(val));
            lemma_scan_enc_str(s, j + 1, val);
        },
        MemberV::A(key, a) => {
            let ek = enc_str(key);
            assert(em.subrange(0, ek.len() as int) =~= ek);
            lemma_nested_subrange(s, i, em, 0, ek);
            lemma_scan_enc_str(s, i, key);
            let j = i + ek.len() as int;
            assert(em[ek.len() as int] == ':');
            assert(s[j] == ':') by {
                assert(s.subrange(i, i + em.len())[ek.len() as int] == s[j]);
            }
            assert(skip_ws(s, j) == j);
            assert(em.subrange(ek.len() as int + 1, em.len() as int) =~= enc_arr(a));
            lemma_nested_subrange(s, i, em, ek.len() as int + 1, enc_arr(a));
            lemma_scan_arr(s, j + 1, a);
        },
    }
}

/// Scanning encoded members applies them to the accumulator and stops after
/// the closing brace.
#[verifier::rlimit(100)]
#[verifier::spinoff_prover]
proof fn lemma_scan_members_enc(s: Seq<char>, i: int, ms: Seq<MemberV>, acc: RecAcc, acc_fin: RecAcc)
    requires
        ms.len() > 0,
        0 <= i,
        i + enc_members_seq(ms).len() <= s.len(),
        s.subrange(i, i + enc_members_seq(ms).len()) == enc_members_seq(ms),
        apply_members(acc, ms) == Some(acc_fin),
        forall|k: int| 0 <= k < ms.len() ==> (#[trigger] ms[k] matches MemberV::S(key, _) ==> (
        key == "type"@ || key == "content"@ || key == "narsese"@)),
    ensures
        scan_members(s, i, acc) == Some((acc_fin, i + enc_members_seq(ms).len())),
    decreases ms.len(),
{
    let whole = enc_members_seq(ms);
    let n = whole.len() as int;
    let em = enc_member(ms[0]);
    assert(whole.subrange(0, em.len() as int) =~= em);
    lemma_nested_subrange(s, i, whole, 0, em);
    let step = match ms[0] {
        MemberV::S(key, val) => put_str(acc, key, val),
        MemberV::A(key, a) => {
            if key == "operation"@ && acc.operation is None {
                Some(RecAcc { operation: Some(a), ..acc })
            } else {
                None
            }
        },
    };
    assert(step is Some);
    let a2 = step->Some_0;
    assert(ms[0] matches MemberV::A(key, _) ==> key == "operation"@) by {
        match ms[0] {
            MemberV::A(key, arr) => {
                if !(key == "operation"@) {
                    assert(step is None);
                }
            },
            _ => {},
        }
    }
    lemma_scan_member_enc(s, i, ms[0], acc, a2);
    let m = i + em.len() as int;
    if ms.len() == 1 {
        assert(enc_members_tail(ms.skip(1)) =~= seq!['}']);
        assert(whole[em.len() as int] == '}');
        assert(s[m] == '}') by {
            assert(s.subrange(i, i + n)[em.len() as int] == s[m]);
        }
        assert(skip_ws(s, m) == m);
        assert(apply_members(a2, ms.skip(1)) == Some(a2));
    } else {
        let rest = ms.skip(1);
        assert(enc_members_tail(rest) =~= seq![','] + enc_members_seq(rest));
        assert(whole[em.len() as int] == ',');
        assert(s[m] == ',') by {
            assert(s.subrange(i, i + n)[em.len() as int] == s[m]);
        }
        assert(skip_ws(s, m) == m);
        assert(whole.subrange(em.len() as int + 1, n) =~= enc_members_seq(rest));
        lemma_nested_subrange(s, i, whole, em.len() as int + 1, enc_members_seq(rest));
        assert(forall|k: int| 0 <= k < rest.len() ==> rest[k] == ms[k + 1]);
        lemma_scan_members_enc(s, m + 1, rest, a2, acc_fin);
    }
}

/// Folding the member list of a record fills the accumulator with exactly
/// the record's fields.
#[verifier::rlimit(100)]
#[verifier::spinoff_prover]
proof fn lemma_apply_members_of(r: RecordV)
    ensures
        apply_members(empty_acc(), members_of(r)) == Some(
            RecAcc {
                type_tag: Some(r.type_tag),
                content: Some(r.content),
                narsese: r.narsese,
                operation: r.operation,
            },
        ),
        members_of(r).len() > 0,
        forall|k: int| 0 <= k < members_of(r).len() ==> (#[trigger] members_of(r)[k] matches
            MemberV::S(key, _) ==> (key == "type"@ || key == "content"@ || key == "narsese"@)),
{
    lemma_keys();
    reveal_with_fuel(apply_members, 6);
    let ms = members_of(r);
    let a0 = empty_acc();
    let a1 = RecAcc { type_tag: Some(r.type_tag), ..a0 };
    let a2 = RecAcc { content: Some(r.content), ..a1 };
    assert(put_str(a0, "type"@, r.type_tag) == Some(a1));
    assert(put_str(a1, "content"@, r.content) == Some(a2));
    let acc_fin = RecAcc {
        type_tag: Some(r.type_tag),
        content: Some(r.content),
        narsese: r.narsese,
        operation: r.operation,
    };
    match (r.narsese, r.operation) {
        (None, None) => {
            assert(ms =~= seq![MemberV::S("type"@, r.type_tag), MemberV::S("content"@, r.content)]);
            assert(ms.skip(1) =~= seq![MemberV::S("content"@, r.content)]);
            assert(ms.skip(1).skip(1) =~= Seq::<MemberV>::empty());
            assert(a2 =~= acc_fin);
        },
        (Some(nar), None) => {
            assert(ms =~= seq![
                MemberV::S("type"@, r.type_tag),
                MemberV::S("content"@, r.content),
                MemberV::S("narsese"@, nar),
            ]);
            let a3 = RecAcc { narsese: Some(nar), ..a2 };
            assert(put_str(a2, "narsese"@, nar) == Some(a3));
            assert(ms.skip(1) =~= seq![MemberV::S("content"@, r.content), MemberV::S("narsese"@, nar)]);
            assert(ms.skip(1).skip(1) =~= seq![MemberV::S("narsese"@, nar)]);
            assert(ms.skip(1).skip(1).skip(1) =~= Seq::<MemberV>::empty());
            assert(a3 =~= acc_fin);
        },
        (None, Some(op)) => {
            assert(ms =~= seq![
                MemberV::S("type"@, r.type_tag),
                MemberV::S("content"@, r.content),
                MemberV::A("operation"@, op),
            ]);
            let a3 = RecAcc { operation: Some(op), ..a2 };
            assert(ms.skip(1) =~= seq![MemberV::S("content"@, r.content), MemberV::A("operation"@, op)]);
            assert(ms.skip(1).skip(1) =~= seq![MemberV::A("operation"@, op)]);
            assert(ms.skip(1).skip(1).skip(1) =~= Seq::<MemberV>::empty());
            assert(a3 =~= acc_fin);
        },
        (Some(nar), Some(op)) => {
            assert(ms =~= seq![
                MemberV::S("type"@, r.type_tag),
                MemberV::S("content"@, r.content),
                MemberV::S("narsese"@, nar),
                MemberV::A("operation"@, op),
            ]);
            let a3 = RecAcc { narsese: Some(nar), ..a2 };
            assert(put_str(a2, "narsese"@, nar) == Some(a3));
            let a4 = RecAcc { operation: Some(op), ..a3 };
            assert(ms.skip(1) =~= seq![
                MemberV::S("content"@, r.content),
                MemberV::S("narsese"@, nar),
                MemberV::A("operation"@, op),
            ]);
            assert(ms.skip(1).skip(1) =~= seq![MemberV::S("narsese"@, nar), MemberV::A("operation"@, op)]);
            assert(ms.skip(1).skip(1).skip(1) =~= seq![MemberV::A("operation"@, op)]);
            assert(ms.skip(1).skip(1).skip(1).skip(1) =~= Seq::<MemberV>::empty());
            assert(a4 =~= acc_fin);
        },
    }
}

/// Scanning an encoded record yields the record back.
#[verifier::rlimit(100)]
#[verifier::spinoff_prover]
proof fn lemma_scan_record_enc(s: Seq<char>, i: int, r: RecordV)
    requires
        0 <= i,
        i + enc_record(r).len() <= s.len(),
        s.subrange(i, i + enc_record(r).len()) == enc_record(r),
    ensures
        scan_record(s, i) == Some((r, i + enc_record(r).len())),
{
    let whole = enc_record(r);
    let n = whole.len() as int;
    assert(whole[0] == '{');
    assert(s[i] == '{') by {
        assert(s.subrange(i, i + n)[0] == s[i]);
    }
    assert(skip_ws(s, i) == i);
    let ms = members_of(r);
    let acc_fin = RecAcc {
        type_tag: Some(r.type_tag),
        content: Some(r.content),
        narsese: r.narsese,
        operation: r.operation,
    };
    lemma_apply_members_of(r);
    assert(whole.subrange(1, n) =~= enc_members_seq(ms));
    lemma_nested_subrange(s, i, whole, 1, enc_members_seq(ms));
    lemma_scan_members_enc(s, i + 1, ms, empty_acc(), acc_fin);
}

/// Round trip at the record level: decoding an encoded record yields the
/// record.
pub proof fn lemma_record_round_trip(r: RecordV)
    ensures
        dec_record_text(enc_record(r)) == Some(r),
{
    let s = enc_record(r);
    assert(s.subrange(0, s.len() as int) =~= s);
    lemma_scan_record_enc(s, 0, r);
    assert(skip_ws(s, s.len() as int) == s.len());
}

/// Scanning the tail of an encoded record array yields its records.
proof fn lemma_scan_recs_tail(s: Seq<char>, i: int, rs: Seq<RecordV>)
    requires
        0 <= i,
        i + enc_recs_tail(rs).len() <= s.len(),
        s.subrange(i, i + enc_recs_tail(rs).len()) == enc_recs_tail(rs),
    ensures
        scan_rec_rest(s, i) == Some((rs, i + enc_recs_tail(rs).len())),
    decreases rs.len(),
{
    let n = enc_recs_tail(rs).len() as int;
    if rs.len() == 0 {
        assert(s[i] == ']') by {
            assert(s.subrange(i, i + n)[0] == s[i]);
        }
        assert(skip_ws(s, i) == i);
        assert(rs =~= Seq::<RecordV>::empty());
    } else {
        let w = enc_recs_tail(rs);
        assert(w[0] == ',');
        assert(s[i] == ',') by {
            assert(s.subrange(i, i + n)[0] == s[i]);
        }
        assert(skip_ws(s, i) == i);
        let e0 = enc_record(rs[0]);
        assert(w.subrange(1, 1 + e0.len() as int) =~= e0);
        lemma_nested_subrange(s, i, w, 1, e0);
        lemma_scan_record_enc(s, i + 1, rs[0]);
        let m = i + 1 + e0.len() as int;
        assert(w.subrange(1 + e0.len() as int, n) =~= enc_recs_tail(rs.skip(1)));
        lemma_nested_subrange(s, i, w, 1 + e0.len() as int, enc_recs_tail(rs.skip(1)));
        lemma_scan_recs_tail(s, m, rs.skip(1));
        assert(Seq::empty().push(rs[0]) + rs.skip(1) =~= rs);
    }
}

/// Scanning an encoded array of records yields the records back.
#[verifier::rlimit(100)]
#[verifier::spinoff_prover]
proof fn lemma_scan_recs_enc(s: Seq<char>, i: int, rs: Seq<RecordV>)
    requires
        0 <= i,
        i + enc_records(rs).len() <= s.len(),
        s.subrange(i, i + enc_records(rs).len()) == enc_records(rs),
    ensures
        scan_recs(s, i) == Some((rs, i + enc_records(rs).len())),
{
    let w = enc_records(rs);
    let n = w.len() as int;
    assert(w[0] == '[');
    assert(s[i] == '[') by {
        assert(s.subrange(i, i + n)[0] == s[i]);
    }
    assert(skip_ws(s, i) == i);
    if rs.len() == 0 {
        assert(w[1] == ']');
        assert(s[i + 1] == ']') by {
            assert(s.subrange(i, i + n)[1] == s[i + 1]);
        }
        assert(skip_ws(s, i + 1) == i + 1);
        assert(rs =~= Seq::<RecordV>::empty());
    } else {
        let e0 = enc_record(rs[0]);
        assert(w[1] == '{');
        assert(s[i + 1] == '{') by {
            assert(s.subrange(i, i + n)[1] == s[i + 1]);
        }
        assert(skip_ws(s, i + 1) == i + 1);
        assert(w.subrange(1, 1 + e0.len() as int) =~= e0);
        lemma_nested_subrange(s, i, w, 1, e0);
        lemma_scan_record_enc(s, i + 1, rs[0]);
        let m = i + 1 + e0.len() as int;
        assert(w.subrange(1 + e0.len() as int, n) =~= enc_recs_tail(rs.skip(1)));
        lemma_nested_subrange(s, i, w, 1 + e0.len() as int, enc_recs_tail(rs.skip(1)));
        lemma_scan_recs_tail(s, m, rs.skip(1));
        assert(Seq::empty().push(rs[0]) + rs.skip(1) =~= rs);
    }
}

/// Round trip at the record-array level: decoding an encoded array of
/// records yields the records.
pub proof fn lemma_records_round_trip(rs: Seq<RecordV>)
    ensures
        dec_records_text(enc_records(rs)) == Some(rs),
{
    let s = enc_records(rs);
    assert(s.subrange(0, s.len() as int) =~= s);
    lemma_scan_recs_enc(s, 0, rs);
    assert(skip_ws(s, s.len() as int) == s.len());
}


/// The characters of the fixed output type tags, and their distinctness.
proof fn lemma_type_tags()
    ensures
        "IN"@ =~= seq!['I', 'N'],
        "OUT"@ =~= seq!['O', 'U', 'T'],
        "ERROR"@ =~= seq!['E', 'R', 'R', 'O', 'R'],
        "ANSWER"@ =~= seq!['A', 'N', 'S', 'W', 'E', 'R'],
        "ACHIEVED"@ =~= seq!['A', 'C', 'H', 'I', 'E', 'V', 'E', 'D'],
        "EXE"@ =~= seq!['E', 'X', 'E'],
        "INFO"@ =~= seq!['I', 'N', 'F', 'O'],
        "COMMENT"@ =~= seq!['C', 'O', 'M', 'M', 'E', 'N', 'T'],
        "TERMINATED"@ =~= seq!['T', 'E', 'R', 'M', 'I', 'N', 'A', 'T', 'E', 'D'],
        "OTHER"@ =~= seq!['O', 'T', 'H', 'E', 'R'],
        "IN"@ != "OUT"@,
        "IN"@ != "ERROR"@,
        "IN"@ != "ANSWER"@,
        "IN"@ != "ACHIEVED"@,
        "IN"@ != "EXE"@,
        "IN"@ != "INFO"@,
        "IN"@ != "COMMENT"@,
        "IN"@ != "TERMINATED"@,
        "IN"@ != "OTHER"@,
        "OUT"@ != "ERROR"@,
        "OUT"@ != "ANSWER"@,
        "OUT"@ != "ACHIEVED"@,
        "OUT"@ != "EXE"@,
        "OUT"@ != "INFO"@,
        "OUT"@ != "COMMENT"@,
        "OUT"@ != "TERMINATED"@,
        "OUT"@ != "OTHER"@,
        "ERROR"@ != "ANSWER"@,
        "ERROR"@ != "ACHIEVED"@,
        "ERROR"@ != "EXE"@,
        "ERROR"@ != "INFO"@,
        "ERROR"@ != "COMMENT"@,
        "ERROR"@ != "TERMINATED"@,
        "ERROR"@ != "OTHER"@,
        "ANSWER"@ != "ACHIEVED"@,
        "ANSWER"@ != "EXE"@,
        "ANSWER"@ != "INFO"@,
        "ANSWER"@ != "COMMENT"@,
        "ANSWER"@ != "TERMINATED"@,
        "ANSWER"@ != "OTHER"@,
        "ACHIEVED"@ != "EXE"@,
        "ACHIEVED"@ != "INFO"@,
        "ACHIEVED"@ != "COMMENT"@,
        "ACHIEVED"@ != "TERMINATED"@,
        "ACHIEVED"@ != "OTHER"@,
        "EXE"@ != "INFO"@,
        "EXE"@ != "COMMENT"@,
        "EXE"@ != "TERMINATED"@,
        "EXE"@ != "OTHER"@,
        "INFO"@ != "COMMENT"@,
        "INFO"@ != "TERMINATED"@,
        "INFO"@ != "OTHER"@,
        "COMMENT"@ != "TERMINATED"@,
        "COMMENT"@ != "OTHER"@,
        "TERMINATED"@ != "OTHER"@,
{
    reveal_strlit("IN");
    reveal_strlit("OUT");
    reveal_strlit("ERROR");
    reveal_strlit("ANSWER");
    reveal_strlit("ACHIEVED");
    reveal_strlit("EXE");
    reveal_strlit("INFO");
    reveal_strlit("COMMENT");
    reveal_strlit("TERMINATED");
    reveal_strlit("OTHER");
    assert("IN"@.len() == 2);
    assert("OUT"@.len() == 3);
    assert("ERROR"@.len() == 5);
    assert("ANSWER"@.len() == 6);
    assert("ACHIEVED"@.len() == 8);
    assert("EXE"@.len() == 3);
    assert("INFO"@.len() == 4);
    assert("COMMENT"@.len() == 7);
    assert("TERMINATED"@.len() == 10);
    assert("OTHER"@.len() == 5);
    assert("OUT"@[0] != "EXE"@[0]);
    assert("ERROR"@[0] != "OTHER"@[0]);
}

/// What went wrong while decoding an output from JSON.
#[derive(Debug, Clone, Copy, PartialEq, Eq, Structural)]
pub enum OutputDecodeError {
    /// Malformed JSON text or a schema violation.
    Json,
    /// The operation array was present but empty: no operator name.
    MissingOperator,
    /// An `EXE` record without an operation.
    MissingOperation,
    /// The term library rejected a narsese or term text.
    TermParse,
}

/// The intermediate serialized form of an output: the flat record the JSON
/// text encodes.
#[derive(Debug, Default, Clone, PartialEq, Eq, PartialOrd, Ord, Hash)]
pub struct OutputJSON {
    /// The output's type tag.
    pub type_tag: String,
    /// The output's raw content.
    pub content: String,
    /// The narsese payload text, when present.
    pub narsese: Option<String>,
    /// The operation as strings (operator name first), when present.
    pub operation: Option<Vec<String>>,
}

impl View for OutputJSON {
    type V = RecordV;

    open spec fn view(&self) -> RecordV {
        RecordV {
            type_tag: self.type_tag@,
            content: self.content@,
            narsese: match self.narsese {
                Some(ref n) => Some(n@),
                None => None,
            },
            operation: match self.operation {
                Some(ref a) => Some(a.deep_view()),
                None => None,
            },
        }
    }
}

/// The record an output serializes to.
pub open spec fn unfold_record(o: OutputV) -> RecordV {
    RecordV {
        type_tag: type_text(o),
        content: content_text(o),
        narsese: narsese_text(o),
        operation: match o {
            OutputV::EXE { operation, .. } => Some(
                Seq::empty().push(operation.operator_name) + operation.params,
            ),
            _ => None,
        },
    }
}

/// The output a record folds back to, or the decode error: an empty
/// operation array lacks its operator, term texts must satisfy the term
/// library, an `EXE` record needs an operation, and an unknown tag folds to
/// an unclassified output.
pub open spec fn fold_record(r: RecordV) -> Result<OutputV, OutputDecodeError> {
    let oper = match r.operation {
        None => Ok(None),
        Some(a) => if a.len() == 0 {
            Err(OutputDecodeError::MissingOperator)
        } else if exists|i: int| 1 <= i < a.len() && !term_ok(a[i]) {
            Err(OutputDecodeError::TermParse)
        } else {
            Ok(Some(OperationV { operator_name: a[0], params: a.skip(1) }))
        },
    };
    match oper {
        Err(e) => Err(e),
        Ok(op) => {
            let nars = match r.narsese {
                None => Ok(None),
                Some(t) => if narsese_ok(t) {
                    Ok(Some(t))
                } else {
                    Err(OutputDecodeError::TermParse)
                },
            };
            match nars {
                Err(e) => Err(e),
                Ok(nar) => {
                    if r.type_tag == "IN"@ {
                        Ok(OutputV::IN { content: r.content, narsese: nar })
                    } else if r.type_tag == "OUT"@ {
                        Ok(OutputV::OUT { content_raw: r.content, narsese: nar })
                    } else if r.type_tag == "ERROR"@ {
                        Ok(OutputV::ERROR { description: r.content })
                    } else if r.type_tag == "ANSWER"@ {
                        Ok(OutputV::ANSWER { content_raw: r.content, narsese: nar })
                    } else if r.type_tag == "ACHIEVED"@ {
                        Ok(OutputV::ACHIEVED { content_raw: r.content, narsese: nar })
                    } else if r.type_tag == "EXE"@ {
                        match op {
                            Some(operation) => Ok(
                                OutputV::EXE { content_raw: r.content, operation },
                            ),
                            None => Err(OutputDecodeError::MissingOperation),
                        }
                    } else if r.type_tag == "INFO"@ {
                        Ok(OutputV::INFO { message: r.content })
                    } else if r.type_tag == "COMMENT"@ {
                        Ok(OutputV::COMMENT { content: r.content })
                    } else if r.type_tag == "TERMINATED"@ {
                        Ok(OutputV::TERMINATED { description: r.content })
                    } else if r.type_tag == "OTHER"@ {
                        Ok(OutputV::OTHER { content: r.content })
                    } else {
                        Ok(
                            OutputV::UNCLASSIFIED {
                                type_tag: r.type_tag,
                                content: r.content,
                                narsese: nar,
                            },
                        )
                    }
                },
            }
        },
    }
}

/// The payloads of an output are accepted by the term library; constructed
/// outputs always satisfy this, by the payload types' invariants.
pub open spec fn o_wf(o: OutputV) -> bool {
    &&& (narsese_text(o) matches Some(t) ==> narsese_ok(t))
    &&& (o matches OutputV::EXE { operation, .. } ==> forall|k: int|
        0 <= k < operation.params.len() ==> term_ok(#[trigger] operation.params[k]))
}

/// Whether an output's tag decodes back to its own variant: every output but
/// an unclassified one that borrowed a fixed tag.
pub open spec fn o_clean(o: OutputV) -> bool {
    o matches OutputV::UNCLASSIFIED { type_tag, .. } ==> !is_fixed_type_tag(type_tag)
}

/// Decoding one output from JSON text.
pub open spec fn dec_output(s: Seq<char>) -> Result<OutputV, OutputDecodeError> {
    match dec_record_text(s) {
        None => Err(OutputDecodeError::Json),
        Some(r) => fold_record(r),
    }
}

/// Folds a sequence of records; the first error wins.
pub open spec fn fold_records(rs: Seq<RecordV>) -> Result<Seq<OutputV>, OutputDecodeError>
    decreases rs.len(),
{
    if rs.len() == 0 {
        Ok(Seq::empty())
    } else {
        match fold_record(rs[0]) {
            Err(e) => Err(e),
            Ok(o) => match fold_records(rs.skip(1)) {
                Err(e) => Err(e),
                Ok(os) => Ok(Seq::empty().push(o) + os),
            },
        }
    }
}

/// Decoding an array of outputs from JSON text.
pub open spec fn dec_outputs(s: Seq<char>) -> Result<Seq<OutputV>, OutputDecodeError> {
    match dec_records_text(s) {
        None => Err(OutputDecodeError::Json),
        Some(rs) => fold_records(rs),
    }
}

/// Folding the record an output unfolds to yields the output back, for
/// well-formed payloads and a clean tag.
#[verifier::rlimit(100)]
#[verifier::spinoff_prover]
proof fn lemma_fold_unfold(o: OutputV)
    requires
        o_wf(o),
        o_clean(o),
    ensures
        fold_record(unfold_record(o)) == Ok::<OutputV, OutputDecodeError>(o),
{
    lemma_type_tags();
    let r = unfold_record(o);
    match o {
        OutputV::EXE { content_raw, operation } => {
            let a = Seq::empty().push(operation.operator_name) + operation.params;
            assert(a.len() >= 1);
            assert(a[0] == operation.operator_name);
            assert(a.skip(1) =~= operation.params);
            assert forall|i: int| 1 <= i < a.len() implies term_ok(a[i]) by {
                assert(a[i] == operation.params[i - 1]);
            }
            assert(OperationV { operator_name: a[0], params: a.skip(1) } =~= operation);
        },
        _ => {},
    }
}


/// The spec-level views of a sequence of borrowed outputs.
pub open spec fn views_of_refs(os: Seq<&Output>) -> Seq<OutputV> {
    Seq::new(os.len(), |i: int| os[i]@)
}

/// The records a sequence of borrowed outputs unfolds to.
pub open spec fn records_of_refs(os: Seq<&Output>) -> Seq<RecordV> {
    Seq::new(os.len(), |i: int| unfold_record(os[i]@))
}

/// Folding the records of well-formed, clean borrowed outputs yields their
/// views.
proof fn lemma_fold_records_of_refs(os: Seq<&Output>)
    requires
        forall|i: int| 0 <= i < os.len() ==> o_wf(#[trigger] os[i]@),
        forall|i: int| 0 <= i < os.len() ==> o_clean(#[trigger] os[i]@),
    ensures
        fold_records(records_of_refs(os)) == Ok::<Seq<OutputV>, OutputDecodeError>(
            views_of_refs(os),
        ),
    decreases os.len(),
{
    let rs = records_of_refs(os);
    if os.len() == 0 {
        assert(rs =~= Seq::<RecordV>::empty());
        assert(views_of_refs(os) =~= Seq::<OutputV>::empty());
    } else {
        lemma_fold_unfold(os[0]@);
        assert(rs[0] == unfold_record(os[0]@));
        assert(rs.skip(1) =~= records_of_refs(os.skip(1)));
        lemma_fold_records_of_refs(os.skip(1));
        assert(views_of_refs(os.skip(1)) =~= views_of_refs(os).skip(1));
        assert(Seq::empty().push(os[0]@) + views_of_refs(os).skip(1) =~= views_of_refs(os));
    }
}

/// Every constructed output sits within [`o_wf`]: the spec-level views of
/// the sequence of outputs, and the records they unfold to.
pub open spec fn views_of(os: Seq<Output>) -> Seq<OutputV> {
    Seq::new(os.len(), |i: int| os[i]@)
}

/// The records a sequence of outputs unfolds to.
pub open spec fn records_of(os: Seq<Output>) -> Seq<RecordV> {
    Seq::new(os.len(), |i: int| unfold_record(os[i]@))
}

/// Folding the records of well-formed, clean outputs yields their views.
proof fn lemma_fold_records_of(os: Seq<Output>)
    requires
        forall|i: int| 0 <= i < os.len() ==> o_wf(#[trigger] os[i]@),
        forall|i: int| 0 <= i < os.len() ==> o_clean(#[trigger] os[i]@),
    ensures
        fold_records(records_of(os)) == Ok::<Seq<OutputV>, OutputDecodeError>(views_of(os)),
    decreases os.len(),
{
    let rs = records_of(os);
    if os.len() == 0 {
        assert(rs =~= Seq::<RecordV>::empty());
        assert(views_of(os) =~= Seq::<OutputV>::empty());
    } else {
        lemma_fold_unfold(os[0]@);
        assert(rs[0] == unfold_record(os[0]@));
        assert(rs.skip(1) =~= records_of(os.skip(1)));
        lemma_fold_records_of(os.skip(1));
        assert(views_of(os.skip(1)) =~= views_of(os).skip(1));
        assert(Seq::empty().push(os[0]@) + views_of(os).skip(1) =~= views_of(os));
    }
}


/// The flattened shape of an encoded record: braces, the two fixed fields,
/// then the optional fields that are present.
pub open spec fn flat_record(r: RecordV) -> Seq<char> {
    seq!['{'] + enc_str("type"@) + seq![':'] + enc_str(r.type_tag) + seq![','] + enc_str(
        "content"@,
    ) + seq![':'] + enc_str(r.content) + (match r.narsese {
        Some(n) => seq![','] + enc_str("narsese"@) + seq![':'] + enc_str(n),
        None => Seq::empty(),
    }) + (match r.operation {
        Some(a) => seq![','] + enc_str("operation"@) + seq![':'] + enc_arr(a),
        None => Seq::empty(),
    }) + seq!['}']
}

/// The encoded record is its flattened shape.
#[verifier::rlimit(100)]
#[verifier::spinoff_prover]
proof fn lemma_enc_record_flat(r: RecordV)
    ensures
        enc_record(r) == flat_record(r),
{
    reveal_with_fuel(enc_members_tail, 5);
    let ms = members_of(r);
    let m_type = MemberV::S("type"@, r.type_tag);
    let m_content = MemberV::S("content"@, r.content);
    assert(ms[0] == m_type);
    assert(ms[1] == m_content);
    match (r.narsese, r.operation) {
        (None, None) => {
            assert(ms.skip(1) =~= seq![m_content]);
            assert(ms.skip(1).skip(1) =~= Seq::<MemberV>::empty());
            assert(enc_members_tail(ms.skip(1)) =~= seq![','] + enc_member(m_content)
                + seq!['}']);
            assert(enc_record(r) =~= flat_record(r));
        },
        (Some(nar), None) => {
            let m_nar = MemberV::S("narsese"@, nar);
            assert(ms.skip(1) =~= seq![m_content, m_nar]);
            assert(ms.skip(1).skip(1) =~= seq![m_nar]);
            assert(ms.skip(1).skip(1).skip(1) =~= Seq::<MemberV>::empty());
            assert(enc_members_tail(ms.skip(1).skip(1)) =~= seq![','] + enc_member(m_nar)
                + seq!['}']);
            assert(enc_members_tail(ms.skip(1)) =~= seq![','] + enc_member(m_content) + (seq![',']
                + enc_member(m_nar) + seq!['}']));
            assert(enc_record(r) =~= flat_record(r));
        },
        (None, Some(op)) => {
            let m_op = MemberV::A("operation"@, op);
            assert(ms.skip(1) =~= seq![m_content, m_op]);
            assert(ms.skip(1).skip(1) =~= seq![m_op]);
            assert(ms.skip(1).skip(1).skip(1) =~= Seq::<MemberV>::empty());
            assert(enc_members_tail(ms.skip(1).skip(1)) =~= seq![','] + enc_member(m_op)
                + seq!['}']);
            assert(enc_members_tail(ms.skip(1)) =~= seq![','] + enc_member(m_content) + (seq![',']
                + enc_member(m_op) + seq!['}']));
            assert(enc_record(r) =~= flat_record(r));
        },
        (Some(nar), Some(op)) => {
            let m_nar = MemberV::S("narsese"@, nar);
            let m_op = MemberV::A("operation"@, op);
            assert(ms.skip(1) =~= seq![m_content, m_nar, m_op]);
            assert(ms.skip(1).skip(1) =~= seq![m_nar, m_op]);
            assert(ms.skip(1).skip(1).skip(1) =~= seq![m_op]);
            assert(ms.skip(1).skip(1).skip(1).skip(1) =~= Seq::<MemberV>::empty());
            assert(enc_members_tail(ms.skip(1).skip(1).skip(1)) =~= seq![','] + enc_member(m_op)
                + seq!['}']);
            assert(enc_members_tail(ms.skip(1).skip(1)) =~= seq![','] + enc_member(m_nar) + (seq![
                ','
            ] + enc_member(m_op) + seq!['}']));
            assert(enc_members_tail(ms.skip(1)) =~= seq![','] + enc_member(m_content) + (seq![',']
                + enc_member(m_nar) + (seq![','] + enc_member(m_op) + seq!['}'])));
            assert(enc_record(r) =~= flat_record(r));
        },
    }
}

/// The lowercase hex digit character, in exec code.
fn hex_digit_char(d: u32) -> (r: char)
    requires
        d < 16,
    ensures
        r == hex_char(d as int),
{
    if d < 10 {
        digit_to_char(d as usize)
    } else if d == 10 {
        'a'
    } else if d == 11 {
        'b'
    } else if d == 12 {
        'c'
    } else if d == 13 {
        'd'
    } else if d == 14 {
        'e'
    } else {
        'f'
    }
}

/// Appends the escape of one character.
fn push_esc_char(out: &mut Vec<char>, c: char)
    ensures
        final(out)@ == old(out)@ + esc_char(c),
{
    if c == '"' {
        out.push('\\');
        out.push('"');
        assert(final(out)@ =~= old(out)@ + esc_char(c));
    } else if c == '\\' {
        out.push('\\');
        out.push('\\');
        assert(final(out)@ =~= old(out)@ + esc_char(c));
    } else if c == '\u{8}' {
        out.push('\\');
        out.push('b');
        assert(final(out)@ =~= old(out)@ + esc_char(c));
    } else if c == '\t' {
        out.push('\\');
        out.push('t');
        assert(final(out)@ =~= old(out)@ + esc_char(c));
    } else if c == '\n' {
        out.push('\\');
        out.push('n');
        assert(final(out)@ =~= old(out)@ + esc_char(c));
    } else if c == '\u{c}' {
        out.push('\\');
        out.push('f');
        assert(final(out)@ =~= old(out)@ + esc_char(c));
    } else if c == '\r' {
        out.push('\\');
        out.push('r');
        assert(final(out)@ =~= old(out)@ + esc_char(c));
    } else {
        let u = char_code(c);
        if u < 32 {
            out.push('\\');
            out.push('u');
            out.push('0');
            out.push('0');
            out.push(hex_digit_char(u / 16));
            out.push(hex_digit_char(u % 16));
            proof {
                assert(u == c as u32);
                assert((u / 16) as int == (c as u32) as int / 16);
                assert((u % 16) as int == (c as u32) as int % 16);
                assert(final(out)@ =~= old(out)@ + esc_char(c));
            }
        } else {
            out.push(c);
            proof {
                assert(c as u32 >= 32);
                assert(final(out)@ =~= old(out)@ + esc_char(c));
            }
        }
    }
}

/// Escaping one more character extends the escaped text.
proof fn lemma_esc_snoc(t: Seq<char>, c: char)
    ensures
        esc(t.push(c)) == esc(t) + esc_char(c),
    decreases t.len(),
{
    if t.len() == 0 {
        assert(t.push(c)[0] == c);
        assert(t.push(c).skip(1) =~= Seq::<char>::empty());
        assert(esc(Seq::<char>::empty()) == Seq::<char>::empty());
        assert(esc(t.push(c)) == esc_char(c) + esc(Seq::<char>::empty()));
        assert(esc(t.push(c)) =~= esc(t) + esc_char(c));
    } else {
        assert(t.push(c)[0] == t[0]);
        assert(t.push(c).skip(1) =~= t.skip(1).push(c));
        lemma_esc_snoc(t.skip(1), c);
        assert(esc(t.push(c)) =~= esc(t) + esc_char(c));
    }
}

/// Appends the escaped text of a string.
fn push_esc(out: &mut Vec<char>, s: &str)
    ensures
        final(out)@ == old(out)@ + esc(s@),
{
    let n = s.unicode_len();
    let mut i: usize = 0;
    proof {
        assert(s@.take(0) =~= Seq::<char>::empty());
    }
    while i < n
        invariant
            n == s@.len(),
            0 <= i <= n,
            out@ == old(out)@ + esc(s@.take(i as int)),
        decreases n - i,
    {
        let c = s.get_char(i);
        push_esc_char(out, c);
        proof {
            assert(s@.take(i + 1) =~= s@.take(i as int).push(s@[i as int]));
            lemma_esc_snoc(s@.take(i as int), s@[i as int]);
            assert(old(out)@ + esc(s@.take(i as int)) + esc_char(c) =~= old(out)@ + esc(
                s@.take(i + 1),
            ));
        }
        i = i + 1;
    }
    proof {
        assert(s@.take(n as int) =~= s@);
    }
}

/// Appends an encoded string literal.
fn push_enc_str(out: &mut Vec<char>, s: &str)
    ensures
        final(out)@ == old(out)@ + enc_str(s@),
{
    out.push('"');
    push_esc(out, s);
    out.push('"');
    assert(final(out)@ =~= old(out)@ + enc_str(s@));
}

/// Appends an encoded string array.
fn push_enc_arr(out: &mut Vec<char>, a: &Vec<String>)
    ensures
        final(out)@ == old(out)@ + enc_arr(a.deep_view()),
{
    let ghost av = a.deep_view();
    if a.len() == 0 {
        out.push('[');
        out.push(']');
        proof {
            assert(av.len() == 0);
            assert(final(out)@ =~= old(out)@ + enc_arr(av));
        }
        return ;
    }
    out.push('[');
    push_enc_str(out, a[0].as_str());
    let mut i: usize = 1;
    while i < a.len()
        invariant
            av == a.deep_view(),
            av.len() == a@.len(),
            1 <= i <= a@.len(),
            out@ + enc_arr_tail(av.skip(i as int)) == old(out)@ + enc_arr(av),
        decreases a@.len() - i,
    {
        out.push(',');
        push_enc_str(out, a[i].as_str());
        proof {
            assert(av.skip(i as int)[0] == av[i as int]);
            assert(av.skip(i as int).skip(1) =~= av.skip(i + 1));
            assert(av[i as int] == a@[i as int]@);
            assert(out@ + enc_arr_tail(av.skip(i + 1)) =~= old(out)@ + enc_arr(av));
        }
        i = i + 1;
    }
    out.push(']');
    proof {
        assert(av.skip(a@.len() as int) =~= Seq::<Seq<char>>::empty());
        assert(final(out)@ =~= old(out)@ + enc_arr(av));
    }
}

/// Appends an encoded record.
#[verifier::rlimit(100)]
fn push_enc_record(out: &mut Vec<char>, j: &OutputJSON)
    ensures
        final(out)@ == old(out)@ + enc_record(j@),
{
    out.push('{');
    push_enc_str(out, "type");
    out.push(':');
    push_enc_str(out, j.type_tag.as_str());
    out.push(',');
    push_enc_str(out, "content");
    out.push(':');
    push_enc_str(out, j.content.as_str());
    match &j.narsese {
        Some(n) => {
            out.push(',');
            push_enc_str(out, "narsese");
            out.push(':');
            push_enc_str(out, n.as_str());
        },
        None => {},
    }
    match &j.operation {
        Some(a) => {
            out.push(',');
            push_enc_str(out, "operation");
            out.push(':');
            push_enc_arr(out, a);
        },
        None => {},
    }
    out.push('}');
    proof {
        lemma_enc_record_flat(j@);
        assert(final(out)@ =~= old(out)@ + flat_record(j@));
    }
}


/// Exec check for [`is_json_ws`].
fn json_ws(c: char) -> (r: bool)
    ensures
        r == is_json_ws(c),
{
    c == ' ' || c == '\t' || c == '\n' || c == '\r'
}

/// Skips insignificant whitespace.
fn ex_skip_ws(v: &Vec<char>, i: usize) -> (r: usize)
    requires
        i <= v@.len(),
    ensures
        r == skip_ws(v@, i as int),
        i <= r <= v@.len(),
{
    let mut j: usize = i;
    while j < v.len() && json_ws(v[j])
        invariant
            i <= j <= v@.len(),
            skip_ws(v@, i as int) == skip_ws(v@, j as int),
        decreases v@.len() - j,
    {
        j = j + 1;
    }
    j
}

/// The value of a hex digit character, in exec code.
fn hex_digit(c: char) -> (r: Option<u32>)
    ensures
        r matches Some(x) ==> hex_val(c) == x && x < 16,
        r is None <==> !is_hex(c),
{
    if '0' <= c && c <= '9' {
        Some(char_code(c) - 48)
    } else if 'a' <= c && c <= 'f' {
        Some(char_code(c) - 87)
    } else if 'A' <= c && c <= 'F' {
        Some(char_code(c) - 55)
    } else {
        None
    }
}

/// Relies on `char::from_u32` of std: `Some` exactly for unicode scalar
/// values, yielding the character with that code.
#[verifier::external_body]
fn char_from_u32(x: u32) -> (r: Option<char>)
    ensures
        r matches Some(c) ==> c as u32 == x,
        r is None <==> ((0xD800 <= x && x < 0xE000) || x > 0x10FFFF),
{
    char::from_u32(x)
}

/// Scans one unit of a string body that is not the closing quote: a plain
/// character or one escape; yields the decoded character and the next
/// position.
#[verifier::rlimit(100)]
#[verifier::spinoff_prover]
fn ex_scan_unit(v: &Vec<char>, i: usize) -> (r: Option<(char, usize)>)
    requires
        i < v@.len(),
        v@[i as int] != '"',
    ensures
        r matches Some(p) ==> scan_str(v@, i as int) == scan_str_push(
            p.0,
            scan_str(v@, p.1 as int),
        ) && i < p.1 <= v@.len(),
        r is None ==> scan_str(v@, i as int) is None,
{
    proof {
        reveal(scan_str);
    }
    let ghost s = v@;
    let n = v.len();
    let c = v[i];
    if c != '\\' {
        if char_code(c) < 32 {
            return None;
        }
        return Some((c, i + 1));
    }
    if i + 1 >= n {
        return None;
    }
    let e = v[i + 1];
    if e == '"' || e == '\\' || e == '/' {
        return Some((e, i + 2));
    }
    if e == 'b' {
        return Some(('\u{8}', i + 2));
    }
    if e == 'f' {
        return Some(('\u{c}', i + 2));
    }
    if e == 'n' {
        return Some(('\n', i + 2));
    }
    if e == 'r' {
        return Some(('\r', i + 2));
    }
    if e == 't' {
        return Some(('\t', i + 2));
    }
    if e != 'u' {
        return None;
    }
    if n - i < 6 {
        return None;
    }
    let h0 = hex_digit(v[i + 2]);
    let h1 = hex_digit(v[i + 3]);
    let h2 = hex_digit(v[i + 4]);
    let h3 = hex_digit(v[i + 5]);
    if h0.is_none() || h1.is_none() || h2.is_none() || h3.is_none() {
        return None;
    }
    let code: u32 = h0.unwrap() * 4096 + h1.unwrap() * 256 + h2.unwrap() * 16 + h3.unwrap();
    if 0xD800 <= code && code < 0xDC00 {
        if n - i < 12 {
            return None;
        }
        if v[i + 6] != '\\' || v[i + 7] != 'u' {
            return None;
        }
        let g0 = hex_digit(v[i + 8]);
        let g1 = hex_digit(v[i + 9]);
        let g2 = hex_digit(v[i + 10]);
        let g3 = hex_digit(v[i + 11]);
        if g0.is_none() || g1.is_none() || g2.is_none() || g3.is_none() {
            return None;
        }
        let code2: u32 = g0.unwrap() * 4096 + g1.unwrap() * 256 + g2.unwrap() * 16 + g3.unwrap();
        if !(0xDC00 <= code2 && code2 < 0xE000) {
            return None;
        }
        let full: u32 = 0x10000 + (code - 0xD800) * 1024 + (code2 - 0xDC00);
        match char_from_u32(full) {
            Some(ch) => {
                proof {
                    vstd::utf8::char_u32_cast(ch, full);
                }
                Some((ch, i + 12))
            },
            None => {
                proof {
                    assert(false);
                }
                None
            },
        }
    } else if 0xDC00 <= code && code < 0xE000 {
        return None;
    } else {
        match char_from_u32(code) {
            Some(ch) => {
                proof {
                    vstd::utf8::char_u32_cast(ch, code);
                }
                Some((ch, i + 6))
            },
            None => {
                proof {
                    assert(false);
                }
                None
            },
        }
    }
}

/// Scans a JSON string literal body from just after its opening quote.
fn ex_scan_str(v: &Vec<char>, start: usize) -> (r: Option<(String, usize)>)
    requires
        start <= v@.len(),
    ensures
        r matches Some(p) ==> scan_str(v@, start as int) == Some((p.0@, p.1 as int)) && start < p.1
            <= v@.len(),
        r is None ==> scan_str(v@, start as int) is None,
{
    let ghost s = v@;
    let mut acc: Vec<char> = Vec::new();
    let mut i: usize = start;
    proof {
        assert(acc@ =~= Seq::<char>::empty());
    }
    loop
        invariant
            start <= i <= s.len(),
            s == v@,
            (match scan_str(s, i as int) {
                Some((t, e)) => scan_str(s, start as int) == Some((acc@ + t, e)),
                None => scan_str(s, start as int) is None,
            }),
        decreases s.len() - i,
    {
        proof {
            reveal(scan_str);
        }
        if i >= v.len() {
            return None;
        }
        let c = v[i];
        if c == '"' {
            let t = chars_to_string(&acc, 0, acc.len());
            proof {
                assert(acc@.subrange(0, acc@.len() as int) =~= acc@);
                assert(acc@ + Seq::<char>::empty() =~= acc@);
            }
            return Some((t, i + 1));
        }
        let unit = match ex_scan_unit(v, i) {
            Some(p) => p,
            None => {
                return None;
            },
        };
        let ghost old_acc = acc@;
        acc.push(unit.0);
        proof {
            match scan_str(s, unit.1 as int) {
                Some((t, en)) => {
                    assert(old_acc + (seq![unit.0] + t) =~= acc@ + t);
                },
                None => {},
            }
        }
        i = unit.1;
    }
}

/// Scans a string value: optional whitespace, then a string literal.
fn ex_scan_string(v: &Vec<char>, i: usize) -> (r: Option<(String, usize)>)
    requires
        i <= v@.len(),
    ensures
        r matches Some(p) ==> scan_string(v@, i as int) == Some((p.0@, p.1 as int)) && i < p.1
            <= v@.len(),
        r is None ==> scan_string(v@, i as int) is None,
{
    let j = ex_skip_ws(v, i);
    if j < v.len() && v[j] == '"' {
        ex_scan_str(v, j + 1)
    } else {
        None
    }
}

/// Scans a string array.
#[verifier::rlimit(100)]
fn ex_scan_array(v: &Vec<char>, i: usize) -> (r: Option<(Vec<String>, usize)>)
    requires
        i <= v@.len(),
    ensures
        r matches Some(p) ==> scan_array(v@, i as int) == Some((p.0.deep_view(), p.1 as int))
            && i < p.1 <= v@.len(),
        r is None ==> scan_array(v@, i as int) is None,
{
    let ghost s = v@;
    let j = ex_skip_ws(v, i);
    if !(j < v.len()) {
        return None;
    }
    if v[j] != '[' {
        return None;
    }
    let k = ex_skip_ws(v, j + 1);
    if k < v.len() && v[k] == ']' {
        let items: Vec<String> = Vec::new();
        proof {
            assert(items.deep_view() =~= Seq::<Seq<char>>::empty());
        }
        return Some((items, k + 1));
    }
    let first = match ex_scan_string(v, j + 1) {
        Some(p) => p,
        None => {
            return None;
        },
    };
    let mut items: Vec<String> = Vec::new();
    let ghost t0 = first.0@;
    items.push(first.0);
    let mut cur: usize = first.1;
    proof {
        assert(items.deep_view() =~= Seq::<Seq<char>>::empty().push(t0));
    }
    loop
        invariant
            s == v@,
            i < cur <= s.len(),
            (match scan_arr_rest(s, cur as int) {
                Some((ts, e)) => scan_array(s, i as int) == Some((items.deep_view() + ts, e)),
                None => scan_array(s, i as int) is None,
            }),
        decreases s.len() - cur,
    {
        let w = ex_skip_ws(v, cur);
        if !(w < v.len()) {
            return None;
        }
        if v[w] == ']' {
            proof {
                assert(items.deep_view() + Seq::<Seq<char>>::empty() =~= items.deep_view());
            }
            return Some((items, w + 1));
        }
        if v[w] != ',' {
            return None;
        }
        let nxt = match ex_scan_string(v, w + 1) {
            Some(p) => p,
            None => {
                return None;
            },
        };
        let ghost old_items = items.deep_view();
        let ghost tn = nxt.0@;
        items.push(nxt.0);
        proof {
            assert(items.deep_view() =~= old_items.push(tn));
            match scan_arr_rest(s, nxt.1 as int) {
                Some((ts, e)) => {
                    assert(old_items + (Seq::<Seq<char>>::empty().push(tn) + ts) =~= items.deep_view()
                        + ts);
                },
                None => {},
            }
        }
        cur = nxt.1;
    }
}

/// The four optional fields of a record, gathered while scanning.
struct JsonAcc {
    type_tag: Option<String>,
    content: Option<String>,
    narsese: Option<String>,
    operation: Option<Vec<String>>,
}

impl View for JsonAcc {
    type V = RecAcc;

    closed spec fn view(&self) -> RecAcc {
        RecAcc {
            type_tag: match self.type_tag {
                Some(ref t) => Some(t@),
                None => None,
            },
            content: match self.content {
                Some(ref t) => Some(t@),
                None => None,
            },
            narsese: match self.narsese {
                Some(ref t) => Some(t@),
                None => None,
            },
            operation: match self.operation {
                Some(ref a) => Some(a.deep_view()),
                None => None,
            },
        }
    }
}


/// Exec check for [`is_number_char`].
fn number_char(c: char) -> (r: bool)
    ensures
        r == is_number_char(c),
{
    ('0' <= c && c <= '9') || c == '-' || c == '+' || c == '.' || c == 'e' || c == 'E'
}

/// Exec scan for [`number_end`].
fn ex_number_end(v: &Vec<char>, i: usize) -> (r: usize)
    requires
        i <= v@.len(),
    ensures
        r == number_end(v@, i as int),
        i <= r <= v@.len(),
{
    let mut j: usize = i;
    while j < v.len() && number_char(v[j])
        invariant
            i <= j <= v@.len(),
            number_end(v@, i as int) == number_end(v@, j as int),
        decreases v@.len() - j,
    {
        j = j + 1;
    }
    j
}

/// The number run never moves backward.
proof fn lemma_number_end_lb(s: Seq<char>, i: int)
    requires
        0 <= i,
    ensures
        number_end(s, i) >= i,
    decreases s.len() - i,
{
    if 0 <= i < s.len() && is_number_char(s[i]) {
        lemma_number_end_lb(s, i + 1);
    }
}

/// Exec check for [`is_null_at`].
fn ex_is_null_at(v: &Vec<char>, j: usize) -> (r: bool)
    ensures
        r == is_null_at(v@, j as int),
{
    v.len() >= 4 && j <= v.len() - 4 && v[j] == 'n' && v[j + 1] == 'u' && v[j + 2] == 'l'
        && v[j + 3] == 'l'
}

/// Skips one ignored JSON value.
#[verifier::rlimit(100)]
fn ex_skip_value(v: &Vec<char>, i: usize) -> (r: Option<usize>)
    requires
        i <= v@.len(),
    ensures
        r matches Some(e) ==> skip_value(v@, i as int) == Some(e as int) && i < e <= v@.len(),
        r is None ==> skip_value(v@, i as int) is None,
    decreases v@.len() - i, 2int,
{
    let j = ex_skip_ws(v, i);
    if j >= v.len() {
        return None;
    }
    let c = v[j];
    if c == '"' {
        match ex_scan_str(v, j + 1) {
            Some(p) => Some(p.1),
            None => None,
        }
    } else if ex_is_null_at(v, j) {
        Some(j + 4)
    } else if v.len() >= 4 && j <= v.len() - 4 && c == 't' && v[j + 1] == 'r' && v[j + 2] == 'u'
        && v[j + 3] == 'e' {
        Some(j + 4)
    } else if v.len() >= 5 && j <= v.len() - 5 && c == 'f' && v[j + 1] == 'a' && v[j + 2] == 'l'
        && v[j + 3] == 's' && v[j + 4] == 'e' {
        Some(j + 5)
    } else if c == '[' {
        let k = ex_skip_ws(v, j + 1);
        if k < v.len() && v[k] == ']' {
            return Some(k + 1);
        }
        match ex_skip_value(v, j + 1) {
            None => None,
            Some(m) => ex_skip_arr_items(v, m),
        }
    } else if c == '{' {
        let k = ex_skip_ws(v, j + 1);
        if k < v.len() && v[k] == '}' {
            return Some(k + 1);
        }
        match ex_skip_obj_member(v, j + 1) {
            None => None,
            Some(m) => ex_skip_obj_items(v, m),
        }
    } else if number_char(c) {
        let e = ex_number_end(v, j);
        proof {
            assert(number_end(v@, j as int) == number_end(v@, j + 1));
            lemma_number_end_lb(v@, j + 1);
        }
        Some(e)
    } else {
        None
    }
}

/// Skips one `"key": value` member of an ignored object.
fn ex_skip_obj_member(v: &Vec<char>, i: usize) -> (r: Option<usize>)
    requires
        i <= v@.len(),
    ensures
        r matches Some(e) ==> skip_obj_member(v@, i as int) == Some(e as int) && i < e
            <= v@.len(),
        r is None ==> skip_obj_member(v@, i as int) is None,
    decreases v@.len() - i, 3int,
{
    let key = match ex_scan_string(v, i) {
        Some(p) => p,
        None => {
            return None;
        },
    };
    let k = ex_skip_ws(v, key.1);
    if !(k < v.len()) {
        return None;
    }
    if v[k] != ':' {
        return None;
    }
    ex_skip_value(v, k + 1)
}

/// Continues an ignored array after one element.
fn ex_skip_arr_items(v: &Vec<char>, i: usize) -> (r: Option<usize>)
    requires
        i <= v@.len(),
    ensures
        r matches Some(e) ==> skip_arr_items(v@, i as int) == Some(e as int) && i < e <= v@.len(),
        r is None ==> skip_arr_items(v@, i as int) is None,
    decreases v@.len() - i, 1int,
{
    let j = ex_skip_ws(v, i);
    if !(j < v.len()) {
        return None;
    }
    if v[j] == ']' {
        return Some(j + 1);
    }
    if v[j] != ',' {
        return None;
    }
    match ex_skip_value(v, j + 1) {
        None => None,
        Some(m) => ex_skip_arr_items(v, m),
    }
}

/// Continues an ignored object after one member.
fn ex_skip_obj_items(v: &Vec<char>, i: usize) -> (r: Option<usize>)
    requires
        i <= v@.len(),
    ensures
        r matches Some(e) ==> skip_obj_items(v@, i as int) == Some(e as int) && i < e <= v@.len(),
        r is None ==> skip_obj_items(v@, i as int) is None,
    decreases v@.len() - i, 1int,
{
    let j = ex_skip_ws(v, i);
    if !(j < v.len()) {
        return None;
    }
    if v[j] == '}' {
        return Some(j + 1);
    }
    if v[j] != ',' {
        return None;
    }
    match ex_skip_obj_member(v, j + 1) {
        None => None,
        Some(m) => ex_skip_obj_items(v, m),
    }
}

/// Scans one `"key": value` member into the accumulator.
#[verifier::rlimit(100)]
fn ex_scan_member(v: &Vec<char>, i: usize, acc: JsonAcc) -> (r: Option<(JsonAcc, usize)>)
    requires
        i <= v@.len(),
    ensures
        r matches Some(p) ==> scan_member(v@, i as int, acc@) == Some((p.0@, p.1 as int)) && i
            < p.1 <= v@.len(),
        r is None ==> scan_member(v@, i as int, acc@) is None,
{
    proof {
        reveal(scan_member);
    }
    let key = match ex_scan_string(v, i) {
        Some(p) => p,
        None => {
            return None;
        },
    };
    let k2 = ex_skip_ws(v, key.1);
    if !(k2 < v.len()) {
        return None;
    }
    if v[k2] != ':' {
        return None;
    }
    let is_type = str_eq(key.0.as_str(), "type");
    let is_content = str_eq(key.0.as_str(), "content");
    if is_type || is_content {
        let val = match ex_scan_string(v, k2 + 1) {
            Some(p) => p,
            None => {
                return None;
            },
        };
        if is_type {
            if acc.type_tag.is_some() {
                return None;
            }
            let acc2 = JsonAcc { type_tag: Some(val.0), ..acc };
            return Some((acc2, val.1));
        } else {
            if acc.content.is_some() {
                return None;
            }
            let acc2 = JsonAcc { content: Some(val.0), ..acc };
            return Some((acc2, val.1));
        }
    } else if str_eq(key.0.as_str(), "narsese") {
        let w = ex_skip_ws(v, k2 + 1);
        if ex_is_null_at(v, w) {
            return Some((acc, w + 4));
        }
        let val = match ex_scan_string(v, k2 + 1) {
            Some(p) => p,
            None => {
                return None;
            },
        };
        if acc.narsese.is_some() {
            return None;
        }
        let acc2 = JsonAcc { narsese: Some(val.0), ..acc };
        return Some((acc2, val.1));
    } else if str_eq(key.0.as_str(), "operation") {
        let w = ex_skip_ws(v, k2 + 1);
        if ex_is_null_at(v, w) {
            return Some((acc, w + 4));
        }
        if acc.operation.is_some() {
            return None;
        }
        let arr = match ex_scan_array(v, k2 + 1) {
            Some(p) => p,
            None => {
                return None;
            },
        };
        let acc2 = JsonAcc { operation: Some(arr.0), ..acc };
        return Some((acc2, arr.1));
    } else {
        match ex_skip_value(v, k2 + 1) {
            Some(m) => {
                return Some((acc, m));
            },
            None => {
                return None;
            },
        }
    }
}

/// Scans the members of a record object, starting after its opening brace.
fn ex_scan_members(v: &Vec<char>, i: usize) -> (r: Option<(JsonAcc, usize)>)
    requires
        i <= v@.len(),
    ensures
        r matches Some(p) ==> scan_members(v@, i as int, empty_acc()) == Some((p.0@, p.1 as int))
            && i < p.1 <= v@.len(),
        r is None ==> scan_members(v@, i as int, empty_acc()) is None,
{
    let ghost s = v@;
    let mut acc = JsonAcc { type_tag: None, content: None, narsese: None, operation: None };
    proof {
        assert(acc@ == empty_acc());
    }
    let mut cur: usize = i;
    loop
        invariant
            s == v@,
            i <= cur <= s.len(),
            (match scan_members(s, cur as int, acc@) {
                Some(p2) => scan_members(s, i as int, empty_acc()) == Some(p2),
                None => scan_members(s, i as int, empty_acc()) is None,
            }),
        decreases s.len() - cur,
    {
        let step = match ex_scan_member(v, cur, acc) {
            Some(p) => p,
            None => {
                return None;
            },
        };
        acc = step.0;
        let w = ex_skip_ws(v, step.1);
        if !(w < v.len()) {
            return None;
        }
        if v[w] == '}' {
            return Some((acc, w + 1));
        }
        if v[w] != ',' {
            return None;
        }
        cur = w + 1;
    }
}

/// Scans a whole record object.
fn ex_scan_record(v: &Vec<char>, i: usize) -> (r: Option<(OutputJSON, usize)>)
    requires
        i <= v@.len(),
    ensures
        r matches Some(p) ==> scan_record(v@, i as int) == Some((p.0@, p.1 as int)) && i < p.1
            <= v@.len(),
        r is None ==> scan_record(v@, i as int) is None,
{
    let j = ex_skip_ws(v, i);
    if !(j < v.len()) {
        return None;
    }
    if v[j] != '{' {
        return None;
    }
    let mem = match ex_scan_members(v, j + 1) {
        Some(p) => p,
        None => {
            return None;
        },
    };
    let e = mem.1;
    let JsonAcc { type_tag, content, narsese, operation } = mem.0;
    match (type_tag, content) {
        (Some(t), Some(c)) => Some(
            (OutputJSON { type_tag: t, content: c, narsese, operation }, e),
        ),
        _ => None,
    }
}

/// Scans a top-level array of records.
#[verifier::rlimit(100)]
fn ex_scan_recs(v: &Vec<char>, i: usize) -> (r: Option<(Vec<OutputJSON>, usize)>)
    requires
        i <= v@.len(),
    ensures
        r matches Some(p) ==> scan_recs(v@, i as int) == Some((p.0.deep_view(), p.1 as int))
            && p.1 <= v@.len(),
        r is None ==> scan_recs(v@, i as int) is None,
{
    let ghost s = v@;
    let j = ex_skip_ws(v, i);
    if !(j < v.len()) {
        return None;
    }
    if v[j] != '[' {
        return None;
    }
    let k = ex_skip_ws(v, j + 1);
    if k < v.len() && v[k] == ']' {
        let items: Vec<OutputJSON> = Vec::new();
        proof {
            assert(items.deep_view() =~= Seq::<RecordV>::empty());
        }
        return Some((items, k + 1));
    }
    let first = match ex_scan_record(v, j + 1) {
        Some(p) => p,
        None => {
            return None;
        },
    };
    let mut items: Vec<OutputJSON> = Vec::new();
    let ghost r0 = first.0@;
    items.push(first.0);
    let mut cur: usize = first.1;
    proof {
        assert(items.deep_view() =~= Seq::<RecordV>::empty().push(r0));
    }
    loop
        invariant
            s == v@,
            i < cur <= s.len(),
            (match scan_rec_rest(s, cur as int) {
                Some((rs, e)) => scan_recs(s, i as int) == Some((items.deep_view() + rs, e)),
                None => scan_recs(s, i as int) is None,
            }),
        decreases s.len() - cur,
    {
        let w = ex_skip_ws(v, cur);
        if !(w < v.len()) {
            return None;
        }
        if v[w] == ']' {
            proof {
                assert(items.deep_view() + Seq::<RecordV>::empty() =~= items.deep_view());
            }
            return Some((items, w + 1));
        }
        if v[w] != ',' {
            return None;
        }
        let nxt = match ex_scan_record(v, w + 1) {
            Some(p) => p,
            None => {
                return None;
            },
        };
        let ghost old_items = items.deep_view();
        let ghost rn = nxt.0@;
        items.push(nxt.0);
        proof {
            assert(items.deep_view() =~= old_items.push(rn));
            match scan_rec_rest(s, nxt.1 as int) {
                Some((rs, e)) => {
                    assert(old_items + (Seq::<RecordV>::empty().push(rn) + rs) =~= items.deep_view()
                        + rs);
                },
                None => {},
            }
        }
        cur = nxt.1;
    }
}

impl DeepView for OutputJSON {
    type V = RecordV;

    open spec fn deep_view(&self) -> RecordV {
        self.view()
    }
}

impl OutputJSON {
    /// Writes the record as canonical JSON text, without extra whitespace.
    pub fn to_json_string(&self) -> (r: String)
        ensures
            r@ == enc_record(self@),
    {
        let mut buf: Vec<char> = Vec::new();
        push_enc_record(&mut buf, self);
        proof {
            assert(Seq::<char>::empty() + enc_record(self@) =~= enc_record(self@));
            assert(buf@.subrange(0, buf@.len() as int) =~= buf@);
        }
        chars_to_string(&buf, 0, buf.len())
    }

    /// Reads one record from JSON text; whitespace and any field order are
    /// accepted, and only trailing whitespace may follow.
    pub fn try_from_json_string(s: &str) -> (r: Result<OutputJSON, OutputDecodeError>)
        ensures
            r matches Ok(j) ==> dec_record_text(s@) == Some(j@),
            r matches Err(e) ==> dec_record_text(s@) is None && e == OutputDecodeError::Json,
    {
        let v = str_to_chars(s);
        match ex_scan_record(&v, 0) {
            Some(p) => {
                let tail = ex_skip_ws(&v, p.1);
                if tail == v.len() {
                    Ok(p.0)
                } else {
                    Err(OutputDecodeError::Json)
                }
            },
            None => Err(OutputDecodeError::Json),
        }
    }
}


impl Output {
    /// Serializes the output to its flat record. Every constructed output
    /// has well-formed payloads, which this also reports.
    #[verifier::rlimit(100)]
    pub fn to_json_struct(&self) -> (r: OutputJSON)
        ensures
            r@ == unfold_record(self@),
            o_wf(self@),
    {
        let type_tag = self.type_tag().to_owned();
        let content = self.raw_content().to_owned();
        let narsese: Option<String> = match self.get_narsese() {
            Some(t) => {
                proof {
                    use_type_invariant(t);
                }
                Some(t.text().to_owned())
            },
            None => None,
        };
        let operation: Option<Vec<String>> = match self {
            Output::EXE { operation, .. } => {
                let mut a: Vec<String> = Vec::new();
                a.push(operation.operator_name.clone());
                proof {
                    assert(a.deep_view() =~= Seq::<Seq<char>>::empty().push(
                        operation.operator_name@,
                    ));
                }
                let mut i: usize = 0;
                while i < operation.params.len()
                    invariant
                        0 <= i <= operation.params@.len(),
                        a.deep_view() =~= Seq::empty().push(operation.operator_name@)
                            + operation.params.deep_view().take(i as int),
                        forall|k: int|
                            0 <= k < i ==> term_ok(#[trigger] operation.params.deep_view()[k]),
                    decreases operation.params@.len() - i,
                {
                    let p = &operation.params[i];
                    proof {
                        use_type_invariant(p);
                    }
                    let ghost old_a = a.deep_view();
                    a.push(p.text().to_owned());
                    proof {
                        assert(a.deep_view() =~= old_a.push(operation.params.deep_view()[i as int]));
                        assert(a.deep_view() =~= Seq::empty().push(operation.operator_name@)
                            + operation.params.deep_view().take(i + 1));
                    }
                    i = i + 1;
                }
                proof {
                    assert(operation.params.deep_view().take(operation.params@.len() as int)
                        =~= operation.params.deep_view());
                }
                Some(a)
            },
            _ => None,
        };
        let r = OutputJSON { type_tag, content, narsese, operation };
        proof {
            assert(r@.type_tag =~= type_text(self@));
            assert(r@.content =~= content_text(self@));
        }
        r
    }

    /// Folds a flat record back into an output: the operation is read first
    /// (an empty array lacks its operator), narsese text is revalidated, and
    /// the type tag picks the variant, unknown tags landing in
    /// [`Output::UNCLASSIFIED`].
    #[verifier::rlimit(100)]
    pub fn try_from_json_struct(json: OutputJSON) -> (r: Result<Output, OutputDecodeError>)
        ensures
            r matches Ok(o) ==> fold_record(json@) == Ok::<OutputV, OutputDecodeError>(o@),
            r matches Err(e) ==> fold_record(json@) == Err::<OutputV, OutputDecodeError>(e),
    {
        let operation: Option<Operation> = match &json.operation {
            Some(a) => {
                if a.len() == 0 {
                    return Err(OutputDecodeError::MissingOperator);
                }
                let mut rest: Vec<String> = Vec::new();
                let mut i: usize = 1;
                while i < a.len()
                    invariant
                        1 <= i <= a@.len(),
                        rest.deep_view() =~= a.deep_view().subrange(1, i as int),
                    decreases a@.len() - i,
                {
                    let ghost old_rest = rest.deep_view();
                    rest.push(a[i].clone());
                    proof {
                        assert(rest.deep_view() =~= old_rest.push(a.deep_view()[i as int]));
                        assert(rest.deep_view() =~= a.deep_view().subrange(1, i + 1));
                    }
                    i = i + 1;
                }
                proof {
                    assert(rest.deep_view() =~= a.deep_view().skip(1));
                }
                match Operation::try_from_strings(a[0].as_str(), &rest) {
                    Ok(op) => {
                        proof {
                            assert forall|k: int|
                                1 <= k < a.deep_view().len() implies term_ok(
                                #[trigger] a.deep_view()[k],
                            ) by {
                                assert(rest.deep_view()[k - 1] == a.deep_view()[k]);
                            }
                            assert(op@ =~= (OperationV {
                                operator_name: a.deep_view()[0],
                                params: a.deep_view().skip(1),
                            }));
                        }
                        Some(op)
                    },
                    Err(_) => {
                        proof {
                            let bad = choose|k: int|
                                0 <= k < rest.deep_view().len() && !term_ok(rest.deep_view()[k]);
                            assert(a.deep_view()[bad + 1] == rest.deep_view()[bad]);
                            assert(1 <= bad + 1 < a.deep_view().len() && !term_ok(
                                a.deep_view()[bad + 1],
                            ));
                        }
                        return Err(OutputDecodeError::TermParse);
                    },
                }
            },
            None => None,
        };
        let nars: Option<NarseseText> = match &json.narsese {
            Some(t) => match NarseseText::parse(t.as_str()) {
                Some(x) => Some(x),
                None => {
                    return Err(OutputDecodeError::TermParse);
                },
            },
            None => None,
        };
        let OutputJSON { type_tag, content, .. } = json;
        if str_eq(type_tag.as_str(), "IN") {
            Ok(Output::IN { content, narsese: nars })
        } else if str_eq(type_tag.as_str(), "OUT") {
            Ok(Output::OUT { content_raw: content, narsese: nars })
        } else if str_eq(type_tag.as_str(), "ERROR") {
            Ok(Output::ERROR { description: content })
        } else if str_eq(type_tag.as_str(), "ANSWER") {
            Ok(Output::ANSWER { content_raw: content, narsese: nars })
        } else if str_eq(type_tag.as_str(), "ACHIEVED") {
            Ok(Output::ACHIEVED { content_raw: content, narsese: nars })
        } else if str_eq(type_tag.as_str(), "EXE") {
            match operation {
                Some(op) => Ok(Output::EXE { content_raw: content, operation: op }),
                None => Err(OutputDecodeError::MissingOperation),
            }
        } else if str_eq(type_tag.as_str(), "INFO") {
            Ok(Output::INFO { message: content })
        } else if str_eq(type_tag.as_str(), "COMMENT") {
            Ok(Output::COMMENT { content })
        } else if str_eq(type_tag.as_str(), "TERMINATED") {
            Ok(Output::TERMINATED { description: content })
        } else if str_eq(type_tag.as_str(), "OTHER") {
            Ok(Output::OTHER { content })
        } else {
            Ok(Output::UNCLASSIFIED { type_tag, content, narsese: nars })
        }
    }

    /// Serializes the output to canonical JSON text. Decoding this text
    /// yields the output back, whenever its tag is its own (an unclassified
    /// output that borrowed a fixed tag decodes to that fixed variant
    /// instead).
    pub fn to_json_string(&self) -> (r: String)
        ensures
            r@ == enc_record(unfold_record(self@)),
            o_clean(self@) ==> dec_output(r@) == Ok::<OutputV, OutputDecodeError>(self@),
    {
        let j = self.to_json_struct();
        let text = j.to_json_string();
        proof {
            lemma_record_round_trip(j@);
            if o_clean(self@) {
                lemma_fold_unfold(self@);
            }
        }
        text
    }

    /// Serializes outputs to one JSON array. Decoding it yields the outputs
    /// back, whenever every tag is its own.
    #[verifier::rlimit(100)]
    #[verifier::spinoff_prover]
    pub fn vec_to_json_string(v: &[Output]) -> (r: String)
        ensures
            r@ == enc_records(records_of(v@)),
            (forall|i: int| 0 <= i < v@.len() ==> o_clean(#[trigger] v@[i]@)) ==> dec_outputs(r@)
                == Ok::<Seq<OutputV>, OutputDecodeError>(views_of(v@)),
    {
        let ghost os = v@;
        let mut buf: Vec<char> = Vec::new();
        if v.len() == 0 {
            buf.push('[');
            buf.push(']');
            proof {
                assert(records_of(os) =~= Seq::<RecordV>::empty());
                assert(buf@ =~= enc_records(records_of(os)));
                lemma_records_round_trip(records_of(os));
                lemma_fold_records_of(os);
                assert(views_of(os) =~= Seq::<OutputV>::empty());
            }
            return chars_to_string(&buf, 0, buf.len());
        }
        buf.push('[');
        let j0 = v[0].to_json_struct();
        push_enc_record(&mut buf, &j0);
        let mut i: usize = 1;
        proof {
            assert(buf@ =~= seq!['['] + enc_record(records_of(os)[0]));
        }
        while i < v.len()
            invariant
                os == v@,
                1 <= i <= os.len(),
                buf@ + enc_recs_tail(records_of(os).skip(i as int)) == seq!['['] + enc_record(
                    records_of(os)[0],
                ) + enc_recs_tail(records_of(os).skip(1)),
                forall|k: int| 0 <= k < i ==> o_wf(#[trigger] os[k]@),
            decreases os.len() - i,
        {
            buf.push(',');
            let jk = v[i].to_json_struct();
            push_enc_record(&mut buf, &jk);
            proof {
                let rs = records_of(os);
                assert(rs.skip(i as int)[0] == rs[i as int]);
                assert(rs.skip(i as int).skip(1) =~= rs.skip(i + 1));
                assert(buf@ + enc_recs_tail(rs.skip(i + 1)) =~= seq!['['] + enc_record(rs[0])
                    + enc_recs_tail(rs.skip(1)));
            }
            i = i + 1;
        }
        buf.push(']');
        proof {
            let rs = records_of(os);
            assert(rs.skip(os.len() as int) =~= Seq::<RecordV>::empty());
            assert(buf@ =~= seq!['['] + enc_record(rs[0]) + enc_recs_tail(rs.skip(1)));
            assert(buf@ =~= enc_records(rs));
            lemma_records_round_trip(rs);
            if forall|k: int| 0 <= k < os.len() ==> o_clean(#[trigger] os[k]@) {
                lemma_fold_records_of(os);
            }
        }
        chars_to_string(&buf, 0, buf.len())
    }


    /// Serializes borrowed outputs to one JSON array; the reference-slice
    /// twin of [`Output::vec_to_json_string`].
    #[verifier::rlimit(100)]
    #[verifier::spinoff_prover]
    pub fn vec_ref_to_json_string(v: &[&Output]) -> (r: String)
        ensures
            r@ == enc_records(records_of_refs(v@)),
            (forall|i: int| 0 <= i < v@.len() ==> o_clean(#[trigger] v@[i]@)) ==> dec_outputs(r@)
                == Ok::<Seq<OutputV>, OutputDecodeError>(views_of_refs(v@)),
    {
        let ghost os = v@;
        let mut buf: Vec<char> = Vec::new();
        if v.len() == 0 {
            buf.push('[');
            buf.push(']');
            proof {
                assert(records_of_refs(os) =~= Seq::<RecordV>::empty());
                assert(buf@ =~= enc_records(records_of_refs(os)));
                lemma_records_round_trip(records_of_refs(os));
                lemma_fold_records_of_refs(os);
                assert(views_of_refs(os) =~= Seq::<OutputV>::empty());
            }
            return chars_to_string(&buf, 0, buf.len());
        }
        buf.push('[');
        let j0 = v[0].to_json_struct();
        push_enc_record(&mut buf, &j0);
        let mut i: usize = 1;
        proof {
            assert(buf@ =~= seq!['['] + enc_record(records_of_refs(os)[0]));
        }
        while i < v.len()
            invariant
                os == v@,
                1 <= i <= os.len(),
                buf@ + enc_recs_tail(records_of_refs(os).skip(i as int)) == seq!['[']
                    + enc_record(records_of_refs(os)[0]) + enc_recs_tail(
                    records_of_refs(os).skip(1),
                ),
                forall|k: int| 0 <= k < i ==> o_wf(#[trigger] os[k]@),
            decreases os.len() - i,
        {
            buf.push(',');
            let jk = v[i].to_json_struct();
            push_enc_record(&mut buf, &jk);
            proof {
                let rs = records_of_refs(os);
                assert(rs.skip(i as int)[0] == rs[i as int]);
                assert(rs.skip(i as int).skip(1) =~= rs.skip(i + 1));
                assert(buf@ + enc_recs_tail(rs.skip(i + 1)) =~= seq!['['] + enc_record(rs[0])
                    + enc_recs_tail(rs.skip(1)));
            }
            i = i + 1;
        }
        buf.push(']');
        proof {
            let rs = records_of_refs(os);
            assert(rs.skip(os.len() as int) =~= Seq::<RecordV>::empty());
            assert(buf@ =~= seq!['['] + enc_record(rs[0]) + enc_recs_tail(rs.skip(1)));
            assert(buf@ =~= enc_records(rs));
            lemma_records_round_trip(rs);
            if forall|k: int| 0 <= k < os.len() ==> o_clean(#[trigger] os[k]@) {
                lemma_fold_records_of_refs(os);
            }
        }
        chars_to_string(&buf, 0, buf.len())
    }

    /// Reads one output from JSON text.
    pub fn try_from_json_string(s: &str) -> (r: Result<Output, OutputDecodeError>)
        ensures
            r matches Ok(o) ==> dec_output(s@) == Ok::<OutputV, OutputDecodeError>(o@),
            r matches Err(e) ==> dec_output(s@) == Err::<OutputV, OutputDecodeError>(e),
    {
        match OutputJSON::try_from_json_string(s) {
            Ok(j) => Self::try_from_json_struct(j),
            Err(e) => Err(e),
        }
    }

    /// Reads an array of outputs from JSON text; the first bad record wins.
    pub fn vec_try_from_json_string(s: &str) -> (r: Result<Vec<Output>, OutputDecodeError>)
        ensures
            r matches Ok(os) ==> dec_outputs(s@) == Ok::<Seq<OutputV>, OutputDecodeError>(
                os.deep_view(),
            ),
            r matches Err(e) ==> dec_outputs(s@) == Err::<Seq<OutputV>, OutputDecodeError>(e),
    {
        let v = str_to_chars(s);
        let scanned = match ex_scan_recs(&v, 0) {
            Some(p) => p,
            None => {
                return Err(OutputDecodeError::Json);
            },
        };
        let tail = ex_skip_ws(&v, scanned.1);
        if tail != v.len() {
            return Err(OutputDecodeError::Json);
        }
        let mut js = scanned.0;
        let ghost rs = js.deep_view();
        let mut out: Vec<Output> = Vec::new();
        proof {
            assert(out.deep_view() =~= Seq::<OutputV>::empty());
            match fold_records(rs) {
                Ok(tailv) => {
                    assert(out.deep_view() + tailv =~= tailv);
                },
                Err(_) => {},
            }
        }
        proof {
            assert(dec_records_text(s@) == Some(rs));
        }
        while js.len() > 0
            invariant
                dec_records_text(s@) == Some(rs),
                (match fold_records(js.deep_view()) {
                    Ok(tailv) => fold_records(rs) == Ok::<Seq<OutputV>, OutputDecodeError>(
                        out.deep_view() + tailv,
                    ),
                    Err(e) => fold_records(rs) == Err::<Seq<OutputV>, OutputDecodeError>(e),
                }),
            decreases js@.len(),
        {
            let ghost js_old = js.deep_view();
            let j0 = js.remove(0);
            proof {
                assert(js.deep_view() =~= js_old.skip(1));
                assert(j0@ == js_old[0]);
            }
            match Self::try_from_json_struct(j0) {
                Ok(o) => {
                    let ghost old_out = out.deep_view();
                    out.push(o);
                    proof {
                        assert(out.deep_view() =~= old_out.push(o@));
                        match fold_records(js.deep_view()) {
                            Ok(tailv) => {
                                assert(old_out + (Seq::<OutputV>::empty().push(o@) + tailv)
                                    =~= out.deep_view() + tailv);
                            },
                            Err(_) => {},
                        }
                    }
                },
                Err(e) => {
                    proof {
                        assert(fold_records(js_old) == Err::<Seq<OutputV>, OutputDecodeError>(e));
                    }
                    return Err(e);
                },
            }
        }
        proof {
            assert(js.deep_view() =~= Seq::<RecordV>::empty());
            assert(fold_records(js.deep_view()) == Ok::<Seq<OutputV>, OutputDecodeError>(
                Seq::<OutputV>::empty(),
            ));
            assert(out.deep_view() + Seq::<OutputV>::empty() =~= out.deep_view());
        }
        Ok(out)
    }
}

impl Operation {
    /// Writes the operation as a JSON string array: the operator name first,
    /// then each parameter's text.
    pub fn to_json_string(&self) -> (r: String)
        ensures
            r@ == enc_arr(Seq::empty().push(self@.operator_name) + self@.params),
    {
        let mut a: Vec<String> = Vec::new();
        a.push(self.operator_name.clone());
        proof {
            assert(a.deep_view() =~= Seq::<Seq<char>>::empty().push(self.operator_name@));
        }
        let mut i: usize = 0;
        while i < self.params.len()
            invariant
                0 <= i <= self.params@.len(),
                a.deep_view() =~= Seq::empty().push(self.operator_name@)
                    + self.params.deep_view().take(i as int),
            decreases self.params@.len() - i,
        {
            let ghost old_a = a.deep_view();
            a.push(self.params[i].text().to_owned());
            proof {
                assert(a.deep_view() =~= old_a.push(self.params.deep_view()[i as int]));
                assert(a.deep_view() =~= Seq::empty().push(self.operator_name@)
                    + self.params.deep_view().take(i + 1));
            }
            i = i + 1;
        }
        proof {
            assert(self.params.deep_view().take(self.params@.len() as int)
                =~= self.params.deep_view());
        }
        let mut buf: Vec<char> = Vec::new();
        push_enc_arr(&mut buf, &a);
        proof {
            assert(Seq::<char>::empty() + enc_arr(a.deep_view()) =~= enc_arr(a.deep_view()));
            assert(buf@.subrange(0, buf@.len() as int) =~= buf@);
        }
        chars_to_string(&buf, 0, buf.len())
    }
}

} // verus!

