//! A parser for the JSON payloads of the wire protocol.
//!
//! The protocol's payloads are flat JSON objects whose values are strings,
//! numbers, booleans, null, or arrays of such scalars. The parser accepts
//! exactly that shape (with string escapes, including surrogate pairs) and
//! rejects anything else; a rejected payload makes the decoder drop the
//! frame, which the protocol tolerates by design.
//!
//! Each executable function is verified against a spec-level parser over
//! `Seq<char>` that defines the accepted language and its meaning.

use vstd::prelude::*;
use crate::event::EventModel;
use crate::text::char_from_u32;
use crate::text::chars_eq_str;
use crate::text::string_from_chars;

verus! {

/// The meaning of one JSON value as far as the protocol cares: a string, an
/// array of strings, or anything else (ignored unless a known field needs it).
pub enum JsonValM {
    Str(Seq<char>),
    StrArr(Seq<Seq<char>>),
    Other,
}

/// One parsed object member in the model: key and value.
pub type MemberM = (Seq<char>, JsonValM);

pub open spec fn is_json_ws(c: char) -> bool {
    c == ' ' || c == '\t' || c == '\n' || c == '\r'
}

pub open spec fn is_digit(c: char) -> bool {
    '0' <= c && c <= '9'
}

/// First index at or after `i` holding no JSON white space.
pub open spec fn sp_ws(s: Seq<char>, i: int) -> int
    decreases s.len() - i,
{
    if 0 <= i && i < s.len() && is_json_ws(s[i]) {
        sp_ws(s, i + 1)
    } else {
        i
    }
}

pub proof fn lemma_sp_ws(s: Seq<char>, i: int)
    requires
        0 <= i <= s.len(),
    ensures
        i <= sp_ws(s, i) <= s.len(),
    decreases s.len() - i,
{
    if i < s.len() && is_json_ws(s[i]) {
        lemma_sp_ws(s, i + 1);
    }
}

/// Value of one hexadecimal digit.
pub open spec fn hex_val(c: char) -> Option<u32> {
    if '0' <= c && c <= '9' {
        Some((c as u32 - '0' as u32) as u32)
    } else if 'a' <= c && c <= 'f' {
        Some((c as u32 - 'a' as u32 + 10) as u32)
    } else if 'A' <= c && c <= 'F' {
        Some((c as u32 - 'A' as u32 + 10) as u32)
    } else {
        None
    }
}

/// Value of the four hexadecimal digits at `i`.
pub open spec fn sp_hex4(s: Seq<char>, i: int) -> Option<u32> {
    if 0 <= i && i + 4 <= s.len() {
        match (hex_val(s[i]), hex_val(s[i + 1]), hex_val(s[i + 2]), hex_val(s[i + 3])) {
            (Some(a), Some(b), Some(c), Some(d)) => Some(
                (a * 0x1000 + b * 0x100 + c * 0x10 + d) as u32,
            ),
            _ => None,
        }
    } else {
        None
    }
}

/// The character encoded by a UTF-16 surrogate pair.
pub open spec fn surrogate_char(h: u32, l: u32) -> char {
    ((0x10000 + (h - 0xd800) * 0x400 + (l - 0xdc00)) as u32) as char
}

/// Parses the body of a JSON string from `i` (just after the opening quote),
/// with `acc` the characters read so far. Yields the string's characters and
/// the index just after the closing quote.
pub open spec fn sp_string_body(s: Seq<char>, i: int, acc: Seq<char>) -> Option<(Seq<char>, int)>
    decreases s.len() - i,
{
    if !(0 <= i && i < s.len()) {
        None
    } else if s[i] == '"' {
        Some((acc, i + 1))
    } else if s[i] == '\\' {
        if i + 1 >= s.len() {
            None
        } else {
            let e = s[i + 1];
            if e == '"' {
                sp_string_body(s, i + 2, acc.push('"'))
            } else if e == '\\' {
                sp_string_body(s, i + 2, acc.push('\\'))
            } else if e == '/' {
                sp_string_body(s, i + 2, acc.push('/'))
            } else if e == 'b' {
                sp_string_body(s, i + 2, acc.push('\u{8}'))
            } else if e == 'f' {
                sp_string_body(s, i + 2, acc.push('\u{c}'))
            } else if e == 'n' {
                sp_string_body(s, i + 2, acc.push('\n'))
            } else if e == 'r' {
                sp_string_body(s, i + 2, acc.push('\r'))
            } else if e == 't' {
                sp_string_body(s, i + 2, acc.push('\t'))
            } else if e == 'u' {
                match sp_hex4(s, i + 2) {
                    None => None,
                    Some(h) => {
                        if 0xd800 <= h && h <= 0xdbff {
                            if i + 12 <= s.len() && s[i + 6] == '\\' && s[i + 7] == 'u' {
                                match sp_hex4(s, i + 8) {
                                    Some(l) => if 0xdc00 <= l && l <= 0xdfff {
                                        sp_string_body(s, i + 12, acc.push(surrogate_char(h, l)))
                                    } else {
                                        None
                                    },
                                    None => None,
                                }
                            } else {
                                None
                            }
                        } else if 0xdc00 <= h && h <= 0xdfff {
                            None
                        } else {
                            sp_string_body(s, i + 6, acc.push(h as char))
                        }
                    },
                }
            } else {
                None
            }
        }
    } else if (s[i] as u32) < 0x20 {
        None
    } else {
        sp_string_body(s, i + 1, acc.push(s[i]))
    }
}

/// Parses a JSON string whose opening quote stands at `i`.
pub open spec fn sp_string(s: Seq<char>, i: int) -> Option<(Seq<char>, int)> {
    if 0 <= i && i < s.len() && s[i] == '"' {
        sp_string_body(s, i + 1, Seq::empty())
    } else {
        None
    }
}

pub proof fn lemma_sp_string_body(s: Seq<char>, i: int, acc: Seq<char>)
    requires
        0 <= i,
    ensures
        match sp_string_body(s, i, acc) {
            Some((cs, j)) => i < j <= s.len(),
            None => true,
        },
    decreases s.len() - i,
{
    if 0 <= i && i < s.len() {
        if s[i] == '"' {
        } else if s[i] == '\\' && i + 1 < s.len() {
            let e = s[i + 1];
            if e == 'u' {
                match sp_hex4(s, i + 2) {
                    None => {},
                    Some(h) => {
                        if 0xd800 <= h && h <= 0xdbff {
                            if i + 12 <= s.len() && s[i + 6] == '\\' && s[i + 7] == 'u' {
                                match sp_hex4(s, i + 8) {
                                    Some(l) => {
                                        if 0xdc00 <= l && l <= 0xdfff {
                                            lemma_sp_string_body(
                                                s,
                                                i + 12,
                                                acc.push(surrogate_char(h, l)),
                                            );
                                        }
                                    },
                                    None => {},
                                }
                            }
                        } else if 0xdc00 <= h && h <= 0xdfff {
                        } else {
                            lemma_sp_string_body(s, i + 6, acc.push(h as char));
                        }
                    },
                }
            } else if e == '"' || e == '\\' || e == '/' {
                lemma_sp_string_body(s, i + 2, acc.push(e));
            } else if e == 'b' {
                lemma_sp_string_body(s, i + 2, acc.push('\u{8}'));
            } else if e == 'f' {
                lemma_sp_string_body(s, i + 2, acc.push('\u{c}'));
            } else if e == 'n' {
                lemma_sp_string_body(s, i + 2, acc.push('\n'));
            } else if e == 'r' {
                lemma_sp_string_body(s, i + 2, acc.push('\r'));
            } else if e == 't' {
                lemma_sp_string_body(s, i + 2, acc.push('\t'));
            }
        } else if (s[i] as u32) < 0x20 {
        } else {
            lemma_sp_string_body(s, i + 1, acc.push(s[i]));
        }
    }
}

pub proof fn lemma_sp_string(s: Seq<char>, i: int)
    requires
        0 <= i,
    ensures
        match sp_string(s, i) {
            Some((cs, j)) => i + 1 < j <= s.len(),
            None => true,
        },
{
    if 0 <= i && i < s.len() && s[i] == '"' {
        lemma_sp_string_body(s, i + 1, Seq::empty());
    }
}

/// First index at or after `i` holding no decimal digit.
pub open spec fn sp_digits(s: Seq<char>, i: int) -> int
    decreases s.len() - i,
{
    if 0 <= i && i < s.len() && is_digit(s[i]) {
        sp_digits(s, i + 1)
    } else {
        i
    }
}

pub proof fn lemma_sp_digits(s: Seq<char>, i: int)
    requires
        0 <= i <= s.len(),
    ensures
        i <= sp_digits(s, i) <= s.len(),
    decreases s.len() - i,
{
    if i < s.len() && is_digit(s[i]) {
        lemma_sp_digits(s, i + 1);
    }
}

/// Parses a JSON number starting at `i`; yields the index just after it.
pub open spec fn sp_number(s: Seq<char>, i: int) -> Option<int> {
    if !(0 <= i && i < s.len()) {
        None
    } else {
        let i1 = if s[i] == '-' {
            i + 1
        } else {
            i
        };
        if !(i1 < s.len() && is_digit(s[i1])) {
            None
        } else {
            let i2 = if s[i1] == '0' {
                i1 + 1
            } else {
                sp_digits(s, i1)
            };
            let fr = if i2 < s.len() && s[i2] == '.' {
                if i2 + 1 < s.len() && is_digit(s[i2 + 1]) {
                    Some(sp_digits(s, i2 + 1))
                } else {
                    None
                }
            } else {
                Some(i2)
            };
            match fr {
                None => None,
                Some(i3) => {
                    if i3 < s.len() && (s[i3] == 'e' || s[i3] == 'E') {
                        let i4 = if i3 + 1 < s.len() && (s[i3 + 1] == '+' || s[i3 + 1] == '-') {
                            i3 + 2
                        } else {
                            i3 + 1
                        };
                        if i4 < s.len() && is_digit(s[i4]) {
                            Some(sp_digits(s, i4))
                        } else {
                            None
                        }
                    } else {
                        Some(i3)
                    }
                },
            }
        }
    }
}

pub proof fn lemma_sp_number(s: Seq<char>, i: int)
    requires
        0 <= i,
    ensures
        match sp_number(s, i) {
            Some(j) => i < j <= s.len(),
            None => true,
        },
{
    if 0 <= i && i < s.len() {
        let i1 = if s[i] == '-' {
            i + 1
        } else {
            i
        };
        if i1 < s.len() && is_digit(s[i1]) {
            lemma_sp_digits(s, i1);
            lemma_sp_digits(s, i1 + 1);
            let i2 = if s[i1] == '0' {
                i1 + 1
            } else {
                sp_digits(s, i1)
            };
            if i2 < s.len() && s[i2] == '.' && i2 + 1 < s.len() && is_digit(s[i2 + 1]) {
                lemma_sp_digits(s, i2 + 1);
            }
            let fr = if i2 < s.len() && s[i2] == '.' {
                if i2 + 1 < s.len() && is_digit(s[i2 + 1]) {
                    Some(sp_digits(s, i2 + 1))
                } else {
                    None
                }
            } else {
                Some(i2)
            };
            match fr {
                None => {},
                Some(i3) => {
                    if i3 < s.len() && (s[i3] == 'e' || s[i3] == 'E') {
                        let i4 = if i3 + 1 < s.len() && (s[i3 + 1] == '+' || s[i3 + 1] == '-') {
                            i3 + 2
                        } else {
                            i3 + 1
                        };
                        if i4 < s.len() && is_digit(s[i4]) {
                            lemma_sp_digits(s, i4);
                        }
                    }
                },
            }
        }
    }
}

/// Parses the literal `true` at `i`.
pub open spec fn sp_true(s: Seq<char>, i: int) -> Option<int> {
    if 0 <= i && i + 4 <= s.len() && s[i] == 't' && s[i + 1] == 'r' && s[i + 2] == 'u'
        && s[i + 3] == 'e' {
        Some(i + 4)
    } else {
        None
    }
}

/// Parses the literal `false` at `i`.
pub open spec fn sp_false(s: Seq<char>, i: int) -> Option<int> {
    if 0 <= i && i + 5 <= s.len() && s[i] == 'f' && s[i + 1] == 'a' && s[i + 2] == 'l'
        && s[i + 3] == 's' && s[i + 4] == 'e' {
        Some(i + 5)
    } else {
        None
    }
}

/// Parses the literal `null` at `i`.
pub open spec fn sp_null(s: Seq<char>, i: int) -> Option<int> {
    if 0 <= i && i + 4 <= s.len() && s[i] == 'n' && s[i + 1] == 'u' && s[i + 2] == 'l'
        && s[i + 3] == 'l' {
        Some(i + 4)
    } else {
        None
    }
}

/// Parses one scalar value (string, number, boolean or null) at `i`.
pub open spec fn sp_scalar(s: Seq<char>, i: int) -> Option<(JsonValM, int)> {
    if !(0 <= i && i < s.len()) {
        None
    } else if s[i] == '"' {
        match sp_string(s, i) {
            Some((cs, j)) => Some((JsonValM::Str(cs), j)),
            None => None,
        }
    } else if s[i] == '-' || is_digit(s[i]) {
        match sp_number(s, i) {
            Some(j) => Some((JsonValM::Other, j)),
            None => None,
        }
    } else if s[i] == 't' {
        match sp_true(s, i) {
            Some(j) => Some((JsonValM::Other, j)),
            None => None,
        }
    } else if s[i] == 'f' {
        match sp_false(s, i) {
            Some(j) => Some((JsonValM::Other, j)),
            None => None,
        }
    } else if s[i] == 'n' {
        match sp_null(s, i) {
            Some(j) => Some((JsonValM::Other, j)),
            None => None,
        }
    } else {
        None
    }
}

pub proof fn lemma_sp_scalar(s: Seq<char>, i: int)
    requires
        0 <= i,
    ensures
        match sp_scalar(s, i) {
            Some((v, j)) => i < j <= s.len(),
            None => true,
        },
{
    lemma_sp_string(s, i);
    lemma_sp_number(s, i);
}

/// True when every element is a string value.
pub open spec fn all_strings(vs: Seq<JsonValM>) -> bool {
    forall|k: int| 0 <= k < vs.len() ==> vs[k] is Str
}

/// The value of a parsed array: an array of strings when all elements are
/// strings, otherwise an ignored value.
pub open spec fn arr_val(vs: Seq<JsonValM>) -> JsonValM {
    if all_strings(vs) {
        JsonValM::StrArr(vs.map_values(|v: JsonValM| v->Str_0))
    } else {
        JsonValM::Other
    }
}

/// Parses the elements of an array from `i` (at the start of an element,
/// white space skipped), `acc` holding the elements read so far.
pub open spec fn sp_array_items(s: Seq<char>, i: int, acc: Seq<JsonValM>) -> Option<
    (Seq<JsonValM>, int),
>
    decreases s.len() - i via sp_array_items_dec
{
    match sp_scalar(s, i) {
        None => None,
        Some((v, j)) => {
            let k = sp_ws(s, j);
            if k < s.len() && s[k] == ',' {
                sp_array_items(s, sp_ws(s, k + 1), acc.push(v))
            } else if k < s.len() && s[k] == ']' {
                Some((acc.push(v), k + 1))
            } else {
                None
            }
        },
    }
}

#[via_fn]
proof fn sp_array_items_dec(s: Seq<char>, i: int, acc: Seq<JsonValM>) {
    match sp_scalar(s, i) {
        None => {},
        Some((v, j)) => {
            lemma_sp_scalar(s, i);
            lemma_sp_ws(s, j);
            let k = sp_ws(s, j);
            if k < s.len() && s[k] == ',' {
                lemma_sp_ws(s, k + 1);
            }
        },
    }
}

pub proof fn lemma_sp_array_items(s: Seq<char>, i: int, acc: Seq<JsonValM>)
    requires
        0 <= i,
    ensures
        match sp_array_items(s, i, acc) {
            Some((vs, j)) => i < j <= s.len(),
            None => true,
        },
    decreases s.len() - i,
{
    match sp_scalar(s, i) {
        None => {},
        Some((v, j)) => {
            lemma_sp_scalar(s, i);
            lemma_sp_ws(s, j);
            let k = sp_ws(s, j);
            if k < s.len() && s[k] == ',' {
                lemma_sp_ws(s, k + 1);
                lemma_sp_array_items(s, sp_ws(s, k + 1), acc.push(v));
            }
        },
    }
}

/// Parses one member value at `i`: a scalar, or an array of scalars.
pub open spec fn sp_member_value(s: Seq<char>, i: int) -> Option<(JsonValM, int)> {
    if !(0 <= i && i < s.len()) {
        None
    } else if s[i] == '[' {
        let j = sp_ws(s, i + 1);
        if j < s.len() && s[j] == ']' {
            Some((JsonValM::StrArr(Seq::empty()), j + 1))
        } else {
            match sp_array_items(s, j, Seq::empty()) {
                Some((vs, k)) => Some((arr_val(vs), k)),
                None => None,
            }
        }
    } else {
        sp_scalar(s, i)
    }
}

pub proof fn lemma_sp_member_value(s: Seq<char>, i: int)
    requires
        0 <= i,
    ensures
        match sp_member_value(s, i) {
            Some((v, j)) => i < j <= s.len(),
            None => true,
        },
{
    lemma_sp_scalar(s, i);
    if 0 <= i && i < s.len() && s[i] == '[' {
        lemma_sp_ws(s, i + 1);
        let j = sp_ws(s, i + 1);
        lemma_sp_array_items(s, j, Seq::empty());
    }
}

/// Parses the members of an object from `i` (at the start of a key, white
/// space skipped), `acc` holding the members read so far.
pub open spec fn sp_members(s: Seq<char>, i: int, acc: Seq<MemberM>) -> Option<
    (Seq<MemberM>, int),
>
    decreases s.len() - i via sp_members_dec
{
    match sp_string(s, i) {
        None => None,
        Some((key, j)) => {
            let j2 = sp_ws(s, j);
            if !(j2 < s.len() && s[j2] == ':') {
                None
            } else {
                match sp_member_value(s, sp_ws(s, j2 + 1)) {
                    None => None,
                    Some((v, k)) => {
                        let k2 = sp_ws(s, k);
                        if k2 < s.len() && s[k2] == ',' {
                            sp_members(s, sp_ws(s, k2 + 1), acc.push((key, v)))
                        } else if k2 < s.len() && s[k2] == '}' {
                            Some((acc.push((key, v)), k2 + 1))
                        } else {
                            None
                        }
                    },
                }
            }
        },
    }
}

#[via_fn]
proof fn sp_members_dec(s: Seq<char>, i: int, acc: Seq<MemberM>) {
    match sp_string(s, i) {
        None => {},
        Some((key, j)) => {
            lemma_sp_string(s, i);
            lemma_sp_ws(s, j);
            let j2 = sp_ws(s, j);
            if j2 < s.len() && s[j2] == ':' {
                lemma_sp_ws(s, j2 + 1);
                match sp_member_value(s, sp_ws(s, j2 + 1)) {
                    None => {},
                    Some((v, k)) => {
                        lemma_sp_member_value(s, sp_ws(s, j2 + 1));
                        lemma_sp_ws(s, k);
                        let k2 = sp_ws(s, k);
                        if k2 < s.len() && s[k2] == ',' {
                            lemma_sp_ws(s, k2 + 1);
                        }
                    },
                }
            }
        },
    }
}

pub proof fn lemma_sp_members(s: Seq<char>, i: int, acc: Seq<MemberM>)
    requires
        0 <= i,
    ensures
        match sp_members(s, i, acc) {
            Some((ms, j)) => i < j <= s.len(),
            None => true,
        },
    decreases s.len() - i,
{
    match sp_string(s, i) {
        None => {},
        Some((key, j)) => {
            lemma_sp_string(s, i);
            lemma_sp_ws(s, j);
            let j2 = sp_ws(s, j);
            if j2 < s.len() && s[j2] == ':' {
                lemma_sp_ws(s, j2 + 1);
                match sp_member_value(s, sp_ws(s, j2 + 1)) {
                    None => {},
                    Some((v, k)) => {
                        lemma_sp_member_value(s, sp_ws(s, j2 + 1));
                        lemma_sp_ws(s, k);
                        let k2 = sp_ws(s, k);
                        if k2 < s.len() && s[k2] == ',' {
                            lemma_sp_ws(s, k2 + 1);
                            lemma_sp_members(s, sp_ws(s, k2 + 1), acc.push((key, v)));
                        }
                    },
                }
            }
        },
    }
}

/// Parses a whole object whose opening brace stands at `i`.
pub open spec fn sp_object(s: Seq<char>, i: int) -> Option<(Seq<MemberM>, int)> {
    if 0 <= i && i < s.len() && s[i] == '{' {
        let j = sp_ws(s, i + 1);
        if j < s.len() && s[j] == '}' {
            Some((Seq::empty(), j + 1))
        } else {
            sp_members(s, j, Seq::empty())
        }
    } else {
        None
    }
}

/// Parses a full payload: one object, possibly surrounded by white space,
/// with nothing after it.
pub open spec fn sp_payload(s: Seq<char>) -> Option<Seq<MemberM>> {
    let i = sp_ws(s, 0);
    match sp_object(s, i) {
        Some((ms, j)) => if sp_ws(s, j) == s.len() {
            Some(ms)
        } else {
            None
        },
        None => None,
    }
}

/// How many members carry the key `k`.
pub open spec fn count_key(ms: Seq<MemberM>, k: Seq<char>) -> nat
    decreases ms.len(),
{
    if ms.len() == 0 {
        0
    } else {
        (if ms[0].0 == k {
            1nat
        } else {
            0nat
        }) + count_key(ms.skip(1), k)
    }
}

/// The value of the first member with key `k`, if any.
pub open spec fn lookup(ms: Seq<MemberM>, k: Seq<char>) -> Option<JsonValM>
    decreases ms.len(),
{
    if ms.len() == 0 {
        None
    } else if ms[0].0 == k {
        Some(ms[0].1)
    } else {
        lookup(ms.skip(1), k)
    }
}

/// The string value of the field `k`, required to occur exactly once.
pub open spec fn req_str(ms: Seq<MemberM>, k: Seq<char>) -> Option<Seq<char>> {
    if count_key(ms, k) == 1 {
        match lookup(ms, k) {
            Some(JsonValM::Str(cs)) => Some(cs),
            _ => None,
        }
    } else {
        None
    }
}

/// The string-array value of the field `k`, required to occur exactly once.
pub open spec fn req_arr(ms: Seq<MemberM>, k: Seq<char>) -> Option<Seq<Seq<char>>> {
    if count_key(ms, k) == 1 {
        match lookup(ms, k) {
            Some(JsonValM::StrArr(vs)) => Some(vs),
            _ => None,
        }
    } else {
        None
    }
}

/// The event described by a parsed payload: the `type` field picks the
/// variant, the variant's fields must each occur exactly once with the right
/// type, and unknown fields are ignored.
pub open spec fn sp_event_of_members(ms: Seq<MemberM>) -> Option<EventModel> {
    if count_key(ms, "type"@) != 1 {
        None
    } else {
        match lookup(ms, "type"@) {
            Some(JsonValM::Str(t)) => {
                if t == "file_write"@ {
                    match (req_str(ms, "path"@), req_str(ms, "content"@)) {
                        (Some(p), Some(c)) => Some(EventModel::FileWrite { path: p, content: c }),
                        _ => None,
                    }
                } else if t == "status"@ {
                    match req_str(ms, "message"@) {
                        Some(m) => Some(EventModel::Status { message: m }),
                        None => None,
                    }
                } else if t == "done"@ {
                    match (req_str(ms, "summary"@), req_arr(ms, "files"@)) {
                        (Some(su), Some(fs)) => Some(EventModel::Done { summary: su, files: fs }),
                        _ => None,
                    }
                } else if t == "error"@ {
                    match req_str(ms, "message"@) {
                        Some(m) => Some(EventModel::Error { message: m }),
                        None => None,
                    }
                } else {
                    None
                }
            },
            _ => None,
        }
    }
}

/// The event described by a full payload string, if it parses.
pub open spec fn sp_decode_payload(s: Seq<char>) -> Option<EventModel> {
    match sp_payload(s) {
        Some(ms) => sp_event_of_members(ms),
        None => None,
    }
}

/// One parsed JSON value in executable form.
pub enum JsonValue {
    Str(Vec<char>),
    StrArr(Vec<Vec<char>>),
    Other,
}

impl JsonValue {
    /// The model of this value.
    pub open spec fn model(&self) -> JsonValM {
        match self {
            JsonValue::Str(cs) => JsonValM::Str(cs@),
            JsonValue::StrArr(vs) => JsonValM::StrArr(vs.deep_view()),
            JsonValue::Other => JsonValM::Other,
        }
    }
}

/// The model of an executable member list.
pub open spec fn members_model(ms: Seq<(Vec<char>, JsonValue)>) -> Seq<MemberM> {
    ms.map_values(|p: (Vec<char>, JsonValue)| (p.0@, p.1.model()))
}

fn is_json_ws_char(c: char) -> (r: bool)
    ensures
        r == is_json_ws(c),
{
    c == ' ' || c == '\t' || c == '\n' || c == '\r'
}

fn is_digit_char(c: char) -> (r: bool)
    ensures
        r == is_digit(c),
{
    '0' <= c && c <= '9'
}

/// Skips JSON white space from `i`.
fn x_ws(s: &Vec<char>, i: usize) -> (j: usize)
    requires
        i <= s@.len(),
    ensures
        j as int == sp_ws(s@, i as int),
        i <= j <= s@.len(),
{
    let mut j = i;
    while j < s.len() && is_json_ws_char(s[j])
        invariant
            i <= j <= s@.len(),
            sp_ws(s@, i as int) == sp_ws(s@, j as int),
        decreases s@.len() - j,
    {
        j = j + 1;
    }
    j
}

fn hex_val_char(c: char) -> (r: Option<u32>)
    ensures
        r == hex_val(c),
{
    if '0' <= c && c <= '9' {
        Some(c as u32 - '0' as u32)
    } else if 'a' <= c && c <= 'f' {
        Some(c as u32 - 'a' as u32 + 10)
    } else if 'A' <= c && c <= 'F' {
        Some(c as u32 - 'A' as u32 + 10)
    } else {
        None
    }
}

/// Reads the four hexadecimal digits at `i`.
fn x_hex4(s: &Vec<char>, i: usize) -> (r: Option<u32>)
    requires
        i <= s@.len(),
    ensures
        r == sp_hex4(s@, i as int),
{
    if s.len() - i < 4 {
        return None;
    }
    let a = match hex_val_char(s[i]) {
        Some(x) => x,
        None => return None,
    };
    let b = match hex_val_char(s[i + 1]) {
        Some(x) => x,
        None => return None,
    };
    let c = match hex_val_char(s[i + 2]) {
        Some(x) => x,
        None => return None,
    };
    let d = match hex_val_char(s[i + 3]) {
        Some(x) => x,
        None => return None,
    };
    Some(a * 0x1000 + b * 0x100 + c * 0x10 + d)
}

/// Parses a JSON string whose opening quote stands at `i`.
fn x_string(s: &Vec<char>, i: usize) -> (r: Option<(Vec<char>, usize)>)
    requires
        i <= s@.len(),
    ensures
        match r {
            Some(p) => sp_string(s@, i as int) == Some((p.0@, p.1 as int)) && i < p.1 <= s@.len(),
            None => sp_string(s@, i as int) is None,
        },
{
    if !(i < s.len() && s[i] == '"') {
        return None;
    }
    let mut acc: Vec<char> = Vec::new();
    let mut j = i + 1;
    loop
        invariant
            i + 1 <= j <= s@.len(),
            s@.len() == s.len(),
            sp_string(s@, i as int) == sp_string_body(s@, j as int, acc@),
        decreases s@.len() - j,
    {
        if j >= s.len() {
            return None;
        }
        let c = s[j];
        if c == '"' {
            return Some((acc, j + 1));
        } else if c == '\\' {
            if j + 1 >= s.len() {
                return None;
            }
            let e = s[j + 1];
            if e == '"' {
                acc.push('"');
                j = j + 2;
            } else if e == '\\' {
                acc.push('\\');
                j = j + 2;
            } else if e == '/' {
                acc.push('/');
                j = j + 2;
            } else if e == 'b' {
                acc.push('\u{8}');
                j = j + 2;
            } else if e == 'f' {
                acc.push('\u{c}');
                j = j + 2;
            } else if e == 'n' {
                acc.push('\n');
                j = j + 2;
            } else if e == 'r' {
                acc.push('\r');
                j = j + 2;
            } else if e == 't' {
                acc.push('\t');
                j = j + 2;
            } else if e == 'u' {
                let h = match x_hex4(s, j + 2) {
                    Some(h) => h,
                    None => return None,
                };
                if 0xd800 <= h && h <= 0xdbff {
                    if s.len() - j >= 12 && s[j + 6] == '\\' && s[j + 7] == 'u' {
                        let l = match x_hex4(s, j + 8) {
                            Some(l) => l,
                            None => return None,
                        };
                        if 0xdc00 <= l && l <= 0xdfff {
                            let code: u32 = 0x10000 + (h - 0xd800) * 0x400 + (l - 0xdc00);
                            let ch = match char_from_u32(code) {
                                Some(ch) => ch,
                                None => {
                                    proof {
                                        assert(false);
                                    }
                                    return None;
                                },
                            };
                            proof {
                                vstd::utf8::char_u32_cast(ch, code);
                                assert(ch == surrogate_char(h, l));
                            }
                            acc.push(ch);
                            j = j + 12;
                        } else {
                            return None;
                        }
                    } else {
                        return None;
                    }
                } else if 0xdc00 <= h && h <= 0xdfff {
                    return None;
                } else {
                    let ch = match char_from_u32(h) {
                        Some(ch) => ch,
                        None => {
                            proof {
                                assert(false);
                            }
                            return None;
                        },
                    };
                    proof {
                        vstd::utf8::char_u32_cast(ch, h);
                    }
                    acc.push(ch);
                    j = j + 6;
                }
            } else {
                return None;
            }
        } else if (c as u32) < 0x20 {
            return None;
        } else {
            acc.push(c);
            j = j + 1;
        }
    }
}

/// Skips the digit run starting at `i`.
fn x_digits(s: &Vec<char>, i: usize) -> (j: usize)
    requires
        i <= s@.len(),
    ensures
        j as int == sp_digits(s@, i as int),
        i <= j <= s@.len(),
{
    let mut j = i;
    while j < s.len() && is_digit_char(s[j])
        invariant
            i <= j <= s@.len(),
            sp_digits(s@, i as int) == sp_digits(s@, j as int),
        decreases s@.len() - j,
    {
        j = j + 1;
    }
    j
}

/// Parses a JSON number starting at `i`.
fn x_number(s: &Vec<char>, i: usize) -> (r: Option<usize>)
    requires
        i <= s@.len(),
    ensures
        match r {
            Some(j) => sp_number(s@, i as int) == Some(j as int) && i < j <= s@.len(),
            None => sp_number(s@, i as int) is None,
        },
{
    proof {
        lemma_sp_number(s@, i as int);
    }
    if !(i < s.len()) {
        return None;
    }
    let i1 = if s[i] == '-' {
        i + 1
    } else {
        i
    };
    if !(i1 < s.len() && is_digit_char(s[i1])) {
        return None;
    }
    let i2 = if s[i1] == '0' {
        i1 + 1
    } else {
        x_digits(s, i1)
    };
    let i3 = if i2 < s.len() && s[i2] == '.' {
        if i2 + 1 < s.len() && is_digit_char(s[i2 + 1]) {
            x_digits(s, i2 + 1)
        } else {
            return None;
        }
    } else {
        i2
    };
    if i3 < s.len() && (s[i3] == 'e' || s[i3] == 'E') {
        let i4 = if i3 + 1 < s.len() && (s[i3 + 1] == '+' || s[i3 + 1] == '-') {
            i3 + 2
        } else {
            i3 + 1
        };
        if i4 < s.len() && is_digit_char(s[i4]) {
            Some(x_digits(s, i4))
        } else {
            None
        }
    } else {
        Some(i3)
    }
}

/// Parses one scalar value at `i`.
fn x_scalar(s: &Vec<char>, i: usize) -> (r: Option<(JsonValue, usize)>)
    requires
        i <= s@.len(),
    ensures
        match r {
            Some(p) => sp_scalar(s@, i as int) == Some((p.0.model(), p.1 as int)) && i < p.1
                <= s@.len(),
            None => sp_scalar(s@, i as int) is None,
        },
{
    if !(i < s.len()) {
        return None;
    }
    let c = s[i];
    if c == '"' {
        match x_string(s, i) {
            Some((cs, j)) => Some((JsonValue::Str(cs), j)),
            None => None,
        }
    } else if c == '-' || is_digit_char(c) {
        match x_number(s, i) {
            Some(j) => Some((JsonValue::Other, j)),
            None => None,
        }
    } else if c == 't' {
        if s.len() - i >= 4 && s[i + 1] == 'r' && s[i + 2] == 'u' && s[i + 3] == 'e' {
            Some((JsonValue::Other, i + 4))
        } else {
            None
        }
    } else if c == 'f' {
        if s.len() - i >= 5 && s[i + 1] == 'a' && s[i + 2] == 'l' && s[i + 3] == 's' && s[i + 4]
            == 'e' {
            Some((JsonValue::Other, i + 5))
        } else {
            None
        }
    } else if c == 'n' {
        if s.len() - i >= 4 && s[i + 1] == 'u' && s[i + 2] == 'l' && s[i + 3] == 'l' {
            Some((JsonValue::Other, i + 4))
        } else {
            None
        }
    } else {
        None
    }
}

/// Parses one member value at `i`: a scalar, or an array of scalars.
fn x_member_value(s: &Vec<char>, i: usize) -> (r: Option<(JsonValue, usize)>)
    requires
        i <= s@.len(),
    ensures
        match r {
            Some(p) => sp_member_value(s@, i as int) == Some((p.0.model(), p.1 as int)) && i < p.1
                <= s@.len(),
            None => sp_member_value(s@, i as int) is None,
        },
{
    if !(i < s.len()) {
        return None;
    }
    if s[i] != '[' {
        return x_scalar(s, i);
    }
    let j0 = x_ws(s, i + 1);
    if j0 < s.len() && s[j0] == ']' {
        let vs: Vec<Vec<char>> = Vec::new();
        proof {
            assert(vs.deep_view() =~= Seq::<Seq<char>>::empty());
        }
        return Some((JsonValue::StrArr(vs), j0 + 1));
    }
    let ghost start = j0 as int;
    let mut cur = j0;
    let ghost mut accm: Seq<JsonValM> = Seq::empty();
    let mut all_str: bool = true;
    let mut strs: Vec<Vec<char>> = Vec::new();
    loop
        invariant
            i < start,
            start <= cur <= s@.len(),
            s@.len() == s.len(),
            sp_array_items(s@, start, Seq::empty()) == sp_array_items(s@, cur as int, accm),
            all_str == all_strings(accm),
            all_str ==> strs.deep_view() == accm.map_values(|v: JsonValM| v->Str_0),
            sp_member_value(s@, i as int) == (match sp_array_items(s@, start, Seq::empty()) {
                Some(p) => Some((arr_val(p.0), p.1)),
                None => None,
            }),
        decreases s@.len() - cur,
    {
        let (v, j2) = match x_scalar(s, cur) {
            Some(p) => p,
            None => return None,
        };
        let ghost vm = v.model();
        let ghost accm2 = accm.push(vm);
        proof {
            assert(all_strings(accm2) == (all_strings(accm) && vm is Str)) by {
                if all_strings(accm) && vm is Str {
                    assert forall|q: int| 0 <= q < accm2.len() implies accm2[q] is Str by {
                        if q < accm.len() {
                            assert(accm[q] is Str);
                        }
                    }
                } else if all_strings(accm2) {
                    assert forall|q: int| 0 <= q < accm.len() implies accm[q] is Str by {
                        assert(accm2[q] is Str);
                    }
                    assert(accm2[accm2.len() - 1] is Str);
                }
            }
        }
        let k = x_ws(s, j2);
        let all_str2: bool;
        match v {
            JsonValue::Str(cs) => {
                all_str2 = all_str;
                if all_str {
                    let ghost old_sv = strs.deep_view();
                    let ghost csv = cs@;
                    strs.push(cs);
                    proof {
                        let f = |vv: JsonValM| vv->Str_0;
                        assert(strs.deep_view() =~~= old_sv.push(csv));
                        assert(accm2.map_values(f) =~= accm.map_values(f).push(csv));
                        assert(strs.deep_view() == accm2.map_values(f));
                    }
                }
            },
            _ => {
                all_str2 = false;
            },
        }
        let all_str_now = all_str2;
        if k < s.len() && s[k] == ',' {
            proof {
                accm = accm2;
            }
            all_str = all_str_now;
            cur = x_ws(s, k + 1);
        } else if k < s.len() && s[k] == ']' {
            let out = if all_str_now {
                JsonValue::StrArr(strs)
            } else {
                JsonValue::Other
            };
            proof {
                assert(sp_array_items(s@, cur as int, accm) == Some((accm2, k as int + 1)));
                assert(out.model() == arr_val(accm2));
            }
            return Some((out, k + 1));
        } else {
            return None;
        }
    }
}

/// Parses the member list of an object whose opening brace stands at `i`.
fn x_object(s: &Vec<char>, i: usize) -> (r: Option<(Vec<(Vec<char>, JsonValue)>, usize)>)
    requires
        i <= s@.len(),
    ensures
        match r {
            Some(p) => sp_object(s@, i as int) == Some((members_model(p.0@), p.1 as int)) && i
                < p.1 <= s@.len(),
            None => sp_object(s@, i as int) is None,
        },
{
    if !(i < s.len() && s[i] == '{') {
        return None;
    }
    let j0 = x_ws(s, i + 1);
    if j0 < s.len() && s[j0] == '}' {
        let out: Vec<(Vec<char>, JsonValue)> = Vec::new();
        proof {
            assert(members_model(out@) =~= Seq::<MemberM>::empty());
        }
        return Some((out, j0 + 1));
    }
    let ghost start = j0 as int;
    let mut cur = j0;
    let mut acc: Vec<(Vec<char>, JsonValue)> = Vec::new();
    proof {
        assert(members_model(acc@) =~= Seq::<MemberM>::empty());
    }
    loop
        invariant
            i < start,
            start <= cur <= s@.len(),
            s@.len() == s.len(),
            sp_members(s@, start, Seq::empty()) == sp_members(s@, cur as int, members_model(acc@)),
            sp_object(s@, i as int) == sp_members(s@, start, Seq::empty()),
        decreases s@.len() - cur,
    {
        let (key, j) = match x_string(s, cur) {
            Some(p) => p,
            None => return None,
        };
        let j2 = x_ws(s, j);
        if !(j2 < s.len() && s[j2] == ':') {
            return None;
        }
        let j3 = x_ws(s, j2 + 1);
        let (v, k) = match x_member_value(s, j3) {
            Some(p) => p,
            None => return None,
        };
        let k2 = x_ws(s, k);
        let ghost keyv = key@;
        let ghost vm = v.model();
        let ghost old_model = members_model(acc@);
        acc.push((key, v));
        proof {
            assert(members_model(acc@) =~~= old_model.push((keyv, vm)));
        }
        if k2 < s.len() && s[k2] == ',' {
            cur = x_ws(s, k2 + 1);
        } else if k2 < s.len() && s[k2] == '}' {
            proof {
                assert(sp_members(s@, cur as int, old_model) == Some(
                    (old_model.push((keyv, vm)), k2 as int + 1),
                ));
                assert(members_model(acc@) == old_model.push((keyv, vm)));
            }
            return Some((acc, k2 + 1));
        } else {
            return None;
        }
    }
}

/// Parses a full payload: one object with nothing but white space around it.
pub fn parse_payload(s: &Vec<char>) -> (r: Option<Vec<(Vec<char>, JsonValue)>>)
    ensures
        match r {
            Some(ms) => sp_payload(s@) == Some(members_model(ms@)),
            None => sp_payload(s@) is None,
        },
{
    let i = x_ws(s, 0);
    let (ms, j) = match x_object(s, i) {
        Some(p) => p,
        None => return None,
    };
    let j2 = x_ws(s, j);
    if j2 == s.len() {
        Some(ms)
    } else {
        None
    }
}

/// How many members carry the key `k`.
fn count_key_x(ms: &Vec<(Vec<char>, JsonValue)>, k: &str) -> (r: usize)
    ensures
        r as nat == count_key(members_model(ms@), k@),
{
    let mut n: usize = 0;
    let mut i: usize = 0;
    proof {
        assert(members_model(ms@).skip(0) =~= members_model(ms@));
    }
    while i < ms.len()
        invariant
            i <= ms@.len(),
            n <= i,
            count_key(members_model(ms@), k@) == n as nat + count_key(
                members_model(ms@).skip(i as int),
                k@,
            ),
        decreases ms@.len() - i,
    {
        let ghost before = members_model(ms@).skip(i as int);
        proof {
            assert(before[0] == (ms@[i as int].0@, ms@[i as int].1.model()));
            assert(before.skip(1) =~= members_model(ms@).skip(i as int + 1));
        }
        if chars_eq_str(ms[i].0.as_slice(), k) {
            n = n + 1;
        }
        i = i + 1;
    }
    proof {
        assert(members_model(ms@).skip(i as int) =~= Seq::<MemberM>::empty());
    }
    n
}

/// Index of the first member with key `k`, if any.
fn find_key_x(ms: &Vec<(Vec<char>, JsonValue)>, k: &str) -> (r: Option<usize>)
    ensures
        match r {
            Some(idx) => idx < ms@.len() && lookup(members_model(ms@), k@) == Some(
                ms@[idx as int].1.model(),
            ),
            None => lookup(members_model(ms@), k@) is None,
        },
{
    let mut i: usize = 0;
    proof {
        assert(members_model(ms@).skip(0) =~= members_model(ms@));
    }
    while i < ms.len()
        invariant
            i <= ms@.len(),
            lookup(members_model(ms@), k@) == lookup(members_model(ms@).skip(i as int), k@),
        decreases ms@.len() - i,
    {
        let ghost before = members_model(ms@).skip(i as int);
        proof {
            assert(before[0] == (ms@[i as int].0@, ms@[i as int].1.model()));
            assert(before.skip(1) =~= members_model(ms@).skip(i as int + 1));
        }
        if chars_eq_str(ms[i].0.as_slice(), k) {
            return Some(i);
        }
        i = i + 1;
    }
    proof {
        assert(members_model(ms@).skip(i as int) =~= Seq::<MemberM>::empty());
    }
    None
}

/// The string field `k`, present exactly once, as a `String`.
fn req_str_x(ms: &Vec<(Vec<char>, JsonValue)>, k: &str) -> (r: Option<String>)
    ensures
        match r {
            Some(out) => req_str(members_model(ms@), k@) == Some(out@),
            None => req_str(members_model(ms@), k@) is None,
        },
{
    if count_key_x(ms, k) != 1 {
        return None;
    }
    let idx = match find_key_x(ms, k) {
        Some(idx) => idx,
        None => return None,
    };
    match &ms[idx].1 {
        JsonValue::Str(cs) => Some(string_from_chars(cs.as_slice())),
        _ => None,
    }
}

/// The string-array field `k`, present exactly once, as a `Vec<String>`.
fn req_arr_x(ms: &Vec<(Vec<char>, JsonValue)>, k: &str) -> (r: Option<Vec<String>>)
    ensures
        match r {
            Some(out) => req_arr(members_model(ms@), k@) == Some(out.deep_view()),
            None => req_arr(members_model(ms@), k@) is None,
        },
{
    if count_key_x(ms, k) != 1 {
        return None;
    }
    let idx = match find_key_x(ms, k) {
        Some(idx) => idx,
        None => return None,
    };
    match &ms[idx].1 {
        JsonValue::StrArr(vs) => {
            let mut out: Vec<String> = Vec::new();
            let mut i: usize = 0;
            proof {
                assert(out.deep_view() =~= vs.deep_view().take(0));
            }
            while i < vs.len()
                invariant
                    i <= vs@.len(),
                    vs@.len() == vs.len(),
                    out.deep_view() == vs.deep_view().take(i as int),
                decreases vs@.len() - i,
            {
                let ghost before = out.deep_view();
                out.push(string_from_chars(vs[i].as_slice()));
                proof {
                    assert(out.deep_view() =~~= before.push(vs@[i as int]@));
                    assert(vs.deep_view()[i as int] =~= vs@[i as int]@);
                    assert(out.deep_view() =~= vs.deep_view().take(i as int + 1));
                }
                i = i + 1;
            }
            proof {
                assert(vs.deep_view().take(i as int) =~= vs.deep_view());
            }
            Some(out)
        },
        _ => None,
    }
}

/// Builds the typed event a parsed payload describes, if any.
pub fn event_of_members(ms: &Vec<(Vec<char>, JsonValue)>) -> (r: Option<crate::event::AgentEvent>)
    ensures
        match r {
            Some(e) => sp_event_of_members(members_model(ms@)) == Some(e.model()),
            None => sp_event_of_members(members_model(ms@)) is None,
        },
{
    if count_key_x(ms, "type") != 1 {
        return None;
    }
    let idx = match find_key_x(ms, "type") {
        Some(idx) => idx,
        None => return None,
    };
    let t: &Vec<char> = match &ms[idx].1 {
        JsonValue::Str(cs) => cs,
        _ => return None,
    };
    if chars_eq_str(t.as_slice(), "file_write") {
        let p = match req_str_x(ms, "path") {
            Some(p) => p,
            None => return None,
        };
        let c = match req_str_x(ms, "content") {
            Some(c) => c,
            None => return None,
        };
        Some(crate::event::AgentEvent::FileWrite { path: p, content: c })
    } else if chars_eq_str(t.as_slice(), "status") {
        let m = match req_str_x(ms, "message") {
            Some(m) => m,
            None => return None,
        };
        Some(crate::event::AgentEvent::Status { message: m })
    } else if chars_eq_str(t.as_slice(), "done") {
        let su = match req_str_x(ms, "summary") {
            Some(su) => su,
            None => return None,
        };
        let fs = match req_arr_x(ms, "files") {
            Some(fs) => fs,
            None => return None,
        };
        Some(crate::event::AgentEvent::Done { summary: su, files: fs })
    } else if chars_eq_str(t.as_slice(), "error") {
        let m = match req_str_x(ms, "message") {
            Some(m) => m,
            None => return None,
        };
        Some(crate::event::AgentEvent::Error { message: m })
    } else {
        None
    }
}

} // verus!
