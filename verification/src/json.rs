//! A small JSON document model with a verified byte-level codec.
//!
//! `JsonValue` is the executable tree; `JsonModel` is its mathematical view.
//! `ser` gives the canonical byte serialization of a model (compact, with
//! controls escaped), and `encode_value` produces exactly those bytes. The
//! parser accepts the general form — insignificant whitespace between
//! tokens, every escape including `\uXXXX` with surrogate pairs — and is
//! proved to read the canonical form back: parsing `ser(m)` yields exactly
//! `m` (see `lemma_parse_ser`).
//!
//! Number values carry their lexeme (the literal characters), so a document
//! round-trips without any floating-point interpretation; helpers convert
//! between `u64` and decimal lexemes for the fields the wire protocol reads.

use vstd::prelude::*;

verus! {

use vstd::string::StrSliceExecFns;

/// Mathematical shape of a JSON document: strings as character sequences,
/// numbers as their lexemes, objects as ordered key/value member lists.
#[verifier::ext_equal]
pub enum JsonModel {
    Null,
    Bool(bool),
    Num(Seq<char>),
    Str(Seq<char>),
    Arr(Seq<JsonModel>),
    Obj(Seq<(Seq<char>, JsonModel)>),
}

/// A JSON document as held and built by executable code.
#[derive(Debug, PartialEq, Eq)]
pub enum JsonValue {
    Null,
    Bool(bool),
    Num(String),
    Str(String),
    Arr(Vec<JsonValue>),
    Obj(Vec<(String, JsonValue)>),
}

pub open spec fn jmodel(v: JsonValue) -> JsonModel
    decreases v, 1int,
{
    match v {
        JsonValue::Null => JsonModel::Null,
        JsonValue::Bool(b) => JsonModel::Bool(b),
        JsonValue::Num(s) => JsonModel::Num(s@),
        JsonValue::Str(s) => JsonModel::Str(s@),
        JsonValue::Arr(items) => JsonModel::Arr(jmodel_seq(items@)),
        JsonValue::Obj(members) => JsonModel::Obj(jmodel_members(members@)),
    }
}

pub open spec fn jmodel_seq(s: Seq<JsonValue>) -> Seq<JsonModel>
    decreases s, 0int,
{
    if s.len() == 0 {
        Seq::empty()
    } else {
        jmodel_seq(s.drop_last()).push(jmodel(s.last()))
    }
}

pub open spec fn jmodel_members(s: Seq<(String, JsonValue)>) -> Seq<(Seq<char>, JsonModel)>
    decreases s, 0int,
{
    if s.len() == 0 {
        Seq::empty()
    } else {
        jmodel_members(s.drop_last()).push((s.last().0@, jmodel(s.last().1)))
    }
}

impl View for JsonValue {
    type V = JsonModel;

    open spec fn view(&self) -> JsonModel {
        jmodel(*self)
    }
}

// ---------------------------------------------------------------------------
// Character and byte classes
// ---------------------------------------------------------------------------

pub open spec fn is_digit_byte(b: u8) -> bool {
    0x30 <= b <= 0x39
}

/// Bytes that may occur anywhere in a number lexeme.
pub open spec fn is_num_byte(b: u8) -> bool {
    is_digit_byte(b) || b == 0x2d || b == 0x2b || b == 0x2e || b == 0x65 || b == 0x45
}

pub open spec fn is_digit_char(c: char) -> bool {
    '0' <= c <= '9'
}

pub open spec fn is_num_char(c: char) -> bool {
    is_digit_char(c) || c == '-' || c == '+' || c == '.' || c == 'e' || c == 'E'
}

/// A number lexeme the canonical serializer may emit: a nonempty run of
/// number characters that opens with a digit or a minus sign.
pub open spec fn wf_num_lexeme(lex: Seq<char>) -> bool {
    &&& lex.len() > 0
    &&& forall|i: int| 0 <= i < lex.len() ==> is_num_char(#[trigger] lex[i])
    &&& (is_digit_char(lex[0]) || lex[0] == '-')
}

/// Documents whose serialization is well defined and reparsable.
pub open spec fn wf_model(m: JsonModel) -> bool
    decreases m, 1int,
{
    match m {
        JsonModel::Null => true,
        JsonModel::Bool(_) => true,
        JsonModel::Num(lex) => wf_num_lexeme(lex),
        JsonModel::Str(_) => true,
        JsonModel::Arr(es) => wf_elems(es),
        JsonModel::Obj(ms) => wf_members(ms),
    }
}

pub open spec fn wf_elems(es: Seq<JsonModel>) -> bool
    decreases es, 0int,
{
    es.len() == 0 || (wf_model(es[0]) && wf_elems(es.drop_first()))
}

pub open spec fn wf_members(ms: Seq<(Seq<char>, JsonModel)>) -> bool
    decreases ms, 0int,
{
    ms.len() == 0 || (wf_model(ms[0].1) && wf_members(ms.drop_first()))
}

// ---------------------------------------------------------------------------
// Canonical serialization
// ---------------------------------------------------------------------------

/// Lowercase hexadecimal digit for a value below 16.
pub open spec fn hex_digit(n: u8) -> u8 {
    if n < 10 {
        (0x30 + n) as u8
    } else {
        (0x57 + n) as u8
    }
}

/// How one byte of UTF-8 string content appears inside a string literal.
pub open spec fn esc_byte(b: u8) -> Seq<u8> {
    if b == 0x22 {
        seq![0x5cu8, 0x22u8]
    } else if b == 0x5c {
        seq![0x5cu8, 0x5cu8]
    } else if b < 0x20 {
        seq![0x5cu8, 0x75u8, 0x30u8, 0x30u8, hex_digit(b / 16), hex_digit(b % 16)]
    } else {
        seq![b]
    }
}

pub open spec fn esc_bytes(bs: Seq<u8>) -> Seq<u8>
    decreases bs.len(),
{
    if bs.len() == 0 {
        Seq::empty()
    } else {
        esc_byte(bs[0]) + esc_bytes(bs.drop_first())
    }
}

/// ASCII bytes of a lexeme's characters.
pub open spec fn ascii_bytes(cs: Seq<char>) -> Seq<u8> {
    Seq::new(cs.len(), |i: int| cs[i] as u8)
}

/// Canonical serialization of a document: no inter-token whitespace, quotes
/// and backslashes escaped, control bytes written as `\u00xx`.
pub open spec fn ser(m: JsonModel) -> Seq<u8>
    decreases m, 1int,
{
    match m {
        JsonModel::Null => seq!['n' as u8, 'u' as u8, 'l' as u8, 'l' as u8],
        JsonModel::Bool(b) => if b {
            seq!['t' as u8, 'r' as u8, 'u' as u8, 'e' as u8]
        } else {
            seq!['f' as u8, 'a' as u8, 'l' as u8, 's' as u8, 'e' as u8]
        },
        JsonModel::Num(lex) => ascii_bytes(lex),
        JsonModel::Str(cs) => ser_string(cs),
        JsonModel::Arr(es) => seq!['[' as u8] + ser_elems(es) + seq![']' as u8],
        JsonModel::Obj(ms) => seq!['{' as u8] + ser_members(ms) + seq!['}' as u8],
    }
}

/// Comma-separated serializations of array elements.
pub open spec fn ser_elems(es: Seq<JsonModel>) -> Seq<u8>
    decreases es, 0int,
{
    if es.len() == 0 {
        Seq::empty()
    } else if es.len() == 1 {
        ser(es[0])
    } else {
        ser(es[0]) + seq![',' as u8] + ser_elems(es.drop_first())
    }
}

/// Comma-separated `"key":value` serializations of object members.
pub open spec fn ser_members(ms: Seq<(Seq<char>, JsonModel)>) -> Seq<u8>
    decreases ms, 0int,
{
    if ms.len() == 0 {
        Seq::empty()
    } else {
        let head = ser_member(ms[0]);
        if ms.len() == 1 {
            head
        } else {
            head + seq![',' as u8] + ser_members(ms.drop_first())
        }
    }
}

/// Serialization of a string value: quoted, escaped UTF-8 content.
pub open spec fn ser_string(cs: Seq<char>) -> Seq<u8> {
    seq![0x22u8] + esc_bytes(vstd::utf8::encode_utf8(cs)) + seq![0x22u8]
}

pub open spec fn ser_member(kv: (Seq<char>, JsonModel)) -> Seq<u8>
    decreases kv, 1int,
{
    ser_string(kv.0) + seq![':' as u8] + ser(kv.1)
}

// ---------------------------------------------------------------------------
// The parser, as a mathematical function
//
// The executable parser is proved to return exactly what these functions
// denote. Recursive calls advance through `adv`, which only restates that a
// successful sub-parse moved forward (see `lemma_parse_value_advances`); it
// gives the recursion a syntactic measure.
// ---------------------------------------------------------------------------

pub open spec fn adv(pos: int, p: int) -> int {
    if p > pos {
        p
    } else {
        pos + 1
    }
}

/// The four bytes JSON treats as insignificant whitespace.
pub open spec fn is_ws(b: u8) -> bool {
    b == 0x20 || b == 0x09 || b == 0x0a || b == 0x0d
}

/// First position at or after `pos` that does not hold whitespace.
pub open spec fn ws_end(s: Seq<u8>, pos: int) -> int
    decreases s.len() - pos, 0int,
{
    if 0 <= pos < s.len() && is_ws(s[pos]) {
        ws_end(s, pos + 1)
    } else {
        pos
    }
}

/// Value of one hexadecimal digit byte, either case.
pub open spec fn hex_val(b: u8) -> Option<u8> {
    if 0x30 <= b <= 0x39 {
        Some((b - 0x30) as u8)
    } else if 0x61 <= b <= 0x66 {
        Some((b - 0x61 + 10) as u8)
    } else if 0x41 <= b <= 0x46 {
        Some((b - 0x41 + 10) as u8)
    } else {
        None
    }
}

/// Content byte named by a one-character escape, if `e` is such an escape.
pub open spec fn simple_unescape(e: u8) -> Option<u8> {
    if e == 0x22 {
        Some(0x22u8)
    } else if e == 0x5c {
        Some(0x5cu8)
    } else if e == 0x2f {
        Some(0x2fu8)
    } else if e == 'b' as u8 {
        Some(8u8)
    } else if e == 'f' as u8 {
        Some(12u8)
    } else if e == 'n' as u8 {
        Some(10u8)
    } else if e == 'r' as u8 {
        Some(13u8)
    } else if e == 't' as u8 {
        Some(9u8)
    } else {
        None
    }
}

/// Content bytes of a string literal, read from just after the opening quote
/// up to and past the closing quote. A `\uXXXX` escape contributes the UTF-8
/// bytes of its code point; a surrogate pair of two such escapes contributes
/// the bytes of the combined scalar, and a lone surrogate is rejected.
pub open spec fn spec_parse_str_bytes(s: Seq<u8>, pos: int, acc: Seq<u8>) -> Option<(Seq<u8>, int)>
    decreases s.len() - pos, 0int,
{
    if !(0 <= pos < s.len()) {
        None
    } else if s[pos] == 0x22 {
        Some((acc, pos + 1))
    } else if s[pos] == 0x5c {
        if pos + 1 >= s.len() {
            None
        } else {
            let e = s[pos + 1];
            match simple_unescape(e) {
                Some(u) => spec_parse_str_bytes(s, pos + 2, acc.push(u)),
                None => {
                    if e == 0x75 && pos + 6 <= s.len() {
                        match (hex_val(s[pos + 2]), hex_val(s[pos + 3]), hex_val(s[pos + 4]), hex_val(s[pos + 5])) {
                            (Some(h1), Some(h2), Some(h3), Some(h4)) => {
                                let cp = h1 * 4096 + h2 * 256 + h3 * 16 + h4;
                                if cp < 0xd800 || cp >= 0xe000 {
                                    spec_parse_str_bytes(
                                        s,
                                        pos + 6,
                                        acc + vstd::utf8::encode_scalar(cp as u32),
                                    )
                                } else if cp < 0xdc00 {
                                    spec_parse_surrogate_pair(s, pos, acc, cp)
                                } else {
                                    None
                                }
                            },
                            _ => None,
                        }
                    } else {
                        None
                    }
                },
            }
        }
    } else {
        spec_parse_str_bytes(s, pos + 1, acc.push(s[pos]))
    }
}

/// The second half of a surrogate pair: a low-surrogate `\uXXXX` escape
/// right after the high one at `pos`, combining into one scalar.
pub open spec fn spec_parse_surrogate_pair(s: Seq<u8>, pos: int, acc: Seq<u8>, hi: int) -> Option<
    (Seq<u8>, int),
>
    decreases s.len() - pos - 6, 1int,
{
    if !(0 <= pos && pos + 12 <= s.len()) {
        None
    } else if s[pos + 6] == 0x5c && s[pos + 7] == 0x75 {
        match (hex_val(s[pos + 8]), hex_val(s[pos + 9]), hex_val(s[pos + 10]), hex_val(s[pos + 11])) {
            (Some(g1), Some(g2), Some(g3), Some(g4)) => {
                let lo = g1 * 4096 + g2 * 256 + g3 * 16 + g4;
                if 0xdc00 <= lo < 0xe000 {
                    let combined = 0x10000 + (hi - 0xd800) * 0x400 + (lo - 0xdc00);
                    spec_parse_str_bytes(
                        s,
                        pos + 12,
                        acc + vstd::utf8::encode_scalar(combined as u32),
                    )
                } else {
                    None
                }
            },
            _ => None,
        }
    } else {
        None
    }
}

/// A string literal starting at `pos`: its character content and the position
/// past the closing quote. Content that is not valid UTF-8 is rejected.
pub open spec fn spec_parse_string(s: Seq<u8>, pos: int) -> Option<(Seq<char>, int)>
    decreases s.len() - pos, 1int,
{
    if 0 <= pos < s.len() && s[pos] == 0x22 {
        match spec_parse_str_bytes(s, pos + 1, Seq::empty()) {
            Some((bs, p)) => if vstd::utf8::valid_utf8(bs) {
                Some((vstd::utf8::decode_utf8(bs), p))
            } else {
                None
            },
            None => None,
        }
    } else {
        None
    }
}

/// First position at or after `pos` that does not hold a number byte.
pub open spec fn num_end(s: Seq<u8>, pos: int) -> int
    decreases s.len() - pos, 0int,
{
    if 0 <= pos < s.len() && is_num_byte(s[pos]) {
        num_end(s, pos + 1)
    } else {
        pos
    }
}

pub open spec fn ascii_chars(bs: Seq<u8>) -> Seq<char> {
    Seq::new(bs.len(), |i: int| bs[i] as char)
}

/// One JSON value at `pos`, past any leading whitespace: the model it
/// denotes and the position just past it. `adv` only restates that the
/// whitespace scan cannot move backwards, giving the recursion its measure.
pub open spec fn spec_parse_value(s: Seq<u8>, pos: int) -> Option<(JsonModel, int)>
    decreases s.len() - pos, 3int,
{
    if !(0 <= pos <= s.len()) {
        None
    } else {
        let w = adv(pos - 1, ws_end(s, pos));
        if w >= s.len() {
            None
        } else {
        let b = s[w];
        if b == 'n' as u8 {
            if w + 4 <= s.len() && s[w + 1] == 'u' as u8 && s[w + 2] == 'l' as u8 && s[w + 3] == 'l' as u8 {
                Some((JsonModel::Null, w + 4))
            } else {
                None
            }
        } else if b == 't' as u8 {
            if w + 4 <= s.len() && s[w + 1] == 'r' as u8 && s[w + 2] == 'u' as u8 && s[w + 3] == 'e' as u8 {
                Some((JsonModel::Bool(true), w + 4))
            } else {
                None
            }
        } else if b == 'f' as u8 {
            if w + 5 <= s.len() && s[w + 1] == 'a' as u8 && s[w + 2] == 'l' as u8 && s[w + 3] == 's' as u8 && s[w + 4] == 'e' as u8 {
                Some((JsonModel::Bool(false), w + 5))
            } else {
                None
            }
        } else if b == 0x22 {
            match spec_parse_string(s, w) {
                Some((cs, p)) => Some((JsonModel::Str(cs), p)),
                None => None,
            }
        } else if is_digit_byte(b) || b == 0x2d {
            let e = num_end(s, w);
            Some((JsonModel::Num(ascii_chars(s.subrange(w, e))), e))
        } else if b == '[' as u8 {
            let e = adv(w, ws_end(s, w + 1));
            if e < s.len() && s[e] == ']' as u8 {
                Some((JsonModel::Arr(Seq::empty()), e + 1))
            } else {
                match spec_parse_elems(s, w + 1) {
                    Some((ms, p)) => Some((JsonModel::Arr(ms), p)),
                    None => None,
                }
            }
        } else if b == '{' as u8 {
            let e = adv(w, ws_end(s, w + 1));
            if e < s.len() && s[e] == '}' as u8 {
                Some((JsonModel::Obj(Seq::empty()), e + 1))
            } else {
                match spec_parse_members(s, w + 1) {
                    Some((ms, p)) => Some((JsonModel::Obj(ms), p)),
                    None => None,
                }
            }
        } else {
            None
        }
        }
    }
}

/// One or more comma-separated values, then the closing bracket.
pub open spec fn spec_parse_elems(s: Seq<u8>, pos: int) -> Option<(Seq<JsonModel>, int)>
    decreases s.len() - pos, 4int,
{
    if pos < 0 || pos > s.len() {
        None
    } else {
        match spec_parse_value(s, pos) {
            None => None,
            Some((m, p0)) => {
                let p = adv(pos, p0);
                let q = adv(p - 1, ws_end(s, p));
                if q < s.len() && s[q] == ',' as u8 {
                    match spec_parse_elems(s, q + 1) {
                        None => None,
                        Some((ms, t)) => Some((seq![m] + ms, t)),
                    }
                } else if q < s.len() && s[q] == ']' as u8 {
                    Some((seq![m], q + 1))
                } else {
                    None
                }
            },
        }
    }
}

/// One or more comma-separated `"key":value` members, then the closing brace.
pub open spec fn spec_parse_members(s: Seq<u8>, pos: int) -> Option<(Seq<(Seq<char>, JsonModel)>, int)>
    decreases s.len() - pos, 4int,
{
    if pos < 0 || pos > s.len() {
        None
    } else {
        let k0 = adv(pos - 1, ws_end(s, pos));
        match spec_parse_string(s, k0) {
            None => None,
            Some((k, q0)) => {
                let q = adv(k0, q0);
                let c = adv(q - 1, ws_end(s, q));
                if c < s.len() && s[c] == ':' as u8 {
                    match spec_parse_value(s, c + 1) {
                        None => None,
                        Some((m, r0)) => {
                            let r = adv(c + 1, r0);
                            let rr = adv(r - 1, ws_end(s, r));
                            if rr < s.len() && s[rr] == ',' as u8 {
                                match spec_parse_members(s, rr + 1) {
                                    None => None,
                                    Some((ms, t)) => Some((seq![(k, m)] + ms, t)),
                                }
                            } else if rr < s.len() && s[rr] == '}' as u8 {
                                Some((seq![(k, m)], rr + 1))
                            } else {
                                None
                            }
                        },
                    }
                } else {
                    None
                }
            },
        }
    }
}

/// A whole document: one value covering the entire input, with whitespace
/// allowed around it.
pub open spec fn spec_parse(s: Seq<u8>) -> Option<JsonModel> {
    match spec_parse_value(s, 0) {
        Some((m, p)) => if adv(p - 1, ws_end(s, p)) == s.len() {
            Some(m)
        } else {
            None
        },
        None => None,
    }
}

// ---------------------------------------------------------------------------
// A successful sub-parse always moves forward
// ---------------------------------------------------------------------------

pub proof fn lemma_parse_str_bytes_advances(s: Seq<u8>, pos: int, acc: Seq<u8>)
    ensures
        spec_parse_str_bytes(s, pos, acc) matches Some((bs, p)) ==> pos < p <= s.len(),
    decreases s.len() - pos, 0int,
{
    if 0 <= pos < s.len() && s[pos] != 0x22 {
        if s[pos] == 0x5c {
            if pos + 1 < s.len() {
                let e = s[pos + 1];
                match simple_unescape(e) {
                    Some(u) => lemma_parse_str_bytes_advances(s, pos + 2, acc.push(u)),
                    None => {
                        if e == 0x75 && pos + 6 <= s.len() {
                            match (hex_val(s[pos + 2]), hex_val(s[pos + 3]), hex_val(s[pos + 4]), hex_val(s[pos + 5])) {
                                (Some(h1), Some(h2), Some(h3), Some(h4)) => {
                                    let cp = h1 * 4096 + h2 * 256 + h3 * 16 + h4;
                                    if cp < 0xd800 || cp >= 0xe000 {
                                        lemma_parse_str_bytes_advances(
                                            s,
                                            pos + 6,
                                            acc + vstd::utf8::encode_scalar(cp as u32),
                                        );
                                    } else if cp < 0xdc00 && pos + 12 <= s.len() && s[pos + 6]
                                        == 0x5c && s[pos + 7] == 0x75 {
                                        match (
                                            hex_val(s[pos + 8]),
                                            hex_val(s[pos + 9]),
                                            hex_val(s[pos + 10]),
                                            hex_val(s[pos + 11]),
                                        ) {
                                            (Some(g1), Some(g2), Some(g3), Some(g4)) => {
                                                let lo = g1 * 4096 + g2 * 256 + g3 * 16 + g4;
                                                if 0xdc00 <= lo < 0xe000 {
                                                    let combined = 0x10000 + (cp - 0xd800) * 0x400
                                                        + (lo - 0xdc00);
                                                    lemma_parse_str_bytes_advances(
                                                        s,
                                                        pos + 12,
                                                        acc + vstd::utf8::encode_scalar(
                                                            combined as u32,
                                                        ),
                                                    );
                                                }
                                                assert(spec_parse_surrogate_pair(s, pos, acc, cp)
                                                    matches Some((bs, p)) ==> pos < p <= s.len());
                                            },
                                            _ => {},
                                        }
                                    }
                                },
                                _ => {},
                            }
                        }
                    },
                }
            }
        } else {
            lemma_parse_str_bytes_advances(s, pos + 1, acc.push(s[pos]));
        }
    }
}

pub proof fn lemma_parse_string_advances(s: Seq<u8>, pos: int)
    ensures
        spec_parse_string(s, pos) matches Some((cs, p)) ==> pos < p <= s.len(),
    decreases s.len() - pos, 1int,
{
    if 0 <= pos < s.len() && s[pos] == 0x22 {
        lemma_parse_str_bytes_advances(s, pos + 1, Seq::empty());
    }
}

pub proof fn lemma_num_end_bounds(s: Seq<u8>, pos: int)
    requires
        0 <= pos <= s.len(),
    ensures
        pos <= num_end(s, pos) <= s.len(),
    decreases s.len() - pos,
{
    if pos < s.len() && is_num_byte(s[pos]) {
        lemma_num_end_bounds(s, pos + 1);
    }
}

pub proof fn lemma_ws_end_bounds(s: Seq<u8>, pos: int)
    requires
        0 <= pos <= s.len(),
    ensures
        pos <= ws_end(s, pos) <= s.len(),
        adv(pos - 1, ws_end(s, pos)) == ws_end(s, pos),
    decreases s.len() - pos,
{
    if pos < s.len() && is_ws(s[pos]) {
        lemma_ws_end_bounds(s, pos + 1);
    }
}

/// At a non-whitespace byte (or at the end) the whitespace scan stands still.
pub proof fn lemma_ws_end_at_nonws(s: Seq<u8>, pos: int)
    requires
        0 <= pos <= s.len(),
        pos == s.len() || !is_ws(s[pos]),
    ensures
        ws_end(s, pos) == pos,
        adv(pos - 1, pos) == pos,
{
}

pub proof fn lemma_parse_value_advances(s: Seq<u8>, pos: int)
    ensures
        spec_parse_value(s, pos) matches Some((m, p)) ==> pos < p <= s.len(),
    decreases s.len() - pos, 3int,
{
    if 0 <= pos <= s.len() {
        let w = adv(pos - 1, ws_end(s, pos));
        if w < s.len() {
            let b = s[w];
            if b == 0x22 {
                lemma_parse_string_advances(s, w);
            } else if is_digit_byte(b) || b == 0x2d {
                lemma_num_end_bounds(s, w + 1);
            } else if b == '[' as u8 {
                let e = adv(w, ws_end(s, w + 1));
                if !(e < s.len() && s[e] == ']' as u8) {
                    lemma_parse_elems_advances(s, w + 1);
                }
            } else if b == '{' as u8 {
                let e = adv(w, ws_end(s, w + 1));
                if !(e < s.len() && s[e] == '}' as u8) {
                    lemma_parse_members_advances(s, w + 1);
                }
            }
        }
    }
}

pub proof fn lemma_parse_elems_advances(s: Seq<u8>, pos: int)
    ensures
        spec_parse_elems(s, pos) matches Some((ms, p)) ==> pos < p <= s.len(),
    decreases s.len() - pos, 4int,
{
    if 0 <= pos <= s.len() {
        lemma_parse_value_advances(s, pos);
        match spec_parse_value(s, pos) {
            None => {},
            Some((m, p0)) => {
                let p = adv(pos, p0);
                let q = adv(p - 1, ws_end(s, p));
                if q < s.len() && s[q] == ',' as u8 {
                    lemma_parse_elems_advances(s, q + 1);
                }
            },
        }
    }
}

// ---------------------------------------------------------------------------
// Parsing canonical serializations back
// ---------------------------------------------------------------------------

/// Reading escaped string content back: from `pos`, the input holds the
/// escaped form of the content bytes `cs` followed by the closing quote, and
/// the scan returns exactly `cs` appended to what it had so far.
pub proof fn lemma_parse_esc(s: Seq<u8>, pos: int, acc: Seq<u8>, cs: Seq<u8>)
    requires
        0 <= pos,
        pos + esc_bytes(cs).len() + 1 <= s.len(),
        s.subrange(pos, pos + esc_bytes(cs).len()) == esc_bytes(cs),
        s[pos + esc_bytes(cs).len()] == 0x22,
    ensures
        spec_parse_str_bytes(s, pos, acc) == Some((acc + cs, pos + esc_bytes(cs).len() + 1)),
    decreases cs.len(),
{
    let ebs = esc_bytes(cs);
    let esclen = ebs.len();
    assert(forall|i: int| 0 <= i < esclen ==> s[pos + i] == #[trigger] ebs[i]) by {
        assert(forall|i: int| 0 <= i < esclen ==> s.subrange(pos, pos + esclen)[i] == #[trigger] ebs[i]);
    }
    if cs.len() == 0 {
        assert(acc + cs =~= acc);
    } else {
        let c0 = cs[0];
        let rest = cs.drop_first();
        let k = esc_byte(c0).len();
        let restlen = esc_bytes(rest).len();
        assert(ebs == esc_byte(c0) + esc_bytes(rest));
        assert(forall|i: int| 0 <= i < k ==> #[trigger] ebs[i] == esc_byte(c0)[i]);
        assert(forall|i: int| 0 <= i < restlen ==> #[trigger] esc_bytes(rest)[i] == ebs[k + i]);
        assert(s.subrange(pos + k, pos + k + restlen) =~= esc_bytes(rest)) by {
            assert(forall|i: int| 0 <= i < restlen ==> s.subrange(pos + k, pos + k + restlen)[i]
                == s[pos + k + i] && s[pos + k + i] == #[trigger] esc_bytes(rest)[i]);
        }
        assert(s[pos + k + restlen] == 0x22);
        assert(acc.push(c0) + rest =~= acc + cs);
        if c0 == 0x22 {
            assert(ebs[0] == 0x5c && ebs[1] == 0x22);
            assert(s[pos] == ebs[0] && s[pos + 1] == ebs[1]);
            lemma_parse_esc(s, pos + 2, acc.push(c0), rest);
        } else if c0 == 0x5c {
            assert(ebs[0] == 0x5c && ebs[1] == 0x5c);
            assert(s[pos] == ebs[0] && s[pos + 1] == ebs[1]);
            lemma_parse_esc(s, pos + 2, acc.push(c0), rest);
        } else if c0 < 0x20 {
            assert(ebs[0] == 0x5c && ebs[1] == 0x75 && ebs[2] == 0x30 && ebs[3] == 0x30
                && ebs[4] == hex_digit(c0 / 16) && ebs[5] == hex_digit(c0 % 16));
            assert(s[pos] == ebs[0] && s[pos + 1] == ebs[1]);
            assert(s[pos + 2] == ebs[2] && s[pos + 3] == ebs[3]);
            assert(s[pos + 4] == ebs[4] && s[pos + 5] == ebs[5]);
            assert(simple_unescape(0x75) is None);
            assert(hex_val(0x30) == Some(0u8));
            assert(hex_val(hex_digit(c0 / 16)) == Some((c0 / 16) as u8));
            assert(hex_val(hex_digit(c0 % 16)) == Some((c0 % 16) as u8));
            let cp = 0 * 4096 + 0 * 256 + (c0 / 16) * 16 + (c0 % 16);
            assert(cp == c0) by {
                vstd::arithmetic::div_mod::lemma_fundamental_div_mod(c0 as int, 16);
            }
            assert((c0 as u32) & 0x7F == c0 as u32) by (bit_vector)
                requires
                    c0 < 0x20,
            ;
            assert(vstd::utf8::encode_scalar(c0 as u32) =~= seq![c0]);
            assert(acc + vstd::utf8::encode_scalar(cp as u32) =~= acc.push(c0));
            lemma_parse_esc(s, pos + 6, acc.push(c0), rest);
        } else {
            assert(ebs[0] == c0);
            assert(s[pos] == ebs[0] && c0 != 0x22 && c0 != 0x5c);
            lemma_parse_esc(s, pos + 1, acc.push(c0), rest);
        }
    }
}

proof fn lemma_subrange_of_subrange(s: Seq<u8>, pos: int, w: Seq<u8>, a: int, b: int)
    requires
        0 <= pos,
        pos + w.len() <= s.len(),
        s.subrange(pos, pos + w.len()) == w,
        0 <= a <= b <= w.len(),
    ensures
        s.subrange(pos + a, pos + b) == w.subrange(a, b),
{
    assert(s.subrange(pos + a, pos + b) =~= w.subrange(a, b)) by {
        assert(forall|i: int| 0 <= i < b - a ==> #[trigger] s.subrange(pos + a, pos + b)[i] == s[pos + a + i]);
        assert(forall|i: int| 0 <= i < w.len() ==> s[pos + i] == #[trigger] w[i]) by {
            assert(forall|i: int| 0 <= i < w.len() ==> s.subrange(pos, pos + w.len())[i] == #[trigger] w[i]);
        }
        assert(forall|i: int| 0 <= i < b - a ==> #[trigger] w.subrange(a, b)[i] == w[a + i]);
    }
}

/// Bytes a serialized value can open with.
pub open spec fn is_value_start_byte(b: u8) -> bool {
    b == 'n' as u8 || b == 't' as u8 || b == 'f' as u8 || b == 0x22 || is_digit_byte(b) || b
        == 0x2d || b == '[' as u8 || b == '{' as u8
}

pub proof fn lemma_ser_shape(m: JsonModel)
    requires
        wf_model(m),
    ensures
        ser(m).len() > 0,
        is_value_start_byte(ser(m)[0]),
{
    match m {
        JsonModel::Null => {},
        JsonModel::Bool(_) => {},
        JsonModel::Num(lex) => {
            assert(ser(m)[0] == lex[0] as u8);
        },
        JsonModel::Str(cs) => {
            assert(ser(m)[0] == 0x22);
        },
        JsonModel::Arr(es) => {
            assert(ser(m)[0] == '[' as u8);
        },
        JsonModel::Obj(ms) => {
            assert(ser(m)[0] == '{' as u8);
        },
    }
}

pub proof fn lemma_num_end_exact(s: Seq<u8>, pos: int, e: int)
    requires
        0 <= pos <= e <= s.len(),
        forall|j: int| pos <= j < e ==> is_num_byte(#[trigger] s[j]),
        e < s.len() ==> !is_num_byte(s[e]),
    ensures
        num_end(s, pos) == e,
    decreases e - pos,
{
    if pos < e {
        lemma_num_end_exact(s, pos + 1, e);
    }
}

/// A canonical string literal parses back to its character content.
pub proof fn lemma_parse_ser_string(s: Seq<u8>, pos: int, cs: Seq<char>)
    requires
        0 <= pos,
        pos + ser_string(cs).len() <= s.len(),
        s.subrange(pos, pos + ser_string(cs).len()) == ser_string(cs),
    ensures
        spec_parse_string(s, pos) == Some((cs, pos + ser_string(cs).len())),
{
    broadcast use vstd::utf8::encode_utf8_valid_utf8, vstd::utf8::encode_utf8_decode_utf8;

    let w = ser_string(cs);
    let content = vstd::utf8::encode_utf8(cs);
    let eb = esc_bytes(content);
    let eblen = eb.len() as int;
    assert(w.len() == eblen + 2);
    assert(forall|i: int| 0 <= i < w.len() ==> s[pos + i] == #[trigger] w[i]) by {
        assert(forall|i: int| 0 <= i < w.len() ==> s.subrange(pos, pos + w.len())[i] == #[trigger] w[i]);
    }
    assert(w[0] == 0x22);
    assert(s[pos] == w[0]);
    assert(s.subrange(pos + 1, pos + 1 + eblen) == eb) by {
        lemma_subrange_of_subrange(s, pos, w, 1, 1 + eblen);
        assert(w.subrange(1, 1 + eblen) =~= eb);
    }
    assert(w[eblen + 1] == 0x22);
    assert(s[pos + 1 + eblen] == w[1 + eblen]);
    lemma_parse_esc(s, pos + 1, Seq::empty(), content);
    assert(Seq::empty() + content =~= content);
}

/// A canonically serialized value, lying at `pos` and not followed by a byte
/// that could extend a number lexeme, parses back to exactly its model.
pub proof fn lemma_parse_ser_val(s: Seq<u8>, pos: int, m: JsonModel)
    requires
        wf_model(m),
        0 <= pos,
        pos + ser(m).len() <= s.len(),
        s.subrange(pos, pos + ser(m).len()) == ser(m),
        pos + ser(m).len() < s.len() ==> !is_num_byte(s[pos + ser(m).len()]),
    ensures
        spec_parse_value(s, pos) == Some((m, pos + ser(m).len())),
    decreases m, 1int,
{
    let w = ser(m);
    let wlen = w.len();
    lemma_ser_shape(m);
    assert(forall|i: int| 0 <= i < wlen ==> s[pos + i] == #[trigger] w[i]) by {
        assert(forall|i: int| 0 <= i < wlen ==> s.subrange(pos, pos + wlen)[i] == #[trigger] w[i]);
    }
    match m {
        JsonModel::Null => {
            assert(w[0] == 'n' as u8 && w[1] == 'u' as u8 && w[2] == 'l' as u8 && w[3] == 'l' as u8);
            assert(s[pos] == w[0] && s[pos + 1] == w[1] && s[pos + 2] == w[2] && s[pos + 3] == w[3]);
            assert(spec_parse_value(s, pos) =~~= Some((m, pos + ser(m).len() as int)));
        },
        JsonModel::Bool(v) => {
            if v {
                assert(w[0] == 't' as u8 && w[1] == 'r' as u8 && w[2] == 'u' as u8 && w[3] == 'e' as u8);
                assert(s[pos] == w[0] && s[pos + 1] == w[1] && s[pos + 2] == w[2] && s[pos + 3] == w[3]);
            } else {
                assert(w[0] == 'f' as u8 && w[1] == 'a' as u8 && w[2] == 'l' as u8 && w[3] == 's' as u8
                    && w[4] == 'e' as u8);
                assert(s[pos] == w[0] && s[pos + 1] == w[1] && s[pos + 2] == w[2] && s[pos + 3] == w[3]
                    && s[pos + 4] == w[4]);
            }
            assert(spec_parse_value(s, pos) =~~= Some((m, pos + ser(m).len() as int)));
        },
        JsonModel::Num(lex) => {
            assert(wlen == lex.len());
            assert(forall|i: int| 0 <= i < lex.len() ==> #[trigger] w[i] == lex[i] as u8);
            assert(s[pos] == w[0]);
            assert(is_digit_byte(w[0]) || w[0] == 0x2d);
            assert forall|j: int| pos <= j < pos + wlen implies is_num_byte(#[trigger] s[j]) by {
                let i = j - pos;
                assert(s[j] == w[i]);
                assert(w[i] == lex[i] as u8);
                assert(is_num_char(lex[i]));
                let c = lex[i];
                if is_digit_char(c) {
                    assert(0x30 <= c as u8 <= 0x39);
                } else {
                    assert(c == '-' || c == '+' || c == '.' || c == 'e' || c == 'E');
                }
            }
            lemma_num_end_exact(s, pos, pos + wlen);
            assert(ascii_chars(s.subrange(pos, pos + wlen)) =~= lex) by {
                assert(forall|i: int| 0 <= i < lex.len() ==> #[trigger] ascii_chars(w)[i] == (lex[i] as u8) as char);
                assert(forall|i: int| 0 <= i < lex.len() ==> is_num_char(#[trigger] lex[i])
                    && (lex[i] as u8) as char == lex[i]);
            }
            assert(spec_parse_value(s, pos) =~~= Some((m, pos + ser(m).len() as int)));
        },
        JsonModel::Str(cs) => {
            assert(w == ser_string(cs));
            lemma_parse_ser_string(s, pos, cs);
            assert(s[pos] == w[0] && w[0] == 0x22);
            assert(spec_parse_value(s, pos) =~~= Some((m, pos + ser(m).len() as int)));
        },
        JsonModel::Arr(es) => {
            assert(s[pos] == w[0] && w[0] == '[' as u8);
            let inner = ser_elems(es);
            let innerlen = inner.len() as int;
            assert(w[wlen - 1] == ']' as u8 && s[pos + wlen - 1] == w[wlen - 1]);
            if es.len() == 0 {
                assert(inner =~= Seq::<u8>::empty());
                assert(wlen == 2);
                assert(s[pos + 1] == w[1] && w[1] == ']' as u8);
                assert(es =~= Seq::<JsonModel>::empty());
                assert(JsonModel::Arr(Seq::empty()) =~= m);
                assert(spec_parse_value(s, pos) == Some((m, pos + 2)));
            } else {
                assert(wf_model(es[0]));
                lemma_ser_shape(es[0]);
                assert(inner[0] == ser(es[0])[0]);
                assert(w[1] == inner[0]);
                assert(s[pos + 1] == w[1]);
                assert(is_value_start_byte(s[pos + 1]) && s[pos + 1] != ']' as u8);
                assert(s.subrange(pos + 1, pos + 1 + innerlen) == inner) by {
                    lemma_subrange_of_subrange(s, pos, w, 1, 1 + innerlen);
                    assert(w.subrange(1, 1 + innerlen) =~= inner);
                }
                lemma_parse_ser_elems(s, pos + 1, es);
                assert(!(pos + 1 < s.len() && s[pos + 1] == ']' as u8));
                assert(spec_parse_elems(s, pos + 1) == Some((es, pos + 1 + innerlen + 1)));
                assert(wlen == innerlen + 2);
                assert(spec_parse_value(s, pos) == Some((JsonModel::Arr(es), pos + 1 + innerlen + 1)));
            }
            assert(spec_parse_value(s, pos) =~~= Some((m, pos + ser(m).len() as int)));
        },
        JsonModel::Obj(ms) => {
            assert(s[pos] == w[0] && w[0] == '{' as u8);
            let inner = ser_members(ms);
            let innerlen = inner.len() as int;
            assert(w[wlen - 1] == '}' as u8 && s[pos + wlen - 1] == w[wlen - 1]);
            if ms.len() == 0 {
                assert(inner =~= Seq::<u8>::empty());
                assert(wlen == 2);
                assert(s[pos + 1] == w[1] && w[1] == '}' as u8);
                assert(ms =~= Seq::<(Seq<char>, JsonModel)>::empty());
                assert(JsonModel::Obj(Seq::empty()) =~= m);
                assert(spec_parse_value(s, pos) == Some((m, pos + 2)));
            } else {
                let head = ser_member(ms[0]);
                let kw = ser_string(ms[0].0);
                assert(head == kw + seq![':' as u8] + ser(ms[0].1));
                assert(kw.len() >= 2);
                assert(kw[0] == 0x22);
                assert(head[0] == kw[0]);
                assert(inner[0] == head[0]);
                assert(w[1] == inner[0]);
                assert(s[pos + 1] == w[1]);
                assert(s[pos + 1] != '}' as u8);
                assert(s.subrange(pos + 1, pos + 1 + innerlen) == inner) by {
                    lemma_subrange_of_subrange(s, pos, w, 1, 1 + innerlen);
                    assert(w.subrange(1, 1 + innerlen) =~= inner);
                }
                lemma_parse_ser_members(s, pos + 1, ms);
                assert(!(pos + 1 < s.len() && s[pos + 1] == '}' as u8));
                assert(spec_parse_members(s, pos + 1) == Some((ms, pos + 1 + innerlen + 1)));
                assert(wlen == innerlen + 2);
                assert(spec_parse_value(s, pos) == Some((JsonModel::Obj(ms), pos + 1 + innerlen + 1)));
            }
            assert(spec_parse_value(s, pos) =~~= Some((m, pos + ser(m).len() as int)));
        },
    }
}

/// Serialized array elements followed by `]` parse back to their models.
pub proof fn lemma_parse_ser_elems(s: Seq<u8>, pos: int, es: Seq<JsonModel>)
    requires
        wf_elems(es),
        es.len() > 0,
        0 <= pos,
        pos + ser_elems(es).len() + 1 <= s.len(),
        s.subrange(pos, pos + ser_elems(es).len()) == ser_elems(es),
        s[pos + ser_elems(es).len()] == ']' as u8,
    ensures
        spec_parse_elems(s, pos) == Some((es, pos + ser_elems(es).len() + 1)),
    decreases es, 0int,
{
    let w = ser_elems(es);
    let wlen = w.len();
    assert(forall|i: int| 0 <= i < wlen ==> s[pos + i] == #[trigger] w[i]) by {
        assert(forall|i: int| 0 <= i < wlen ==> s.subrange(pos, pos + wlen)[i] == #[trigger] w[i]);
    }
    assert(wf_model(es[0]));
    let w0 = ser(es[0]);
    let k = w0.len() as int;
    lemma_ser_shape(es[0]);
    if es.len() == 1 {
        assert(w == w0);
        lemma_parse_ser_val(s, pos, es[0]);
        let p = adv(pos, pos + k);
        assert(p == pos + k);
        assert(s[p] == ']' as u8);
        assert(seq![es[0]] =~= es);
    } else {
        let rest = es.drop_first();
        assert(w == w0 + seq![',' as u8] + ser_elems(rest));
        assert(s.subrange(pos, pos + k) == w0) by {
            lemma_subrange_of_subrange(s, pos, w, 0, k);
            assert(w.subrange(0, k) =~= w0);
        }
        assert(w[k] == ',' as u8);
        assert(s[pos + k] == w[k]);
        assert(!is_num_byte(',' as u8));
        lemma_parse_ser_val(s, pos, es[0]);
        let p = adv(pos, pos + k);
        assert(p == pos + k);
        assert(s[p] == ',' as u8);
        let restw = ser_elems(rest);
        let restwlen = restw.len() as int;
        assert(s.subrange(p + 1, p + 1 + restwlen) == restw) by {
            lemma_subrange_of_subrange(s, pos, w, k + 1, k + 1 + restwlen);
            assert(w.subrange(k + 1, k + 1 + restwlen) =~= restw);
        }
        assert(s[p + 1 + restwlen] == ']' as u8);
        lemma_parse_ser_elems(s, p + 1, rest);
        assert(seq![es[0]] + rest =~= es);
    }
}

/// Serialized object members followed by `}` parse back to their models.
pub proof fn lemma_parse_ser_members(s: Seq<u8>, pos: int, ms: Seq<(Seq<char>, JsonModel)>)
    requires
        wf_members(ms),
        ms.len() > 0,
        0 <= pos,
        pos + ser_members(ms).len() + 1 <= s.len(),
        s.subrange(pos, pos + ser_members(ms).len()) == ser_members(ms),
        s[pos + ser_members(ms).len()] == '}' as u8,
    ensures
        spec_parse_members(s, pos) == Some((ms, pos + ser_members(ms).len() + 1)),
    decreases ms, 0int,
{
    let w = ser_members(ms);
    let wlen = w.len();
    assert(forall|i: int| 0 <= i < wlen ==> s[pos + i] == #[trigger] w[i]) by {
        assert(forall|i: int| 0 <= i < wlen ==> s.subrange(pos, pos + wlen)[i] == #[trigger] w[i]);
    }
    let key = ms[0].0;
    let val = ms[0].1;
    assert(wf_model(val));
    let kw = ser_string(key);
    let vw = ser(val);
    let head = ser_member(ms[0]);
    assert(head == kw + seq![':' as u8] + vw);
    let hk = kw.len() as int;
    let hlen = head.len() as int;
    assert(w.subrange(0, hlen) =~= head || w == head);
    assert(s.subrange(pos, pos + hk) == kw) by {
        lemma_subrange_of_subrange(s, pos, w, 0, hk);
        assert(w.subrange(0, hk) =~= kw);
    }
    lemma_parse_ser_string(s, pos, key);
    let q = adv(pos, pos + hk);
    assert(q == pos + hk);
    assert(w[hk] == ':' as u8);
    assert(s[q] == w[hk]);
    let vwlen = vw.len() as int;
    assert(s.subrange(q + 1, q + 1 + vwlen) == vw) by {
        lemma_subrange_of_subrange(s, pos, w, hk + 1, hk + 1 + vwlen);
        assert(w.subrange(hk + 1, hk + 1 + vwlen) =~= vw);
    }
    lemma_ser_shape(val);
    if ms.len() == 1 {
        assert(w == head);
        assert(s[q + 1 + vwlen] == '}' as u8);
        assert(!is_num_byte('}' as u8));
        lemma_parse_ser_val(s, q + 1, val);
        let r = adv(q + 1, q + 1 + vwlen);
        assert(r == q + 1 + vwlen);
        assert(seq![(key, val)] =~= ms);
    } else {
        let rest = ms.drop_first();
        assert(w == head + seq![',' as u8] + ser_members(rest));
        assert(w[hlen] == ',' as u8);
        assert(s[q + 1 + vwlen] == w[hlen]);
        assert(!is_num_byte(',' as u8));
        lemma_parse_ser_val(s, q + 1, val);
        let r = adv(q + 1, q + 1 + vwlen);
        assert(r == q + 1 + vwlen);
        assert(s[r] == ',' as u8);
        let restw = ser_members(rest);
        let restwlen = restw.len() as int;
        assert(s.subrange(r + 1, r + 1 + restwlen) == restw) by {
            lemma_subrange_of_subrange(s, pos, w, hlen + 1, hlen + 1 + restwlen);
            assert(w.subrange(hlen + 1, hlen + 1 + restwlen) =~= restw);
        }
        assert(s[r + 1 + restwlen] == '}' as u8);
        lemma_parse_ser_members(s, r + 1, rest);
        assert(seq![(key, val)] + rest =~= ms);
    }
}

/// The codec's round trip: a well-formed document's canonical bytes parse
/// back to exactly that document.
pub proof fn lemma_parse_ser(m: JsonModel)
    requires
        wf_model(m),
    ensures
        spec_parse(ser(m)) == Some(m),
{
    let s = ser(m);
    assert(s.subrange(0, s.len() as int) =~= s);
    lemma_parse_ser_val(s, 0, m);
}

pub proof fn lemma_parse_members_advances(s: Seq<u8>, pos: int)
    ensures
        spec_parse_members(s, pos) matches Some((ms, p)) ==> pos < p <= s.len(),
    decreases s.len() - pos, 4int,
{
    if 0 <= pos <= s.len() {
        let k0 = adv(pos - 1, ws_end(s, pos));
        lemma_parse_string_advances(s, k0);
        match spec_parse_string(s, k0) {
            None => {},
            Some((k, q0)) => {
                let q = adv(k0, q0);
                let c = adv(q - 1, ws_end(s, q));
                if c < s.len() && s[c] == ':' as u8 {
                    lemma_parse_value_advances(s, c + 1);
                    match spec_parse_value(s, c + 1) {
                        None => {},
                        Some((m, r0)) => {
                            let r = adv(c + 1, r0);
                            let rr = adv(r - 1, ws_end(s, r));
                            if rr < s.len() && s[rr] == ',' as u8 {
                                lemma_parse_members_advances(s, rr + 1);
                            }
                        },
                    }
                }
            },
        }
    }
}


// ---------------------------------------------------------------------------
// Structure lemmas used by the executable codec
// ---------------------------------------------------------------------------

pub proof fn lemma_esc_bytes_snoc(bs: Seq<u8>, x: u8)
    ensures
        esc_bytes(bs.push(x)) == esc_bytes(bs) + esc_byte(x),
    decreases bs.len(),
{
    reveal_with_fuel(esc_bytes, 3);
    if bs.len() == 0 {
        assert(bs.push(x).drop_first() =~= Seq::<u8>::empty());
        assert(bs.push(x)[0] == x);
        assert(esc_bytes(bs.push(x)) =~= esc_bytes(bs) + esc_byte(x));
    } else {
        assert(bs.push(x).drop_first() =~= bs.drop_first().push(x));
        assert(bs.push(x)[0] == bs[0]);
        lemma_esc_bytes_snoc(bs.drop_first(), x);
        assert(esc_bytes(bs.push(x)) =~= esc_bytes(bs) + esc_byte(x));
    }
}

pub proof fn lemma_ser_elems_snoc(es: Seq<JsonModel>, x: JsonModel)
    requires
        es.len() >= 1,
    ensures
        ser_elems(es.push(x)) == ser_elems(es) + seq![',' as u8] + ser(x),
    decreases es.len(),
{
    if es.len() == 1 {
        assert(es.push(x).drop_first() =~= seq![x]);
        assert(es.push(x)[0] == es[0]);
        assert(ser_elems(seq![x]) == ser(x));
        assert(ser_elems(es.push(x)) =~= ser_elems(es) + seq![',' as u8] + ser(x));
    } else {
        assert(es.push(x).drop_first() =~= es.drop_first().push(x));
        assert(es.push(x)[0] == es[0]);
        lemma_ser_elems_snoc(es.drop_first(), x);
        assert(ser_elems(es.push(x)) =~= ser_elems(es) + seq![',' as u8] + ser(x));
    }
}

pub proof fn lemma_ser_members_snoc(ms: Seq<(Seq<char>, JsonModel)>, x: (Seq<char>, JsonModel))
    requires
        ms.len() >= 1,
    ensures
        ser_members(ms.push(x)) == ser_members(ms) + seq![',' as u8] + ser_member(x),
    decreases ms.len(),
{
    if ms.len() == 1 {
        assert(ms.push(x).drop_first() =~= seq![x]);
        assert(ms.push(x)[0] == ms[0]);
        assert(ser_members(seq![x]) == ser_member(x));
        assert(ser_members(ms.push(x)) =~= ser_members(ms) + seq![',' as u8] + ser_member(x));
    } else {
        assert(ms.push(x).drop_first() =~= ms.drop_first().push(x));
        assert(ms.push(x)[0] == ms[0]);
        lemma_ser_members_snoc(ms.drop_first(), x);
        assert(ser_members(ms.push(x)) =~= ser_members(ms) + seq![',' as u8] + ser_member(x));
    }
}

pub proof fn lemma_wf_elems_index(es: Seq<JsonModel>, k: int)
    requires
        wf_elems(es),
        0 <= k < es.len(),
    ensures
        wf_model(es[k]),
    decreases es.len(),
{
    if k > 0 {
        lemma_wf_elems_index(es.drop_first(), k - 1);
    }
}

pub proof fn lemma_wf_members_index(ms: Seq<(Seq<char>, JsonModel)>, k: int)
    requires
        wf_members(ms),
        0 <= k < ms.len(),
    ensures
        wf_model(ms[k].1),
    decreases ms.len(),
{
    if k > 0 {
        lemma_wf_members_index(ms.drop_first(), k - 1);
    }
}

pub proof fn lemma_jmodel_seq_index(s: Seq<JsonValue>)
    ensures
        jmodel_seq(s).len() == s.len(),
        forall|i: int| 0 <= i < s.len() ==> #[trigger] jmodel_seq(s)[i] == jmodel(s[i]),
    decreases s.len(),
{
    if s.len() > 0 {
        lemma_jmodel_seq_index(s.drop_last());
        assert(forall|i: int| 0 <= i < s.len() - 1 ==> #[trigger] s.drop_last()[i] == s[i]);
    }
}

pub proof fn lemma_jmodel_members_index(s: Seq<(String, JsonValue)>)
    ensures
        jmodel_members(s).len() == s.len(),
        forall|i: int| 0 <= i < s.len() ==> #[trigger] jmodel_members(s)[i] == (s[i].0@, jmodel(s[i].1)),
    decreases s.len(),
{
    if s.len() > 0 {
        lemma_jmodel_members_index(s.drop_last());
        assert(forall|i: int| 0 <= i < s.len() - 1 ==> #[trigger] s.drop_last()[i] == s[i]);
    }
}

// ---------------------------------------------------------------------------
// Executable encoder
// ---------------------------------------------------------------------------

/// Relies on `String::from_utf8` of std: it returns `Ok` exactly on valid
/// UTF-8 input, and the returned string is the one whose UTF-8 encoding is
/// that input.
#[verifier::external_body]
pub fn string_from_utf8(bytes: Vec<u8>) -> (r: Option<String>)
    ensures
        r is Some <==> vstd::utf8::valid_utf8(bytes@),
        r matches Some(s) ==> vstd::utf8::encode_utf8(s@) == bytes@,
{
    String::from_utf8(bytes).ok()
}

fn push_hex_digit(out: &mut Vec<u8>, n: u8)
    requires
        n < 16,
    ensures
        final(out)@ == old(out)@ + seq![hex_digit(n)],
{
    if n < 10 {
        out.push(0x30 + n);
    } else {
        out.push(0x57 + n);
    }
    assert(out@ =~= old(out)@ + seq![hex_digit(n)]);
}

/// Appends the escaped form of the given string-content bytes.
fn encode_string_content(bytes: &Vec<u8>, out: &mut Vec<u8>)
    ensures
        final(out)@ == old(out)@ + esc_bytes(bytes@),
{
    let ghost start = out@;
    let mut i: usize = 0;
    proof {
        assert(bytes@.take(0) =~= Seq::<u8>::empty());
        assert(start + esc_bytes(bytes@.take(0)) =~= start);
    }
    while i < bytes.len()
        invariant
            i <= bytes.len(),
            out@ == start + esc_bytes(bytes@.take(i as int)),
        decreases bytes.len() - i,
    {
        let b = bytes[i];
        let ghost before = out@;
        if b == 0x22 {
            out.push(0x5c);
            out.push(0x22);
        } else if b == 0x5c {
            out.push(0x5c);
            out.push(0x5c);
        } else if b < 0x20 {
            out.push(0x5c);
            out.push(0x75);
            out.push(0x30);
            out.push(0x30);
            push_hex_digit(out, b / 16);
            push_hex_digit(out, b % 16);
        } else {
            out.push(b);
        }
        proof {
            assert(out@ =~= before + esc_byte(b));
            assert(bytes@.take(i + 1) =~= bytes@.take(i as int).push(b));
            lemma_esc_bytes_snoc(bytes@.take(i as int), b);
            assert(out@ =~= start + esc_bytes(bytes@.take(i + 1)));
        }
        i = i + 1;
    }
    proof {
        assert(bytes@.take(bytes@.len() as int) =~= bytes@);
    }
}

/// Appends a whole serialized string literal for `s`.
fn encode_string(s: &String, out: &mut Vec<u8>)
    ensures
        final(out)@ == old(out)@ + ser_string(s@),
{
    let ghost start = out@;
    out.push(0x22);
    let bs = s.as_str().as_bytes_vec();
    encode_string_content(&bs, out);
    out.push(0x22);
    proof {
        assert(out@ =~= start + ser_string(s@));
    }
}

/// Appends the canonical serialization of `v`.
///
/// The requirement is only about number lexemes: each must be a plain
/// ASCII numeric token, which every constructor in this crate guarantees.
#[verifier::loop_isolation(false)]
#[verifier::rlimit(60)]
pub fn encode_value(v: &JsonValue, out: &mut Vec<u8>)
    requires
        wf_model(jmodel(*v)),
    ensures
        final(out)@ == old(out)@ + ser(jmodel(*v)),
    decreases *v, 1int,
{
    let ghost start = out@;
    match v {
        JsonValue::Null => {
            out.push('n' as u8);
            out.push('u' as u8);
            out.push('l' as u8);
            out.push('l' as u8);
            proof {
                assert(out@ =~= start + ser(jmodel(*v)));
            }
        },
        JsonValue::Bool(b) => {
            if *b {
                out.push('t' as u8);
                out.push('r' as u8);
                out.push('u' as u8);
                out.push('e' as u8);
            } else {
                out.push('f' as u8);
                out.push('a' as u8);
                out.push('l' as u8);
                out.push('s' as u8);
                out.push('e' as u8);
            }
            proof {
                assert(out@ =~= start + ser(jmodel(*v)));
            }
        },
        JsonValue::Num(lex) => {
            let mut bs = lex.as_str().as_bytes_vec();
            out.append(&mut bs);
            proof {
                broadcast use vstd::utf8::is_ascii_chars_encode_utf8;
                assert(vstd::utf8::is_ascii_chars(lex@)) by {
                    assert(forall|i: int| 0 <= i < lex@.len() ==> is_num_char(#[trigger] lex@[i]));
                }
                assert(vstd::utf8::encode_utf8(lex@) =~= ascii_bytes(lex@));
                assert(out@ =~= start + ser(jmodel(*v)));
            }
        },
        JsonValue::Str(s) => {
            encode_string(s, out);
            proof {
                assert(out@ =~= start + ser(jmodel(*v)));
            }
        },
        JsonValue::Arr(items) => {
            proof {
                lemma_jmodel_seq_index(items@);
            }
            let ghost es = jmodel_seq(items@);
            proof {
                assert(jmodel(*v) == JsonModel::Arr(es));
                assert(wf_model(JsonModel::Arr(es)));
                assert forall|k: int| 0 <= k < es.len() implies wf_model(#[trigger] es[k]) by {
                    lemma_wf_elems_index(es, k);
                }
            }
            out.push('[' as u8);
            let n = items.len();
            let mut i: usize = 0;
            while i < n
                invariant
                    i <= n,
                    n == items@.len(),
                    es == jmodel_seq(items@),
                    es.len() == n,
                    forall|k: int| 0 <= k < n ==> #[trigger] es[k] == jmodel(items@[k]),
                    forall|k: int| 0 <= k < n ==> wf_model(#[trigger] es[k]),
                    i == 0 ==> out@ == start + seq!['[' as u8],
                    i > 0 ==> out@ == start + seq!['[' as u8] + ser_elems(es.take(i as int)),
                decreases n - i,
            {
                if i > 0 {
                    out.push(',' as u8);
                }
                proof {
                    assert(es[i as int] == jmodel(items@[i as int]));
                    assert(wf_model(jmodel(items@[i as int])));
                    assert(decreases_to!(*v => *items));
                    assert(decreases_to!(*items => items@[i as int]));
                }
                encode_value(&items[i], out);
                proof {
                    assert(es.take(i + 1) =~= es.take(i as int).push(es[i as int]));
                    if i == 0 {
                        assert(ser_elems(es.take(1)) == ser(es[0]));
                        assert(out@ =~= start + seq!['[' as u8] + ser_elems(es.take(1)));
                    } else {
                        lemma_ser_elems_snoc(es.take(i as int), es[i as int]);
                        assert(out@ =~= start + seq!['[' as u8] + ser_elems(es.take(i + 1)));
                    }
                }
                i = i + 1;
            }
            out.push(']' as u8);
            proof {
                if n == 0 {
                    assert(es.len() == 0);
                    assert(ser_elems(es) =~= Seq::<u8>::empty());
                    assert(out@ =~= start + ser(jmodel(*v)));
                } else {
                    assert(es.take(n as int) =~= es);
                    assert(out@ =~= start + ser(jmodel(*v)));
                }
            }
        },
        JsonValue::Obj(members) => {
            proof {
                lemma_jmodel_members_index(members@);
            }
            let ghost ms = jmodel_members(members@);
            proof {
                assert(jmodel(*v) == JsonModel::Obj(ms));
                assert(wf_model(JsonModel::Obj(ms)));
                assert forall|k: int| 0 <= k < ms.len() implies wf_model(#[trigger] ms[k].1) by {
                    lemma_wf_members_index(ms, k);
                }
            }
            out.push('{' as u8);
            let n = members.len();
            let mut i: usize = 0;
            while i < n
                invariant
                    i <= n,
                    n == members@.len(),
                    ms == jmodel_members(members@),
                    ms.len() == n,
                    forall|k: int| 0 <= k < n ==> #[trigger] ms[k] == (members@[k].0@, jmodel(members@[k].1)),
                    forall|k: int| 0 <= k < n ==> wf_model(#[trigger] ms[k].1),
                    i == 0 ==> out@ == start + seq!['{' as u8],
                    i > 0 ==> out@ == start + seq!['{' as u8] + ser_members(ms.take(i as int)),
                decreases n - i,
            {
                if i > 0 {
                    out.push(',' as u8);
                }
                proof {
                    assert(ms[i as int] == (members@[i as int].0@, jmodel(members@[i as int].1)));
                    assert(wf_model(ms[i as int].1));
                    assert(wf_model(jmodel(members@[i as int].1)));
                    assert(decreases_to!(*v => *members));
                    assert(decreases_to!(*members => members@[i as int]));
                    assert(decreases_to!(members@[i as int] => members@[i as int].1));
                }
                encode_string(&members[i].0, out);
                out.push(':' as u8);
                encode_value(&members[i].1, out);
                proof {
                    assert(ms.take(i + 1) =~= ms.take(i as int).push(ms[i as int]));
                    assert(ser_member(ms[i as int]) == ser_string(members@[i as int].0@) + seq![':' as u8] + ser(jmodel(members@[i as int].1)));
                    if i == 0 {
                        assert(ser_members(ms.take(1)) == ser_member(ms[0]));
                        assert(out@ =~= start + seq!['{' as u8] + ser_members(ms.take(1)));
                    } else {
                        lemma_ser_members_snoc(ms.take(i as int), ms[i as int]);
                        assert(out@ =~= start + seq!['{' as u8] + ser_members(ms.take(i + 1)));
                    }
                }
                i = i + 1;
            }
            out.push('}' as u8);
            proof {
                if n == 0 {
                    assert(ms.len() == 0);
                    assert(ser_members(ms) =~= Seq::<u8>::empty());
                    assert(out@ =~= start + ser(jmodel(*v)));
                } else {
                    assert(ms.take(n as int) =~= ms);
                    assert(out@ =~= start + ser(jmodel(*v)));
                }
            }
        },
    }
}

/// Canonical byte serialization of a document.
pub fn encode(v: &JsonValue) -> (out: Vec<u8>)
    requires
        wf_model(jmodel(*v)),
    ensures
        out@ == ser(jmodel(*v)),
{
    let mut out: Vec<u8> = Vec::new();
    encode_value(v, &mut out);
    proof {
        assert(Seq::<u8>::empty() + ser(jmodel(*v)) =~= ser(jmodel(*v)));
    }
    out
}


// ---------------------------------------------------------------------------
// Executable parser
// ---------------------------------------------------------------------------

/// A run of ASCII bytes decodes to the characters it spells.
pub proof fn lemma_ascii_roundtrip(bs: Seq<u8>)
    requires
        forall|i: int| 0 <= i < bs.len() ==> #[trigger] bs[i] < 0x80,
    ensures
        vstd::utf8::valid_utf8(bs),
        vstd::utf8::decode_utf8(bs) == ascii_chars(bs),
{
    broadcast use vstd::utf8::is_ascii_chars_encode_utf8, vstd::utf8::encode_utf8_valid_utf8,
        vstd::utf8::encode_utf8_decode_utf8;

    let cs = ascii_chars(bs);
    assert forall|i: int| 0 <= i < cs.len() implies '\0' <= #[trigger] cs[i] <= '\u{7f}' by {
        assert(cs[i] == bs[i] as char);
        assert(bs[i] < 0x80);
    }
    assert(vstd::utf8::is_ascii_chars(cs));
    assert(vstd::utf8::encode_utf8(cs) =~= bs);
}

fn unescape_byte(e: u8) -> (r: Option<u8>)
    ensures
        r == simple_unescape(e),
{
    if e == 0x22 {
        Some(0x22)
    } else if e == 0x5c {
        Some(0x5c)
    } else if e == 0x2f {
        Some(0x2f)
    } else if e == 'b' as u8 {
        Some(8)
    } else if e == 'f' as u8 {
        Some(12)
    } else if e == 'n' as u8 {
        Some(10)
    } else if e == 'r' as u8 {
        Some(13)
    } else if e == 't' as u8 {
        Some(9)
    } else {
        None
    }
}

fn hex_val_of(b: u8) -> (r: Option<u8>)
    ensures
        r == hex_val(b),
{
    if 0x30 <= b && b <= 0x39 {
        Some(b - 0x30)
    } else if 0x61 <= b && b <= 0x66 {
        Some(b - 0x61 + 10)
    } else if 0x41 <= b && b <= 0x46 {
        Some(b - 0x41 + 10)
    } else {
        None
    }
}

/// Appends the UTF-8 bytes of one Unicode scalar, exactly as
/// `vstd::utf8::encode_scalar` spells them.
fn push_scalar(out: &mut Vec<u8>, cp: u32)
    requires
        cp < 0xd800 || (0xe000 <= cp && cp <= 0x10ffff),
    ensures
        final(out)@ == old(out)@ + vstd::utf8::encode_scalar(cp),
{
    if cp < 0x80 {
        out.push((cp & 0x7f) as u8);
    } else if cp < 0x800 {
        out.push(0xc0u8 | ((cp >> 6) & 0x1f) as u8);
        out.push(0x80u8 | (cp & 0x3f) as u8);
    } else if cp < 0x10000 {
        out.push(0xe0u8 | ((cp >> 12) & 0x0f) as u8);
        out.push(0x80u8 | ((cp >> 6) & 0x3f) as u8);
        out.push(0x80u8 | (cp & 0x3f) as u8);
    } else {
        out.push(0xf0u8 | ((cp >> 18) & 0x7) as u8);
        out.push(0x80u8 | ((cp >> 12) & 0x3f) as u8);
        out.push(0x80u8 | ((cp >> 6) & 0x3f) as u8);
        out.push(0x80u8 | (cp & 0x3f) as u8);
    }
    proof {
        assert(final(out)@ =~= old(out)@ + vstd::utf8::encode_scalar(cp));
    }
}

/// Skips insignificant whitespace, landing exactly on `ws_end`.
#[verifier::loop_isolation(false)]
fn skip_ws(bytes: &Vec<u8>, pos: usize) -> (r: usize)
    requires
        pos <= bytes@.len(),
    ensures
        r as int == ws_end(bytes@, pos as int),
        pos <= r <= bytes@.len(),
{
    let n = bytes.len();
    let mut i: usize = pos;
    while i < n && (bytes[i] == 0x20 || bytes[i] == 0x09 || bytes[i] == 0x0a || bytes[i] == 0x0d)
        invariant
            pos <= i <= n,
            ws_end(bytes@, pos as int) == ws_end(bytes@, i as int),
        decreases n - i,
    {
        i = i + 1;
    }
    proof {
        assert(ws_end(bytes@, i as int) == i);
    }
    i
}

/// Reads one string literal starting at `pos`; returns its decoded content
/// and the position past the closing quote, exactly as the specification
/// parser denotes.
#[verifier::loop_isolation(false)]
fn parse_string_at(bytes: &Vec<u8>, pos: usize) -> (r: Option<(String, usize)>)
    requires
        pos <= bytes@.len(),
    ensures
        (r is None) == (spec_parse_string(bytes@, pos as int) is None),
        r matches Some((sv, q)) ==> spec_parse_string(bytes@, pos as int) == Some((sv@, q as int))
            && pos < q <= bytes@.len(),
{
    broadcast use vstd::utf8::encode_utf8_decode_utf8;

    if !(pos < bytes.len() && bytes[pos] == 0x22) {
        return None;
    }
    let mut acc: Vec<u8> = Vec::new();
    let mut i: usize = pos + 1;
    proof {
        assert(acc@ =~= Seq::<u8>::empty());
    }
    loop
        invariant
            pos + 1 <= i <= bytes@.len(),
            spec_parse_str_bytes(bytes@, pos + 1, Seq::empty()) == spec_parse_str_bytes(
                bytes@,
                i as int,
                acc@,
            ),
        decreases bytes@.len() - i,
    {
        if i >= bytes.len() {
            return None;
        }
        let ghost i0 = i as int;
        let ghost acc0 = acc@;
        let b = bytes[i];
        if b == 0x22 {
            let ghost content = acc@;
            let made = string_from_utf8(acc);
            match made {
                Some(s) => {
                    proof {
                        vstd::utf8::encode_utf8_decode_utf8(s@);
                        assert(vstd::utf8::decode_utf8(content) == s@);
                    }
                    return Some((s, i + 1));
                },
                None => {
                    return None;
                },
            }
        } else if b == 0x5c {
            if i + 1 >= bytes.len() {
                return None;
            }
            let e = bytes[i + 1];
            match unescape_byte(e) {
                Some(u) => {
                    acc.push(u);
                    i = i + 2;
                },
                None => {
                    if e == 0x75 && bytes.len() - i >= 6 {
                        let h1 = hex_val_of(bytes[i + 2]);
                        let h2 = hex_val_of(bytes[i + 3]);
                        let h3 = hex_val_of(bytes[i + 4]);
                        let h4 = hex_val_of(bytes[i + 5]);
                        match (h1, h2, h3, h4) {
                            (Some(d1), Some(d2), Some(d3), Some(d4)) => {
                                let cp: u32 = (d1 as u32) * 4096 + (d2 as u32) * 256 + (d3 as u32)
                                    * 16 + (d4 as u32);
                                if cp < 0xd800 || cp >= 0xe000 {
                                    push_scalar(&mut acc, cp);
                                    i = i + 6;
                                    proof {
                                        assert(spec_parse_str_bytes(bytes@, i0, acc0)
                                            == spec_parse_str_bytes(bytes@, i as int, acc@));
                                    }
                                } else if cp < 0xdc00 {
                                    // a high surrogate: its low partner must
                                    // follow as another escape
                                    if bytes.len() - i >= 12 && bytes[i + 6] == 0x5c && bytes[i
                                        + 7] == 0x75 {
                                        let g1 = hex_val_of(bytes[i + 8]);
                                        let g2 = hex_val_of(bytes[i + 9]);
                                        let g3 = hex_val_of(bytes[i + 10]);
                                        let g4 = hex_val_of(bytes[i + 11]);
                                        match (g1, g2, g3, g4) {
                                            (Some(e1), Some(e2), Some(e3), Some(e4)) => {
                                                let lo: u32 = (e1 as u32) * 4096 + (e2 as u32)
                                                    * 256 + (e3 as u32) * 16 + (e4 as u32);
                                                if 0xdc00 <= lo && lo < 0xe000 {
                                                    let combined: u32 = 0x10000 + (cp - 0xd800)
                                                        * 0x400 + (lo - 0xdc00);
                                                    push_scalar(&mut acc, combined);
                                                    i = i + 12;
                                                    proof {
                                                        assert(spec_parse_surrogate_pair(
                                                            bytes@,
                                                            i0,
                                                            acc0,
                                                            cp as int,
                                                        ) == spec_parse_str_bytes(
                                                            bytes@,
                                                            i as int,
                                                            acc@,
                                                        ));
                                                        assert(spec_parse_str_bytes(bytes@, i0, acc0)
                                                            == spec_parse_str_bytes(
                                                            bytes@,
                                                            i as int,
                                                            acc@,
                                                        ));
                                                    }
                                                } else {
                                                    return None;
                                                }
                                            },
                                            _ => {
                                                return None;
                                            },
                                        }
                                    } else {
                                        return None;
                                    }
                                } else {
                                    return None;
                                }
                            },
                            _ => {
                                return None;
                            },
                        }
                    } else {
                        return None;
                    }
                },
            }
        } else {
            acc.push(b);
            i = i + 1;
        }
    }
}

fn is_num_byte_at(b: u8) -> (r: bool)
    ensures
        r == is_num_byte(b),
{
    (0x30 <= b && b <= 0x39) || b == 0x2d || b == 0x2b || b == 0x2e || b == 0x65 || b == 0x45
}

/// Reads one value starting at `pos`, returning exactly what the
/// specification parser denotes there.
#[verifier::loop_isolation(false)]
pub fn parse_value_at(bytes: &Vec<u8>, pos: usize) -> (r: Option<(JsonValue, usize)>)
    requires
        pos <= bytes@.len(),
    ensures
        (r is None) == (spec_parse_value(bytes@, pos as int) is None),
        r matches Some((v, q)) ==> spec_parse_value(bytes@, pos as int) == Some((jmodel(v), q as int))
            && pos < q <= bytes@.len(),
    decreases bytes@.len() - pos, 3int,
{
    let w = skip_ws(bytes, pos);
    proof {
        lemma_ws_end_bounds(bytes@, pos as int);
    }
    if w >= bytes.len() {
        return None;
    }
    let b = bytes[w];
    if b == 'n' as u8 {
        if bytes.len() - w >= 4 && bytes[w + 1] == 'u' as u8 && bytes[w + 2] == 'l' as u8
            && bytes[w + 3] == 'l' as u8 {
            Some((JsonValue::Null, w + 4))
        } else {
            None
        }
    } else if b == 't' as u8 {
        if bytes.len() - w >= 4 && bytes[w + 1] == 'r' as u8 && bytes[w + 2] == 'u' as u8
            && bytes[w + 3] == 'e' as u8 {
            Some((JsonValue::Bool(true), w + 4))
        } else {
            None
        }
    } else if b == 'f' as u8 {
        if bytes.len() - w >= 5 && bytes[w + 1] == 'a' as u8 && bytes[w + 2] == 'l' as u8
            && bytes[w + 3] == 's' as u8 && bytes[w + 4] == 'e' as u8 {
            Some((JsonValue::Bool(false), w + 5))
        } else {
            None
        }
    } else if b == 0x22 {
        match parse_string_at(bytes, w) {
            Some((s, q)) => Some((JsonValue::Str(s), q)),
            None => None,
        }
    } else if (0x30 <= b && b <= 0x39) || b == 0x2d {
        let mut e: usize = w;
        while e < bytes.len() && is_num_byte_at(bytes[e])
            invariant
                w <= e <= bytes@.len(),
                num_end(bytes@, w as int) == num_end(bytes@, e as int),
                forall|j: int| w <= j < e ==> is_num_byte(#[trigger] bytes@[j]),
            decreases bytes@.len() - e,
        {
            e = e + 1;
        }
        proof {
            assert(num_end(bytes@, e as int) == e);
        }
        let mut lex: Vec<u8> = Vec::new();
        let mut k: usize = w;
        while k < e
            invariant
                w <= k <= e <= bytes@.len(),
                lex@ == bytes@.subrange(w as int, k as int),
            decreases e - k,
        {
            lex.push(bytes[k]);
            proof {
                assert(lex@ =~= bytes@.subrange(w as int, k + 1));
            }
            k = k + 1;
        }
        proof {
            assert(forall|j: int| 0 <= j < lex@.len() ==> #[trigger] lex@[j] < 0x80) by {
                assert(forall|j: int| w <= j < e ==> is_num_byte(#[trigger] bytes@[j]));
                assert(forall|j: int| 0 <= j < lex@.len() ==> #[trigger] lex@[j] == bytes@[w + j]);
            }
            lemma_ascii_roundtrip(lex@);
        }
        let ghost lexg = lex@;
        let made = string_from_utf8(lex);
        let s = made.unwrap();
        proof {
            vstd::utf8::encode_utf8_decode_utf8(s@);
            assert(vstd::utf8::decode_utf8(lexg) == s@);
            assert(s@ == ascii_chars(bytes@.subrange(w as int, e as int)));
        }
        Some((JsonValue::Num(s), e))
    } else if b == '[' as u8 {
        let e = skip_ws(bytes, w + 1);
        proof {
            lemma_ws_end_bounds(bytes@, w + 1);
        }
        if e < bytes.len() && bytes[e] == ']' as u8 {
            let items: Vec<JsonValue> = Vec::new();
            proof {
                assert(jmodel_seq(items@) =~= Seq::<JsonModel>::empty());
                assert(jmodel(JsonValue::Arr(items)) =~~= JsonModel::Arr(Seq::empty()));
            }
            Some((JsonValue::Arr(items), e + 1))
        } else {
            match parse_elems_at(bytes, w + 1) {
                Some((vs, q)) => Some((JsonValue::Arr(vs), q)),
                None => None,
            }
        }
    } else if b == '{' as u8 {
        let e = skip_ws(bytes, w + 1);
        proof {
            lemma_ws_end_bounds(bytes@, w + 1);
        }
        if e < bytes.len() && bytes[e] == '}' as u8 {
            let members: Vec<(String, JsonValue)> = Vec::new();
            proof {
                assert(jmodel_members(members@) =~= Seq::<(Seq<char>, JsonModel)>::empty());
                assert(jmodel(JsonValue::Obj(members)) =~~= JsonModel::Obj(Seq::empty()));
            }
            Some((JsonValue::Obj(members), e + 1))
        } else {
            match parse_members_at(bytes, w + 1) {
                Some((ms, q)) => Some((JsonValue::Obj(ms), q)),
                None => None,
            }
        }
    } else {
        None
    }
}

fn parse_elems_at(bytes: &Vec<u8>, pos: usize) -> (r: Option<(Vec<JsonValue>, usize)>)
    requires
        pos <= bytes@.len(),
    ensures
        (r is None) == (spec_parse_elems(bytes@, pos as int) is None),
        r matches Some((vs, q)) ==> spec_parse_elems(bytes@, pos as int) == Some(
            (jmodel_seq(vs@), q as int),
        ) && pos < q <= bytes@.len(),
    decreases bytes@.len() - pos, 4int,
{
    match parse_value_at(bytes, pos) {
        None => None,
        Some((v, p)) => {
            let q = skip_ws(bytes, p);
            proof {
                assert(adv(pos as int, p as int) == p as int);
                lemma_ws_end_bounds(bytes@, p as int);
            }
            if q < bytes.len() && bytes[q] == ',' as u8 {
                match parse_elems_at(bytes, q + 1) {
                    None => None,
                    Some((vs, t)) => {
                        let mut out: Vec<JsonValue> = Vec::new();
                        out.push(v);
                        let mut rest = vs;
                        out.append(&mut rest);
                        proof {
                            lemma_jmodel_seq_index(out@);
                            lemma_jmodel_seq_index(vs@);
                            assert(out@ =~= seq![v] + vs@);
                            assert(jmodel_seq(out@) =~= seq![jmodel(v)] + jmodel_seq(vs@));
                        }
                        Some((out, t))
                    },
                }
            } else if q < bytes.len() && bytes[q] == ']' as u8 {
                let mut out: Vec<JsonValue> = Vec::new();
                out.push(v);
                proof {
                    lemma_jmodel_seq_index(out@);
                    assert(jmodel_seq(out@) =~= seq![jmodel(v)]);
                }
                Some((out, q + 1))
            } else {
                None
            }
        },
    }
}

fn parse_members_at(bytes: &Vec<u8>, pos: usize) -> (r: Option<(Vec<(String, JsonValue)>, usize)>)
    requires
        pos <= bytes@.len(),
    ensures
        (r is None) == (spec_parse_members(bytes@, pos as int) is None),
        r matches Some((ms, q)) ==> spec_parse_members(bytes@, pos as int) == Some(
            (jmodel_members(ms@), q as int),
        ) && pos < q <= bytes@.len(),
    decreases bytes@.len() - pos, 4int,
{
    let k0 = skip_ws(bytes, pos);
    proof {
        lemma_ws_end_bounds(bytes@, pos as int);
    }
    match parse_string_at(bytes, k0) {
        None => None,
        Some((k, q0)) => {
            let c = skip_ws(bytes, q0);
            proof {
                assert(adv(k0 as int, q0 as int) == q0 as int);
                lemma_ws_end_bounds(bytes@, q0 as int);
            }
            if c < bytes.len() && bytes[c] == ':' as u8 {
                match parse_value_at(bytes, c + 1) {
                    None => None,
                    Some((v, r0)) => {
                        let rr = skip_ws(bytes, r0);
                        proof {
                            assert(adv(c + 1 as int, r0 as int) == r0 as int);
                            lemma_ws_end_bounds(bytes@, r0 as int);
                        }
                        if rr < bytes.len() && bytes[rr] == ',' as u8 {
                            match parse_members_at(bytes, rr + 1) {
                                None => None,
                                Some((ms, q)) => {
                                    let mut out: Vec<(String, JsonValue)> = Vec::new();
                                    out.push((k, v));
                                    let mut rest = ms;
                                    out.append(&mut rest);
                                    proof {
                                        lemma_jmodel_members_index(out@);
                                        lemma_jmodel_members_index(ms@);
                                        assert(out@ =~= seq![(k, v)] + ms@);
                                        assert(jmodel_members(out@) =~= seq![(k@, jmodel(v))]
                                            + jmodel_members(ms@));
                                    }
                                    Some((out, q))
                                },
                            }
                        } else if rr < bytes.len() && bytes[rr] == '}' as u8 {
                            let mut out: Vec<(String, JsonValue)> = Vec::new();
                            out.push((k, v));
                            proof {
                                lemma_jmodel_members_index(out@);
                                assert(jmodel_members(out@) =~= seq![(k@, jmodel(v))]);
                            }
                            Some((out, rr + 1))
                        } else {
                            None
                        }
                    },
                }
            } else {
                None
            }
        },
    }
}

/// Parses a whole document: one value covering the entire input, with
/// whitespace allowed around it.
pub fn parse(bytes: &Vec<u8>) -> (r: Option<JsonValue>)
    ensures
        (r is None) == (spec_parse(bytes@) is None),
        r matches Some(v) ==> spec_parse(bytes@) == Some(jmodel(v)),
{
    match parse_value_at(bytes, 0) {
        Some((v, q)) => {
            let t = skip_ws(bytes, q);
            proof {
                lemma_ws_end_bounds(bytes@, q as int);
            }
            if t == bytes.len() {
                Some(v)
            } else {
                None
            }
        },
        None => None,
    }
}


// ---------------------------------------------------------------------------
// Decimal lexemes for the integer fields the protocol reads and writes
// ---------------------------------------------------------------------------

pub open spec fn digit_char(d: nat) -> char {
    ((0x30 + d % 10) as u8) as char
}

/// Decimal digit characters of `n`, most significant first.
pub open spec fn dec_digits(n: nat) -> Seq<char>
    decreases n,
{
    if n < 10 {
        seq![digit_char(n)]
    } else {
        dec_digits(n / 10).push(digit_char(n % 10))
    }
}

pub open spec fn is_digit_seq(cs: Seq<char>) -> bool {
    cs.len() > 0 && forall|i: int| 0 <= i < cs.len() ==> is_digit_char(#[trigger] cs[i])
}

/// Numeric value of a digit string.
pub open spec fn dec_val(cs: Seq<char>) -> nat
    decreases cs.len(),
{
    if cs.len() == 0 {
        0
    } else {
        (dec_val(cs.drop_last()) * 10 + (cs.last() as int - 0x30)) as nat
    }
}

/// What a number lexeme means as an unsigned 64-bit id, where it is one.
pub open spec fn num_u64(cs: Seq<char>) -> Option<u64> {
    if is_digit_seq(cs) && dec_val(cs) <= u64::MAX {
        Some(dec_val(cs) as u64)
    } else {
        None
    }
}

/// The id a message value carries, where it is a plain decimal number.
pub open spec fn spec_json_u64(m: JsonModel) -> Option<u64> {
    match m {
        JsonModel::Num(cs) => num_u64(cs),
        _ => None,
    }
}

pub proof fn lemma_digit_char(d: nat)
    ensures
        is_digit_char(digit_char(d)),
        digit_char(d) as int - 0x30 == d % 10,
{
    let b: u8 = (0x30 + d % 10) as u8;
    assert(0x30 <= b <= 0x39);
    assert(digit_char(d) == b as char);
    assert(digit_char(d) as int == b as int);
}

pub proof fn lemma_dec_digits_wf(n: nat)
    ensures
        is_digit_seq(dec_digits(n)),
        wf_num_lexeme(dec_digits(n)),
        dec_val(dec_digits(n)) == n,
    decreases n,
{
    if n < 10 {
        lemma_digit_char(n);
        assert(dec_digits(n) =~= seq![digit_char(n)]);
        assert(dec_digits(n).drop_last() =~= Seq::<char>::empty());
        assert(dec_val(Seq::<char>::empty()) == 0);
        assert(dec_digits(n).last() == digit_char(n));
        assert(dec_val(dec_digits(n)) == n);
    } else {
        lemma_dec_digits_wf(n / 10);
        lemma_digit_char(n % 10);
        let front = dec_digits(n / 10);
        let whole = dec_digits(n);
        assert(whole == front.push(digit_char(n % 10)));
        assert(whole.drop_last() =~= front);
        assert(whole.last() == digit_char(n % 10));
        assert(forall|i: int| 0 <= i < front.len() ==> whole[i] == #[trigger] front[i]);
        assert(digit_char(n % 10) as int - 0x30 == n % 10);
        assert(dec_val(whole) == dec_val(front) * 10 + (n % 10));
        assert(dec_val(whole) == (n / 10) * 10 + (n % 10));
        assert((n / 10) * 10 + (n % 10) == n) by {
            vstd::arithmetic::div_mod::lemma_fundamental_div_mod(n as int, 10);
        }
        assert(forall|i: int| 0 <= i < whole.len() ==> is_digit_char(#[trigger] whole[i]));
    }
}

pub fn push_u64_digits(n: u64, out: &mut Vec<u8>)
    ensures
        final(out)@ == old(out)@ + ascii_bytes(dec_digits(n as nat)),
    decreases n,
{
    if n < 10 {
        out.push(0x30 + n as u8);
        proof {
            assert(final(out)@ =~= old(out)@ + ascii_bytes(dec_digits(n as nat)));
        }
    } else {
        push_u64_digits(n / 10, out);
        out.push(0x30 + (n % 10) as u8);
        proof {
            assert(ascii_bytes(dec_digits(n as nat)) =~= ascii_bytes(dec_digits((n / 10) as nat)).push(
                (0x30 + (n % 10)) as u8,
            ));
            assert(final(out)@ =~= old(out)@ + ascii_bytes(dec_digits(n as nat)));
        }
    }
}

/// The decimal spelling of `n`.
pub fn u64_string(n: u64) -> (s: String)
    ensures
        s@ == dec_digits(n as nat),
{
    let mut digits: Vec<u8> = Vec::new();
    push_u64_digits(n, &mut digits);
    proof {
        lemma_dec_digits_wf(n as nat);
        assert(forall|i: int| 0 <= i < digits@.len() ==> #[trigger] digits@[i] < 0x80) by {
            assert(forall|i: int| 0 <= i < digits@.len() ==> #[trigger] digits@[i] == dec_digits(
                n as nat,
            )[i] as u8 && is_digit_char(dec_digits(n as nat)[i]));
        }
        lemma_ascii_roundtrip(digits@);
    }
    let ghost dg = digits@;
    let made = string_from_utf8(digits);
    let s = made.unwrap();
    proof {
        vstd::utf8::encode_utf8_decode_utf8(s@);
        assert(s@ =~= ascii_chars(dg));
        assert(s@ =~= dec_digits(n as nat));
    }
    s
}

/// A number value spelling `n` in decimal.
pub fn json_u64(n: u64) -> (v: JsonValue)
    ensures
        jmodel(v) == JsonModel::Num(dec_digits(n as nat)),
        wf_model(jmodel(v)),
        spec_json_u64(jmodel(v)) == Some(n),
{
    let s = u64_string(n);
    proof {
        lemma_dec_digits_wf(n as nat);
    }
    JsonValue::Num(s)
}

pub proof fn lemma_dec_val_take_step(cs: Seq<char>, i: int)
    requires
        0 <= i < cs.len(),
        is_digit_char(cs[i]),
    ensures
        dec_val(cs.take(i + 1)) == dec_val(cs.take(i)) * 10 + (cs[i] as int - 0x30),
{
    assert(cs.take(i + 1).drop_last() =~= cs.take(i));
    assert(cs.take(i + 1).last() == cs[i]);
    assert(cs[i] as int - 0x30 >= 0);
}

pub proof fn lemma_dec_val_take_grows(cs: Seq<char>, i: int)
    requires
        0 <= i <= cs.len(),
        forall|j: int| 0 <= j < cs.len() ==> is_digit_char(#[trigger] cs[j]),
    ensures
        dec_val(cs.take(i)) <= dec_val(cs),
    decreases cs.len() - i,
{
    if i == cs.len() {
        assert(cs.take(i) =~= cs);
    } else {
        lemma_dec_val_take_step(cs, i);
        lemma_dec_val_take_grows(cs, i + 1);
    }
}

/// The id carried by a number value, where its lexeme is a plain decimal
/// that fits an unsigned 64-bit integer; `None` for every other value.
#[verifier::loop_isolation(false)]
pub fn json_as_u64(v: &JsonValue) -> (r: Option<u64>)
    ensures
        r == spec_json_u64(jmodel(*v)),
{
    broadcast use vstd::utf8::encode_utf8_decode_utf8;

    match v {
        JsonValue::Num(s) => {
            let bs = s.as_str().as_bytes_vec();
            let ghost cs = s@;
            let n = bs.len();
            if n == 0 {
                proof {
                    assert(vstd::utf8::encode_utf8(cs).len() == 0);
                    if cs.len() > 0 {
                        vstd::utf8::encode_utf8_decode_utf8(cs);
                        assert(vstd::utf8::decode_utf8(vstd::utf8::encode_utf8(cs)) == cs);
                        assert(vstd::utf8::decode_utf8(Seq::<u8>::empty()).len() == 0);
                        assert(vstd::utf8::encode_utf8(cs) =~= Seq::<u8>::empty());
                        assert(false);
                    }
                }
                return None;
            }
            // every byte must be a decimal digit
            let mut i: usize = 0;
            while i < n
                invariant
                    0 <= i <= n,
                    n == bs@.len(),
                    forall|j: int| 0 <= j < i ==> is_digit_byte(#[trigger] bs@[j]),
                decreases n - i,
            {
                let b = bs[i];
                if !(0x30 <= b && b <= 0x39) {
                    proof {
                        lemma_non_digit_means_none(cs, bs@, i as int);
                    }
                    return None;
                }
                i = i + 1;
            }
            proof {
                lemma_ascii_roundtrip(bs@);
                assert(cs =~= ascii_chars(bs@));
                assert(forall|j: int| 0 <= j < cs.len() ==> is_digit_char(#[trigger] cs[j]));
                assert(is_digit_seq(cs));
            }
            // accumulate, watching for overflow
            let mut val: u64 = 0;
            let mut k: usize = 0;
            while k < n
                invariant
                    0 <= k <= n,
                    n == bs@.len(),
                    val as nat == dec_val(cs.take(k as int)),
                decreases n - k,
            {
                let d = bs[k] - 0x30;
                proof {
                    lemma_dec_val_take_step(cs, k as int);
                    assert(cs[k as int] == bs@[k as int] as char);
                    assert(cs[k as int] as nat - 0x30 == d as nat);
                }
                let mul = val.checked_mul(10);
                match mul {
                    Some(m10) => {
                        let add = m10.checked_add(d as u64);
                        match add {
                            Some(next) => {
                                val = next;
                            },
                            None => {
                                proof {
                                    lemma_dec_val_take_grows(cs, k + 1);
                                    assert(dec_val(cs) > u64::MAX);
                                }
                                return None;
                            },
                        }
                    },
                    None => {
                        proof {
                            lemma_dec_val_take_grows(cs, k + 1);
                            assert(dec_val(cs.take(k + 1)) > u64::MAX);
                            assert(dec_val(cs) > u64::MAX);
                        }
                        return None;
                    },
                }
                k = k + 1;
            }
            proof {
                assert(cs.take(n as int) =~= cs);
            }
            Some(val)
        },
        _ => None,
    }
}

proof fn lemma_non_digit_means_none(cs: Seq<char>, bs: Seq<u8>, i: int)
    requires
        bs == vstd::utf8::encode_utf8(cs),
        0 <= i < bs.len(),
        !is_digit_byte(bs[i]),
    ensures
        num_u64(cs) is None,
{
    if is_digit_seq(cs) {
        broadcast use vstd::utf8::is_ascii_chars_encode_utf8;

        assert(vstd::utf8::is_ascii_chars(cs)) by {
            assert(forall|j: int| 0 <= j < cs.len() ==> is_digit_char(#[trigger] cs[j]));
        }
        assert(bs =~= Seq::new(cs.len(), |j: int| cs[j] as u8));
        assert(bs[i] == cs[i] as u8);
        assert(is_digit_char(cs[i]));
        assert(false);
    }
}

// ---------------------------------------------------------------------------
// String comparison over views
// ---------------------------------------------------------------------------

/// Whether two string slices spell the same characters.
#[verifier::loop_isolation(false)]
pub fn str_eq(a: &str, b: &str) -> (r: bool)
    ensures
        r == (a@ == b@),
{
    broadcast use vstd::utf8::encode_utf8_decode_utf8;

    let av = a.as_bytes_vec();
    let bv = b.as_bytes_vec();
    if av.len() != bv.len() {
        proof {
            assert(a@ != b@);
        }
        return false;
    }
    let n = av.len();
    let mut i: usize = 0;
    while i < n
        invariant
            0 <= i <= n,
            n == av@.len() == bv@.len(),
            forall|j: int| 0 <= j < i ==> #[trigger] av@[j] == bv@[j],
        decreases n - i,
    {
        if av[i] != bv[i] {
            proof {
                assert(a@ != b@);
            }
            return false;
        }
        i = i + 1;
    }
    proof {
        assert(av@ =~= bv@);
        vstd::utf8::encode_utf8_decode_utf8(a@);
        vstd::utf8::encode_utf8_decode_utf8(b@);
        assert(a@ == b@);
    }
    true
}


// ---------------------------------------------------------------------------
// Object field access and growth
// ---------------------------------------------------------------------------

/// The value under `key` in a member list: the first member with that name.
pub open spec fn spec_obj_get(ms: Seq<(Seq<char>, JsonModel)>, key: Seq<char>) -> Option<JsonModel>
    decreases ms.len(),
{
    if ms.len() == 0 {
        None
    } else if ms[0].0 == key {
        Some(ms[0].1)
    } else {
        spec_obj_get(ms.drop_first(), key)
    }
}

/// The value under `key` where the document is an object, `None` otherwise.
pub open spec fn spec_get(m: JsonModel, key: Seq<char>) -> Option<JsonModel> {
    match m {
        JsonModel::Obj(ms) => spec_obj_get(ms, key),
        _ => None,
    }
}

/// Looks a field up in an object value.
#[verifier::loop_isolation(false)]
pub fn obj_get<'a>(v: &'a JsonValue, key: &str) -> (r: Option<&'a JsonValue>)
    ensures
        match r {
            Some(f) => spec_get(jmodel(*v), key@) == Some(jmodel(*f)),
            None => spec_get(jmodel(*v), key@) is None,
        },
{
    match v {
        JsonValue::Obj(members) => {
            proof {
                lemma_jmodel_members_index(members@);
            }
            let ghost ms = jmodel_members(members@);
            let n = members.len();
            let mut i: usize = 0;
            proof {
                assert(ms.skip(0) =~= ms);
            }
            while i < n
                invariant
                    0 <= i <= n,
                    n == members@.len(),
                    ms == jmodel_members(members@),
                    ms.len() == n,
                    forall|k: int| 0 <= k < n ==> #[trigger] ms[k] == (
                        members@[k].0@,
                        jmodel(members@[k].1),
                    ),
                    spec_obj_get(ms, key@) == spec_obj_get(ms.skip(i as int), key@),
                decreases n - i,
            {
                proof {
                    assert(ms.skip(i as int).len() == n - i);
                    assert(ms.skip(i as int)[0] == ms[i as int]);
                    assert(ms.skip(i as int).drop_first() =~= ms.skip(i + 1));
                }
                if str_eq(members[i].0.as_str(), key) {
                    proof {
                        assert(ms.skip(i as int)[0].0 == key@);
                        assert(spec_obj_get(ms.skip(i as int), key@) == Some(ms[i as int].1));
                    }
                    return Some(&members[i].1);
                }
                proof {
                    assert(ms.skip(i as int)[0].0 != key@);
                    assert(spec_obj_get(ms.skip(i as int), key@) == spec_obj_get(
                        ms.skip(i + 1),
                        key@,
                    ));
                }
                i = i + 1;
            }
            proof {
                assert(ms.skip(n as int).len() == 0);
            }
            None
        },
        _ => None,
    }
}

pub proof fn lemma_jmodel_members_push(s: Seq<(String, JsonValue)>, x: (String, JsonValue))
    ensures
        jmodel_members(s.push(x)) == jmodel_members(s).push((x.0@, jmodel(x.1))),
{
    assert(s.push(x).drop_last() =~= s);
    assert(s.push(x).last() == x);
}

pub proof fn lemma_jmodel_seq_push(s: Seq<JsonValue>, x: JsonValue)
    ensures
        jmodel_seq(s.push(x)) == jmodel_seq(s).push(jmodel(x)),
{
    assert(s.push(x).drop_last() =~= s);
    assert(s.push(x).last() == x);
}

pub proof fn lemma_wf_members_push(ms: Seq<(Seq<char>, JsonModel)>, x: (Seq<char>, JsonModel))
    requires
        wf_members(ms),
        wf_model(x.1),
    ensures
        wf_members(ms.push(x)),
    decreases ms.len(),
{
    if ms.len() == 0 {
        assert(ms.push(x)[0] == x);
        assert(ms.push(x).drop_first() =~= Seq::<(Seq<char>, JsonModel)>::empty());
        assert(wf_members(Seq::<(Seq<char>, JsonModel)>::empty()));
        assert(wf_members(ms.push(x)));
    } else {
        assert(ms.push(x)[0] == ms[0]);
        assert(ms.push(x).drop_first() =~= ms.drop_first().push(x));
        lemma_wf_members_push(ms.drop_first(), x);
        assert(wf_members(ms.push(x)));
    }
}

pub proof fn lemma_wf_elems_push(es: Seq<JsonModel>, x: JsonModel)
    requires
        wf_elems(es),
        wf_model(x),
    ensures
        wf_elems(es.push(x)),
    decreases es.len(),
{
    if es.len() == 0 {
        assert(es.push(x)[0] == x);
        assert(es.push(x).drop_first() =~= Seq::<JsonModel>::empty());
        assert(wf_elems(Seq::<JsonModel>::empty()));
        assert(wf_elems(es.push(x)));
    } else {
        assert(es.push(x)[0] == es[0]);
        assert(es.push(x).drop_first() =~= es.drop_first().push(x));
        lemma_wf_elems_push(es.drop_first(), x);
        assert(wf_elems(es.push(x)));
    }
}

/// Appends one member to an object under construction, keeping it
/// well formed.
pub fn put(obj: &mut Vec<(String, JsonValue)>, key: &str, val: JsonValue)
    requires
        wf_members(jmodel_members(old(obj)@)),
        wf_model(jmodel(val)),
    ensures
        jmodel_members(final(obj)@) == jmodel_members(old(obj)@).push((key@, jmodel(val))),
        wf_members(jmodel_members(final(obj)@)),
{
    let ghost oldms = jmodel_members(obj@);
    let ghost valm = jmodel(val);
    let k = key.to_owned();
    obj.push((k, val));
    proof {
        lemma_jmodel_members_push(old(obj)@, final(obj)@.last());
        assert(final(obj)@.drop_last() =~= old(obj)@);
        assert(jmodel_members(final(obj)@) == oldms.push((key@, valm)));
        lemma_wf_members_push(oldms, (key@, valm));
    }
}

/// Appends one element to an array under construction, keeping it
/// well formed.
pub fn put_elem(arr: &mut Vec<JsonValue>, val: JsonValue)
    requires
        wf_elems(jmodel_seq(old(arr)@)),
        wf_model(jmodel(val)),
    ensures
        jmodel_seq(final(arr)@) == jmodel_seq(old(arr)@).push(jmodel(val)),
        wf_elems(jmodel_seq(final(arr)@)),
{
    let ghost oldes = jmodel_seq(arr@);
    let ghost valm = jmodel(val);
    arr.push(val);
    proof {
        lemma_jmodel_seq_push(old(arr)@, final(arr)@.last());
        assert(final(arr)@.drop_last() =~= old(arr)@);
        assert(jmodel_seq(final(arr)@) == oldes.push(valm));
        lemma_wf_elems_push(oldes, valm);
    }
}

/// A string value.
pub fn json_str(s: &str) -> (v: JsonValue)
    ensures
        jmodel(v) == JsonModel::Str(s@),
        wf_model(jmodel(v)),
{
    JsonValue::Str(s.to_owned())
}


/// Field lookup lands on the first member bearing the key.
pub proof fn lemma_obj_get_at(ms: Seq<(Seq<char>, JsonModel)>, key: Seq<char>, i: int)
    requires
        0 <= i < ms.len(),
        ms[i].0 == key,
        forall|j: int| 0 <= j < i ==> (#[trigger] ms[j]).0 != key,
    ensures
        spec_obj_get(ms, key) == Some(ms[i].1),
    decreases i,
{
    if i == 0 {
    } else {
        assert(ms[0].0 != key);
        assert(forall|j: int| 0 <= j < i - 1 ==> (#[trigger] ms.drop_first()[j]).0 != key) by {
            assert(forall|j: int| 0 <= j < i - 1 ==> #[trigger] ms.drop_first()[j] == ms[j + 1]);
        }
        assert(ms.drop_first()[i - 1] == ms[i]);
        lemma_obj_get_at(ms.drop_first(), key, i - 1);
    }
}

/// A deep copy with the same model.
#[verifier::loop_isolation(false)]
pub fn clone_value(v: &JsonValue) -> (r: JsonValue)
    ensures
        jmodel(r) == jmodel(*v),
    decreases *v, 1int,
{
    match v {
        JsonValue::Null => JsonValue::Null,
        JsonValue::Bool(b) => JsonValue::Bool(*b),
        JsonValue::Num(s) => JsonValue::Num(s.clone()),
        JsonValue::Str(s) => JsonValue::Str(s.clone()),
        JsonValue::Arr(items) => {
            proof {
                lemma_jmodel_seq_index(items@);
            }
            let n = items.len();
            let mut out: Vec<JsonValue> = Vec::new();
            proof {
                assert(jmodel_seq(out@) =~= jmodel_seq(items@).take(0));
            }
            let mut i: usize = 0;
            while i < n
                invariant
                    0 <= i <= n,
                    n == items@.len(),
                    jmodel_seq(out@) == jmodel_seq(items@).take(i as int),
                decreases n - i,
            {
                proof {
                    assert(decreases_to!(*v => *items));
                    assert(decreases_to!(*items => items@[i as int]));
                }
                let c = clone_value(&items[i]);
                let ghost outg = out@;
                out.push(c);
                proof {
                    lemma_jmodel_seq_push(outg, c);
                    assert(out@.drop_last() =~= outg);
                    assert(jmodel_seq(items@).take(i + 1) =~= jmodel_seq(items@).take(
                        i as int,
                    ).push(jmodel(items@[i as int])));
                }
                i = i + 1;
            }
            proof {
                assert(jmodel_seq(items@).take(n as int) =~= jmodel_seq(items@));
                assert(jmodel(JsonValue::Arr(out)) =~~= jmodel(*v));
            }
            JsonValue::Arr(out)
        },
        JsonValue::Obj(members) => {
            proof {
                lemma_jmodel_members_index(members@);
            }
            let n = members.len();
            let mut out: Vec<(String, JsonValue)> = Vec::new();
            proof {
                assert(jmodel_members(out@) =~= jmodel_members(members@).take(0));
            }
            let mut i: usize = 0;
            while i < n
                invariant
                    0 <= i <= n,
                    n == members@.len(),
                    jmodel_members(out@) == jmodel_members(members@).take(i as int),
                decreases n - i,
            {
                proof {
                    assert(decreases_to!(*v => *members));
                    assert(decreases_to!(*members => members@[i as int]));
                    assert(decreases_to!(members@[i as int] => members@[i as int].1));
                }
                let c = clone_value(&members[i].1);
                let k = members[i].0.clone();
                let ghost outg = out@;
                out.push((k, c));
                proof {
                    lemma_jmodel_members_push(outg, (k, c));
                    assert(out@.drop_last() =~= outg);
                    assert(jmodel_members(members@).take(i + 1) =~= jmodel_members(
                        members@,
                    ).take(i as int).push((members@[i as int].0@, jmodel(members@[i as int].1))));
                }
                i = i + 1;
            }
            proof {
                assert(jmodel_members(members@).take(n as int) =~= jmodel_members(members@));
                assert(jmodel(JsonValue::Obj(out)) =~~= jmodel(*v));
            }
            JsonValue::Obj(out)
        },
    }
}

} // verus!
