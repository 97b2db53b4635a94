//! The grammar of the container engine's JSON records.
//!
//! The engine's build stream carries one JSON object per record, the
//! container-create response one JSON object in total. This module defines
//! that textual form: a parser specification over byte sequences (values are
//! strings, integers, booleans, null, arrays, and objects; a number with a
//! fraction or exponent, or one past the held integer range, is consumed but
//! its value is not kept, and string content must be well-formed UTF-8), and
//! the lemmas showing the parse of a record never depends on the bytes that
//! follow it — the ground for decoding a stream of records chunk by chunk.
//!
//! Positions move through an unchanged input sequence. A parse result is
//! `Found(value, end)`, `Needs` when the input ended first, or `Bad` when the
//! input cannot start with the requested form.

use vstd::prelude::*;
use crate::bytesutil::{bytes_eq, Parsed, Scan};

verus! {

/// A parsed JSON value. String contents are the decoded bytes, with escape
/// sequences resolved and `\u` escapes encoded as UTF-8.
pub enum JVal {
    Str(Seq<u8>),
    Int(i64),
    /// A number with a fraction or exponent, or an integer past the held
    /// range; consumed, value not kept.
    Num,
    Bool(bool),
    Null,
    Obj(Seq<(Seq<u8>, JVal)>),
    Arr(Seq<JVal>),
}

pub open spec fn is_ws(b: u8) -> bool {
    b == 0x20 || b == 0x09 || b == 0x0a || b == 0x0d
}

pub open spec fn is_digit(b: u8) -> bool {
    '0' as u8 <= b <= '9' as u8
}

/// Value of a hexadecimal digit, or -1.
pub open spec fn hex_val(b: u8) -> int {
    if '0' as u8 <= b <= '9' as u8 {
        b - '0' as u8
    } else if 'a' as u8 <= b <= 'f' as u8 {
        b - 'a' as u8 + 10
    } else if 'A' as u8 <= b <= 'F' as u8 {
        b - 'A' as u8 + 10
    } else {
        -1
    }
}

/// Value of the four hexadecimal digits at `i`, or -1.
pub open spec fn hex4(s: Seq<u8>, i: int) -> int {
    if hex_val(s[i]) >= 0 && hex_val(s[i + 1]) >= 0 && hex_val(s[i + 2]) >= 0 && hex_val(s[i + 3])
        >= 0 {
        hex_val(s[i]) * 0x1000 + hex_val(s[i + 1]) * 0x100 + hex_val(s[i + 2]) * 0x10 + hex_val(
            s[i + 3],
        )
    } else {
        -1
    }
}

/// UTF-8 encoding of the code point `c`.
pub open spec fn utf8_enc(c: int) -> Seq<u8> {
    if c < 0x80 {
        seq![c as u8]
    } else if c < 0x800 {
        seq![(0xC0 + c / 0x40) as u8, (0x80 + c % 0x40) as u8]
    } else if c < 0x10000 {
        seq![(0xE0 + c / 0x1000) as u8, (0x80 + c / 0x40 % 0x40) as u8, (0x80 + c % 0x40) as u8]
    } else {
        seq![
            (0xF0 + c / 0x40000) as u8,
            (0x80 + c / 0x1000 % 0x40) as u8,
            (0x80 + c / 0x40 % 0x40) as u8,
            (0x80 + c % 0x40) as u8,
        ]
    }
}

/// First position at or after `i` holding a byte that is not whitespace.
pub open spec fn sp_ws(s: Seq<u8>, i: int) -> int
    decreases s.len() - i,
{
    if 0 <= i < s.len() && is_ws(s[i]) {
        sp_ws(s, i + 1)
    } else {
        i
    }
}

/// A UTF-8 continuation byte.
pub open spec fn is_cont(b: u8) -> bool {
    0x80 <= b <= 0xBF
}

/// The admissible range of the first continuation byte after `lead`: the
/// narrowed ranges rule out overlong forms, surrogates and code points
/// past U+10FFFF.
pub open spec fn first_cont_ok(lead: u8, c: u8) -> bool {
    if lead == 0xE0 {
        0xA0 <= c <= 0xBF
    } else if lead == 0xED {
        0x80 <= c <= 0x9F
    } else if lead == 0xF0 {
        0x90 <= c <= 0xBF
    } else if lead == 0xF4 {
        0x80 <= c <= 0x8F
    } else {
        is_cont(c)
    }
}

/// One raw character of string content at `i`: an ASCII byte, or a
/// well-formed multi-byte UTF-8 sequence, passed through as its bytes.
/// Ill-formed sequences are refused: JSON text is UTF-8.
pub open spec fn sp_raw_char(s: Seq<u8>, i: int) -> Parsed<Seq<u8>> {
    if i < 0 {
        Parsed::Bad
    } else if i >= s.len() {
        Parsed::Needs
    } else {
        let b = s[i];
        if b < 0x80 {
            Parsed::Found(seq![b], i + 1)
        } else if b < 0xC2 {
            Parsed::Bad
        } else if b < 0xE0 {
            if i + 2 > s.len() {
                Parsed::Needs
            } else if is_cont(s[i + 1]) {
                Parsed::Found(seq![b, s[i + 1]], i + 2)
            } else {
                Parsed::Bad
            }
        } else if b < 0xF0 {
            if i + 2 > s.len() {
                Parsed::Needs
            } else if !first_cont_ok(b, s[i + 1]) {
                Parsed::Bad
            } else if i + 3 > s.len() {
                Parsed::Needs
            } else if !is_cont(s[i + 2]) {
                Parsed::Bad
            } else {
                Parsed::Found(seq![b, s[i + 1], s[i + 2]], i + 3)
            }
        } else if b < 0xF5 {
            if i + 2 > s.len() {
                Parsed::Needs
            } else if !first_cont_ok(b, s[i + 1]) {
                Parsed::Bad
            } else if i + 3 > s.len() {
                Parsed::Needs
            } else if !is_cont(s[i + 2]) {
                Parsed::Bad
            } else if i + 4 > s.len() {
                Parsed::Needs
            } else if !is_cont(s[i + 3]) {
                Parsed::Bad
            } else {
                Parsed::Found(seq![b, s[i + 1], s[i + 2], s[i + 3]], i + 4)
            }
        } else {
            Parsed::Bad
        }
    }
}

/// Prefixes the contents of a string parse with already-decoded bytes.
pub open spec fn put_before(pre: Seq<u8>, r: Parsed<Seq<u8>>) -> Parsed<Seq<u8>> {
    match r {
        Parsed::Found(c, j) => Parsed::Found(pre + c, j),
        Parsed::Needs => Parsed::Needs,
        Parsed::Bad => Parsed::Bad,
    }
}

/// Decodes string contents from `i` (just inside the opening quote) up to
/// and including the closing quote.
#[verifier::opaque]
pub open spec fn sp_str_body(s: Seq<u8>, i: int) -> Parsed<Seq<u8>>
    decreases s.len() - i,
{
    if i < 0 {
        Parsed::Bad
    } else if i >= s.len() {
        Parsed::Needs
    } else if s[i] == '"' as u8 {
        Parsed::Found(Seq::empty(), i + 1)
    } else if s[i] == '\\' as u8 {
        if i + 2 > s.len() {
            Parsed::Needs
        } else {
            let e = s[i + 1];
            if e == '"' as u8 || e == '\\' as u8 || e == '/' as u8 {
                put_before(seq![e], sp_str_body(s, i + 2))
            } else if e == 'b' as u8 {
                put_before(seq![8u8], sp_str_body(s, i + 2))
            } else if e == 'f' as u8 {
                put_before(seq![12u8], sp_str_body(s, i + 2))
            } else if e == 'n' as u8 {
                put_before(seq![10u8], sp_str_body(s, i + 2))
            } else if e == 'r' as u8 {
                put_before(seq![13u8], sp_str_body(s, i + 2))
            } else if e == 't' as u8 {
                put_before(seq![9u8], sp_str_body(s, i + 2))
            } else if e == 'u' as u8 {
                if i + 6 > s.len() {
                    Parsed::Needs
                } else {
                    let h = hex4(s, i + 2);
                    if h < 0 {
                        Parsed::Bad
                    } else if 0xD800 <= h < 0xDC00 {
                        // a high surrogate must pair with a following low one
                        if i + 12 > s.len() {
                            Parsed::Needs
                        } else if s[i + 6] == '\\' as u8 && s[i + 7] == 'u' as u8 {
                            let l = hex4(s, i + 8);
                            if 0xDC00 <= l < 0xE000 {
                                put_before(
                                    utf8_enc(0x10000 + (h - 0xD800) * 0x400 + (l - 0xDC00)),
                                    sp_str_body(s, i + 12),
                                )
                            } else {
                                Parsed::Bad
                            }
                        } else {
                            Parsed::Bad
                        }
                    } else if 0xDC00 <= h < 0xE000 {
                        Parsed::Bad
                    } else {
                        put_before(utf8_enc(h), sp_str_body(s, i + 6))
                    }
                }
            } else {
                Parsed::Bad
            }
        }
    } else if s[i] < 0x20 {
        Parsed::Bad
    } else {
        match sp_raw_char(s, i) {
            Parsed::Found(cs, j) => if i < j <= s.len() {
                put_before(cs, sp_str_body(s, j))
            } else {
                Parsed::Bad
            },
            Parsed::Needs => Parsed::Needs,
            Parsed::Bad => Parsed::Bad,
        }
    }
}

/// Parses a quoted string at `i`, yielding its decoded contents.
pub open spec fn sp_string(s: Seq<u8>, i: int) -> Parsed<Seq<u8>> {
    if i < 0 {
        Parsed::Bad
    } else if i >= s.len() {
        Parsed::Needs
    } else if s[i] != '"' as u8 {
        Parsed::Bad
    } else {
        sp_str_body(s, i + 1)
    }
}

/// Largest value the integer accumulator may hold; a run reaching it goes
/// on as a number whose value is not kept.
pub open spec fn int_cap() -> int {
    0x16345785D8A0000
}

/// Consumes a run of digits without keeping a value.
pub open spec fn sp_skip_digits(s: Seq<u8>, i: int) -> Parsed<()>
    decreases s.len() - i,
{
    if i < 0 {
        Parsed::Bad
    } else if i >= s.len() {
        Parsed::Needs
    } else if is_digit(s[i]) {
        sp_skip_digits(s, i + 1)
    } else {
        Parsed::Found((), i)
    }
}

/// Consumes digits from `i`, extending the already-read value `acc`; a
/// value reaching `int_cap` is dropped (`None`), the digits still
/// consumed.
pub open spec fn sp_digits(s: Seq<u8>, i: int, acc: int) -> Parsed<Option<int>>
    decreases s.len() - i,
{
    if i < 0 {
        Parsed::Bad
    } else if i >= s.len() {
        Parsed::Needs
    } else if is_digit(s[i]) {
        if acc >= int_cap() {
            match sp_skip_digits(s, i) {
                Parsed::Found(u, j) => Parsed::Found(Option::None, j),
                Parsed::Needs => Parsed::Needs,
                Parsed::Bad => Parsed::Bad,
            }
        } else {
            sp_digits(s, i + 1, acc * 10 + (s[i] - '0' as u8))
        }
    } else {
        Parsed::Found(Option::Some(acc), i)
    }
}

/// Consumes an exponent after its `e`: an optional sign, then at least
/// one digit.
pub open spec fn sp_exp(s: Seq<u8>, i: int) -> Parsed<()> {
    if i < 0 {
        Parsed::Bad
    } else if i >= s.len() {
        Parsed::Needs
    } else {
        let i2: int = if s[i] == '+' as u8 || s[i] == '-' as u8 {
            i + 1
        } else {
            i
        };
        if i2 >= s.len() {
            Parsed::Needs
        } else if !is_digit(s[i2]) {
            Parsed::Bad
        } else {
            sp_skip_digits(s, i2)
        }
    }
}

/// Parses a JSON number at `i`. An integer that fits is held (`Some`); a
/// number with a fraction or exponent, or an integer past `int_cap`, is
/// consumed whole but its value is not kept (`None`).
pub open spec fn sp_number(s: Seq<u8>, i: int) -> Parsed<Option<i64>> {
    if i < 0 {
        Parsed::Bad
    } else if i >= s.len() {
        Parsed::Needs
    } else {
        let neg = s[i] == '-' as u8;
        let i0: int = if neg {
            i + 1
        } else {
            i
        };
        if i0 >= s.len() {
            Parsed::Needs
        } else if !is_digit(s[i0]) {
            Parsed::Bad
        } else {
            match sp_digits(s, i0, 0) {
                Parsed::Found(on, j) => {
                    if j < s.len() && s[j] == '.' as u8 {
                        if j + 1 >= s.len() {
                            Parsed::Needs
                        } else if !is_digit(s[j + 1]) {
                            Parsed::Bad
                        } else {
                            match sp_skip_digits(s, j + 1) {
                                Parsed::Found(u, k) => {
                                    if k < s.len() && (s[k] == 'e' as u8 || s[k] == 'E' as u8) {
                                        match sp_exp(s, k + 1) {
                                            Parsed::Found(u2, m) => Parsed::Found(
                                                Option::None,
                                                m,
                                            ),
                                            Parsed::Needs => Parsed::Needs,
                                            Parsed::Bad => Parsed::Bad,
                                        }
                                    } else {
                                        Parsed::Found(Option::None, k)
                                    }
                                },
                                Parsed::Needs => Parsed::Needs,
                                Parsed::Bad => Parsed::Bad,
                            }
                        }
                    } else if j < s.len() && (s[j] == 'e' as u8 || s[j] == 'E' as u8) {
                        match sp_exp(s, j + 1) {
                            Parsed::Found(u, m) => Parsed::Found(Option::None, m),
                            Parsed::Needs => Parsed::Needs,
                            Parsed::Bad => Parsed::Bad,
                        }
                    } else {
                        match on {
                            Option::Some(n) => Parsed::Found(
                                Option::Some(
                                    if neg {
                                        (-n) as i64
                                    } else {
                                        n as i64
                                    },
                                ),
                                j,
                            ),
                            Option::None => Parsed::Found(Option::None, j),
                        }
                    }
                },
                Parsed::Needs => Parsed::Needs,
                Parsed::Bad => Parsed::Bad,
            }
        }
    }
}

/// Matches the bytes of `w` (from index `k`) against `s` at `i`.
pub open spec fn sp_lit(s: Seq<u8>, i: int, w: Seq<u8>, k: int) -> Parsed<()>
    decreases w.len() - k,
{
    if k >= w.len() {
        Parsed::Found((), i)
    } else if i < 0 {
        Parsed::Bad
    } else if i >= s.len() {
        Parsed::Needs
    } else if s[i] == w[k] {
        sp_lit(s, i + 1, w, k + 1)
    } else {
        Parsed::Bad
    }
}

pub open spec fn word_true() -> Seq<u8> {
    seq!['t' as u8, 'r' as u8, 'u' as u8, 'e' as u8]
}

pub open spec fn word_false() -> Seq<u8> {
    seq!['f' as u8, 'a' as u8, 'l' as u8, 's' as u8, 'e' as u8]
}

pub open spec fn word_null() -> Seq<u8> {
    seq!['n' as u8, 'u' as u8, 'l' as u8, 'l' as u8]
}

/// Parses one JSON value, skipping leading whitespace.
#[verifier::opaque]
pub open spec fn sp_value(s: Seq<u8>, i: int) -> Parsed<JVal>
    decreases s.len() - i, 0int,
{
    let j = sp_ws(s, i);
    if j >= s.len() {
        Parsed::Needs
    } else if j < i || i < 0 {
        Parsed::Bad
    } else {
        let b = s[j];
        if b == '"' as u8 {
            match sp_string(s, j) {
                Parsed::Found(c, d) => Parsed::Found(JVal::Str(c), d),
                Parsed::Needs => Parsed::Needs,
                Parsed::Bad => Parsed::Bad,
            }
        } else if b == '{' as u8 {
            match sp_members(s, j + 1, true) {
                Parsed::Found(ms, d) => Parsed::Found(JVal::Obj(ms), d),
                Parsed::Needs => Parsed::Needs,
                Parsed::Bad => Parsed::Bad,
            }
        } else if b == '[' as u8 {
            match sp_elems(s, j + 1, true) {
                Parsed::Found(vs, d) => Parsed::Found(JVal::Arr(vs), d),
                Parsed::Needs => Parsed::Needs,
                Parsed::Bad => Parsed::Bad,
            }
        } else if b == 't' as u8 {
            match sp_lit(s, j, word_true(), 0) {
                Parsed::Found(u, d) => Parsed::Found(JVal::Bool(true), d),
                Parsed::Needs => Parsed::Needs,
                Parsed::Bad => Parsed::Bad,
            }
        } else if b == 'f' as u8 {
            match sp_lit(s, j, word_false(), 0) {
                Parsed::Found(u, d) => Parsed::Found(JVal::Bool(false), d),
                Parsed::Needs => Parsed::Needs,
                Parsed::Bad => Parsed::Bad,
            }
        } else if b == 'n' as u8 {
            match sp_lit(s, j, word_null(), 0) {
                Parsed::Found(u, d) => Parsed::Found(JVal::Null, d),
                Parsed::Needs => Parsed::Needs,
                Parsed::Bad => Parsed::Bad,
            }
        } else if b == '-' as u8 || is_digit(b) {
            match sp_number(s, j) {
                Parsed::Found(on, d) => match on {
                    Option::Some(n) => Parsed::Found(JVal::Int(n), d),
                    Option::None => Parsed::Found(JVal::Num, d),
                },
                Parsed::Needs => Parsed::Needs,
                Parsed::Bad => Parsed::Bad,
            }
        } else {
            Parsed::Bad
        }
    }
}

/// Parses the members of an object, from just after its `{` (or after a
/// `,`); `first` allows an immediate `}`.
pub open spec fn sp_members(s: Seq<u8>, i: int, first: bool) -> Parsed<Seq<(Seq<u8>, JVal)>>
    decreases s.len() - i, 1int,
{
    let j = sp_ws(s, i);
    if j >= s.len() {
        Parsed::Needs
    } else if j < i || i < 0 {
        Parsed::Bad
    } else if first && s[j] == '}' as u8 {
        Parsed::Found(Seq::empty(), j + 1)
    } else if s[j] != '"' as u8 {
        Parsed::Bad
    } else {
        match sp_string(s, j) {
            Parsed::Found(key, a) => {
                let b = sp_ws(s, a);
                if b >= s.len() {
                    Parsed::Needs
                } else if s[b] != ':' as u8 || b + 1 <= i {
                    Parsed::Bad
                } else {
                    match sp_value(s, b + 1) {
                        Parsed::Found(v, d) => {
                            let e = sp_ws(s, d);
                            if e >= s.len() {
                                Parsed::Needs
                            } else if s[e] == ',' as u8 {
                                if e + 1 <= i {
                                    Parsed::Bad
                                } else {
                                    match sp_members(s, e + 1, false) {
                                        Parsed::Found(ms, f) => Parsed::Found(
                                            seq![(key, v)] + ms,
                                            f,
                                        ),
                                        Parsed::Needs => Parsed::Needs,
                                        Parsed::Bad => Parsed::Bad,
                                    }
                                }
                            } else if s[e] == '}' as u8 {
                                Parsed::Found(seq![(key, v)], e + 1)
                            } else {
                                Parsed::Bad
                            }
                        },
                        Parsed::Needs => Parsed::Needs,
                        Parsed::Bad => Parsed::Bad,
                    }
                }
            },
            Parsed::Needs => Parsed::Needs,
            Parsed::Bad => Parsed::Bad,
        }
    }
}

/// Parses the elements of an array, from just after its `[` (or after a
/// `,`); `first` allows an immediate `]`.
pub open spec fn sp_elems(s: Seq<u8>, i: int, first: bool) -> Parsed<Seq<JVal>>
    decreases s.len() - i, 1int,
{
    let j = sp_ws(s, i);
    if j >= s.len() {
        Parsed::Needs
    } else if j < i || i < 0 {
        Parsed::Bad
    } else if first && s[j] == ']' as u8 {
        Parsed::Found(Seq::empty(), j + 1)
    } else {
        match sp_value(s, j) {
            Parsed::Found(v, d) => {
                let e = sp_ws(s, d);
                if e >= s.len() {
                    Parsed::Needs
                } else if s[e] == ',' as u8 {
                    if e + 1 <= i {
                        Parsed::Bad
                    } else {
                        match sp_elems(s, e + 1, false) {
                            Parsed::Found(vs, f) => Parsed::Found(seq![v] + vs, f),
                            Parsed::Needs => Parsed::Needs,
                            Parsed::Bad => Parsed::Bad,
                        }
                    }
                } else if s[e] == ']' as u8 {
                    Parsed::Found(seq![v], e + 1)
                } else {
                    Parsed::Bad
                }
            },
            Parsed::Needs => Parsed::Needs,
            Parsed::Bad => Parsed::Bad,
        }
    }
}

/// First value bound to `key` among `ms`, in member order.
pub open spec fn first_val(ms: Seq<(Seq<u8>, JVal)>, key: Seq<u8>) -> Option<JVal>
    decreases ms.len(),
{
    if ms.len() == 0 {
        Option::None
    } else if ms[0].0 == key {
        Option::Some(ms[0].1)
    } else {
        first_val(ms.drop_first(), key)
    }
}

// ---------------------------------------------------------------------------
// Bounds: a successful parse consumes part of the input, moving forward.

pub proof fn lemma_ws_bounds(s: Seq<u8>, i: int)
    requires
        0 <= i,
    ensures
        i <= sp_ws(s, i),
        i <= s.len() ==> sp_ws(s, i) <= s.len(),
        sp_ws(s, i) < s.len() ==> !is_ws(s[sp_ws(s, i)]),
    decreases s.len() - i,
{
    if i < s.len() && is_ws(s[i]) {
        lemma_ws_bounds(s, i + 1);
    }
}

pub proof fn lemma_raw_char_bounds(s: Seq<u8>, i: int)
    requires
        0 <= i,
    ensures
        sp_raw_char(s, i) matches Parsed::Found(cs, j) ==> i < j <= s.len(),
{
}

pub proof fn lemma_raw_char_stable(s: Seq<u8>, e: Seq<u8>, i: int)
    requires
        0 <= i,
    ensures
        !(sp_raw_char(s, i) is Needs) ==> sp_raw_char(s + e, i) == sp_raw_char(s, i),
{
}

pub proof fn lemma_raw_char_shift(a: Seq<u8>, s: Seq<u8>, i: int)
    requires
        0 <= i,
    ensures
        sp_raw_char(a + s, a.len() + i) == shifted(sp_raw_char(s, i), a.len() as int),
{
    let dd = a.len() as int;
    if i < s.len() {
        assert((a + s)[dd + i] == s[i]);
        if i + 1 < s.len() {
            assert((a + s)[dd + i + 1] == s[i + 1]);
        }
        if i + 2 < s.len() {
            assert((a + s)[dd + i + 2] == s[i + 2]);
        }
        if i + 3 < s.len() {
            assert((a + s)[dd + i + 3] == s[i + 3]);
        }
    }
}

pub proof fn lemma_str_body_bounds(s: Seq<u8>, i: int)
    requires
        0 <= i,
    ensures
        sp_str_body(s, i) matches Parsed::Found(c, j) ==> i < j <= s.len(),
    decreases s.len() - i,
{
    reveal(sp_str_body);
    if i < s.len() && s[i] != '"' as u8 {
        if s[i] == '\\' as u8 && i + 2 <= s.len() {
            let e = s[i + 1];
            lemma_str_body_bounds(s, i + 2);
            if e == 'u' as u8 && i + 6 <= s.len() {
                lemma_str_body_bounds(s, i + 6);
                if i + 12 <= s.len() {
                    lemma_str_body_bounds(s, i + 12);
                }
            }
        } else if s[i] >= 0x20 {
            lemma_raw_char_bounds(s, i);
            if let Parsed::Found(cs, j) = sp_raw_char(s, i) {
                lemma_str_body_bounds(s, j);
            }
        }
    }
}

pub proof fn lemma_string_bounds(s: Seq<u8>, i: int)
    requires
        0 <= i,
    ensures
        sp_string(s, i) matches Parsed::Found(c, j) ==> i < j <= s.len(),
{
    if i < s.len() && s[i] == '"' as u8 {
        lemma_str_body_bounds(s, i + 1);
    }
}

pub proof fn lemma_skip_digits_bounds(s: Seq<u8>, i: int)
    requires
        0 <= i,
    ensures
        sp_skip_digits(s, i) matches Parsed::Found(u, j) ==> i <= j < s.len(),
        (i < s.len() && is_digit(s[i])) ==> (sp_skip_digits(s, i) matches Parsed::Found(u, j)
            ==> i + 1 <= j),
    decreases s.len() - i,
{
    if i < s.len() && is_digit(s[i]) {
        lemma_skip_digits_bounds(s, i + 1);
    }
}

pub proof fn lemma_digits_bounds(s: Seq<u8>, i: int, acc: int)
    requires
        0 <= i,
        0 <= acc < 10 * int_cap(),
    ensures
        sp_digits(s, i, acc) matches Parsed::Found(on, j) ==> i <= j < s.len() && (on matches
            Option::Some(n) ==> 0 <= n < 10 * int_cap()),
        (i < s.len() && is_digit(s[i])) ==> (sp_digits(s, i, acc) matches Parsed::Found(on, j)
            ==> i + 1 <= j),
    decreases s.len() - i,
{
    if i < s.len() && is_digit(s[i]) {
        if acc >= int_cap() {
            lemma_skip_digits_bounds(s, i);
        } else {
            lemma_digits_bounds(s, i + 1, acc * 10 + (s[i] - '0' as u8));
        }
    }
}

pub proof fn lemma_exp_bounds(s: Seq<u8>, i: int)
    requires
        0 <= i,
    ensures
        sp_exp(s, i) matches Parsed::Found(u, j) ==> i < j < s.len(),
{
    if i < s.len() {
        let i2: int = if s[i] == '+' as u8 || s[i] == '-' as u8 {
            i + 1
        } else {
            i
        };
        if i2 < s.len() && is_digit(s[i2]) {
            lemma_skip_digits_bounds(s, i2);
        }
    }
}

pub proof fn lemma_number_bounds(s: Seq<u8>, i: int)
    requires
        0 <= i,
    ensures
        sp_number(s, i) matches Parsed::Found(on, j) ==> i < j <= s.len(),
{
    if i < s.len() {
        let i0: int = if s[i] == '-' as u8 {
            i + 1
        } else {
            i
        };
        if i0 < s.len() && is_digit(s[i0]) {
            lemma_digits_bounds(s, i0, 0);
            if let Parsed::Found(on, j) = sp_digits(s, i0, 0) {
                if j < s.len() && s[j] == '.' as u8 && j + 1 < s.len() && is_digit(s[j + 1]) {
                    lemma_skip_digits_bounds(s, j + 1);
                    if let Parsed::Found(u, k) = sp_skip_digits(s, j + 1) {
                        lemma_exp_bounds(s, k + 1);
                    }
                }
                lemma_exp_bounds(s, j + 1);
            }
        }
    }
}

pub proof fn lemma_lit_bounds(s: Seq<u8>, i: int, w: Seq<u8>, k: int)
    requires
        0 <= i <= s.len(),
        0 <= k <= w.len(),
    ensures
        sp_lit(s, i, w, k) matches Parsed::Found(u, j) ==> j == i + (w.len() - k) && j <= s.len()
            && j >= i,
    decreases w.len() - k,
{
    if k < w.len() && 0 <= i < s.len() && s[i] == w[k] {
        lemma_lit_bounds(s, i + 1, w, k + 1);
    }
}

pub proof fn lemma_value_bounds(s: Seq<u8>, i: int)
    requires
        0 <= i,
    ensures
        sp_value(s, i) matches Parsed::Found(v, j) ==> i < j <= s.len(),
    decreases s.len() - i, 0int,
{
    reveal(sp_value);
    let j = sp_ws(s, i);
    lemma_ws_bounds(s, i);
    if i <= j < s.len() {
        let b = s[j];
        if b == '"' as u8 {
            lemma_string_bounds(s, j);
        } else if b == '{' as u8 {
            lemma_members_bounds(s, j + 1, true);
        } else if b == '[' as u8 {
            lemma_elems_bounds(s, j + 1, true);
        } else if b == 't' as u8 {
            lemma_lit_bounds(s, j, word_true(), 0);
        } else if b == 'f' as u8 {
            lemma_lit_bounds(s, j, word_false(), 0);
        } else if b == 'n' as u8 {
            lemma_lit_bounds(s, j, word_null(), 0);
        } else if b == '-' as u8 || is_digit(b) {
            lemma_number_bounds(s, j);
        }
    }
}

pub proof fn lemma_members_bounds(s: Seq<u8>, i: int, first: bool)
    requires
        0 <= i,
    ensures
        sp_members(s, i, first) matches Parsed::Found(ms, j) ==> i < j <= s.len(),
    decreases s.len() - i, 1int,
{
    reveal(sp_value);
    let j = sp_ws(s, i);
    lemma_ws_bounds(s, i);
    if i <= j < s.len() && !(first && s[j] == '}' as u8) && s[j] == '"' as u8 {
        lemma_string_bounds(s, j);
        if let Parsed::Found(key, a) = sp_string(s, j) {
            lemma_ws_bounds(s, a);
            let b = sp_ws(s, a);
            if b < s.len() && s[b] == ':' as u8 && b + 1 > i {
                lemma_value_bounds(s, b + 1);
                if let Parsed::Found(v, d) = sp_value(s, b + 1) {
                    lemma_ws_bounds(s, d);
                    let e = sp_ws(s, d);
                    if e < s.len() && s[e] == ',' as u8 && e + 1 > i {
                        lemma_members_bounds(s, e + 1, false);
                    }
                }
            }
        }
    }
}

pub proof fn lemma_elems_bounds(s: Seq<u8>, i: int, first: bool)
    requires
        0 <= i,
    ensures
        sp_elems(s, i, first) matches Parsed::Found(vs, j) ==> i < j <= s.len(),
    decreases s.len() - i, 1int,
{
    reveal(sp_value);
    let j = sp_ws(s, i);
    lemma_ws_bounds(s, i);
    if i <= j < s.len() && !(first && s[j] == ']' as u8) {
        lemma_value_bounds(s, j);
        if let Parsed::Found(v, d) = sp_value(s, j) {
            lemma_ws_bounds(s, d);
            let e = sp_ws(s, d);
            if e < s.len() && s[e] == ',' as u8 && e + 1 > i {
                lemma_elems_bounds(s, e + 1, false);
            }
        }
    }
}

// ---------------------------------------------------------------------------
// Stability: a parse that did not run short is unchanged by appended bytes.

pub proof fn lemma_ws_stable(s: Seq<u8>, e: Seq<u8>, i: int)
    requires
        0 <= i,
    ensures
        sp_ws(s, i) < s.len() ==> sp_ws(s + e, i) == sp_ws(s, i),
    decreases s.len() - i,
{
    if i < s.len() && is_ws(s[i]) {
        lemma_ws_stable(s, e, i + 1);
    }
}

pub proof fn lemma_str_body_stable(s: Seq<u8>, e: Seq<u8>, i: int)
    requires
        0 <= i,
    ensures
        !(sp_str_body(s, i) is Needs) ==> sp_str_body(s + e, i) == sp_str_body(s, i),
    decreases s.len() - i,
{
    reveal(sp_str_body);
    if i < s.len() && s[i] != '"' as u8 {
        if s[i] == '\\' as u8 && i + 2 <= s.len() {
            let x = s[i + 1];
            lemma_str_body_stable(s, e, i + 2);
            if x == 'u' as u8 && i + 6 <= s.len() {
                assert(hex4(s + e, i + 2) == hex4(s, i + 2));
                lemma_str_body_stable(s, e, i + 6);
                if i + 12 <= s.len() {
                    assert(hex4(s + e, i + 8) == hex4(s, i + 8));
                    lemma_str_body_stable(s, e, i + 12);
                }
            }
        } else if s[i] >= 0x20 {
            lemma_raw_char_bounds(s, i);
            lemma_raw_char_stable(s, e, i);
            if let Parsed::Found(cs, j) = sp_raw_char(s, i) {
                lemma_str_body_stable(s, e, j);
            }
        }
    }
}

pub proof fn lemma_string_stable(s: Seq<u8>, e: Seq<u8>, i: int)
    requires
        0 <= i,
    ensures
        !(sp_string(s, i) is Needs) ==> sp_string(s + e, i) == sp_string(s, i),
{
    if i < s.len() && s[i] == '"' as u8 {
        lemma_str_body_stable(s, e, i + 1);
    }
}

pub proof fn lemma_skip_digits_stable(s: Seq<u8>, e: Seq<u8>, i: int)
    requires
        0 <= i,
    ensures
        !(sp_skip_digits(s, i) is Needs) ==> sp_skip_digits(s + e, i) == sp_skip_digits(s, i),
    decreases s.len() - i,
{
    if i < s.len() && is_digit(s[i]) {
        lemma_skip_digits_stable(s, e, i + 1);
    }
}

pub proof fn lemma_digits_stable(s: Seq<u8>, e: Seq<u8>, i: int, acc: int)
    requires
        0 <= i,
    ensures
        !(sp_digits(s, i, acc) is Needs) ==> sp_digits(s + e, i, acc) == sp_digits(s, i, acc),
    decreases s.len() - i,
{
    if i < s.len() && is_digit(s[i]) {
        if acc >= int_cap() {
            lemma_skip_digits_stable(s, e, i);
        } else {
            lemma_digits_stable(s, e, i + 1, acc * 10 + (s[i] - '0' as u8));
        }
    }
}

pub proof fn lemma_exp_stable(s: Seq<u8>, e: Seq<u8>, i: int)
    requires
        0 <= i,
    ensures
        !(sp_exp(s, i) is Needs) ==> sp_exp(s + e, i) == sp_exp(s, i),
{
    if i < s.len() {
        let i2: int = if s[i] == '+' as u8 || s[i] == '-' as u8 {
            i + 1
        } else {
            i
        };
        if i2 < s.len() && is_digit(s[i2]) {
            lemma_skip_digits_stable(s, e, i2);
        }
    }
}

pub proof fn lemma_number_stable(s: Seq<u8>, e: Seq<u8>, i: int)
    requires
        0 <= i,
    ensures
        !(sp_number(s, i) is Needs) ==> sp_number(s + e, i) == sp_number(s, i),
{
    if i < s.len() {
        let i0: int = if s[i] == '-' as u8 {
            i + 1
        } else {
            i
        };
        if i0 < s.len() && is_digit(s[i0]) {
            lemma_digits_stable(s, e, i0, 0);
            lemma_digits_bounds(s, i0, 0);
            if let Parsed::Found(on, j) = sp_digits(s, i0, 0) {
                if j < s.len() && s[j] == '.' as u8 && j + 1 < s.len() && is_digit(s[j + 1]) {
                    lemma_skip_digits_stable(s, e, j + 1);
                    lemma_skip_digits_bounds(s, j + 1);
                    if let Parsed::Found(u, k) = sp_skip_digits(s, j + 1) {
                        lemma_exp_stable(s, e, k + 1);
                    }
                }
                lemma_exp_stable(s, e, j + 1);
            }
        }
    }
}

pub proof fn lemma_lit_stable(s: Seq<u8>, e: Seq<u8>, i: int, w: Seq<u8>, k: int)
    requires
        0 <= i,
        0 <= k,
    ensures
        !(sp_lit(s, i, w, k) is Needs) ==> sp_lit(s + e, i, w, k) == sp_lit(s, i, w, k),
    decreases w.len() - k,
{
    if k < w.len() && i < s.len() && s[i] == w[k] {
        lemma_lit_stable(s, e, i + 1, w, k + 1);
    }
}

pub proof fn lemma_value_stable(s: Seq<u8>, e: Seq<u8>, i: int)
    requires
        0 <= i,
    ensures
        !(sp_value(s, i) is Needs) ==> sp_value(s + e, i) == sp_value(s, i),
    decreases s.len() - i, 0int,
{
    reveal(sp_value);
    let j = sp_ws(s, i);
    lemma_ws_bounds(s, i);
    lemma_ws_stable(s, e, i);
    if i <= j < s.len() {
        let b = s[j];
        if b == '"' as u8 {
            lemma_string_stable(s, e, j);
        } else if b == '{' as u8 {
            lemma_members_stable(s, e, j + 1, true);
        } else if b == '[' as u8 {
            lemma_elems_stable(s, e, j + 1, true);
        } else if b == 't' as u8 {
            lemma_lit_stable(s, e, j, word_true(), 0);
        } else if b == 'f' as u8 {
            lemma_lit_stable(s, e, j, word_false(), 0);
        } else if b == 'n' as u8 {
            lemma_lit_stable(s, e, j, word_null(), 0);
        } else if b == '-' as u8 || is_digit(b) {
            lemma_number_stable(s, e, j);
        }
    }
}

pub proof fn lemma_members_stable(s: Seq<u8>, e: Seq<u8>, i: int, first: bool)
    requires
        0 <= i,
    ensures
        !(sp_members(s, i, first) is Needs) ==> sp_members(s + e, i, first) == sp_members(
            s,
            i,
            first,
        ),
    decreases s.len() - i, 1int,
{
    reveal(sp_value);
    let j = sp_ws(s, i);
    lemma_ws_bounds(s, i);
    lemma_ws_stable(s, e, i);
    if i <= j < s.len() && !(first && s[j] == '}' as u8) && s[j] == '"' as u8 {
        lemma_string_stable(s, e, j);
        lemma_string_bounds(s, j);
        if let Parsed::Found(key, a) = sp_string(s, j) {
            let b = sp_ws(s, a);
            lemma_ws_bounds(s, a);
            lemma_ws_stable(s, e, a);
            if b < s.len() && s[b] == ':' as u8 && b + 1 > i {
                lemma_value_stable(s, e, b + 1);
                lemma_value_bounds(s, b + 1);
                if let Parsed::Found(v, d) = sp_value(s, b + 1) {
                    let x = sp_ws(s, d);
                    lemma_ws_bounds(s, d);
                    lemma_ws_stable(s, e, d);
                    if x < s.len() && s[x] == ',' as u8 && x + 1 > i {
                        lemma_members_stable(s, e, x + 1, false);
                    }
                }
            }
        }
    }
}

pub proof fn lemma_elems_stable(s: Seq<u8>, e: Seq<u8>, i: int, first: bool)
    requires
        0 <= i,
    ensures
        !(sp_elems(s, i, first) is Needs) ==> sp_elems(s + e, i, first) == sp_elems(s, i, first),
    decreases s.len() - i, 1int,
{
    reveal(sp_value);
    let j = sp_ws(s, i);
    lemma_ws_bounds(s, i);
    lemma_ws_stable(s, e, i);
    if i <= j < s.len() && !(first && s[j] == ']' as u8) {
        lemma_value_stable(s, e, j);
        lemma_value_bounds(s, j);
        if let Parsed::Found(v, d) = sp_value(s, j) {
            let x = sp_ws(s, d);
            lemma_ws_bounds(s, d);
            lemma_ws_stable(s, e, d);
            if x < s.len() && s[x] == ',' as u8 && x + 1 > i {
                lemma_elems_stable(s, e, x + 1, false);
            }
        }
    }
}

// ---------------------------------------------------------------------------
// Shift: the bytes before the start position play no part in a parse.

pub proof fn lemma_ws_shift(a: Seq<u8>, s: Seq<u8>, i: int)
    requires
        0 <= i,
    ensures
        sp_ws(a + s, a.len() + i) == a.len() + sp_ws(s, i),
    decreases s.len() - i,
{
    if i < s.len() && is_ws(s[i]) {
        lemma_ws_shift(a, s, i + 1);
    }
}

/// `Parsed` with the end position moved right by `d`; mirrors
/// `stream::shift_parsed` for each payload type used here.
pub open spec fn shifted<T>(r: Parsed<T>, d: int) -> Parsed<T> {
    match r {
        Parsed::Found(v, j) => Parsed::Found(v, j + d),
        Parsed::Needs => Parsed::Needs,
        Parsed::Bad => Parsed::Bad,
    }
}

#[verifier::rlimit(100)]
#[verifier::spinoff_prover]
pub proof fn lemma_str_body_shift(a: Seq<u8>, s: Seq<u8>, i: int)
    requires
        0 <= i,
    ensures
        sp_str_body(a + s, a.len() + i) == shifted(sp_str_body(s, i), a.len() as int),
    decreases s.len() - i,
{
    reveal(sp_str_body);
    if i < s.len() {
        assert((a + s)[a.len() + i] == s[i]);
        if i + 1 < s.len() {
            assert((a + s)[a.len() + i + 1] == s[i + 1]);
        }
        if i + 7 < s.len() {
            assert((a + s)[a.len() + i + 6] == s[i + 6]);
            assert((a + s)[a.len() + i + 7] == s[i + 7]);
        }
    }
    let dd = a.len() as int;
    if i < s.len() && s[i] != '"' as u8 {
        if s[i] == '\\' as u8 && i + 2 <= s.len() {
            let x = s[i + 1];
            lemma_str_body_shift(a, s, i + 2);
            assert(sp_str_body(a + s, dd + i + 2) == shifted(sp_str_body(s, i + 2), dd));
            if x == 'u' as u8 && i + 6 <= s.len() {
                assert(hex4(a + s, dd + i + 2) == hex4(s, i + 2));
                lemma_str_body_shift(a, s, i + 6);
                assert(sp_str_body(a + s, dd + i + 6) == shifted(sp_str_body(s, i + 6), dd));
                if i + 12 <= s.len() {
                    assert(hex4(a + s, dd + i + 8) == hex4(s, i + 8));
                    lemma_str_body_shift(a, s, i + 12);
                    assert(sp_str_body(a + s, dd + i + 12) == shifted(
                        sp_str_body(s, i + 12),
                        dd,
                    ));
                }
            }
        } else if s[i] >= 0x20 {
            lemma_raw_char_bounds(s, i);
            lemma_raw_char_shift(a, s, i);
            if let Parsed::Found(cs, j) = sp_raw_char(s, i) {
                lemma_str_body_shift(a, s, j);
                assert(sp_str_body(a + s, dd + j) == shifted(sp_str_body(s, j), dd));
            }
        }
    }
}

pub proof fn lemma_string_shift(a: Seq<u8>, s: Seq<u8>, i: int)
    requires
        0 <= i,
    ensures
        sp_string(a + s, a.len() + i) == shifted(sp_string(s, i), a.len() as int),
{
    if i < s.len() && s[i] == '"' as u8 {
        lemma_str_body_shift(a, s, i + 1);
    }
}

pub proof fn lemma_skip_digits_shift(a: Seq<u8>, s: Seq<u8>, i: int)
    requires
        0 <= i,
    ensures
        sp_skip_digits(a + s, a.len() + i) == shifted(sp_skip_digits(s, i), a.len() as int),
    decreases s.len() - i,
{
    if i < s.len() && is_digit(s[i]) {
        lemma_skip_digits_shift(a, s, i + 1);
    }
}

pub proof fn lemma_digits_shift(a: Seq<u8>, s: Seq<u8>, i: int, acc: int)
    requires
        0 <= i,
    ensures
        sp_digits(a + s, a.len() + i, acc) == shifted(sp_digits(s, i, acc), a.len() as int),
    decreases s.len() - i,
{
    if i < s.len() && is_digit(s[i]) {
        if acc >= int_cap() {
            lemma_skip_digits_shift(a, s, i);
        } else {
            lemma_digits_shift(a, s, i + 1, acc * 10 + (s[i] - '0' as u8));
        }
    }
}

pub proof fn lemma_exp_shift(a: Seq<u8>, s: Seq<u8>, i: int)
    requires
        0 <= i,
    ensures
        sp_exp(a + s, a.len() + i) == shifted(sp_exp(s, i), a.len() as int),
{
    if i < s.len() {
        assert((a + s)[a.len() + i] == s[i]);
        let i2: int = if s[i] == '+' as u8 || s[i] == '-' as u8 {
            i + 1
        } else {
            i
        };
        if i2 < s.len() {
            assert((a + s)[a.len() + i2] == s[i2]);
            if is_digit(s[i2]) {
                lemma_skip_digits_shift(a, s, i2);
            }
        }
    }
}

pub proof fn lemma_number_shift(a: Seq<u8>, s: Seq<u8>, i: int)
    requires
        0 <= i,
    ensures
        sp_number(a + s, a.len() + i) == shifted(sp_number(s, i), a.len() as int),
{
    let dd = a.len() as int;
    if i < s.len() {
        assert((a + s)[dd + i] == s[i]);
        let i0: int = if s[i] == '-' as u8 {
            i + 1
        } else {
            i
        };
        if i0 < s.len() {
            assert((a + s)[dd + i0] == s[i0]);
            if is_digit(s[i0]) {
                lemma_digits_shift(a, s, i0, 0);
                lemma_digits_bounds(s, i0, 0);
                if let Parsed::Found(on, j) = sp_digits(s, i0, 0) {
                    assert((a + s)[dd + j] == s[j]);
                    if j < s.len() && s[j] == '.' as u8 && j + 1 < s.len() {
                        assert((a + s)[dd + j + 1] == s[j + 1]);
                        if is_digit(s[j + 1]) {
                            lemma_skip_digits_shift(a, s, j + 1);
                            lemma_skip_digits_bounds(s, j + 1);
                            if let Parsed::Found(u, k) = sp_skip_digits(s, j + 1) {
                                assert((a + s)[dd + k] == s[k]);
                                lemma_exp_shift(a, s, k + 1);
                            }
                        }
                    }
                    lemma_exp_shift(a, s, j + 1);
                }
            }
        }
    }
}

pub proof fn lemma_lit_shift(a: Seq<u8>, s: Seq<u8>, i: int, w: Seq<u8>, k: int)
    requires
        0 <= i,
        0 <= k,
    ensures
        sp_lit(a + s, a.len() + i, w, k) == shifted(sp_lit(s, i, w, k), a.len() as int),
    decreases w.len() - k,
{
    if k < w.len() && i < s.len() && s[i] == w[k] {
        lemma_lit_shift(a, s, i + 1, w, k + 1);
    }
}

pub proof fn lemma_value_shift(a: Seq<u8>, s: Seq<u8>, i: int)
    requires
        0 <= i,
    ensures
        sp_value(a + s, a.len() + i) == shifted(sp_value(s, i), a.len() as int),
    decreases s.len() - i, 0int,
{
    reveal(sp_value);
    let j = sp_ws(s, i);
    lemma_ws_bounds(s, i);
    lemma_ws_shift(a, s, i);
    if i <= j < s.len() {
        let b = s[j];
        if b == '"' as u8 {
            lemma_string_shift(a, s, j);
        } else if b == '{' as u8 {
            lemma_members_shift(a, s, j + 1, true);
        } else if b == '[' as u8 {
            lemma_elems_shift(a, s, j + 1, true);
        } else if b == 't' as u8 {
            lemma_lit_shift(a, s, j, word_true(), 0);
        } else if b == 'f' as u8 {
            lemma_lit_shift(a, s, j, word_false(), 0);
        } else if b == 'n' as u8 {
            lemma_lit_shift(a, s, j, word_null(), 0);
        } else if b == '-' as u8 || is_digit(b) {
            lemma_number_shift(a, s, j);
        }
    }
}

#[verifier::rlimit(100)]
pub proof fn lemma_members_shift(a: Seq<u8>, s: Seq<u8>, i: int, first: bool)
    requires
        0 <= i,
    ensures
        sp_members(a + s, a.len() + i, first) == shifted(sp_members(s, i, first), a.len() as int),
    decreases s.len() - i, 1int,
{
    reveal(sp_value);
    let j = sp_ws(s, i);
    let dd = a.len() as int;
    lemma_ws_bounds(s, i);
    lemma_ws_shift(a, s, i);
    assert(sp_ws(a + s, dd + i) == dd + j);
    assert((a + s).len() == dd + s.len());
    if i <= j < s.len() && !(first && s[j] == '}' as u8) && s[j] == '"' as u8 {
        assert((a + s)[dd + j] == s[j]);
        lemma_string_shift(a, s, j);
        lemma_string_bounds(s, j);
        if let Parsed::Found(key, x1) = sp_string(s, j) {
            assert(sp_string(a + s, dd + j) == Parsed::<Seq<u8>>::Found(key, dd + x1));
            let b = sp_ws(s, x1);
            lemma_ws_bounds(s, x1);
            lemma_ws_shift(a, s, x1);
            assert(sp_ws(a + s, dd + x1) == dd + b);
            if b < s.len() && s[b] == ':' as u8 && b + 1 > i {
                assert((a + s)[dd + b] == s[b]);
                lemma_value_shift(a, s, b + 1);
                lemma_value_bounds(s, b + 1);
                assert(sp_value(a + s, dd + b + 1) == shifted(sp_value(s, b + 1), dd));
                if let Parsed::Found(v, d) = sp_value(s, b + 1) {
                    let x = sp_ws(s, d);
                    lemma_ws_bounds(s, d);
                    lemma_ws_shift(a, s, d);
                    assert(sp_ws(a + s, dd + d) == dd + x);
                    if x < s.len() {
                        assert((a + s)[dd + x] == s[x]);
                        if s[x] == ',' as u8 && x + 1 > i {
                            lemma_members_shift(a, s, x + 1, false);
                            assert(sp_members(a + s, dd + x + 1, false) == shifted(
                                sp_members(s, x + 1, false),
                                dd,
                            ));
                            match sp_members(s, x + 1, false) {
                                Parsed::Found(ms, f) => {
                                    assert(sp_members(s, i, first) == Parsed::<
                                        Seq<(Seq<u8>, JVal)>,
                                    >::Found(seq![(key, v)] + ms, f));
                                    assert(sp_members(a + s, dd + i, first) == Parsed::<
                                        Seq<(Seq<u8>, JVal)>,
                                    >::Found(seq![(key, v)] + ms, dd + f));
                                },
                                Parsed::Needs => {
                                    assert(sp_members(s, i, first) is Needs);
                                    assert(sp_members(a + s, dd + i, first) is Needs);
                                },
                                Parsed::Bad => {
                                    assert(sp_members(s, i, first) is Bad);
                                    assert(sp_members(a + s, dd + i, first) is Bad);
                                },
                            }
                        } else if s[x] == '}' as u8 {
                            assert(sp_members(s, i, first) == Parsed::<
                                Seq<(Seq<u8>, JVal)>,
                            >::Found(seq![(key, v)], x + 1));
                            assert(sp_members(a + s, dd + i, first) == Parsed::<
                                Seq<(Seq<u8>, JVal)>,
                            >::Found(seq![(key, v)], dd + x + 1));
                        }
                    }
                }
            }
        }
    }
}

pub proof fn lemma_elems_shift(a: Seq<u8>, s: Seq<u8>, i: int, first: bool)
    requires
        0 <= i,
    ensures
        sp_elems(a + s, a.len() + i, first) == shifted(sp_elems(s, i, first), a.len() as int),
    decreases s.len() - i, 1int,
{
    reveal(sp_value);
    let j = sp_ws(s, i);
    let dd = a.len() as int;
    lemma_ws_bounds(s, i);
    lemma_ws_shift(a, s, i);
    assert(sp_ws(a + s, dd + i) == dd + j);
    assert((a + s).len() == dd + s.len());
    if i <= j < s.len() && !(first && s[j] == ']' as u8) {
        assert((a + s)[dd + j] == s[j]);
        lemma_value_shift(a, s, j);
        lemma_value_bounds(s, j);
        assert(sp_value(a + s, dd + j) == shifted(sp_value(s, j), dd));
        if let Parsed::Found(v, d) = sp_value(s, j) {
            let x = sp_ws(s, d);
            lemma_ws_bounds(s, d);
            lemma_ws_shift(a, s, d);
            assert(sp_ws(a + s, dd + d) == dd + x);
            if x < s.len() {
                assert((a + s)[dd + x] == s[x]);
                if s[x] == ',' as u8 && x + 1 > i {
                    lemma_elems_shift(a, s, x + 1, false);
                    assert(sp_elems(a + s, dd + x + 1, false) == shifted(
                        sp_elems(s, x + 1, false),
                        dd,
                    ));
                }
            }
        }
    }
}


// ---------------------------------------------------------------------------
// Executable parsers. Each mirrors its specification function; object
// walkers do not build a value tree, they keep the fields that the records
// of this crate are read for.

/// First non-whitespace position at or after `i`.
pub fn ws_exec(v: &Vec<u8>, i: usize) -> (r: usize)
    requires
        i <= v@.len(),
    ensures
        r == sp_ws(v@, i as int),
        i <= r <= v@.len(),
{
    let mut j: usize = i;
    while j < v.len() && (v[j] == 0x20 || v[j] == 0x09 || v[j] == 0x0a || v[j] == 0x0d)
        invariant
            i <= j <= v@.len(),
            sp_ws(v@, i as int) == sp_ws(v@, j as int),
        decreases v@.len() - j,
    {
        assert(is_ws(v@[j as int]));
        assert(sp_ws(v@, j as int) == sp_ws(v@, j + 1 as int));
        j = j + 1;
    }
    proof {
        if j < v@.len() {
            assert(!is_ws(v@[j as int]));
        }
        assert(sp_ws(v@, j as int) == j);
    }
    j
}

/// Value of a hexadecimal digit, or -1.
pub fn hex_val_exec(b: u8) -> (r: i32)
    ensures
        r as int == hex_val(b),
{
    if '0' as u8 <= b && b <= '9' as u8 {
        (b - '0' as u8) as i32
    } else if 'a' as u8 <= b && b <= 'f' as u8 {
        (b - 'a' as u8) as i32 + 10
    } else if 'A' as u8 <= b && b <= 'F' as u8 {
        (b - 'A' as u8) as i32 + 10
    } else {
        -1
    }
}

/// Value of the four hexadecimal digits at `i`, or -1.
pub fn hex4_exec(v: &Vec<u8>, i: usize) -> (r: i32)
    requires
        i + 4 <= v@.len(),
    ensures
        r as int == hex4(v@, i as int),
{
    let n = v.len();
    let a = hex_val_exec(v[i]);
    let b = hex_val_exec(v[i + 1]);
    let c = hex_val_exec(v[i + 2]);
    let d = hex_val_exec(v[i + 3]);
    if a >= 0 && b >= 0 && c >= 0 && d >= 0 {
        a * 0x1000 + b * 0x100 + c * 0x10 + d
    } else {
        -1
    }
}

/// Appends the UTF-8 encoding of the code point `c`.
pub fn push_utf8(out: &mut Vec<u8>, c: u32)
    requires
        c < 0x11_0000,
    ensures
        final(out)@ == old(out)@ + utf8_enc(c as int),
{
    if c < 0x80 {
        out.push(c as u8);
    } else if c < 0x800 {
        out.push((0xC0 + c / 0x40) as u8);
        out.push((0x80 + c % 0x40) as u8);
    } else if c < 0x10000 {
        out.push((0xE0 + c / 0x1000) as u8);
        out.push((0x80 + c / 0x40 % 0x40) as u8);
        out.push((0x80 + c % 0x40) as u8);
    } else {
        out.push((0xF0 + c / 0x40000) as u8);
        out.push((0x80 + c / 0x1000 % 0x40) as u8);
        out.push((0x80 + c / 0x40 % 0x40) as u8);
        out.push((0x80 + c % 0x40) as u8);
    }
    assert(final(out)@ =~= old(out)@ + utf8_enc(c as int));
}

/// Whether `c` may follow the lead byte `lead`.
fn first_cont_ok_exec(lead: u8, c: u8) -> (r: bool)
    ensures
        r == first_cont_ok(lead, c),
{
    if lead == 0xE0 {
        0xA0 <= c && c <= 0xBF
    } else if lead == 0xED {
        0x80 <= c && c <= 0x9F
    } else if lead == 0xF0 {
        0x90 <= c && c <= 0xBF
    } else if lead == 0xF4 {
        0x80 <= c && c <= 0x8F
    } else {
        0x80 <= c && c <= 0xBF
    }
}

/// Reads one raw character of string content at `i`.
fn raw_char_exec(v: &Vec<u8>, i: usize) -> (r: Scan<Vec<u8>>)
    requires
        i <= v@.len(),
    ensures
        ({
            let sp = sp_raw_char(v@, i as int);
            &&& (sp matches Parsed::Found(cs, j) ==> r matches Scan::Found(cv, jj) && cv@ == cs
                && jj == j)
            &&& (sp is Needs ==> r is Needs)
            &&& (sp is Bad ==> r is Bad)
        }),
{
    if i >= v.len() {
        return Scan::Needs;
    }
    let b = v[i];
    if b < 0x80 {
        let mut out: Vec<u8> = Vec::new();
        out.push(b);
        assert(out@ =~= seq![b]);
        return Scan::Found(out, i + 1);
    }
    if b < 0xC2 {
        return Scan::Bad;
    }
    if b < 0xE0 {
        if v.len() - i < 2 {
            return Scan::Needs;
        }
        let c1 = v[i + 1];
        if !(0x80 <= c1 && c1 <= 0xBF) {
            return Scan::Bad;
        }
        let mut out: Vec<u8> = Vec::new();
        out.push(b);
        out.push(c1);
        assert(out@ =~= seq![b, c1]);
        return Scan::Found(out, i + 2);
    }
    if b < 0xF0 {
        if v.len() - i < 2 {
            return Scan::Needs;
        }
        let c1 = v[i + 1];
        if !first_cont_ok_exec(b, c1) {
            return Scan::Bad;
        }
        if v.len() - i < 3 {
            return Scan::Needs;
        }
        let c2 = v[i + 2];
        if !(0x80 <= c2 && c2 <= 0xBF) {
            return Scan::Bad;
        }
        let mut out: Vec<u8> = Vec::new();
        out.push(b);
        out.push(c1);
        out.push(c2);
        assert(out@ =~= seq![b, c1, c2]);
        return Scan::Found(out, i + 3);
    }
    if b < 0xF5 {
        if v.len() - i < 2 {
            return Scan::Needs;
        }
        let c1 = v[i + 1];
        if !first_cont_ok_exec(b, c1) {
            return Scan::Bad;
        }
        if v.len() - i < 3 {
            return Scan::Needs;
        }
        let c2 = v[i + 2];
        if !(0x80 <= c2 && c2 <= 0xBF) {
            return Scan::Bad;
        }
        if v.len() - i < 4 {
            return Scan::Needs;
        }
        let c3 = v[i + 3];
        if !(0x80 <= c3 && c3 <= 0xBF) {
            return Scan::Bad;
        }
        let mut out: Vec<u8> = Vec::new();
        out.push(b);
        out.push(c1);
        out.push(c2);
        out.push(c3);
        assert(out@ =~= seq![b, c1, c2, c3]);
        return Scan::Found(out, i + 4);
    }
    Scan::Bad
}

/// Decodes string contents from `i` up to the closing quote.
pub fn str_body_exec(v: &Vec<u8>, i: usize) -> (r: Scan<Vec<u8>>)
    requires
        i <= v@.len(),
    ensures
        ({
            let sp = sp_str_body(v@, i as int);
            &&& (sp matches Parsed::Found(c, j) ==> r matches Scan::Found(cv, jj) && cv@ == c && jj
                == j)
            &&& (sp is Needs ==> r is Needs)
            &&& (sp is Bad ==> r is Bad)
        }),
    decreases v@.len() - i,
{
    proof {
        reveal(sp_str_body);
    }
    if i >= v.len() {
        return Scan::Needs;
    }
    let b0 = v[i];
    if b0 == '"' as u8 {
        return Scan::Found(Vec::new(), i + 1);
    }
    if b0 == '\\' as u8 {
        if v.len() - i < 2 {
            return Scan::Needs;
        }
        let e = v[i + 1];
        let simple: i32 = if e == '"' as u8 || e == '\\' as u8 || e == '/' as u8 {
            e as i32
        } else if e == 'b' as u8 {
            8
        } else if e == 'f' as u8 {
            12
        } else if e == 'n' as u8 {
            10
        } else if e == 'r' as u8 {
            13
        } else if e == 't' as u8 {
            9
        } else {
            -1
        };
        if simple >= 0 {
            match str_body_exec(v, i + 2) {
                Scan::Found(c, j) => {
                    let mut out: Vec<u8> = Vec::new();
                    out.push(simple as u8);
                    let mut tail = c;
                    out.append(&mut tail);
                    return Scan::Found(out, j);
                },
                Scan::Needs => {
                    return Scan::Needs;
                },
                Scan::Bad => {
                    return Scan::Bad;
                },
            }
        }
        if e != 'u' as u8 {
            return Scan::Bad;
        }
        if v.len() - i < 6 {
            return Scan::Needs;
        }
        let h = hex4_exec(v, i + 2);
        if h < 0 {
            return Scan::Bad;
        }
        if 0xD800 <= h && h < 0xDC00 {
            if v.len() - i < 12 {
                return Scan::Needs;
            }
            if v[i + 6] == '\\' as u8 && v[i + 7] == 'u' as u8 {
                let l = hex4_exec(v, i + 8);
                if 0xDC00 <= l && l < 0xE000 {
                    let cp: u32 = 0x10000 + (h as u32 - 0xD800) * 0x400 + (l as u32 - 0xDC00);
                    match str_body_exec(v, i + 12) {
                        Scan::Found(c, j) => {
                            let mut out: Vec<u8> = Vec::new();
                            push_utf8(&mut out, cp);
                            let mut tail = c;
                            out.append(&mut tail);
                            return Scan::Found(out, j);
                        },
                        Scan::Needs => {
                            return Scan::Needs;
                        },
                        Scan::Bad => {
                            return Scan::Bad;
                        },
                    }
                } else {
                    return Scan::Bad;
                }
            } else {
                return Scan::Bad;
            }
        }
        if 0xDC00 <= h && h < 0xE000 {
            return Scan::Bad;
        }
        let cp: u32 = h as u32;
        match str_body_exec(v, i + 6) {
            Scan::Found(c, j) => {
                let mut out: Vec<u8> = Vec::new();
                push_utf8(&mut out, cp);
                let mut tail = c;
                out.append(&mut tail);
                Scan::Found(out, j)
            },
            Scan::Needs => Scan::Needs,
            Scan::Bad => Scan::Bad,
        }
    } else if b0 < 0x20 {
        Scan::Bad
    } else {
        match raw_char_exec(v, i) {
            Scan::Found(cs, j) => {
                proof {
                    lemma_raw_char_bounds(v@, i as int);
                }
                match str_body_exec(v, j) {
                    Scan::Found(c, k) => {
                        let mut out = cs;
                        let mut tail = c;
                        out.append(&mut tail);
                        Scan::Found(out, k)
                    },
                    Scan::Needs => Scan::Needs,
                    Scan::Bad => Scan::Bad,
                }
            },
            Scan::Needs => Scan::Needs,
            Scan::Bad => Scan::Bad,
        }
    }
}

/// Parses a quoted string at `i`.
pub fn string_exec(v: &Vec<u8>, i: usize) -> (r: Scan<Vec<u8>>)
    requires
        i <= v@.len(),
    ensures
        ({
            let sp = sp_string(v@, i as int);
            &&& (sp matches Parsed::Found(c, j) ==> r matches Scan::Found(cv, jj) && cv@ == c && jj
                == j)
            &&& (sp is Needs ==> r is Needs)
            &&& (sp is Bad ==> r is Bad)
        }),
{
    proof {
        reveal(sp_str_body);
    }
    if i >= v.len() {
        Scan::Needs
    } else if v[i] != '"' as u8 {
        Scan::Bad
    } else {
        str_body_exec(v, i + 1)
    }
}

/// Consumes a run of digits without keeping a value.
pub fn skip_digits_exec(v: &Vec<u8>, i: usize) -> (r: Scan<()>)
    requires
        i <= v@.len(),
    ensures
        ({
            let sp = sp_skip_digits(v@, i as int);
            &&& (sp matches Parsed::Found(u, j) ==> r matches Scan::Found(uu, jj) && jj == j)
            &&& (sp is Needs ==> r is Needs)
            &&& (sp is Bad ==> r is Bad)
        }),
    decreases v@.len() - i,
{
    if i >= v.len() {
        return Scan::Needs;
    }
    if '0' as u8 <= v[i] && v[i] <= '9' as u8 {
        skip_digits_exec(v, i + 1)
    } else {
        Scan::Found((), i)
    }
}

/// Consumes an exponent after its `e`.
pub fn exp_exec(v: &Vec<u8>, i: usize) -> (r: Scan<()>)
    requires
        i <= v@.len(),
    ensures
        ({
            let sp = sp_exp(v@, i as int);
            &&& (sp matches Parsed::Found(u, j) ==> r matches Scan::Found(uu, jj) && jj == j)
            &&& (sp is Needs ==> r is Needs)
            &&& (sp is Bad ==> r is Bad)
        }),
{
    if i >= v.len() {
        return Scan::Needs;
    }
    let i2: usize = if v[i] == '+' as u8 || v[i] == '-' as u8 {
        i + 1
    } else {
        i
    };
    if i2 >= v.len() {
        Scan::Needs
    } else if !('0' as u8 <= v[i2] && v[i2] <= '9' as u8) {
        Scan::Bad
    } else {
        skip_digits_exec(v, i2)
    }
}

/// Consumes digits, extending `acc`; a value reaching the cap is dropped.
pub fn digits_exec(v: &Vec<u8>, i: usize, acc: i64) -> (r: Scan<Option<i64>>)
    requires
        i <= v@.len(),
        0 <= acc < 10 * int_cap(),
    ensures
        ({
            let sp = sp_digits(v@, i as int, acc as int);
            &&& (sp matches Parsed::Found(on, j) ==> r matches Scan::Found(onv, jj) && (match on {
                Option::Some(n) => onv matches Some(nv) && nv == n,
                Option::None => onv is None,
            }) && jj == j)
            &&& (sp is Needs ==> r is Needs)
            &&& (sp is Bad ==> r is Bad)
        }),
    decreases v@.len() - i,
{
    if i >= v.len() {
        return Scan::Needs;
    }
    let b = v[i];
    if '0' as u8 <= b && b <= '9' as u8 {
        if acc >= 0x16345785D8A0000i64 {
            match skip_digits_exec(v, i) {
                Scan::Found(u, j) => Scan::Found(Option::None, j),
                Scan::Needs => Scan::Needs,
                Scan::Bad => Scan::Bad,
            }
        } else {
            digits_exec(v, i + 1, acc * 10 + ((b - '0' as u8) as i64))
        }
    } else {
        Scan::Found(Option::Some(acc), i)
    }
}

/// Parses a JSON number at `i`.
pub fn number_exec(v: &Vec<u8>, i: usize) -> (r: Scan<Option<i64>>)
    requires
        i <= v@.len(),
    ensures
        ({
            let sp = sp_number(v@, i as int);
            &&& (sp matches Parsed::Found(on, j) ==> r matches Scan::Found(onv, jj) && (match on {
                Option::Some(n) => onv matches Some(nv) && nv == n,
                Option::None => onv is None,
            }) && jj == j)
            &&& (sp is Needs ==> r is Needs)
            &&& (sp is Bad ==> r is Bad)
        }),
{
    if i >= v.len() {
        return Scan::Needs;
    }
    let neg = v[i] == '-' as u8;
    let i0: usize = if neg {
        i + 1
    } else {
        i
    };
    if i0 >= v.len() {
        return Scan::Needs;
    }
    if !('0' as u8 <= v[i0] && v[i0] <= '9' as u8) {
        return Scan::Bad;
    }
    proof {
        lemma_digits_bounds(v@, i0 as int, 0);
    }
    match digits_exec(v, i0, 0) {
        Scan::Found(on, j) => {
            if j < v.len() && v[j] == '.' as u8 {
                if j + 1 >= v.len() {
                    return Scan::Needs;
                }
                if !('0' as u8 <= v[j + 1] && v[j + 1] <= '9' as u8) {
                    return Scan::Bad;
                }
                proof {
                    lemma_skip_digits_bounds(v@, j + 1 as int);
                }
                match skip_digits_exec(v, j + 1) {
                    Scan::Found(u, k) => {
                        if k < v.len() && (v[k] == 'e' as u8 || v[k] == 'E' as u8) {
                            match exp_exec(v, k + 1) {
                                Scan::Found(u2, m) => Scan::Found(Option::None, m),
                                Scan::Needs => Scan::Needs,
                                Scan::Bad => Scan::Bad,
                            }
                        } else {
                            Scan::Found(Option::None, k)
                        }
                    },
                    Scan::Needs => Scan::Needs,
                    Scan::Bad => Scan::Bad,
                }
            } else if j < v.len() && (v[j] == 'e' as u8 || v[j] == 'E' as u8) {
                match exp_exec(v, j + 1) {
                    Scan::Found(u, m) => Scan::Found(Option::None, m),
                    Scan::Needs => Scan::Needs,
                    Scan::Bad => Scan::Bad,
                }
            } else {
                match on {
                    Option::Some(n) => Scan::Found(
                        Option::Some(
                            if neg {
                                -n
                            } else {
                                n
                            },
                        ),
                        j,
                    ),
                    Option::None => Scan::Found(Option::None, j),
                }
            }
        },
        Scan::Needs => Scan::Needs,
        Scan::Bad => Scan::Bad,
    }
}

/// Matches the bytes of `w` (from `k`) against `v` at `i`.
pub fn lit_exec(v: &Vec<u8>, i: usize, w: &Vec<u8>, k: usize) -> (r: Scan<()>)
    requires
        i <= v@.len(),
        k <= w@.len(),
    ensures
        ({
            let sp = sp_lit(v@, i as int, w@, k as int);
            &&& (sp matches Parsed::Found(u, j) ==> r matches Scan::Found(uu, jj) && jj == j)
            &&& (sp is Needs ==> r is Needs)
            &&& (sp is Bad ==> r is Bad)
        }),
    decreases w@.len() - k,
{
    if k >= w.len() {
        Scan::Found((), i)
    } else if i >= v.len() {
        Scan::Needs
    } else if v[i] == w[k] {
        lit_exec(v, i + 1, w, k + 1)
    } else {
        Scan::Bad
    }
}

pub fn word_true_vec() -> (r: Vec<u8>)
    ensures
        r@ == word_true(),
{
    let mut v: Vec<u8> = Vec::new();
    v.push('t' as u8);
    v.push('r' as u8);
    v.push('u' as u8);
    v.push('e' as u8);
    assert(v@ =~= word_true());
    v
}

pub fn word_false_vec() -> (r: Vec<u8>)
    ensures
        r@ == word_false(),
{
    let mut v: Vec<u8> = Vec::new();
    v.push('f' as u8);
    v.push('a' as u8);
    v.push('l' as u8);
    v.push('s' as u8);
    v.push('e' as u8);
    assert(v@ =~= word_false());
    v
}

pub fn word_null_vec() -> (r: Vec<u8>)
    ensures
        r@ == word_null(),
{
    let mut v: Vec<u8> = Vec::new();
    v.push('n' as u8);
    v.push('u' as u8);
    v.push('l' as u8);
    v.push('l' as u8);
    assert(v@ =~= word_null());
    v
}

// ---------------------------------------------------------------------------
// Walkers. The records this crate reads are flat objects; walking one needs
// no value tree, only the first value bound to each interesting key.

/// What a walker keeps of one JSON value: string and integer values whole,
/// an object reduced to the fields of the engine's error detail, anything
/// else only acknowledged.
pub enum ValCap {
    VStr(Vec<u8>),
    VInt(i64),
    VObj(ObjCap),
    VOther,
}

/// What a walker keeps of an object value: the first values bound to
/// `code` and `message` (the fields of the engine's error-detail object).
/// `Some(None)` records a key present with a value of another type.
pub struct ObjCap {
    pub code: Option<Option<i64>>,
    pub message: Option<Option<Vec<u8>>>,
}

pub open spec fn key_code() -> Seq<u8> {
    seq!['c' as u8, 'o' as u8, 'd' as u8, 'e' as u8]
}

pub open spec fn key_message() -> Seq<u8> {
    seq!['m' as u8, 'e' as u8, 's' as u8, 's' as u8, 'a' as u8, 'g' as u8, 'e' as u8]
}

pub fn key_code_vec() -> (r: Vec<u8>)
    ensures
        r@ == key_code(),
{
    let mut v: Vec<u8> = Vec::new();
    v.push('c' as u8);
    v.push('o' as u8);
    v.push('d' as u8);
    v.push('e' as u8);
    assert(v@ =~= key_code());
    v
}

pub fn key_message_vec() -> (r: Vec<u8>)
    ensures
        r@ == key_message(),
{
    let mut v: Vec<u8> = Vec::new();
    v.push('m' as u8);
    v.push('e' as u8);
    v.push('s' as u8);
    v.push('s' as u8);
    v.push('a' as u8);
    v.push('g' as u8);
    v.push('e' as u8);
    assert(v@ =~= key_message());
    v
}

/// How `Option<Option<i64>>` stands for the first `code`-like binding.
pub open spec fn rel_int(ov: Option<JVal>, c: Option<Option<i64>>) -> bool {
    match ov {
        Option::None => c is None,
        Option::Some(v) => match v {
            JVal::Int(n) => c == Option::Some(Option::Some(n)),
            _ => c == Option::Some(Option::None::<i64>),
        },
    }
}

/// How `Option<Option<Vec<u8>>>` stands for the first string binding.
pub open spec fn rel_str(ov: Option<JVal>, c: Option<Option<Vec<u8>>>) -> bool {
    match ov {
        Option::None => c is None,
        Option::Some(v) => match v {
            JVal::Str(b) => c matches Option::Some(Option::Some(x)) && x@ == b,
            _ => c matches Option::Some(y) && y is None,
        },
    }
}

/// `oc` keeps the error-detail fields of the members `ms`.
pub open spec fn obj_rel(ms: Seq<(Seq<u8>, JVal)>, oc: ObjCap) -> bool {
    rel_int(first_val(ms, key_code()), oc.code) && rel_str(first_val(ms, key_message()), oc.message)
}

/// `c` keeps the value `v`.
pub open spec fn vcap_rel(v: JVal, c: ValCap) -> bool {
    match v {
        JVal::Str(b) => c matches ValCap::VStr(x) && x@ == b,
        JVal::Int(n) => c == ValCap::VInt(n),
        JVal::Obj(ms) => c matches ValCap::VObj(oc) && obj_rel(ms, oc),
        _ => c is VOther,
    }
}

/// `c` keeps the first value bound to some key, when there is one.
pub open spec fn cap_rel(ov: Option<JVal>, c: Option<ValCap>) -> bool {
    match ov {
        Option::None => c is None,
        Option::Some(v) => c matches Option::Some(cap) && vcap_rel(v, cap),
    }
}

/// What `walk_members` kept: the first value bound to each of its three
/// keys.
pub struct MemberCaps {
    pub c1: Option<ValCap>,
    pub c2: Option<ValCap>,
    pub c3: Option<ValCap>,
}

pub open spec fn caps_rel(ms: Seq<(Seq<u8>, JVal)>, k1: Seq<u8>, k2: Seq<u8>, k3: Seq<u8>, caps: MemberCaps) -> bool {
    &&& cap_rel(first_val(ms, k1), caps.c1)
    &&& cap_rel(first_val(ms, k2), caps.c2)
    &&& cap_rel(first_val(ms, k3), caps.c3)
}

/// Walks one JSON value, keeping what `ValCap` keeps.
pub fn rec_value(v: &Vec<u8>, i: usize) -> (r: Scan<ValCap>)
    requires
        i <= v@.len(),
    ensures
        ({
            let sp = sp_value(v@, i as int);
            &&& (sp matches Parsed::Found(val, j) ==> r matches Scan::Found(c, jj) && jj == j
                && vcap_rel(val, c))
            &&& (sp is Needs ==> r is Needs)
            &&& (sp is Bad ==> r is Bad)
        }),
    decreases v@.len() - i, 0int,
{
    proof {
        reveal(sp_value);
    }
    let j = ws_exec(v, i);
    if j >= v.len() {
        return Scan::Needs;
    }
    let b = v[j];
    if b == '"' as u8 {
        match string_exec(v, j) {
            Scan::Found(c, jj) => Scan::Found(ValCap::VStr(c), jj),
            Scan::Needs => Scan::Needs,
            Scan::Bad => Scan::Bad,
        }
    } else if b == '{' as u8 {
        let kc = key_code_vec();
        let km = key_message_vec();
        let kd = dummy_key_vec(3);
        match walk_members(v, j + 1, true, &kc, &km, &kd) {
            Scan::Found(caps, jj) => {
                let oc = ObjCap {
                    code: match caps.c1 {
                        Option::Some(ValCap::VInt(n)) => Option::Some(Option::Some(n)),
                        Option::Some(_) => Option::Some(Option::None),
                        Option::None => Option::None,
                    },
                    message: match caps.c2 {
                        Option::Some(ValCap::VStr(x)) => Option::Some(Option::Some(x)),
                        Option::Some(_) => Option::Some(Option::None),
                        Option::None => Option::None,
                    },
                };
                Scan::Found(ValCap::VObj(oc), jj)
            },
            Scan::Needs => Scan::Needs,
            Scan::Bad => Scan::Bad,
        }
    } else if b == '[' as u8 {
        match rec_elems(v, j + 1, true) {
            Scan::Found(u, jj) => Scan::Found(ValCap::VOther, jj),
            Scan::Needs => Scan::Needs,
            Scan::Bad => Scan::Bad,
        }
    } else if b == 't' as u8 {
        let w = word_true_vec();
        match lit_exec(v, j, &w, 0) {
            Scan::Found(u, jj) => Scan::Found(ValCap::VOther, jj),
            Scan::Needs => Scan::Needs,
            Scan::Bad => Scan::Bad,
        }
    } else if b == 'f' as u8 {
        let w = word_false_vec();
        match lit_exec(v, j, &w, 0) {
            Scan::Found(u, jj) => Scan::Found(ValCap::VOther, jj),
            Scan::Needs => Scan::Needs,
            Scan::Bad => Scan::Bad,
        }
    } else if b == 'n' as u8 {
        let w = word_null_vec();
        match lit_exec(v, j, &w, 0) {
            Scan::Found(u, jj) => Scan::Found(ValCap::VOther, jj),
            Scan::Needs => Scan::Needs,
            Scan::Bad => Scan::Bad,
        }
    } else if b == '-' as u8 || ('0' as u8 <= b && b <= '9' as u8) {
        match number_exec(v, j) {
            Scan::Found(on, jj) => match on {
                Option::Some(n) => Scan::Found(ValCap::VInt(n), jj),
                Option::None => Scan::Found(ValCap::VOther, jj),
            },
            Scan::Needs => Scan::Needs,
            Scan::Bad => Scan::Bad,
        }
    } else {
        Scan::Bad
    }
}

/// A key no record is expected to use, to fill an unused slot of
/// `walk_members`; `tag` keeps two slots distinct.
pub fn dummy_key_vec(tag: u8) -> (r: Vec<u8>)
    ensures
        r@ == seq![tag],
{
    let mut v: Vec<u8> = Vec::new();
    v.push(tag);
    assert(v@ =~= seq![tag]);
    v
}

/// Walks the elements of an array.
pub fn rec_elems(v: &Vec<u8>, i: usize, first: bool) -> (r: Scan<()>)
    requires
        i <= v@.len(),
    ensures
        ({
            let sp = sp_elems(v@, i as int, first);
            &&& (sp matches Parsed::Found(vs, j) ==> r matches Scan::Found(u, jj) && jj == j)
            &&& (sp is Needs ==> r is Needs)
            &&& (sp is Bad ==> r is Bad)
        }),
    decreases v@.len() - i, 1int,
{
    proof {
        reveal(sp_value);
    }
    let j = ws_exec(v, i);
    if j >= v.len() {
        return Scan::Needs;
    }
    if first && v[j] == ']' as u8 {
        return Scan::Found((), j + 1);
    }
    match rec_value(v, j) {
        Scan::Found(c, d) => {
            proof {
                lemma_value_bounds(v@, j as int);
            }
            let e = ws_exec(v, d);
            if e >= v.len() {
                Scan::Needs
            } else if v[e] == ',' as u8 {
                match rec_elems(v, e + 1, false) {
                    Scan::Found(u, f) => Scan::Found((), f),
                    Scan::Needs => Scan::Needs,
                    Scan::Bad => Scan::Bad,
                }
            } else if v[e] == ']' as u8 {
                Scan::Found((), e + 1)
            } else {
                Scan::Bad
            }
        },
        Scan::Needs => Scan::Needs,
        Scan::Bad => Scan::Bad,
    }
}

/// Walks the members of an object, keeping the first value bound to each
/// of `k1`, `k2` and `k3` (which must be pairwise different).
pub fn walk_members(v: &Vec<u8>, i: usize, first: bool, k1: &Vec<u8>, k2: &Vec<u8>, k3: &Vec<u8>) -> (r: Scan<
    MemberCaps,
>)
    requires
        i <= v@.len(),
        k1@ != k2@,
        k1@ != k3@,
        k2@ != k3@,
    ensures
        ({
            let sp = sp_members(v@, i as int, first);
            &&& (sp matches Parsed::Found(ms, j) ==> r matches Scan::Found(caps, jj) && jj == j
                && caps_rel(ms, k1@, k2@, k3@, caps))
            &&& (sp is Needs ==> r is Needs)
            &&& (sp is Bad ==> r is Bad)
        }),
    decreases v@.len() - i, 1int,
{
    proof {
        reveal(sp_value);
    }
    let j = ws_exec(v, i);
    if j >= v.len() {
        return Scan::Needs;
    }
    if first && v[j] == '}' as u8 {
        return Scan::Found(MemberCaps { c1: Option::None, c2: Option::None, c3: Option::None }, j + 1);
    }
    if v[j] != '"' as u8 {
        return Scan::Bad;
    }
    match string_exec(v, j) {
        Scan::Found(key, a) => {
            proof {
                lemma_string_bounds(v@, j as int);
            }
            let b = ws_exec(v, a);
            if b >= v.len() {
                return Scan::Needs;
            }
            if v[b] != ':' as u8 {
                return Scan::Bad;
            }
            match rec_value(v, b + 1) {
                Scan::Found(c, d) => {
                    proof {
                        lemma_value_bounds(v@, b + 1 as int);
                    }
                    let e = ws_exec(v, d);
                    if e >= v.len() {
                        return Scan::Needs;
                    }
                    if v[e] == ',' as u8 {
                        match walk_members(v, e + 1, false, k1, k2, k3) {
                            Scan::Found(tail, f) => {
                                let caps = put_cap(&key, c, tail, k1, k2, k3);
                                proof {
                                    let vsp = sp_value_of(v@, b + 1 as int);
                                    if let Parsed::Found(msrest, f2) = sp_members(
                                        v@,
                                        e + 1 as int,
                                        false,
                                    ) {
                                        lemma_first_val_cons(key@, vsp, msrest, k1@);
                                        lemma_first_val_cons(key@, vsp, msrest, k2@);
                                        lemma_first_val_cons(key@, vsp, msrest, k3@);
                                    }
                                }
                                Scan::Found(caps, f)
                            },
                            Scan::Needs => Scan::Needs,
                            Scan::Bad => Scan::Bad,
                        }
                    } else if v[e] == '}' as u8 {
                        let none_caps = MemberCaps {
                            c1: Option::None,
                            c2: Option::None,
                            c3: Option::None,
                        };
                        let caps = put_cap(&key, c, none_caps, k1, k2, k3);
                        proof {
                            let vsp = sp_value_of(v@, b + 1 as int);
                            assert(seq![(key@, vsp)] + Seq::<(Seq<u8>, JVal)>::empty() =~= seq![
                                (key@, vsp),
                            ]);
                            lemma_first_val_cons(key@, vsp, Seq::empty(), k1@);
                            lemma_first_val_cons(key@, vsp, Seq::empty(), k2@);
                            lemma_first_val_cons(key@, vsp, Seq::empty(), k3@);
                        }
                        Scan::Found(caps, e + 1)
                    } else {
                        Scan::Bad
                    }
                },
                Scan::Needs => Scan::Needs,
                Scan::Bad => Scan::Bad,
            }
        },
        Scan::Needs => Scan::Needs,
        Scan::Bad => Scan::Bad,
    }
}

/// The value a successful `sp_value` parse found at `i`.
pub open spec fn sp_value_of(s: Seq<u8>, i: int) -> JVal {
    match sp_value(s, i) {
        Parsed::Found(v, j) => v,
        _ => JVal::Null,
    }
}

/// Unfolding `first_val` over a members sequence with one more member in
/// front.
pub proof fn lemma_first_val_cons(key: Seq<u8>, v: JVal, rest: Seq<(Seq<u8>, JVal)>, k: Seq<u8>)
    ensures
        first_val(seq![(key, v)] + rest, k) == (if key == k {
            Option::Some(v)
        } else {
            first_val(rest, k)
        }),
{
    let ms = seq![(key, v)] + rest;
    assert(ms[0] == (key, v));
    assert(ms.drop_first() =~= rest);
}

/// Helper for `walk_members`: folds one leading member into the captures
/// of the remaining members.
fn put_cap(key: &Vec<u8>, c: ValCap, tail: MemberCaps, k1: &Vec<u8>, k2: &Vec<u8>, k3: &Vec<u8>) -> (r: MemberCaps)
    requires
        k1@ != k2@,
        k1@ != k3@,
        k2@ != k3@,
    ensures
        key@ == k1@ ==> r == (MemberCaps { c1: Option::Some(c), c2: tail.c2, c3: tail.c3 }),
        key@ == k2@ ==> r == (MemberCaps { c1: tail.c1, c2: Option::Some(c), c3: tail.c3 }),
        key@ == k3@ ==> r == (MemberCaps { c1: tail.c1, c2: tail.c2, c3: Option::Some(c) }),
        (key@ != k1@ && key@ != k2@ && key@ != k3@) ==> r == tail,
{
    if bytes_eq(key.as_slice(), k1.as_slice()) {
        MemberCaps { c1: Option::Some(c), c2: tail.c2, c3: tail.c3 }
    } else if bytes_eq(key.as_slice(), k2.as_slice()) {
        MemberCaps { c1: tail.c1, c2: Option::Some(c), c3: tail.c3 }
    } else if bytes_eq(key.as_slice(), k3.as_slice()) {
        MemberCaps { c1: tail.c1, c2: tail.c2, c3: Option::Some(c) }
    } else {
        tail
    }
}

/// The members of `s` when the whole of it is one JSON object (with at
/// most whitespace around it).
pub open spec fn doc_members(s: Seq<u8>) -> Option<Seq<(Seq<u8>, JVal)>> {
    let j = sp_ws(s, 0);
    if j < s.len() && s[j] == '{' as u8 {
        match sp_members(s, j + 1, true) {
            Parsed::Found(ms, k) => if sp_ws(s, k) == s.len() {
                Option::Some(ms)
            } else {
                Option::None
            },
            _ => Option::None,
        }
    } else {
        Option::None
    }
}

} // verus!
