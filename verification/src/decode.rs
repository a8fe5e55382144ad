//! The decoder: a recursive-descent parser from characters to a [`Value`]
//! tree, specified by spec-level parsing functions that fix the result — the
//! value produced, the offset reached, and the exact error — for every input.

use vstd::prelude::*;
use crate::encode::chars_to_string;
use crate::errors::ParseError;
use crate::value::arr_model;
use crate::value::obj_model;
use crate::value::JVal;
use crate::value::Value;

verus! {

/// JSON whitespace: space, tab, line feed, carriage return.
pub open spec fn is_ws(c: char) -> bool {
    c == ' ' || c == '\t' || c == '\n' || c == '\r'
}

/// An ASCII decimal digit.
pub open spec fn is_digit(c: char) -> bool {
    48 <= c as u32 && c as u32 <= 57
}

/// The first offset at or after `i` holding a non-whitespace character, or
/// the end of the input.
pub open spec fn spec_skip_ws(s: Seq<char>, i: int) -> int
    decreases s.len() - i,
{
    if 0 <= i && i < s.len() && is_ws(s[i]) {
        spec_skip_ws(s, i + 1)
    } else {
        i
    }
}

/// The first offset at or after `i` holding a non-digit character, or the
/// end of the input.
pub open spec fn spec_skip_digits(s: Seq<char>, i: int) -> int
    decreases s.len() - i,
{
    if 0 <= i && i < s.len() && is_digit(s[i]) {
        spec_skip_digits(s, i + 1)
    } else {
        i
    }
}

/// Scans the integer part of a number at `i`: an optional minus sign, then
/// either a single `0` or a nonzero digit followed by digits. Yields the
/// offset just past it.
pub open spec fn scan_int(s: Seq<char>, i: int) -> Result<int, ParseError> {
    let j = if 0 <= i && i < s.len() && s[i] == '-' {
        i + 1
    } else {
        i
    };
    if !(0 <= j && j < s.len() && is_digit(s[j])) {
        Err(ParseError::InvalidNumber(j as usize))
    } else if s[j] == '0' {
        if j + 1 < s.len() && is_digit(s[j + 1]) {
            Err(ParseError::InvalidNumber((j + 1) as usize))
        } else {
            Ok(j + 1)
        }
    } else {
        Ok(spec_skip_digits(s, j))
    }
}

/// Scans an optional fraction part at `p`: a `.` followed by one or more
/// digits. Yields the offset just past it (or `p` when there is none).
pub open spec fn scan_frac(s: Seq<char>, p: int) -> Result<int, ParseError> {
    if 0 <= p && p < s.len() && s[p] == '.' {
        if p + 1 < s.len() && is_digit(s[p + 1]) {
            Ok(spec_skip_digits(s, p + 1))
        } else {
            Err(ParseError::InvalidNumber((p + 1) as usize))
        }
    } else {
        Ok(p)
    }
}

/// Scans an optional exponent part at `q`: `e` or `E`, an optional sign, and
/// one or more digits. Yields the offset just past it (or `q` when there is
/// none).
pub open spec fn scan_exp(s: Seq<char>, q: int) -> Result<int, ParseError> {
    if 0 <= q && q < s.len() && (s[q] == 'e' || s[q] == 'E') {
        let r = if q + 1 < s.len() && (s[q + 1] == '+' || s[q + 1] == '-') {
            q + 2
        } else {
            q + 1
        };
        if r < s.len() && is_digit(s[r]) {
            Ok(spec_skip_digits(s, r))
        } else {
            Err(ParseError::InvalidNumber(r as usize))
        }
    } else {
        Ok(q)
    }
}

/// Scans a complete number token at `i` and yields the offset just past it,
/// or the malformation error.
pub open spec fn scan_number(s: Seq<char>, i: int) -> Result<int, ParseError> {
    match scan_int(s, i) {
        Err(e) => Err(e),
        Ok(p) => match scan_frac(s, p) {
            Err(e) => Err(e),
            Ok(q) => scan_exp(s, q),
        },
    }
}

/// Whether `t` is exactly one number token of the JSON grammar.
pub open spec fn is_number_token(t: Seq<char>) -> bool {
    scan_number(t, 0) == Ok::<int, ParseError>(t.len() as int)
}


/// The value of a hexadecimal digit, or 16 for any other character.
pub open spec fn hex_val(c: char) -> u32 {
    let u = c as u32;
    if 48 <= u && u <= 57 {
        (u - 48) as u32
    } else if 97 <= u && u <= 102 {
        (u - 87) as u32
    } else if 65 <= u && u <= 70 {
        (u - 55) as u32
    } else {
        16
    }
}

/// Whether four hexadecimal digits stand at `i`.
pub open spec fn has_hex4(s: Seq<char>, i: int) -> bool {
    &&& 0 <= i
    &&& i + 4 <= s.len()
    &&& hex_val(s[i]) < 16
    &&& hex_val(s[i + 1]) < 16
    &&& hex_val(s[i + 2]) < 16
    &&& hex_val(s[i + 3]) < 16
}

/// The value of the four hexadecimal digits at `i`.
pub open spec fn hex4(s: Seq<char>, i: int) -> int {
    hex_val(s[i]) * 4096 + hex_val(s[i + 1]) * 256 + hex_val(s[i + 2]) * 16 + hex_val(s[i + 3])
}

/// Parses the body of a string from `i` (just after the opening quote) to
/// the closing quote, unescaping as it goes; `acc` holds the characters read
/// so far. Yields the content and the offset just past the closing quote.
pub open spec fn parse_str_chars(s: Seq<char>, i: int, acc: Seq<char>) -> Result<
    (Seq<char>, int),
    ParseError,
>
    decreases s.len() - i,
{
    if i < 0 || i >= s.len() {
        Err(ParseError::UnterminatedString(i as usize))
    } else if s[i] == '"' {
        Ok((acc, i + 1))
    } else if s[i] == '\\' {
        if i + 1 >= s.len() {
            Err(ParseError::UnterminatedString((i + 1) as usize))
        } else {
            let e = s[i + 1];
            if e == '"' {
                parse_str_chars(s, i + 2, acc.push('"'))
            } else if e == '\\' {
                parse_str_chars(s, i + 2, acc.push('\\'))
            } else if e == '/' {
                parse_str_chars(s, i + 2, acc.push('/'))
            } else if e == 'b' {
                parse_str_chars(s, i + 2, acc.push('\u{0008}'))
            } else if e == 'f' {
                parse_str_chars(s, i + 2, acc.push('\u{000c}'))
            } else if e == 'n' {
                parse_str_chars(s, i + 2, acc.push('\n'))
            } else if e == 'r' {
                parse_str_chars(s, i + 2, acc.push('\r'))
            } else if e == 't' {
                parse_str_chars(s, i + 2, acc.push('\t'))
            } else if e == 'u' {
                if !has_hex4(s, i + 2) {
                    Err(ParseError::InvalidEscape(i as usize))
                } else {
                    let u = hex4(s, i + 2);
                    if 0xD800 <= u < 0xDC00 {
                        if i + 12 <= s.len() && s[i + 6] == '\\' && s[i + 7] == 'u' && has_hex4(
                            s,
                            i + 8,
                        ) && 0xDC00 <= hex4(s, i + 8) < 0xE000 {
                            let cp = 0x10000 + (u - 0xD800) * 0x400 + (hex4(s, i + 8) - 0xDC00);
                            parse_str_chars(s, i + 12, acc.push((cp as u32) as char))
                        } else {
                            Err(ParseError::InvalidEscape(i as usize))
                        }
                    } else if 0xDC00 <= u < 0xE000 {
                        Err(ParseError::InvalidEscape(i as usize))
                    } else {
                        parse_str_chars(s, i + 6, acc.push((u as u32) as char))
                    }
                }
            } else {
                Err(ParseError::InvalidEscape(i as usize))
            }
        }
    } else {
        parse_str_chars(s, i + 1, acc.push(s[i]))
    }
}

/// Parses the literal `lit` at `i`, yielding `v`.
pub open spec fn parse_lit(s: Seq<char>, i: int, lit: Seq<char>, v: JVal) -> Result<
    (JVal, int),
    ParseError,
> {
    if 0 <= i && i + lit.len() <= s.len() && s.subrange(i, i + lit.len() as int) == lit {
        Ok((v, i + lit.len()))
    } else {
        Err(ParseError::UnexpectedCharacter(i as usize))
    }
}

/// Whether the keys of `ms` are pairwise distinct.
pub open spec fn unique_keys(ms: Seq<(Seq<char>, JVal)>) -> bool {
    forall|k1: int, k2: int| 0 <= k1 < k2 < ms.len() ==> ms[k1].0 != ms[k2].0
}

/// Inserts `key` with `v` into `ms`: an existing entry with that key is
/// overwritten in place (last write wins, position kept), otherwise the entry
/// is appended.
pub open spec fn upsert(ms: Seq<(Seq<char>, JVal)>, key: Seq<char>, v: JVal) -> Seq<
    (Seq<char>, JVal),
> {
    if exists|k: int| 0 <= k < ms.len() && ms[k].0 == key {
        let k0 = choose|k: int| 0 <= k < ms.len() && ms[k].0 == key;
        ms.update(k0, (key, v))
    } else {
        ms.push((key, v))
    }
}

/// Parses one value at `i` (whitespace already skipped), with `depth` the
/// remaining nesting budget. Yields the value and the offset just past it.
pub open spec fn spec_parse_value(s: Seq<char>, i: int, depth: int) -> Result<
    (JVal, int),
    ParseError,
>
    decreases s.len() - i, 0int,
{
    if i < 0 {
        Err(ParseError::UnexpectedCharacter(0))
    } else if i >= s.len() {
        Err(ParseError::UnexpectedEndOfInput(i as usize))
    } else {
        let c = s[i];
        if c == 'n' {
            parse_lit(s, i, seq!['n', 'u', 'l', 'l'], JVal::Null)
        } else if c == 't' {
            parse_lit(s, i, seq!['t', 'r', 'u', 'e'], JVal::Bool(true))
        } else if c == 'f' {
            parse_lit(s, i, seq!['f', 'a', 'l', 's', 'e'], JVal::Bool(false))
        } else if c == '"' {
            match parse_str_chars(s, i + 1, Seq::empty()) {
                Ok((cs, j)) => Ok((JVal::Str(cs), j)),
                Err(e) => Err(e),
            }
        } else if c == '-' || is_digit(c) {
            match scan_number(s, i) {
                Ok(j) => Ok((JVal::Num(s.subrange(i, j)), j)),
                Err(e) => Err(e),
            }
        } else if c == '[' {
            if depth <= 0 {
                Err(ParseError::MaxDepthExceeded(i as usize))
            } else {
                let j = spec_skip_ws(s, i + 1);
                if j >= s.len() {
                    Err(ParseError::UnexpectedEndOfInput(j as usize))
                } else if s[j] == ']' {
                    Ok((JVal::Arr(Seq::empty()), j + 1))
                } else if j < i + 1 {
                    Err(ParseError::UnexpectedCharacter(j as usize))
                } else {
                    spec_parse_items(s, j, depth - 1, Seq::empty())
                }
            }
        } else if c == '{' {
            if depth <= 0 {
                Err(ParseError::MaxDepthExceeded(i as usize))
            } else {
                let j = spec_skip_ws(s, i + 1);
                if j >= s.len() {
                    Err(ParseError::UnexpectedEndOfInput(j as usize))
                } else if s[j] == '}' {
                    Ok((JVal::Obj(Seq::empty()), j + 1))
                } else if j < i + 1 {
                    Err(ParseError::UnexpectedCharacter(j as usize))
                } else {
                    spec_parse_members(s, j, depth - 1, Seq::empty())
                }
            }
        } else {
            Err(ParseError::UnexpectedCharacter(i as usize))
        }
    }
}

/// Parses the items of an array from the start of an item at `i` to the
/// closing bracket; `acc` holds the items already parsed.
pub open spec fn spec_parse_items(s: Seq<char>, i: int, depth: int, acc: Seq<JVal>) -> Result<
    (JVal, int),
    ParseError,
>
    decreases s.len() - i, 1int,
{
    if i < 0 || i >= s.len() {
        Err(ParseError::UnexpectedEndOfInput(if i < 0 {
            0
        } else {
            i as usize
        }))
    } else {
        match spec_parse_value(s, i, depth) {
            Err(e) => Err(e),
            Ok((v, j)) => {
                let k = spec_skip_ws(s, j);
                if k >= s.len() {
                    Err(ParseError::UnexpectedEndOfInput(k as usize))
                } else if s[k] == ']' {
                    Ok((JVal::Arr(acc.push(v)), k + 1))
                } else if s[k] == ',' {
                    let m = spec_skip_ws(s, k + 1);
                    if m >= s.len() {
                        Err(ParseError::UnexpectedEndOfInput(m as usize))
                    } else if s[m] == ']' {
                        Err(ParseError::TrailingContent(m as usize))
                    } else if m <= i || m > s.len() {
                        Err(ParseError::UnexpectedCharacter(m as usize))
                    } else {
                        spec_parse_items(s, m, depth, acc.push(v))
                    }
                } else {
                    Err(ParseError::UnexpectedCharacter(k as usize))
                }
            },
        }
    }
}

/// Parses the members of an object from the start of a key at `i` to the
/// closing brace; `acc` holds the members already parsed.
pub open spec fn spec_parse_members(
    s: Seq<char>,
    i: int,
    depth: int,
    acc: Seq<(Seq<char>, JVal)>,
) -> Result<(JVal, int), ParseError>
    decreases s.len() - i, 1int,
{
    if i < 0 || i >= s.len() {
        Err(ParseError::UnexpectedEndOfInput(if i < 0 {
            0
        } else {
            i as usize
        }))
    } else if s[i] != '"' {
        Err(ParseError::UnexpectedCharacter(i as usize))
    } else {
        match parse_str_chars(s, i + 1, Seq::empty()) {
            Err(e) => Err(e),
            Ok((key, j)) => {
                let k = spec_skip_ws(s, j);
                if k >= s.len() {
                    Err(ParseError::UnexpectedEndOfInput(k as usize))
                } else if s[k] != ':' {
                    Err(ParseError::UnexpectedCharacter(k as usize))
                } else {
                    let m = spec_skip_ws(s, k + 1);
                    if m <= i || m > s.len() {
                        Err(ParseError::UnexpectedCharacter(m as usize))
                    } else {
                        match spec_parse_value(s, m, depth) {
                            Err(e) => Err(e),
                            Ok((v, p)) => {
                                let acc2 = upsert(acc, key, v);
                                let q = spec_skip_ws(s, p);
                                if q >= s.len() {
                                    Err(ParseError::UnexpectedEndOfInput(q as usize))
                                } else if s[q] == '}' {
                                    Ok((JVal::Obj(acc2), q + 1))
                                } else if s[q] == ',' {
                                    let r = spec_skip_ws(s, q + 1);
                                    if r >= s.len() {
                                        Err(ParseError::UnexpectedEndOfInput(r as usize))
                                    } else if s[r] == '}' {
                                        Err(ParseError::TrailingContent(r as usize))
                                    } else if r <= i || r > s.len() {
                                        Err(ParseError::UnexpectedCharacter(r as usize))
                                    } else {
                                        spec_parse_members(s, r, depth, acc2)
                                    }
                                } else {
                                    Err(ParseError::UnexpectedCharacter(q as usize))
                                }
                            },
                        }
                    }
                }
            },
        }
    }
}

/// Parses a whole document: one value between optional whitespace, with
/// nothing after it.
pub open spec fn spec_decode(s: Seq<char>, depth: int) -> Result<JVal, ParseError> {
    let i = spec_skip_ws(s, 0);
    match spec_parse_value(s, i, depth) {
        Err(e) => Err(e),
        Ok((v, j)) => {
            let k = spec_skip_ws(s, j);
            if k < s.len() {
                Err(ParseError::TrailingContent(k as usize))
            } else {
                Ok(v)
            }
        },
    }
}


/// Whether `c` is JSON whitespace.
fn ws_char(c: char) -> (b: bool)
    ensures
        b == is_ws(c),
{
    c == ' ' || c == '\t' || c == '\n' || c == '\r'
}

/// Whether `c` is a decimal digit.
fn digit_char(c: char) -> (b: bool)
    ensures
        b == is_digit(c),
{
    let u = c as u32;
    48 <= u && u <= 57
}

/// The value of a hexadecimal digit, or 16 for any other character.
fn hex_digit_val(c: char) -> (r: u32)
    ensures
        r == hex_val(c),
{
    let u = c as u32;
    if 48 <= u && u <= 57 {
        u - 48
    } else if 97 <= u && u <= 102 {
        u - 87
    } else if 65 <= u && u <= 70 {
        u - 55
    } else {
        16
    }
}

/// Relies on `char::from_u32`: every code point below the surrogate range or
/// between the surrogates and 0x10FFFF is a Unicode scalar value, for which
/// it returns `Some` of the `char` with that code point.
#[verifier::external_body]
fn char_from_code(u: u32) -> (c: char)
    requires
        u < 0xD800 || (0xE000 <= u && u <= 0x10FFFF),
    ensures
        c as u32 == u,
{
    match char::from_u32(u) {
        Some(c) => c,
        None => ' ',
    }
}

/// Advances past whitespace.
fn skip_ws(s: &Vec<char>, i: usize) -> (r: usize)
    requires
        i <= s@.len(),
    ensures
        r as int == spec_skip_ws(s@, i as int),
        i <= r <= s@.len(),
{
    let mut j = i;
    while j < s.len() && ws_char(s[j])
        invariant
            i <= j <= s@.len(),
            spec_skip_ws(s@, i as int) == spec_skip_ws(s@, j as int),
        decreases s@.len() - j,
    {
        j = j + 1;
    }
    j
}

/// Advances past decimal digits.
fn skip_digits(s: &Vec<char>, i: usize) -> (r: usize)
    requires
        i <= s@.len(),
    ensures
        r as int == spec_skip_digits(s@, i as int),
        i <= r <= s@.len(),
{
    let mut j = i;
    while j < s.len() && digit_char(s[j])
        invariant
            i <= j <= s@.len(),
            spec_skip_digits(s@, i as int) == spec_skip_digits(s@, j as int),
        decreases s@.len() - j,
    {
        j = j + 1;
    }
    j
}

/// Scans a number token at `i`, yielding the offset just past it.
fn parse_number(s: &Vec<char>, i: usize) -> (res: Result<usize, ParseError>)
    requires
        i <= s@.len(),
    ensures
        ({
            let sp = scan_number(s@, i as int);
            match res {
                Ok(j) => sp == Ok::<int, ParseError>(j as int) && i < j <= s@.len(),
                Err(e) => sp == Err::<int, ParseError>(e),
            }
        }),
{
    let mut j = i;
    if j < s.len() && s[j] == '-' {
        j = j + 1;
    }
    if !(j < s.len() && digit_char(s[j])) {
        return Err(ParseError::InvalidNumber(j));
    }
    let p: usize;
    if s[j] == '0' {
        if j + 1 < s.len() && digit_char(s[j + 1]) {
            return Err(ParseError::InvalidNumber(j + 1));
        }
        p = j + 1;
    } else {
        proof {
            assert(spec_skip_digits(s@, j as int) == spec_skip_digits(s@, j as int + 1));
        }
        p = skip_digits(s, j + 1);
    }
    let q: usize;
    if p < s.len() && s[p] == '.' {
        if p + 1 < s.len() && digit_char(s[p + 1]) {
            q = skip_digits(s, p + 1);
        } else {
            return Err(ParseError::InvalidNumber(p + 1));
        }
    } else {
        q = p;
    }
    let end: usize;
    if q < s.len() && (s[q] == 'e' || s[q] == 'E') {
        let r = if q + 1 < s.len() && (s[q + 1] == '+' || s[q + 1] == '-') {
            q + 2
        } else {
            q + 1
        };
        if r < s.len() && digit_char(s[r]) {
            end = skip_digits(s, r);
        } else {
            return Err(ParseError::InvalidNumber(r));
        }
    } else {
        end = q;
    }
    Ok(end)
}

/// Parses a string body from `i` (just after the opening quote) to the
/// closing quote, unescaping as it goes.
#[verifier::loop_isolation(false)]
#[verifier::rlimit(100)]
fn parse_string_body(s: &Vec<char>, i: usize) -> (res: Result<(Vec<char>, usize), ParseError>)
    requires
        i <= s@.len(),
    ensures
        ({
            let sp = parse_str_chars(s@, i as int, Seq::empty());
            match res {
                Ok(p) => sp matches Ok(q) && q.0 == p.0@ && q.1 == p.1 as int && i < p.1
                    <= s@.len(),
                Err(e) => sp == Err::<(Seq<char>, int), ParseError>(e),
            }
        }),
{
    let mut acc: Vec<char> = Vec::new();
    let mut cur = i;
    loop
        invariant
            i <= cur <= s@.len(),
            parse_str_chars(s@, i as int, Seq::empty()) == parse_str_chars(s@, cur as int, acc@),
        decreases s@.len() - cur,
    {
        if cur >= s.len() {
            return Err(ParseError::UnterminatedString(cur));
        }
        let c = s[cur];
        if c == '"' {
            return Ok((acc, cur + 1));
        }
        if c == '\\' {
            if cur + 1 >= s.len() {
                return Err(ParseError::UnterminatedString(cur + 1));
            }
            let e = s[cur + 1];
            if e == '"' {
                acc.push('"');
                cur = cur + 2;
            } else if e == '\\' {
                acc.push('\\');
                cur = cur + 2;
            } else if e == '/' {
                acc.push('/');
                cur = cur + 2;
            } else if e == 'b' {
                acc.push('\u{0008}');
                cur = cur + 2;
            } else if e == 'f' {
                acc.push('\u{000c}');
                cur = cur + 2;
            } else if e == 'n' {
                acc.push('\n');
                cur = cur + 2;
            } else if e == 'r' {
                acc.push('\r');
                cur = cur + 2;
            } else if e == 't' {
                acc.push('\t');
                cur = cur + 2;
            } else if e == 'u' {
                if s.len() - cur < 6 {
                    return Err(ParseError::InvalidEscape(cur));
                }
                let h0 = hex_digit_val(s[cur + 2]);
                let h1 = hex_digit_val(s[cur + 3]);
                let h2 = hex_digit_val(s[cur + 4]);
                let h3 = hex_digit_val(s[cur + 5]);
                if h0 >= 16 || h1 >= 16 || h2 >= 16 || h3 >= 16 {
                    return Err(ParseError::InvalidEscape(cur));
                }
                let u: u32 = h0 * 4096 + h1 * 256 + h2 * 16 + h3;
                proof {
                    assert(has_hex4(s@, cur as int + 2));
                    assert(u as int == hex4(s@, cur as int + 2));
                }
                if 0xD800 <= u && u < 0xDC00 {
                    if s.len() - cur < 12 || !(s[cur + 6] == '\\' && s[cur + 7] == 'u') {
                        return Err(ParseError::InvalidEscape(cur));
                    }
                    let g0 = hex_digit_val(s[cur + 8]);
                    let g1 = hex_digit_val(s[cur + 9]);
                    let g2 = hex_digit_val(s[cur + 10]);
                    let g3 = hex_digit_val(s[cur + 11]);
                    if g0 >= 16 || g1 >= 16 || g2 >= 16 || g3 >= 16 {
                        return Err(ParseError::InvalidEscape(cur));
                    }
                    let u2: u32 = g0 * 4096 + g1 * 256 + g2 * 16 + g3;
                    proof {
                        assert(has_hex4(s@, cur as int + 8));
                        assert(u2 as int == hex4(s@, cur as int + 8));
                    }
                    if !(0xDC00 <= u2 && u2 < 0xE000) {
                        return Err(ParseError::InvalidEscape(cur));
                    }
                    let cp: u32 = 0x10000 + (u - 0xD800) * 0x400 + (u2 - 0xDC00);
                    let ch = char_from_code(cp);
                    proof {
                        vstd::utf8::char_u32_cast(ch, cp);
                    }
                    acc.push(ch);
                    cur = cur + 12;
                } else if 0xDC00 <= u && u < 0xE000 {
                    return Err(ParseError::InvalidEscape(cur));
                } else {
                    let ch = char_from_code(u);
                    proof {
                        vstd::utf8::char_u32_cast(ch, u);
                    }
                    acc.push(ch);
                    cur = cur + 6;
                }
            } else {
                return Err(ParseError::InvalidEscape(cur));
            }
        } else {
            acc.push(c);
            cur = cur + 1;
        }
    }
}


/// Whether the four characters at `i` are exactly `c0 c1 c2 c3`.
fn match4(s: &Vec<char>, i: usize, c0: char, c1: char, c2: char, c3: char) -> (b: bool)
    requires
        i <= s@.len(),
    ensures
        b == (i + 4 <= s@.len() && s@.subrange(i as int, i as int + 4) == seq![c0, c1, c2, c3]),
{
    if s.len() - i < 4 {
        return false;
    }
    let ok = s[i] == c0 && s[i + 1] == c1 && s[i + 2] == c2 && s[i + 3] == c3;
    proof {
        let lit = seq![c0, c1, c2, c3];
        let sub = s@.subrange(i as int, i as int + 4);
        if ok {
            assert(sub =~= lit);
        } else {
            if sub == lit {
                assert(s@[i as int] == lit[0]);
                assert(s@[i as int + 1] == lit[1]);
                assert(s@[i as int + 2] == lit[2]);
                assert(s@[i as int + 3] == lit[3]);
            }
        }
    }
    ok
}

/// Whether the five characters at `i` are exactly `c0 c1 c2 c3 c4`.
fn match5(s: &Vec<char>, i: usize, c0: char, c1: char, c2: char, c3: char, c4: char) -> (b: bool)
    requires
        i <= s@.len(),
    ensures
        b == (i + 5 <= s@.len() && s@.subrange(i as int, i as int + 5) == seq![
            c0,
            c1,
            c2,
            c3,
            c4,
        ]),
{
    if s.len() - i < 5 {
        return false;
    }
    let ok = s[i] == c0 && s[i + 1] == c1 && s[i + 2] == c2 && s[i + 3] == c3 && s[i + 4] == c4;
    proof {
        let lit = seq![c0, c1, c2, c3, c4];
        let sub = s@.subrange(i as int, i as int + 5);
        if ok {
            assert(sub =~= lit);
        } else {
            if sub == lit {
                assert(s@[i as int] == lit[0]);
                assert(s@[i as int + 1] == lit[1]);
                assert(s@[i as int + 2] == lit[2]);
                assert(s@[i as int + 3] == lit[3]);
                assert(s@[i as int + 4] == lit[4]);
            }
        }
    }
    ok
}

/// Inserts `key` with `v` into the entries `items`: an existing entry with
/// that key is overwritten in place, otherwise the entry is appended.
#[verifier::loop_isolation(false)]
fn upsert_entry(items: &mut Vec<(String, Value)>, key: String, v: Value)
    requires
        unique_keys(obj_model(*old(items))),
    ensures
        obj_model(*final(items)) == upsert(obj_model(*old(items)), key@, v@),
        unique_keys(obj_model(*final(items))),
{
    let ghost m0 = obj_model(*items);
    let n = items.len();
    let mut w: usize = 0;
    while w < n
        invariant
            w <= n,
            n == items@.len(),
            *items == *old(items),
            forall|q: int| 0 <= q < w ==> m0[q].0 != key@,
        decreases n - w,
    {
        if items[w].0 == key {
            items[w] = (key, v);
            proof {
                assert(obj_model(*items) =~= m0.update(w as int, (key@, v@)));
                let k0 = choose|k: int| 0 <= k < m0.len() && m0[k].0 == key@;
                assert(m0[w as int].0 == key@);
                assert(0 <= k0 < m0.len() && m0[k0].0 == key@);
                assert(k0 == w as int);
                assert(unique_keys(obj_model(*items)));
            }
            return;
        }
        w = w + 1;
    }
    items.push((key, v));
    proof {
        assert(forall|q: int| 0 <= q < m0.len() ==> m0[q].0 != key@);
        assert(!(exists|k: int| 0 <= k < m0.len() && m0[k].0 == key@));
        assert(obj_model(*items) =~= m0.push((key@, v@)));
        assert(unique_keys(obj_model(*items)));
    }
}

/// Parses an array at `i` (which holds `[`).
#[verifier::loop_isolation(false)]
#[verifier::rlimit(100)]
fn parse_array(s: &Vec<char>, i: usize, depth: usize) -> (res: Result<(Value, usize), ParseError>)
    requires
        i < s@.len(),
        s@[i as int] == '[',
    ensures
        ({
            let sp = spec_parse_value(s@, i as int, depth as int);
            match res {
                Ok(p) => sp matches Ok(q) && q.0 == p.0@ && q.1 == p.1 as int && i < p.1
                    <= s@.len(),
                Err(e) => sp == Err::<(JVal, int), ParseError>(e),
            }
        }),
    decreases s@.len() - i, 0int,
{
    if depth == 0 {
        return Err(ParseError::MaxDepthExceeded(i));
    }
    let n = s.len();
    proof {
        assert(i + 1 <= n);
    }
    let j = skip_ws(s, i + 1);
    if j >= s.len() {
        return Err(ParseError::UnexpectedEndOfInput(j));
    }
    if s[j] == ']' {
        let out = Value::Arr(Vec::new());
        proof {
            assert(out@->Arr_0 =~= Seq::<JVal>::empty());
        }
        return Ok((out, j + 1));
    }
    let mut items: Vec<Value> = Vec::new();
    let mut cur = j;
    proof {
        assert(arr_model(items) =~= Seq::<JVal>::empty());
    }
    loop
        invariant
            i < cur <= s@.len(),
            depth >= 1,
            spec_parse_value(s@, i as int, depth as int) == spec_parse_items(
                s@,
                cur as int,
                depth as int - 1,
                arr_model(items),
            ),
        decreases s@.len() - cur,
    {
        if cur >= s.len() {
            return Err(ParseError::UnexpectedEndOfInput(cur));
        }
        match parse_value(s, cur, depth - 1) {
            Err(e) => {
                return Err(e);
            },
            Ok((v, p)) => {
                let ghost mpre = arr_model(items);
                items.push(v);
                proof {
                    assert(arr_model(items) =~= mpre.push(v@));
                }
                let k = skip_ws(s, p);
                if k >= s.len() {
                    return Err(ParseError::UnexpectedEndOfInput(k));
                }
                if s[k] == ']' {
                    let out = Value::Arr(items);
                    return Ok((out, k + 1));
                }
                if s[k] == ',' {
                    let m = skip_ws(s, k + 1);
                    if m >= s.len() {
                        return Err(ParseError::UnexpectedEndOfInput(m));
                    }
                    if s[m] == ']' {
                        return Err(ParseError::TrailingContent(m));
                    }
                    cur = m;
                } else {
                    return Err(ParseError::UnexpectedCharacter(k));
                }
            },
        }
    }
}

/// Parses an object at `i` (which holds `{`).
#[verifier::loop_isolation(false)]
#[verifier::rlimit(100)]
fn parse_object(s: &Vec<char>, i: usize, depth: usize) -> (res: Result<(Value, usize), ParseError>)
    requires
        i < s@.len(),
        s@[i as int] == '{',
    ensures
        ({
            let sp = spec_parse_value(s@, i as int, depth as int);
            match res {
                Ok(p) => sp matches Ok(q) && q.0 == p.0@ && q.1 == p.1 as int && i < p.1
                    <= s@.len(),
                Err(e) => sp == Err::<(JVal, int), ParseError>(e),
            }
        }),
    decreases s@.len() - i, 0int,
{
    if depth == 0 {
        return Err(ParseError::MaxDepthExceeded(i));
    }
    let n = s.len();
    proof {
        assert(i + 1 <= n);
    }
    let j = skip_ws(s, i + 1);
    if j >= s.len() {
        return Err(ParseError::UnexpectedEndOfInput(j));
    }
    if s[j] == '}' {
        let out = Value::Obj(Vec::new());
        proof {
            assert(out@->Obj_0 =~= Seq::<(Seq<char>, JVal)>::empty());
        }
        return Ok((out, j + 1));
    }
    let mut items: Vec<(String, Value)> = Vec::new();
    let mut cur = j;
    proof {
        assert(obj_model(items) =~= Seq::<(Seq<char>, JVal)>::empty());
    }
    loop
        invariant
            i < cur <= s@.len(),
            depth >= 1,
            unique_keys(obj_model(items)),
            spec_parse_value(s@, i as int, depth as int) == spec_parse_members(
                s@,
                cur as int,
                depth as int - 1,
                obj_model(items),
            ),
        decreases s@.len() - cur,
    {
        if cur >= s.len() {
            return Err(ParseError::UnexpectedEndOfInput(cur));
        }
        if s[cur] != '"' {
            return Err(ParseError::UnexpectedCharacter(cur));
        }
        match parse_string_body(s, cur + 1) {
            Err(e) => {
                return Err(e);
            },
            Ok((keychars, p)) => {
                let key = chars_to_string(&keychars);
                let k = skip_ws(s, p);
                if k >= s.len() {
                    return Err(ParseError::UnexpectedEndOfInput(k));
                }
                if s[k] != ':' {
                    return Err(ParseError::UnexpectedCharacter(k));
                }
                let m = skip_ws(s, k + 1);
                match parse_value(s, m, depth - 1) {
                    Err(e) => {
                        return Err(e);
                    },
                    Ok((v, p2)) => {
                        let ghost mpre = obj_model(items);
                        upsert_entry(&mut items, key, v);
                        let q = skip_ws(s, p2);
                        if q >= s.len() {
                            return Err(ParseError::UnexpectedEndOfInput(q));
                        }
                        if s[q] == '}' {
                            let out = Value::Obj(items);
                            return Ok((out, q + 1));
                        }
                        if s[q] == ',' {
                            let r = skip_ws(s, q + 1);
                            if r >= s.len() {
                                return Err(ParseError::UnexpectedEndOfInput(r));
                            }
                            if s[r] == '}' {
                                return Err(ParseError::TrailingContent(r));
                            }
                            cur = r;
                        } else {
                            return Err(ParseError::UnexpectedCharacter(q));
                        }
                    },
                }
            },
        }
    }
}

/// Parses one value at `i` (whitespace already skipped), with `depth` the
/// remaining nesting budget.
#[verifier::rlimit(100)]
fn parse_value(s: &Vec<char>, i: usize, depth: usize) -> (res: Result<(Value, usize), ParseError>)
    requires
        i <= s@.len(),
    ensures
        ({
            let sp = spec_parse_value(s@, i as int, depth as int);
            match res {
                Ok(p) => sp matches Ok(q) && q.0 == p.0@ && q.1 == p.1 as int && i < p.1
                    <= s@.len(),
                Err(e) => sp == Err::<(JVal, int), ParseError>(e),
            }
        }),
    decreases s@.len() - i, 1int,
{
    if i >= s.len() {
        return Err(ParseError::UnexpectedEndOfInput(i));
    }
    let c = s[i];
    if c == 'n' {
        if match4(s, i, 'n', 'u', 'l', 'l') {
            Ok((Value::Null, i + 4))
        } else {
            Err(ParseError::UnexpectedCharacter(i))
        }
    } else if c == 't' {
        if match4(s, i, 't', 'r', 'u', 'e') {
            Ok((Value::Bool(true), i + 4))
        } else {
            Err(ParseError::UnexpectedCharacter(i))
        }
    } else if c == 'f' {
        if match5(s, i, 'f', 'a', 'l', 's', 'e') {
            Ok((Value::Bool(false), i + 5))
        } else {
            Err(ParseError::UnexpectedCharacter(i))
        }
    } else if c == '"' {
        match parse_string_body(s, i + 1) {
            Ok((cs, j)) => {
                let st = chars_to_string(&cs);
                Ok((Value::Str(st), j))
            },
            Err(e) => Err(e),
        }
    } else if c == '-' || digit_char(c) {
        match parse_number(s, i) {
            Ok(j) => {
                let mut tok: Vec<char> = Vec::new();
                let mut p = i;
                proof {
                    assert(tok@ =~= s@.subrange(i as int, i as int));
                }
                while p < j
                    invariant
                        i <= p <= j,
                        j <= s@.len(),
                        tok@ == s@.subrange(i as int, p as int),
                    decreases j - p,
                {
                    tok.push(s[p]);
                    proof {
                        assert(s@.subrange(i as int, p as int + 1) =~= s@.subrange(
                            i as int,
                            p as int,
                        ).push(s@[p as int]));
                    }
                    p = p + 1;
                }
                let st = chars_to_string(&tok);
                Ok((Value::Num(st), j))
            },
            Err(e) => Err(e),
        }
    } else if c == '[' {
        parse_array(s, i, depth)
    } else if c == '{' {
        parse_object(s, i, depth)
    } else {
        Err(ParseError::UnexpectedCharacter(i))
    }
}

/// The default nesting budget of [`decode_text`].
pub const MAX_DEPTH: usize = 500;

/// The characters of `text`, in order.
pub fn str_to_chars(text: &str) -> (r: Vec<char>)
    ensures
        r@ == text@,
{
    let n = text.unicode_len();
    let mut r: Vec<char> = Vec::new();
    let mut i: usize = 0;
    while i < n
        invariant
            i <= n,
            n == text@.len(),
            r@ == text@.take(i as int),
        decreases n - i,
    {
        r.push(text.get_char(i));
        proof {
            assert(text@.take(i + 1) =~= text@.take(i as int).push(text@[i as int]));
        }
        i = i + 1;
    }
    proof {
        assert(text@.take(n as int) =~= text@);
    }
    r
}

/// Decodes `text` into a value tree, allowing arrays and objects to nest at
/// most `max_depth` levels.
pub fn decode_text_with_depth(text: &str, max_depth: usize) -> (res: Result<Value, ParseError>)
    ensures
        ({
            let sp = spec_decode(text@, max_depth as int);
            match res {
                Ok(v) => sp matches Ok(jv) && jv == v@,
                Err(e) => sp == Err::<JVal, ParseError>(e),
            }
        }),
{
    let s = str_to_chars(text);
    let i = skip_ws(&s, 0);
    match parse_value(&s, i, max_depth) {
        Err(e) => Err(e),
        Ok((v, j)) => {
            let k = skip_ws(&s, j);
            if k < s.len() {
                Err(ParseError::TrailingContent(k))
            } else {
                Ok(v)
            }
        },
    }
}

/// Decodes `text` into a value tree with the default nesting budget.
pub fn decode_text(text: &str) -> (res: Result<Value, ParseError>)
    ensures
        ({
            let sp = spec_decode(text@, MAX_DEPTH as int);
            match res {
                Ok(v) => sp matches Ok(jv) && jv == v@,
                Err(e) => sp == Err::<JVal, ParseError>(e),
            }
        }),
{
    decode_text_with_depth(text, MAX_DEPTH)
}

} // verus!



