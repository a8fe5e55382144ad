//! The laws the codec obeys: decoding an encoded value gives the value back,
//! and encoding is idempotent across a decode. Proved for every well-formed
//! value that fits the decoder's nesting budget, at every indent width.

use vstd::prelude::*;
use crate::decode::has_hex4;
use crate::decode::hex4;
use crate::decode::hex_val;
use crate::decode::is_digit;
use crate::decode::is_number_token;
use crate::decode::is_ws;
use crate::decode::parse_str_chars;
use crate::decode::scan_exp;
use crate::decode::scan_frac;
use crate::decode::scan_int;
use crate::decode::scan_number;
use crate::decode::spec_decode;
use crate::decode::spec_parse_items;
use crate::decode::spec_parse_members;
use crate::decode::spec_parse_value;
use crate::decode::spec_skip_digits;
use crate::decode::spec_skip_ws;
use crate::decode::unique_keys;
use crate::decode::upsert;
use crate::decode::MAX_DEPTH;
use crate::encode::colon;
use crate::encode::enc;
use crate::encode::enc_items;
use crate::encode::enc_members;
use crate::encode::esc_char;
use crate::encode::esc_str;
use crate::encode::hex_char;
use crate::encode::nl;
use crate::encode::quoted;
use crate::encode::spaces;
use crate::errors::ParseError;
use crate::value::JVal;

verus! {

/// Every character of `p` is whitespace.
pub open spec fn ws_only(p: Seq<char>) -> bool {
    forall|k: int| 0 <= k < p.len() ==> is_ws(#[trigger] p[k])
}

/// The character at `j` (if any) cannot extend a preceding token: it is
/// whitespace or one of `,` `]` `}`.
pub open spec fn stopper(s: Seq<char>, j: int) -> bool {
    j == s.len() || is_ws(s[j]) || s[j] == ',' || s[j] == ']' || s[j] == '}'
}

/// A window of `s` equal to `a + b` splits into a window equal to `a` and a
/// window equal to `b`.
proof fn lemma_peel(s: Seq<char>, i: int, a: Seq<char>, b: Seq<char>)
    requires
        0 <= i,
        i + a.len() + b.len() <= s.len(),
        s.subrange(i, i + a.len() + b.len()) == a + b,
    ensures
        s.subrange(i, i + a.len()) == a,
        s.subrange(i + a.len(), i + a.len() + b.len()) == b,
{
    assert(s.subrange(i, i + a.len() as int) =~= a);
    assert forall|q: int| 0 <= q < b.len() implies s[i + a.len() + q] == b[q] by {
        let w = s.subrange(i, i + a.len() + b.len());
        assert(w[a.len() + q] == s[i + a.len() + q]);
        assert((a + b)[a.len() + q] == b[q]);
    }
    assert(s.subrange(i + a.len(), i + a.len() + b.len()) =~= b);
}

/// `spec_skip_ws` lands exactly on the first non-whitespace offset.
proof fn lemma_skip_ws_window(s: Seq<char>, i: int, j: int)
    requires
        0 <= i <= j <= s.len(),
        forall|k: int| i <= k < j ==> is_ws(#[trigger] s[k]),
        j == s.len() || !is_ws(s[j]),
    ensures
        spec_skip_ws(s, i) == j,
    decreases j - i,
{
    if i < j {
        lemma_skip_ws_window(s, i + 1, j);
    }
}

/// `spec_skip_digits` lands exactly on the first non-digit offset.
proof fn lemma_skip_digits_window(s: Seq<char>, i: int, j: int)
    requires
        0 <= i <= j <= s.len(),
        forall|k: int| i <= k < j ==> is_digit(#[trigger] s[k]),
        j == s.len() || !is_digit(s[j]),
    ensures
        spec_skip_digits(s, i) == j,
    decreases j - i,
{
    if i < j {
        lemma_skip_digits_window(s, i + 1, j);
    }
}

/// What `spec_skip_digits` passes over is digits, and it stops on a
/// non-digit.
proof fn lemma_skip_digits_props(s: Seq<char>, i: int)
    requires
        0 <= i <= s.len(),
    ensures
        i <= spec_skip_digits(s, i) <= s.len(),
        forall|k: int| i <= k < spec_skip_digits(s, i) ==> is_digit(#[trigger] s[k]),
        spec_skip_digits(s, i) < s.len() ==> !is_digit(s[spec_skip_digits(s, i)]),
    decreases s.len() - i,
{
    if i < s.len() && is_digit(s[i]) {
        lemma_skip_digits_props(s, i + 1);
    }
}

/// A hexadecimal digit written by the encoder reads back as its value.
proof fn lemma_hex_char_val(d: u32)
    requires
        d < 16,
    ensures
        hex_val(hex_char(d)) == d,
        hex_char(d) != '"' && hex_char(d) != '\\' && (hex_char(d) as u32) >= 32,
{
}

/// `esc_str` taken apart at its first character.
proof fn lemma_esc_str_head(cs: Seq<char>)
    requires
        cs.len() > 0,
    ensures
        esc_str(cs) == esc_char(cs[0]) + esc_str(cs.drop_first()),
    decreases cs.len(),
{
    if cs.len() == 1 {
        assert(cs.drop_last() =~= Seq::<char>::empty());
        assert(cs.drop_first() =~= Seq::<char>::empty());
        assert(esc_str(cs) =~= esc_char(cs[0]) + esc_str(cs.drop_first()));
    } else {
        lemma_esc_str_head(cs.drop_last());
        assert(cs.drop_last()[0] == cs[0]);
        assert(cs.drop_last().drop_first() =~= cs.drop_first().drop_last());
        assert(cs.drop_first().last() == cs.last());
        assert(esc_str(cs) == esc_str(cs.drop_last()) + esc_char(cs.last()));
        assert(esc_str(cs.drop_first()) == esc_str(cs.drop_first().drop_last()) + esc_char(
            cs.last(),
        ));
        assert(esc_str(cs) =~= esc_char(cs[0]) + esc_str(cs.drop_first()));
    }
}


/// Parsing a string body that was written by the escaper yields exactly the
/// original characters and stops just past the closing quote.
proof fn lemma_parse_esc(cs: Seq<char>, s: Seq<char>, i: int, acc: Seq<char>)
    requires
        0 <= i,
        i + esc_str(cs).len() + 1 <= s.len(),
        s.subrange(i, i + esc_str(cs).len()) == esc_str(cs),
        s[i + esc_str(cs).len()] == '"',
    ensures
        parse_str_chars(s, i, acc) == Ok::<(Seq<char>, int), ParseError>(
            (acc + cs, i + esc_str(cs).len() + 1),
        ),
    decreases cs.len(),
{
    if cs.len() == 0 {
        assert(esc_str(cs).len() == 0);
        assert(s.subrange(i, i) =~= Seq::<char>::empty());
        assert(s[i] == '"');
        assert(acc + cs =~= acc);
    } else {
        lemma_esc_str_head(cs);
        let c = cs[0];
        let e0 = esc_char(c);
        let rest = esc_str(cs.drop_first());
        assert(esc_str(cs).len() == e0.len() + rest.len());
        lemma_peel(s, i, e0, rest);
        assert forall|k: int| 0 <= k < e0.len() implies s[i + k] == e0[k] by {
            assert(s.subrange(i, i + e0.len())[k] == s[i + k]);
        }
        let u = c as u32;
        if c == '"' {
            assert(s[i] == '\\' && s[i + 1] == '"');
            lemma_parse_esc(cs.drop_first(), s, i + 2, acc.push('"'));
            assert(acc.push('"') + cs.drop_first() =~= acc + cs);
        } else if c == '\\' {
            assert(s[i] == '\\' && s[i + 1] == '\\');
            lemma_parse_esc(cs.drop_first(), s, i + 2, acc.push('\\'));
            assert(acc.push('\\') + cs.drop_first() =~= acc + cs);
        } else if u < 32 {
            assert(s[i] == '\\' && s[i + 1] == 'u' && s[i + 2] == '0' && s[i + 3] == '0' && s[i
                + 4] == hex_char(u / 16) && s[i + 5] == hex_char(u % 16));
            lemma_hex_char_val(u / 16);
            lemma_hex_char_val(u % 16);
            assert(hex_val('0') == 0);
            assert(has_hex4(s, i + 2));
            assert(hex4(s, i + 2) == u);
            vstd::utf8::char_u32_cast(c, u);
            assert(((hex4(s, i + 2) as u32) as char) == c);
            lemma_parse_esc(cs.drop_first(), s, i + 6, acc.push(c));
            assert(acc.push(c) + cs.drop_first() =~= acc + cs);
        } else {
            assert(e0 =~= seq![c]);
            assert(s[i + 0] == e0[0]);
            assert(s[i] == c);
            assert(!(s[i] == '"') && !(s[i] == '\\'));
            lemma_parse_esc(cs.drop_first(), s, i + 1, acc.push(c));
            assert(acc.push(c) + cs.drop_first() =~= acc + cs);
        }
    }
}

/// Scanning a valid number token embedded at `i`, with a character after it
/// that cannot extend it, consumes exactly the token.
#[verifier::rlimit(100)]
proof fn lemma_scan_number_window(t: Seq<char>, s: Seq<char>, i: int)
    requires
        is_number_token(t),
        0 <= i,
        i + t.len() <= s.len(),
        s.subrange(i, i + t.len()) == t,
        i + t.len() == s.len() || (!is_digit(s[i + t.len()]) && s[i + t.len()] != '.' && s[i
            + t.len()] != 'e' && s[i + t.len()] != 'E'),
    ensures
        scan_number(s, i) == Ok::<int, ParseError>(i + t.len()),
{
    let L = t.len() as int;
    assert forall|k: int| 0 <= k < L implies s[i + k] == t[k] by {
        assert(s.subrange(i, i + L)[k] == s[i + k]);
    }
    assert(scan_int(t, 0) is Ok);
    let p = scan_int(t, 0)->Ok_0;
    assert(scan_frac(t, p) is Ok);
    let q = scan_frac(t, p)->Ok_0;
    assert(scan_exp(t, q) == Ok::<int, ParseError>(L));
    // the integer part
    assert(L > 0);
    let j0: int = if t[0] == '-' {
        1
    } else {
        0
    };
    assert(j0 < L && is_digit(t[j0]));
    if t[j0] == '0' {
        assert(p == j0 + 1);
        assert(scan_int(s, i) == Ok::<int, ParseError>(i + p));
    } else {
        lemma_skip_digits_props(t, j0);
        assert(p == spec_skip_digits(t, j0));
        assert forall|k: int| i + j0 <= k < i + p implies is_digit(#[trigger] s[k]) by {
            assert(s[i + (k - i)] == t[k - i]);
        }
        lemma_skip_digits_window(s, i + j0, i + p);
        assert(scan_int(s, i) == Ok::<int, ParseError>(i + p));
    }
    // the fraction part
    assert(0 <= p <= L);
    if p < L && t[p] == '.' {
        assert(p + 1 < L && is_digit(t[p + 1]));
        assert(q == spec_skip_digits(t, p + 1));
        lemma_skip_digits_props(t, p + 1);
        assert forall|k: int| i + p + 1 <= k < i + q implies is_digit(#[trigger] s[k]) by {
            assert(s[i + (k - i)] == t[k - i]);
        }
        lemma_skip_digits_window(s, i + p + 1, i + q);
        assert(scan_frac(s, i + p) == Ok::<int, ParseError>(i + q));
    } else {
        assert(q == p);
        assert(scan_frac(s, i + p) == Ok::<int, ParseError>(i + q));
    }
    // the exponent part
    assert(0 <= q <= L);
    if q < L && (t[q] == 'e' || t[q] == 'E') {
        let r0: int = if q + 1 < L && (t[q + 1] == '+' || t[q + 1] == '-') {
            q + 2
        } else {
            q + 1
        };
        assert(r0 < L && is_digit(t[r0]));
        assert(L == spec_skip_digits(t, r0));
        lemma_skip_digits_props(t, r0);
        assert forall|k: int| i + r0 <= k < i + L implies is_digit(#[trigger] s[k]) by {
            assert(s[i + (k - i)] == t[k - i]);
        }
        lemma_skip_digits_window(s, i + r0, i + L);
        assert(scan_exp(s, i + q) == Ok::<int, ParseError>(i + L));
    } else {
        assert(q == L);
        assert(scan_exp(s, i + q) == Ok::<int, ParseError>(i + L));
    }
}

/// An encoded value is never empty, and its first character is neither
/// whitespace nor one of the delimiters `,` `]` `}`.
proof fn lemma_enc_first(v: JVal, ind: nat, pad: Seq<char>)
    requires
        v.wf(),
    ensures
        enc(v, ind, pad).len() >= 1,
        !is_ws(enc(v, ind, pad)[0]),
        enc(v, ind, pad)[0] != ']' && enc(v, ind, pad)[0] != '}' && enc(v, ind, pad)[0] != ',',
{
    match v {
        JVal::Num(t) => {
            assert(scan_int(t, 0) is Ok);
            assert(t.len() > 0);
            if t[0] != '-' {
                assert(is_digit(t[0]));
            }
        },
        _ => {},
    }
}


/// The text of an array's items from the first item to the closing bracket.
spec fn items_text(es: Seq<JVal>, ind: nat, cpad: Seq<char>, pad: Seq<char>) -> Seq<char>
    decreases es,
{
    if es.len() == 0 {
        seq![']']
    } else if es.len() == 1 {
        enc(es[0], ind, cpad) + nl(ind, pad) + seq![']']
    } else {
        enc(es[0], ind, cpad) + seq![','] + nl(ind, cpad) + items_text(
            es.drop_first(),
            ind,
            cpad,
            pad,
        )
    }
}

/// The text of an object's members from the first key to the closing brace.
spec fn members_text(ms: Seq<(Seq<char>, JVal)>, ind: nat, cpad: Seq<char>, pad: Seq<char>) -> Seq<
    char,
>
    decreases ms,
{
    if ms.len() == 0 {
        seq!['}']
    } else {
        quoted(ms[0].0) + colon(ind) + enc(ms[0].1, ind, cpad) + (if ms.len() == 1 {
            nl(ind, pad) + seq!['}']
        } else {
            seq![','] + nl(ind, cpad) + members_text(ms.drop_first(), ind, cpad, pad)
        })
    }
}

/// `enc_items` taken apart at its first item.
proof fn lemma_enc_items_head(es: Seq<JVal>, ind: nat, cpad: Seq<char>)
    requires
        es.len() >= 1,
    ensures
        enc_items(es, ind, cpad) == nl(ind, cpad) + enc(es[0], ind, cpad) + (if es.len() > 1 {
            seq![','] + enc_items(es.drop_first(), ind, cpad)
        } else {
            Seq::<char>::empty()
        }),
    decreases es.len(),
{
    if es.len() == 1 {
        assert(enc_items(es, ind, cpad) =~= nl(ind, cpad) + enc(es[0], ind, cpad)
            + Seq::<char>::empty());
    } else {
        lemma_enc_items_head(es.drop_last(), ind, cpad);
        assert(es.drop_last()[0] == es[0]);
        if es.len() == 2 {
            assert(es.drop_first()[0] == es[1]);
            assert(es.drop_first().len() == 1);
            assert(es.last() == es[1]);
            assert(enc_items(es, ind, cpad) =~= nl(ind, cpad) + enc(es[0], ind, cpad) + (seq![',']
                + enc_items(es.drop_first(), ind, cpad)));
        } else {
            assert(es.drop_first().drop_last() =~= es.drop_last().drop_first());
            assert(es.drop_first().last() == es.last());
            assert(enc_items(es.drop_first(), ind, cpad) == enc_items(
                es.drop_first().drop_last(),
                ind,
                cpad,
            ) + seq![','] + nl(ind, cpad) + enc(es.drop_first().last(), ind, cpad));
            assert(enc_items(es, ind, cpad) =~= nl(ind, cpad) + enc(es[0], ind, cpad) + (seq![',']
                + enc_items(es.drop_first(), ind, cpad)));
        }
    }
}

/// `enc_members` taken apart at its first member.
proof fn lemma_enc_members_head(ms: Seq<(Seq<char>, JVal)>, ind: nat, cpad: Seq<char>)
    requires
        ms.len() >= 1,
    ensures
        enc_members(ms, ind, cpad) == nl(ind, cpad) + quoted(ms[0].0) + colon(ind) + enc(
            ms[0].1,
            ind,
            cpad,
        ) + (if ms.len() > 1 {
            seq![','] + enc_members(ms.drop_first(), ind, cpad)
        } else {
            Seq::<char>::empty()
        }),
    decreases ms.len(),
{
    if ms.len() == 1 {
        assert(enc_members(ms, ind, cpad) =~= nl(ind, cpad) + quoted(ms[0].0) + colon(ind) + enc(
            ms[0].1,
            ind,
            cpad,
        ) + Seq::<char>::empty());
    } else {
        lemma_enc_members_head(ms.drop_last(), ind, cpad);
        assert(ms.drop_last()[0] == ms[0]);
        if ms.len() == 2 {
            assert(ms.drop_first()[0] == ms[1]);
            assert(ms.drop_first().len() == 1);
            assert(ms.last() == ms[1]);
            assert(enc_members(ms, ind, cpad) =~= nl(ind, cpad) + quoted(ms[0].0) + colon(ind)
                + enc(ms[0].1, ind, cpad) + (seq![','] + enc_members(ms.drop_first(), ind, cpad)));
        } else {
            assert(ms.drop_first().drop_last() =~= ms.drop_last().drop_first());
            assert(ms.drop_first().last() == ms.last());
            assert(enc_members(ms.drop_first(), ind, cpad) == enc_members(
                ms.drop_first().drop_last(),
                ind,
                cpad,
            ) + seq![','] + nl(ind, cpad) + quoted(ms.drop_first().last().0) + colon(ind) + enc(
                ms.drop_first().last().1,
                ind,
                cpad,
            ));
            assert(enc_members(ms, ind, cpad) =~= nl(ind, cpad) + quoted(ms[0].0) + colon(ind)
                + enc(ms[0].1, ind, cpad) + (seq![','] + enc_members(ms.drop_first(), ind, cpad)));
        }
    }
}

/// The body of an encoded nonempty array, with its closing bracket, is the
/// item separator followed by `items_text`.
proof fn lemma_items_bridge(es: Seq<JVal>, ind: nat, cpad: Seq<char>, pad: Seq<char>)
    requires
        es.len() >= 1,
    ensures
        enc_items(es, ind, cpad) + nl(ind, pad) + seq![']'] == nl(ind, cpad) + items_text(
            es,
            ind,
            cpad,
            pad,
        ),
    decreases es.len(),
{
    lemma_enc_items_head(es, ind, cpad);
    if es.len() == 1 {
        assert(enc_items(es, ind, cpad) + nl(ind, pad) + seq![']'] =~= nl(ind, cpad) + items_text(
            es,
            ind,
            cpad,
            pad,
        ));
    } else {
        lemma_items_bridge(es.drop_first(), ind, cpad, pad);
        let a = nl(ind, cpad);
        let b = enc(es[0], ind, cpad);
        let c = seq![','];
        let d = enc_items(es.drop_first(), ind, cpad);
        let n = nl(ind, pad);
        let z = seq![']'];
        let t = items_text(es.drop_first(), ind, cpad, pad);
        assert(enc_items(es, ind, cpad) == a + b + c + d);
        assert(d + n + z == a + t);
        assert(a + b + c + d + n + z =~= (a + b + c) + (d + n + z));
        assert((a + b + c) + (a + t) =~= a + items_text(es, ind, cpad, pad));
        assert(enc_items(es, ind, cpad) + n + z == a + items_text(es, ind, cpad, pad));
    }
}

/// The body of an encoded nonempty object, with its closing brace, is the
/// item separator followed by `members_text`.
proof fn lemma_members_bridge(ms: Seq<(Seq<char>, JVal)>, ind: nat, cpad: Seq<char>, pad: Seq<char>)
    requires
        ms.len() >= 1,
    ensures
        enc_members(ms, ind, cpad) + nl(ind, pad) + seq!['}'] == nl(ind, cpad) + members_text(
            ms,
            ind,
            cpad,
            pad,
        ),
    decreases ms.len(),
{
    lemma_enc_members_head(ms, ind, cpad);
    if ms.len() == 1 {
        assert(enc_members(ms, ind, cpad) + nl(ind, pad) + seq!['}'] =~= nl(ind, cpad)
            + members_text(ms, ind, cpad, pad));
    } else {
        lemma_members_bridge(ms.drop_first(), ind, cpad, pad);
        let a = nl(ind, cpad);
        let b = quoted(ms[0].0) + colon(ind) + enc(ms[0].1, ind, cpad);
        let c = seq![','];
        let d = enc_members(ms.drop_first(), ind, cpad);
        let n = nl(ind, pad);
        let z = seq!['}'];
        let t = members_text(ms.drop_first(), ind, cpad, pad);
        assert(enc_members(ms, ind, cpad) =~= a + b + c + d);
        assert(d + n + z == a + t);
        assert(a + b + c + d + n + z =~= (a + b + c) + (d + n + z));
        assert((a + b + c) + (a + t) =~= a + members_text(ms, ind, cpad, pad));
        assert(enc_members(ms, ind, cpad) + n + z == a + members_text(ms, ind, cpad, pad));
    }
}


/// Parsing an encoded value embedded at `i`, with a stopper after it, yields
/// exactly that value.
#[verifier::rlimit(100)]
proof fn lemma_parse_enc(v: JVal, ind: nat, pad: Seq<char>, s: Seq<char>, i: int, depth: int)
    requires
        v.wf(),
        v.fits(depth),
        ws_only(pad),
        0 <= i,
        i + enc(v, ind, pad).len() <= s.len(),
        s.subrange(i, i + enc(v, ind, pad).len()) == enc(v, ind, pad),
        stopper(s, i + enc(v, ind, pad).len()),
    ensures
        spec_parse_value(s, i, depth) == Ok::<(JVal, int), ParseError>(
            (v, i + enc(v, ind, pad).len()),
        ),
    decreases v, 2int,
{
    let ev = enc(v, ind, pad);
    let lv = ev.len() as int;
    assert forall|k: int| 0 <= k < lv implies s[i + k] == ev[k] by {
        assert(s.subrange(i, i + lv)[k] == s[i + k]);
    }
    lemma_enc_first(v, ind, pad);
    match v {
        JVal::Null => {
            assert(ev =~= seq!['n', 'u', 'l', 'l']);
            assert(s[i + 0] == 'n');
            assert(s.subrange(i, i + 4) == seq!['n', 'u', 'l', 'l']);
        },
        JVal::Bool(b) => {
            if b {
                assert(ev =~= seq!['t', 'r', 'u', 'e']);
                assert(s[i + 0] == 't');
                assert(s.subrange(i, i + 4) == seq!['t', 'r', 'u', 'e']);
            } else {
                assert(ev =~= seq!['f', 'a', 'l', 's', 'e']);
                assert(s[i + 0] == 'f');
                assert(s.subrange(i, i + 5) == seq!['f', 'a', 'l', 's', 'e']);
            }
        },
        JVal::Num(t) => {
            assert(ev == t);
            assert(scan_int(t, 0) is Ok);
            assert(t.len() > 0);
            assert(s[i + 0] == t[0]);
            if t[0] != '-' {
                assert(is_digit(t[0]));
            }
            lemma_scan_number_window(t, s, i);
            assert(s.subrange(i, i + lv) == t);
        },
        JVal::Str(cs) => {
            assert(ev == quoted(cs));
            assert(ev =~= seq!['"'] + (esc_str(cs) + seq!['"']));
            lemma_peel(s, i, seq!['"'], esc_str(cs) + seq!['"']);
            lemma_peel(s, i + 1, esc_str(cs), seq!['"']);
            assert(s[i + 0] == '"');
            assert(s.subrange(i + 1 + esc_str(cs).len(), i + 1 + esc_str(cs).len() + 1)[0] == s[i
                + 1 + esc_str(cs).len()]);
            assert(s[i + 1 + esc_str(cs).len()] == '"');
            lemma_parse_esc(cs, s, i + 1, Seq::empty());
            assert(Seq::empty() + cs =~= cs);
        },
        JVal::Arr(es) => {
            assert(depth >= 1);
            if es.len() == 0 {
                assert(ev =~= seq!['[', ']']);
                assert(s[i + 0] == '[' && s[i + 1] == ']');
                assert(!is_ws(']'));
                lemma_skip_ws_window(s, i + 1, i + 1);
                assert(es =~= Seq::<JVal>::empty());
                assert(v =~~= JVal::Arr(Seq::<JVal>::empty()));
            } else {
                assert(v =~~= JVal::Arr(es));
                lemma_parse_enc_arr(es, ind, pad, s, i, depth);
            }
        },
        JVal::Obj(ms) => {
            assert(depth >= 1);
            if ms.len() == 0 {
                assert(ev =~= seq!['{', '}']);
                assert(s[i + 0] == '{' && s[i + 1] == '}');
                assert(!is_ws('}'));
                lemma_skip_ws_window(s, i + 1, i + 1);
                assert(ms =~= Seq::<(Seq<char>, JVal)>::empty());
                assert(v =~~= JVal::Obj(Seq::<(Seq<char>, JVal)>::empty()));
            } else {
                assert(v =~~= JVal::Obj(ms));
                lemma_parse_enc_obj(ms, ind, pad, s, i, depth);
            }
        },
    }
}


/// The array case of [`lemma_parse_enc`].
#[verifier::rlimit(100)]
proof fn lemma_parse_enc_arr(
    es: Seq<JVal>,
    ind: nat,
    pad: Seq<char>,
    s: Seq<char>,
    i: int,
    depth: int,
)
    requires
        (JVal::Arr(es)).wf(),
        (JVal::Arr(es)).fits(depth),
        es.len() >= 1,
        ws_only(pad),
        0 <= i,
        i + enc(JVal::Arr(es), ind, pad).len() <= s.len(),
        s.subrange(i, i + enc(JVal::Arr(es), ind, pad).len()) == enc(JVal::Arr(es), ind, pad),
    ensures
        spec_parse_value(s, i, depth) == Ok::<(JVal, int), ParseError>(
            (JVal::Arr(es), i + enc(JVal::Arr(es), ind, pad).len()),
        ),
    decreases es, 1int,
{
    let v = JVal::Arr(es);
    let ev = enc(v, ind, pad);
    let lv = ev.len() as int;
    assert forall|k: int| 0 <= k < lv implies s[i + k] == ev[k] by {
        assert(s.subrange(i, i + lv)[k] == s[i + k]);
    }
    assert(depth >= 1);
    {

        let cpad = pad + spaces(ind);
        assert(ws_only(cpad)) by {
            assert forall|k: int| 0 <= k < cpad.len() implies is_ws(#[trigger] cpad[k])
                by {
                if k >= pad.len() {
                    assert(cpad[k] == ' ');
                }
            }
        }
        lemma_items_bridge(es, ind, cpad, pad);
        let a = nl(ind, cpad);
        let t = items_text(es, ind, cpad, pad);
        assert(ev =~= seq!['['] + (enc_items(es, ind, cpad) + nl(ind, pad) + seq![']']));
        assert(ev == seq!['['] + (a + t));
        lemma_peel(s, i, seq!['['], a + t);
        lemma_peel(s, i + 1, a, t);
        assert(ev[0] == '[');
        assert(s[i + 0] == '[');
        let j = i + 1 + a.len() as int;
        assert(es[0].wf() && es[0].fits(depth - 1));
        lemma_enc_first(es[0], ind, cpad);
        assert(t[0] == enc(es[0], ind, cpad)[0]);
        assert(s.subrange(j, i + lv)[0] == s[j]);
        assert(s[j] == t[0]);
        assert forall|k: int| i + 1 <= k < j implies is_ws(#[trigger] s[k]) by {
            assert(s.subrange(i + 1, j)[k - (i + 1)] == s[k]);
            assert(a[k - (i + 1)] == s[k]);
            if k == i + 1 {
                assert(a[0] == '\n');
            } else {
                assert(a[k - (i + 1)] == cpad[k - (i + 2)]);
            }
        }
        lemma_skip_ws_window(s, i + 1, j);
        assert forall|k: int| 0 <= k < es.len() implies (#[trigger] es[k]).wf() && es[k].fits(
            depth - 1,
        ) by {}
        lemma_parse_items_enc(es, ind, cpad, pad, s, j, depth - 1, Seq::<JVal>::empty());
        assert(Seq::<JVal>::empty() + es =~= es);
        assert(v == JVal::Arr(es));
    }
}

/// The object case of [`lemma_parse_enc`].
#[verifier::rlimit(100)]
proof fn lemma_parse_enc_obj(
    ms: Seq<(Seq<char>, JVal)>,
    ind: nat,
    pad: Seq<char>,
    s: Seq<char>,
    i: int,
    depth: int,
)
    requires
        (JVal::Obj(ms)).wf(),
        (JVal::Obj(ms)).fits(depth),
        ms.len() >= 1,
        ws_only(pad),
        0 <= i,
        i + enc(JVal::Obj(ms), ind, pad).len() <= s.len(),
        s.subrange(i, i + enc(JVal::Obj(ms), ind, pad).len()) == enc(JVal::Obj(ms), ind, pad),
    ensures
        spec_parse_value(s, i, depth) == Ok::<(JVal, int), ParseError>(
            (JVal::Obj(ms), i + enc(JVal::Obj(ms), ind, pad).len()),
        ),
    decreases ms, 1int,
{
    let v = JVal::Obj(ms);
    let ev = enc(v, ind, pad);
    let lv = ev.len() as int;
    assert forall|k: int| 0 <= k < lv implies s[i + k] == ev[k] by {
        assert(s.subrange(i, i + lv)[k] == s[i + k]);
    }
    assert(depth >= 1);
    {

        let cpad = pad + spaces(ind);
        assert(ws_only(cpad)) by {
            assert forall|k: int| 0 <= k < cpad.len() implies is_ws(#[trigger] cpad[k])
                by {
                if k >= pad.len() {
                    assert(cpad[k] == ' ');
                }
            }
        }
        lemma_members_bridge(ms, ind, cpad, pad);
        let a = nl(ind, cpad);
        let t = members_text(ms, ind, cpad, pad);
        assert(ev =~= seq!['{'] + (enc_members(ms, ind, cpad) + nl(ind, pad) + seq!['}']));
        assert(ev == seq!['{'] + (a + t));
        lemma_peel(s, i, seq!['{'], a + t);
        lemma_peel(s, i + 1, a, t);
        assert(ev[0] == '{');
        assert(s[i + 0] == '{');
        let j = i + 1 + a.len() as int;
        assert(t[0] == quoted(ms[0].0)[0]);
        assert(t[0] == '"');
        assert(s.subrange(j, i + lv)[0] == s[j]);
        assert(s[j] == '"');
        assert forall|k: int| i + 1 <= k < j implies is_ws(#[trigger] s[k]) by {
            assert(s.subrange(i + 1, j)[k - (i + 1)] == s[k]);
            assert(a[k - (i + 1)] == s[k]);
            if k == i + 1 {
                assert(a[0] == '\n');
            } else {
                assert(a[k - (i + 1)] == cpad[k - (i + 2)]);
            }
        }
        lemma_skip_ws_window(s, i + 1, j);
        assert(Seq::<(Seq<char>, JVal)>::empty() + ms =~= ms);
        lemma_parse_members_enc(
            ms,
            ind,
            cpad,
            pad,
            s,
            j,
            depth - 1,
            Seq::<(Seq<char>, JVal)>::empty(),
        );
        assert(v == JVal::Obj(ms));
    }
}

/// Parsing the encoded items of a nonempty array from the first item onward
/// appends exactly those items and stops just past the closing bracket.
#[verifier::rlimit(100)]
proof fn lemma_parse_items_enc(
    es: Seq<JVal>,
    ind: nat,
    cpad: Seq<char>,
    pad: Seq<char>,
    s: Seq<char>,
    i: int,
    depth: int,
    acc: Seq<JVal>,
)
    requires
        es.len() >= 1,
        forall|k: int| 0 <= k < es.len() ==> (#[trigger] es[k]).wf() && es[k].fits(depth),
        ws_only(pad),
        cpad == pad + spaces(ind),
        0 <= i,
        i + items_text(es, ind, cpad, pad).len() <= s.len(),
        s.subrange(i, i + items_text(es, ind, cpad, pad).len()) == items_text(es, ind, cpad, pad),
    ensures
        spec_parse_items(s, i, depth, acc) == Ok::<(JVal, int), ParseError>(
            (JVal::Arr(acc + es), i + items_text(es, ind, cpad, pad).len()),
        ),
    decreases es, 0int,
{
    let t = items_text(es, ind, cpad, pad);
    let e0 = enc(es[0], ind, cpad);
    assert(es[0].wf() && es[0].fits(depth));
    lemma_enc_first(es[0], ind, cpad);
    assert(ws_only(cpad)) by {
        assert forall|k: int| 0 <= k < cpad.len() implies is_ws(#[trigger] cpad[k]) by {
            if k >= pad.len() {
                assert(cpad[k] == ' ');
            }
        }
    }
    if es.len() == 1 {
        let z = nl(ind, pad) + seq![']'];
        assert(t == e0 + z);
        lemma_peel(s, i, e0, z);
        assert forall|k: int| 0 <= k < z.len() implies s[i + e0.len() + k] == z[k] by {
            assert(s.subrange(i + e0.len(), i + e0.len() + z.len())[k] == s[i + e0.len() + k]);
        }
        assert(stopper(s, i + e0.len() as int)) by {
            assert(s[i + e0.len() + 0] == z[0]);
            if ind == 0 {
                assert(z[0] == ']');
            } else {
                assert(z[0] == '\n');
            }
        }
        lemma_parse_enc(es[0], ind, cpad, s, i, depth);
        let j = i + e0.len() + nl(ind, pad).len() as int;
        assert forall|k: int| i + e0.len() <= k < j implies is_ws(#[trigger] s[k]) by {
            assert(s[i + e0.len() + (k - i - e0.len())] == z[k - i - e0.len()]);
            if k == i + e0.len() {
                assert(z[0] == '\n');
            } else {
                assert(z[k - i - e0.len()] == pad[k - i - e0.len() - 1]);
            }
        }
        assert(s[i + e0.len() + (j - i - e0.len())] == z[j - i - e0.len()]);
        assert(s[j] == ']');
        assert(!is_ws(']'));
        lemma_skip_ws_window(s, i + e0.len() as int, j);
        assert(acc.push(es[0]) =~= acc + es);
        assert(j + 1 == i + t.len());
    } else {
        let df = es.drop_first();
        let a = nl(ind, cpad);
        let rest = seq![','] + a + items_text(df, ind, cpad, pad);
        assert(t == e0 + rest);
        lemma_peel(s, i, e0, rest);
        assert forall|k: int| 0 <= k < rest.len() implies s[i + e0.len() + k] == rest[k] by {
            assert(s.subrange(i + e0.len(), i + e0.len() + rest.len())[k] == s[i + e0.len() + k]);
        }
        assert(rest[0] == ',');
        assert(s[i + e0.len() + 0] == ',');
        assert(stopper(s, i + e0.len() as int));
        lemma_parse_enc(es[0], ind, cpad, s, i, depth);
        let kpos = i + e0.len() as int;
        assert(!is_ws(','));
        lemma_skip_ws_window(s, kpos, kpos);
        let m = kpos + 1 + a.len() as int;
        assert(df[0] == es[1]);
        assert(df[0].wf() && df[0].fits(depth));
        lemma_enc_first(df[0], ind, cpad);
        assert(items_text(df, ind, cpad, pad)[0] == enc(df[0], ind, cpad)[0]);
        assert(s[i + e0.len() + (m - kpos)] == rest[m - kpos]);
        assert(rest[m - kpos] == items_text(df, ind, cpad, pad)[0]);
        assert forall|k: int| kpos + 1 <= k < m implies is_ws(#[trigger] s[k]) by {
            assert(s[i + e0.len() + (k - kpos)] == rest[k - kpos]);
            if k == kpos + 1 {
                assert(rest[1] == '\n');
            } else {
                assert(rest[k - kpos] == cpad[k - kpos - 2]);
            }
        }
        lemma_skip_ws_window(s, kpos + 1, m);
        assert forall|q: int| 0 <= q < items_text(df, ind, cpad, pad).len() implies s[m + q]
            == items_text(df, ind, cpad, pad)[q] by {
            assert(s[i + e0.len() + (m - kpos + q)] == rest[m - kpos + q]);
            assert(rest[m - kpos + q] == items_text(df, ind, cpad, pad)[q]);
        }
        assert(s.subrange(m, i + t.len()) =~= items_text(df, ind, cpad, pad));
        assert forall|k: int| 0 <= k < df.len() implies (#[trigger] df[k]).wf() && df[k].fits(
            depth,
        ) by {
            assert(df[k] == es[k + 1]);
        }
        lemma_parse_items_enc(df, ind, cpad, pad, s, m, depth, acc.push(es[0]));
        assert(acc.push(es[0]) + df =~= acc + es);
        assert(m + items_text(df, ind, cpad, pad).len() == i + t.len());
    }
}

/// Parsing the encoded members of a nonempty object from the first key
/// onward appends exactly those members and stops just past the closing
/// brace.
#[verifier::rlimit(100)]
proof fn lemma_parse_members_enc(
    ms: Seq<(Seq<char>, JVal)>,
    ind: nat,
    cpad: Seq<char>,
    pad: Seq<char>,
    s: Seq<char>,
    i: int,
    depth: int,
    acc: Seq<(Seq<char>, JVal)>,
)
    requires
        ms.len() >= 1,
        forall|k: int| 0 <= k < ms.len() ==> (#[trigger] ms[k]).1.wf() && ms[k].1.fits(depth),
        unique_keys(acc + ms),
        ws_only(pad),
        cpad == pad + spaces(ind),
        0 <= i,
        i + members_text(ms, ind, cpad, pad).len() <= s.len(),
        s.subrange(i, i + members_text(ms, ind, cpad, pad).len()) == members_text(
            ms,
            ind,
            cpad,
            pad,
        ),
    ensures
        spec_parse_members(s, i, depth, acc) == Ok::<(JVal, int), ParseError>(
            (JVal::Obj(acc + ms), i + members_text(ms, ind, cpad, pad).len()),
        ),
    decreases ms, 0int,
{
    let t = members_text(ms, ind, cpad, pad);
    let key = ms[0].0;
    let q0 = quoted(key);
    let e0 = enc(ms[0].1, ind, cpad);
    let head = q0 + colon(ind) + e0;
    assert(ms[0].1.wf() && ms[0].1.fits(depth));
    lemma_enc_first(ms[0].1, ind, cpad);
    assert(ws_only(cpad)) by {
        assert forall|k: int| 0 <= k < cpad.len() implies is_ws(#[trigger] cpad[k]) by {
            if k >= pad.len() {
                assert(cpad[k] == ' ');
            }
        }
    }
    let z = if ms.len() == 1 {
        nl(ind, pad) + seq!['}']
    } else {
        seq![','] + nl(ind, cpad) + members_text(ms.drop_first(), ind, cpad, pad)
    };
    assert(t =~= head + z);
    lemma_peel(s, i, head, z);
    assert forall|k: int| 0 <= k < head.len() implies s[i + k] == head[k] by {
        assert(s.subrange(i, i + head.len())[k] == s[i + k]);
    }
    assert forall|k: int| 0 <= k < z.len() implies s[i + head.len() + k] == z[k] by {
        assert(s.subrange(i + head.len(), i + head.len() + z.len())[k] == s[i + head.len() + k]);
    }
    // the key string
    assert(head[0] == q0[0]);
    assert(s[i + 0] == '"');
    assert(q0 =~= seq!['"'] + esc_str(key) + seq!['"']);
    assert forall|k: int| 0 <= k < esc_str(key).len() implies s[i + 1 + k] == esc_str(key)[k] by {
        assert(head[1 + k] == q0[1 + k]);
        assert(s[i + (1 + k)] == head[1 + k]);
    }
    assert(s.subrange(i + 1, i + 1 + esc_str(key).len()) =~= esc_str(key));
    assert(s[i + (1 + esc_str(key).len())] == head[1 + esc_str(key).len() as int]);
    assert(head[1 + esc_str(key).len() as int] == q0[1 + esc_str(key).len() as int]);
    assert(s[i + 1 + esc_str(key).len()] == '"');
    lemma_parse_esc(key, s, i + 1, Seq::empty());
    assert(Seq::empty() + key =~= key);
    let pk = i + q0.len() as int;
    // the colon
    assert(s[i + (pk - i)] == head[pk - i]);
    assert(head[pk - i] == colon(ind)[0]);
    assert(s[pk] == ':');
    assert(!is_ws(':'));
    lemma_skip_ws_window(s, pk, pk);
    // the member's value
    let m = pk + colon(ind).len() as int;
    assert forall|k: int| pk + 1 <= k < m implies is_ws(#[trigger] s[k]) by {
        assert(s[i + (k - i)] == head[k - i]);
        assert(head[k - i] == colon(ind)[k - pk]);
        assert(colon(ind)[1] == ' ');
    }
    assert(s[i + (m - i)] == head[m - i]);
    assert(head[m - i] == e0[0]);
    assert(!is_ws(s[m]));
    let p2 = m + e0.len() as int;
    lemma_skip_ws_window(s, pk + 1, m);
    assert(p2 == i + head.len());
    assert forall|q: int| 0 <= q < e0.len() implies s[m + q] == e0[q] by {
        assert(s[i + (m - i + q)] == head[m - i + q]);
        assert(head[m - i + q] == e0[q]);
    }
    assert(s.subrange(m, m + e0.len()) =~= e0);
    assert(stopper(s, m + e0.len())) by {
        assert(s[i + head.len() + 0] == z[0]);
        if ms.len() == 1 {
            if ind == 0 {
                assert(z[0] == '}');
            } else {
                assert(z[0] == '\n');
            }
        } else {
            assert(z[0] == ',');
        }
    }
    lemma_parse_enc(ms[0].1, ind, cpad, s, m, depth);
    // the accumulated members
    assert(!(exists|k: int| 0 <= k < acc.len() && acc[k].0 == key)) by {
        if exists|k: int| 0 <= k < acc.len() && acc[k].0 == key {
            let k0 = choose|k: int| 0 <= k < acc.len() && acc[k].0 == key;
            assert((acc + ms)[k0].0 == key);
            assert((acc + ms)[acc.len() as int].0 == key);
        }
    }
    assert(upsert(acc, key, ms[0].1) == acc.push((key, ms[0].1)));
    assert((key, ms[0].1) == ms[0]);
    let acc2 = acc.push(ms[0]);
    assert(upsert(acc, key, ms[0].1) == acc2);
    if ms.len() == 1 {
        let j = p2 + nl(ind, pad).len() as int;
        assert forall|k: int| p2 <= k < j implies is_ws(#[trigger] s[k]) by {
            assert(s[i + head.len() + (k - p2)] == z[k - p2]);
            if k == p2 {
                assert(z[0] == '\n');
            } else {
                assert(z[k - p2] == pad[k - p2 - 1]);
            }
        }
        assert(s[i + head.len() + (j - p2)] == z[j - p2]);
        assert(s[j] == '}');
        assert(!is_ws('}'));
        lemma_skip_ws_window(s, p2, j);
        assert(acc2 =~= acc + ms);
        assert(j + 1 == i + t.len());
    } else {
        let df = ms.drop_first();
        assert(z[0] == ',');
        assert(s[i + head.len() + 0] == ',');
        assert(s[p2] == ',');
        assert(!is_ws(','));
        lemma_skip_ws_window(s, p2, p2);
        let a = nl(ind, cpad);
        let r = p2 + 1 + a.len() as int;
        assert forall|k: int| p2 + 1 <= k < r implies is_ws(#[trigger] s[k]) by {
            assert(s[i + head.len() + (k - p2)] == z[k - p2]);
            if k == p2 + 1 {
                assert(z[1] == '\n');
            } else {
                assert(z[k - p2] == cpad[k - p2 - 2]);
            }
        }
        assert(s[i + head.len() + (r - p2)] == z[r - p2]);
        assert(z[r - p2] == members_text(df, ind, cpad, pad)[0]);
        assert(members_text(df, ind, cpad, pad)[0] == quoted(df[0].0)[0]);
        assert(s[r] == '"');
        assert(!is_ws('"'));
        lemma_skip_ws_window(s, p2 + 1, r);
        assert forall|q: int| 0 <= q < members_text(df, ind, cpad, pad).len() implies s[r + q]
            == members_text(df, ind, cpad, pad)[q] by {
            assert(s[i + head.len() + (r - p2 + q)] == z[r - p2 + q]);
            assert(z[r - p2 + q] == members_text(df, ind, cpad, pad)[q]);
        }
        assert(s.subrange(r, i + t.len()) =~= members_text(df, ind, cpad, pad));
        assert forall|k: int| 0 <= k < df.len() implies (#[trigger] df[k]).1.wf()
            && df[k].1.fits(depth) by {
            assert(df[k] == ms[k + 1]);
        }
        assert(acc2 + df =~= acc + ms);
        lemma_parse_members_enc(df, ind, cpad, pad, s, r, depth, acc2);
        assert(r + members_text(df, ind, cpad, pad).len() == i + t.len());
    }
}

/// Law: decoding the encoding of a well-formed value gives exactly that
/// value back, whatever the indent width, provided the value nests within
/// the decoder's budget.
pub proof fn lemma_decode_encode(v: JVal, ind: nat)
    requires
        v.wf(),
        v.fits(MAX_DEPTH as int),
    ensures
        spec_decode(enc(v, ind, Seq::<char>::empty()), MAX_DEPTH as int) == Ok::<
            JVal,
            ParseError,
        >(v),
{
    let s = enc(v, ind, Seq::<char>::empty());
    lemma_enc_first(v, ind, Seq::<char>::empty());
    lemma_skip_ws_window(s, 0, 0);
    assert(s.subrange(0, s.len() as int) =~= s);
    assert(stopper(s, s.len() as int));
    lemma_parse_enc(v, ind, Seq::<char>::empty(), s, 0, MAX_DEPTH as int);
    lemma_skip_ws_window(s, s.len() as int, s.len() as int);
}

/// Law: encoding is idempotent across a decode: decoding an encoded value
/// and encoding the result reproduces the same text, for the same options.
pub proof fn lemma_encode_idempotent(v: JVal, ind: nat)
    requires
        v.wf(),
        v.fits(MAX_DEPTH as int),
    ensures
        spec_decode(enc(v, ind, Seq::<char>::empty()), MAX_DEPTH as int) matches Ok(w) && enc(
            w,
            ind,
            Seq::<char>::empty(),
        ) == enc(v, ind, Seq::<char>::empty()),
{
    lemma_decode_encode(v, ind);
}

} // verus!



