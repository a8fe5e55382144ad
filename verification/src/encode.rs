//! The encoder: from a [`Value`] tree to text, specified by spec-level
//! encoding functions that fix every character of the output. An indent width
//! of 0 yields the compact form; a positive width yields a pretty-printed
//! form with that many spaces per nesting level.

use vstd::prelude::*;
use vstd::string::StrSliceExecFns;
use crate::value::arr_model;
use crate::value::obj_model;
use crate::value::JVal;
use crate::value::Value;

verus! {

broadcast use vstd::std_specs::vec::axiom_vec_index_decreases;

/// `n` space characters.
pub open spec fn spaces(n: nat) -> Seq<char> {
    Seq::new(n, |k: int| ' ')
}

/// The separator written before an item and before a closing bracket:
/// nothing when compact, otherwise a line feed and the current indentation.
pub open spec fn nl(ind: nat, pad: Seq<char>) -> Seq<char> {
    if ind == 0 {
        Seq::empty()
    } else {
        seq!['\n'] + pad
    }
}

/// The separator written after an object key: `:` when compact, `: `
/// otherwise.
pub open spec fn colon(ind: nat) -> Seq<char> {
    if ind == 0 {
        seq![':']
    } else {
        seq![':', ' ']
    }
}

/// The lower-case hexadecimal digit for `d < 16`.
pub open spec fn hex_char(d: u32) -> char {
    if d < 10 {
        ((48 + d) as u8) as char
    } else {
        ((87 + d) as u8) as char
    }
}

/// How one character is written inside a string: `"` and `\` get a backslash,
/// control characters become `\u00XX`, everything else stands as itself.
pub open spec fn esc_char(c: char) -> Seq<char> {
    if c == '"' {
        seq!['\\', '"']
    } else if c == '\\' {
        seq!['\\', '\\']
    } else if (c as u32) < 32 {
        seq!['\\', 'u', '0', '0', hex_char((c as u32) / 16), hex_char((c as u32) % 16)]
    } else {
        seq![c]
    }
}

/// The body of an encoded string: each character escaped as needed.
pub open spec fn esc_str(cs: Seq<char>) -> Seq<char>
    decreases cs.len(),
{
    if cs.len() == 0 {
        Seq::empty()
    } else {
        esc_str(cs.drop_last()) + esc_char(cs.last())
    }
}

/// An encoded string: the escaped body between two quotes.
pub open spec fn quoted(cs: Seq<char>) -> Seq<char> {
    seq!['"'] + esc_str(cs) + seq!['"']
}

/// The text that encodes `v` with indent width `ind`, when the enclosing
/// lines are indented by `pad` (the top level passes an empty `pad`).
pub open spec fn enc(v: JVal, ind: nat, pad: Seq<char>) -> Seq<char>
    decreases v,
{
    match v {
        JVal::Null => seq!['n', 'u', 'l', 'l'],
        JVal::Bool(b) => if b {
            seq!['t', 'r', 'u', 'e']
        } else {
            seq!['f', 'a', 'l', 's', 'e']
        },
        JVal::Num(t) => t,
        JVal::Str(cs) => quoted(cs),
        JVal::Arr(es) => if es.len() == 0 {
            seq!['[', ']']
        } else {
            seq!['['] + enc_items(es, ind, pad + spaces(ind)) + nl(ind, pad) + seq![']']
        },
        JVal::Obj(ms) => if ms.len() == 0 {
            seq!['{', '}']
        } else {
            seq!['{'] + enc_members(ms, ind, pad + spaces(ind)) + nl(ind, pad) + seq!['}']
        },
    }
}

/// The text that encodes the items of an array, each preceded by the item
/// separator, with `,` between items. `pad` is the items' own indentation.
pub open spec fn enc_items(es: Seq<JVal>, ind: nat, pad: Seq<char>) -> Seq<char>
    decreases es,
{
    if es.len() == 0 {
        Seq::empty()
    } else if es.len() == 1 {
        nl(ind, pad) + enc(es[0], ind, pad)
    } else {
        enc_items(es.drop_last(), ind, pad) + seq![','] + nl(ind, pad) + enc(es.last(), ind, pad)
    }
}

/// The text that encodes the members of an object: quoted key, colon, value,
/// with `,` between members. `pad` is the members' own indentation.
pub open spec fn enc_members(ms: Seq<(Seq<char>, JVal)>, ind: nat, pad: Seq<char>) -> Seq<char>
    decreases ms,
{
    if ms.len() == 0 {
        Seq::empty()
    } else if ms.len() == 1 {
        nl(ind, pad) + quoted(ms[0].0) + colon(ind) + enc(ms[0].1, ind, pad)
    } else {
        enc_members(ms.drop_last(), ind, pad) + seq![','] + nl(ind, pad) + quoted(ms.last().0)
            + colon(ind) + enc(ms.last().1, ind, pad)
    }
}

/// Relies on `String`'s `FromIterator<char>`: collecting characters yields
/// exactly those characters in order.
#[verifier::external_body]
pub(crate) fn chars_to_string(cs: &Vec<char>) -> (r: String)
    ensures
        r@ == cs@,
{
    cs.iter().copied().collect()
}

/// Writes the characters of `t` onto `out`.
fn write_token(t: &str, out: &mut Vec<char>)
    ensures
        final(out)@ == old(out)@ + t@,
{
    let n = t.unicode_len();
    let ghost base = out@;
    let mut i: usize = 0;
    while i < n
        invariant
            i <= n,
            n == t@.len(),
            out@ == base + t@.take(i as int),
        decreases n - i,
    {
        let c = t.get_char(i);
        out.push(c);
        proof {
            assert(t@.take(i + 1) =~= t@.take(i as int).push(t@[i as int]));
            assert(out@ =~= base + t@.take(i + 1));
        }
        i = i + 1;
    }
    proof {
        assert(t@.take(n as int) =~= t@);
    }
}

/// Writes the item separator `nl(ind, pad)` onto `out`.
fn write_nl(ind: usize, pad: &Vec<char>, out: &mut Vec<char>)
    ensures
        final(out)@ == old(out)@ + nl(ind as nat, pad@),
{
    let ghost base = out@;
    if ind > 0 {
        out.push('\n');
        let n = pad.len();
        let mut i: usize = 0;
        while i < n
            invariant
                i <= n,
                n == pad@.len(),
                out@ == base + seq!['\n'] + pad@.take(i as int),
            decreases n - i,
        {
            out.push(pad[i]);
            proof {
                assert(pad@.take(i + 1) =~= pad@.take(i as int).push(pad@[i as int]));
                assert(out@ =~= base + seq!['\n'] + pad@.take(i + 1));
            }
            i = i + 1;
        }
        proof {
            assert(pad@.take(n as int) =~= pad@);
            assert(out@ =~= base + nl(ind as nat, pad@));
        }
    } else {
        proof {
            assert(out@ =~= base + nl(ind as nat, pad@));
        }
    }
}

/// Writes `t` as a quoted, escaped string onto `out`.
fn write_quoted(t: &str, out: &mut Vec<char>)
    ensures
        final(out)@ == old(out)@ + quoted(t@),
{
    let ghost base = out@;
    out.push('"');
    let n = t.unicode_len();
    let mut i: usize = 0;
    while i < n
        invariant
            i <= n,
            n == t@.len(),
            out@ == base + seq!['"'] + esc_str(t@.take(i as int)),
        decreases n - i,
    {
        let c = t.get_char(i);
        let u = c as u32;
        if c == '"' {
            out.push('\\');
            out.push('"');
        } else if c == '\\' {
            out.push('\\');
            out.push('\\');
        } else if u < 32 {
            out.push('\\');
            out.push('u');
            out.push('0');
            out.push('0');
            out.push(((if u / 16 < 10 {
                48 + u / 16
            } else {
                87 + u / 16
            }) as u8) as char);
            out.push(((if u % 16 < 10 {
                48 + u % 16
            } else {
                87 + u % 16
            }) as u8) as char);
        } else {
            out.push(c);
        }
        proof {
            assert(t@.take(i + 1).drop_last() =~= t@.take(i as int));
            assert(t@.take(i + 1).last() == t@[i as int]);
            assert(esc_str(t@.take(i + 1)) == esc_str(t@.take(i as int)) + esc_char(t@[i as int]));
            assert(out@ =~= base + seq!['"'] + esc_str(t@.take(i + 1)));
        }
        i = i + 1;
    }
    out.push('"');
    proof {
        assert(t@.take(n as int) =~= t@);
        assert(out@ =~= base + quoted(t@));
    }
}

/// Writes the encoding of `v` onto `out`, with `pad` the current
/// indentation; `pad` is handed back as it came.
fn encode_into(v: &Value, ind: usize, pad: &mut Vec<char>, out: &mut Vec<char>)
    ensures
        final(pad)@ == old(pad)@,
        final(out)@ == old(out)@ + enc(v@, ind as nat, old(pad)@),
    decreases v,
{
    match v {
        Value::Null => {
            out.push('n');
            out.push('u');
            out.push('l');
            out.push('l');
            proof {
                assert(out@ =~= old(out)@ + enc(v@, ind as nat, old(pad)@));
            }
        },
        Value::Bool(b) => {
            if *b {
                out.push('t');
                out.push('r');
                out.push('u');
                out.push('e');
            } else {
                out.push('f');
                out.push('a');
                out.push('l');
                out.push('s');
                out.push('e');
            }
            proof {
                assert(out@ =~= old(out)@ + enc(v@, ind as nat, old(pad)@));
            }
        },
        Value::Num(t) => {
            write_token(t.as_str(), out);
        },
        Value::Str(t) => {
            write_quoted(t.as_str(), out);
        },
        Value::Arr(es) => {
            proof {
                assert(decreases_to!(*v => *es));
            }
            encode_arr(es, ind, pad, out);
        },
        Value::Obj(ms) => {
            proof {
                assert(decreases_to!(*v => *ms));
            }
            encode_obj(ms, ind, pad, out);
        },
    }
}

/// Pushes `ind` spaces onto `pad`.
fn grow_pad(ind: usize, pad: &mut Vec<char>)
    ensures
        final(pad)@ == old(pad)@ + spaces(ind as nat),
{
    let ghost ppad = pad@;
    let mut k: usize = 0;
    while k < ind
        invariant
            k <= ind,
            pad@ == ppad + spaces(k as nat),
        decreases ind - k,
    {
        pad.push(' ');
        proof {
            assert(pad@ =~= ppad + spaces((k + 1) as nat));
        }
        k = k + 1;
    }
}

/// Writes an array, brackets included, onto `out`.
#[verifier::loop_isolation(false)]
fn encode_arr(es: &Vec<Value>, ind: usize, pad: &mut Vec<char>, out: &mut Vec<char>)
    ensures
        final(pad)@ == old(pad)@,
        final(out)@ == old(out)@ + enc(JVal::Arr(arr_model(*es)), ind as nat, old(pad)@),
    decreases *es,
{
    let ghost vs = arr_model(*es);
    out.push('[');
    if es.len() > 0 {
        let ghost base = out@;
        let plen = pad.len();
        let ghost ppad = pad@;
        grow_pad(ind, pad);
        let ghost cpad = pad@;
        let n = es.len();
        let mut idx: usize = 0;
        while idx < n
            invariant
                idx <= n,
                pad@ == cpad,
                out@ == base + enc_items(vs.take(idx as int), ind as nat, cpad),
            decreases n - idx,
        {
            if idx > 0 {
                out.push(',');
            }
            write_nl(ind, pad, out);
            proof {
                vstd::std_specs::vec::axiom_vec_index_decreases(*es, idx as int);
            }
            encode_into(&es[idx], ind, pad, out);
            proof {
                assert(vs.take(idx + 1).drop_last() =~= vs.take(idx as int));
                assert(vs.take(idx + 1).last() == vs[idx as int]);
                assert(out@ =~= base + enc_items(vs.take(idx + 1), ind as nat, cpad));
            }
            idx = idx + 1;
        }
        pad.truncate(plen);
        proof {
            assert(pad@ =~= ppad);
            assert(vs.take(n as int) =~= vs);
        }
        write_nl(ind, pad, out);
        out.push(']');
        proof {
            assert(out@ =~= old(out)@ + enc(JVal::Arr(vs), ind as nat, old(pad)@));
        }
    } else {
        out.push(']');
        proof {
            assert(out@ =~= old(out)@ + enc(JVal::Arr(vs), ind as nat, old(pad)@));
        }
    }
}

/// Writes an object, braces included, onto `out`.
#[verifier::loop_isolation(false)]
#[verifier::rlimit(100)]
fn encode_obj(ms: &Vec<(String, Value)>, ind: usize, pad: &mut Vec<char>, out: &mut Vec<char>)
    ensures
        final(pad)@ == old(pad)@,
        final(out)@ == old(out)@ + enc(JVal::Obj(obj_model(*ms)), ind as nat, old(pad)@),
    decreases *ms,
{
    let ghost vm = obj_model(*ms);
    out.push('{');
    if ms.len() > 0 {
        let ghost base = out@;
        let plen = pad.len();
        let ghost ppad = pad@;
        grow_pad(ind, pad);
        let ghost cpad = pad@;
        let n = ms.len();
        let mut idx: usize = 0;
        while idx < n
            invariant
                idx <= n,
                pad@ == cpad,
                out@ == base + enc_members(vm.take(idx as int), ind as nat, cpad),
            decreases n - idx,
        {
            if idx > 0 {
                out.push(',');
            }
            write_nl(ind, pad, out);
            let entry = &ms[idx];
            write_quoted(entry.0.as_str(), out);
            out.push(':');
            if ind > 0 {
                out.push(' ');
            }
            proof {
                assert(out@ =~= base + enc_members(vm.take(idx as int), ind as nat, cpad) + (
                if idx == 0 {
                    Seq::<char>::empty()
                } else {
                    seq![',']
                }) + nl(ind as nat, cpad) + quoted(vm[idx as int].0) + colon(ind as nat));
                vstd::std_specs::vec::axiom_vec_index_decreases(*ms, idx as int);
                assert(decreases_to!((*ms)[idx as int] => (*ms)[idx as int].1));
            }
            encode_into(&entry.1, ind, pad, out);
            proof {
                assert(vm.take(idx + 1).drop_last() =~= vm.take(idx as int));
                assert(vm.take(idx + 1).last() == vm[idx as int]);
                assert(out@ =~= base + enc_members(vm.take(idx + 1), ind as nat, cpad));
            }
            idx = idx + 1;
        }
        pad.truncate(plen);
        proof {
            assert(pad@ =~= ppad);
            assert(vm.take(n as int) =~= vm);
        }
        write_nl(ind, pad, out);
        out.push('}');
        proof {
            assert(out@ =~= old(out)@ + enc(JVal::Obj(vm), ind as nat, old(pad)@));
        }
    } else {
        out.push('}');
        proof {
            assert(out@ =~= old(out)@ + enc(JVal::Obj(vm), ind as nat, old(pad)@));
        }
    }
}

/// Encodes `v` as text. `indent` 0 gives the compact form; a positive
/// `indent` pretty-prints with that many spaces per nesting level.
pub fn encode_text(v: &Value, indent: usize) -> (r: String)
    ensures
        r@ == enc(v@, indent as nat, Seq::empty()),
{
    let mut out: Vec<char> = Vec::new();
    let mut pad: Vec<char> = Vec::new();
    encode_into(v, indent, &mut pad, &mut out);
    chars_to_string(&out)
}

} // verus!
