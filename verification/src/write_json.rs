//! Rendering JSON values as text.
//!
//! The compact form puts no whitespace between tokens; the pretty form
//! indents nested containers by two spaces and puts every entry on its own
//! line. Object fields keep their insertion order. A double is rendered with
//! the fewest significant digits that still read back as the same double;
//! a non-finite double (which JSON cannot carry) is rendered as `null`.

use vstd::prelude::*;
use vstd::string::StrSliceExecFns;

use crate::float_ops::{
    f64_digits, f64_of_text, format_bits, is_finite_bits, parse_bits, spec_is_finite_bits,
};
use crate::json_value::{JsonVal, JsonValue, NumberVal, arr_view, jv, obj_view};

verus! {

broadcast use vstd::seq::group_seq_axioms, vstd::std_specs::vec::group_vec_axioms;

/// Relies on std's `FromIterator<char>` for `String`: collecting characters
/// concatenates them in order.
#[verifier::external_body]
pub fn chars_to_string(v: &Vec<char>) -> (r: String)
    ensures
        r@ == v@,
{
    v.iter().collect()
}

/// The characters of a text, one by one.
pub fn str_to_chars(s: &str) -> (r: Vec<char>)
    ensures
        r@ == s@,
{
    let n = s.unicode_len();
    let mut out: Vec<char> = Vec::new();
    let mut k: usize = 0;
    while k < n
        invariant
            k <= n,
            n == s@.len(),
            out@ == s@.take(k as int),
        decreases n - k,
    {
        let c = s.get_char(k);
        out.push(c);
        k = k + 1;
        proof {
            assert(out@ =~= s@.take(k as int));
        }
    }
    proof {
        assert(s@.take(n as int) =~= s@);
    }
    out
}

/// The character of a decimal digit.
pub open spec fn digit_char(d: int) -> char {
    if d == 0 {
        '0'
    } else if d == 1 {
        '1'
    } else if d == 2 {
        '2'
    } else if d == 3 {
        '3'
    } else if d == 4 {
        '4'
    } else if d == 5 {
        '5'
    } else if d == 6 {
        '6'
    } else if d == 7 {
        '7'
    } else if d == 8 {
        '8'
    } else {
        '9'
    }
}

/// The decimal digits of a non-negative number, most significant first.
pub open spec fn dec_digits(n: nat) -> Seq<char>
    decreases n,
{
    if n < 10 {
        seq![digit_char(n as int)]
    } else {
        dec_digits(n / 10).push(digit_char((n % 10) as int))
    }
}

/// The decimal rendering of a signed number: a minus sign, then the digits
/// of its magnitude.
pub open spec fn int_digits(i: int) -> Seq<char> {
    if i < 0 {
        seq!['-'] + dec_digits((-i) as nat)
    } else {
        dec_digits(i as nat)
    }
}

/// Append the decimal digits of `n`.
pub fn push_u64_digits(out: &mut Vec<char>, n: u64)
    ensures
        final(out)@ == old(out)@ + dec_digits(n as nat),
    decreases n,
{
    if n < 10 {
        let c = match n {
            0 => '0',
            1 => '1',
            2 => '2',
            3 => '3',
            4 => '4',
            5 => '5',
            6 => '6',
            7 => '7',
            8 => '8',
            _ => '9',
        };
        out.push(c);
        proof {
            assert(final(out)@ =~= old(out)@ + dec_digits(n as nat));
        }
    } else {
        proof {
            assert(n / 10 < n && n % 10 < 10) by (nonlinear_arith)
                requires
                    n >= 10,
            ;
        }
        push_u64_digits(out, n / 10);
        let d = n % 10;
        let c = match d {
            0 => '0',
            1 => '1',
            2 => '2',
            3 => '3',
            4 => '4',
            5 => '5',
            6 => '6',
            7 => '7',
            8 => '8',
            _ => '9',
        };
        out.push(c);
        proof {
            assert(final(out)@ =~= old(out)@ + dec_digits(n as nat));
        }
    }
}

/// Append the decimal rendering of a signed integer.
pub fn push_i64_digits(out: &mut Vec<char>, i: i64)
    ensures
        final(out)@ == old(out)@ + int_digits(i as int),
{
    if i < 0 {
        out.push('-');
        let mag: u64 = if i == i64::MIN {
            9223372036854775808u64
        } else {
            (-i) as u64
        };
        proof {
            assert(mag as nat == (-(i as int)) as nat);
        }
        push_u64_digits(out, mag);
        proof {
            assert(final(out)@ =~= old(out)@ + int_digits(i as int));
        }
    } else {
        push_u64_digits(out, i as u64);
    }
}

/// The fewest-significant-digits rendering of a finite double that converts
/// back to the same double, found by widening the precision one digit at a
/// time; seventeen digits always round-trip a double.
pub open spec fn shortest_digits(bits: u64, p: usize) -> Seq<char>
    decreases 17 - p,
{
    if p >= 17 {
        f64_digits(bits, 17)
    } else if f64_of_text(f64_digits(bits, p)) == Some(bits) {
        f64_digits(bits, p)
    } else {
        shortest_digits(bits, (p + 1) as usize)
    }
}

/// Whether a rendered number already shows that it is not an integer.
pub open spec fn has_float_mark(s: Seq<char>) -> bool {
    exists|i: int| 0 <= i < s.len() && (s[i] == '.' || s[i] == 'e' || s[i] == 'E')
}

/// A decimal point marks a whole-number double, so that the text still reads
/// back as a double.
pub open spec fn with_float_mark(s: Seq<char>) -> Seq<char> {
    if has_float_mark(s) {
        s
    } else {
        s + seq!['.', '0']
    }
}

/// The JSON rendering of a double: its shortest round-tripping digits, with
/// a decimal point forced in; `null` when the double is not finite.
pub open spec fn float_json(bits: u64) -> Seq<char> {
    if spec_is_finite_bits(bits) {
        with_float_mark(shortest_digits(bits, 1))
    } else {
        seq!['n', 'u', 'l', 'l']
    }
}

/// The shortest round-tripping digits of a finite double.
fn shortest_digits_exec(bits: u64, p: usize) -> (r: Vec<char>)
    requires
        1 <= p <= 17,
    ensures
        r@ == shortest_digits(bits, p),
    decreases 17 - p,
{
    if p >= 17 {
        format_bits(bits, 17)
    } else {
        let digits = format_bits(bits, p);
        let back = parse_bits(&digits);
        let round_trips = match back {
            Some(b) => b == bits,
            None => false,
        };
        if round_trips {
            digits
        } else {
            shortest_digits_exec(bits, p + 1)
        }
    }
}

/// Append the JSON rendering of a double.
pub fn push_float_json(out: &mut Vec<char>, bits: u64)
    ensures
        final(out)@ == old(out)@ + float_json(bits),
{
    if !is_finite_bits(bits) {
        out.push('n');
        out.push('u');
        out.push('l');
        out.push('l');
        proof {
            assert(final(out)@ =~= old(out)@ + float_json(bits));
        }
        return ;
    }
    let digits = shortest_digits_exec(bits, 1);
    let mut marked = false;
    let mut k: usize = 0;
    while k < digits.len()
        invariant
            k <= digits.len(),
            marked == exists|i: int|
                0 <= i < k && (digits@[i] == '.' || digits@[i] == 'e' || digits@[i] == 'E'),
        decreases digits.len() - k,
    {
        let c = digits[k];
        if c == '.' || c == 'e' || c == 'E' {
            marked = true;
        }
        k = k + 1;
    }
    let mut k: usize = 0;
    while k < digits.len()
        invariant
            k <= digits.len(),
            out@ == old(out)@ + digits@.take(k as int),
        decreases digits.len() - k,
    {
        out.push(digits[k]);
        k = k + 1;
        proof {
            assert(out@ =~= old(out)@ + digits@.take(k as int));
        }
    }
    proof {
        assert(digits@.take(digits@.len() as int) =~= digits@);
    }
    if !marked {
        out.push('.');
        out.push('0');
        proof {
            assert(out@ =~= old(out)@ + (digits@ + seq!['.', '0']));
        }
    }
}

/// The JSON rendering of a number.
pub open spec fn number_json(n: NumberVal) -> Seq<char> {
    match n {
        NumberVal::Integer(i) => int_digits(i as int),
        NumberVal::Float(bits) => float_json(bits),
    }
}

/// Append the JSON rendering of a number.
pub fn push_number_json(out: &mut Vec<char>, n: NumberVal)
    ensures
        final(out)@ == old(out)@ + number_json(n),
{
    match n {
        NumberVal::Integer(i) => push_i64_digits(out, i),
        NumberVal::Float(bits) => push_float_json(out, bits),
    }
}

/// The character of a hexadecimal digit.
pub open spec fn hex_char(d: int) -> char {
    if d < 10 {
        digit_char(d)
    } else if d == 10 {
        'a'
    } else if d == 11 {
        'b'
    } else if d == 12 {
        'c'
    } else if d == 13 {
        'd'
    } else if d == 14 {
        'e'
    } else {
        'f'
    }
}

/// How one character is written inside a JSON string literal: quotes and
/// backslashes are escaped, the named control characters take their short
/// escapes, any other control character its `\u00..` escape, and everything
/// else stands as itself.
pub open spec fn escape_char(c: char) -> Seq<char> {
    if c == '"' {
        seq!['\\', '"']
    } else if c == '\\' {
        seq!['\\', '\\']
    } else if c == '\u{8}' {
        seq!['\\', 'b']
    } else if c == '\t' {
        seq!['\\', 't']
    } else if c == '\n' {
        seq!['\\', 'n']
    } else if c == '\u{c}' {
        seq!['\\', 'f']
    } else if c == '\r' {
        seq!['\\', 'r']
    } else if (c as u32) < 32 {
        seq!['\\', 'u', '0', '0', hex_char(c as u32 as int / 16), hex_char(c as u32 as int % 16)]
    } else {
        seq![c]
    }
}

/// A text with every character escaped for a JSON string literal.
pub open spec fn escape_str(s: Seq<char>) -> Seq<char>
    decreases s.len(),
{
    if s.len() == 0 {
        Seq::empty()
    } else {
        escape_str(s.drop_last()) + escape_char(s.last())
    }
}

/// Append one character, escaped for a JSON string literal.
fn push_escape_char(out: &mut Vec<char>, c: char)
    ensures
        final(out)@ == old(out)@ + escape_char(c),
{
    if c == '"' {
        out.push('\\');
        out.push('"');
    } else if c == '\\' {
        out.push('\\');
        out.push('\\');
    } else if c == '\u{8}' {
        out.push('\\');
        out.push('b');
    } else if c == '\t' {
        out.push('\\');
        out.push('t');
    } else if c == '\n' {
        out.push('\\');
        out.push('n');
    } else if c == '\u{c}' {
        out.push('\\');
        out.push('f');
    } else if c == '\r' {
        out.push('\\');
        out.push('r');
    } else {
        let u = c as u32;
        if u < 32 {
            out.push('\\');
            out.push('u');
            out.push('0');
            out.push('0');
            let hi = match u / 16 {
                0 => '0',
                _ => '1',
            };
            out.push(hi);
            let lo = u % 16;
            let lo_char = match lo {
                0 => '0',
                1 => '1',
                2 => '2',
                3 => '3',
                4 => '4',
                5 => '5',
                6 => '6',
                7 => '7',
                8 => '8',
                9 => '9',
                10 => 'a',
                11 => 'b',
                12 => 'c',
                13 => 'd',
                14 => 'e',
                _ => 'f',
            };
            out.push(lo_char);
        } else {
            out.push(c);
        }
    }
    proof {
        assert(final(out)@ =~= old(out)@ + escape_char(c));
    }
}

/// Append a text, escaped for a JSON string literal.
fn push_escaped(out: &mut Vec<char>, s: &String)
    ensures
        final(out)@ == old(out)@ + escape_str(s@),
{
    let chars = str_to_chars(s.as_str());
    let mut k: usize = 0;
    while k < chars.len()
        invariant
            k <= chars.len(),
            chars@ == s@,
            out@ == old(out)@ + escape_str(s@.take(k as int)),
        decreases chars.len() - k,
    {
        push_escape_char(out, chars[k]);
        k = k + 1;
        proof {
            assert(s@.take(k as int).drop_last() =~= s@.take(k - 1));
            assert(s@.take(k as int).last() == s@[k - 1]);
        }
    }
    proof {
        assert(s@.take(s@.len() as int) =~= s@);
    }
}

/// The compact JSON text of a value: no whitespace between tokens, fields in
/// insertion order.
pub open spec fn compact(v: JsonVal) -> Seq<char>
    decreases v,
{
    match v {
        JsonVal::Null => seq!['n', 'u', 'l', 'l'],
        JsonVal::Boolean(b) => if b {
            seq!['t', 'r', 'u', 'e']
        } else {
            seq!['f', 'a', 'l', 's', 'e']
        },
        JsonVal::String(s) => seq!['"'] + escape_str(s) + seq!['"'],
        JsonVal::Number(n) => number_json(n),
        JsonVal::Object(fields) => seq!['{'] + compact_fields(fields) + seq!['}'],
        JsonVal::Array(elems) => seq!['['] + compact_elems(elems) + seq![']'],
    }
}

/// One field of an object in compact form.
pub open spec fn compact_field(f: (Seq<char>, JsonVal)) -> Seq<char>
    decreases f,
{
    seq!['"'] + escape_str(f.0) + seq!['"', ':'] + compact(f.1)
}

/// The fields of an object in compact form, comma-separated.
pub open spec fn compact_fields(fields: Seq<(Seq<char>, JsonVal)>) -> Seq<char>
    decreases fields,
{
    if fields.len() == 0 {
        Seq::empty()
    } else if fields.len() == 1 {
        compact_field(fields.last())
    } else {
        compact_fields(fields.drop_last()) + seq![','] + compact_field(fields.last())
    }
}

/// The elements of an array in compact form, comma-separated.
pub open spec fn compact_elems(elems: Seq<JsonVal>) -> Seq<char>
    decreases elems,
{
    if elems.len() == 0 {
        Seq::empty()
    } else if elems.len() == 1 {
        compact(elems.last())
    } else {
        compact_elems(elems.drop_last()) + seq![','] + compact(elems.last())
    }
}

/// Append the compact JSON text of a value.
pub fn push_compact(v: &JsonValue, out: &mut Vec<char>)
    ensures
        final(out)@ == old(out)@ + compact(v@),
    decreases *v,
{
    match v {
        JsonValue::Null => {
            out.push('n');
            out.push('u');
            out.push('l');
            out.push('l');
            proof {
                assert(final(out)@ =~= old(out)@ + compact(v@));
            }
        },
        JsonValue::Boolean(b) => {
            if *b {
                out.push('t');
                out.push('r');
                out.push('u');
                out.push('e');
            } else {
                out.push('f');
                out.push('a');
                out.push('l');
                out.push('s');
                out.push('e');
            }
            proof {
                assert(final(out)@ =~= old(out)@ + compact(v@));
            }
        },
        JsonValue::String(s) => {
            out.push('"');
            push_escaped(out, s);
            out.push('"');
            proof {
                assert(final(out)@ =~= old(out)@ + compact(v@));
            }
        },
        JsonValue::Number(n) => {
            push_number_json(out, *n);
        },
        JsonValue::Object(fields) => {
            out.push('{');
            let mut k: usize = 0;
            while k < fields.len()
                invariant
                    k <= fields.len(),
                    *v == JsonValue::Object(*fields),
                    out@ == old(out)@ + seq!['{'] + compact_fields(
                        obj_view(fields@).take(k as int),
                    ),
                decreases fields.len() - k,
            {
                proof {
                    assert(decreases_to!(*v => v->Object_0));
                    assert(decreases_to!(v->Object_0 => v->Object_0@));
                    assert(decreases_to!(v->Object_0@ => v->Object_0@[k as int]));
                    assert(decreases_to!(*v => fields@[k as int].1));
                }
                if k > 0 {
                    out.push(',');
                }
                out.push('"');
                push_escaped(out, &fields[k].0);
                out.push('"');
                out.push(':');
                push_compact(&fields[k].1, out);
                k = k + 1;
                proof {
                    let fv = obj_view(fields@);
                    assert(fv.take(k as int).drop_last() =~= fv.take(k - 1));
                    assert(fv.take(k as int).last() == fv[k - 1]);
                    assert(fv[k - 1].0 == fields@[k - 1].0@);
                    assert(fv[k - 1].1 == jv(fields@[k - 1].1));
                    assert(compact_field(fv[k - 1]) == seq!['"'] + escape_str(fv[k - 1].0) + seq![
                        '"',
                        ':',
                    ] + compact(fv[k - 1].1));
                    if k == 1 {
                        assert(compact_fields(fv.take(1)) == compact_field(fv[0]));
                    } else {
                        assert(compact_fields(fv.take(k as int)) == compact_fields(fv.take(k - 1))
                            + seq![','] + compact_field(fv[k - 1]));
                    }
                    assert(out@ =~= old(out)@ + seq!['{'] + compact_fields(fv.take(k as int)));
                }
            }
            out.push('}');
            proof {
                assert(obj_view(fields@).take(fields@.len() as int) =~= obj_view(fields@));
                assert(final(out)@ =~= old(out)@ + compact(v@));
            }
        },
        JsonValue::Array(elems) => {
            out.push('[');
            let mut k: usize = 0;
            while k < elems.len()
                invariant
                    k <= elems.len(),
                    *v == JsonValue::Array(*elems),
                    out@ == old(out)@ + seq!['['] + compact_elems(arr_view(elems@).take(k as int)),
                decreases elems.len() - k,
            {
                proof {
                    assert(decreases_to!(*v => v->Array_0));
                    assert(decreases_to!(v->Array_0 => v->Array_0@));
                    assert(decreases_to!(v->Array_0@ => v->Array_0@[k as int]));
                }
                if k > 0 {
                    out.push(',');
                }
                push_compact(&elems[k], out);
                k = k + 1;
                proof {
                    let ev = arr_view(elems@);
                    assert(ev.take(k as int).drop_last() =~= ev.take(k - 1));
                    assert(ev.take(k as int).last() == ev[k - 1]);
                    assert(out@ =~= old(out)@ + seq!['['] + compact_elems(ev.take(k as int)));
                }
            }
            out.push(']');
            proof {
                assert(arr_view(elems@).take(elems@.len() as int) =~= arr_view(elems@));
                assert(final(out)@ =~= old(out)@ + compact(v@));
            }
        },
    }
}

/// The compact JSON text of a value.
pub fn to_json_string(v: &JsonValue) -> (r: String)
    ensures
        r@ == compact(v@),
{
    let mut out: Vec<char> = Vec::new();
    push_compact(v, &mut out);
    proof {
        assert(out@ =~= compact(v@));
    }
    chars_to_string(&out)
}

/// The pretty JSON text of a value at a given indentation: containers put
/// every entry on its own line, indented two spaces deeper; scalars read as
/// in the compact form.
pub open spec fn pretty(v: JsonVal, pad: Seq<char>) -> Seq<char>
    decreases v,
{
    match v {
        JsonVal::Object(fields) => if fields.len() == 0 {
            seq!['{', '}']
        } else {
            seq!['{'] + pretty_fields(fields, pad + seq![' ', ' ']) + seq!['\n'] + pad + seq!['}']
        },
        JsonVal::Array(elems) => if elems.len() == 0 {
            seq!['[', ']']
        } else {
            seq!['['] + pretty_elems(elems, pad + seq![' ', ' ']) + seq!['\n'] + pad + seq![']']
        },
        _ => compact(v),
    }
}

/// One field of an object in pretty form, on its own line.
pub open spec fn pretty_field(f: (Seq<char>, JsonVal), pad: Seq<char>) -> Seq<char>
    decreases f,
{
    seq!['\n'] + pad + seq!['"'] + escape_str(f.0) + seq!['"', ':', ' '] + pretty(f.1, pad)
}

/// The fields of an object in pretty form, comma-separated.
pub open spec fn pretty_fields(fields: Seq<(Seq<char>, JsonVal)>, pad: Seq<char>) -> Seq<char>
    decreases fields,
{
    if fields.len() == 0 {
        Seq::empty()
    } else if fields.len() == 1 {
        pretty_field(fields.last(), pad)
    } else {
        pretty_fields(fields.drop_last(), pad) + seq![','] + pretty_field(fields.last(), pad)
    }
}

/// The elements of an array in pretty form, each on its own line,
/// comma-separated.
pub open spec fn pretty_elems(elems: Seq<JsonVal>, pad: Seq<char>) -> Seq<char>
    decreases elems,
{
    if elems.len() == 0 {
        Seq::empty()
    } else if elems.len() == 1 {
        seq!['\n'] + pad + pretty(elems.last(), pad)
    } else {
        pretty_elems(elems.drop_last(), pad) + seq![',', '\n'] + pad + pretty(elems.last(), pad)
    }
}

/// Append the indentation characters.
fn push_pad(out: &mut Vec<char>, pad: &Vec<char>)
    ensures
        final(out)@ == old(out)@ + pad@,
{
    let mut k: usize = 0;
    while k < pad.len()
        invariant
            k <= pad.len(),
            out@ == old(out)@ + pad@.take(k as int),
        decreases pad.len() - k,
    {
        out.push(pad[k]);
        k = k + 1;
        proof {
            assert(out@ =~= old(out)@ + pad@.take(k as int));
        }
    }
    proof {
        assert(pad@.take(pad@.len() as int) =~= pad@);
    }
}

/// Append the pretty JSON text of a value; the indentation is restored on
/// return.
pub fn push_pretty(v: &JsonValue, out: &mut Vec<char>, pad: &mut Vec<char>)
    ensures
        final(out)@ == old(out)@ + pretty(v@, old(pad)@),
        final(pad)@ == old(pad)@,
    decreases *v,
{
    match v {
        JsonValue::Object(fields) => {
            if fields.len() == 0 {
                out.push('{');
                out.push('}');
                proof {
                    assert(obj_view(fields@).len() == 0);
                    assert(final(out)@ =~= old(out)@ + pretty(v@, old(pad)@));
                }
                return ;
            }
            out.push('{');
            pad.push(' ');
            pad.push(' ');
            let mut k: usize = 0;
            while k < fields.len()
                invariant
                    1 <= fields.len(),
                    k <= fields.len(),
                    *v == JsonValue::Object(*fields),
                    pad@ == old(pad)@ + seq![' ', ' '],
                    out@ == old(out)@ + seq!['{'] + pretty_fields(
                        obj_view(fields@).take(k as int),
                        pad@,
                    ),
                decreases fields.len() - k,
            {
                proof {
                    assert(decreases_to!(*v => v->Object_0));
                    assert(decreases_to!(v->Object_0 => v->Object_0@));
                    assert(decreases_to!(v->Object_0@ => v->Object_0@[k as int]));
                    assert(decreases_to!(*v => fields@[k as int].1));
                }
                if k > 0 {
                    out.push(',');
                }
                out.push('\n');
                push_pad(out, pad);
                out.push('"');
                push_escaped(out, &fields[k].0);
                out.push('"');
                out.push(':');
                out.push(' ');
                push_pretty(&fields[k].1, out, pad);
                k = k + 1;
                proof {
                    let fv = obj_view(fields@);
                    assert(fv.take(k as int).drop_last() =~= fv.take(k - 1));
                    assert(fv.take(k as int).last() == fv[k - 1]);
                    assert(fv[k - 1].0 == fields@[k - 1].0@);
                    assert(fv[k - 1].1 == jv(fields@[k - 1].1));
                    assert(pretty_field(fv[k - 1], pad@) == seq!['\n'] + pad@ + seq!['"']
                        + escape_str(fv[k - 1].0) + seq!['"', ':', ' '] + pretty(
                        fv[k - 1].1,
                        pad@,
                    ));
                    if k == 1 {
                        assert(pretty_fields(fv.take(1), pad@) == pretty_field(fv[0], pad@));
                    } else {
                        assert(pretty_fields(fv.take(k as int), pad@) == pretty_fields(
                            fv.take(k - 1),
                            pad@,
                        ) + seq![','] + pretty_field(fv[k - 1], pad@));
                    }
                    assert(out@ =~= old(out)@ + seq!['{'] + pretty_fields(
                        fv.take(k as int),
                        pad@,
                    ));
                }
            }
            pad.pop();
            pad.pop();
            proof {
                assert(pad@ =~= old(pad)@);
            }
            out.push('\n');
            push_pad(out, pad);
            out.push('}');
            proof {
                assert(obj_view(fields@).take(fields@.len() as int) =~= obj_view(fields@));
                assert(final(out)@ =~= old(out)@ + pretty(v@, old(pad)@));
            }
        },
        JsonValue::Array(elems) => {
            if elems.len() == 0 {
                out.push('[');
                out.push(']');
                proof {
                    assert(arr_view(elems@).len() == 0);
                    assert(final(out)@ =~= old(out)@ + pretty(v@, old(pad)@));
                }
                return ;
            }
            out.push('[');
            pad.push(' ');
            pad.push(' ');
            let mut k: usize = 0;
            while k < elems.len()
                invariant
                    1 <= elems.len(),
                    k <= elems.len(),
                    *v == JsonValue::Array(*elems),
                    pad@ == old(pad)@ + seq![' ', ' '],
                    out@ == old(out)@ + seq!['['] + pretty_elems(
                        arr_view(elems@).take(k as int),
                        pad@,
                    ),
                decreases elems.len() - k,
            {
                proof {
                    assert(decreases_to!(*v => v->Array_0));
                    assert(decreases_to!(v->Array_0 => v->Array_0@));
                    assert(decreases_to!(v->Array_0@ => v->Array_0@[k as int]));
                }
                if k > 0 {
                    out.push(',');
                }
                out.push('\n');
                push_pad(out, pad);
                push_pretty(&elems[k], out, pad);
                k = k + 1;
                proof {
                    let ev = arr_view(elems@);
                    assert(ev.take(k as int).drop_last() =~= ev.take(k - 1));
                    assert(ev.take(k as int).last() == ev[k - 1]);
                    if k == 1 {
                        assert(pretty_elems(ev.take(1), pad@) == seq!['\n'] + pad@ + pretty(
                            ev[0],
                            pad@,
                        ));
                    } else {
                        assert(pretty_elems(ev.take(k as int), pad@) == pretty_elems(
                            ev.take(k - 1),
                            pad@,
                        ) + seq![',', '\n'] + pad@ + pretty(ev[k - 1], pad@));
                    }
                    assert(out@ =~= old(out)@ + seq!['['] + pretty_elems(ev.take(k as int), pad@));
                }
            }
            pad.pop();
            pad.pop();
            proof {
                assert(pad@ =~= old(pad)@);
            }
            out.push('\n');
            push_pad(out, pad);
            out.push(']');
            proof {
                assert(arr_view(elems@).take(elems@.len() as int) =~= arr_view(elems@));
                assert(final(out)@ =~= old(out)@ + pretty(v@, old(pad)@));
            }
        },
        other => {
            push_compact(other, out);
            proof {
                assert(pretty(v@, old(pad)@) == compact(v@));
            }
        },
    }
}

/// The pretty JSON text of a value, starting at the left margin.
pub fn to_json_string_pretty(v: &JsonValue) -> (r: String)
    ensures
        r@ == pretty(v@, Seq::<char>::empty()),
{
    let mut out: Vec<char> = Vec::new();
    let mut pad: Vec<char> = Vec::new();
    push_pretty(v, &mut out, &mut pad);
    proof {
        assert(out@ =~= pretty(v@, Seq::<char>::empty()));
    }
    chars_to_string(&out)
}

} // verus!
