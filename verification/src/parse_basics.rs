//! Lexical building blocks shared by the JSON parsers and the query
//! compiler.
//!
//! Every lexer works on a buffer of characters and a position, returns
//! `None` when the text at that position does not fit its grammar, and on
//! success returns what it read together with the position just past it. The
//! `*_lex` forms also step over the whitespace that follows. Each lexer's
//! contract is an exact spec-level description of its grammar.

use vstd::prelude::*;

use crate::float_ops::{f64_of_text, parse_bits};
use crate::json_value::NumberVal;

verus! {

broadcast use vstd::seq::group_seq_axioms, vstd::std_specs::vec::group_vec_axioms;

/// The longest accepted run of digits before the decimal point. A longer
/// run could not change the nearest double (which tops out near 1.8e308)
/// and is refused, as the grammar demands.
pub const INTEGER_PART_MAX_LENGTH: usize = 308;

/// The longest accepted run of digits after the decimal point: the decimal
/// precision of a double.
pub const FRACTIONAL_PART_MAX_LENGTH: usize = 15;

/// The longest accepted run of exponent digits: a double's decimal exponent
/// has at most three digits.
pub const EXPONENT_MAX_LENGTH: usize = 3;

/// A bound under which no textual rendering of a double is cut off:
/// the three digit runs at their longest, a sign and a decimal point.
pub const NUMBER_MAX_LENGTH: usize = 328;

/// The whitespace the stream tolerates between tokens.
pub open spec fn is_ws(c: char) -> bool {
    c == ' ' || c == '\t' || c == '\n' || c == '\r'
}

/// The first position at or after `i` holding something other than
/// whitespace.
pub open spec fn ws_end(s: Seq<char>, i: int) -> int
    decreases s.len() - i,
{
    if i < 0 || i >= s.len() {
        i
    } else if is_ws(s[i]) {
        ws_end(s, i + 1)
    } else {
        i
    }
}

/// Step over whitespace. Every lexer's `*_lex` form ends with this.
pub fn lex(s: &Vec<char>, i: usize) -> (r: usize)
    requires
        i <= s@.len(),
    ensures
        r == ws_end(s@, i as int),
        i <= r <= s@.len(),
    decreases s@.len() - i,
{
    if i < s.len() {
        let c = s[i];
        if c == ' ' || c == '\t' || c == '\n' || c == '\r' {
            return lex(s, i + 1);
        }
    }
    i
}

/// Whether a character is a decimal digit.
pub open spec fn is_digit(c: char) -> bool {
    48 <= c as u32 <= 57
}

/// The value of a decimal digit.
pub open spec fn digit_val(c: char) -> int {
    c as u32 - 48
}

/// The first position at or after `i` holding something other than a digit.
pub open spec fn digits_end(s: Seq<char>, i: int) -> int
    decreases s.len() - i,
{
    if i < 0 || i >= s.len() {
        i
    } else if is_digit(s[i]) {
        digits_end(s, i + 1)
    } else {
        i
    }
}

/// Step over digits.
fn scan_digits(s: &Vec<char>, i: usize) -> (r: usize)
    requires
        i <= s@.len(),
    ensures
        r == digits_end(s@, i as int),
        i <= r <= s@.len(),
    decreases s@.len() - i,
{
    if i < s.len() {
        let c = s[i];
        let u = c as u32;
        if 48 <= u && u <= 57 {
            return scan_digits(s, i + 1);
        }
    }
    i
}

/// The number the digits `s[i..j)` spell out.
pub open spec fn dec_val(s: Seq<char>, i: int, j: int) -> int
    decreases j - i,
{
    if i >= j {
        0
    } else {
        dec_val(s, i, j - 1) * 10 + digit_val(s[j - 1])
    }
}

/// A longer run of digits never spells a smaller number.
proof fn lemma_dec_val_grows(s: Seq<char>, i: int, j: int, j2: int)
    requires
        i <= j <= j2,
        forall|k: int| i <= k < j2 && k < s.len() ==> is_digit(#[trigger] s[k]),
        j2 <= s.len(),
        dec_val(s, i, j) >= 0,
    ensures
        dec_val(s, i, j2) >= dec_val(s, i, j),
        dec_val(s, i, j2) >= 0,
    decreases j2 - j,
{
    if j2 > j {
        lemma_dec_val_grows(s, i, j, j2 - 1);
        assert(dec_val(s, i, j2) == dec_val(s, i, j2 - 1) * 10 + digit_val(s[j2 - 1]));
        assert(dec_val(s, i, j2 - 1) * 10 >= dec_val(s, i, j2 - 1)) by (nonlinear_arith)
            requires
                dec_val(s, i, j2 - 1) >= 0,
        ;
    }
}

/// Read the number a run of digits spells, or find that it overflows.
/// Returns the value (`None` on overflow past `u64`) and the end of the run.
fn scan_dec_val(s: &Vec<char>, i: usize) -> (r: (Option<u64>, usize))
    requires
        i <= s@.len(),
    ensures
        r.1 == digits_end(s@, i as int),
        i <= r.1 <= s@.len(),
        match r.0 {
            Some(v) => v as int == dec_val(s@, i as int, r.1 as int),
            None => dec_val(s@, i as int, r.1 as int) > u64::MAX,
        },
{
    let end = scan_digits(s, i);
    let mut k: usize = i;
    let mut acc: u64 = 0;
    proof {
        assert forall|m: int| i <= m < end ==> is_digit(#[trigger] s@[m]) by {
            lemma_digits_are_digits(s@, i as int, end as int);
        }
    }
    while k < end
        invariant
            i <= k <= end <= s@.len(),
            end == digits_end(s@, i as int),
            forall|m: int| i <= m < end ==> is_digit(#[trigger] s@[m]),
            acc as int == dec_val(s@, i as int, k as int),
        decreases end - k,
    {
        let d = (s[k] as u32) - 48;
        let step_ok = acc <= (u64::MAX - d as u64) / 10;
        if !step_ok {
            proof {
                assert(acc as int * 10 + d > u64::MAX) by (nonlinear_arith)
                    requires
                        acc > (u64::MAX - d as u64) / 10,
                        0 <= d <= 9,
                ;
                assert(dec_val(s@, i as int, k + 1) > u64::MAX);
                lemma_dec_val_grows(s@, i as int, k + 1, end as int);
            }
            return (None, end);
        }
        proof {
            assert(acc as int * 10 + d <= u64::MAX) by (nonlinear_arith)
                requires
                    acc <= (u64::MAX - d as u64) / 10,
                    0 <= d <= 9,
            ;
        }
        acc = acc * 10 + d as u64;
        k = k + 1;
    }
    (Some(acc), end)
}

/// Every position of a digit run holds a digit.
proof fn lemma_digits_are_digits(s: Seq<char>, i: int, end: int)
    requires
        0 <= i <= s.len(),
        end == digits_end(s, i),
    ensures
        forall|m: int| i <= m < end ==> is_digit(#[trigger] s[m]),
        i <= end <= s.len(),
    decreases s.len() - i,
{
    if i < s.len() && is_digit(s[i]) {
        lemma_digits_are_digits(s, i + 1, end);
    }
}

/// What `index_expr` reads at `i`: a run of one or more digits, no longer
/// than the integer-part bound, spelling an array index that fits in 64
/// bits; anything else is refused.
pub open spec fn spec_index_expr(s: Seq<char>, i: int) -> Option<(u64, int)> {
    let j = digits_end(s, i);
    if j == i || j - i > INTEGER_PART_MAX_LENGTH || dec_val(s, i, j) > u64::MAX {
        None
    } else {
        Some((dec_val(s, i, j) as u64, j))
    }
}

/// Read an array index: a run of digits.
pub fn index_expr(s: &Vec<char>, i: usize) -> (r: Option<(u64, usize)>)
    requires
        i <= s@.len(),
    ensures
        match r {
            Some((v, j)) => spec_index_expr(s@, i as int) == Some((v, j as int)) && i < j
                <= s@.len(),
            None => spec_index_expr(s@, i as int) is None,
        },
{
    let (val, end) = scan_dec_val(s, i);
    if end == i || end - i > INTEGER_PART_MAX_LENGTH {
        return None;
    }
    match val {
        Some(v) => Some((v, end)),
        None => None,
    }
}

/// What `number_expr` reads at `i`: an optional sign, an integer part, an
/// optional fraction (a point and at least one digit), an optional exponent
/// (`e` or `E`, an optional sign, and at least one digit), each digit run
/// within its bound. A number showing a fraction or an exponent is the
/// nearest double; any other is a 64-bit integer, and one that overflows is
/// refused.
pub open spec fn spec_number_expr(s: Seq<char>, i: int) -> Option<(NumberVal, int)> {
    let body = i < s.len() && (s[i] == '-' || s[i] == '+');
    let sign_end = if body {
        i + 1
    } else {
        i
    };
    let int_end = digits_end(s, sign_end);
    if int_end == sign_end || int_end - sign_end > INTEGER_PART_MAX_LENGTH {
        None
    } else {
        let has_frac = int_end < s.len() && s[int_end] == '.';
        let frac_end = if has_frac {
            digits_end(s, int_end + 1)
        } else {
            int_end
        };
        if has_frac && (frac_end == int_end + 1 || frac_end - (int_end + 1)
            > FRACTIONAL_PART_MAX_LENGTH) {
            None
        } else {
            let has_exp = frac_end < s.len() && (s[frac_end] == 'e' || s[frac_end] == 'E');
            let exp_sign_end = if has_exp && frac_end + 1 < s.len() && (s[frac_end + 1] == '-'
                || s[frac_end + 1] == '+') {
                frac_end + 2
            } else {
                frac_end + 1
            };
            let exp_end = if has_exp {
                digits_end(s, exp_sign_end)
            } else {
                frac_end
            };
            if has_exp && (exp_end == exp_sign_end || exp_end - exp_sign_end
                > EXPONENT_MAX_LENGTH) {
                None
            } else if !has_frac && !has_exp {
                let mag = dec_val(s, sign_end, int_end);
                let signed = if i < s.len() && s[i] == '-' {
                    -mag
                } else {
                    mag
                };
                if i64::MIN <= signed <= i64::MAX {
                    Some((NumberVal::Integer(signed as i64), int_end))
                } else {
                    None
                }
            } else {
                match f64_of_text(s.subrange(i, exp_end)) {
                    Some(bits) => Some((NumberVal::Float(bits), exp_end)),
                    None => None,
                }
            }
        }
    }
}

/// Read a JSON number.
pub fn number_expr(s: &Vec<char>, i: usize) -> (r: Option<(NumberVal, usize)>)
    requires
        i <= s@.len(),
    ensures
        match r {
            Some((v, j)) => spec_number_expr(s@, i as int) == Some((v, j as int)) && i < j
                <= s@.len(),
            None => spec_number_expr(s@, i as int) is None,
        },
{
    let mut neg = false;
    let mut sign_end = i;
    if i < s.len() && (s[i] == '-' || s[i] == '+') {
        neg = s[i] == '-';
        sign_end = i + 1;
    }
    let (int_val, int_end) = scan_dec_val(s, sign_end);
    if int_end == sign_end || int_end - sign_end > INTEGER_PART_MAX_LENGTH {
        return None;
    }
    let has_frac = int_end < s.len() && s[int_end] == '.';
    let mut frac_end = int_end;
    if has_frac {
        frac_end = scan_digits(s, int_end + 1);
        if frac_end == int_end + 1 || frac_end - (int_end + 1) > FRACTIONAL_PART_MAX_LENGTH {
            return None;
        }
    }
    let has_exp = frac_end < s.len() && (s[frac_end] == 'e' || s[frac_end] == 'E');
    let mut exp_end = frac_end;
    if has_exp {
        let mut exp_sign_end = frac_end + 1;
        if frac_end + 1 < s.len() && (s[frac_end + 1] == '-' || s[frac_end + 1] == '+') {
            exp_sign_end = frac_end + 2;
        }
        exp_end = scan_digits(s, exp_sign_end);
        if exp_end == exp_sign_end || exp_end - exp_sign_end > EXPONENT_MAX_LENGTH {
            return None;
        }
    }
    if !has_frac && !has_exp {
        let mag = match int_val {
            Some(v) => v,
            None => {
                return None;
            },
        };
        if neg {
            if mag > 9223372036854775808u64 {
                return None;
            }
            let v: i64 = if mag == 9223372036854775808u64 {
                i64::MIN
            } else {
                -(mag as i64)
            };
            Some((NumberVal::Integer(v), int_end))
        } else {
            if mag > i64::MAX as u64 {
                return None;
            }
            Some((NumberVal::Integer(mag as i64), int_end))
        }
    } else {
        let mut text: Vec<char> = Vec::new();
        let mut k: usize = i;
        while k < exp_end
            invariant
                i <= k <= exp_end <= s@.len(),
                text@ == s@.subrange(i as int, k as int),
            decreases exp_end - k,
        {
            text.push(s[k]);
            k = k + 1;
            proof {
                assert(text@ =~= s@.subrange(i as int, k as int));
            }
        }
        match parse_bits(text.as_slice()) {
            Some(bits) => Some((NumberVal::Float(bits), exp_end)),
            None => None,
        }
    }
}

/// What the body of a string holds from position `i` (just inside the
/// opening quote) to its closing quote: each unit is either a backslash
/// followed by any character, which contributes that character bare, or any
/// character other than the quote, which contributes itself. Gives the
/// content and the position of the closing quote, or `None` when the text
/// ends first.
pub open spec fn spec_string_body(s: Seq<char>, i: int) -> Option<(Seq<char>, int)>
    decreases s.len() - i,
{
    if i < 0 || i >= s.len() {
        None
    } else if s[i] == '"' {
        Some((Seq::empty(), i))
    } else if s[i] == '\\' {
        if i + 1 < s.len() {
            match spec_string_body(s, i + 2) {
                Some((rest, j)) => Some((seq![s[i + 1]] + rest, j)),
                None => None,
            }
        } else {
            None
        }
    } else {
        match spec_string_body(s, i + 1) {
            Some((rest, j)) => Some((seq![s[i]] + rest, j)),
            None => None,
        }
    }
}

/// What `string_expr` reads at `i`: a quote, a body, a quote, with the body
/// no longer than `max_length`.
pub open spec fn spec_string_expr(s: Seq<char>, i: int, max_length: int) -> Option<
    (Seq<char>, int),
> {
    if 0 <= i < s.len() && s[i] == '"' {
        match spec_string_body(s, i + 1) {
            Some((content, j)) => if content.len() <= max_length {
                Some((content, j + 1))
            } else {
                None
            },
            None => None,
        }
    } else {
        None
    }
}

/// Read a string literal; the content is handed back unnormalized.
pub fn string_expr(s: &Vec<char>, i: usize, max_length: usize) -> (r: Option<(Vec<char>, usize)>)
    requires
        i <= s@.len(),
    ensures
        match r {
            Some((content, j)) => spec_string_expr(s@, i as int, max_length as int) == Some(
                (content@, j as int),
            ) && i < j <= s@.len(),
            None => spec_string_expr(s@, i as int, max_length as int) is None,
        },
{
    if i >= s.len() || s[i] != '"' {
        return None;
    }
    let mut content: Vec<char> = Vec::new();
    let mut k: usize = i + 1;
    loop
        invariant
            i + 1 <= k <= s@.len(),
            i < s@.len() && s@[i as int] == '"',
            content@.len() <= k - i - 1,
            spec_string_body(s@, i + 1) == match spec_string_body(s@, k as int) {
                Some((rest, j)) => Some((content@ + rest, j)),
                None => None::<(Seq<char>, int)>,
            },
        decreases s@.len() - k,
    {
        if k >= s.len() {
            return None;
        }
        let c = s[k];
        if c == '"' {
            proof {
                assert(content@ + Seq::<char>::empty() =~= content@);
            }
            if content.len() > max_length {
                return None;
            }
            return Some((content, k + 1));
        } else if c == '\\' {
            if k + 1 >= s.len() {
                return None;
            }
            content.push(s[k + 1]);
            k = k + 2;
            proof {
                assert forall|rest: Seq<char>|
                    true implies (content@.drop_last() + (seq![s@[k - 1]] + rest)) =~= (content@
                    + rest) by {}
            }
        } else {
            content.push(c);
            k = k + 1;
            proof {
                assert forall|rest: Seq<char>|
                    true implies (content@.drop_last() + (seq![s@[k - 1]] + rest)) =~= (content@
                    + rest) by {}
            }
        }
    }
}

/// What the body of a regular-expression literal holds from position `i` to
/// its closing slash: a backslash before a slash contributes the slash bare;
/// any other character contributes itself.
pub open spec fn spec_regex_body(s: Seq<char>, i: int) -> Option<(Seq<char>, int)>
    decreases s.len() - i,
{
    if i < 0 || i >= s.len() {
        None
    } else if s[i] == '/' {
        Some((Seq::empty(), i))
    } else if s[i] == '\\' && i + 1 < s.len() && s[i + 1] == '/' {
        match spec_regex_body(s, i + 2) {
            Some((rest, j)) => Some((seq!['/'] + rest, j)),
            None => None,
        }
    } else {
        match spec_regex_body(s, i + 1) {
            Some((rest, j)) => Some((seq![s[i]] + rest, j)),
            None => None,
        }
    }
}

/// What `regex_expr` reads at `i`: a slash, a pattern, a slash, with the
/// pattern no longer than `max_length`.
pub open spec fn spec_regex_expr(s: Seq<char>, i: int, max_length: int) -> Option<
    (Seq<char>, int),
> {
    if 0 <= i < s.len() && s[i] == '/' {
        match spec_regex_body(s, i + 1) {
            Some((pattern, j)) => if pattern.len() <= max_length {
                Some((pattern, j + 1))
            } else {
                None
            },
            None => None,
        }
    } else {
        None
    }
}

/// Read a regular-expression literal; the pattern is handed back as text.
pub fn regex_expr(s: &Vec<char>, i: usize, max_length: usize) -> (r: Option<(Vec<char>, usize)>)
    requires
        i <= s@.len(),
    ensures
        match r {
            Some((pattern, j)) => spec_regex_expr(s@, i as int, max_length as int) == Some(
                (pattern@, j as int),
            ) && i < j <= s@.len(),
            None => spec_regex_expr(s@, i as int, max_length as int) is None,
        },
{
    if i >= s.len() || s[i] != '/' {
        return None;
    }
    let mut pattern: Vec<char> = Vec::new();
    let mut k: usize = i + 1;
    loop
        invariant
            i + 1 <= k <= s@.len(),
            i < s@.len() && s@[i as int] == '/',
            pattern@.len() <= k - i - 1,
            spec_regex_body(s@, i + 1) == match spec_regex_body(s@, k as int) {
                Some((rest, j)) => Some((pattern@ + rest, j)),
                None => None::<(Seq<char>, int)>,
            },
        decreases s@.len() - k,
    {
        if k >= s.len() {
            return None;
        }
        let c = s[k];
        if c == '/' {
            proof {
                assert(pattern@ + Seq::<char>::empty() =~= pattern@);
            }
            if pattern.len() > max_length {
                return None;
            }
            return Some((pattern, k + 1));
        } else if c == '\\' && k + 1 < s.len() && s[k + 1] == '/' {
            pattern.push('/');
            k = k + 2;
            proof {
                assert forall|rest: Seq<char>|
                    true implies (pattern@.drop_last() + (seq!['/'] + rest)) =~= (pattern@
                    + rest) by {}
            }
        } else {
            pattern.push(c);
            k = k + 1;
            proof {
                assert forall|rest: Seq<char>|
                    true implies (pattern@.drop_last() + (seq![s@[k - 1]] + rest)) =~= (pattern@
                    + rest) by {}
            }
        }
    }
}

/// Whether a character may open an identifier.
pub open spec fn is_letter(c: char) -> bool {
    (65 <= c as u32 <= 90) || (97 <= c as u32 <= 122)
}

/// Whether a character may continue an identifier.
pub open spec fn is_ident_char(c: char) -> bool {
    is_letter(c) || is_digit(c) || c == '_'
}

/// The first position at or after `i` holding something that cannot
/// continue an identifier.
pub open spec fn ident_end(s: Seq<char>, i: int) -> int
    decreases s.len() - i,
{
    if i < 0 || i >= s.len() {
        i
    } else if is_ident_char(s[i]) {
        ident_end(s, i + 1)
    } else {
        i
    }
}

/// What `ident_expr` reads at `i`: a letter, then letters, digits or
/// underscores, at most `max_length` of them after the first.
pub open spec fn spec_ident_expr(s: Seq<char>, i: int, max_length: int) -> Option<
    (Seq<char>, int),
> {
    if 0 <= i < s.len() && is_letter(s[i]) {
        let j = ident_end(s, i + 1);
        if j - (i + 1) > max_length {
            None
        } else {
            Some((s.subrange(i, j), j))
        }
    } else {
        None
    }
}

/// Read an identifier.
pub fn ident_expr(s: &Vec<char>, i: usize, max_length: usize) -> (r: Option<(Vec<char>, usize)>)
    requires
        i <= s@.len(),
    ensures
        match r {
            Some((name, j)) => spec_ident_expr(s@, i as int, max_length as int) == Some(
                (name@, j as int),
            ) && i < j <= s@.len(),
            None => spec_ident_expr(s@, i as int, max_length as int) is None,
        },
{
    if i >= s.len() {
        return None;
    }
    let c0 = s[i] as u32;
    if !((65 <= c0 && c0 <= 90) || (97 <= c0 && c0 <= 122)) {
        return None;
    }
    let mut k: usize = i + 1;
    let mut name: Vec<char> = Vec::new();
    name.push(s[i]);
    while k < s.len() && ident_char(s[k])
        invariant
            i + 1 <= k <= s@.len(),
            i < s@.len() && is_letter(s@[i as int]),
            forall|m: int| i + 1 <= m < k ==> is_ident_char(#[trigger] s@[m]),
            ident_end(s@, k as int) == ident_end(s@, i + 1),
            name@ == s@.subrange(i as int, k as int),
        decreases s@.len() - k,
    {
        name.push(s[k]);
        k = k + 1;
        proof {
            assert(name@ =~= s@.subrange(i as int, k as int));
        }
    }
    proof {
        assert(ident_end(s@, k as int) == k);
    }
    if k - (i + 1) > max_length {
        return None;
    }
    Some((name, k))
}

/// Whether this character may continue an identifier.
fn ident_char(c: char) -> (r: bool)
    ensures
        r == is_ident_char(c),
{
    let u = c as u32;
    (65 <= u && u <= 90) || (97 <= u && u <= 122) || (48 <= u && u <= 57) || c == '_'
}

/// Whether the text carries the keyword at position `i`.
pub open spec fn spec_keyword_at(s: Seq<char>, i: int, kw: Seq<char>) -> bool {
    0 <= i && i + kw.len() <= s.len() && s.subrange(i, i + kw.len()) == kw
}

/// Read one fixed keyword; gives the position just past it.
pub fn keyword_expr(s: &Vec<char>, i: usize, kw: &Vec<char>) -> (r: Option<usize>)
    requires
        i <= s@.len(),
    ensures
        match r {
            Some(j) => spec_keyword_at(s@, i as int, kw@) && j == i + kw@.len() && j <= s@.len(),
            None => !spec_keyword_at(s@, i as int, kw@),
        },
{
    if s.len() - i < kw.len() {
        proof {
            assert(i + kw@.len() > s@.len());
        }
        return None;
    }
    let mut k: usize = 0;
    while k < kw.len()
        invariant
            0 <= k <= kw@.len(),
            i + kw@.len() <= s@.len(),
            s@.len() <= usize::MAX,
            forall|m: int| 0 <= m < k ==> s@[i + m] == kw@[m],
        decreases kw@.len() - k,
    {
        if s[i + k] != kw[k] {
            proof {
                assert(s@.subrange(i as int, i + kw@.len())[k as int] != kw@[k as int]);
            }
            return None;
        }
        k = k + 1;
    }
    proof {
        assert(s@.subrange(i as int, i + kw@.len()) =~= kw@);
    }
    Some(i + kw.len())
}

/// Read a number and step over the whitespace after it.
pub fn number_lex(s: &Vec<char>, i: usize) -> (r: Option<(NumberVal, usize)>)
    requires
        i <= s@.len(),
    ensures
        match r {
            Some((v, j)) => (match spec_number_expr(s@, i as int) {
                Some((v2, j2)) => v == v2 && j == ws_end(s@, j2),
                None => false,
            }) && i < j <= s@.len(),
            None => spec_number_expr(s@, i as int) is None,
        },
{
    match number_expr(s, i) {
        Some((v, j)) => Some((v, lex(s, j))),
        None => None,
    }
}

/// Read a string literal and step over the whitespace after it.
pub fn string_lex(s: &Vec<char>, i: usize, max_length: usize) -> (r: Option<(Vec<char>, usize)>)
    requires
        i <= s@.len(),
    ensures
        match r {
            Some((content, j)) => (match spec_string_expr(s@, i as int, max_length as int) {
                Some((c2, j2)) => content@ == c2 && j == ws_end(s@, j2),
                None => false,
            }) && i < j <= s@.len(),
            None => spec_string_expr(s@, i as int, max_length as int) is None,
        },
{
    match string_expr(s, i, max_length) {
        Some((content, j)) => Some((content, lex(s, j))),
        None => None,
    }
}

/// Read an identifier and step over the whitespace after it.
pub fn ident_lex(s: &Vec<char>, i: usize, max_length: usize) -> (r: Option<(Vec<char>, usize)>)
    requires
        i <= s@.len(),
    ensures
        match r {
            Some((name, j)) => (match spec_ident_expr(s@, i as int, max_length as int) {
                Some((n2, j2)) => name@ == n2 && j == ws_end(s@, j2),
                None => false,
            }) && i < j <= s@.len(),
            None => spec_ident_expr(s@, i as int, max_length as int) is None,
        },
{
    match ident_expr(s, i, max_length) {
        Some((name, j)) => Some((name, lex(s, j))),
        None => None,
    }
}

/// Read one fixed keyword and step over the whitespace after it.
pub fn keyword_lex(s: &Vec<char>, i: usize, kw: &Vec<char>) -> (r: Option<usize>)
    requires
        i <= s@.len(),
    ensures
        match r {
            Some(j) => spec_keyword_at(s@, i as int, kw@) && j == ws_end(s@, i + kw@.len()) && j
                <= s@.len(),
            None => !spec_keyword_at(s@, i as int, kw@),
        },
{
    match keyword_expr(s, i, kw) {
        Some(j) => Some(lex(s, j)),
        None => None,
    }
}

/// Read one fixed character and step over the whitespace after it.
pub fn token_lex(s: &Vec<char>, i: usize, c: char) -> (r: Option<usize>)
    requires
        i <= s@.len(),
    ensures
        match r {
            Some(j) => i < s@.len() && s@[i as int] == c && j == ws_end(s@, i + 1) && i < j
                <= s@.len(),
            None => !(i < s@.len() && s@[i as int] == c),
        },
{
    if i < s.len() && s[i] == c {
        Some(lex(s, i + 1))
    } else {
        None
    }
}

} // verus!
