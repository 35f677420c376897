//! The keep parser: builds an in-memory value for a matched region.
//!
//! The grammar is given by the spec functions `sp_value`, `sp_elems` and
//! `sp_members`: a value is a string, a number, one of the three keywords,
//! an array or an object, with whitespace tolerated inside containers around
//! punctuation and values. String contents and object keys are stored
//! NFC-normalized. The functions carry a recursion budget (`fuel`); every
//! step of budget spent stands for at least one character consumed, so a
//! budget of one more than the characters left always suffices.

use vstd::prelude::*;

use crate::json_value::{arr_view, nfc_chars, nfc_of, obj_view, JsonVal, JsonValue};
use crate::parse_basics::{
    is_digit, lex, number_expr, spec_number_expr, spec_keyword_at, spec_string_expr, string_expr,
    ws_end,
};

verus! {

broadcast use vstd::seq::group_seq_axioms, vstd::std_specs::vec::group_vec_axioms;

/// The JSON value standing at position `i`, and the position just past it.
/// When the text there is not a value (or the budget runs out, which a
/// sufficient budget never lets happen), the error carries the position of
/// the offending token: the start of the token that does not fit the
/// grammar, or the place where a required token is missing.
pub open spec fn sp_value(s: Seq<char>, i: int, max: int, fuel: nat) -> Result<(JsonVal, int), int>
    decreases fuel, 1int,
{
    if fuel == 0 || i < 0 || i >= s.len() {
        Err(i)
    } else {
        let c = s[i];
        if c == '"' {
            match spec_string_expr(s, i, max) {
                Some((content, j)) => Ok((JsonVal::String(nfc_of(content)), j)),
                None => Err(i),
            }
        } else if c == '-' || c == '+' || is_digit(c) {
            match spec_number_expr(s, i) {
                Some((n, j)) => Ok((JsonVal::Number(n), j)),
                None => Err(i),
            }
        } else if c == 'n' {
            if spec_keyword_at(s, i, "null"@) {
                Ok((JsonVal::Null, i + 4))
            } else {
                Err(i)
            }
        } else if c == 't' {
            if spec_keyword_at(s, i, "true"@) {
                Ok((JsonVal::Boolean(true), i + 4))
            } else {
                Err(i)
            }
        } else if c == 'f' {
            if spec_keyword_at(s, i, "false"@) {
                Ok((JsonVal::Boolean(false), i + 5))
            } else {
                Err(i)
            }
        } else if c == '[' {
            let j = ws_end(s, i + 1);
            if 0 <= j < s.len() && s[j] == ']' {
                Ok((JsonVal::Array(Seq::empty()), j + 1))
            } else {
                match sp_elems(s, j, max, (fuel - 1) as nat) {
                    Ok((elems, end)) => Ok((JsonVal::Array(elems), end)),
                    Err(p) => Err(p),
                }
            }
        } else if c == '{' {
            let j = ws_end(s, i + 1);
            if 0 <= j < s.len() && s[j] == '}' {
                Ok((JsonVal::Object(Seq::empty()), j + 1))
            } else {
                match sp_members(s, j, max, (fuel - 1) as nat) {
                    Ok((members, end)) => Ok((JsonVal::Object(members), end)),
                    Err(p) => Err(p),
                }
            }
        } else {
            Err(i)
        }
    }
}

/// The non-empty element list of an array, starting at the first element,
/// and the position just past the closing bracket; on failure, the position
/// of the offending token.
pub open spec fn sp_elems(s: Seq<char>, i: int, max: int, fuel: nat) -> Result<
    (Seq<JsonVal>, int),
    int,
>
    decreases fuel, 0int,
{
    if fuel == 0 {
        Err(i)
    } else {
        match sp_value(s, i, max, (fuel - 1) as nat) {
            Ok((v, j)) => {
                let k = ws_end(s, j);
                if 0 <= k < s.len() && s[k] == ',' {
                    match sp_elems(s, ws_end(s, k + 1), max, (fuel - 1) as nat) {
                        Ok((rest, end)) => Ok((seq![v] + rest, end)),
                        Err(p) => Err(p),
                    }
                } else if 0 <= k < s.len() && s[k] == ']' {
                    Ok((seq![v], k + 1))
                } else {
                    Err(k)
                }
            },
            Err(p) => Err(p),
        }
    }
}

/// The non-empty field list of an object, starting at the first key, and the
/// position just past the closing brace; on failure, the position of the
/// offending token. Keys are NFC-normalized.
pub open spec fn sp_members(s: Seq<char>, i: int, max: int, fuel: nat) -> Result<
    (Seq<(Seq<char>, JsonVal)>, int),
    int,
>
    decreases fuel, 0int,
{
    if fuel == 0 {
        Err(i)
    } else {
        match spec_string_expr(s, i, max) {
            Some((key, j0)) => {
                let j1 = ws_end(s, j0);
                if 0 <= j1 < s.len() && s[j1] == ':' {
                    let j2 = ws_end(s, j1 + 1);
                    match sp_value(s, j2, max, (fuel - 1) as nat) {
                        Ok((v, j3)) => {
                            let k = ws_end(s, j3);
                            if 0 <= k < s.len() && s[k] == ',' {
                                match sp_members(s, ws_end(s, k + 1), max, (fuel - 1) as nat) {
                                    Ok((rest, end)) => Ok(
                                        (seq![(nfc_of(key), v)] + rest, end),
                                    ),
                                    Err(p) => Err(p),
                                }
                            } else if 0 <= k < s.len() && s[k] == '}' {
                                Ok((seq![(nfc_of(key), v)], k + 1))
                            } else {
                                Err(k)
                            }
                        },
                        Err(p) => Err(p),
                    }
                } else {
                    Err(j1)
                }
            },
            None => Err(i),
        }
    }
}

/// Parse one JSON value at position `i`, building it in memory; on failure,
/// the position of the offending token, as the grammar states it.
pub fn keep_json(s: &Vec<char>, i: usize, max: usize, fuel: usize) -> (r: Result<
    (JsonValue, usize),
    usize,
>)
    requires
        i <= s@.len(),
    ensures
        match r {
            Ok((v, j)) => sp_value(s@, i as int, max as int, fuel as nat) == Ok::<
                (JsonVal, int),
                int,
            >((v@, j as int)) && i < j <= s@.len(),
            Err(p) => sp_value(s@, i as int, max as int, fuel as nat) == Err::<
                (JsonVal, int),
                int,
            >(p as int),
        },
    decreases fuel, 1int,
{
    if fuel == 0 || i >= s.len() {
        return Err(i);
    }
    let c = s[i];
    if c == '"' {
        match string_expr(s, i, max) {
            Some((content, j)) => {
                let text = nfc_chars(content.as_slice());
                Ok((JsonValue::String(text), j))
            },
            None => Err(i),
        }
    } else if c == '-' || c == '+' || (c as u32 >= 48 && c as u32 <= 57) {
        match number_expr(s, i) {
            Some((n, j)) => Ok((JsonValue::Number(n), j)),
            None => Err(i),
        }
    } else if c == 'n' {
        proof {
            reveal_strlit("null");
        }
        let kw = kw_null();
        match crate::parse_basics::keyword_expr(s, i, &kw) {
            Some(j) => Ok((JsonValue::Null, j)),
            None => Err(i),
        }
    } else if c == 't' {
        proof {
            reveal_strlit("true");
        }
        let kw = kw_true();
        match crate::parse_basics::keyword_expr(s, i, &kw) {
            Some(j) => Ok((JsonValue::Boolean(true), j)),
            None => Err(i),
        }
    } else if c == 'f' {
        proof {
            reveal_strlit("false");
        }
        let kw = kw_false();
        match crate::parse_basics::keyword_expr(s, i, &kw) {
            Some(j) => Ok((JsonValue::Boolean(false), j)),
            None => Err(i),
        }
    } else if c == '[' {
        let j = lex(s, i + 1);
        if j < s.len() && s[j] == ']' {
            let out = JsonValue::Array(Vec::new());
            proof {
                assert(arr_view(Seq::<JsonValue>::empty()) =~= Seq::<JsonVal>::empty());
            }
            Ok((out, j + 1))
        } else {
            match keep_elems(s, j, max, fuel - 1) {
                Ok((elems, end)) => Ok((JsonValue::Array(elems), end)),
                Err(p) => Err(p),
            }
        }
    } else if c == '{' {
        let j = lex(s, i + 1);
        if j < s.len() && s[j] == '}' {
            let out = JsonValue::Object(Vec::new());
            proof {
                assert(obj_view(Seq::<(String, JsonValue)>::empty()) =~= Seq::<
                    (Seq<char>, JsonVal),
                >::empty());
            }
            Ok((out, j + 1))
        } else {
            match keep_members(s, j, max, fuel - 1) {
                Ok((members, end)) => Ok((JsonValue::Object(members), end)),
                Err(p) => Err(p),
            }
        }
    } else {
        Err(i)
    }
}

/// The characters of the keyword `null`.
pub(crate) fn kw_null() -> (r: Vec<char>)
    ensures
        r@ == "null"@,
{
    let mut kw: Vec<char> = Vec::new();
    kw.push('n');
    kw.push('u');
    kw.push('l');
    kw.push('l');
    proof {
        reveal_strlit("null");
        assert(kw@ =~= "null"@);
    }
    kw
}

/// The characters of the keyword `true`.
pub(crate) fn kw_true() -> (r: Vec<char>)
    ensures
        r@ == "true"@,
{
    let mut kw: Vec<char> = Vec::new();
    kw.push('t');
    kw.push('r');
    kw.push('u');
    kw.push('e');
    proof {
        reveal_strlit("true");
        assert(kw@ =~= "true"@);
    }
    kw
}

/// The characters of the keyword `false`.
pub(crate) fn kw_false() -> (r: Vec<char>)
    ensures
        r@ == "false"@,
{
    let mut kw: Vec<char> = Vec::new();
    kw.push('f');
    kw.push('a');
    kw.push('l');
    kw.push('s');
    kw.push('e');
    proof {
        reveal_strlit("false");
        assert(kw@ =~= "false"@);
    }
    kw
}

/// Parse the elements of a non-empty array, the cursor standing on the first
/// element.
fn keep_elems(s: &Vec<char>, i: usize, max: usize, fuel: usize) -> (r: Result<
    (Vec<JsonValue>, usize),
    usize,
>)
    requires
        i <= s@.len(),
    ensures
        match r {
            Ok((elems, end)) => sp_elems(s@, i as int, max as int, fuel as nat) == Ok::<
                (Seq<JsonVal>, int),
                int,
            >((arr_view(elems@), end as int)) && i < end <= s@.len(),
            Err(p) => sp_elems(s@, i as int, max as int, fuel as nat) == Err::<
                (Seq<JsonVal>, int),
                int,
            >(p as int),
        },
    decreases fuel, 0int,
{
    if fuel == 0 {
        return Err(i);
    }
    let first = match keep_json(s, i, max, fuel - 1) {
        Ok(x) => x,
        Err(p) => {
            return Err(p);
        },
    };
    let (v, j) = first;
    let k = lex(s, j);
    if k < s.len() && s[k] == ',' {
        let next = lex(s, k + 1);
        match keep_elems(s, next, max, fuel - 1) {
            Ok((rest, end)) => {
                let mut elems: Vec<JsonValue> = Vec::new();
                let ghost vv = v@;
                let ghost rest_orig = rest@;
                elems.push(v);
                let mut rest = rest;
                elems.append(&mut rest);
                proof {
                    assert(arr_view(elems@) =~= seq![vv] + arr_view(rest_orig));
                }
                Ok((elems, end))
            },
            Err(p) => Err(p),
        }
    } else if k < s.len() && s[k] == ']' {
        let mut elems: Vec<JsonValue> = Vec::new();
        let ghost vv = v@;
        elems.push(v);
        proof {
            assert(arr_view(elems@) =~= seq![vv]);
        }
        Ok((elems, k + 1))
    } else {
        Err(k)
    }
}

/// Parse the fields of a non-empty object, the cursor standing on the first
/// key.
fn keep_members(s: &Vec<char>, i: usize, max: usize, fuel: usize) -> (r: Result<
    (Vec<(String, JsonValue)>, usize),
    usize,
>)
    requires
        i <= s@.len(),
    ensures
        match r {
            Ok((members, end)) => sp_members(s@, i as int, max as int, fuel as nat) == Ok::<
                (Seq<(Seq<char>, JsonVal)>, int),
                int,
            >((obj_view(members@), end as int)) && i < end <= s@.len(),
            Err(p) => sp_members(s@, i as int, max as int, fuel as nat) == Err::<
                (Seq<(Seq<char>, JsonVal)>, int),
                int,
            >(p as int),
        },
    decreases fuel, 0int,
{
    if fuel == 0 {
        return Err(i);
    }
    let key = match string_expr(s, i, max) {
        Some((content, j0)) => (nfc_chars(content.as_slice()), lex(s, j0)),
        None => {
            return Err(i);
        },
    };
    let (key, j1) = key;
    if !(j1 < s.len() && s[j1] == ':') {
        return Err(j1);
    }
    let j2 = lex(s, j1 + 1);
    let (v, j3) = match keep_json(s, j2, max, fuel - 1) {
        Ok(x) => x,
        Err(p) => {
            return Err(p);
        },
    };
    let k = lex(s, j3);
    if k < s.len() && s[k] == ',' {
        let next = lex(s, k + 1);
        match keep_members(s, next, max, fuel - 1) {
            Ok((rest, end)) => {
                let mut members: Vec<(String, JsonValue)> = Vec::new();
                let ghost kv = key@;
                let ghost vv = v@;
                let ghost rest_orig = rest@;
                members.push((key, v));
                let mut rest = rest;
                members.append(&mut rest);
                proof {
                    assert(obj_view(members@) =~= seq![(kv, vv)] + obj_view(rest_orig));
                }
                Ok((members, end))
            },
            Err(p) => Err(p),
        }
    } else if k < s.len() && s[k] == '}' {
        let ghost kv = key@;
        let ghost vv = v@;
        let mut members: Vec<(String, JsonValue)> = Vec::new();
        members.push((key, v));
        proof {
            assert(obj_view(members@) =~= seq![(kv, vv)]);
        }
        Ok((members, k + 1))
    } else {
        Err(k)
    }
}

} // verus!
