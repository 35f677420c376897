//! The skip parser: lexes a JSON value without building it.
//!
//! It accepts exactly the text the keep parser accepts and stops at exactly
//! the same position — its contract ties it to the same grammar functions —
//! but it allocates nothing beyond the lexers' bounded lookahead.

use vstd::prelude::*;

use crate::parse_basics::{lex, number_expr, spec_keyword_at, spec_number_expr,
    spec_string_expr};
use crate::parse_and_keep::{sp_elems, sp_members, sp_value};

verus! {

broadcast use vstd::seq::group_seq_axioms, vstd::std_specs::vec::group_vec_axioms;

/// Lex a string literal without keeping it: gives the position just past it.
pub fn throw_string(s: &Vec<char>, i: usize, max: usize) -> (r: Option<usize>)
    requires
        i <= s@.len(),
    ensures
        match r {
            Some(j) => (match spec_string_expr(s@, i as int, max as int) {
                Some((content, j2)) => j == j2,
                None => false,
            }) && i < j <= s@.len(),
            None => spec_string_expr(s@, i as int, max as int) is None,
        },
{
    if i >= s.len() || s[i] != '"' {
        return None;
    }
    let mut count: usize = 0;
    let ghost mut prefix: Seq<char> = Seq::empty();
    let mut k: usize = i + 1;
    loop
        invariant
            i + 1 <= k <= s@.len(),
            i < s@.len() && s@[i as int] == '"',
            count == prefix.len(),
            count <= k - i - 1,
            crate::parse_basics::spec_string_body(s@, i + 1) == match crate::parse_basics::spec_string_body(
                s@,
                k as int,
            ) {
                Some((rest, j)) => Some((prefix + rest, j)),
                None => None::<(Seq<char>, int)>,
            },
        decreases s@.len() - k,
    {
        if k >= s.len() {
            return None;
        }
        let c = s[k];
        if c == '"' {
            proof {
                assert(prefix + Seq::<char>::empty() =~= prefix);
            }
            if count > max {
                return None;
            }
            return Some(k + 1);
        } else if c == '\\' {
            if k + 1 >= s.len() {
                return None;
            }
            count = count + 1;
            k = k + 2;
            proof {
                prefix = prefix.push(s@[k - 1]);
                assert forall|rest: Seq<char>|
                    true implies (prefix.drop_last() + (seq![s@[k - 1]] + rest)) =~= (prefix
                    + rest) by {}
            }
        } else {
            count = count + 1;
            k = k + 1;
            proof {
                prefix = prefix.push(s@[k - 1]);
                assert forall|rest: Seq<char>|
                    true implies (prefix.drop_last() + (seq![s@[k - 1]] + rest)) =~= (prefix
                    + rest) by {}
            }
        }
    }
}

/// Lex a number without keeping it.
pub fn throw_number(s: &Vec<char>, i: usize) -> (r: Option<usize>)
    requires
        i <= s@.len(),
    ensures
        match r {
            Some(j) => (match spec_number_expr(s@, i as int) {
                Some((n, j2)) => j == j2,
                None => false,
            }) && i < j <= s@.len(),
            None => spec_number_expr(s@, i as int) is None,
        },
{
    match number_expr(s, i) {
        Some((_, j)) => Some(j),
        None => None,
    }
}

/// Lex one of the keywords `null`, `true` or `false` without keeping it.
pub fn throw_keyword(s: &Vec<char>, i: usize) -> (r: Option<usize>)
    requires
        i <= s@.len(),
    ensures
        match r {
            Some(j) => j <= s@.len() && (
            (spec_keyword_at(s@, i as int, "null"@) && j == i + 4) || (spec_keyword_at(
                s@,
                i as int,
                "true"@,
            ) && j == i + 4) || (spec_keyword_at(s@, i as int, "false"@) && j == i + 5)),
            None => !spec_keyword_at(s@, i as int, "null"@) && !spec_keyword_at(
                s@,
                i as int,
                "true"@,
            ) && !spec_keyword_at(s@, i as int, "false"@),
        },
{
    proof {
        reveal_strlit("null");
        reveal_strlit("true");
        reveal_strlit("false");
    }
    let kw_n = crate::parse_and_keep::kw_null();
    if let Some(j) = crate::parse_basics::keyword_expr(s, i, &kw_n) {
        return Some(j);
    }
    let kw_t = crate::parse_and_keep::kw_true();
    if let Some(j) = crate::parse_basics::keyword_expr(s, i, &kw_t) {
        return Some(j);
    }
    let kw_f = crate::parse_and_keep::kw_false();
    if let Some(j) = crate::parse_basics::keyword_expr(s, i, &kw_f) {
        return Some(j);
    }
    None
}

/// Lex one JSON value without keeping it: it stops exactly where the keep
/// parser would, refuses exactly what the keep parser refuses, and reports
/// the same offending position.
pub fn throw_json(s: &Vec<char>, i: usize, max: usize, fuel: usize) -> (r: Result<usize, usize>)
    requires
        i <= s@.len(),
    ensures
        match r {
            Ok(j) => (match sp_value(s@, i as int, max as int, fuel as nat) {
                Ok((v, j2)) => j == j2,
                Err(_) => false,
            }) && i < j <= s@.len(),
            Err(p) => (match sp_value(s@, i as int, max as int, fuel as nat) {
                Ok(_) => false,
                Err(p2) => p == p2,
            }),
        },
    decreases fuel, 1int,
{
    if fuel == 0 || i >= s.len() {
        return Err(i);
    }
    let c = s[i];
    if c == '"' {
        match throw_string(s, i, max) {
            Some(j) => Ok(j),
            None => Err(i),
        }
    } else if c == '-' || c == '+' || (c as u32 >= 48 && c as u32 <= 57) {
        match throw_number(s, i) {
            Some(j) => Ok(j),
            None => Err(i),
        }
    } else if c == 'n' {
        proof {
            reveal_strlit("null");
        }
        let kw = crate::parse_and_keep::kw_null();
        match crate::parse_basics::keyword_expr(s, i, &kw) {
            Some(j) => Ok(j),
            None => Err(i),
        }
    } else if c == 't' {
        proof {
            reveal_strlit("true");
        }
        let kw = crate::parse_and_keep::kw_true();
        match crate::parse_basics::keyword_expr(s, i, &kw) {
            Some(j) => Ok(j),
            None => Err(i),
        }
    } else if c == 'f' {
        proof {
            reveal_strlit("false");
        }
        let kw = crate::parse_and_keep::kw_false();
        match crate::parse_basics::keyword_expr(s, i, &kw) {
            Some(j) => Ok(j),
            None => Err(i),
        }
    } else if c == '[' {
        let j = lex(s, i + 1);
        if j < s.len() && s[j] == ']' {
            Ok(j + 1)
        } else {
            throw_elems(s, j, max, fuel - 1)
        }
    } else if c == '{' {
        let j = lex(s, i + 1);
        if j < s.len() && s[j] == '}' {
            Ok(j + 1)
        } else {
            throw_members(s, j, max, fuel - 1)
        }
    } else {
        Err(i)
    }
}

/// Lex the elements of a non-empty array without keeping them.
fn throw_elems(s: &Vec<char>, i: usize, max: usize, fuel: usize) -> (r: Result<usize, usize>)
    requires
        i <= s@.len(),
    ensures
        match r {
            Ok(end) => (match sp_elems(s@, i as int, max as int, fuel as nat) {
                Ok((elems, end2)) => end == end2,
                Err(_) => false,
            }) && i < end <= s@.len(),
            Err(p) => (match sp_elems(s@, i as int, max as int, fuel as nat) {
                Ok(_) => false,
                Err(p2) => p == p2,
            }),
        },
    decreases fuel, 0int,
{
    if fuel == 0 {
        return Err(i);
    }
    let j = match throw_json(s, i, max, fuel - 1) {
        Ok(j) => j,
        Err(p) => {
            return Err(p);
        },
    };
    let k = lex(s, j);
    if k < s.len() && s[k] == ',' {
        let next = lex(s, k + 1);
        throw_elems(s, next, max, fuel - 1)
    } else if k < s.len() && s[k] == ']' {
        Ok(k + 1)
    } else {
        Err(k)
    }
}

/// Lex the fields of a non-empty object without keeping them.
fn throw_members(s: &Vec<char>, i: usize, max: usize, fuel: usize) -> (r: Result<usize, usize>)
    requires
        i <= s@.len(),
    ensures
        match r {
            Ok(end) => (match sp_members(s@, i as int, max as int, fuel as nat) {
                Ok((members, end2)) => end == end2,
                Err(_) => false,
            }) && i < end <= s@.len(),
            Err(p) => (match sp_members(s@, i as int, max as int, fuel as nat) {
                Ok(_) => false,
                Err(p2) => p == p2,
            }),
        },
    decreases fuel, 0int,
{
    if fuel == 0 {
        return Err(i);
    }
    let j0 = match throw_string(s, i, max) {
        Some(j) => j,
        None => {
            return Err(i);
        },
    };
    let j1 = lex(s, j0);
    if !(j1 < s.len() && s[j1] == ':') {
        return Err(j1);
    }
    let j2 = lex(s, j1 + 1);
    let j3 = match throw_json(s, j2, max, fuel - 1) {
        Ok(j) => j,
        Err(p) => {
            return Err(p);
        },
    };
    let k = lex(s, j3);
    if k < s.len() && s[k] == ',' {
        let next = lex(s, k + 1);
        throw_members(s, next, max, fuel - 1)
    } else if k < s.len() && s[k] == '}' {
        Ok(k + 1)
    } else {
        Err(k)
    }
}

} // verus!
