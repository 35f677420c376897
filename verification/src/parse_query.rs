//! The query compiler: from the query text to a filter and a pipeline.
//!
//! A query is a filter, then zero or more stages each introduced by `|`.
//! A filter is one or more alternatives separated by commas, forming a
//! union; an alternative is a lone dot (accept everything) or a run of
//! parts, each an object branch (`.name`, `."text"`, `./regex/`) or an
//! array part (`[i]`, `[i,j,k]`, `[lo:hi]`). A stage is an identifier
//! followed by its arguments: numbers, strings, or paths. Whitespace is
//! tolerated after every token. Field names in filters and paths are
//! NFC-normalized at compile time, as stored keys are at parse time.
//!
//! The grammar is stated by the `sp_*` spec functions; the compiler's
//! contract ties its result to them exactly, and the stage registry to
//! `sp_build`.

use vstd::prelude::*;
use vstd::string::StringExecFns;

use crate::error::{InitErrView, InitError};
use crate::filter::{
    fv, parts_view, regex_ok, regex_valid, ArrayFilter, ArrayFilterView, BranchFilter,
    BranchFilterView, Filter, FilterPart, FilterPartView, FilterView, filters_view,
};
use crate::json_path::{JsonPath, JsonPathStep, PathStepView};
use crate::json_value::{nfc_chars, nfc_of};
use crate::parse_basics::{
    ident_expr, index_expr, is_digit, is_letter, lex, number_expr, spec_ident_expr,
    spec_index_expr, spec_number_expr, spec_regex_expr, spec_string_expr, string_expr, regex_expr,
    ws_end,
};
use crate::pipeline::{
    pv, with_head, AddFieldStage, MeanStage, PipeView, Pipeline, SelectStage, StageView, SumStage,
};
use crate::pipeline_builder::{StageArg, StageArgView};
use crate::write_json::chars_to_string;

verus! {

broadcast use vstd::seq::group_seq_axioms, vstd::std_specs::vec::group_vec_axioms;

/// Whether a character can open the name of a branch or a path field: a
/// letter (an identifier) or a quote (a string literal).
pub open spec fn name_start(c: char) -> bool {
    is_letter(c) || c == '"'
}

/// One branch part at `i` (standing on the dot): a field name, a string, or
/// a regular expression, which must compile. On failure, the position of the
/// offending name.
pub open spec fn sp_branch(s: Seq<char>, i: int, max: int) -> Result<(FilterPartView, int), int> {
    if 0 <= i < s.len() && s[i] == '.' {
        match spec_ident_expr(s, i + 1, max) {
            Some((name, j)) => Ok(
                (FilterPartView::Branch(BranchFilterView::TextMatch(nfc_of(name))), j),
            ),
            None => match spec_string_expr(s, i + 1, max) {
                Some((content, j)) => Ok(
                    (FilterPartView::Branch(BranchFilterView::TextMatch(nfc_of(content))), j),
                ),
                None => match spec_regex_expr(s, i + 1, max) {
                    Some((pattern, j)) => if regex_ok(pattern) {
                        Ok((FilterPartView::Branch(BranchFilterView::RegexMatch(pattern)), j))
                    } else {
                        Err(i + 1)
                    },
                    None => Err(i + 1),
                },
            },
        }
    } else {
        Err(i)
    }
}

/// More indices of a `[i,j,k]` part, the cursor on a comma or the closing
/// bracket; gives the indices and the position just past the bracket, or the
/// offending position.
pub open spec fn sp_more_indices(s: Seq<char>, i: int, fuel: nat) -> Result<(Seq<u64>, int), int>
    decreases fuel,
{
    if fuel == 0 {
        Err(i)
    } else if 0 <= i < s.len() && s[i] == ']' {
        Ok((Seq::empty(), i + 1))
    } else if 0 <= i < s.len() && s[i] == ',' {
        match spec_index_expr(s, i + 1) {
            Some((v, j)) => match sp_more_indices(s, j, (fuel - 1) as nat) {
                Ok((rest, end)) => Ok((seq![v] + rest, end)),
                Err(p) => Err(p),
            },
            None => Err(i + 1),
        }
    } else {
        Err(i)
    }
}

/// One array part at `i` (standing on the opening bracket): an exact index,
/// a comma-separated set of indices, or a half-open range. On failure, the
/// position of the offending token.
pub open spec fn sp_array_part(s: Seq<char>, i: int, fuel: nat) -> Result<
    (FilterPartView, int),
    int,
> {
    if 0 <= i < s.len() && s[i] == '[' {
        match spec_index_expr(s, i + 1) {
            Some((v, j)) => if 0 <= j < s.len() && s[j] == ']' {
                Ok((FilterPartView::Array(ArrayFilterView::ExactValue(v)), j + 1))
            } else if 0 <= j < s.len() && s[j] == ',' {
                match sp_more_indices(s, j, fuel) {
                    Ok((rest, end)) => Ok(
                        (FilterPartView::Array(ArrayFilterView::OneOf(seq![v] + rest)), end),
                    ),
                    Err(p) => Err(p),
                }
            } else if 0 <= j < s.len() && s[j] == ':' {
                match spec_index_expr(s, j + 1) {
                    Some((hi, k)) => if 0 <= k < s.len() && s[k] == ']' {
                        Ok((FilterPartView::Array(ArrayFilterView::Range(v, hi)), k + 1))
                    } else {
                        Err(k)
                    },
                    None => Err(j + 1),
                }
            } else {
                Err(j)
            },
            None => Err(i + 1),
        }
    } else {
        Err(i)
    }
}

/// Whether a filter part (or a path step) starts at `i`.
pub open spec fn part_starts(s: Seq<char>, i: int) -> bool {
    0 <= i < s.len() && (s[i] == '[' || (s[i] == '.' && i + 1 < s.len() && (name_start(s[i + 1])
        || s[i + 1] == '/')))
}

/// A run of filter parts, as many as stand there; a malformed part refuses
/// the whole run with its offending position.
pub open spec fn sp_parts(s: Seq<char>, i: int, max: int, fuel: nat) -> Result<
    (Seq<FilterPartView>, int),
    int,
>
    decreases fuel,
{
    if !part_starts(s, i) {
        Ok((Seq::empty(), i))
    } else if fuel == 0 {
        Err(i)
    } else {
        let parsed = if s[i] == '[' {
            sp_array_part(s, i, fuel)
        } else {
            sp_branch(s, i, max)
        };
        match parsed {
            Ok((part, j)) => match sp_parts(s, j, max, (fuel - 1) as nat) {
                Ok((rest, end)) => Ok((seq![part] + rest, end)),
                Err(p) => Err(p),
            },
            Err(p) => Err(p),
        }
    }
}

/// One filter alternative: a lone dot accepting everything, or a non-empty
/// run of parts.
pub open spec fn sp_filter_alt(s: Seq<char>, i: int, max: int, fuel: nat) -> Result<
    (FilterView, int),
    int,
> {
    match sp_parts(s, i, max, fuel) {
        Ok((parts, j)) => if parts.len() > 0 {
            Ok((FilterView::Parts(parts), j))
        } else if 0 <= i < s.len() && s[i] == '.' {
            Ok((FilterView::All, i + 1))
        } else {
            Err(i)
        },
        Err(p) => Err(p),
    }
}

/// The comma-separated alternatives of a filter, whitespace tolerated after
/// each comma.
pub open spec fn sp_alts(s: Seq<char>, i: int, max: int, fuel: nat) -> Result<
    (Seq<FilterView>, int),
    int,
>
    decreases fuel,
{
    if fuel == 0 {
        Err(i)
    } else {
        match sp_filter_alt(s, i, max, fuel) {
            Ok((alt, j)) => if 0 <= j < s.len() && s[j] == ',' {
                match sp_alts(s, ws_end(s, j + 1), max, (fuel - 1) as nat) {
                    Ok((rest, end)) => Ok((seq![alt] + rest, end)),
                    Err(p) => Err(p),
                }
            } else {
                Ok((seq![alt], j))
            },
            Err(p) => Err(p),
        }
    }
}

/// A whole filter: one alternative stands for itself; several form a union.
pub open spec fn sp_filter(s: Seq<char>, i: int, max: int, fuel: nat) -> Result<
    (FilterView, int),
    int,
> {
    match sp_alts(s, i, max, fuel) {
        Ok((alts, j)) => if alts.len() == 1 {
            Ok((alts[0], j))
        } else {
            Ok((FilterView::Union(alts), j))
        },
        Err(p) => Err(p),
    }
}

/// One path step: `.name`, `."text"`, or `[index]`. On failure, the position
/// of the offending token.
pub open spec fn sp_path_step(s: Seq<char>, i: int, max: int) -> Result<(PathStepView, int), int> {
    if 0 <= i < s.len() && s[i] == '.' {
        match spec_ident_expr(s, i + 1, max) {
            Some((name, j)) => Ok((PathStepView::Field(nfc_of(name)), j)),
            None => match spec_string_expr(s, i + 1, max) {
                Some((content, j)) => Ok((PathStepView::Field(nfc_of(content)), j)),
                None => Err(i + 1),
            },
        }
    } else if 0 <= i < s.len() && s[i] == '[' {
        match spec_index_expr(s, i + 1) {
            Some((v, j)) => if 0 <= j < s.len() && s[j] == ']' {
                Ok((PathStepView::Index(v), j + 1))
            } else {
                Err(j)
            },
            None => Err(i + 1),
        }
    } else {
        Err(i)
    }
}

/// Whether a path step starts at `i`.
pub open spec fn path_step_starts(s: Seq<char>, i: int) -> bool {
    0 <= i < s.len() && (s[i] == '[' || (s[i] == '.' && i + 1 < s.len() && name_start(s[i + 1])))
}

/// A run of path steps, as many as stand there.
pub open spec fn sp_path_steps(s: Seq<char>, i: int, max: int, fuel: nat) -> Result<
    (Seq<PathStepView>, int),
    int,
>
    decreases fuel,
{
    if !path_step_starts(s, i) {
        Ok((Seq::empty(), i))
    } else if fuel == 0 {
        Err(i)
    } else {
        match sp_path_step(s, i, max) {
            Ok((step, j)) => match sp_path_steps(s, j, max, (fuel - 1) as nat) {
                Ok((rest, end)) => Ok((seq![step] + rest, end)),
                Err(p) => Err(p),
            },
            Err(p) => Err(p),
        }
    }
}

/// A path argument: a lone dot (the root), or a non-empty run of steps.
pub open spec fn sp_path(s: Seq<char>, i: int, max: int, fuel: nat) -> Result<
    (Seq<PathStepView>, int),
    int,
> {
    if 0 <= i < s.len() && s[i] == '.' && !(i + 1 < s.len() && (is_letter(s[i + 1]) || is_digit(
        s[i + 1],
    ))) {
        Ok((Seq::empty(), i + 1))
    } else {
        match sp_path_steps(s, i, max, fuel) {
            Ok((steps, j)) => if steps.len() > 0 {
                Ok((steps, j))
            } else {
                Err(i)
            },
            Err(p) => Err(p),
        }
    }
}

/// Whether a stage argument starts at `i`.
pub open spec fn arg_starts(s: Seq<char>, i: int) -> bool {
    0 <= i < s.len() && (s[i] == '-' || s[i] == '+' || is_digit(s[i]) || s[i] == '"' || s[i]
        == '.' || s[i] == '[')
}

/// One stage argument: a number, a string, or a path, with the whitespace
/// after it.
pub open spec fn sp_arg(s: Seq<char>, i: int, max: int, fuel: nat) -> Result<
    (StageArgView, int),
    int,
> {
    if !(0 <= i < s.len()) {
        Err(i)
    } else if s[i] == '-' || s[i] == '+' || is_digit(s[i]) {
        match spec_number_expr(s, i) {
            Some((n, j)) => Ok((StageArgView::Number(n), ws_end(s, j))),
            None => Err(i),
        }
    } else if s[i] == '"' {
        match spec_string_expr(s, i, max) {
            Some((content, j)) => Ok((StageArgView::String(content), ws_end(s, j))),
            None => Err(i),
        }
    } else if s[i] == '.' || s[i] == '[' {
        match sp_path(s, i, max, fuel) {
            Ok((steps, j)) => Ok((StageArgView::Path(steps), ws_end(s, j))),
            Err(p) => Err(p),
        }
    } else {
        Err(i)
    }
}

/// The arguments of a stage, as many as stand there.
pub open spec fn sp_args(s: Seq<char>, i: int, max: int, fuel: nat) -> Result<
    (Seq<StageArgView>, int),
    int,
>
    decreases fuel,
{
    if !arg_starts(s, i) {
        Ok((Seq::empty(), i))
    } else if fuel == 0 {
        Err(i)
    } else {
        match sp_arg(s, i, max, fuel) {
            Ok((arg, j)) => match sp_args(s, j, max, (fuel - 1) as nat) {
                Ok((rest, end)) => Ok((seq![arg] + rest, end)),
                Err(p) => Err(p),
            },
            Err(p) => Err(p),
        }
    }
}

/// One stage: its name and its arguments, whitespace tolerated after each.
pub open spec fn sp_stage(s: Seq<char>, i: int, max: int, fuel: nat) -> Result<
    ((Seq<char>, Seq<StageArgView>), int),
    int,
> {
    match spec_ident_expr(s, i, max) {
        Some((name, j)) => match sp_args(s, ws_end(s, j), max, fuel) {
            Ok((args, end)) => Ok(((name, args), end)),
            Err(p) => Err(p),
        },
        None => Err(i),
    }
}

/// The stages of a query, each introduced by a pipe, running to the end of
/// the text; anything else there refuses the query at its position.
pub open spec fn sp_stages(s: Seq<char>, i: int, max: int, fuel: nat) -> Result<
    Seq<(Seq<char>, Seq<StageArgView>)>,
    int,
>
    decreases fuel,
{
    if !(0 <= i) || i >= s.len() {
        Ok(Seq::empty())
    } else if fuel == 0 {
        Err(i)
    } else if s[i] == '|' {
        match sp_stage(s, ws_end(s, i + 1), max, fuel) {
            Ok((stage, j)) => match sp_stages(s, j, max, (fuel - 1) as nat) {
                Ok(rest) => Ok(seq![stage] + rest),
                Err(p) => Err(p),
            },
            Err(p) => Err(p),
        }
    } else {
        Err(i)
    }
}

/// A whole query: leading whitespace, a filter, whitespace, then the stages.
/// On failure, the position of the first offending character.
pub open spec fn sp_query(s: Seq<char>, max: int, fuel: nat) -> Result<
    (FilterView, Seq<(Seq<char>, Seq<StageArgView>)>),
    int,
> {
    match sp_filter(s, ws_end(s, 0), max, fuel) {
        Ok((f, j)) => match sp_stages(s, ws_end(s, j), max, fuel) {
            Ok(stages) => Ok((f, stages)),
            Err(p) => Err(p),
        },
        Err(p) => Err(p),
    }
}

/// What the registry builds for one named stage put before `out`, or the
/// error it reports: `add_field` takes two strings, `sum`, `mean` and
/// `select` one path each; any other name is unknown.
pub open spec fn sp_stage_apply(
    name: Seq<char>,
    args: Seq<StageArgView>,
    out: PipeView,
) -> Result<PipeView, InitErrView> {
    if name == "add_field"@ {
        if args.len() != 2 {
            Err(
                InitErrView::StageWrongNumberArgs {
                    stage_name: "add_field"@,
                    expected: 2,
                    got: args.len() as usize,
                },
            )
        } else if args[0] is String && args[1] is String {
            Ok(
                with_head(
                    StageView::AddField {
                        key: nfc_of(args[0]->String_0),
                        value: crate::json_value::JsonVal::String(nfc_of(args[1]->String_0)),
                        log: Seq::empty(),
                        fin: 0,
                    },
                    out,
                ),
            )
        } else {
            Err(
                InitErrView::StageWrongArgType {
                    stage_name: "add_field"@,
                    arg_pos: if args[0] is String {
                        1
                    } else {
                        0
                    },
                },
            )
        }
    } else if name == "sum"@ {
        if args.len() != 1 {
            Err(
                InitErrView::StageWrongNumberArgs {
                    stage_name: "sum"@,
                    expected: 1,
                    got: args.len() as usize,
                },
            )
        } else if args[0] is Path {
            Ok(
                with_head(
                    StageView::Sum {
                        acc: None,
                        path: args[0]->Path_0,
                        strict: false,
                        log: Seq::empty(),
                        fin: 0,
                    },
                    out,
                ),
            )
        } else {
            Err(InitErrView::StageWrongArgType { stage_name: "sum"@, arg_pos: 0 })
        }
    } else if name == "mean"@ {
        if args.len() != 1 {
            Err(
                InitErrView::StageWrongNumberArgs {
                    stage_name: "mean"@,
                    expected: 1,
                    got: args.len() as usize,
                },
            )
        } else if args[0] is Path {
            Ok(
                with_head(
                    StageView::Mean {
                        acc: 0,
                        count: 0,
                        path: args[0]->Path_0,
                        strict: false,
                        log: Seq::empty(),
                        fin: 0,
                    },
                    out,
                ),
            )
        } else {
            Err(InitErrView::StageWrongArgType { stage_name: "mean"@, arg_pos: 0 })
        }
    } else if name == "select"@ {
        if args.len() != 1 {
            Err(
                InitErrView::StageWrongNumberArgs {
                    stage_name: "select"@,
                    expected: 1,
                    got: args.len() as usize,
                },
            )
        } else if args[0] is Path {
            Ok(
                with_head(
                    StageView::Select {
                        path: args[0]->Path_0,
                        log: Seq::empty(),
                        fin: 0,
                    },
                    out,
                ),
            )
        } else {
            Err(InitErrView::StageWrongArgType { stage_name: "select"@, arg_pos: 0 })
        }
    } else {
        Err(InitErrView::StageUnknownName { unknown_name: name })
    }
}

/// The pipeline the stage list builds in front of the output: the first
/// stage of the query becomes the head of the chain.
pub open spec fn sp_build(
    stages: Seq<(Seq<char>, Seq<StageArgView>)>,
    out: PipeView,
) -> Result<PipeView, InitErrView>
    decreases stages,
{
    if stages.len() == 0 {
        Ok(out)
    } else {
        match sp_build(stages.drop_first(), out) {
            Ok(rest) => sp_stage_apply(stages.first().0, stages.first().1, rest),
            Err(e) => Err(e),
        }
    }
}

/// Read one branch part, the cursor on the dot.
fn branch_part(s: &Vec<char>, i: usize, max: usize) -> (r: Result<(FilterPart, usize), usize>)
    requires
        i <= s@.len(),
    ensures
        match r {
            Ok((part, j)) => sp_branch(s@, i as int, max as int) == Ok::<
                (FilterPartView, int),
                int,
            >((part@, j as int)) && i < j <= s@.len(),
            Err(p) => sp_branch(s@, i as int, max as int) == Err::<(FilterPartView, int), int>(
                p as int,
            ),
        },
{
    if !(i < s.len() && s[i] == '.') {
        return Err(i);
    }
    match ident_expr(s, i + 1, max) {
        Some((name, j)) => {
            let text = nfc_chars(name.as_slice());
            Ok((FilterPart::Branch(BranchFilter::TextMatch(text)), j))
        },
        None => match string_expr(s, i + 1, max) {
            Some((content, j)) => {
                let text = nfc_chars(content.as_slice());
                Ok((FilterPart::Branch(BranchFilter::TextMatch(text)), j))
            },
            None => match regex_expr(s, i + 1, max) {
                Some((pattern, j)) => {
                    let text = chars_to_string(&pattern);
                    if regex_valid(text.as_str()) {
                        Ok((FilterPart::Branch(BranchFilter::RegexMatch(text)), j))
                    } else {
                        Err(i + 1)
                    }
                },
                None => Err(i + 1),
            },
        },
    }
}

/// Read the remaining indices of a `[i,j,k]` part.
fn more_indices(s: &Vec<char>, i: usize, fuel: usize) -> (r: Result<(Vec<u64>, usize), usize>)
    requires
        i <= s@.len(),
    ensures
        match r {
            Ok((vs, end)) => sp_more_indices(s@, i as int, fuel as nat) == Ok::<
                (Seq<u64>, int),
                int,
            >((vs@, end as int)) && i < end <= s@.len(),
            Err(p) => sp_more_indices(s@, i as int, fuel as nat) == Err::<(Seq<u64>, int), int>(
                p as int,
            ),
        },
    decreases fuel,
{
    if fuel == 0 {
        return Err(i);
    }
    if i < s.len() && s[i] == ']' {
        let out: Vec<u64> = Vec::new();
        proof {
            assert(out@ =~= Seq::<u64>::empty());
        }
        return Ok((out, i + 1));
    }
    if !(i < s.len() && s[i] == ',') {
        return Err(i);
    }
    let (v, j) = match index_expr(s, i + 1) {
        Some(x) => x,
        None => {
            return Err(i + 1);
        },
    };
    match more_indices(s, j, fuel - 1) {
        Ok((rest, end)) => {
            let mut out: Vec<u64> = Vec::new();
            let ghost rest_orig = rest@;
            out.push(v);
            let mut rest = rest;
            out.append(&mut rest);
            proof {
                assert(out@ =~= seq![v] + rest_orig);
            }
            Ok((out, end))
        },
        Err(p) => Err(p),
    }
}

/// Read one array part, the cursor on the opening bracket.
fn array_part(s: &Vec<char>, i: usize, fuel: usize) -> (r: Result<(FilterPart, usize), usize>)
    requires
        i <= s@.len(),
    ensures
        match r {
            Ok((part, j)) => sp_array_part(s@, i as int, fuel as nat) == Ok::<
                (FilterPartView, int),
                int,
            >((part@, j as int)) && i < j <= s@.len(),
            Err(p) => sp_array_part(s@, i as int, fuel as nat) == Err::<
                (FilterPartView, int),
                int,
            >(p as int),
        },
{
    if !(i < s.len() && s[i] == '[') {
        return Err(i);
    }
    let (v, j) = match index_expr(s, i + 1) {
        Some(x) => x,
        None => {
            return Err(i + 1);
        },
    };
    if j < s.len() && s[j] == ']' {
        Ok((FilterPart::Array(ArrayFilter::ExactValue(v)), j + 1))
    } else if j < s.len() && s[j] == ',' {
        match more_indices(s, j, fuel) {
            Ok((rest, end)) => {
                let mut out: Vec<u64> = Vec::new();
                let ghost rest_orig = rest@;
                out.push(v);
                let mut rest = rest;
                out.append(&mut rest);
                proof {
                    assert(out@ =~= seq![v] + rest_orig);
                }
                Ok((FilterPart::Array(ArrayFilter::OneOf(out)), end))
            },
            Err(p) => Err(p),
        }
    } else if j < s.len() && s[j] == ':' {
        match index_expr(s, j + 1) {
            Some((hi, k)) => {
                if k < s.len() && s[k] == ']' {
                    Ok((FilterPart::Array(ArrayFilter::Range(v, hi)), k + 1))
                } else {
                    Err(k)
                }
            },
            None => Err(j + 1),
        }
    } else {
        Err(j)
    }
}

/// Whether a filter part starts here.
fn part_starts_exec(s: &Vec<char>, i: usize) -> (r: bool)
    requires
        i <= s@.len(),
    ensures
        r == part_starts(s@, i as int),
{
    if i < s.len() {
        let c = s[i];
        if c == '[' {
            true
        } else if c == '.' && i + 1 < s.len() {
            let d = s[i + 1];
            let u = d as u32;
            (65 <= u && u <= 90) || (97 <= u && u <= 122) || d == '"' || d == '/'
        } else {
            false
        }
    } else {
        false
    }
}

/// Read a run of filter parts.
fn filter_parts(s: &Vec<char>, i: usize, max: usize, fuel: usize) -> (r: Result<
    (Vec<FilterPart>, usize),
    usize,
>)
    requires
        i <= s@.len(),
    ensures
        match r {
            Ok((parts, j)) => sp_parts(s@, i as int, max as int, fuel as nat) == Ok::<
                (Seq<FilterPartView>, int),
                int,
            >((parts_view(parts@), j as int)) && i <= j <= s@.len() && (parts@.len() > 0 ==> i
                < j),
            Err(p) => sp_parts(s@, i as int, max as int, fuel as nat) == Err::<
                (Seq<FilterPartView>, int),
                int,
            >(p as int),
        },
    decreases fuel,
{
    if !part_starts_exec(s, i) {
        let out: Vec<FilterPart> = Vec::new();
        proof {
            assert(parts_view(out@) =~= Seq::<FilterPartView>::empty());
        }
        return Ok((out, i));
    }
    if fuel == 0 {
        return Err(i);
    }
    let parsed = if s[i] == '[' {
        array_part(s, i, fuel)
    } else {
        branch_part(s, i, max)
    };
    let (part, j) = match parsed {
        Ok(x) => x,
        Err(p) => {
            return Err(p);
        },
    };
    match filter_parts(s, j, max, fuel - 1) {
        Ok((rest, end)) => {
            let ghost partv = part@;
            let ghost rest_orig = rest@;
            let mut out: Vec<FilterPart> = Vec::new();
            out.push(part);
            let mut rest = rest;
            out.append(&mut rest);
            proof {
                assert(parts_view(out@) =~= seq![partv] + parts_view(rest_orig));
            }
            Ok((out, end))
        },
        Err(p) => Err(p),
    }
}

/// Read one filter alternative.
fn filter_alt(s: &Vec<char>, i: usize, max: usize, fuel: usize) -> (r: Result<
    (Filter, usize),
    usize,
>)
    requires
        i <= s@.len(),
    ensures
        match r {
            Ok((f, j)) => sp_filter_alt(s@, i as int, max as int, fuel as nat) == Ok::<
                (FilterView, int),
                int,
            >((f@, j as int)) && i < j <= s@.len(),
            Err(p) => sp_filter_alt(s@, i as int, max as int, fuel as nat) == Err::<
                (FilterView, int),
                int,
            >(p as int),
        },
{
    match filter_parts(s, i, max, fuel) {
        Ok((parts, j)) => {
            if parts.len() > 0 {
                Ok((Filter::Parts(parts), j))
            } else if i < s.len() && s[i] == '.' {
                Ok((Filter::All, i + 1))
            } else {
                Err(i)
            }
        },
        Err(p) => Err(p),
    }
}

/// Read the comma-separated alternatives of a filter.
fn filter_alts(s: &Vec<char>, i: usize, max: usize, fuel: usize) -> (r: Result<
    (Vec<Filter>, usize),
    usize,
>)
    requires
        i <= s@.len(),
    ensures
        match r {
            Ok((alts, j)) => sp_alts(s@, i as int, max as int, fuel as nat) == Ok::<
                (Seq<FilterView>, int),
                int,
            >((filters_view(alts@), j as int)) && alts@.len() >= 1 && i < j <= s@.len(),
            Err(p) => sp_alts(s@, i as int, max as int, fuel as nat) == Err::<
                (Seq<FilterView>, int),
                int,
            >(p as int),
        },
    decreases fuel,
{
    if fuel == 0 {
        return Err(i);
    }
    let (alt, j) = match filter_alt(s, i, max, fuel) {
        Ok(x) => x,
        Err(p) => {
            return Err(p);
        },
    };
    if j < s.len() && s[j] == ',' {
        let next = lex(s, j + 1);
        match filter_alts(s, next, max, fuel - 1) {
            Ok((rest, end)) => {
                let ghost altv = fv(alt);
                let ghost rest_orig = rest@;
                let mut out: Vec<Filter> = Vec::new();
                out.push(alt);
                let mut rest = rest;
                out.append(&mut rest);
                proof {
                    assert(filters_view(out@) =~= seq![altv] + filters_view(rest_orig));
                }
                Ok((out, end))
            },
            Err(p) => Err(p),
        }
    } else {
        let ghost altv = fv(alt);
        let mut out: Vec<Filter> = Vec::new();
        out.push(alt);
        proof {
            assert(filters_view(out@) =~= seq![altv]);
        }
        Ok((out, j))
    }
}

/// Read a whole filter.
pub fn filter_parser(s: &Vec<char>, i: usize, max: usize, fuel: usize) -> (r: Result<
    (Filter, usize),
    usize,
>)
    requires
        i <= s@.len(),
    ensures
        match r {
            Ok((f, j)) => sp_filter(s@, i as int, max as int, fuel as nat) == Ok::<
                (FilterView, int),
                int,
            >((f@, j as int)) && i < j <= s@.len(),
            Err(p) => sp_filter(s@, i as int, max as int, fuel as nat) == Err::<
                (FilterView, int),
                int,
            >(p as int),
        },
{
    match filter_alts(s, i, max, fuel) {
        Ok((alts, j)) => {
            if alts.len() == 1 {
                let mut alts = alts;
                match alts.pop() {
                    Some(f) => {
                        proof {
                            assert(filters_view(alts@.push(f))[0] == fv(f));
                        }
                        Ok((f, j))
                    },
                    None => Err(i),
                }
            } else {
                Ok((Filter::Union(alts), j))
            }
        },
        Err(p) => Err(p),
    }
}

/// Read one path step.
fn path_step(s: &Vec<char>, i: usize, max: usize) -> (r: Result<(JsonPathStep, usize), usize>)
    requires
        i <= s@.len(),
    ensures
        match r {
            Ok((step, j)) => sp_path_step(s@, i as int, max as int) == Ok::<
                (PathStepView, int),
                int,
            >((step@, j as int)) && i < j <= s@.len(),
            Err(p) => sp_path_step(s@, i as int, max as int) == Err::<(PathStepView, int), int>(
                p as int,
            ),
        },
{
    if i < s.len() && s[i] == '.' {
        match ident_expr(s, i + 1, max) {
            Some((name, j)) => Ok((JsonPathStep::Field(nfc_chars(name.as_slice())), j)),
            None => match string_expr(s, i + 1, max) {
                Some((content, j)) => Ok(
                    (JsonPathStep::Field(nfc_chars(content.as_slice())), j),
                ),
                None => Err(i + 1),
            },
        }
    } else if i < s.len() && s[i] == '[' {
        match index_expr(s, i + 1) {
            Some((v, j)) => {
                if j < s.len() && s[j] == ']' {
                    Ok((JsonPathStep::Index(v), j + 1))
                } else {
                    Err(j)
                }
            },
            None => Err(i + 1),
        }
    } else {
        Err(i)
    }
}

/// Whether a path step starts here.
fn path_step_starts_exec(s: &Vec<char>, i: usize) -> (r: bool)
    requires
        i <= s@.len(),
    ensures
        r == path_step_starts(s@, i as int),
{
    if i < s.len() {
        let c = s[i];
        if c == '[' {
            true
        } else if c == '.' && i + 1 < s.len() {
            let d = s[i + 1];
            let u = d as u32;
            (65 <= u && u <= 90) || (97 <= u && u <= 122) || d == '"'
        } else {
            false
        }
    } else {
        false
    }
}

/// Read a run of path steps.
fn path_steps(s: &Vec<char>, i: usize, max: usize, fuel: usize) -> (r: Result<
    (Vec<JsonPathStep>, usize),
    usize,
>)
    requires
        i <= s@.len(),
    ensures
        match r {
            Ok((steps, j)) => sp_path_steps(s@, i as int, max as int, fuel as nat) == Ok::<
                (Seq<PathStepView>, int),
                int,
            >((crate::json_path::steps_view(steps@), j as int)) && i <= j <= s@.len() && (
            steps@.len() > 0 ==> i < j),
            Err(p) => sp_path_steps(s@, i as int, max as int, fuel as nat) == Err::<
                (Seq<PathStepView>, int),
                int,
            >(p as int),
        },
    decreases fuel,
{
    if !path_step_starts_exec(s, i) {
        let out: Vec<JsonPathStep> = Vec::new();
        proof {
            assert(crate::json_path::steps_view(out@) =~= Seq::<PathStepView>::empty());
        }
        return Ok((out, i));
    }
    if fuel == 0 {
        return Err(i);
    }
    let (step, j) = match path_step(s, i, max) {
        Ok(x) => x,
        Err(p) => {
            return Err(p);
        },
    };
    match path_steps(s, j, max, fuel - 1) {
        Ok((rest, end)) => {
            let ghost stepv = step@;
            let ghost rest_orig = rest@;
            let mut out: Vec<JsonPathStep> = Vec::new();
            out.push(step);
            let mut rest = rest;
            out.append(&mut rest);
            proof {
                assert(crate::json_path::steps_view(out@) =~= seq![stepv]
                    + crate::json_path::steps_view(rest_orig));
            }
            Ok((out, end))
        },
        Err(p) => Err(p),
    }
}

/// Read a path argument.
pub fn path_parser(s: &Vec<char>, i: usize, max: usize, fuel: usize) -> (r: Result<
    (JsonPath, usize),
    usize,
>)
    requires
        i <= s@.len(),
    ensures
        match r {
            Ok((p, j)) => sp_path(s@, i as int, max as int, fuel as nat) == Ok::<
                (Seq<PathStepView>, int),
                int,
            >((p@, j as int)) && i < j <= s@.len(),
            Err(p) => sp_path(s@, i as int, max as int, fuel as nat) == Err::<
                (Seq<PathStepView>, int),
                int,
            >(p as int),
        },
{
    if i < s.len() && s[i] == '.' {
        let lone = if i + 1 < s.len() {
            let d = s[i + 1];
            let u = d as u32;
            !((65 <= u && u <= 90) || (97 <= u && u <= 122) || (48 <= u && u <= 57))
        } else {
            true
        };
        if lone {
            proof {
                assert(crate::json_path::steps_view(Seq::<JsonPathStep>::empty()) =~= Seq::<
                    PathStepView,
                >::empty());
            }
            return Ok((JsonPath::new(Vec::new()), i + 1));
        }
    }
    match path_steps(s, i, max, fuel) {
        Ok((steps, j)) => {
            if steps.len() > 0 {
                Ok((JsonPath::new(steps), j))
            } else {
                Err(i)
            }
        },
        Err(p) => Err(p),
    }
}

/// The model of a stage-argument list.
pub open spec fn args_view(args: Seq<StageArg>) -> Seq<StageArgView> {
    Seq::new(
        args.len(),
        |k: int|
            if 0 <= k < args.len() {
                args[k]@
            } else {
                vstd::pervasive::arbitrary()
            },
    )
}

/// Read one stage argument and the whitespace after it.
fn stage_arg(s: &Vec<char>, i: usize, max: usize, fuel: usize) -> (r: Result<
    (StageArg, usize),
    usize,
>)
    requires
        i <= s@.len(),
    ensures
        match r {
            Ok((arg, j)) => sp_arg(s@, i as int, max as int, fuel as nat) == Ok::<
                (StageArgView, int),
                int,
            >((arg@, j as int)) && i < j <= s@.len(),
            Err(p) => sp_arg(s@, i as int, max as int, fuel as nat) == Err::<
                (StageArgView, int),
                int,
            >(p as int),
        },
{
    if i >= s.len() {
        return Err(i);
    }
    let c = s[i];
    if c == '-' || c == '+' || (c as u32 >= 48 && c as u32 <= 57) {
        match number_expr(s, i) {
            Some((n, j)) => Ok((StageArg::Number(n), lex(s, j))),
            None => Err(i),
        }
    } else if c == '"' {
        match string_expr(s, i, max) {
            Some((content, j)) => Ok((StageArg::String(chars_to_string(&content)), lex(s, j))),
            None => Err(i),
        }
    } else if c == '.' || c == '[' {
        match path_parser(s, i, max, fuel) {
            Ok((p, j)) => Ok((StageArg::Path(p), lex(s, j))),
            Err(p) => Err(p),
        }
    } else {
        Err(i)
    }
}

/// Read the arguments of a stage.
fn stage_args(s: &Vec<char>, i: usize, max: usize, fuel: usize) -> (r: Result<
    (Vec<StageArg>, usize),
    usize,
>)
    requires
        i <= s@.len(),
    ensures
        match r {
            Ok((args, j)) => sp_args(s@, i as int, max as int, fuel as nat) == Ok::<
                (Seq<StageArgView>, int),
                int,
            >((args_view(args@), j as int)) && i <= j <= s@.len(),
            Err(p) => sp_args(s@, i as int, max as int, fuel as nat) == Err::<
                (Seq<StageArgView>, int),
                int,
            >(p as int),
        },
    decreases fuel,
{
    let starts = if i < s.len() {
        let c = s[i];
        c == '-' || c == '+' || (c as u32 >= 48 && c as u32 <= 57) || c == '"' || c == '.' || c
            == '['
    } else {
        false
    };
    if !starts {
        let out: Vec<StageArg> = Vec::new();
        proof {
            assert(args_view(out@) =~= Seq::<StageArgView>::empty());
        }
        return Ok((out, i));
    }
    if fuel == 0 {
        return Err(i);
    }
    let (arg, j) = match stage_arg(s, i, max, fuel) {
        Ok(x) => x,
        Err(p) => {
            return Err(p);
        },
    };
    match stage_args(s, j, max, fuel - 1) {
        Ok((rest, end)) => {
            let ghost argv = arg@;
            let ghost rest_orig = rest@;
            let mut out: Vec<StageArg> = Vec::new();
            out.push(arg);
            let mut rest = rest;
            out.append(&mut rest);
            proof {
                assert(args_view(out@) =~= seq![argv] + args_view(rest_orig));
            }
            Ok((out, end))
        },
        Err(p) => Err(p),
    }
}

/// Read one stage: its name, then its arguments.
pub fn stage_parser(s: &Vec<char>, i: usize, max: usize, fuel: usize) -> (r: Result<
    ((String, Vec<StageArg>), usize),
    usize,
>)
    requires
        i <= s@.len(),
    ensures
        match r {
            Ok(((name, args), j)) => sp_stage(s@, i as int, max as int, fuel as nat) == Ok::<
                ((Seq<char>, Seq<StageArgView>), int),
                int,
            >(((name@, args_view(args@)), j as int)) && i < j <= s@.len(),
            Err(p) => sp_stage(s@, i as int, max as int, fuel as nat) == Err::<
                ((Seq<char>, Seq<StageArgView>), int),
                int,
            >(p as int),
        },
{
    let (name, j0) = match ident_expr(s, i, max) {
        Some(x) => x,
        None => {
            return Err(i);
        },
    };
    let j1 = lex(s, j0);
    match stage_args(s, j1, max, fuel) {
        Ok((args, end)) => Ok(((chars_to_string(&name), args), end)),
        Err(p) => Err(p),
    }
}

/// The model of a stage list.
pub open spec fn stages_view(stages: Seq<(String, Vec<StageArg>)>) -> Seq<
    (Seq<char>, Seq<StageArgView>),
> {
    Seq::new(
        stages.len(),
        |k: int|
            if 0 <= k < stages.len() {
                (stages[k].0@, args_view(stages[k].1@))
            } else {
                vstd::pervasive::arbitrary()
            },
    )
}

/// Read the stages of a query, to the end of the text.
fn stages_parser(s: &Vec<char>, i: usize, max: usize, fuel: usize) -> (r: Result<
    Vec<(String, Vec<StageArg>)>,
    usize,
>)
    requires
        i <= s@.len(),
    ensures
        match r {
            Ok(stages) => sp_stages(s@, i as int, max as int, fuel as nat) == Ok::<
                Seq<(Seq<char>, Seq<StageArgView>)>,
                int,
            >(stages_view(stages@)),
            Err(p) => sp_stages(s@, i as int, max as int, fuel as nat) == Err::<
                Seq<(Seq<char>, Seq<StageArgView>)>,
                int,
            >(p as int),
        },
    decreases fuel,
{
    if i >= s.len() {
        let out: Vec<(String, Vec<StageArg>)> = Vec::new();
        proof {
            assert(stages_view(out@) =~= Seq::<(Seq<char>, Seq<StageArgView>)>::empty());
        }
        return Ok(out);
    }
    if fuel == 0 {
        return Err(i);
    }
    if s[i] != '|' {
        return Err(i);
    }
    let j0 = lex(s, i + 1);
    let (stage, j) = match stage_parser(s, j0, max, fuel) {
        Ok(x) => x,
        Err(p) => {
            return Err(p);
        },
    };
    match stages_parser(s, j, max, fuel - 1) {
        Ok(rest) => {
            let ghost stagev = (stage.0@, args_view(stage.1@));
            let ghost rest_orig = rest@;
            let mut out: Vec<(String, Vec<StageArg>)> = Vec::new();
            out.push(stage);
            let mut rest = rest;
            out.append(&mut rest);
            proof {
                assert(stages_view(out@) =~= seq![stagev] + stages_view(rest_orig));
            }
            Ok(out)
        },
        Err(p) => Err(p),
    }
}

/// Put one named stage in front of the pipeline, as the registry says.
fn apply_stage(name: &String, args: &Vec<StageArg>, output: Pipeline) -> (r: Result<
    Pipeline,
    InitError,
>)
    ensures
        match r {
            Ok(p) => sp_stage_apply(name@, args_view(args@), pv(output)) == Ok::<
                PipeView,
                InitErrView,
            >(pv(p)),
            Err(e) => sp_stage_apply(name@, args_view(args@), pv(output)) == Err::<
                PipeView,
                InitErrView,
            >(e@),
        },
{
    let lit_add = String::from_str("add_field");
    let lit_sum = String::from_str("sum");
    let lit_mean = String::from_str("mean");
    let lit_select = String::from_str("select");
    if name.eq(&lit_add) {
        AddFieldStage::from_args(output, args)
    } else if name.eq(&lit_sum) {
        SumStage::from_args(output, args)
    } else if name.eq(&lit_mean) {
        MeanStage::from_args(output, args)
    } else if name.eq(&lit_select) {
        SelectStage::from_args(output, args)
    } else {
        Err(InitError::StageUnknownName { unknown_name: name.clone() })
    }
}

/// Build the pipeline for the stages from position `k` on, the earlier
/// stages still to be put in front.
fn build_stages(stages: &Vec<(String, Vec<StageArg>)>, k: usize, output: Pipeline) -> (r: Result<
    Pipeline,
    InitError,
>)
    requires
        k <= stages@.len(),
    ensures
        match r {
            Ok(p) => sp_build(stages_view(stages@).skip(k as int), pv(output)) == Ok::<
                PipeView,
                InitErrView,
            >(pv(p)),
            Err(e) => sp_build(stages_view(stages@).skip(k as int), pv(output)) == Err::<
                PipeView,
                InitErrView,
            >(e@),
        },
    decreases stages@.len() - k,
{
    if k == stages.len() {
        proof {
            assert(stages_view(stages@).skip(k as int) =~= Seq::<
                (Seq<char>, Seq<StageArgView>),
            >::empty());
        }
        return Ok(output);
    }
    proof {
        assert(stages_view(stages@).skip(k as int).first() == stages_view(stages@)[k as int]);
        assert(stages_view(stages@).skip(k as int).drop_first() =~= stages_view(stages@).skip(
            k + 1,
        ));
    }
    let rest = match build_stages(stages, k + 1, output) {
        Ok(p) => p,
        Err(e) => {
            return Err(e);
        },
    };
    apply_stage(&stages[k].0, &stages[k].1, rest)
}

/// Compile a query: the filter it names and the pipeline its stages build in
/// front of the given output, or the first error met — a syntax error at the
/// position the grammar names, an unknown stage name, or a stage argument
/// mismatch, exactly as the grammar and the registry state.
pub fn parse_query(max_text_length: usize, output: Pipeline, query: &Vec<char>) -> (r: Result<
    (Filter, Pipeline),
    InitError,
>)
    requires
        query@.len() < usize::MAX,
    ensures
        match sp_query(query@, max_text_length as int, (query@.len() + 1) as nat) {
            Err(p) => (r matches Err(e) && (e@ matches InitErrView::WrongQuerySyntax { position }
                && position == p)),
            Ok((fview, stages)) => match sp_build(stages, pv(output)) {
                Ok(pview) => r matches Ok((f, p)) && f@ == fview && pv(p) == pview,
                Err(ev) => r matches Err(e) && e@ == ev,
            },
        },
{
    let fuel = query.len() + 1;
    let i0 = lex(query, 0);
    let (filter, j) = match filter_parser(query, i0, max_text_length, fuel) {
        Ok(x) => x,
        Err(p) => {
            return Err(InitError::WrongQuerySyntax { position: p });
        },
    };
    let j2 = lex(query, j);
    let stages = match stages_parser(query, j2, max_text_length, fuel) {
        Ok(x) => x,
        Err(p) => {
            return Err(InitError::WrongQuerySyntax { position: p });
        },
    };
    proof {
        assert(stages_view(stages@).skip(0) =~= stages_view(stages@));
    }
    match build_stages(&stages, 0, output) {
        Ok(pipe) => Ok((filter, pipe)),
        Err(e) => Err(e),
    }
}

} // verus!
