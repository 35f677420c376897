//! The errors the library reports.
//!
//! Init errors arise before any input is read: a file that cannot be opened,
//! or a query that does not compile. Pipeline errors arise while values flow
//! through the stages. Each error renders itself as a one-line message.

use vstd::prelude::*;
use vstd::string::StringExecFns;

use crate::json_path::{JsonPath, JsonPathStep, PathStepView};
use crate::json_value::{JsonVal, JsonValue};
use crate::write_json::{chars_to_string, compact, dec_digits, push_compact, push_u64_digits,
    str_to_chars};

verus! {

broadcast use vstd::seq::group_seq_axioms, vstd::std_specs::vec::group_vec_axioms;

/// The text of one path step: `.name` for a field, `[i]` for an index.
pub open spec fn step_text(st: PathStepView) -> Seq<char> {
    match st {
        PathStepView::Field(name) => seq!['.'] + name,
        PathStepView::Index(i) => seq!['['] + dec_digits(i as nat) + seq![']'],
    }
}

/// The text of a path: its steps one after the other; the root alone is a
/// single dot.
pub open spec fn path_text(p: Seq<PathStepView>) -> Seq<char>
    decreases p,
{
    if p.len() == 0 {
        seq!['.']
    } else if p.len() == 1 {
        step_text(p.last())
    } else {
        path_text(p.drop_last()) + step_text(p.last())
    }
}

/// Append the text of one path step.
fn push_step(out: &mut Vec<char>, step: &JsonPathStep)
    ensures
        final(out)@ == old(out)@ + step_text(step@),
{
    match step {
        JsonPathStep::Field(name) => {
            out.push('.');
            let chars = str_to_chars(name.as_str());
            let mut m: usize = 0;
            while m < chars.len()
                invariant
                    m <= chars.len(),
                    chars@ == name@,
                    out@ == old(out)@ + seq!['.'] + name@.take(m as int),
                decreases chars.len() - m,
            {
                out.push(chars[m]);
                m = m + 1;
                proof {
                    assert(out@ =~= old(out)@ + seq!['.'] + name@.take(m as int));
                }
            }
            proof {
                assert(name@.take(name@.len() as int) =~= name@);
                assert(final(out)@ =~= old(out)@ + step_text(step@));
            }
        },
        JsonPathStep::Index(i) => {
            out.push('[');
            push_u64_digits(out, *i);
            out.push(']');
            proof {
                assert(final(out)@ =~= old(out)@ + step_text(step@));
            }
        },
    }
}

/// Render a path: `.a[3].b`, or `.` for the root.
pub fn path_to_string(p: &JsonPath) -> (r: String)
    ensures
        r@ == path_text(p@),
{
    let steps = p.iter();
    let mut out: Vec<char> = Vec::new();
    if steps.len() == 0 {
        out.push('.');
        proof {
            assert(out@ =~= path_text(p@));
        }
        return chars_to_string(&out);
    }
    let mut k: usize = 0;
    while k < steps.len()
        invariant
            k <= steps.len(),
            steps@.len() >= 1,
            crate::json_path::steps_view(steps@) == p@,
            k > 0 ==> out@ == path_text(p@.take(k as int)),
            k == 0 ==> out@ == Seq::<char>::empty(),
        decreases steps.len() - k,
    {
        push_step(&mut out, &steps[k]);
        k = k + 1;
        proof {
            assert(p@.take(k as int).last() == p@[k - 1]);
            assert(p@[k - 1] == steps@[k - 1]@);
            if k > 1 {
                assert(p@.take(k as int).drop_last() =~= p@.take(k - 1));
            }
            assert(out@ =~= path_text(p@.take(k as int)));
        }
    }
    proof {
        assert(p@.take(p@.len() as int) =~= p@);
    }
    chars_to_string(&out)
}

/// An error that stops the run before any input is read.
#[derive(Debug)]
pub enum InitError {
    /// The named output file cannot be opened.
    UnableToOpenFile { filename: String },
    /// The query text does not follow the query grammar; the position is
    /// that of the offending token, as the grammar names it.
    WrongQuerySyntax { position: usize },
    /// The query names a stage the registry does not know.
    StageUnknownName { unknown_name: String },
    /// A stage was given the wrong number of arguments.
    StageWrongNumberArgs { stage_name: String, expected: usize, got: usize },
    /// A stage argument has the wrong type.
    StageWrongArgType { stage_name: String, arg_pos: usize },
}

/// The model of an init error.
pub enum InitErrView {
    UnableToOpenFile { filename: Seq<char> },
    WrongQuerySyntax { position: usize },
    StageUnknownName { unknown_name: Seq<char> },
    StageWrongNumberArgs { stage_name: Seq<char>, expected: usize, got: usize },
    StageWrongArgType { stage_name: Seq<char>, arg_pos: usize },
}

impl View for InitError {
    type V = InitErrView;

    open spec fn view(&self) -> InitErrView {
        match self {
            InitError::UnableToOpenFile { filename } => InitErrView::UnableToOpenFile {
                filename: filename@,
            },
            InitError::WrongQuerySyntax { position } => InitErrView::WrongQuerySyntax {
                position: *position,
            },
            InitError::StageUnknownName { unknown_name } => InitErrView::StageUnknownName {
                unknown_name: unknown_name@,
            },
            InitError::StageWrongNumberArgs { stage_name, expected, got } => {
                InitErrView::StageWrongNumberArgs {
                    stage_name: stage_name@,
                    expected: *expected,
                    got: *got,
                }
            },
            InitError::StageWrongArgType { stage_name, arg_pos } => {
                InitErrView::StageWrongArgType { stage_name: stage_name@, arg_pos: *arg_pos }
            },
        }
    }
}

/// The one-line text of an init error.
pub open spec fn init_error_text(e: InitErrView) -> Seq<char> {
    match e {
        InitErrView::UnableToOpenFile { filename } => "unable to open the file "@ + filename,
        InitErrView::WrongQuerySyntax { position } => "syntax error in the query at position "@
            + dec_digits(position as nat),
        InitErrView::StageUnknownName { unknown_name } => "unknown stage : "@ + unknown_name,
        InitErrView::StageWrongNumberArgs { stage_name, expected, got } => {
            "wrong number of arguments for stage "@ + stage_name + ", expected "@ + dec_digits(
                expected as nat,
            ) + ", got "@ + dec_digits(got as nat)
        },
        InitErrView::StageWrongArgType { stage_name, arg_pos } => "argument #"@ + dec_digits(
            arg_pos as nat,
        ) + " of stage "@ + stage_name + " is of wrong type"@
    }
}

impl InitError {
    /// The one-line human-readable message of this error.
    pub fn message(&self) -> (r: String)
        ensures
            r@ == init_error_text(self@),
    {
        match self {
            InitError::UnableToOpenFile { filename } => {
                let mut s = String::from_str("unable to open the file ");
                s.append(filename.as_str());
                s
            },
            InitError::WrongQuerySyntax { position } => {
                let mut s = String::from_str("syntax error in the query at position ");
                let mut digits: Vec<char> = Vec::new();
                push_u64_digits(&mut digits, *position as u64);
                s.append(chars_to_string(&digits).as_str());
                proof {
                    assert(*position as u64 as nat == *position as nat);
                }
                s
            },
            InitError::StageUnknownName { unknown_name } => {
                let mut s = String::from_str("unknown stage : ");
                s.append(unknown_name.as_str());
                s
            },
            InitError::StageWrongNumberArgs { stage_name, expected, got } => {
                let mut s = String::from_str("wrong number of arguments for stage ");
                s.append(stage_name.as_str());
                s.append(", expected ");
                let mut d1: Vec<char> = Vec::new();
                push_u64_digits(&mut d1, *expected as u64);
                s.append(chars_to_string(&d1).as_str());
                s.append(", got ");
                let mut d2: Vec<char> = Vec::new();
                push_u64_digits(&mut d2, *got as u64);
                s.append(chars_to_string(&d2).as_str());
                s
            },
            InitError::StageWrongArgType { stage_name, arg_pos } => {
                let mut s = String::from_str("argument #");
                let mut d: Vec<char> = Vec::new();
                push_u64_digits(&mut d, *arg_pos as u64);
                s.append(chars_to_string(&d).as_str());
                s.append(" of stage ");
                s.append(stage_name.as_str());
                s.append(" is of wrong type");
                s
            },
        }
    }
}

/// An error raised by a stage while values flow through the pipeline.
#[derive(Debug)]
pub enum PipelineError {
    /// A number was expected at `path` inside the ingested value.
    NotANumber { value: JsonValue, path: JsonPath },
    /// An object was expected.
    NotAnObject { value: JsonValue },
    /// Nothing stands at `path` inside the ingested value, and the stage is
    /// strict.
    MissingValue { path: JsonPath },
    /// The output sink refused a write.
    UnableToWriteOutput,
}

/// The model of a pipeline error.
pub enum PipeErrView {
    NotANumber { value: JsonVal, path: Seq<PathStepView> },
    NotAnObject { value: JsonVal },
    MissingValue { path: Seq<PathStepView> },
    UnableToWriteOutput,
}

impl View for PipelineError {
    type V = PipeErrView;

    open spec fn view(&self) -> PipeErrView {
        match self {
            PipelineError::NotANumber { value, path } => PipeErrView::NotANumber {
                value: value@,
                path: path@,
            },
            PipelineError::NotAnObject { value } => PipeErrView::NotAnObject { value: value@ },
            PipelineError::MissingValue { path } => PipeErrView::MissingValue { path: path@ },
            PipelineError::UnableToWriteOutput => PipeErrView::UnableToWriteOutput,
        }
    }
}

/// The one-line text of a pipeline error.
pub open spec fn pipeline_error_text(e: PipeErrView) -> Seq<char> {
    match e {
        PipeErrView::NotANumber { value, path } => "number expected at "@ + path_text(path)
            + " but got "@ + compact(value),
        PipeErrView::NotAnObject { value } => "object expected but got "@ + compact(value),
        PipeErrView::MissingValue { path } => "missing value at "@ + path_text(path),
        PipeErrView::UnableToWriteOutput => "unable to write to output"@,
    }
}

impl PipelineError {
    /// The one-line human-readable message of this error.
    pub fn message(&self) -> (r: String)
        ensures
            r@ == pipeline_error_text(self@),
    {
        match self {
            PipelineError::NotANumber { value, path } => {
                let mut s = String::from_str("number expected at ");
                s.append(path_to_string(path).as_str());
                s.append(" but got ");
                let mut rendered: Vec<char> = Vec::new();
                push_compact(value, &mut rendered);
                s.append(chars_to_string(&rendered).as_str());
                s
            },
            PipelineError::NotAnObject { value } => {
                let mut s = String::from_str("object expected but got ");
                let mut rendered: Vec<char> = Vec::new();
                push_compact(value, &mut rendered);
                s.append(chars_to_string(&rendered).as_str());
                s
            },
            PipelineError::MissingValue { path } => {
                let mut s = String::from_str("missing value at ");
                s.append(path_to_string(path).as_str());
                s
            },
            PipelineError::UnableToWriteOutput => String::from_str("unable to write to output"),
        }
    }
}

} // verus!
