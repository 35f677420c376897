//! A streaming JSON query engine: it reads a stream of concatenated JSON
//! values, selects the sub-documents matched by a path/filter expression,
//! pushes each one through a pipeline of transforming and aggregating
//! stages, and emits the results as JSON text lines.
//!
//! `parse_from_args` is the whole run: compile the query, walk the stream
//! selectively, deliver `finish`, and hand back the output lines. Its
//! contract composes the grammar of the query (`sp_query`), the registry
//! (`sp_build`), the grammar of the input (`sp_stream`), what the filter
//! keeps (`matched_stream`), and the pipeline's transition functions
//! (`feed`, `pipe_finish`).

pub mod args_parser;
pub mod error;
pub mod filter;
pub mod float_ops;
pub mod json_path;
pub mod json_value;
pub mod parse_and_keep;
pub mod parse_and_throw;
pub mod parse_basics;
pub mod parse_query;
pub mod parse_smart;
pub mod pipeline;
pub mod pipeline_builder;
pub mod write_json;

use vstd::prelude::*;
use vstd::string::StringExecFns;

use crate::args_parser::ArgStruct;
use crate::error::{init_error_text, pipeline_error_text, InitError};
use crate::parse_basics::{lex, ws_end};
use crate::parse_query::{sp_build, sp_query};
use crate::parse_smart::{matched_stream, parse_stream, sp_stream, ParserState, StreamError};
use crate::pipeline::{feed, lines_view, pipe_finish};
use crate::pipeline_builder::{fresh_writer, PipelineBuilder};
use crate::write_json::{chars_to_string, dec_digits, push_u64_digits};

verus! {

broadcast use vstd::seq::group_seq_axioms, vstd::std_specs::vec::group_vec_axioms;

/// Anything that can end a run: an error before the stream is touched, or
/// one that aborts the stream.
#[derive(Debug)]
pub enum RunError {
    Init(InitError),
    Stream(StreamError),
}

/// The one-line text of a run error.
pub open spec fn run_error_text(e: RunError) -> Seq<char> {
    match e {
        RunError::Init(ie) => init_error_text(ie@),
        RunError::Stream(StreamError::Syntax { position }) => {
            "syntax error in the input at position "@ + dec_digits(position as nat)
        },
        RunError::Stream(StreamError::Pipe(pe)) => pipeline_error_text(pe@),
    }
}

impl RunError {
    /// The one-line human-readable message of this error.
    pub fn message(&self) -> (r: String)
        ensures
            r@ == run_error_text(*self),
    {
        match self {
            RunError::Init(ie) => ie.message(),
            RunError::Stream(StreamError::Syntax { position }) => {
                let mut s = String::from_str("syntax error in the input at position ");
                let mut digits: Vec<char> = Vec::new();
                push_u64_digits(&mut digits, *position as u64);
                s.append(chars_to_string(&digits).as_str());
                s
            },
            RunError::Stream(StreamError::Pipe(pe)) => pe.message(),
        }
    }
}

/// One whole run: compile the query the settings carry, walk the input
/// selectively feeding the pipeline, deliver `finish`, and give back the
/// output lines — or the first error met, be it a query error, an input
/// syntax error, or a pipeline error.
pub fn parse_from_args(args: &ArgStruct, input: &Vec<char>) -> (r: Result<Vec<String>, RunError>)
    requires
        args.query@.len() < usize::MAX,
        input@.len() < usize::MAX,
    ensures
        match sp_query(
            args.query@,
            args.max_text_length as int,
            (args.query@.len() + 1) as nat,
        ) {
            Err(p) => (r matches Err(RunError::Init(e)) && (e@ matches
            crate::error::InitErrView::WrongQuerySyntax { position } && position == p)),
            Ok((fview, stages)) => match sp_build(stages, fresh_writer(args.pretty)) {
                Err(ev) => r matches Err(RunError::Init(e)) && e@ == ev,
                Ok(p0) => match sp_stream(
                    input@,
                    ws_end(input@, 0),
                    args.max_text_length as int,
                    (input@.len() + 1) as nat,
                ) {
                    Err(p) => (r matches Err(RunError::Stream(e)) && (e matches
                    StreamError::Syntax { position } ==> position == p)),
                    Ok(vs) => {
                        let fed = feed(p0, matched_stream(vs, Seq::empty(), fview));
                        if fed.1 is Some {
                            r matches Err(RunError::Stream(StreamError::Pipe(_)))
                        } else {
                            match pipe_finish(fed.0).1 {
                                Some(ev) => (r matches Err(
                                    RunError::Stream(StreamError::Pipe(e)),
                                ) && e@ == ev),
                                None => (r matches Ok(lines) && lines_view(lines@) == pipe_finish(
                                    fed.0,
                                ).0.lines),
                            }
                        }
                    },
                },
            },
        },
{
    let builder = PipelineBuilder::from(args);
    let state = match builder.build_parser() {
        Ok(st) => st,
        Err(e) => {
            return Err(RunError::Init(e));
        },
    };
    let i0 = lex(input, 0);
    let (state, res) = parse_stream(input, i0, args.max_text_length, state, input.len() + 1);
    match res {
        Ok(()) => {},
        Err(e) => {
            return Err(RunError::Stream(e));
        },
    }
    let ParserState { filter: _, pos: _, pipeline } = state;
    let (pipeline, fres) = pipeline.finish();
    match fres {
        Ok(()) => Ok(pipeline.into_lines()),
        Err(e) => Err(RunError::Stream(StreamError::Pipe(e))),
    }
}

} // verus!
