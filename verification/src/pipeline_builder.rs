//! Turning compiled queries into runnable parser state.

use vstd::prelude::*;

use crate::args_parser::ArgStruct;
use crate::error::InitError;
use crate::json_path::{JsonPath, PathStepView};
use crate::json_value::NumberVal;
use crate::parse_query::{sp_build, sp_query};
use crate::parse_smart::ParserState;
use crate::pipeline::{pv, PipeView, Pipeline, WritePrettyStage, WriteStage};
use crate::write_json::str_to_chars;

verus! {

/// The model of a fresh terminal writer: no stages before it, nothing
/// written, no finish seen.
pub open spec fn fresh_writer(pretty_mode: bool) -> PipeView {
    PipeView {
        stages: Seq::empty(),
        pretty_mode,
        lines: Seq::empty(),
        wlog: Seq::empty(),
        wfin: 0,
    }
}

/// One argument of a stage in the query text: a number, a string, or a
/// path.
#[derive(Debug)]
pub enum StageArg {
    Number(NumberVal),
    String(String),
    Path(JsonPath),
}

/// The model of a stage argument.
pub enum StageArgView {
    Number(NumberVal),
    String(Seq<char>),
    Path(Seq<PathStepView>),
}

impl View for StageArg {
    type V = StageArgView;

    open spec fn view(&self) -> StageArgView {
        match self {
            StageArg::Number(n) => StageArgView::Number(*n),
            StageArg::String(s) => StageArgView::String(s@),
            StageArg::Path(p) => StageArgView::Path(p@),
        }
    }
}

/// Builds the run's moving parts out of the settings.
pub struct PipelineBuilder<'a>(pub &'a ArgStruct);

impl<'a> PipelineBuilder<'a> {
    /// A builder over the given settings.
    pub fn from(args: &'a ArgStruct) -> (r: PipelineBuilder<'a>)
        ensures
            r.0 == args,
    {
        PipelineBuilder(args)
    }

    /// Compile the query into a ready parser state: the filter, the root
    /// path, and the pipeline its stages build in front of a fresh writer
    /// (pretty or compact as the settings say).
    pub fn build_parser(&self) -> (r: Result<ParserState, InitError>)
        requires
            self.0.query@.len() < usize::MAX,
        ensures
            match sp_query(
                self.0.query@,
                self.0.max_text_length as int,
                (self.0.query@.len() + 1) as nat,
            ) {
                Err(p) => (r matches Err(e) && (e@ matches
                crate::error::InitErrView::WrongQuerySyntax { position } && position == p)),
                Ok((fview, stages)) => match sp_build(stages, fresh_writer(self.0.pretty)) {
                    Ok(pview) => (r matches Ok(st) && st.filter@ == fview && st.pos@ == Seq::<
                        PathStepView,
                    >::empty() && pv(st.pipeline) == pview),
                    Err(ev) => r matches Err(e) && e@ == ev,
                },
            },
    {
        let output = if self.0.pretty {
            Pipeline::WritePretty(WritePrettyStage::new())
        } else {
            Pipeline::Write(WriteStage::new())
        };
        proof {
            assert(pv(output).lines =~= fresh_writer(self.0.pretty).lines);
            assert(pv(output) =~= fresh_writer(self.0.pretty));
        }
        let query_chars = str_to_chars(self.0.query.as_str());
        match crate::parse_query::parse_query(self.0.max_text_length, output, &query_chars) {
            Ok((filter, pipeline)) => Ok(ParserState::new(pipeline, filter)),
            Err(e) => Err(e),
        }
    }
}

} // verus!
