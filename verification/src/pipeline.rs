//! The pipeline of stages that matched sub-documents flow through.
//!
//! A pipeline is a linear chain: zero or more transforming or aggregating
//! stages, then a terminal writer that renders each value it receives as one
//! line of JSON text. Every stage answers two calls: `ingest`, one matched
//! value in document order, and `finish`, delivered once at end of input and
//! passed head-to-tail, on which an aggregator flushes and resets.
//!
//! The model of a pipeline is `PipeView`: the stages' states head-to-tail
//! and the writer's buffered lines. `ingest` and `finish` are specified by
//! the transition functions `pipe_ingest` and `pipe_finish`, exactly. Each
//! stage also carries two instrumentation fields: the log of the values it
//! has received, and the count of `finish` calls it has seen.

use vstd::prelude::*;
use vstd::string::StringExecFns;

use crate::error::{InitErrView, PipeErrView, PipelineError};
use crate::float_ops::{add_bits, div_bits, f64_add, f64_div, f64_of_i64, f64_of_u64, i64_to_bits,
    u64_to_bits};
use crate::json_path::{JsonPath, PathStepView};
use crate::json_value::{jv, obj_without, spec_select, JsonVal, JsonValue, NumberVal};
use crate::pipeline_builder::StageArg;
use crate::write_json::{compact, pretty, to_json_string, to_json_string_pretty};
use crate::error::InitError;

verus! {

broadcast use vstd::seq::group_seq_axioms, vstd::std_specs::vec::group_vec_axioms;

/// The model of one stage's state.
pub enum StageView {
    AddField { key: Seq<char>, value: JsonVal, log: Seq<JsonVal>, fin: nat },
    Sum {
        acc: Option<NumberVal>,
        path: Seq<PathStepView>,
        strict: bool,
        log: Seq<JsonVal>,
        fin: nat,
    },
    Mean {
        acc: u64,
        count: u64,
        path: Seq<PathStepView>,
        strict: bool,
        log: Seq<JsonVal>,
        fin: nat,
    },
    Select { path: Seq<PathStepView>, log: Seq<JsonVal>, fin: nat },
}

/// The model of a whole pipeline: the stages head-to-tail, then the terminal
/// writer with its mode, its buffered output lines, and its own log and
/// finish count.
#[verifier::ext_equal]
pub struct PipeView {
    pub stages: Seq<StageView>,
    pub pretty_mode: bool,
    pub lines: Seq<Seq<char>>,
    pub wlog: Seq<JsonVal>,
    pub wfin: nat,
}

/// The line the writer renders for a value.
pub open spec fn rendered(v: JsonVal, pretty_mode: bool) -> Seq<char> {
    if pretty_mode {
        pretty(v, Seq::empty())
    } else {
        compact(v)
    }
}

/// The bits of the double a number stands for.
pub open spec fn num_bits(n: NumberVal) -> u64 {
    match n {
        NumberVal::Integer(i) => f64_of_i64(i),
        NumberVal::Float(b) => b,
    }
}

/// One `ingest`: what the pipeline becomes when a value arrives at its head,
/// and the error it reports, if any. The writer renders the value as a line.
/// `add_field` requires an object, sets the field and passes the value on.
/// `select` passes on the sub-value at its path and silently drops a value
/// that has none. `sum` and `mean` fold the number at their path into their
/// accumulator, fail on a value that is no number, and on a missing one fail
/// only when strict.
pub open spec fn pipe_ingest(p: PipeView, v: JsonVal) -> (PipeView, Option<PipeErrView>)
    decreases p.stages.len(),
{
    if p.stages.len() == 0 {
        (
            PipeView {
                stages: p.stages,
                pretty_mode: p.pretty_mode,
                lines: p.lines.push(rendered(v, p.pretty_mode)),
                wlog: p.wlog.push(v),
                wfin: p.wfin,
            },
            None,
        )
    } else {
        let rest = PipeView {
            stages: p.stages.drop_first(),
            pretty_mode: p.pretty_mode,
            lines: p.lines,
            wlog: p.wlog,
            wfin: p.wfin,
        };
        match p.stages.first() {
            StageView::AddField { key, value, log, fin } => {
                let head = StageView::AddField { key, value, log: log.push(v), fin };
                match v {
                    JsonVal::Object(fields) => {
                        let v2 = JsonVal::Object(obj_without(fields, key).push((key, value)));
                        let (rest2, e) = pipe_ingest(rest, v2);
                        (with_head(head, rest2), e)
                    },
                    _ => (with_head(head, rest), Some(PipeErrView::NotAnObject { value: v })),
                }
            },
            StageView::Sum { acc, path, strict, log, fin } => {
                match spec_select(v, path) {
                    Some(JsonVal::Number(n)) => {
                        let acc2 = match acc {
                            None => Some(n),
                            Some(a) => Some(a.spec_plus(n)),
                        };
                        (
                            with_head(
                                StageView::Sum { acc: acc2, path, strict, log: log.push(v), fin },
                                rest,
                            ),
                            None,
                        )
                    },
                    Some(other) => (
                        with_head(
                            StageView::Sum { acc, path, strict, log: log.push(v), fin },
                            rest,
                        ),
                        Some(PipeErrView::NotANumber { value: other, path }),
                    ),
                    None => (
                        with_head(
                            StageView::Sum { acc, path, strict, log: log.push(v), fin },
                            rest,
                        ),
                        if strict {
                            Some(PipeErrView::MissingValue { path })
                        } else {
                            None
                        },
                    ),
                }
            },
            StageView::Mean { acc, count, path, strict, log, fin } => {
                match spec_select(v, path) {
                    Some(JsonVal::Number(n)) => {
                        let acc2 = f64_add(acc, num_bits(n));
                        let count2: u64 = if count == u64::MAX {
                            count
                        } else {
                            (count + 1) as u64
                        };
                        (
                            with_head(
                                StageView::Mean {
                                    acc: acc2,
                                    count: count2,
                                    path,
                                    strict,
                                    log: log.push(v),
                                    fin,
                                },
                                rest,
                            ),
                            None,
                        )
                    },
                    Some(other) => (
                        with_head(
                            StageView::Mean { acc, count, path, strict, log: log.push(v), fin },
                            rest,
                        ),
                        Some(PipeErrView::NotANumber { value: other, path }),
                    ),
                    None => (
                        with_head(
                            StageView::Mean { acc, count, path, strict, log: log.push(v), fin },
                            rest,
                        ),
                        if strict {
                            Some(PipeErrView::MissingValue { path })
                        } else {
                            None
                        },
                    ),
                }
            },
            StageView::Select { path, log, fin } => {
                let head = StageView::Select { path, log: log.push(v), fin };
                match spec_select(v, path) {
                    Some(sub) => {
                        let (rest2, e) = pipe_ingest(rest, sub);
                        (with_head(head, rest2), e)
                    },
                    None => (with_head(head, rest), None),
                }
            },
        }
    }
}

/// A pipeline with a stage put back at its head.
pub open spec fn with_head(head: StageView, rest: PipeView) -> PipeView {
    PipeView {
        stages: seq![head] + rest.stages,
        pretty_mode: rest.pretty_mode,
        lines: rest.lines,
        wlog: rest.wlog,
        wfin: rest.wfin,
    }
}

/// One stage's finish count.
pub open spec fn fin_of(sv: StageView) -> nat {
    match sv {
        StageView::AddField { fin, .. } => fin,
        StageView::Sum { fin, .. } => fin,
        StageView::Mean { fin, .. } => fin,
        StageView::Select { fin, .. } => fin,
    }
}

/// The finish counts of every stage, head-to-tail, the writer last.
pub open spec fn fin_counts(p: PipeView) -> Seq<nat> {
    Seq::new(
        p.stages.len(),
        |i: int|
            if 0 <= i < p.stages.len() {
                fin_of(p.stages[i])
            } else {
                vstd::pervasive::arbitrary()
            },
    ).push(p.wfin)
}

/// The log of the pipeline's head: every value the pipeline has been handed,
/// in order.
pub open spec fn head_log(p: PipeView) -> Seq<JsonVal> {
    if p.stages.len() == 0 {
        p.wlog
    } else {
        match p.stages.first() {
            StageView::AddField { log, .. } => log,
            StageView::Sum { log, .. } => log,
            StageView::Mean { log, .. } => log,
            StageView::Select { log, .. } => log,
        }
    }
}

/// One `finish`: every stage flushes and resets, hands `finish` on to its
/// successor, and counts the call; the first error met is reported, and the
/// chain is completed either way. `sum` flushes its accumulated number, a
/// zero integer if it never saw one; `mean` flushes the double `acc/count`
/// when it counted anything, and nothing otherwise; the writer and the other
/// stages only pass the call on.
pub open spec fn pipe_finish(p: PipeView) -> (PipeView, Option<PipeErrView>)
    decreases p.stages.len(),
    via pipe_finish_decreases
{
    if p.stages.len() == 0 {
        (
            PipeView {
                stages: p.stages,
                pretty_mode: p.pretty_mode,
                lines: p.lines,
                wlog: p.wlog,
                wfin: p.wfin + 1,
            },
            None,
        )
    } else {
        let rest = PipeView {
            stages: p.stages.drop_first(),
            pretty_mode: p.pretty_mode,
            lines: p.lines,
            wlog: p.wlog,
            wfin: p.wfin,
        };
        match p.stages.first() {
            StageView::AddField { key, value, log, fin } => {
                let (rest2, e) = pipe_finish(rest);
                (with_head(StageView::AddField { key, value, log, fin: fin + 1 }, rest2), e)
            },
            StageView::Sum { acc, path, strict, log, fin } => {
                let flushed = match acc {
                    Some(a) => a,
                    None => NumberVal::Integer(0),
                };
                let (rest1, e1) = pipe_ingest(rest, JsonVal::Number(flushed));
                let (rest2, e2) = pipe_finish(rest1);
                (
                    with_head(
                        StageView::Sum { acc: None, path, strict, log, fin: fin + 1 },
                        rest2,
                    ),
                    if e1 is Some {
                        e1
                    } else {
                        e2
                    },
                )
            },
            StageView::Mean { acc, count, path, strict, log, fin } => {
                let (rest1, e1) = if count > 0 {
                    pipe_ingest(rest, JsonVal::Number(NumberVal::Float(f64_div(acc, f64_of_u64(count)))))
                } else {
                    (rest, None)
                };
                let (rest2, e2) = pipe_finish(rest1);
                (
                    with_head(
                        StageView::Mean { acc: 0, count: 0, path, strict, log, fin: fin + 1 },
                        rest2,
                    ),
                    if e1 is Some {
                        e1
                    } else {
                        e2
                    },
                )
            },
            StageView::Select { path, log, fin } => {
                let (rest2, e) = pipe_finish(rest);
                (with_head(StageView::Select { path, log, fin: fin + 1 }, rest2), e)
            },
        }
    }
}

/// `ingest` never changes the shape of the chain: the stage count, the
/// writer's mode, and each stage's kind, path and finish count stay as they
/// were.
pub proof fn lemma_pipe_ingest_len(p: PipeView, v: JsonVal)
    ensures
        pipe_ingest(p, v).0.stages.len() == p.stages.len(),
        pipe_ingest(p, v).0.pretty_mode == p.pretty_mode,
    decreases p.stages.len(),
{
    if p.stages.len() > 0 {
        let rest = PipeView {
            stages: p.stages.drop_first(),
            pretty_mode: p.pretty_mode,
            lines: p.lines,
            wlog: p.wlog,
            wfin: p.wfin,
        };
        match p.stages.first() {
            StageView::AddField { key, value, log, fin } => {
                match v {
                    JsonVal::Object(fields) => {
                        lemma_pipe_ingest_len(
                            rest,
                            JsonVal::Object(obj_without(fields, key).push((key, value))),
                        );
                    },
                    _ => {},
                }
            },
            StageView::Select { path, log, fin } => {
                match spec_select(v, path) {
                    Some(sub) => {
                        lemma_pipe_ingest_len(rest, sub);
                    },
                    None => {},
                }
            },
            _ => {},
        }
    }
}

#[via_fn]
proof fn pipe_finish_decreases(p: PipeView) {
    assert forall|q: PipeView, v: JsonVal| (#[trigger] pipe_ingest(q, v)).0.stages.len()
        == q.stages.len() by {
        lemma_pipe_ingest_len(q, v);
    }
}

/// The model of the writer's buffered lines.
pub open spec fn lines_view(ls: Seq<String>) -> Seq<Seq<char>> {
    Seq::new(
        ls.len(),
        |i: int|
            if 0 <= i < ls.len() {
                ls[i]@
            } else {
                vstd::pervasive::arbitrary()
            },
    )
}

/// The terminal stage: renders each value as one line of compact JSON.
pub struct WriteStage {
    pub lines: Vec<String>,
    pub log: Ghost<Seq<JsonVal>>,
    pub fin: Ghost<nat>,
}

impl WriteStage {
    /// A fresh compact writer with nothing written yet.
    pub fn new() -> (r: WriteStage)
        ensures
            r.lines@.len() == 0,
            r.log@ == Seq::<JsonVal>::empty(),
            r.fin@ == 0,
    {
        WriteStage { lines: Vec::new(), log: Ghost(Seq::empty()), fin: Ghost(0) }
    }
}

/// The terminal stage in pretty mode: renders each value as indented JSON.
pub struct WritePrettyStage {
    pub lines: Vec<String>,
    pub log: Ghost<Seq<JsonVal>>,
    pub fin: Ghost<nat>,
}

impl WritePrettyStage {
    /// A fresh pretty writer with nothing written yet.
    pub fn new() -> (r: WritePrettyStage)
        ensures
            r.lines@.len() == 0,
            r.log@ == Seq::<JsonVal>::empty(),
            r.fin@ == 0,
    {
        WritePrettyStage { lines: Vec::new(), log: Ghost(Seq::empty()), fin: Ghost(0) }
    }
}

/// A stage that sets one field of every object passing through.
pub struct AddFieldStage {
    pub key: String,
    pub value: JsonValue,
    pub log: Ghost<Seq<JsonVal>>,
    pub fin: Ghost<nat>,
    pub output: Box<Pipeline>,
}

/// A stage that sums the number at a path across the stream.
pub struct SumStage {
    pub acc: Option<NumberVal>,
    pub summed_value: JsonPath,
    pub strict: bool,
    pub log: Ghost<Seq<JsonVal>>,
    pub fin: Ghost<nat>,
    pub output: Box<Pipeline>,
}

/// A stage that averages the number at a path across the stream.
pub struct MeanStage {
    pub acc: u64,
    pub count: u64,
    pub meaned_value: JsonPath,
    pub strict: bool,
    pub log: Ghost<Seq<JsonVal>>,
    pub fin: Ghost<nat>,
    pub output: Box<Pipeline>,
}

/// A stage that passes on the sub-value at a path and drops the values that
/// have none.
pub struct SelectStage {
    pub selected_value: JsonPath,
    pub log: Ghost<Seq<JsonVal>>,
    pub fin: Ghost<nat>,
    pub output: Box<Pipeline>,
}

/// A runnable pipeline: a chain of stages ending in a writer.
pub enum Pipeline {
    Write(WriteStage),
    WritePretty(WritePrettyStage),
    AddField(AddFieldStage),
    Sum(SumStage),
    Mean(MeanStage),
    Select(SelectStage),
}

/// The model of a pipeline.
pub open spec fn pv(p: Pipeline) -> PipeView
    decreases p,
{
    match p {
        Pipeline::Write(w) => PipeView {
            stages: Seq::empty(),
            pretty_mode: false,
            lines: lines_view(w.lines@),
            wlog: w.log@,
            wfin: w.fin@,
        },
        Pipeline::WritePretty(w) => PipeView {
            stages: Seq::empty(),
            pretty_mode: true,
            lines: lines_view(w.lines@),
            wlog: w.log@,
            wfin: w.fin@,
        },
        Pipeline::AddField(st) => with_head(
            StageView::AddField { key: st.key@, value: jv(st.value), log: st.log@, fin: st.fin@ },
            pv(*st.output),
        ),
        Pipeline::Sum(st) => with_head(
            StageView::Sum {
                acc: st.acc,
                path: st.summed_value@,
                strict: st.strict,
                log: st.log@,
                fin: st.fin@,
            },
            pv(*st.output),
        ),
        Pipeline::Mean(st) => with_head(
            StageView::Mean {
                acc: st.acc,
                count: st.count,
                path: st.meaned_value@,
                strict: st.strict,
                log: st.log@,
                fin: st.fin@,
            },
            pv(*st.output),
        ),
        Pipeline::Select(st) => with_head(
            StageView::Select { path: st.selected_value@, log: st.log@, fin: st.fin@ },
            pv(*st.output),
        ),
    }
}

impl View for Pipeline {
    type V = PipeView;

    open spec fn view(&self) -> PipeView {
        pv(*self)
    }
}

impl Pipeline {
    /// Hand one value to the head of the pipeline; gives back the pipeline
    /// as it then stands and what the stages reported, exactly as
    /// `pipe_ingest` states.
    pub fn ingest(self, item: JsonValue) -> (r: (Pipeline, Result<(), PipelineError>))
        ensures
            pv(r.0) == pipe_ingest(pv(self), item@).0,
            match r.1 {
                Ok(()) => pipe_ingest(pv(self), item@).1 is None,
                Err(e) => pipe_ingest(pv(self), item@).1 == Some(e@),
            },
        decreases self,
    {
        let ghost pself = pv(self);
        let ghost iv = item@;
        match self {
            Pipeline::Write(w) => {
                let WriteStage { mut lines, log, fin } = w;
                let line = to_json_string(&item);
                lines.push(line);
                let ghost log2 = log@.push(iv);
                let out = Pipeline::Write(WriteStage { lines, log: Ghost(log2), fin });
                proof {
                    assert(pv(out).lines =~= pipe_ingest(pself, iv).0.lines);
                    assert(pv(out) =~= pipe_ingest(pself, iv).0);
                }
                (out, Ok(()))
            },
            Pipeline::WritePretty(w) => {
                let WritePrettyStage { mut lines, log, fin } = w;
                let line = to_json_string_pretty(&item);
                lines.push(line);
                let ghost log2 = log@.push(iv);
                let out = Pipeline::WritePretty(WritePrettyStage { lines, log: Ghost(log2), fin });
                proof {
                    assert(pv(out).lines =~= pipe_ingest(pself, iv).0.lines);
                    assert(pv(out) =~= pipe_ingest(pself, iv).0);
                }
                (out, Ok(()))
            },
            Pipeline::AddField(st) => {
                let AddFieldStage { key, value, log, fin, output } = st;
                proof {
                    assert(pself.stages.drop_first() =~= pv(*output).stages);
                    assert(pv(*output) =~= PipeView {
                        stages: pself.stages.drop_first(),
                        pretty_mode: pself.pretty_mode,
                        lines: pself.lines,
                        wlog: pself.wlog,
                        wfin: pself.wfin,
                    });
                }
                let ghost log2 = log@.push(iv);
                match item {
                    JsonValue::Object(fields) => {
                        let v2 = JsonValue::Object(
                            JsonValue::object_set(fields, &key, value.deep_clone()),
                        );
                        let inner = *output;
                        let (out2, res) = inner.ingest(v2);
                        let out = Pipeline::AddField(
                            AddFieldStage {
                                key,
                                value,
                                log: Ghost(log2),
                                fin,
                                output: Box::new(out2),
                            },
                        );
                        proof {
                            assert(pv(out) =~= pipe_ingest(pself, iv).0);
                        }
                        (out, res)
                    },
                    other => {
                        let err = PipelineError::NotAnObject { value: other };
                        let out = Pipeline::AddField(
                            AddFieldStage { key, value, log: Ghost(log2), fin, output },
                        );
                        proof {
                            assert(pv(out) =~= pipe_ingest(pself, iv).0);
                        }
                        (out, Err(err))
                    },
                }
            },
            Pipeline::Sum(st) => {
                let SumStage { acc, summed_value, strict, log, fin, output } = st;
                proof {
                    assert(pself.stages.drop_first() =~= pv(*output).stages);
                    assert(pv(*output) =~= PipeView {
                        stages: pself.stages.drop_first(),
                        pretty_mode: pself.pretty_mode,
                        lines: pself.lines,
                        wlog: pself.wlog,
                        wfin: pself.wfin,
                    });
                }
                let ghost log2 = log@.push(iv);
                let outcome: Result<(), PipelineError> = match item.select(&summed_value) {
                    Some(JsonValue::Number(_)) => Ok(()),
                    Some(other) => Err(
                        PipelineError::NotANumber {
                            value: other.deep_clone(),
                            path: summed_value.duplicate(),
                        },
                    ),
                    None => {
                        if strict {
                            Err(PipelineError::MissingValue { path: summed_value.duplicate() })
                        } else {
                            Ok(())
                        }
                    },
                };
                let found: Option<NumberVal> = match item.select(&summed_value) {
                    Some(JsonValue::Number(n)) => Some(*n),
                    _ => None,
                };
                let acc2 = match (found, acc) {
                    (Some(n), None) => Some(n),
                    (Some(n), Some(a)) => Some(a.plus(n)),
                    (None, a) => a,
                };
                let out = Pipeline::Sum(
                    SumStage {
                        acc: acc2,
                        summed_value,
                        strict,
                        log: Ghost(log2),
                        fin,
                        output,
                    },
                );
                proof {
                    assert(pv(out) =~= pipe_ingest(pself, iv).0);
                }
                (out, outcome)
            },
            Pipeline::Mean(st) => {
                let MeanStage { acc, count, meaned_value, strict, log, fin, output } = st;
                proof {
                    assert(pself.stages.drop_first() =~= pv(*output).stages);
                    assert(pv(*output) =~= PipeView {
                        stages: pself.stages.drop_first(),
                        pretty_mode: pself.pretty_mode,
                        lines: pself.lines,
                        wlog: pself.wlog,
                        wfin: pself.wfin,
                    });
                }
                let ghost log2 = log@.push(iv);
                let outcome: Result<(), PipelineError> = match item.select(&meaned_value) {
                    Some(JsonValue::Number(_)) => Ok(()),
                    Some(other) => Err(
                        PipelineError::NotANumber {
                            value: other.deep_clone(),
                            path: meaned_value.duplicate(),
                        },
                    ),
                    None => {
                        if strict {
                            Err(PipelineError::MissingValue { path: meaned_value.duplicate() })
                        } else {
                            Ok(())
                        }
                    },
                };
                let found: Option<NumberVal> = match item.select(&meaned_value) {
                    Some(JsonValue::Number(n)) => Some(*n),
                    _ => None,
                };
                let (acc2, count2): (u64, u64) = match found {
                    Some(n) => {
                        let bits = match n {
                            NumberVal::Integer(i) => crate::float_ops::i64_to_bits(i),
                            NumberVal::Float(b) => b,
                        };
                        (
                            crate::float_ops::add_bits(acc, bits),
                            if count == u64::MAX {
                                count
                            } else {
                                count + 1
                            },
                        )
                    },
                    None => (acc, count),
                };
                let out = Pipeline::Mean(
                    MeanStage {
                        acc: acc2,
                        count: count2,
                        meaned_value,
                        strict,
                        log: Ghost(log2),
                        fin,
                        output,
                    },
                );
                proof {
                    assert(pv(out) =~= pipe_ingest(pself, iv).0);
                }
                (out, outcome)
            },
            Pipeline::Select(st) => {
                let SelectStage { selected_value, log, fin, output } = st;
                proof {
                    assert(pself.stages.drop_first() =~= pv(*output).stages);
                    assert(pv(*output) =~= PipeView {
                        stages: pself.stages.drop_first(),
                        pretty_mode: pself.pretty_mode,
                        lines: pself.lines,
                        wlog: pself.wlog,
                        wfin: pself.wfin,
                    });
                }
                let ghost log2 = log@.push(iv);
                let forwarded: Option<JsonValue> = match item.select(&selected_value) {
                    Some(sub) => Some(sub.deep_clone()),
                    None => None,
                };
                match forwarded {
                    Some(sub) => {
                        let inner = *output;
                        let (out2, res) = inner.ingest(sub);
                        let out = Pipeline::Select(
                            SelectStage {
                                selected_value,
                                log: Ghost(log2),
                                fin,
                                output: Box::new(out2),
                            },
                        );
                        proof {
                            assert(pv(out) =~= pipe_ingest(pself, iv).0);
                        }
                        (out, res)
                    },
                    None => {
                        let out = Pipeline::Select(
                            SelectStage { selected_value, log: Ghost(log2), fin, output },
                        );
                        proof {
                            assert(pv(out) =~= pipe_ingest(pself, iv).0);
                        }
                        (out, Ok(()))
                    },
                }
            },
        }
    }

    /// Tell the pipeline the stream is over: every stage flushes, resets and
    /// hands the call on, exactly as `pipe_finish` states.
    pub fn finish(self) -> (r: (Pipeline, Result<(), PipelineError>))
        ensures
            pv(r.0) == pipe_finish(pv(self)).0,
            match r.1 {
                Ok(()) => pipe_finish(pv(self)).1 is None,
                Err(e) => pipe_finish(pv(self)).1 == Some(e@),
            },
        decreases pv(self).stages.len(),
    {
        let ghost pself = pv(self);
        match self {
            Pipeline::Write(w) => {
                let WriteStage { lines, log, fin } = w;
                let ghost fin2 = fin@ + 1;
                let out = Pipeline::Write(WriteStage { lines, log, fin: Ghost(fin2) });
                proof {
                    assert(pv(out) =~= pipe_finish(pself).0);
                }
                (out, Ok(()))
            },
            Pipeline::WritePretty(w) => {
                let WritePrettyStage { lines, log, fin } = w;
                let ghost fin2 = fin@ + 1;
                let out = Pipeline::WritePretty(WritePrettyStage { lines, log, fin: Ghost(fin2) });
                proof {
                    assert(pv(out) =~= pipe_finish(pself).0);
                }
                (out, Ok(()))
            },
            Pipeline::AddField(st) => {
                let AddFieldStage { key, value, log, fin, output } = st;
                proof {
                    assert(pself.stages.drop_first() =~= pv(*output).stages);
                    assert(pv(*output) =~= PipeView {
                        stages: pself.stages.drop_first(),
                        pretty_mode: pself.pretty_mode,
                        lines: pself.lines,
                        wlog: pself.wlog,
                        wfin: pself.wfin,
                    });
                }
                let inner = *output;
                let (out2, res) = inner.finish();
                let ghost fin2 = fin@ + 1;
                let out = Pipeline::AddField(
                    AddFieldStage { key, value, log, fin: Ghost(fin2), output: Box::new(out2) },
                );
                proof {
                    assert(pv(out) =~= pipe_finish(pself).0);
                }
                (out, res)
            },
            Pipeline::Sum(st) => {
                let SumStage { acc, summed_value, strict, log, fin, output } = st;
                proof {
                    assert(pself.stages.drop_first() =~= pv(*output).stages);
                    assert(pv(*output) =~= PipeView {
                        stages: pself.stages.drop_first(),
                        pretty_mode: pself.pretty_mode,
                        lines: pself.lines,
                        wlog: pself.wlog,
                        wfin: pself.wfin,
                    });
                }
                let flushed = match acc {
                    Some(a) => a,
                    None => NumberVal::Integer(0),
                };
                let inner = *output;
                let (out1, res1) = inner.ingest(JsonValue::Number(flushed));
                proof {
                    lemma_pipe_ingest_len(pv(inner), JsonVal::Number(flushed));
                }
                let (out2, res2) = out1.finish();
                let ghost fin2 = fin@ + 1;
                let out = Pipeline::Sum(
                    SumStage {
                        acc: None,
                        summed_value,
                        strict,
                        log,
                        fin: Ghost(fin2),
                        output: Box::new(out2),
                    },
                );
                let res = match res1 {
                    Ok(()) => res2,
                    Err(e) => Err(e),
                };
                proof {
                    assert(pv(out) =~= pipe_finish(pself).0);
                }
                (out, res)
            },
            Pipeline::Mean(st) => {
                let MeanStage { acc, count, meaned_value, strict, log, fin, output } = st;
                proof {
                    assert(pself.stages.drop_first() =~= pv(*output).stages);
                    assert(pv(*output) =~= PipeView {
                        stages: pself.stages.drop_first(),
                        pretty_mode: pself.pretty_mode,
                        lines: pself.lines,
                        wlog: pself.wlog,
                        wfin: pself.wfin,
                    });
                }
                let inner = *output;
                let (out1, res1) = if count > 0 {
                    let mean_bits = crate::float_ops::div_bits(
                        acc,
                        crate::float_ops::u64_to_bits(count),
                    );
                    inner.ingest(JsonValue::Number(NumberVal::Float(mean_bits)))
                } else {
                    (inner, Ok(()))
                };
                proof {
                    if count > 0 {
                        lemma_pipe_ingest_len(
                            pv(*output),
                            JsonVal::Number(NumberVal::Float(f64_div(acc, f64_of_u64(count)))),
                        );
                    }
                }
                let (out2, res2) = out1.finish();
                let ghost fin2 = fin@ + 1;
                let out = Pipeline::Mean(
                    MeanStage {
                        acc: 0,
                        count: 0,
                        meaned_value,
                        strict,
                        log,
                        fin: Ghost(fin2),
                        output: Box::new(out2),
                    },
                );
                let res = match res1 {
                    Ok(()) => res2,
                    Err(e) => Err(e),
                };
                proof {
                    assert(pv(out) =~= pipe_finish(pself).0);
                }
                (out, res)
            },
            Pipeline::Select(st) => {
                let SelectStage { selected_value, log, fin, output } = st;
                proof {
                    assert(pself.stages.drop_first() =~= pv(*output).stages);
                    assert(pv(*output) =~= PipeView {
                        stages: pself.stages.drop_first(),
                        pretty_mode: pself.pretty_mode,
                        lines: pself.lines,
                        wlog: pself.wlog,
                        wfin: pself.wfin,
                    });
                }
                let inner = *output;
                let (out2, res) = inner.finish();
                let ghost fin2 = fin@ + 1;
                let out = Pipeline::Select(
                    SelectStage {
                        selected_value,
                        log,
                        fin: Ghost(fin2),
                        output: Box::new(out2),
                    },
                );
                proof {
                    assert(pv(out) =~= pipe_finish(pself).0);
                }
                (out, res)
            },
        }
    }

    /// Take the lines the terminal writer has buffered.
    pub fn into_lines(self) -> (r: Vec<String>)
        ensures
            lines_view(r@) == pv(self).lines,
        decreases self,
    {
        match self {
            Pipeline::Write(w) => w.lines,
            Pipeline::WritePretty(w) => w.lines,
            Pipeline::AddField(st) => (*st.output).into_lines(),
            Pipeline::Sum(st) => (*st.output).into_lines(),
            Pipeline::Mean(st) => (*st.output).into_lines(),
            Pipeline::Select(st) => (*st.output).into_lines(),
        }
    }
}

impl AddFieldStage {
    /// A stage that will set `key` to `value` on every object it receives.
    pub fn new(output: Pipeline, key: &str, value: JsonValue) -> (r: AddFieldStage)
        ensures
            pv(Pipeline::AddField(r)) == with_head(
                StageView::AddField {
                    key: key@,
                    value: value@,
                    log: Seq::empty(),
                    fin: 0,
                },
                pv(output),
            ),
    {
        AddFieldStage {
            key: key.to_owned(),
            value,
            log: Ghost(Seq::empty()),
            fin: Ghost(0),
            output: Box::new(output),
        }
    }

    /// Build an `add_field` stage from the query's arguments: a field name
    /// and a string value, both NFC-normalized before use.
    pub fn from_args(output: Pipeline, args: &Vec<StageArg>) -> (r: Result<Pipeline, InitError>)
        ensures
            match r {
                Ok(p) => args@.len() == 2 && args@[0]@ is String && args@[1]@ is String && pv(p)
                    == with_head(
                    StageView::AddField {
                        key: crate::json_value::nfc_of(args@[0]@->String_0),
                        value: JsonVal::String(crate::json_value::nfc_of(args@[1]@->String_0)),
                        log: Seq::empty(),
                        fin: 0,
                    },
                    pv(output),
                ),
                Err(e) => if args@.len() != 2 {
                    e@ == InitErrView::StageWrongNumberArgs {
                        stage_name: "add_field"@,
                        expected: 2,
                        got: args.len(),
                    }
                } else {
                    !(args@[0]@ is String && args@[1]@ is String) && e@
                        == InitErrView::StageWrongArgType {
                        stage_name: "add_field"@,
                        arg_pos: if args@[0]@ is String {
                            1
                        } else {
                            0
                        },
                    }
                },
            },
    {
        if args.len() != 2 {
            return Err(
                InitError::StageWrongNumberArgs {
                    stage_name: String::from_str("add_field"),
                    expected: 2,
                    got: args.len(),
                },
            );
        }
        let key = match &args[0] {
            StageArg::String(s) => s,
            _ => {
                return Err(
                    InitError::StageWrongArgType {
                        stage_name: String::from_str("add_field"),
                        arg_pos: 0,
                    },
                );
            },
        };
        let value = match &args[1] {
            StageArg::String(s) => s,
            _ => {
                return Err(
                    InitError::StageWrongArgType {
                        stage_name: String::from_str("add_field"),
                        arg_pos: 1,
                    },
                );
            },
        };
        let key_chars = crate::write_json::str_to_chars(key.as_str());
        let normalized_key = crate::json_value::nfc_chars(key_chars.as_slice());
        let stage = Self::new(
            output,
            normalized_key.as_str(),
            JsonValue::normalized_string(value.as_str()),
        );
        Ok(Pipeline::AddField(stage))
    }
}

impl SumStage {
    /// A stage that will sum the number found at `summed_value`.
    pub fn new(output: Pipeline, summed_value: JsonPath, strict: bool) -> (r: SumStage)
        ensures
            pv(Pipeline::Sum(r)) == with_head(
                StageView::Sum {
                    acc: None,
                    path: summed_value@,
                    strict,
                    log: Seq::empty(),
                    fin: 0,
                },
                pv(output),
            ),
    {
        SumStage {
            acc: None,
            summed_value,
            strict,
            log: Ghost(Seq::empty()),
            fin: Ghost(0),
            output: Box::new(output),
        }
    }

    /// Build a `sum` stage from the query's arguments: one path.
    pub fn from_args(output: Pipeline, args: &Vec<StageArg>) -> (r: Result<Pipeline, InitError>)
        ensures
            match r {
                Ok(p) => args@.len() == 1 && args@[0]@ is Path && pv(p) == with_head(
                    StageView::Sum {
                        acc: None,
                        path: args@[0]@->Path_0,
                        strict: false,
                        log: Seq::empty(),
                        fin: 0,
                    },
                    pv(output),
                ),
                Err(e) => if args@.len() != 1 {
                    e@ == InitErrView::StageWrongNumberArgs {
                        stage_name: "sum"@,
                        expected: 1,
                        got: args.len(),
                    }
                } else {
                    !(args@[0]@ is Path) && e@ == InitErrView::StageWrongArgType {
                        stage_name: "sum"@,
                        arg_pos: 0,
                    }
                },
            },
    {
        if args.len() != 1 {
            return Err(
                InitError::StageWrongNumberArgs {
                    stage_name: String::from_str("sum"),
                    expected: 1,
                    got: args.len(),
                },
            );
        }
        match &args[0] {
            StageArg::Path(path) => Ok(
                Pipeline::Sum(Self::new(output, path.duplicate(), false)),
            ),
            _ => Err(
                InitError::StageWrongArgType { stage_name: String::from_str("sum"), arg_pos: 0 },
            ),
        }
    }
}

impl MeanStage {
    /// A stage that will average the number found at `meaned_value`.
    pub fn new(output: Pipeline, meaned_value: JsonPath, strict: bool) -> (r: MeanStage)
        ensures
            pv(Pipeline::Mean(r)) == with_head(
                StageView::Mean {
                    acc: 0,
                    count: 0,
                    path: meaned_value@,
                    strict,
                    log: Seq::empty(),
                    fin: 0,
                },
                pv(output),
            ),
    {
        MeanStage {
            acc: 0,
            count: 0,
            meaned_value,
            strict,
            log: Ghost(Seq::empty()),
            fin: Ghost(0),
            output: Box::new(output),
        }
    }

    /// Build a `mean` stage from the query's arguments: one path.
    pub fn from_args(output: Pipeline, args: &Vec<StageArg>) -> (r: Result<Pipeline, InitError>)
        ensures
            match r {
                Ok(p) => args@.len() == 1 && args@[0]@ is Path && pv(p) == with_head(
                    StageView::Mean {
                        acc: 0,
                        count: 0,
                        path: args@[0]@->Path_0,
                        strict: false,
                        log: Seq::empty(),
                        fin: 0,
                    },
                    pv(output),
                ),
                Err(e) => if args@.len() != 1 {
                    e@ == InitErrView::StageWrongNumberArgs {
                        stage_name: "mean"@,
                        expected: 1,
                        got: args.len(),
                    }
                } else {
                    !(args@[0]@ is Path) && e@ == InitErrView::StageWrongArgType {
                        stage_name: "mean"@,
                        arg_pos: 0,
                    }
                },
            },
    {
        if args.len() != 1 {
            return Err(
                InitError::StageWrongNumberArgs {
                    stage_name: String::from_str("mean"),
                    expected: 1,
                    got: args.len(),
                },
            );
        }
        match &args[0] {
            StageArg::Path(path) => Ok(
                Pipeline::Mean(Self::new(output, path.duplicate(), false)),
            ),
            _ => Err(
                InitError::StageWrongArgType { stage_name: String::from_str("mean"), arg_pos: 0 },
            ),
        }
    }
}

impl SelectStage {
    /// A stage that will pass on the sub-value found at `selected_value`.
    pub fn new(output: Pipeline, selected_value: JsonPath) -> (r: SelectStage)
        ensures
            pv(Pipeline::Select(r)) == with_head(
                StageView::Select { path: selected_value@, log: Seq::empty(), fin: 0 },
                pv(output),
            ),
    {
        SelectStage {
            selected_value,
            log: Ghost(Seq::empty()),
            fin: Ghost(0),
            output: Box::new(output),
        }
    }

    /// Build a `select` stage from the query's arguments: one path.
    pub fn from_args(output: Pipeline, args: &Vec<StageArg>) -> (r: Result<Pipeline, InitError>)
        ensures
            match r {
                Ok(p) => args@.len() == 1 && args@[0]@ is Path && pv(p) == with_head(
                    StageView::Select {
                        path: args@[0]@->Path_0,
                        log: Seq::empty(),
                        fin: 0,
                    },
                    pv(output),
                ),
                Err(e) => if args@.len() != 1 {
                    e@ == InitErrView::StageWrongNumberArgs {
                        stage_name: "select"@,
                        expected: 1,
                        got: args.len(),
                    }
                } else {
                    !(args@[0]@ is Path) && e@ == InitErrView::StageWrongArgType {
                        stage_name: "select"@,
                        arg_pos: 0,
                    }
                },
            },
    {
        if args.len() != 1 {
            return Err(
                InitError::StageWrongNumberArgs {
                    stage_name: String::from_str("select"),
                    expected: 1,
                    got: args.len(),
                },
            );
        }
        match &args[0] {
            StageArg::Path(path) => Ok(Pipeline::Select(Self::new(output, path.duplicate()))),
            _ => Err(
                InitError::StageWrongArgType {
                    stage_name: String::from_str("select"),
                    arg_pos: 0,
                },
            ),
        }
    }
}

/// The finish counts of a chain are its head's count before the rest's.
proof fn lemma_fin_counts_with_head(h: StageView, r: PipeView)
    ensures
        fin_counts(with_head(h, r)) =~= seq![fin_of(h)] + fin_counts(r),
{
}

/// `ingest` never touches a finish count.
pub proof fn lemma_pipe_ingest_fin(p: PipeView, v: JsonVal)
    ensures
        fin_counts(pipe_ingest(p, v).0) =~= fin_counts(p),
    decreases p.stages.len(),
{
    if p.stages.len() > 0 {
        let rest = PipeView {
            stages: p.stages.drop_first(),
            pretty_mode: p.pretty_mode,
            lines: p.lines,
            wlog: p.wlog,
            wfin: p.wfin,
        };
        match p.stages.first() {
            StageView::AddField { key, value, log, fin } => {
                match v {
                    JsonVal::Object(fields) => {
                        lemma_pipe_ingest_fin(
                            rest,
                            JsonVal::Object(obj_without(fields, key).push((key, value))),
                        );
                    },
                    _ => {},
                }
            },
            StageView::Select { path, log, fin } => {
                match spec_select(v, path) {
                    Some(sub) => {
                        lemma_pipe_ingest_fin(rest, sub);
                    },
                    None => {},
                }
            },
            _ => {},
        }
        assert(fin_counts(p) =~= seq![fin_of(p.stages.first())] + fin_counts(rest));
        let (res, e) = pipe_ingest(p, v);
        assert(res.stages.len() >= 1 && fin_of(res.stages.first()) == fin_of(p.stages.first()));
        assert(fin_counts(res) =~= seq![fin_of(res.stages.first())] + fin_counts(
            PipeView {
                stages: res.stages.drop_first(),
                pretty_mode: res.pretty_mode,
                lines: res.lines,
                wlog: res.wlog,
                wfin: res.wfin,
            },
        ));
        assert(fin_counts(pipe_ingest(p, v).0) =~= fin_counts(p));
    } else {
        assert(fin_counts(pipe_ingest(p, v).0) =~= fin_counts(p));
    }
}

/// One `finish` is delivered to every stage exactly once, head to tail: each
/// stage's finish count, and the writer's, grows by exactly one.
pub proof fn lemma_finish_reaches_every_stage(p: PipeView)
    ensures
        fin_counts(pipe_finish(p).0).len() == fin_counts(p).len(),
        forall|i: int|
            0 <= i < fin_counts(p).len() ==> fin_counts(pipe_finish(p).0)[i] == fin_counts(p)[i]
                + 1,
    decreases p.stages.len(),
{
    if p.stages.len() == 0 {
        assert(fin_counts(pipe_finish(p).0).len() == fin_counts(p).len());
    } else {
        let rest = PipeView {
            stages: p.stages.drop_first(),
            pretty_mode: p.pretty_mode,
            lines: p.lines,
            wlog: p.wlog,
            wfin: p.wfin,
        };
        let head = p.stages.first();
        let rest1 = match head {
            StageView::Sum { acc, path, strict, log, fin } => {
                let flushed = match acc {
                    Some(a) => a,
                    None => NumberVal::Integer(0),
                };
                lemma_pipe_ingest_fin(rest, JsonVal::Number(flushed));
                pipe_ingest(rest, JsonVal::Number(flushed)).0
            },
            StageView::Mean { acc, count, path, strict, log, fin } => {
                if count > 0 {
                    let flushed = JsonVal::Number(
                        NumberVal::Float(f64_div(acc, f64_of_u64(count))),
                    );
                    lemma_pipe_ingest_fin(rest, flushed);
                    pipe_ingest(rest, flushed).0
                } else {
                    rest
                }
            },
            _ => rest,
        };
        lemma_finish_reaches_every_stage(rest1);
        let rest2 = pipe_finish(rest1).0;
        let res = pipe_finish(p).0;
        assert(res =~= with_head(res.stages.first(), rest2));
        assert(fin_of(res.stages.first()) == fin_of(head) + 1);
        assert(fin_counts(p) =~= seq![fin_of(head)] + fin_counts(rest));
        assert(fin_counts(res) =~= seq![fin_of(head) + 1] + fin_counts(rest2));
        assert(fin_counts(rest1) =~= fin_counts(rest));
        assert forall|i: int|
            0 <= i < fin_counts(p).len() implies fin_counts(pipe_finish(p).0)[i] == fin_counts(
            p,
        )[i] + 1 by {
            if i > 0 {
                assert(fin_counts(p)[i] == fin_counts(rest)[i - 1]);
                assert(fin_counts(res)[i] == fin_counts(rest2)[i - 1]);
                assert(fin_counts(rest2)[i - 1] == fin_counts(rest1)[i - 1] + 1);
            }
        }
    }
}

/// `ingest` appends the value to the head's log: the pipeline's head sees
/// every value handed to the pipeline, in order.
pub proof fn lemma_ingest_head_log(p: PipeView, v: JsonVal)
    ensures
        head_log(pipe_ingest(p, v).0) == head_log(p).push(v),
{
}

/// Hand a sequence of values to a pipeline, one `ingest` after the other,
/// stopping at the first error.
pub open spec fn feed(p: PipeView, vs: Seq<JsonVal>) -> (PipeView, Option<PipeErrView>)
    decreases vs.len(),
{
    if vs.len() == 0 {
        (p, None)
    } else {
        let (p1, e1) = pipe_ingest(p, vs.first());
        if e1 is Some {
            (p1, e1)
        } else {
            feed(p1, vs.drop_first())
        }
    }
}

/// Feeding one batch of values and then another is feeding their
/// concatenation, as long as the first batch raises no error.
pub proof fn lemma_feed_concat(p: PipeView, a: Seq<JsonVal>, b: Seq<JsonVal>)
    requires
        feed(p, a).1 is None,
    ensures
        feed(p, a + b) == feed(feed(p, a).0, b),
    decreases a.len(),
{
    if a.len() == 0 {
        assert(a + b =~= b);
    } else {
        let (p1, e1) = pipe_ingest(p, a.first());
        assert((a + b).first() == a.first());
        assert((a + b).drop_first() =~= a.drop_first() + b);
        lemma_feed_concat(p1, a.drop_first(), b);
    }
}

/// A feed that fails on its first batch fails the same way on the
/// concatenation, never reaching the second batch.
pub proof fn lemma_feed_concat_err(p: PipeView, a: Seq<JsonVal>, b: Seq<JsonVal>)
    requires
        feed(p, a).1 is Some,
    ensures
        feed(p, a + b) == feed(p, a),
    decreases a.len(),
{
    if a.len() == 0 {
    } else {
        let (p1, e1) = pipe_ingest(p, a.first());
        assert((a + b).first() == a.first());
        assert((a + b).drop_first() =~= a.drop_first() + b);
        if e1 is None {
            lemma_feed_concat_err(p1, a.drop_first(), b);
        }
    }
}

/// A clean feed delivers every value to the pipeline's head, in order.
pub proof fn lemma_feed_head_log(p: PipeView, vs: Seq<JsonVal>)
    requires
        feed(p, vs).1 is None,
    ensures
        head_log(feed(p, vs).0) == head_log(p) + vs,
    decreases vs.len(),
{
    if vs.len() == 0 {
        assert(head_log(p) + vs =~= head_log(p));
    } else {
        let (p1, e1) = pipe_ingest(p, vs.first());
        lemma_ingest_head_log(p, vs.first());
        lemma_feed_head_log(p1, vs.drop_first());
        assert(head_log(p).push(vs.first()) + vs.drop_first() =~= head_log(p) + vs);
    }
}

/// The sum accumulator after folding in a run of numbers, left to right:
/// nothing seen stays nothing; the first number starts the sum.
pub open spec fn sum_from(acc: Option<NumberVal>, nums: Seq<NumberVal>) -> Option<NumberVal>
    decreases nums,
{
    if nums.len() == 0 {
        acc
    } else {
        sum_from(
            Some(
                match acc {
                    None => nums.first(),
                    Some(a) => a.spec_plus(nums.first()),
                },
            ),
            nums.drop_first(),
        )
    }
}

/// The mean accumulator after folding in a run of numbers, left to right:
/// each number's double is added to the running IEEE-754 sum.
pub open spec fn mean_from(acc: u64, nums: Seq<NumberVal>) -> u64
    decreases nums,
{
    if nums.len() == 0 {
        acc
    } else {
        mean_from(f64_add(acc, num_bits(nums.first())), nums.drop_first())
    }
}

/// Sum and mean over one run of inputs that each carry a number at `path`:
/// feeding the run raises no error and leaves the sum stage holding the
/// numbers' running sum, and the mean stage holding their running IEEE-754
/// sum and their count; neither stage touches what is behind it.
pub proof fn lemma_sum_vs_mean(
    vs: Seq<JsonVal>,
    nums: Seq<NumberVal>,
    path: Seq<PathStepView>,
    strict: bool,
    acc0: Option<NumberVal>,
    macc0: u64,
    count0: u64,
    log0: Seq<JsonVal>,
    out: PipeView,
)
    requires
        nums.len() == vs.len(),
        count0 + vs.len() <= u64::MAX,
        forall|i: int|
            0 <= i < vs.len() ==> spec_select(#[trigger] vs[i], path) == Some(
                JsonVal::Number(nums[i]),
            ),
    ensures
        feed(
            with_head(StageView::Sum { acc: acc0, path, strict, log: log0, fin: 0 }, out),
            vs,
        ) == (
            with_head(
                StageView::Sum {
                    acc: sum_from(acc0, nums),
                    path,
                    strict,
                    log: log0 + vs,
                    fin: 0,
                },
                out,
            ),
            None::<PipeErrView>,
        ),
        feed(
            with_head(
                StageView::Mean { acc: macc0, count: count0, path, strict, log: log0, fin: 0 },
                out,
            ),
            vs,
        ) == (
            with_head(
                StageView::Mean {
                    acc: mean_from(macc0, nums),
                    count: (count0 + vs.len()) as u64,
                    path,
                    strict,
                    log: log0 + vs,
                    fin: 0,
                },
                out,
            ),
            None::<PipeErrView>,
        ),
    decreases vs.len(),
{
    let sum0 = with_head(StageView::Sum { acc: acc0, path, strict, log: log0, fin: 0 }, out);
    let mean0 = with_head(
        StageView::Mean { acc: macc0, count: count0, path, strict, log: log0, fin: 0 },
        out,
    );
    if vs.len() == 0 {
        assert(log0 + vs =~= log0);
        assert(feed(sum0, vs).0 =~= sum0);
        assert(feed(mean0, vs).0 =~= mean0);
    } else {
        let acc1 = Some(
            match acc0 {
                None => nums.first(),
                Some(a) => a.spec_plus(nums.first()),
            },
        );
        let rest = PipeView {
            stages: sum0.stages.drop_first(),
            pretty_mode: sum0.pretty_mode,
            lines: sum0.lines,
            wlog: sum0.wlog,
            wfin: sum0.wfin,
        };
        assert(rest.stages =~= out.stages);
        assert(rest =~= out);
        let mrest = PipeView {
            stages: mean0.stages.drop_first(),
            pretty_mode: mean0.pretty_mode,
            lines: mean0.lines,
            wlog: mean0.wlog,
            wfin: mean0.wfin,
        };
        assert(mrest.stages =~= out.stages);
        assert(mrest =~= out);
        assert(spec_select(vs.first(), path) == Some(JsonVal::Number(nums.first())));
        lemma_sum_vs_mean(
            vs.drop_first(),
            nums.drop_first(),
            path,
            strict,
            acc1,
            f64_add(macc0, num_bits(nums.first())),
            (count0 + 1) as u64,
            log0.push(vs.first()),
            out,
        );
        assert(log0.push(vs.first()) + vs.drop_first() =~= log0 + vs);
        assert forall|i: int|
            0 <= i < vs.drop_first().len() implies spec_select(
            #[trigger] vs.drop_first()[i],
            path,
        ) == Some(JsonVal::Number(nums.drop_first()[i])) by {
            assert(vs.drop_first()[i] == vs[i + 1]);
        }
    }
}

/// Sum versus mean at the writer, over `n` inputs that each carry a number
/// at `path`. After `finish`, `sum` has written its total — a zero integer
/// when `n` is zero — and reset; `mean` has written the double `total/n`
/// when `n` is positive and nothing when `n` is zero, and reset.
pub proof fn lemma_sum_vs_mean_emits(
    vs: Seq<JsonVal>,
    nums: Seq<NumberVal>,
    path: Seq<PathStepView>,
    strict: bool,
    wr: PipeView,
)
    requires
        wr.stages.len() == 0,
        nums.len() == vs.len(),
        vs.len() <= u64::MAX,
        forall|i: int|
            0 <= i < vs.len() ==> spec_select(#[trigger] vs[i], path) == Some(
                JsonVal::Number(nums[i]),
            ),
    ensures
        ({
            let run = pipe_finish(
                feed(
                    with_head(
                        StageView::Sum { acc: None, path, strict, log: Seq::empty(), fin: 0 },
                        wr,
                    ),
                    vs,
                ).0,
            );
            let flushed = match sum_from(None, nums) {
                Some(a) => a,
                None => NumberVal::Integer(0),
            };
            run.1 is None && run.0.lines == wr.lines.push(
                rendered(JsonVal::Number(flushed), wr.pretty_mode),
            )
        }),
        ({
            let run = pipe_finish(
                feed(
                    with_head(
                        StageView::Mean {
                            acc: 0,
                            count: 0,
                            path,
                            strict,
                            log: Seq::empty(),
                            fin: 0,
                        },
                        wr,
                    ),
                    vs,
                ).0,
            );
            run.1 is None && (if vs.len() > 0 {
                run.0.lines == wr.lines.push(
                    rendered(
                        JsonVal::Number(
                            NumberVal::Float(
                                f64_div(mean_from(0, nums), f64_of_u64(vs.len() as u64)),
                            ),
                        ),
                        wr.pretty_mode,
                    ),
                )
            } else {
                run.0.lines == wr.lines
            })
        }),
{
    lemma_sum_vs_mean(vs, nums, path, strict, None, 0, 0, Seq::empty(), wr);
    let sum_after = feed(
        with_head(StageView::Sum { acc: None, path, strict, log: Seq::empty(), fin: 0 }, wr),
        vs,
    ).0;
    let srest = PipeView {
        stages: sum_after.stages.drop_first(),
        pretty_mode: sum_after.pretty_mode,
        lines: sum_after.lines,
        wlog: sum_after.wlog,
        wfin: sum_after.wfin,
    };
    assert(srest.stages =~= wr.stages);
    assert(srest =~= wr);
    let flushed = match sum_from(None, nums) {
        Some(a) => a,
        None => NumberVal::Integer(0),
    };
    let (w1, e1) = pipe_ingest(wr, JsonVal::Number(flushed));
    assert(w1.lines == wr.lines.push(rendered(JsonVal::Number(flushed), wr.pretty_mode)));
    assert(e1 is None);
    let fin_inner = pipe_finish(w1);
    assert(fin_inner.0.lines == w1.lines && fin_inner.1 is None);
    let mean_after = feed(
        with_head(
            StageView::Mean { acc: 0, count: 0, path, strict, log: Seq::empty(), fin: 0 },
            wr,
        ),
        vs,
    ).0;
    let mrest = PipeView {
        stages: mean_after.stages.drop_first(),
        pretty_mode: mean_after.pretty_mode,
        lines: mean_after.lines,
        wlog: mean_after.wlog,
        wfin: mean_after.wfin,
    };
    assert(mrest.stages =~= wr.stages);
    assert(mrest =~= wr);
    if vs.len() > 0 {
        let mflushed = JsonVal::Number(
            NumberVal::Float(f64_div(mean_from(0, nums), f64_of_u64(vs.len() as u64))),
        );
        let (mw1, me1) = pipe_ingest(wr, mflushed);
        assert(mw1.lines == wr.lines.push(rendered(mflushed, wr.pretty_mode)));
        assert(me1 is None);
        let mfin_inner = pipe_finish(mw1);
        assert(mfin_inner.0.lines == mw1.lines && mfin_inner.1 is None);
    } else {
        let mfin_inner = pipe_finish(wr);
        assert(mfin_inner.0.lines == wr.lines && mfin_inner.1 is None);
    }
}

} // verus!
