//! The selective parser: the heart of the engine.
//!
//! At every value position it asks the filter about the current path. A
//! matched value is parsed in full (keep mode) and handed to the pipeline;
//! a position under which something could still match is walked structurally
//! (descend mode), the path growing by one step around each child; anything
//! else is lexed and thrown away (skip mode). The verdict is re-asked at
//! every value position, because a union filter may treat siblings
//! differently.
//!
//! `matched` states which sub-documents of a value the filter keeps, in
//! document order; the parser's contract says that exactly those values are
//! fed to the pipeline, and that the path always comes back as it was —
//! on success and on failure alike.

use vstd::prelude::*;

use crate::error::PipelineError;
use crate::filter::{spec_is_match, spec_is_subpath, Filter, FilterView};
use crate::json_path::{JsonPath, PathStepView};
use crate::json_value::{nfc_chars, JsonVal, JsonValue};
use crate::parse_and_keep::{keep_json, sp_elems, sp_members, sp_value};
use crate::parse_and_throw::{throw_json, throw_number, throw_string};
use crate::parse_basics::{lex, string_expr, ws_end};
use crate::pipeline::{feed, pv, PipeView, Pipeline};

verus! {

broadcast use vstd::seq::group_seq_axioms, vstd::std_specs::vec::group_vec_axioms;

/// The sub-documents of `v` that the filter keeps when `v` stands at `path`,
/// in document order: the whole value where the path matches; under a prefix
/// of a possible match, whatever is kept inside an object's fields or an
/// array's slots; nothing anywhere else.
pub open spec fn matched(v: JsonVal, path: Seq<PathStepView>, f: FilterView) -> Seq<JsonVal>
    decreases v, 1int,
{
    if spec_is_match(f, path) {
        seq![v]
    } else if spec_is_subpath(f, path) {
        match v {
            JsonVal::Object(fields) => matched_fields(fields, path, f),
            JsonVal::Array(elems) => matched_elems(elems, path, f, 0),
            _ => Seq::empty(),
        }
    } else {
        Seq::empty()
    }
}

/// What the filter keeps inside an object's fields, field by field.
pub open spec fn matched_fields(
    fields: Seq<(Seq<char>, JsonVal)>,
    path: Seq<PathStepView>,
    f: FilterView,
) -> Seq<JsonVal>
    decreases fields, 0int,
{
    if fields.len() == 0 {
        Seq::empty()
    } else {
        matched(fields.first().1, path.push(PathStepView::Field(fields.first().0)), f)
            + matched_fields(fields.drop_first(), path, f)
    }
}

/// What the filter keeps inside an array's slots, slot by slot, the first
/// slot standing at index `idx`.
pub open spec fn matched_elems(
    elems: Seq<JsonVal>,
    path: Seq<PathStepView>,
    f: FilterView,
    idx: u64,
) -> Seq<JsonVal>
    decreases elems, 0int,
{
    if elems.len() == 0 {
        Seq::empty()
    } else {
        matched(elems.first(), path.push(PathStepView::Index(idx)), f) + matched_elems(
            elems.drop_first(),
            path,
            f,
            (idx + 1) as u64,
        )
    }
}

/// What a parse aborts with: a syntax error carrying the position of the
/// offending token of the input — the start of the token that does not fit
/// the grammar, or the place where a required token is missing — or the
/// first error a pipeline stage raised.
#[derive(Debug)]
pub enum StreamError {
    Syntax { position: usize },
    Pipe(PipelineError),
}

/// The state the selective parser threads through the walk: the compiled
/// filter, the path of the current position, and the pipeline fed with the
/// matched sub-documents.
pub struct ParserState {
    pub filter: Filter,
    pub pos: JsonPath,
    pub pipeline: Pipeline,
}

impl ParserState {
    /// A parser state at the root of the stream.
    pub fn new(pipeline: Pipeline, filter: Filter) -> (r: ParserState)
        ensures
            r.filter == filter,
            r.pos@ == Seq::<PathStepView>::empty(),
            r.pipeline == pipeline,
    {
        ParserState { filter, pos: JsonPath::root(), pipeline }
    }

    /// Whether the value at the current position is kept whole.
    pub fn is_keeped(&self) -> (r: bool)
        ensures
            r == spec_is_match(self.filter@, self.pos@),
    {
        self.filter.is_match(&self.pos)
    }

    /// Whether something under the current position could still be kept.
    pub fn is_containing_keeped(&self) -> (r: bool)
        ensures
            r == spec_is_subpath(self.filter@, self.pos@),
    {
        self.filter.is_subpath(&self.pos)
    }

    /// Hand one kept value to the pipeline.
    pub fn ingest(self, item: JsonValue) -> (r: (ParserState, Result<(), PipelineError>))
        ensures
            r.0.filter == self.filter,
            r.0.pos@ == self.pos@,
            pv(r.0.pipeline) == crate::pipeline::pipe_ingest(pv(self.pipeline), item@).0,
            match r.1 {
                Ok(()) => crate::pipeline::pipe_ingest(pv(self.pipeline), item@).1 is None,
                Err(e) => crate::pipeline::pipe_ingest(pv(self.pipeline), item@).1 == Some(e@),
            },
    {
        let ParserState { filter, pos, pipeline } = self;
        let (pipeline, res) = pipeline.ingest(item);
        (ParserState { filter, pos, pipeline }, res)
    }
}

/// Feeding nothing changes nothing.
proof fn lemma_feed_empty(p: PipeView)
    ensures
        feed(p, Seq::<JsonVal>::empty()).0 == p,
        feed(p, Seq::<JsonVal>::empty()).1 is None,
{
}

/// Parse one value of the stream selectively. The path comes back as it
/// went in, even on an error. On success the pipeline has been fed exactly
/// the sub-documents `matched` names, in document order, and the position
/// is just past the value — the same position the keep parser's grammar
/// names. A syntax error is reported exactly when the grammar refuses the
/// text; a pipeline error aborts the walk where it happened.
pub fn json_smart(s: &Vec<char>, i: usize, max: usize, state: ParserState, fuel: usize) -> (r: (
    ParserState,
    Result<usize, StreamError>,
))
    requires
        i <= s@.len(),
    ensures
        r.0.filter == state.filter,
        r.0.pos@ == state.pos@,
        match r.1 {
            Ok(j) => i < j <= s@.len() && (match sp_value(
                s@,
                i as int,
                max as int,
                fuel as nat,
            ) {
                Ok((v, j2)) => {
                    let fed = feed(pv(state.pipeline), matched(v, state.pos@, state.filter@));
                    j == j2 && fed.1 is None && pv(r.0.pipeline) == fed.0
                },
                Err(_) => false,
            }),
            Err(e) => match e {
                StreamError::Syntax { position } => (match sp_value(
                    s@,
                    i as int,
                    max as int,
                    fuel as nat,
                ) {
                    Ok(_) => false,
                    Err(p) => position == p,
                }),
                StreamError::Pipe(pe) => match sp_value(s@, i as int, max as int, fuel as nat) {
                    Ok((v, j2)) => {
                        let fed = feed(pv(state.pipeline), matched(v, state.pos@, state.filter@));
                        fed.1 == Some(pe@) && pv(r.0.pipeline) == fed.0
                    },
                    Err(_) => true,
                },
            },
        },
    decreases fuel, 1int,
{
    if fuel == 0 {
        return (state, Err(StreamError::Syntax { position: i }));
    }
    let keep_it = state.is_keeped();
    let descend = if keep_it {
        false
    } else {
        state.is_containing_keeped()
    };
    if keep_it {
        match keep_json(s, i, max, fuel) {
            Ok((v, j)) => {
                let ghost vv = v@;
                let (state2, res) = state.ingest(v);
                proof {
                    assert(matched(vv, state.pos@, state.filter@) =~= seq![vv]);
                    assert(seq![vv].first() == vv);
                    assert(seq![vv].drop_first() =~= Seq::<JsonVal>::empty());
                    lemma_feed_empty(crate::pipeline::pipe_ingest(pv(state.pipeline), vv).0);
                }
                match res {
                    Ok(()) => (state2, Ok(j)),
                    Err(e) => (state2, Err(StreamError::Pipe(e))),
                }
            },
            Err(p) => (state, Err(StreamError::Syntax { position: p })),
        }
    } else if descend {
        if i >= s.len() {
            return (state, Err(StreamError::Syntax { position: i }));
        }
        let c = s[i];
        let ghost f = state.filter@;
        let ghost base = state.pos@;
        if c == '{' {
            let j = lex(s, i + 1);
            if j < s.len() && s[j] == '}' {
                proof {
                    assert(matched(JsonVal::Object(Seq::empty()), base, f) =~= Seq::<
                        JsonVal,
                    >::empty());
                    lemma_feed_empty(pv(state.pipeline));
                }
                (state, Ok(j + 1))
            } else {
                smart_members(s, j, max, state, fuel - 1)
            }
        } else if c == '[' {
            let j = lex(s, i + 1);
            if j < s.len() && s[j] == ']' {
                proof {
                    assert(matched(JsonVal::Array(Seq::empty()), base, f) =~= Seq::<
                        JsonVal,
                    >::empty());
                    lemma_feed_empty(pv(state.pipeline));
                }
                (state, Ok(j + 1))
            } else {
                let ParserState { filter, mut pos, pipeline } = state;
                pos.push_index(0);
                let inner = ParserState { filter, pos, pipeline };
                proof {
                    assert(inner.pos@.drop_last() =~= base);
                }
                let (inner2, res) = smart_elems(s, j, max, inner, fuel - 1);
                let ParserState { filter, mut pos, pipeline } = inner2;
                pos.pop_index();
                let out = ParserState { filter, pos, pipeline };
                proof {
                    assert(base.push(PathStepView::Index(0)).drop_last() =~= base);
                    assert(out.pos@ =~= base);
                }
                let res2 = match res {
                    Ok(end) => Ok(end),
                    Err(e) => Err(e),
                };
                (out, res2)
            }
        } else {
            // A scalar in descend mode can be under no deeper match: it is
            // lexed and thrown away.
            let end = if c == '"' {
                throw_string(s, i, max)
            } else if c == '-' || c == '+' || (c as u32 >= 48 && c as u32 <= 57) {
                throw_number(s, i)
            } else if c == 'n' {
                proof {
                    reveal_strlit("null");
                }
                let kw = crate::parse_and_keep::kw_null();
                crate::parse_basics::keyword_expr(s, i, &kw)
            } else if c == 't' {
                proof {
                    reveal_strlit("true");
                }
                let kw = crate::parse_and_keep::kw_true();
                crate::parse_basics::keyword_expr(s, i, &kw)
            } else if c == 'f' {
                proof {
                    reveal_strlit("false");
                }
                let kw = crate::parse_and_keep::kw_false();
                crate::parse_basics::keyword_expr(s, i, &kw)
            } else {
                None
            };
            match end {
                Some(j) => {
                    proof {
                        lemma_feed_empty(pv(state.pipeline));
                        let vv = sp_value(s@, i as int, max as int, fuel as nat)->Ok_0.0;
                        assert(matched(vv, base, f) =~= Seq::<JsonVal>::empty());
                    }
                    (state, Ok(j))
                },
                None => (state, Err(StreamError::Syntax { position: i })),
            }
        }
    } else {
        match throw_json(s, i, max, fuel) {
            Ok(j) => {
                proof {
                    lemma_feed_empty(pv(state.pipeline));
                    let vv = sp_value(s@, i as int, max as int, fuel as nat)->Ok_0.0;
                    assert(matched(vv, state.pos@, state.filter@) =~= Seq::<JsonVal>::empty());
                }
                (state, Ok(j))
            },
            Err(p) => (state, Err(StreamError::Syntax { position: p })),
        }
    }
}

/// Walk the fields of a non-empty object in descend mode, the cursor on the
/// first key. The path is extended by the field name around each child and
/// comes back as it went in.
fn smart_members(s: &Vec<char>, i: usize, max: usize, state: ParserState, fuel: usize) -> (r: (
    ParserState,
    Result<usize, StreamError>,
))
    requires
        i <= s@.len(),
        !spec_is_match(state.filter@, state.pos@),
        spec_is_subpath(state.filter@, state.pos@),
    ensures
        r.0.filter == state.filter,
        r.0.pos@ == state.pos@,
        match r.1 {
            Ok(end) => i < end <= s@.len() && (match sp_members(
                s@,
                i as int,
                max as int,
                fuel as nat,
            ) {
                Ok((members, end2)) => {
                    let fed = feed(
                        pv(state.pipeline),
                        matched_fields(members, state.pos@, state.filter@),
                    );
                    end == end2 && fed.1 is None && pv(r.0.pipeline) == fed.0
                },
                Err(_) => false,
            }),
            Err(e) => match e {
                StreamError::Syntax { position } => (match sp_members(
                    s@,
                    i as int,
                    max as int,
                    fuel as nat,
                ) {
                    Ok(_) => false,
                    Err(p) => position == p,
                }),
                StreamError::Pipe(pe) => match sp_members(s@, i as int, max as int, fuel as nat) {
                    Ok((members, end2)) => {
                        let fed = feed(
                            pv(state.pipeline),
                            matched_fields(members, state.pos@, state.filter@),
                        );
                        fed.1 == Some(pe@) && pv(r.0.pipeline) == fed.0
                    },
                    Err(_) => true,
                },
            },
        },
    decreases fuel, 0int,
{
    if fuel == 0 {
        return (state, Err(StreamError::Syntax { position: i }));
    }
    let ghost f = state.filter@;
    let ghost base = state.pos@;
    let ghost p0 = pv(state.pipeline);
    let (key, j1) = match string_expr(s, i, max) {
        Some((content, j0)) => (nfc_chars(content.as_slice()), lex(s, j0)),
        None => {
            return (state, Err(StreamError::Syntax { position: i }));
        },
    };
    if !(j1 < s.len() && s[j1] == ':') {
        return (state, Err(StreamError::Syntax { position: j1 }));
    }
    let j2 = lex(s, j1 + 1);
    let ghost keyv = key@;
    let ParserState { filter, mut pos, pipeline } = state;
    pos.push_field(key.as_str());
    let inner = ParserState { filter, pos, pipeline };
    let (inner2, res) = json_smart(s, j2, max, inner, fuel - 1);
    let ParserState { filter, mut pos, pipeline } = inner2;
    proof {
        assert(base.push(PathStepView::Field(keyv)).drop_last() =~= base);
    }
    pos.pop_field();
    let state = ParserState { filter, pos, pipeline };
    let j3 = match res {
        Ok(j3) => j3,
        Err(e) => {
            proof {
                if e is Pipe && sp_members(
                    s@,
                    i as int,
                    max as int,
                    fuel as nat,
                ) is Ok {
                    let ms = sp_members(s@, i as int, max as int, fuel as nat)->Ok_0.0;
                    let vv = sp_value(s@, j2 as int, max as int, (fuel - 1) as nat)->Ok_0.0;
                    let first_match = matched(vv, base.push(PathStepView::Field(keyv)), f);
                    assert(ms.len() > 0 && ms.first() == (keyv, vv));
                    assert(matched_fields(ms, base, f) == first_match + matched_fields(
                        ms.drop_first(),
                        base,
                        f,
                    ));
                    crate::pipeline::lemma_feed_concat_err(
                        p0,
                        first_match,
                        matched_fields(ms.drop_first(), base, f),
                    );
                }
            }
            return (state, Err(e));
        },
    };
    let k = lex(s, j3);
    if k < s.len() && s[k] == ',' {
        let next = lex(s, k + 1);
        let (state2, res2) = smart_members(s, next, max, state, fuel - 1);
        match res2 {
            Ok(end) => {
                proof {
                    let ghost ms = sp_members(s@, i as int, max as int, fuel as nat)->Ok_0.0;
                    let first_match = matched(
                        sp_value(s@, j2 as int, max as int, (fuel - 1) as nat)->Ok_0.0,
                        base.push(PathStepView::Field(keyv)),
                        f,
                    );
                    let rest_ms = sp_members(s@, next as int, max as int, (fuel - 1) as nat)
                        ->Ok_0.0;
                    assert(ms == seq![
                        (keyv, sp_value(s@, j2 as int, max as int, (fuel - 1) as nat)->Ok_0.0),
                    ] + rest_ms);
                    assert(ms.first() == (
                        keyv,
                        sp_value(s@, j2 as int, max as int, (fuel - 1) as nat)->Ok_0.0,
                    ));
                    assert(ms.drop_first() =~= rest_ms);
                    crate::pipeline::lemma_feed_concat(
                        p0,
                        first_match,
                        matched_fields(rest_ms, base, f),
                    );
                    assert(first_match + matched_fields(rest_ms, base, f) =~= matched_fields(
                        ms,
                        base,
                        f,
                    ));
                }
                (state2, Ok(end))
            },
            Err(e) => {
                proof {
                    if e is Pipe && sp_members(
                        s@,
                        i as int,
                        max as int,
                        fuel as nat,
                    ) is Ok {
                        let ms = sp_members(s@, i as int, max as int, fuel as nat)->Ok_0.0;
                        let vv = sp_value(s@, j2 as int, max as int, (fuel - 1) as nat)->Ok_0.0;
                        let rest_ms = sp_members(s@, next as int, max as int, (fuel - 1) as nat)
                            ->Ok_0.0;
                        assert(ms == seq![(keyv, vv)] + rest_ms);
                        assert(ms.first() == (keyv, vv));
                        assert(ms.drop_first() =~= rest_ms);
                        let first_match = matched(vv, base.push(PathStepView::Field(keyv)), f);
                        crate::pipeline::lemma_feed_concat(
                            p0,
                            first_match,
                            matched_fields(rest_ms, base, f),
                        );
                        assert(first_match + matched_fields(rest_ms, base, f) =~= matched_fields(
                            ms,
                            base,
                            f,
                        ));
                    }
                }
                (state2, Err(e))
            },
        }
    } else if k < s.len() && s[k] == '}' {
        proof {
            let ghost ms = sp_members(s@, i as int, max as int, fuel as nat)->Ok_0.0;
            let vv = sp_value(s@, j2 as int, max as int, (fuel - 1) as nat)->Ok_0.0;
            assert(ms == seq![(keyv, vv)]);
            assert(ms.first() == (keyv, vv));
            assert(ms.drop_first() =~= Seq::<(Seq<char>, JsonVal)>::empty());
            let first_match = matched(vv, base.push(PathStepView::Field(keyv)), f);
            assert(matched_fields(ms.drop_first(), base, f) =~= Seq::<JsonVal>::empty());
            assert(first_match + Seq::<JsonVal>::empty() =~= first_match);
            assert(matched_fields(ms, base, f) =~= first_match);
        }
        (state, Ok(k + 1))
    } else {
        (state, Err(StreamError::Syntax { position: k }))
    }
}

/// Walk the elements of a non-empty array in descend mode, the cursor on the
/// first element and the path already carrying the element's index as its
/// last step. The index step advances with the elements; the caller pops it.
fn smart_elems(s: &Vec<char>, i: usize, max: usize, state: ParserState, fuel: usize) -> (r: (
    ParserState,
    Result<usize, StreamError>,
))
    requires
        i <= s@.len(),
        state.pos@.len() > 0,
        state.pos@.last() is Index,
        state.pos@.last()->Index_0 + s@.len() - i <= u64::MAX,
        !spec_is_match(state.filter@, state.pos@.drop_last()),
        spec_is_subpath(state.filter@, state.pos@.drop_last()),
    ensures
        r.0.filter == state.filter,
        r.0.pos@.len() == state.pos@.len(),
        r.0.pos@.drop_last() == state.pos@.drop_last(),
        r.0.pos@.last() is Index,
        match r.1 {
            Ok(end) => i < end <= s@.len() && (match sp_elems(
                s@,
                i as int,
                max as int,
                fuel as nat,
            ) {
                Ok((elems, end2)) => {
                    let fed = feed(
                        pv(state.pipeline),
                        matched_elems(
                            elems,
                            state.pos@.drop_last(),
                            state.filter@,
                            state.pos@.last()->Index_0,
                        ),
                    );
                    end == end2 && fed.1 is None && pv(r.0.pipeline) == fed.0
                },
                Err(_) => false,
            }),
            Err(e) => match e {
                StreamError::Syntax { position } => (match sp_elems(
                    s@,
                    i as int,
                    max as int,
                    fuel as nat,
                ) {
                    Ok(_) => false,
                    Err(p) => position == p,
                }),
                StreamError::Pipe(pe) => match sp_elems(s@, i as int, max as int, fuel as nat) {
                    Ok((elems, end2)) => {
                        let fed = feed(
                            pv(state.pipeline),
                            matched_elems(
                                elems,
                                state.pos@.drop_last(),
                                state.filter@,
                                state.pos@.last()->Index_0,
                            ),
                        );
                        fed.1 == Some(pe@) && pv(r.0.pipeline) == fed.0
                    },
                    Err(_) => true,
                },
            },
        },
    decreases fuel, 0int,
{
    if fuel == 0 {
        return (state, Err(StreamError::Syntax { position: i }));
    }
    let ghost f = state.filter@;
    let ghost base = state.pos@.drop_last();
    let ghost idx = state.pos@.last()->Index_0;
    let ghost p0 = pv(state.pipeline);
    proof {
        assert(state.pos@ =~= base.push(PathStepView::Index(idx)));
    }
    let (state, res) = json_smart(s, i, max, state, fuel - 1);
    let j = match res {
        Ok(j) => j,
        Err(e) => {
            proof {
                if e is Pipe && sp_elems(
                    s@,
                    i as int,
                    max as int,
                    fuel as nat,
                ) is Ok {
                    let es = sp_elems(s@, i as int, max as int, fuel as nat)->Ok_0.0;
                    let vv = sp_value(s@, i as int, max as int, (fuel - 1) as nat)->Ok_0.0;
                    let first_match = matched(vv, base.push(PathStepView::Index(idx)), f);
                    assert(es.len() > 0 && es.first() == vv);
                    assert(matched_elems(es, base, f, idx) == first_match + matched_elems(
                        es.drop_first(),
                        base,
                        f,
                        (idx + 1) as u64,
                    ));
                    crate::pipeline::lemma_feed_concat_err(
                        p0,
                        first_match,
                        matched_elems(es.drop_first(), base, f, (idx + 1) as u64),
                    );
                }
            }
            return (state, Err(e));
        },
    };
    let k = lex(s, j);
    if k < s.len() && s[k] == ',' {
        let next = lex(s, k + 1);
        let ParserState { filter, mut pos, pipeline } = state;
        proof {
            assert(pos@.last()->Index_0 == idx && idx + s@.len() - next < u64::MAX);
        }
        pos.inc_index();
        let inner = ParserState { filter, pos, pipeline };
        proof {
            assert(inner.pos@.drop_last() =~= base);
        }
        let (state2, res2) = smart_elems(s, next, max, inner, fuel - 1);
        match res2 {
            Ok(end) => {
                proof {
                    let es = sp_elems(s@, i as int, max as int, fuel as nat)->Ok_0.0;
                    let vv = sp_value(s@, i as int, max as int, (fuel - 1) as nat)->Ok_0.0;
                    let rest_es = sp_elems(s@, next as int, max as int, (fuel - 1) as nat)
                        ->Ok_0.0;
                    assert(es == seq![vv] + rest_es);
                    assert(es.first() == vv);
                    assert(es.drop_first() =~= rest_es);
                    let first_match = matched(vv, base.push(PathStepView::Index(idx)), f);
                    crate::pipeline::lemma_feed_concat(
                        p0,
                        first_match,
                        matched_elems(rest_es, base, f, (idx + 1) as u64),
                    );
                    assert(first_match + matched_elems(rest_es, base, f, (idx + 1) as u64)
                        =~= matched_elems(es, base, f, idx));
                }
                (state2, Ok(end))
            },
            Err(e) => {
                proof {
                    if e is Pipe && sp_elems(
                        s@,
                        i as int,
                        max as int,
                        fuel as nat,
                    ) is Ok {
                        let es = sp_elems(s@, i as int, max as int, fuel as nat)->Ok_0.0;
                        let vv = sp_value(s@, i as int, max as int, (fuel - 1) as nat)->Ok_0.0;
                        let rest_es = sp_elems(s@, next as int, max as int, (fuel - 1) as nat)
                            ->Ok_0.0;
                        assert(es == seq![vv] + rest_es);
                        assert(es.first() == vv);
                        assert(es.drop_first() =~= rest_es);
                        let first_match = matched(vv, base.push(PathStepView::Index(idx)), f);
                        crate::pipeline::lemma_feed_concat(
                            p0,
                            first_match,
                            matched_elems(rest_es, base, f, (idx + 1) as u64),
                        );
                        assert(first_match + matched_elems(rest_es, base, f, (idx + 1) as u64)
                            =~= matched_elems(es, base, f, idx));
                    }
                }
                (state2, Err(e))
            },
        }
    } else if k < s.len() && s[k] == ']' {
        proof {
            let es = sp_elems(s@, i as int, max as int, fuel as nat)->Ok_0.0;
            let vv = sp_value(s@, i as int, max as int, (fuel - 1) as nat)->Ok_0.0;
            assert(es == seq![vv]);
            assert(es.first() == vv);
            assert(es.drop_first() =~= Seq::<JsonVal>::empty());
            let first_match = matched(vv, base.push(PathStepView::Index(idx)), f);
            assert(matched_elems(es.drop_first(), base, f, (idx + 1) as u64) =~= Seq::<
                JsonVal,
            >::empty());
            assert(first_match + Seq::<JsonVal>::empty() =~= first_match);
            assert(matched_elems(es, base, f, idx) =~= first_match);
        }
        (state, Ok(k + 1))
    } else {
        (state, Err(StreamError::Syntax { position: k }))
    }
}

/// The top-level values of a stream from position `i` (standing on the first
/// significant character): whitespace-separated JSON values until the end of
/// the text; on failure, the position of the offending token.
pub open spec fn sp_stream(s: Seq<char>, i: int, max: int, fuel: nat) -> Result<Seq<JsonVal>, int>
    decreases fuel,
{
    if i >= s.len() {
        Ok(Seq::empty())
    } else if fuel == 0 {
        Err(i)
    } else {
        match sp_value(s, i, max, (fuel - 1) as nat) {
            Ok((v, j)) => match sp_stream(s, ws_end(s, j), max, (fuel - 1) as nat) {
                Ok(rest) => Ok(seq![v] + rest),
                Err(p) => Err(p),
            },
            Err(p) => Err(p),
        }
    }
}

/// What the filter keeps across a stream of top-level values, each standing
/// at the same path.
pub open spec fn matched_stream(
    vs: Seq<JsonVal>,
    path: Seq<PathStepView>,
    f: FilterView,
) -> Seq<JsonVal>
    decreases vs,
{
    if vs.len() == 0 {
        Seq::empty()
    } else {
        matched(vs.first(), path, f) + matched_stream(vs.drop_first(), path, f)
    }
}

/// Parse a whole stream of values selectively, the cursor on the first
/// significant character. On success the pipeline has been fed, in document
/// order, exactly what the filter keeps of each top-level value in turn.
pub fn parse_stream(s: &Vec<char>, i: usize, max: usize, state: ParserState, fuel: usize) -> (r: (
    ParserState,
    Result<(), StreamError>,
))
    requires
        i <= s@.len(),
    ensures
        r.0.filter == state.filter,
        r.0.pos@ == state.pos@,
        match r.1 {
            Ok(()) => (match sp_stream(s@, i as int, max as int, fuel as nat) {
                Ok(vs) => {
                    let fed = feed(
                        pv(state.pipeline),
                        matched_stream(vs, state.pos@, state.filter@),
                    );
                    fed.1 is None && pv(r.0.pipeline) == fed.0
                },
                Err(_) => false,
            }),
            Err(e) => match e {
                StreamError::Syntax { position } => (match sp_stream(
                    s@,
                    i as int,
                    max as int,
                    fuel as nat,
                ) {
                    Ok(_) => false,
                    Err(p) => position == p,
                }),
                StreamError::Pipe(pe) => match sp_stream(s@, i as int, max as int, fuel as nat) {
                    Ok(vs) => {
                        let fed = feed(
                            pv(state.pipeline),
                            matched_stream(vs, state.pos@, state.filter@),
                        );
                        fed.1 == Some(pe@) && pv(r.0.pipeline) == fed.0
                    },
                    Err(_) => true,
                },
            },
        },
    decreases fuel,
{
    if i >= s.len() {
        proof {
            lemma_feed_empty(pv(state.pipeline));
        }
        return (state, Ok(()));
    }
    if fuel == 0 {
        return (state, Err(StreamError::Syntax { position: i }));
    }
    let ghost p0 = pv(state.pipeline);
    let ghost f = state.filter@;
    let ghost base = state.pos@;
    let (state, res) = json_smart(s, i, max, state, fuel - 1);
    let j = match res {
        Ok(j) => j,
        Err(e) => {
            proof {
                if e is Pipe && sp_stream(
                    s@,
                    i as int,
                    max as int,
                    fuel as nat,
                ) is Ok {
                    let vs = sp_stream(s@, i as int, max as int, fuel as nat)->Ok_0;
                    let vv = sp_value(s@, i as int, max as int, (fuel - 1) as nat)->Ok_0.0;
                    assert(vs.len() > 0 && vs.first() == vv);
                    assert(matched_stream(vs, base, f) == matched(vv, base, f) + matched_stream(
                        vs.drop_first(),
                        base,
                        f,
                    ));
                    crate::pipeline::lemma_feed_concat_err(
                        p0,
                        matched(vv, base, f),
                        matched_stream(vs.drop_first(), base, f),
                    );
                }
            }
            return (state, Err(e));
        },
    };
    let next = lex(s, j);
    let (state2, res2) = parse_stream(s, next, max, state, fuel - 1);
    match res2 {
        Ok(()) => {
            proof {
                let vs = sp_stream(s@, i as int, max as int, fuel as nat)->Ok_0;
                let vv = sp_value(s@, i as int, max as int, (fuel - 1) as nat)->Ok_0.0;
                let rest_vs = sp_stream(s@, next as int, max as int, (fuel - 1) as nat)->Ok_0;
                assert(vs == seq![vv] + rest_vs);
                assert(vs.first() == vv);
                assert(vs.drop_first() =~= rest_vs);
                crate::pipeline::lemma_feed_concat(
                    p0,
                    matched(vv, base, f),
                    matched_stream(rest_vs, base, f),
                );
                assert(matched(vv, base, f) + matched_stream(rest_vs, base, f) =~= matched_stream(
                    vs,
                    base,
                    f,
                ));
            }
            (state2, Ok(()))
        },
        Err(e) => {
            proof {
                if e is Pipe && sp_stream(
                    s@,
                    i as int,
                    max as int,
                    fuel as nat,
                ) is Ok {
                    let vs = sp_stream(s@, i as int, max as int, fuel as nat)->Ok_0;
                    let vv = sp_value(s@, i as int, max as int, (fuel - 1) as nat)->Ok_0.0;
                    let rest_vs = sp_stream(s@, next as int, max as int, (fuel - 1) as nat)
                        ->Ok_0;
                    assert(vs == seq![vv] + rest_vs);
                    assert(vs.first() == vv);
                    assert(vs.drop_first() =~= rest_vs);
                    crate::pipeline::lemma_feed_concat(
                        p0,
                        matched(vv, base, f),
                        matched_stream(rest_vs, base, f),
                    );
                    assert(matched(vv, base, f) + matched_stream(rest_vs, base, f)
                        =~= matched_stream(vs, base, f));
                }
            }
            (state2, Err(e))
        },
    }
}

/// A filter that accepts no path at all keeps nothing of any value: running
/// the parser with such a filter is a no-op for the pipeline.
pub proof fn lemma_impossible_filter_keeps_nothing(
    v: JsonVal,
    path: Seq<PathStepView>,
    f: FilterView,
)
    requires
        forall|p: Seq<PathStepView>| !spec_is_match(f, p),
    ensures
        matched(v, path, f) == Seq::<JsonVal>::empty(),
    decreases v, 1int,
{
    if spec_is_subpath(f, path) {
        match v {
            JsonVal::Object(fields) => {
                lemma_impossible_filter_keeps_nothing_fields(fields, path, f);
            },
            JsonVal::Array(elems) => {
                lemma_impossible_filter_keeps_nothing_elems(elems, path, f, 0);
            },
            _ => {},
        }
    }
}

proof fn lemma_impossible_filter_keeps_nothing_fields(
    fields: Seq<(Seq<char>, JsonVal)>,
    path: Seq<PathStepView>,
    f: FilterView,
)
    requires
        forall|p: Seq<PathStepView>| !spec_is_match(f, p),
    ensures
        matched_fields(fields, path, f) == Seq::<JsonVal>::empty(),
    decreases fields, 0int,
{
    if fields.len() > 0 {
        lemma_impossible_filter_keeps_nothing(
            fields.first().1,
            path.push(PathStepView::Field(fields.first().0)),
            f,
        );
        lemma_impossible_filter_keeps_nothing_fields(fields.drop_first(), path, f);
        assert(Seq::<JsonVal>::empty() + Seq::<JsonVal>::empty() =~= Seq::<JsonVal>::empty());
    }
}

proof fn lemma_impossible_filter_keeps_nothing_elems(
    elems: Seq<JsonVal>,
    path: Seq<PathStepView>,
    f: FilterView,
    idx: u64,
)
    requires
        forall|p: Seq<PathStepView>| !spec_is_match(f, p),
    ensures
        matched_elems(elems, path, f, idx) == Seq::<JsonVal>::empty(),
    decreases elems, 0int,
{
    if elems.len() > 0 {
        lemma_impossible_filter_keeps_nothing(
            elems.first(),
            path.push(PathStepView::Index(idx)),
            f,
        );
        lemma_impossible_filter_keeps_nothing_elems(
            elems.drop_first(),
            path,
            f,
            (idx + 1) as u64,
        );
        assert(Seq::<JsonVal>::empty() + Seq::<JsonVal>::empty() =~= Seq::<JsonVal>::empty());
    }
}

/// Skip-idempotence over a whole stream: under a filter that accepts no path
/// at all, a successful run feeds the pipeline nothing, so the pipeline — and
/// with it the output — is left exactly as it was.
pub proof fn lemma_skip_idempotence(
    vs: Seq<JsonVal>,
    path: Seq<PathStepView>,
    f: FilterView,
    p: PipeView,
)
    requires
        forall|q: Seq<PathStepView>| !spec_is_match(f, q),
    ensures
        matched_stream(vs, path, f) == Seq::<JsonVal>::empty(),
        feed(p, matched_stream(vs, path, f)).0 == p,
    decreases vs,
{
    if vs.len() > 0 {
        lemma_impossible_filter_keeps_nothing(vs.first(), path, f);
        lemma_skip_idempotence(vs.drop_first(), path, f, p);
        assert(Seq::<JsonVal>::empty() + Seq::<JsonVal>::empty() =~= Seq::<JsonVal>::empty());
    }
}

/// The lines a writer renders for a run of values, one line per value, in
/// order.
pub open spec fn rendered_lines(vs: Seq<JsonVal>, pretty_mode: bool) -> Seq<Seq<char>> {
    Seq::new(
        vs.len(),
        |i: int|
            if 0 <= i < vs.len() {
                crate::pipeline::rendered(vs[i], pretty_mode)
            } else {
                vstd::pervasive::arbitrary()
            },
    )
}

/// Identity: under the filter that accepts every path, every value of the
/// stream is kept whole, and a pipeline that is just a writer writes each
/// value back out, rendered, one line per value, in document order.
pub proof fn lemma_identity_all(vs: Seq<JsonVal>, path: Seq<PathStepView>, wr: PipeView)
    requires
        wr.stages.len() == 0,
    ensures
        matched_stream(vs, path, FilterView::All) == vs,
        feed(wr, matched_stream(vs, path, FilterView::All)).1 is None,
        feed(wr, matched_stream(vs, path, FilterView::All)).0.lines == wr.lines + rendered_lines(
            vs,
            wr.pretty_mode,
        ),
    decreases vs,
{
    if vs.len() == 0 {
        assert(matched_stream(vs, path, FilterView::All) =~= vs);
        assert(wr.lines + rendered_lines(vs, wr.pretty_mode) =~= wr.lines);
    } else {
        assert(matched(vs.first(), path, FilterView::All) =~= seq![vs.first()]);
        let (w1, e1) = crate::pipeline::pipe_ingest(wr, vs.first());
        assert(e1 is None);
        assert(w1.lines == wr.lines.push(
            crate::pipeline::rendered(vs.first(), wr.pretty_mode),
        ));
        lemma_identity_all(vs.drop_first(), path, w1);
        assert(matched_stream(vs, path, FilterView::All) =~= seq![vs.first()] + vs.drop_first());
        assert(seq![vs.first()] + vs.drop_first() =~= vs);
        assert(vs.first() == vs[0] && vs.drop_first() =~= vs.subrange(1, vs.len() as int));
        assert(feed(wr, vs).1 is None && feed(wr, vs).0 == feed(w1, vs.drop_first()).0);
        assert forall|i: int|
            0 <= i < vs.len() implies (w1.lines + rendered_lines(
            vs.drop_first(),
            wr.pretty_mode,
        ))[i + wr.lines.len()] == rendered_lines(vs, wr.pretty_mode)[i] by {
            if i > 0 {
                assert(vs.drop_first()[i - 1] == vs[i]);
            }
        }
        assert(w1.lines + rendered_lines(vs.drop_first(), wr.pretty_mode) =~= wr.lines
            + rendered_lines(vs, wr.pretty_mode));
    }
}

} // verus!
