//! Paths into a JSON document.
//!
//! A path is the sequence of steps (object fields and array indices) leading
//! from the root of a document to the current position. The selective parser
//! owns one path and mutates it in place while it walks the document; the
//! filter borrows it read-only.

use vstd::prelude::*;

verus! {

/// One step of a JSON path.
///
/// Arrays and objects are the only JSON values with sub-values, so a step
/// either crosses an object field (by name) or an array slot (by index).
#[derive(Debug, Clone, PartialEq, Eq)]
pub enum JsonPathStep {
    Field(String),
    Index(u64),
}

/// The mathematical model of a path step: the field name as a sequence of
/// characters, or the array index.
pub enum PathStepView {
    Field(Seq<char>),
    Index(u64),
}

impl View for JsonPathStep {
    type V = PathStepView;

    open spec fn view(&self) -> PathStepView {
        match self {
            JsonPathStep::Field(name) => PathStepView::Field(name@),
            JsonPathStep::Index(i) => PathStepView::Index(*i),
        }
    }
}

impl JsonPathStep {
    /// True iff this step crosses an object field.
    pub fn is_node(&self) -> (r: bool)
        ensures
            r == (self@ is Field),
    {
        match self {
            JsonPathStep::Field(_) => true,
            _ => false,
        }
    }

    /// True iff this step crosses an array slot.
    pub fn is_index(&self) -> (r: bool)
        ensures
            r == (self@ is Index),
    {
        match self {
            JsonPathStep::Index(_) => true,
            _ => false,
        }
    }
}

/// The model of a sequence of steps.
pub open spec fn steps_view(steps: Seq<JsonPathStep>) -> Seq<PathStepView> {
    Seq::new(
        steps.len(),
        |i: int|
            if 0 <= i < steps.len() {
                steps[i]@
            } else {
                vstd::pervasive::arbitrary()
            },
    )
}

/// A path from the root of a JSON document: a sequence of steps.
///
/// A JSON document is a tree and a step never goes back up, so each position
/// in a document is reached by exactly one path.
#[derive(Debug, Clone, PartialEq, Eq)]
pub struct JsonPath(pub Vec<JsonPathStep>);

impl View for JsonPath {
    type V = Seq<PathStepView>;

    open spec fn view(&self) -> Seq<PathStepView> {
        steps_view(self.0@)
    }
}

impl JsonPath {
    /// Make a path out of explicit steps.
    pub fn new(steps: Vec<JsonPathStep>) -> (r: JsonPath)
        ensures
            r@ == steps_view(steps@),
    {
        JsonPath(steps)
    }

    /// The empty path: the root of the document.
    pub fn root() -> (r: JsonPath)
        ensures
            r@ == Seq::<PathStepView>::empty(),
    {
        let r = JsonPath(Vec::new());
        proof {
            assert(r@ =~= Seq::<PathStepView>::empty());
        }
        r
    }

    /// Append an object field to the path.
    pub fn push_field(&mut self, node_name: &str)
        ensures
            final(self)@ == old(self)@.push(PathStepView::Field(node_name@)),
    {
        self.0.push(JsonPathStep::Field(node_name.to_owned()));
        proof {
            assert(final(self)@ =~= old(self)@.push(PathStepView::Field(node_name@)));
        }
    }

    /// Remove the last step of the path, which must be a field.
    pub fn pop_field(&mut self)
        requires
            old(self)@.len() > 0,
            old(self)@.last() is Field,
        ensures
            final(self)@ == old(self)@.drop_last(),
    {
        self.0.pop();
        proof {
            assert(final(self)@ =~= old(self)@.drop_last());
        }
    }

    /// Append an array index to the path.
    pub fn push_index(&mut self, index: u64)
        ensures
            final(self)@ == old(self)@.push(PathStepView::Index(index)),
    {
        self.0.push(JsonPathStep::Index(index));
        proof {
            assert(final(self)@ =~= old(self)@.push(PathStepView::Index(index)));
        }
    }

    /// Increment the last array index of the path.
    pub fn inc_index(&mut self)
        requires
            old(self)@.len() > 0,
            old(self)@.last() is Index,
            old(self)@.last()->Index_0 < u64::MAX,
        ensures
            final(self)@ == old(self)@.update(
                old(self)@.len() - 1,
                PathStepView::Index((old(self)@.last()->Index_0 + 1) as u64),
            ),
    {
        let end = self.0.len() - 1;
        let i = match &self.0[end] {
            JsonPathStep::Index(i) => *i,
            JsonPathStep::Field(_) => {
                proof {
                    assert(false);
                }
                0
            },
        };
        self.0.set(end, JsonPathStep::Index(i + 1));
        proof {
            assert(final(self)@ =~= old(self)@.update(
                old(self)@.len() - 1,
                PathStepView::Index((old(self)@.last()->Index_0 + 1) as u64),
            ));
        }
    }

    /// Remove the last step of the path, which must be an array index.
    pub fn pop_index(&mut self)
        requires
            old(self)@.len() > 0,
            old(self)@.last() is Index,
        ensures
            final(self)@ == old(self)@.drop_last(),
    {
        self.0.pop();
        proof {
            assert(final(self)@ =~= old(self)@.drop_last());
        }
    }

    /// The steps of the path, for read-only traversal.
    pub fn iter(&self) -> (r: &Vec<JsonPathStep>)
        ensures
            steps_view(r@) == self@,
    {
        &self.0
    }

    /// A copy of the path with the same steps.
    pub fn duplicate(&self) -> (r: JsonPath)
        ensures
            r@ == self@,
    {
        let mut steps: Vec<JsonPathStep> = Vec::new();
        let mut k: usize = 0;
        while k < self.0.len()
            invariant
                k <= self.0@.len(),
                steps@.len() == k,
                forall|i: int| 0 <= i < k ==> (#[trigger] steps@[i])@ == self.0@[i]@,
            decreases self.0@.len() - k,
        {
            let step = match &self.0[k] {
                JsonPathStep::Field(name) => JsonPathStep::Field(name.clone()),
                JsonPathStep::Index(i) => JsonPathStep::Index(*i),
            };
            steps.push(step);
            k = k + 1;
        }
        proof {
            assert(steps_view(steps@) =~= steps_view(self.0@));
        }
        JsonPath(steps)
    }

    /// The number of steps of the path.
    pub fn len(&self) -> (r: usize)
        ensures
            r == self@.len(),
    {
        self.0.len()
    }
}

} // verus!
