//! In-memory JSON values.
//!
//! A value is built only for the sub-documents the filter keeps. Numbers
//! distinguish signed 64-bit integers from IEEE-754 doubles; a double is
//! carried as its bit pattern (see `float_ops`). Objects are ordered lists
//! of fields; when two fields share a name the last one wins. Stored strings
//! and field names are NFC-normalized when they are created, so that later
//! comparisons are plain equality of the normalized text.

use unicode_normalization::UnicodeNormalization;
use vstd::pervasive::arbitrary;
use vstd::prelude::*;

use crate::float_ops::{f64_add, f64_of_i64};
use crate::json_path::{JsonPath, JsonPathStep, PathStepView};

verus! {

broadcast use vstd::seq::group_seq_axioms, vstd::std_specs::vec::group_vec_axioms;

/// A JSON number: a signed 64-bit integer, or an IEEE-754 double carried as
/// its bit pattern.
#[derive(Debug, Clone, Copy, PartialEq, Eq, Structural)]
pub enum NumberVal {
    Integer(i64),
    Float(u64),
}

impl NumberVal {
    /// The sum of two numbers: integer plus integer stays integer (wrapping
    /// on 64-bit overflow, as two's-complement addition does); mixing in a
    /// double promotes to double.
    pub open spec fn spec_plus(self, other: NumberVal) -> NumberVal {
        match (self, other) {
            (NumberVal::Integer(a), NumberVal::Integer(b)) => NumberVal::Integer(
                a.wrapping_add(b),
            ),
            (NumberVal::Integer(a), NumberVal::Float(b)) => NumberVal::Float(
                f64_add(f64_of_i64(a), b),
            ),
            (NumberVal::Float(a), NumberVal::Integer(b)) => NumberVal::Float(
                f64_add(a, f64_of_i64(b)),
            ),
            (NumberVal::Float(a), NumberVal::Float(b)) => NumberVal::Float(f64_add(a, b)),
        }
    }

    /// Add another number to this one, with the coercion `spec_plus` states.
    pub fn plus(self, other: NumberVal) -> (r: NumberVal)
        ensures
            r == self.spec_plus(other),
    {
        match (self, other) {
            (NumberVal::Integer(a), NumberVal::Integer(b)) => NumberVal::Integer(
                a.wrapping_add(b),
            ),
            (NumberVal::Integer(a), NumberVal::Float(b)) => NumberVal::Float(
                crate::float_ops::add_bits(crate::float_ops::i64_to_bits(a), b),
            ),
            (NumberVal::Float(a), NumberVal::Integer(b)) => NumberVal::Float(
                crate::float_ops::add_bits(a, crate::float_ops::i64_to_bits(b)),
            ),
            (NumberVal::Float(a), NumberVal::Float(b)) => NumberVal::Float(
                crate::float_ops::add_bits(a, b),
            ),
        }
    }
}

/// The mathematical model of a JSON value: strings are character sequences,
/// containers are sequences.
pub enum JsonVal {
    Null,
    String(Seq<char>),
    Number(NumberVal),
    Boolean(bool),
    Object(Seq<(Seq<char>, JsonVal)>),
    Array(Seq<JsonVal>),
}

/// Any possible value of a JSON document.
///
/// An object keeps its fields in insertion order; on a duplicated field name
/// the last occurrence wins (see `obj_get`).
#[derive(Debug, PartialEq)]
pub enum JsonValue {
    Null,
    String(String),
    Number(NumberVal),
    Boolean(bool),
    Object(Vec<(String, JsonValue)>),
    Array(Vec<JsonValue>),
}

/// The model of a JSON value.
pub open spec fn jv(v: JsonValue) -> JsonVal
    decreases v,
{
    match v {
        JsonValue::Null => JsonVal::Null,
        JsonValue::String(s) => JsonVal::String(s@),
        JsonValue::Number(n) => JsonVal::Number(n),
        JsonValue::Boolean(b) => JsonVal::Boolean(b),
        JsonValue::Object(fields) => JsonVal::Object(obj_view(fields@)),
        JsonValue::Array(elems) => JsonVal::Array(arr_view(elems@)),
    }
}

/// The model of an ordered field list.
pub open spec fn obj_view(fields: Seq<(String, JsonValue)>) -> Seq<(Seq<char>, JsonVal)>
    decreases fields,
{
    Seq::new(
        fields.len(),
        |i: int|
            if 0 <= i < fields.len() {
                (fields[i].0@, jv(fields[i].1))
            } else {
                arbitrary()
            },
    )
}

/// The model of a sequence of values.
pub open spec fn arr_view(elems: Seq<JsonValue>) -> Seq<JsonVal>
    decreases elems,
{
    Seq::new(
        elems.len(),
        |i: int|
            if 0 <= i < elems.len() {
                jv(elems[i])
            } else {
                arbitrary()
            },
    )
}

impl View for JsonValue {
    type V = JsonVal;

    open spec fn view(&self) -> JsonVal {
        jv(*self)
    }
}

/// The value of the field called `name` in an ordered field list: the last
/// field with that name wins.
pub open spec fn obj_get(fields: Seq<(Seq<char>, JsonVal)>, name: Seq<char>) -> Option<JsonVal>
    decreases fields.len(),
{
    if fields.len() == 0 {
        None
    } else if fields.last().0 == name {
        Some(fields.last().1)
    } else {
        obj_get(fields.drop_last(), name)
    }
}

/// An ordered field list with every field of the given name removed.
pub open spec fn obj_without(fields: Seq<(Seq<char>, JsonVal)>, name: Seq<char>) -> Seq<
    (Seq<char>, JsonVal),
>
    decreases fields,
{
    if fields.len() == 0 {
        Seq::empty()
    } else if fields.last().0 == name {
        obj_without(fields.drop_last(), name)
    } else {
        obj_without(fields.drop_last(), name).push(fields.last())
    }
}

/// The sub-value of `v` that a path leads to: crossing a field step selects
/// the named field of an object, crossing an index step selects the slot of
/// an array; any mismatch gives `None`.
pub open spec fn spec_select(v: JsonVal, path: Seq<PathStepView>) -> Option<JsonVal>
    decreases path.len(),
{
    if path.len() == 0 {
        Some(v)
    } else {
        match v {
            JsonVal::Object(fields) => match path.first() {
                PathStepView::Field(name) => match obj_get(fields, name) {
                    Some(sub) => spec_select(sub, path.drop_first()),
                    None => None,
                },
                PathStepView::Index(_) => None,
            },
            JsonVal::Array(elems) => match path.first() {
                PathStepView::Index(i) => if i < elems.len() {
                    spec_select(elems[i as int], path.drop_first())
                } else {
                    None
                },
                PathStepView::Field(_) => None,
            },
            _ => None,
        }
    }
}

/// The NFC normalization of a text, as unicode_normalization computes it.
pub uninterp spec fn nfc_of(s: Seq<char>) -> Seq<char>;

/// Relies on unicode_normalization's `nfc`: Unicode NFC normalization, a
/// pure function of the character sequence; the characters are glued into a
/// text first.
#[verifier::external_body]
pub(crate) fn nfc_chars(v: &[char]) -> (r: String)
    ensures
        r@ == nfc_of(v@),
{
    v.iter().collect::<String>().nfc().collect()
}

impl JsonValue {
    /// An NFC-normalized string value.
    pub fn normalized_string(s: &str) -> (r: JsonValue)
        ensures
            r@ == JsonVal::String(nfc_of(s@)),
    {
        let chars = crate::write_json::str_to_chars(s);
        JsonValue::String(nfc_chars(chars.as_slice()))
    }

    /// Find the value of the field called `name`, the last one winning.
    fn lookup<'a>(fields: &'a Vec<(String, JsonValue)>, name: &String) -> (r: Option<
        &'a JsonValue,
    >)
        ensures
            match r {
                Some(sub) => obj_get(obj_view(fields@), name@) == Some(sub@),
                None => obj_get(obj_view(fields@), name@) is None,
            },
    {
        let mut j = fields.len();
        proof {
            assert(obj_view(fields@).take(fields@.len() as int) =~= obj_view(fields@));
        }
        while j > 0
            invariant
                j <= fields.len(),
                obj_get(obj_view(fields@), name@) == obj_get(
                    obj_view(fields@).take(j as int),
                    name@,
                ),
            decreases j,
        {
            j = j - 1;
            proof {
                assert(obj_view(fields@).take(j + 1).last() == obj_view(fields@)[j as int]);
                assert(obj_view(fields@).take(j + 1).drop_last() =~= obj_view(fields@).take(
                    j as int,
                ));
            }
            if fields[j].0.eq(name) {
                return Some(&fields[j].1);
            }
        }
        proof {
            assert(obj_view(fields@).take(0) =~= Seq::<(Seq<char>, JsonVal)>::empty());
        }
        None
    }

    /// The sub-value this path leads to, if the document has one.
    pub fn select<'a>(&'a self, path: &JsonPath) -> (r: Option<&'a JsonValue>)
        ensures
            match r {
                Some(sub) => spec_select(self@, path@) == Some(sub@),
                None => spec_select(self@, path@) is None,
            },
    {
        let steps = path.iter();
        let mut selected = self;
        let mut k: usize = 0;
        proof {
            assert(path@.skip(0) =~= path@);
        }
        while k < steps.len()
            invariant
                k <= steps.len(),
                crate::json_path::steps_view(steps@) == path@,
                spec_select(self@, path@) == spec_select(selected@, path@.skip(k as int)),
            decreases steps.len() - k,
        {
            proof {
                assert(path@.skip(k as int).first() == steps@[k as int]@);
                assert(path@.skip(k as int).drop_first() =~= path@.skip(k + 1));
            }
            match (&steps[k], selected) {
                (JsonPathStep::Field(field_name), JsonValue::Object(fields)) => {
                    match Self::lookup(fields, field_name) {
                        Some(field) => {
                            selected = field;
                        },
                        None => {
                            return None;
                        },
                    }
                },
                (JsonPathStep::Index(id), JsonValue::Array(elems)) => {
                    let id = *id;
                    if id < elems.len() as u64 {
                        selected = &elems[id as usize];
                    } else {
                        return None;
                    }
                },
                _ => {
                    return None;
                },
            }
            k = k + 1;
        }
        proof {
            assert(path@.skip(path@.len() as int) =~= Seq::<PathStepView>::empty());
        }
        Some(selected)
    }

    /// Set a field of an ordered field list: every field of that name goes,
    /// and the new field comes last.
    pub fn object_set(fields: Vec<(String, JsonValue)>, name: &String, value: JsonValue) -> (r:
        Vec<(String, JsonValue)>)
        ensures
            obj_view(r@) == obj_without(obj_view(fields@), name@).push((name@, value@)),
    {
        let mut out: Vec<(String, JsonValue)> = Vec::new();
        let mut fields = fields;
        let ghost orig = fields@;
        let mut k: usize = 0;
        while k < fields.len()
            invariant
                k <= fields.len(),
                fields@ == orig,
                obj_view(out@) == obj_without(obj_view(orig).take(k as int), name@),
            decreases fields.len() - k,
        {
            let keep = !fields[k].0.eq(name);
            if keep {
                let pair = (fields[k].0.clone(), fields[k].1.deep_clone());
                out.push(pair);
            }
            k = k + 1;
            proof {
                let fv = obj_view(orig);
                assert(fv.take(k as int).drop_last() =~= fv.take(k - 1));
                assert(fv.take(k as int).last() == fv[k - 1]);
                assert(fv[k - 1].0 == orig[k - 1].0@);
                assert(fv[k - 1].1 == jv(orig[k - 1].1));
                if keep {
                    assert(obj_view(out@) =~= obj_without(fv.take(k as int), name@));
                } else {
                    assert(obj_view(out@) =~= obj_without(fv.take(k as int), name@));
                }
            }
        }
        let ghost before_push = out@;
        out.push((name.clone(), value));
        proof {
            assert(obj_view(orig).take(orig.len() as int) =~= obj_view(orig));
            assert(obj_view(out@) =~= obj_without(obj_view(fields@), name@).push(
                (name@, value@),
            ));
        }
        out
    }

    /// A structurally equal copy of this value.
    pub fn deep_clone(&self) -> (r: JsonValue)
        ensures
            r@ == self@,
        decreases self,
    {
        match self {
            JsonValue::Null => JsonValue::Null,
            JsonValue::String(s) => JsonValue::String(s.clone()),
            JsonValue::Number(n) => JsonValue::Number(*n),
            JsonValue::Boolean(b) => JsonValue::Boolean(*b),
            JsonValue::Object(fields) => {
                let mut out: Vec<(String, JsonValue)> = Vec::new();
                let mut k: usize = 0;
                while k < fields.len()
                    invariant
                        k <= fields.len(),
                        *self == JsonValue::Object(*fields),
                        out@.len() == k,
                        forall|i: int|
                            0 <= i < k ==> (#[trigger] out@[i]).0@ == fields@[i].0@ && jv(
                                out@[i].1,
                            ) == jv(fields@[i].1),
                    decreases fields.len() - k,
                {
                    let pair = &fields[k];
                    proof {
                        assert(decreases_to!(*self => self->Object_0));
                        assert(decreases_to!(self->Object_0 => self->Object_0@));
                        assert(decreases_to!(self->Object_0@ => self->Object_0@[k as int]));
                        assert(decreases_to!(
                            self->Object_0@[k as int] => self->Object_0@[k as int].1));
                        assert(decreases_to!(*self => fields@[k as int].1));
                    }
                    out.push((pair.0.clone(), pair.1.deep_clone()));
                    k = k + 1;
                }
                proof {
                    assert forall|i: int| 0 <= i < out@.len() implies obj_view(out@)[i]
                        == obj_view(fields@)[i] by {
                        assert(out@[i].0@ == fields@[i].0@ && jv(out@[i].1) == jv(fields@[i].1));
                    }
                    assert(obj_view(out@) =~= obj_view(fields@));
                }
                JsonValue::Object(out)
            },
            JsonValue::Array(elems) => {
                let mut out: Vec<JsonValue> = Vec::new();
                let mut k: usize = 0;
                while k < elems.len()
                    invariant
                        k <= elems.len(),
                        *self == JsonValue::Array(*elems),
                        out@.len() == k,
                        forall|i: int| 0 <= i < k ==> #[trigger] jv(out@[i]) == jv(elems@[i]),
                    decreases elems.len() - k,
                {
                    proof {
                        assert(decreases_to!(*self => self->Array_0));
                        assert(decreases_to!(self->Array_0 => self->Array_0@));
                        assert(decreases_to!(self->Array_0@ => self->Array_0@[k as int]));
                        assert(decreases_to!(*self => elems@[k as int]));
                    }
                    out.push(elems[k].deep_clone());
                    k = k + 1;
                }
                proof {
                    assert forall|i: int| 0 <= i < out@.len() implies arr_view(out@)[i]
                        == arr_view(elems@)[i] by {
                        assert(jv(out@[i]) == jv(elems@[i]));
                    }
                    assert(arr_view(out@) =~= arr_view(elems@));
                }
                JsonValue::Array(out)
            },
        }
    }
}

} // verus!
