//! The values that a record is made of, and their mathematical model.

use vstd::prelude::*;

verus! {

/// The value of a field that holds a literal: it carries no data, the text
/// is the schema's.
#[derive(Clone, Copy, Debug, Default, PartialEq, Eq)]
pub struct Static;

impl Static {
    /// The one value of this type.
    pub fn new() -> (s: Static)
        ensures
            s == Static,
    {
        Static {  }
    }
}

/// One decoded value: a scalar, a literal's placeholder, a nested record or
/// the elements of a repeated group.
#[derive(Debug, PartialEq, Eq)]
pub enum Value {
    /// An unsigned integer of any width up to 64 bits.
    Unsigned(u64),
    /// A signed integer of any width up to 64 bits.
    Signed(i64),
    /// A boolean.
    Bool(bool),
    /// A single character.
    Char(char),
    /// A piece of text, kept as it stands in the input.
    Text(String),
    /// A name of an enumeration, by its place in the list of names.
    Variant(usize),
    /// The placeholder of a literal field.
    Static(Static),
    /// A nested record: one value for each field of its schema, in order.
    Record(Vec<Value>),
    /// The elements of a repeated group, in order.
    List(Vec<Value>),
}

impl Value {
    /// The number that an unsigned value holds.
    pub fn as_unsigned(&self) -> (r: Option<u64>)
        ensures
            r == (match *self {
                Value::Unsigned(n) => Some(n),
                _ => None,
            }),
    {
        match self {
            Value::Unsigned(n) => Some(*n),
            _ => None,
        }
    }

    /// The number that a signed value holds.
    pub fn as_signed(&self) -> (r: Option<i64>)
        ensures
            r == (match *self {
                Value::Signed(n) => Some(n),
                _ => None,
            }),
    {
        match self {
            Value::Signed(n) => Some(*n),
            _ => None,
        }
    }

    /// The boolean that a boolean value holds.
    pub fn as_bool(&self) -> (r: Option<bool>)
        ensures
            r == (match *self {
                Value::Bool(b) => Some(b),
                _ => None,
            }),
    {
        match self {
            Value::Bool(b) => Some(*b),
            _ => None,
        }
    }

    /// The character that a character value holds.
    pub fn as_char(&self) -> (r: Option<char>)
        ensures
            r == (match *self {
                Value::Char(c) => Some(c),
                _ => None,
            }),
    {
        match self {
            Value::Char(c) => Some(*c),
            _ => None,
        }
    }

    /// The text that a text value holds.
    pub fn as_text(&self) -> (r: Option<&str>)
        ensures
            match *self {
                Value::Text(s) => r matches Some(t) && t@ == s@,
                _ => r is None,
            },
    {
        match self {
            Value::Text(s) => Some(s.as_str()),
            _ => None,
        }
    }

    /// The place of the name that a value of an enumeration holds.
    pub fn as_variant(&self) -> (r: Option<usize>)
        ensures
            r == (match *self {
                Value::Variant(i) => Some(i),
                _ => None,
            }),
    {
        match self {
            Value::Variant(i) => Some(*i),
            _ => None,
        }
    }

    /// The fields of a nested record.
    pub fn as_record(&self) -> (r: Option<&Vec<Value>>)
        ensures
            r == (match *self {
                Value::Record(fields) => Some(&fields),
                _ => None,
            }),
    {
        match self {
            Value::Record(fields) => Some(fields),
            _ => None,
        }
    }

    /// The elements of a repeated group.
    pub fn as_list(&self) -> (r: Option<&Vec<Value>>)
        ensures
            r == (match *self {
                Value::List(items) => Some(&items),
                _ => None,
            }),
    {
        match self {
            Value::List(items) => Some(items),
            _ => None,
        }
    }

    /// A text value that holds `text`.
    pub fn text(text: &str) -> (v: Value)
        ensures
            v@ == ValueView::Text(text@),
    {
        Value::Text(String::from_str(text))
    }
}

/// The mathematical model of a [`Value`].
pub enum ValueView {
    Unsigned(u64),
    Signed(i64),
    Bool(bool),
    Char(char),
    Text(Seq<char>),
    Variant(usize),
    Static,
    Record(Seq<ValueView>),
    List(Seq<ValueView>),
}

/// The model of a value.
pub open spec fn model(v: Value) -> ValueView
    decreases v, 0nat,
{
    match v {
        Value::Unsigned(n) => ValueView::Unsigned(n),
        Value::Signed(n) => ValueView::Signed(n),
        Value::Bool(b) => ValueView::Bool(b),
        Value::Char(c) => ValueView::Char(c),
        Value::Text(s) => ValueView::Text(s@),
        Value::Variant(i) => ValueView::Variant(i),
        Value::Static(_) => ValueView::Static,
        Value::Record(fields) => ValueView::Record(models(fields@, fields@.len())),
        Value::List(items) => ValueView::List(models(items@, items@.len())),
    }
}

/// The models of the first `n` values of a sequence, in order.
pub open spec fn models(values: Seq<Value>, n: nat) -> Seq<ValueView>
    decreases values, n,
{
    if n == 0 || n > values.len() {
        Seq::empty()
    } else {
        models(values, (n - 1) as nat).push(model(values[n - 1]))
    }
}

impl View for Value {
    type V = ValueView;

    open spec fn view(&self) -> ValueView {
        model(*self)
    }
}

/// The models of a sequence of values, one by one.
pub open spec fn views(values: Seq<Value>) -> Seq<ValueView> {
    Seq::new(values.len(), |i: int| values[i]@)
}

/// The models of the first `n` values are the first `n` of the models.
pub proof fn lemma_models(values: Seq<Value>, n: nat)
    requires
        n <= values.len(),
    ensures
        models(values, n) == views(values).take(n as int),
    decreases n,
{
    if n > 0 {
        lemma_models(values, (n - 1) as nat);
    }
    assert(models(values, n) =~= views(values).take(n as int));
}

/// The model of a record is made of the models of its fields, and the model
/// of a list of the models of its elements.
pub proof fn lemma_views(values: Vec<Value>)
    ensures
        Value::Record(values)@ == ValueView::Record(views(values@)),
        Value::List(values)@ == ValueView::List(views(values@)),
{
    lemma_models(values@, values@.len());
    assert(views(values@).take(values@.len() as int) =~= views(values@));
}

impl Clone for Value {
    /// A value with the same model.
    fn clone(&self) -> (copy: Value)
        ensures
            copy@ == self@,
        decreases self,
    {
        match self {
            Value::Unsigned(n) => Value::Unsigned(*n),
            Value::Signed(n) => Value::Signed(*n),
            Value::Bool(b) => Value::Bool(*b),
            Value::Char(c) => Value::Char(*c),
            Value::Text(s) => Value::Text(s.clone()),
            Value::Variant(i) => Value::Variant(*i),
            Value::Static(s) => Value::Static(*s),
            Value::Record(fields) => {
                let copies = clone_all(fields);
                proof {
                    lemma_views(*fields);
                    lemma_views(copies);
                }
                Value::Record(copies)
            },
            Value::List(items) => {
                let copies = clone_all(items);
                proof {
                    lemma_views(*items);
                    lemma_views(copies);
                }
                Value::List(copies)
            },
        }
    }
}

/// Values with the same models, in the same order.
fn clone_all(values: &Vec<Value>) -> (copies: Vec<Value>)
    ensures
        views(copies@) == views(values@),
    decreases values,
{
    let n: usize = values.len();
    let mut copies: Vec<Value> = Vec::new();
    let mut i: usize = 0;
    while i < n
        invariant
            i <= n == values@.len(),
            copies@.len() == i,
            forall|k: int| 0 <= k < i ==> (#[trigger] copies@[k])@ == values@[k]@,
        decreases n - i,
    {
        let copy = values[i].clone();
        copies.push(copy);
        i += 1;
    }
    assert(views(copies@) =~= views(values@));
    copies
}

} // verus!

