//! The decode engine: from a text and a schema to the record.
//!
//! A cursor walks the text from left to right, field by field, and never
//! goes back.

use vstd::prelude::*;
use crate::encode::{encode_value, value_text};
use crate::error::{AsciiPackError, ErrorView, UnpackReason, UnpackReasonView};
use crate::scalar::{decode_scalar, decode_variant, scalar_decoded, variant_decoded};
use crate::schema::{Field, FieldSpec, FieldType, ScalarType, Schema};
use crate::until::StopPredicate;
use crate::value::{lemma_views, views, Static, Value, ValueView};

verus! {

/// How many characters of `input` are left at `cursor`.
pub open spec fn remaining(input: Seq<char>, cursor: nat) -> nat {
    if cursor >= input.len() {
        0
    } else {
        (input.len() - cursor) as nat
    }
}

/// The `width` characters of `input` from `cursor` on, or as many of them as
/// there are.
pub open spec fn window(input: Seq<char>, cursor: nat, width: nat) -> Seq<char> {
    if cursor >= input.len() {
        Seq::empty()
    } else if cursor + width >= input.len() {
        input.subrange(cursor as int, input.len() as int)
    } else {
        input.subrange(cursor as int, (cursor + width) as int)
    }
}

/// What a repeated group looks at before it reads an element: the next
/// `element_width` characters where there is such a width, clamped to the
/// end of the input, and all that is left where there is none.
pub open spec fn lookahead(input: Seq<char>, cursor: nat, element_width: Option<usize>) -> Seq<
    char,
> {
    match element_width {
        Some(width) => window(input, cursor, width as nat),
        None => window(input, cursor, input.len()),
    }
}

/// The failure of a field that needs `width` characters at `cursor`, more
/// than are left, or that would take the cursor beyond what a machine word
/// holds.
pub open spec fn out_of_bounds(field: Seq<char>, width: nat, input: Seq<char>, cursor: nat) -> ErrorView {
    ErrorView::Unpack(
        UnpackReasonView::OutOfBounds { field, width, available: remaining(input, cursor) },
    )
}

/// The failure of a nested record that read `consumed` characters of the
/// `width` of its field.
pub open spec fn nested_width(field: Seq<char>, width: nat, consumed: nat) -> ErrorView {
    ErrorView::Unpack(UnpackReasonView::NestedWidth { field, width, consumed })
}

/// The failure of a group whose element took up no text.
pub open spec fn empty_element(field: Seq<char>) -> ErrorView {
    ErrorView::Unpack(UnpackReasonView::EmptyElement { field })
}

/// The default value of a type: that of a scalar type, and for a record the
/// defaults of its fields.
pub open spec fn default_of(ty: FieldType) -> ValueView
    decreases ty, 0nat,
{
    match ty {
        FieldType::Scalar(scalar) => scalar.default_value(),
        FieldType::Enumeration(_) => ValueView::Variant(0),
        FieldType::Record(schema) => ValueView::Record(
            defaults(schema.fields@, schema.fields@.len()),
        ),
    }
}

/// The default value of a field: a literal's placeholder, an empty group,
/// and else the default of the field's type.
pub open spec fn field_default(field: Field) -> ValueView
    decreases field, 0nat,
{
    match field.spec {
        FieldSpec::Static { .. } => ValueView::Static,
        FieldSpec::Repeated { .. } => ValueView::List(Seq::empty()),
        _ => default_of(field.ty),
    }
}

/// The default values of the first `n` fields.
pub open spec fn defaults(fields: Seq<Field>, n: nat) -> Seq<ValueView>
    decreases fields, n,
{
    if n == 0 || n > fields.len() {
        Seq::empty()
    } else {
        defaults(fields, (n - 1) as nat).push(field_default(fields[n - 1]))
    }
}

/// What reading the whole of `text` as a value of type `ty` gives, for the
/// field `field`. A record need not use up the text.
pub open spec fn decoded_value(ty: FieldType, field: Seq<char>, text: Seq<char>) -> Result<
    ValueView,
    ErrorView,
>
    decreases ty, 0nat,
{
    match ty {
        FieldType::Scalar(scalar) => scalar_decoded(scalar, field, text),
        FieldType::Enumeration(names) => variant_decoded(names@, field, text),
        FieldType::Record(schema) => match decoded_fields(schema.fields@, text, 0, 0) {
            Ok((values, _)) => Ok(ValueView::Record(values)),
            Err(e) => Err(e),
        },
    }
}

/// What reading the fields from the `i`-th on gives, with the cursor at
/// `cursor`: their values and where the cursor stands after the last. The
/// first field that fails decides the failure.
pub open spec fn decoded_fields(fields: Seq<Field>, input: Seq<char>, i: int, cursor: nat) -> Result<
    (Seq<ValueView>, nat),
    ErrorView,
>
    decreases fields, fields.len() - i,
{
    if i < 0 || i >= fields.len() {
        Ok((Seq::empty(), cursor))
    } else {
        match decoded_field(fields[i], input, cursor) {
            Err(e) => Err(e),
            Ok((v, next)) => match decoded_fields(fields, input, i + 1, next) {
                Err(e) => Err(e),
                Ok((rest, end)) => Ok((seq![v] + rest, end)),
            },
        }
    }
}

/// What reading one field gives, with the cursor at `cursor`: its value and
/// where the cursor stands after it.
///
/// A fixed field reads exactly its width and fails when less is left; a
/// nested record in it must use up the whole width. A literal moves the
/// cursor by its length, whatever the input holds there. An ignored field
/// gives its type's default and leaves the cursor where it is.
pub open spec fn decoded_field(field: Field, input: Seq<char>, cursor: nat) -> Result<
    (ValueView, nat),
    ErrorView,
>
    decreases field, 0nat,
{
    match field.spec {
        FieldSpec::Fixed { width, pad_char } => {
            if cursor + width > input.len() {
                Err(out_of_bounds(field.name@, width as nat, input, cursor))
            } else {
                let text = input.subrange(cursor as int, (cursor + width) as int);
                match field.ty {
                    FieldType::Record(schema) => match decoded_fields(schema.fields@, text, 0, 0) {
                        Err(e) => Err(e),
                        Ok((values, consumed)) => if consumed != width {
                            Err(nested_width(field.name@, width as nat, consumed))
                        } else {
                            Ok((ValueView::Record(values), cursor + width as nat))
                        },
                    },
                    _ => match decoded_value(field.ty, field.name@, text) {
                        Ok(v) => Ok((v, cursor + width as nat)),
                        Err(e) => Err(e),
                    },
                }
            }
        },
        FieldSpec::Static { text } => {
            if cursor + text@.len() > usize::MAX {
                Err(out_of_bounds(field.name@, text@.len(), input, cursor))
            } else {
                Ok((ValueView::Static, cursor + text@.len()))
            }
        },
        FieldSpec::Ignored => Ok((default_of(field.ty), cursor)),
        FieldSpec::Repeated { element_width, pad_char, stop } => match decoded_items(
            field.ty,
            field.name@,
            element_width,
            stop,
            input,
            cursor,
        ) {
            Ok((items, end)) => Ok((ValueView::List(items), end)),
            Err(e) => Err(e),
        },
    }
}

/// By how much the cursor moves over an element of a repeated group: by
/// the element width where there is one, and else by the length of the
/// text that the element just read encodes to.
pub open spec fn element_step(
    ty: FieldType,
    field: Seq<char>,
    element_width: Option<usize>,
    v: ValueView,
) -> Result<nat, ErrorView> {
    match element_width {
        Some(width) => Ok(width as nat),
        None => match value_text(ty, field, v) {
            Ok(text) => Ok(text.len()),
            Err(e) => Err(e),
        },
    }
}

/// What reading the elements of a repeated group gives, with the cursor at
/// `cursor`: the elements and where the cursor stands after the last.
///
/// Before each element the group looks ahead. It ends when nothing is left
/// there or the stop predicate holds of it. Else one element is read from
/// the lookahead and the cursor moves over it.
pub open spec fn decoded_items(
    ty: FieldType,
    field: Seq<char>,
    element_width: Option<usize>,
    stop: StopPredicate,
    input: Seq<char>,
    cursor: nat,
) -> Result<(Seq<ValueView>, nat), ErrorView>
    decreases ty, remaining(input, cursor) + 1,
{
    let ahead = lookahead(input, cursor, element_width);
    if stop.ends_group(ahead) {
        Ok((Seq::empty(), cursor))
    } else {
        match decoded_value(ty, field, ahead) {
            Err(e) => Err(e),
            Ok(v) => match element_step(ty, field, element_width, v) {
                Err(e) => Err(e),
                Ok(step) => if step == 0 {
                    Err(empty_element(field))
                } else if cursor + step > usize::MAX {
                    Err(out_of_bounds(field, step, input, cursor))
                } else {
                    match decoded_items(ty, field, element_width, stop, input, cursor + step) {
                        Err(e) => Err(e),
                        Ok((rest, end)) => Ok((seq![v] + rest, end)),
                    }
                },
            },
        }
    }
}

/// What decoding `input` by a schema gives: the values of its fields and
/// how many characters were read. Input that is left over is no failure.
pub open spec fn decoded(fields: Seq<Field>, input: Seq<char>) -> Result<
    (Seq<ValueView>, nat),
    ErrorView,
> {
    decoded_fields(fields, input, 0, 0)
}

/// `r` is the result `expected` of reading one value and moving the cursor.
pub open spec fn gives_step(
    r: Result<(Value, usize), AsciiPackError>,
    expected: Result<(ValueView, nat), ErrorView>,
) -> bool {
    match r {
        Ok((v, next)) => expected == Ok::<(ValueView, nat), ErrorView>((v@, next as nat)),
        Err(e) => expected == Err::<(ValueView, nat), ErrorView>(e@),
    }
}

/// `r` is the result `expected` of reading several values and moving the
/// cursor.
pub open spec fn gives_steps(
    r: Result<(Vec<Value>, usize), AsciiPackError>,
    expected: Result<(Seq<ValueView>, nat), ErrorView>,
) -> bool {
    match r {
        Ok((values, end)) => expected == Ok::<(Seq<ValueView>, nat), ErrorView>(
            (views(values@), end as nat),
        ),
        Err(e) => expected == Err::<(Seq<ValueView>, nat), ErrorView>(e@),
    }
}

/// A text together with what reading it needs to know of it: how many
/// characters it holds, and whether all of them are ASCII, in which case a
/// part of it is found without walking through it.
struct Input<'a> {
    text: &'a str,
    len: usize,
    ascii: bool,
}

impl<'a> Input<'a> {
    /// What is recorded of the text is true of it.
    spec fn wf(&self) -> bool {
        &&& self.len == self.text@.len()
        &&& self.ascii ==> self.text.is_ascii()
    }

    /// Takes the measure of `text`.
    fn of(text: &'a str) -> (input: Input<'a>)
        ensures
            input.wf(),
            input.text == text,
    {
        Input { text, len: text.unicode_len(), ascii: text.is_ascii() }
    }

    /// The characters from `from` up to `to`.
    fn slice(&self, from: usize, to: usize) -> (part: Input<'a>)
        requires
            self.wf(),
            from <= to <= self.len,
        ensures
            part.wf(),
            part.text@ == self.text@.subrange(from as int, to as int),
    {
        if self.ascii {
            Input { text: self.text.substring_ascii(from, to), len: to - from, ascii: true }
        } else {
            Input { text: self.text.substring_char(from, to), len: to - from, ascii: false }
        }
    }

    /// What a repeated group looks at with the cursor at `cursor`.
    fn look_ahead(&self, cursor: usize, element_width: Option<usize>) -> (ahead: Input<'a>)
        requires
            self.wf(),
        ensures
            ahead.wf(),
            ahead.text@ == lookahead(self.text@, cursor as nat, element_width),
    {
        if cursor >= self.len {
            self.slice(self.len, self.len)
        } else {
            let end: usize = match element_width {
                Some(width) => if width >= self.len - cursor {
                    self.len
                } else {
                    cursor + width
                },
                None => self.len,
            };
            self.slice(cursor, end)
        }
    }

    /// The failure of the field `field`, which needs `width` characters at
    /// `cursor`.
    fn out_of_bounds(&self, field: &str, width: usize, cursor: usize) -> (e: AsciiPackError)
        requires
            self.wf(),
        ensures
            e@ == out_of_bounds(field@, width as nat, self.text@, cursor as nat),
    {
        let available: usize = if cursor >= self.len {
            0
        } else {
            self.len - cursor
        };
        AsciiPackError::Unpack(
            UnpackReason::OutOfBounds { field: String::from_str(field), width, available },
        )
    }
}

/// The default value of a scalar type.
pub fn scalar_default(ty: ScalarType) -> (v: Value)
    ensures
        v@ == ty.default_value(),
{
    match ty {
        ScalarType::U8 | ScalarType::U16 | ScalarType::U32 | ScalarType::U64 | ScalarType::Usize => {
            Value::Unsigned(0)
        },
        ScalarType::I8 | ScalarType::I16 | ScalarType::I32 | ScalarType::I64 | ScalarType::Isize => {
            Value::Signed(0)
        },
        ScalarType::Bool => Value::Bool(false),
        ScalarType::Char => Value::Char('\0'),
        ScalarType::Text => Value::Text(String::new()),
    }
}

/// The default value of a type.
pub fn default_value(ty: &FieldType) -> (v: Value)
    ensures
        v@ == default_of(*ty),
    decreases ty, 0nat,
{
    match ty {
        FieldType::Scalar(scalar) => scalar_default(*scalar),
        FieldType::Enumeration(_) => Value::Variant(0),
        FieldType::Record(schema) => {
            let values = default_fields(&schema.fields);
            proof {
                lemma_views(values);
            }
            Value::Record(values)
        },
    }
}

/// The default value of a field.
pub fn default_field(field: &Field) -> (v: Value)
    ensures
        v@ == field_default(*field),
    decreases field, 0nat,
{
    match &field.spec {
        FieldSpec::Static { .. } => Value::Static(Static::new()),
        FieldSpec::Repeated { .. } => {
            let empty: Vec<Value> = Vec::new();
            proof {
                lemma_views(empty);
                assert(views(empty@) =~= Seq::<ValueView>::empty());
            }
            Value::List(empty)
        },
        _ => default_value(&field.ty),
    }
}

/// The default values of the fields of a record.
pub fn default_fields(fields: &Vec<Field>) -> (values: Vec<Value>)
    ensures
        views(values@) == defaults(fields@, fields@.len()),
    decreases fields, 1nat,
{
    let n: usize = fields.len();
    let mut values: Vec<Value> = Vec::new();
    let mut i: usize = 0;
    assert(views(values@) =~= defaults(fields@, 0));
    while i < n
        invariant
            i <= n == fields@.len(),
            views(values@) == defaults(fields@, i as nat),
        decreases n - i,
    {
        let v = default_field(&fields[i]);
        let ghost before = values@;
        values.push(v);
        i += 1;
        assert(views(values@) =~= views(before).push(v@));
    }
    values
}

/// Reads the whole of `input` as a value of type `ty`, for the field
/// `field`.
fn decode_value_of(ty: &FieldType, field: &str, input: &Input) -> (r: Result<
    Value,
    AsciiPackError,
>)
    requires
        input.wf(),
    ensures
        match r {
            Ok(v) => decoded_value(*ty, field@, input.text@) == Ok::<ValueView, ErrorView>(v@),
            Err(e) => decoded_value(*ty, field@, input.text@) == Err::<ValueView, ErrorView>(e@),
        },
    decreases ty, 0nat,
{
    match ty {
        FieldType::Scalar(scalar) => decode_scalar(*scalar, field, input.text),
        FieldType::Enumeration(names) => decode_variant(names, field, input.text),
        FieldType::Record(schema) => match decode_fields_of(&schema.fields, input) {
            Ok((values, _)) => {
                proof {
                    lemma_views(values);
                }
                Ok(Value::Record(values))
            },
            Err(e) => Err(e),
        },
    }
}

/// Reads the fields `fields` from the beginning of `input`, one after the
/// other.
fn decode_fields_of(fields: &Vec<Field>, input: &Input) -> (r: Result<
    (Vec<Value>, usize),
    AsciiPackError,
>)
    requires
        input.wf(),
    ensures
        gives_steps(r, decoded(fields@, input.text@)),
    decreases fields, fields.len() + 1,
{
    let n: usize = fields.len();
    let mut values: Vec<Value> = Vec::new();
    let mut cursor: usize = 0;
    let mut i: usize = 0;
    assert(views(values@) + Seq::<ValueView>::empty() =~= Seq::<ValueView>::empty());
    while i < n
        invariant
            i <= n == fields@.len(),
            input.wf(),
            decoded_fields(fields@, input.text@, 0, 0) == match decoded_fields(
                fields@,
                input.text@,
                i as int,
                cursor as nat,
            ) {
                Ok((rest, end)) => Ok::<(Seq<ValueView>, nat), ErrorView>(
                    (views(values@) + rest, end),
                ),
                Err(e) => Err(e),
            },
        decreases n - i,
    {
        let ghost before = values@;
        match decode_field_at(&fields[i], input, cursor) {
            Err(e) => {
                return Err(e);
            },
            Ok((v, next)) => {
                values.push(v);
                proof {
                    match decoded_fields(fields@, input.text@, i + 1, next as nat) {
                        Ok((rest, end)) => {
                            assert(views(values@) + rest =~= views(before) + (seq![v@] + rest));
                        },
                        Err(_) => {},
                    }
                }
                cursor = next;
            },
        }
        i += 1;
    }
    assert(views(values@) + Seq::<ValueView>::empty() =~= views(values@));
    Ok((values, cursor))
}

/// Reads the field `field` of `input` with the cursor at `cursor`.
fn decode_field_at(field: &Field, input: &Input, cursor: usize) -> (r: Result<
    (Value, usize),
    AsciiPackError,
>)
    requires
        input.wf(),
    ensures
        gives_step(r, decoded_field(*field, input.text@, cursor as nat)),
    decreases field, 0nat,
{
    match &field.spec {
        FieldSpec::Fixed { width, pad_char } => {
            let width: usize = *width;
            if width > input.len || cursor > input.len - width {
                return Err(input.out_of_bounds(field.name.as_str(), width, cursor));
            }
            let text = input.slice(cursor, cursor + width);
            match &field.ty {
                FieldType::Record(schema) => match decode_fields_of(&schema.fields, &text) {
                    Err(e) => Err(e),
                    Ok((values, consumed)) => {
                        if consumed != width {
                            Err(
                                AsciiPackError::Unpack(
                                    UnpackReason::NestedWidth {
                                        field: String::from_str(field.name.as_str()),
                                        width,
                                        consumed,
                                    },
                                ),
                            )
                        } else {
                            proof {
                                lemma_views(values);
                            }
                            Ok((Value::Record(values), cursor + width))
                        }
                    },
                },
                _ => match decode_value_of(&field.ty, field.name.as_str(), &text) {
                    Ok(v) => Ok((v, cursor + width)),
                    Err(e) => Err(e),
                },
            }
        },
        FieldSpec::Static { text } => {
            let width: usize = text.as_str().unicode_len();
            if width > usize::MAX - cursor {
                Err(input.out_of_bounds(field.name.as_str(), width, cursor))
            } else {
                Ok((Value::Static(Static::new()), cursor + width))
            }
        },
        FieldSpec::Ignored => Ok((default_value(&field.ty), cursor)),
        FieldSpec::Repeated { element_width, pad_char, stop } => {
            match decode_items(&field.ty, field.name.as_str(), *element_width, stop, input, cursor) {
                Ok((items, end)) => {
                    proof {
                        lemma_views(items);
                    }
                    Ok((Value::List(items), end))
                },
                Err(e) => Err(e),
            }
        },
    }
}

/// Reads the elements of a repeated group of `input` with the cursor at
/// `cursor`.
fn decode_items(
    ty: &FieldType,
    field: &str,
    element_width: Option<usize>,
    stop: &StopPredicate,
    input: &Input,
    cursor: usize,
) -> (r: Result<(Vec<Value>, usize), AsciiPackError>)
    requires
        input.wf(),
    ensures
        gives_steps(
            r,
            decoded_items(*ty, field@, element_width, *stop, input.text@, cursor as nat),
        ),
    decreases ty, 1nat,
{
    let mut items: Vec<Value> = Vec::new();
    let mut at: usize = cursor;
    assert(views(items@) + Seq::<ValueView>::empty() =~= Seq::<ValueView>::empty());
    loop
        invariant
            input.wf(),
            decoded_items(*ty, field@, element_width, *stop, input.text@, cursor as nat)
                == match decoded_items(*ty, field@, element_width, *stop, input.text@, at as nat) {
                Ok((rest, end)) => Ok::<(Seq<ValueView>, nat), ErrorView>(
                    (views(items@) + rest, end),
                ),
                Err(e) => Err(e),
            },
        decreases remaining(input.text@, at as nat),
    {
        let ahead = input.look_ahead(at, element_width);
        if ahead.len == 0 || stop.test_of_len(ahead.text, ahead.len) {
            assert(views(items@) + Seq::<ValueView>::empty() =~= views(items@));
            return Ok((items, at));
        }
        let v = match decode_value_of(ty, field, &ahead) {
            Err(e) => {
                return Err(e);
            },
            Ok(v) => v,
        };
        let step: usize = match element_width {
            Some(width) => width,
            None => match encode_value(ty, field, &v) {
                Err(e) => {
                    return Err(e);
                },
                Ok(text) => text.as_str().unicode_len(),
            },
        };
        if step == 0 {
            return Err(
                AsciiPackError::Unpack(
                    UnpackReason::EmptyElement { field: String::from_str(field) },
                ),
            );
        }
        if step > usize::MAX - at {
            return Err(input.out_of_bounds(field, step, at));
        }
        let ghost before = items@;
        items.push(v);
        proof {
            match decoded_items(*ty, field@, element_width, *stop, input.text@, (at + step) as nat) {
                Ok((rest, end)) => {
                    assert(views(items@) + rest =~= views(before) + (seq![v@] + rest));
                },
                Err(_) => {},
            }
        }
        at = at + step;
    }
}

/// Reads the whole of `text` as a value of type `ty`, for the field
/// `field`. A record need not use up the text.
pub fn decode_value(ty: &FieldType, field: &str, text: &str) -> (r: Result<Value, AsciiPackError>)
    ensures
        match r {
            Ok(v) => decoded_value(*ty, field@, text@) == Ok::<ValueView, ErrorView>(v@),
            Err(e) => decoded_value(*ty, field@, text@) == Err::<ValueView, ErrorView>(e@),
        },
{
    decode_value_of(ty, field, &Input::of(text))
}

/// Reads the field `field` of `input` with the cursor at `cursor`, and says
/// where the cursor stands after it.
pub fn decode_field(field: &Field, input: &str, cursor: usize) -> (r: Result<
    (Value, usize),
    AsciiPackError,
>)
    ensures
        gives_step(r, decoded_field(*field, input@, cursor as nat)),
{
    decode_field_at(field, &Input::of(input), cursor)
}

/// Decodes `input` by `schema` and says how many characters were read.
pub fn decode_prefix(schema: &Schema, input: &str) -> (r: Result<
    (Vec<Value>, usize),
    AsciiPackError,
>)
    ensures
        gives_steps(r, decoded(schema.fields@, input@)),
{
    decode_fields_of(&schema.fields, &Input::of(input))
}

/// Decodes `input` by `schema`: one value for each field, in order. It
/// fails with the failure of the first field that cannot be read. Input
/// that is left over after the last field is no failure.
pub fn decode(schema: &Schema, input: &str) -> (r: Result<Vec<Value>, AsciiPackError>)
    ensures
        match r {
            Ok(values) => decoded(schema.fields@, input@) matches Ok((expected, _)) && expected
                == views(values@),
            Err(e) => decoded(schema.fields@, input@) == Err::<(Seq<ValueView>, nat), ErrorView>(
                e@,
            ),
        },
{
    match decode_fields_of(&schema.fields, &Input::of(input)) {
        Ok((values, _)) => Ok(values),
        Err(e) => Err(e),
    }
}

} // verus!
