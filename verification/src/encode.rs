//! The encode engine: from a record and its schema to the text.

use vstd::prelude::*;
use crate::error::{AsciiPackError, ErrorView, PackReason, PackReasonView};
use crate::scalar::{encode_scalar, encode_variant, mismatch, scalar_encoded, variant_encoded};
use crate::schema::{Field, FieldSpec, FieldType, Schema};
use crate::text::{pad_left, padded};
use crate::value::{lemma_views, views, Value, ValueView};

verus! {

/// The failure of a text that is longer than the width of its field.
pub open spec fn too_large(field: Seq<char>, text: Seq<char>, width: nat) -> ErrorView {
    ErrorView::Pack(
        PackReasonView::FieldTooLarge { field, text, actual: text.len(), expected: width },
    )
}

/// The failure of a record that holds `actual` values for `expected` fields.
pub open spec fn wrong_arity(expected: nat, actual: nat) -> ErrorView {
    ErrorView::Pack(PackReasonView::Arity { expected, actual })
}

/// A text brought to the width of its field: refused when it is longer,
/// left as it is when it is as long, padded on the left when it is shorter.
pub open spec fn fitted(field: Seq<char>, text: Seq<char>, width: nat, pad: char) -> Result<
    Seq<char>,
    ErrorView,
> {
    if text.len() > width {
        Err(too_large(field, text, width))
    } else {
        Ok(padded(text, width, pad))
    }
}

/// The text of the value `v` of type `ty`, which the field `field` holds.
pub open spec fn value_text(ty: FieldType, field: Seq<char>, v: ValueView) -> Result<
    Seq<char>,
    ErrorView,
>
    decreases ty, 0nat,
{
    match ty {
        FieldType::Scalar(scalar) => scalar_encoded(scalar, field, v),
        FieldType::Enumeration(names) => variant_encoded(names@, field, v),
        FieldType::Record(schema) => match v {
            ValueView::Record(values) => record_text(schema.fields@, values),
            _ => Err(mismatch(field)),
        },
    }
}

/// The text of a record: the texts of its fields, one after the other. The
/// record must hold one value for each field.
pub open spec fn record_text(fields: Seq<Field>, values: Seq<ValueView>) -> Result<
    Seq<char>,
    ErrorView,
>
    decreases fields, fields.len() + 1,
{
    if values.len() != fields.len() {
        Err(wrong_arity(fields.len(), values.len()))
    } else {
        fields_text(fields, values, 0)
    }
}

/// The texts of the fields from the `i`-th on, one after the other. The
/// first field that fails decides the failure.
pub open spec fn fields_text(fields: Seq<Field>, values: Seq<ValueView>, i: int) -> Result<
    Seq<char>,
    ErrorView,
>
    decreases fields, fields.len() - i,
{
    if i < 0 || i >= fields.len() {
        Ok(Seq::empty())
    } else {
        match field_text(fields[i], values[i]) {
            Err(e) => Err(e),
            Ok(head) => match fields_text(fields, values, i + 1) {
                Err(e) => Err(e),
                Ok(rest) => Ok(head + rest),
            },
        }
    }
}

/// The text of one field. A literal gives its text and an ignored field
/// nothing, whatever the value; the stop predicate of a repeated group has
/// no part in it.
pub open spec fn field_text(field: Field, v: ValueView) -> Result<Seq<char>, ErrorView>
    decreases field, 0nat,
{
    match field.spec {
        FieldSpec::Fixed { width, pad_char } => match value_text(field.ty, field.name@, v) {
            Err(e) => Err(e),
            Ok(text) => fitted(field.name@, text, width as nat, pad_char),
        },
        FieldSpec::Static { text } => Ok(text@),
        FieldSpec::Ignored => Ok(Seq::empty()),
        FieldSpec::Repeated { element_width, pad_char, stop } => match v {
            ValueView::List(items) => items_text(
                field.ty,
                field.name@,
                element_width,
                pad_char,
                items,
                0,
            ),
            _ => Err(mismatch(field.name@)),
        },
    }
}

/// The text of one element of a repeated group: brought to the element
/// width where there is one, as it is where there is none.
pub open spec fn element_text(
    field: Seq<char>,
    text: Seq<char>,
    element_width: Option<usize>,
    pad: char,
) -> Result<Seq<char>, ErrorView> {
    match element_width {
        Some(width) => fitted(field, text, width as nat, pad),
        None => Ok(text),
    }
}

/// The texts of the elements from the `j`-th on, one after the other.
pub open spec fn items_text(
    ty: FieldType,
    field: Seq<char>,
    element_width: Option<usize>,
    pad: char,
    items: Seq<ValueView>,
    j: int,
) -> Result<Seq<char>, ErrorView>
    decreases ty, items.len() - j + 1,
{
    if j < 0 || j >= items.len() {
        Ok(Seq::empty())
    } else {
        match value_text(ty, field, items[j]) {
            Err(e) => Err(e),
            Ok(text) => match element_text(field, text, element_width, pad) {
                Err(e) => Err(e),
                Ok(head) => match items_text(ty, field, element_width, pad, items, j + 1) {
                    Err(e) => Err(e),
                    Ok(rest) => Ok(head + rest),
                },
            },
        }
    }
}

/// `r` is the result `expected`, text for text and failure for failure.
pub open spec fn gives_text(
    r: Result<String, AsciiPackError>,
    expected: Result<Seq<char>, ErrorView>,
) -> bool {
    match r {
        Ok(text) => expected == Ok::<Seq<char>, ErrorView>(text@),
        Err(e) => expected == Err::<Seq<char>, ErrorView>(e@),
    }
}

/// Brings `text` to the width of the field `field`: it fails when the text
/// is longer than `width`, returns it unchanged when it is as long, and
/// pads it on the left with `pad` when it is shorter.
pub fn fit(field: &str, text: String, width: usize, pad: char) -> (r: Result<
    String,
    AsciiPackError,
>)
    ensures
        gives_text(r, fitted(field@, text@, width as nat, pad)),
{
    let len: usize = text.as_str().unicode_len();
    if len > width {
        Err(
            AsciiPackError::Pack(
                PackReason::FieldTooLarge {
                    field: String::from_str(field),
                    text,
                    actual: len,
                    expected: width,
                },
            ),
        )
    } else if len == width {
        Ok(text)
    } else {
        Ok(pad_left(text.as_str(), width, pad))
    }
}

/// Writes the value `value` of type `ty`, which the field `field` holds.
pub fn encode_value(ty: &FieldType, field: &str, value: &Value) -> (r: Result<
    String,
    AsciiPackError,
>)
    ensures
        gives_text(r, value_text(*ty, field@, value@)),
    decreases ty, 0nat,
{
    match ty {
        FieldType::Scalar(scalar) => encode_scalar(*scalar, field, value),
        FieldType::Enumeration(names) => encode_variant(names, field, value),
        FieldType::Record(schema) => match value {
            Value::Record(values) => {
                proof {
                    lemma_views(*values);
                }
                encode_record(&schema.fields, values)
            },
            _ => Err(
                AsciiPackError::Pack(PackReason::Mismatch { field: String::from_str(field) }),
            ),
        },
    }
}

/// Writes the record `values`, laid out by `fields`.
pub fn encode_record(fields: &Vec<Field>, values: &Vec<Value>) -> (r: Result<
    String,
    AsciiPackError,
>)
    ensures
        gives_text(r, record_text(fields@, views(values@))),
    decreases fields, fields.len() + 1,
{
    let n: usize = fields.len();
    if values.len() != n {
        return Err(AsciiPackError::Pack(PackReason::Arity { expected: n, actual: values.len() }));
    }
    let mut out = String::new();
    let mut i: usize = 0;
    while i < n
        invariant
            i <= n == fields@.len() == values@.len(),
            fields_text(fields@, views(values@), 0) == match fields_text(
                fields@,
                views(values@),
                i as int,
            ) {
                Ok(rest) => Ok::<Seq<char>, ErrorView>(out@ + rest),
                Err(e) => Err(e),
            },
        decreases n - i,
    {
        let ghost before = out@;
        match encode_field(&fields[i], &values[i]) {
            Err(e) => {
                return Err(e);
            },
            Ok(head) => {
                out.append(head.as_str());
                proof {
                    match fields_text(fields@, views(values@), i + 1) {
                        Ok(rest) => {
                            assert(out@ + rest =~= before + (head@ + rest));
                        },
                        Err(_) => {},
                    }
                }
            },
        }
        i += 1;
    }
    assert(out@ + Seq::<char>::empty() =~= out@);
    Ok(out)
}

/// Writes the field `field`, whose value is `value`.
pub fn encode_field(field: &Field, value: &Value) -> (r: Result<String, AsciiPackError>)
    ensures
        gives_text(r, field_text(*field, value@)),
    decreases field, 0nat,
{
    match &field.spec {
        FieldSpec::Fixed { width, pad_char } => {
            match encode_value(&field.ty, field.name.as_str(), value) {
                Err(e) => Err(e),
                Ok(text) => fit(field.name.as_str(), text, *width, *pad_char),
            }
        },
        FieldSpec::Static { text } => Ok(text.clone()),
        FieldSpec::Ignored => Ok(String::new()),
        FieldSpec::Repeated { element_width, pad_char, stop } => match value {
            Value::List(items) => {
                proof {
                    lemma_views(*items);
                }
                encode_items(&field.ty, field.name.as_str(), *element_width, *pad_char, items)
            },
            _ => Err(
                AsciiPackError::Pack(
                    PackReason::Mismatch { field: String::from_str(field.name.as_str()) },
                ),
            ),
        },
    }
}

/// Writes the elements of a repeated group, one after the other.
pub fn encode_items(
    ty: &FieldType,
    field: &str,
    element_width: Option<usize>,
    pad: char,
    items: &Vec<Value>,
) -> (r: Result<String, AsciiPackError>)
    ensures
        gives_text(r, items_text(*ty, field@, element_width, pad, views(items@), 0)),
    decreases ty, items.len() + 1,
{
    let n: usize = items.len();
    let mut out = String::new();
    let mut j: usize = 0;
    while j < n
        invariant
            j <= n == items@.len(),
            items_text(*ty, field@, element_width, pad, views(items@), 0) == match items_text(
                *ty,
                field@,
                element_width,
                pad,
                views(items@),
                j as int,
            ) {
                Ok(rest) => Ok::<Seq<char>, ErrorView>(out@ + rest),
                Err(e) => Err(e),
            },
        decreases n - j,
    {
        let ghost before = out@;
        let text = match encode_value(ty, field, &items[j]) {
            Err(e) => {
                return Err(e);
            },
            Ok(text) => text,
        };
        let head = match element_width {
            Some(width) => match fit(field, text, width, pad) {
                Err(e) => {
                    return Err(e);
                },
                Ok(head) => head,
            },
            None => text,
        };
        out.append(head.as_str());
        proof {
            match items_text(*ty, field@, element_width, pad, views(items@), j + 1) {
                Ok(rest) => {
                    assert(out@ + rest =~= before + (head@ + rest));
                },
                Err(_) => {},
            }
        }
        j += 1;
    }
    assert(out@ + Seq::<char>::empty() =~= out@);
    Ok(out)
}

/// Encodes a record: the texts of its fields in the order of the schema.
/// It fails with the failure of the first field that cannot be written, and
/// before that when the record does not hold one value for each field.
pub fn encode(schema: &Schema, values: &Vec<Value>) -> (r: Result<String, AsciiPackError>)
    ensures
        gives_text(r, record_text(schema.fields@, views(values@))),
{
    encode_record(&schema.fields, values)
}

} // verus!
