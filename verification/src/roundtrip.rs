//! The round trip: decoding a text and encoding the record gives the text
//! back exactly when the text is canonical and is used up.
//!
//! Decoding forgets some things, so not every text that decodes comes back:
//! a number may be written with a plus sign or with other padding than its
//! field's, the input may hold other characters than a literal in the place
//! of that literal, the last element of a group may be cut short by the end
//! of the input, and input may be left over. A text is canonical when none
//! of this happens in it.

use vstd::prelude::*;
use crate::decode::{decoded, decoded_field, decoded_fields, decoded_items, decoded_value,
    element_step, lookahead, remaining};
use crate::encode::{element_text, field_text, fields_text, fitted, items_text, record_text,
    value_text};
use crate::error::ErrorView;
use crate::laws::{cursor_never_goes_back_in_group, cursor_never_goes_back_in_record};
use crate::number::{all_digits, decimal, parse_unsigned, zero_padded_digits_come_back,
    IntErrorKind};
use crate::scalar::{false_text, name_index, scalar_text, scalar_value, true_text};
use crate::schema::{Field, FieldSpec, FieldType, ScalarType};
use crate::text::padded;
use crate::until::StopPredicate;
use crate::value::ValueView;

verus! {

/// `text` is a scalar of type `ty` as the encoder writes it into a field of
/// the length of `text` that pads with `pad`.
pub open spec fn canonical_scalar(ty: ScalarType, text: Seq<char>, pad: char) -> bool {
    &&& scalar_value(ty, text) matches Ok(v)
    &&& scalar_text(ty, v) matches Some(written)
    &&& padded(written, text.len(), pad) == text
}

/// `text` begins with a scalar of type `ty` as the encoder writes it without
/// padding, and reads as that scalar.
pub open spec fn canonical_scalar_prefix(ty: ScalarType, text: Seq<char>) -> bool {
    &&& scalar_value(ty, text) matches Ok(v)
    &&& scalar_text(ty, v) matches Some(written)
    &&& written.len() <= text.len()
    &&& text.subrange(0, written.len() as int) == written
}

/// `text` is a value of type `ty` as the encoder writes it into a field of
/// the length of `text` that pads with `pad`. A record fills the whole of
/// it.
pub open spec fn canonical_value(ty: FieldType, text: Seq<char>, pad: char) -> bool
    decreases ty, 0nat,
{
    match ty {
        FieldType::Scalar(scalar) => canonical_scalar(scalar, text, pad),
        FieldType::Enumeration(_) => true,
        FieldType::Record(schema) => {
            &&& decoded_fields(schema.fields@, text, 0, 0) matches Ok((_, consumed))
            &&& consumed == text.len()
            &&& canonical_fields(schema.fields@, text, 0, 0)
        },
    }
}

/// `text` begins with a value of type `ty` as the encoder writes it without
/// padding.
pub open spec fn canonical_prefix(ty: FieldType, text: Seq<char>) -> bool
    decreases ty, 0nat,
{
    match ty {
        FieldType::Scalar(scalar) => canonical_scalar_prefix(scalar, text),
        FieldType::Enumeration(_) => true,
        FieldType::Record(schema) => canonical_fields(schema.fields@, text, 0, 0),
    }
}

/// The fields from the `i`-th on are canonical in `input`, with the cursor
/// at `cursor`.
pub open spec fn canonical_fields(fields: Seq<Field>, input: Seq<char>, i: int, cursor: nat) -> bool
    decreases fields, fields.len() - i,
{
    if i < 0 || i >= fields.len() {
        true
    } else {
        &&& canonical_field(fields[i], input, cursor)
        &&& decoded_field(fields[i], input, cursor) matches Ok((_, next)) ==> canonical_fields(
            fields,
            input,
            i + 1,
            next,
        )
    }
}

/// The field is canonical in `input`, with the cursor at `cursor`: a fixed
/// field holds a canonical value, the input holds a literal where the
/// literal stands, and the elements of a group are canonical.
pub open spec fn canonical_field(field: Field, input: Seq<char>, cursor: nat) -> bool
    decreases field, 0nat,
{
    match field.spec {
        FieldSpec::Fixed { width, pad_char } => {
            &&& cursor + width <= input.len()
            &&& canonical_value(
                field.ty,
                input.subrange(cursor as int, (cursor + width) as int),
                pad_char,
            )
        },
        FieldSpec::Static { text } => {
            &&& cursor + text@.len() <= input.len()
            &&& input.subrange(cursor as int, (cursor + text@.len()) as int) == text@
        },
        FieldSpec::Ignored => true,
        FieldSpec::Repeated { element_width, pad_char, stop } => canonical_items(
            field.ty,
            field.name@,
            element_width,
            pad_char,
            stop,
            input,
            cursor,
        ),
    }
}

/// `ahead` holds an element of a group as the encoder writes it into the
/// length of `ahead`, padded with `pad`: what is read from `ahead` is
/// written back to `ahead`.
pub open spec fn canonical_element(ty: FieldType, field: Seq<char>, ahead: Seq<char>, pad: char) -> bool {
    decoded_value(ty, field, ahead) matches Ok(v) ==> (value_text(ty, field, v) matches Ok(
        written,
    ) && fitted(field, written, ahead.len(), pad) == Ok::<Seq<char>, ErrorView>(ahead))
}

/// The elements of a repeated group are canonical in `input`, with the
/// cursor at `cursor`: an element of a given width is whole, not cut short
/// by the end of the input, and canonical in its width; an element without
/// a given width is written as the encoder writes it.
pub open spec fn canonical_items(
    ty: FieldType,
    field: Seq<char>,
    element_width: Option<usize>,
    pad: char,
    stop: StopPredicate,
    input: Seq<char>,
    cursor: nat,
) -> bool
    decreases ty, remaining(input, cursor) + 1,
{
    let ahead = lookahead(input, cursor, element_width);
    if stop.ends_group(ahead) {
        true
    } else {
        match element_width {
            Some(width) => {
                &&& cursor + width <= input.len()
                &&& canonical_element(ty, field, ahead, pad)
                &&& canonical_items(
                    ty,
                    field,
                    element_width,
                    pad,
                    stop,
                    input,
                    cursor + width as nat,
                )
            },
            None => {
                &&& canonical_prefix(ty, ahead)
                &&& match decoded_value(ty, field, ahead) {
                    Ok(v) => match element_step(ty, field, element_width, v) {
                        Ok(step) => step > 0 ==> canonical_items(
                            ty,
                            field,
                            element_width,
                            pad,
                            stop,
                            input,
                            cursor + step,
                        ),
                        Err(_) => true,
                    },
                    Err(_) => true,
                }
            },
        }
    }
}

/// The whole of `input` is canonical for a record with the fields `fields`.
pub open spec fn canonical(fields: Seq<Field>, input: Seq<char>) -> bool {
    canonical_fields(fields, input, 0, 0)
}

/// The name that is found is the text that was looked for.
proof fn lemma_name_index(names: Seq<String>, text: Seq<char>, i: int)
    requires
        0 <= i,
    ensures
        name_index(names, text, i) matches Some(k) ==> i <= k < names.len() && names[k]@ == text,
    decreases names.len() - i,
{
    if i < names.len() && names[i]@ != text {
        lemma_name_index(names, text, i + 1);
    }
}

/// Decoding gives one value for each field.
pub proof fn one_value_for_each_field(fields: Seq<Field>, input: Seq<char>, i: int, cursor: nat)
    requires
        0 <= i <= fields.len(),
        decoded_fields(fields, input, i, cursor) is Ok,
    ensures
        decoded_fields(fields, input, i, cursor) matches Ok((values, _)) && values.len()
            == fields.len() - i,
    decreases fields.len() - i,
{
    if i < fields.len() {
        let (v, next) = decoded_field(fields[i], input, cursor)->Ok_0;
        one_value_for_each_field(fields, input, i + 1, next);
    }
}

/// A canonical value in its width is read and written back to the same
/// text. So a record that fills its window with canonical fields is a
/// canonical element of a group.
pub proof fn canonical_value_comes_back(ty: FieldType, field: Seq<char>, text: Seq<char>, pad: char, v: ValueView)
    requires
        decoded_value(ty, field, text) == Ok::<ValueView, ErrorView>(v),
        canonical_value(ty, text, pad),
    ensures
        value_text(ty, field, v) matches Ok(written) && fitted(field, written, text.len(), pad)
            == Ok::<Seq<char>, ErrorView>(text),
    decreases ty, 0nat,
{
    match ty {
        FieldType::Scalar(scalar) => {
            let written = scalar_text(scalar, v)->0;
            if written.len() > text.len() {
                assert(padded(written, text.len(), pad).len() != text.len());
            }
        },
        FieldType::Enumeration(names) => {
            lemma_name_index(names@, text, 0);
            assert(names@.len() == names.len());
            assert(padded(text, text.len(), pad) == text);
        },
        FieldType::Record(schema) => {
            let (values, consumed) = decoded_fields(schema.fields@, text, 0, 0)->Ok_0;
            one_value_for_each_field(schema.fields@, text, 0, 0);
            assert(values.subrange(0, values.len() as int) =~= values);
            lemma_fields(schema.fields@, text, 0, 0, values, values);
            assert(text.subrange(0, consumed as int) =~= text);
            assert(padded(text, text.len(), pad) == text);
        },
    }
}

/// The beginning of a text that begins with a canonical value is what the
/// value read from the text is written back to.
proof fn lemma_prefix(ty: FieldType, field: Seq<char>, text: Seq<char>, v: ValueView)
    requires
        decoded_value(ty, field, text) == Ok::<ValueView, ErrorView>(v),
        canonical_prefix(ty, text),
    ensures
        value_text(ty, field, v) matches Ok(written) && written.len() <= text.len()
            && text.subrange(0, written.len() as int) == written,
    decreases ty, 0nat,
{
    match ty {
        FieldType::Scalar(scalar) => {},
        FieldType::Enumeration(names) => {
            lemma_name_index(names@, text, 0);
            assert(names@.len() == names.len());
            assert(text.subrange(0, text.len() as int) =~= text);
        },
        FieldType::Record(schema) => {
            let (values, consumed) = decoded_fields(schema.fields@, text, 0, 0)->Ok_0;
            one_value_for_each_field(schema.fields@, text, 0, 0);
            assert(values.subrange(0, values.len() as int) =~= values);
            lemma_fields(schema.fields@, text, 0, 0, values, values);
        },
    }
}

/// Canonical fields are read and written back to the part of the input
/// that they were read from; the cursor does not pass the end of the input.
/// `all` holds the values of all fields of the record, `values` those of
/// the fields from the `i`-th on.
proof fn lemma_fields(
    fields: Seq<Field>,
    input: Seq<char>,
    i: int,
    cursor: nat,
    values: Seq<ValueView>,
    all: Seq<ValueView>,
)
    requires
        0 <= i <= fields.len(),
        cursor <= input.len(),
        decoded_fields(fields, input, i, cursor) matches Ok((read, _)) && read == values,
        canonical_fields(fields, input, i, cursor),
        all.len() == fields.len(),
        all.subrange(i, all.len() as int) == values,
    ensures
        values.len() == fields.len() - i,
        decoded_fields(fields, input, i, cursor) matches Ok((_, end)) && cursor <= end
            <= input.len() && fields_text(fields, all, i) == Ok::<Seq<char>, ErrorView>(
            input.subrange(cursor as int, end as int),
        ),
    decreases fields, fields.len() - i,
{
    if i >= fields.len() {
        assert(input.subrange(cursor as int, cursor as int) =~= Seq::<char>::empty());
    } else {
        let (v, next) = decoded_field(fields[i], input, cursor)->Ok_0;
        let (rest, end) = decoded_fields(fields, input, i + 1, next)->Ok_0;
        assert(values == seq![v] + rest);
        assert(all[i] == values[0]);
        assert(all.subrange(i + 1, all.len() as int) =~= rest) by {
            assert(all.subrange(i + 1, all.len() as int) =~= values.subrange(
                1,
                values.len() as int,
            ));
        }
        lemma_field(fields[i], input, cursor, v);
        lemma_fields(fields, input, i + 1, next, rest, all);
        assert(input.subrange(cursor as int, next as int) + input.subrange(
            next as int,
            end as int,
        ) =~= input.subrange(cursor as int, end as int));
    }
}

/// A canonical field is read and written back to the part of the input
/// that it was read from; the cursor does not pass the end of the input.
proof fn lemma_field(field: Field, input: Seq<char>, cursor: nat, v: ValueView)
    requires
        cursor <= input.len(),
        decoded_field(field, input, cursor) matches Ok((read, _)) && read == v,
        canonical_field(field, input, cursor),
    ensures
        decoded_field(field, input, cursor) matches Ok((_, next)) && cursor <= next
            <= input.len() && field_text(field, v) == Ok::<Seq<char>, ErrorView>(
            input.subrange(cursor as int, next as int),
        ),
    decreases field, 0nat,
{
    match field.spec {
        FieldSpec::Fixed { width, pad_char } => {
            let text = input.subrange(cursor as int, (cursor + width) as int);
            assert(decoded_value(field.ty, field.name@, text) == Ok::<ValueView, ErrorView>(v));
            canonical_value_comes_back(field.ty, field.name@, text, pad_char, v);
        },
        FieldSpec::Static { text } => {},
        FieldSpec::Ignored => {
            assert(input.subrange(cursor as int, cursor as int) =~= Seq::<char>::empty());
        },
        FieldSpec::Repeated { element_width, pad_char, stop } => {
            let (items, end) = decoded_items(
                field.ty,
                field.name@,
                element_width,
                stop,
                input,
                cursor,
            )->Ok_0;
            assert(items.subrange(0, items.len() as int) =~= items);
            lemma_items(
                field.ty,
                field.name@,
                element_width,
                pad_char,
                stop,
                input,
                cursor,
                items,
                items,
                0,
            );
        },
    }
}

/// Canonical elements of a group are read and written back to the part of
/// the input that they were read from; the cursor does not pass the end of
/// the input. `all` holds all elements of the group, `items` those from the
/// `j`-th on.
proof fn lemma_items(
    ty: FieldType,
    field: Seq<char>,
    element_width: Option<usize>,
    pad: char,
    stop: StopPredicate,
    input: Seq<char>,
    cursor: nat,
    items: Seq<ValueView>,
    all: Seq<ValueView>,
    j: int,
)
    requires
        0 <= j <= all.len(),
        cursor <= input.len(),
        decoded_items(ty, field, element_width, stop, input, cursor) matches Ok((read, _))
            && read == items,
        canonical_items(ty, field, element_width, pad, stop, input, cursor),
        all.subrange(j, all.len() as int) == items,
    ensures
        decoded_items(ty, field, element_width, stop, input, cursor) matches Ok((_, end))
            && cursor <= end <= input.len() && items_text(ty, field, element_width, pad, all, j)
            == Ok::<Seq<char>, ErrorView>(input.subrange(cursor as int, end as int)),
    decreases ty, remaining(input, cursor) + 1,
{
    let ahead = lookahead(input, cursor, element_width);
    if stop.ends_group(ahead) {
        assert(items.len() == 0);
        assert(j == all.len());
        assert(input.subrange(cursor as int, cursor as int) =~= Seq::<char>::empty());
    } else {
        let v = decoded_value(ty, field, ahead)->Ok_0;
        let step = element_step(ty, field, element_width, v)->Ok_0;
        let (rest, end) = decoded_items(
            ty,
            field,
            element_width,
            stop,
            input,
            cursor + step,
        )->Ok_0;
        assert(items == seq![v] + rest);
        assert(all[j] == items[0]);
        assert(all.subrange(j + 1, all.len() as int) =~= rest) by {
            assert(all.subrange(j + 1, all.len() as int) =~= items.subrange(
                1,
                items.len() as int,
            ));
        }
        match element_width {
            Some(width) => {
                assert(ahead == input.subrange(cursor as int, (cursor + width) as int));
                let written = value_text(ty, field, v)->Ok_0;
                assert(element_text(field, written, element_width, pad) == Ok::<
                    Seq<char>,
                    ErrorView,
                >(ahead));
            },
            None => {
                assert(ahead == input.subrange(cursor as int, input.len() as int));
                lemma_prefix(ty, field, ahead, v);
                let written = value_text(ty, field, v)->Ok_0;
                assert(written =~= input.subrange(cursor as int, (cursor + step) as int));
            },
        }
        lemma_items(ty, field, element_width, pad, stop, input, cursor + step, rest, all, j + 1);
        assert(input.subrange(cursor as int, (cursor + step) as int) + input.subrange(
            (cursor + step) as int,
            end as int,
        ) =~= input.subrange(cursor as int, end as int));
    }
}

/// What is written for the fields from the `i`-th on is as long as the
/// way that the cursor went over them.
proof fn lemma_length_of_fields(
    fields: Seq<Field>,
    input: Seq<char>,
    i: int,
    cursor: nat,
    all: Seq<ValueView>,
)
    requires
        0 <= i <= fields.len(),
        all.len() == fields.len(),
        decoded_fields(fields, input, i, cursor) matches Ok((values, _)) && all.subrange(
            i,
            all.len() as int,
        ) == values,
        fields_text(fields, all, i) is Ok,
    ensures
        decoded_fields(fields, input, i, cursor) matches Ok((_, end)) && fields_text(
            fields,
            all,
            i,
        ) matches Ok(written) && cursor + written.len() == end,
    decreases fields.len() - i,
{
    if i < fields.len() {
        let (v, next) = decoded_field(fields[i], input, cursor)->Ok_0;
        let (rest, end) = decoded_fields(fields, input, i + 1, next)->Ok_0;
        let values = seq![v] + rest;
        assert(all[i] == values[0]);
        assert(all.subrange(i + 1, all.len() as int) =~= rest) by {
            assert(all.subrange(i + 1, all.len() as int) =~= values.subrange(
                1,
                values.len() as int,
            ));
        }
        lemma_length_of_field(fields[i], input, cursor, v);
        lemma_length_of_fields(fields, input, i + 1, next, all);
    }
}

/// What is written for a field is as long as the way that the cursor went
/// over it.
proof fn lemma_length_of_field(field: Field, input: Seq<char>, cursor: nat, v: ValueView)
    requires
        decoded_field(field, input, cursor) matches Ok((read, _)) && read == v,
        field_text(field, v) is Ok,
    ensures
        decoded_field(field, input, cursor) matches Ok((_, next)) && field_text(
            field,
            v,
        ) matches Ok(written) && cursor + written.len() == next,
{
    match field.spec {
        FieldSpec::Repeated { element_width, pad_char, stop } => {
            let (items, end) = decoded_items(
                field.ty,
                field.name@,
                element_width,
                stop,
                input,
                cursor,
            )->Ok_0;
            assert(items.subrange(0, items.len() as int) =~= items);
            lemma_length_of_items(
                field.ty,
                field.name@,
                element_width,
                pad_char,
                stop,
                input,
                cursor,
                items,
                0,
            );
        },
        _ => {},
    }
}

/// What is written for the elements from the `j`-th on is as long as the
/// way that the cursor went over them.
proof fn lemma_length_of_items(
    ty: FieldType,
    field: Seq<char>,
    element_width: Option<usize>,
    pad: char,
    stop: StopPredicate,
    input: Seq<char>,
    cursor: nat,
    all: Seq<ValueView>,
    j: int,
)
    requires
        0 <= j <= all.len(),
        decoded_items(ty, field, element_width, stop, input, cursor) matches Ok((items, _))
            && all.subrange(j, all.len() as int) == items,
        items_text(ty, field, element_width, pad, all, j) is Ok,
    ensures
        decoded_items(ty, field, element_width, stop, input, cursor) matches Ok((_, end))
            && items_text(ty, field, element_width, pad, all, j) matches Ok(written) && cursor
            + written.len() == end,
    decreases remaining(input, cursor),
{
    let ahead = lookahead(input, cursor, element_width);
    if stop.ends_group(ahead) {
        assert(j == all.len());
    } else {
        let v = decoded_value(ty, field, ahead)->Ok_0;
        let step = element_step(ty, field, element_width, v)->Ok_0;
        let (rest, end) = decoded_items(
            ty,
            field,
            element_width,
            stop,
            input,
            cursor + step,
        )->Ok_0;
        let items = seq![v] + rest;
        assert(all[j] == items[0]);
        assert(all.subrange(j + 1, all.len() as int) =~= rest) by {
            assert(all.subrange(j + 1, all.len() as int) =~= items.subrange(
                1,
                items.len() as int,
            ));
        }
        lemma_length_of_items(ty, field, element_width, pad, stop, input, cursor + step, all, j + 1);
    }
}

/// The two parts of a text that is made of two parts are found in it.
proof fn lemma_split(head: Seq<char>, tail: Seq<char>, input: Seq<char>, from: int, to: int)
    requires
        0 <= from <= from + head.len() <= to <= input.len(),
        head + tail == input.subrange(from, to),
    ensures
        head == input.subrange(from, from + head.len()),
        tail == input.subrange(from + head.len(), to),
{
    let whole = head + tail;
    assert(head =~= whole.subrange(0, head.len() as int));
    assert(tail =~= whole.subrange(head.len() as int, whole.len() as int));
    assert(head =~= input.subrange(from, from + head.len()));
    assert(tail =~= input.subrange(from + head.len(), to));
}

/// Fields that are written back to the part of the input that they were
/// read from are canonical.
proof fn lemma_fields_back(
    fields: Seq<Field>,
    input: Seq<char>,
    i: int,
    cursor: nat,
    all: Seq<ValueView>,
)
    requires
        0 <= i <= fields.len(),
        all.len() == fields.len(),
        decoded_fields(fields, input, i, cursor) matches Ok((values, end)) && all.subrange(
            i,
            all.len() as int,
        ) == values && end <= input.len() && fields_text(fields, all, i) == Ok::<
            Seq<char>,
            ErrorView,
        >(input.subrange(cursor as int, end as int)),
    ensures
        canonical_fields(fields, input, i, cursor),
    decreases fields, fields.len() - i,
{
    if i < fields.len() {
        let (v, next) = decoded_field(fields[i], input, cursor)->Ok_0;
        let (rest, end) = decoded_fields(fields, input, i + 1, next)->Ok_0;
        let values = seq![v] + rest;
        assert(all[i] == values[0]);
        assert(all.subrange(i + 1, all.len() as int) =~= rest) by {
            assert(all.subrange(i + 1, all.len() as int) =~= values.subrange(
                1,
                values.len() as int,
            ));
        }
        let head = field_text(fields[i], v)->Ok_0;
        let tail = fields_text(fields, all, i + 1)->Ok_0;
        lemma_length_of_field(fields[i], input, cursor, v);
        cursor_never_goes_back_in_record(fields, input, i + 1, next);
        lemma_split(head, tail, input, cursor as int, end as int);
        lemma_field_back(fields[i], input, cursor, v);
        lemma_fields_back(fields, input, i + 1, next, all);
    }
}

/// A field that is written back to the part of the input that it was read
/// from is canonical.
proof fn lemma_field_back(field: Field, input: Seq<char>, cursor: nat, v: ValueView)
    requires
        decoded_field(field, input, cursor) matches Ok((read, next)) && read == v && next
            <= input.len() && field_text(field, v) == Ok::<Seq<char>, ErrorView>(
            input.subrange(cursor as int, next as int),
        ),
    ensures
        canonical_field(field, input, cursor),
    decreases field, 0nat,
{
    match field.spec {
        FieldSpec::Fixed { width, pad_char } => {
            let text = input.subrange(cursor as int, (cursor + width) as int);
            match field.ty {
                FieldType::Record(schema) => {
                    let (values, consumed) = decoded_fields(schema.fields@, text, 0, 0)->Ok_0;
                    let written = value_text(field.ty, field.name@, v)->Ok_0;
                    one_value_for_each_field(schema.fields@, text, 0, 0);
                    assert(values.subrange(0, values.len() as int) =~= values);
                    lemma_length_of_fields(schema.fields@, text, 0, 0, values);
                    assert(written.len() == width);
                    assert(padded(written, width as nat, pad_char) == written);
                    assert(text.subrange(0, consumed as int) =~= text);
                    lemma_fields_back(schema.fields@, text, 0, 0, values);
                },
                _ => {},
            }
        },
        FieldSpec::Static { text } => {},
        FieldSpec::Ignored => {},
        FieldSpec::Repeated { element_width, pad_char, stop } => {
            let (items, end) = decoded_items(
                field.ty,
                field.name@,
                element_width,
                stop,
                input,
                cursor,
            )->Ok_0;
            assert(items.subrange(0, items.len() as int) =~= items);
            lemma_items_back(
                field.ty,
                field.name@,
                element_width,
                pad_char,
                stop,
                input,
                cursor,
                items,
                0,
            );
        },
    }
}

/// An element that is written back to the part of the input that it was
/// read from is canonical.
proof fn lemma_element_back(
    ty: FieldType,
    field: Seq<char>,
    element_width: Option<usize>,
    pad: char,
    input: Seq<char>,
    cursor: nat,
    v: ValueView,
    step: nat,
)
    requires
        step > 0,
        cursor + step <= input.len(),
        decoded_value(ty, field, lookahead(input, cursor, element_width)) == Ok::<
            ValueView,
            ErrorView,
        >(v),
        element_step(ty, field, element_width, v) == Ok::<nat, ErrorView>(step),
        value_text(ty, field, v) matches Ok(written) && element_text(
            field,
            written,
            element_width,
            pad,
        ) == Ok::<Seq<char>, ErrorView>(input.subrange(cursor as int, (cursor + step) as int)),
    ensures
        match element_width {
            Some(width) => cursor + width <= input.len() && canonical_element(
                ty,
                field,
                lookahead(input, cursor, element_width),
                pad,
            ),
            None => canonical_prefix(ty, lookahead(input, cursor, element_width)),
        },
    decreases ty, 0nat,
{
    let ahead = lookahead(input, cursor, element_width);
    let written = value_text(ty, field, v)->Ok_0;
    match element_width {
        Some(width) => {
            assert(ahead == input.subrange(cursor as int, (cursor + width) as int));
        },
        None => {
            assert(ahead == input.subrange(cursor as int, input.len() as int));
            assert(ahead.subrange(0, step as int) =~= input.subrange(
                cursor as int,
                (cursor + step) as int,
            ));
            match ty {
                FieldType::Record(schema) => {
                    let (values, consumed) = decoded_fields(schema.fields@, ahead, 0, 0)->Ok_0;
                    one_value_for_each_field(schema.fields@, ahead, 0, 0);
                    assert(values.subrange(0, values.len() as int) =~= values);
                    lemma_length_of_fields(schema.fields@, ahead, 0, 0, values);
                    lemma_fields_back(schema.fields@, ahead, 0, 0, values);
                },
                _ => {},
            }
        },
    }
}

/// Elements that are written back to the part of the input that they were
/// read from are canonical.
proof fn lemma_items_back(
    ty: FieldType,
    field: Seq<char>,
    element_width: Option<usize>,
    pad: char,
    stop: StopPredicate,
    input: Seq<char>,
    cursor: nat,
    all: Seq<ValueView>,
    j: int,
)
    requires
        0 <= j <= all.len(),
        decoded_items(ty, field, element_width, stop, input, cursor) matches Ok((items, end))
            && all.subrange(j, all.len() as int) == items && end <= input.len() && items_text(
            ty,
            field,
            element_width,
            pad,
            all,
            j,
        ) == Ok::<Seq<char>, ErrorView>(input.subrange(cursor as int, end as int)),
    ensures
        canonical_items(ty, field, element_width, pad, stop, input, cursor),
    decreases ty, remaining(input, cursor) + 1,
{
    let ahead = lookahead(input, cursor, element_width);
    if !stop.ends_group(ahead) {
        let v = decoded_value(ty, field, ahead)->Ok_0;
        let step = element_step(ty, field, element_width, v)->Ok_0;
        let (rest, end) = decoded_items(
            ty,
            field,
            element_width,
            stop,
            input,
            cursor + step,
        )->Ok_0;
        let items = seq![v] + rest;
        assert(decoded_items(ty, field, element_width, stop, input, cursor) == Ok::<
            (Seq<ValueView>, nat),
            ErrorView,
        >((items, end)));
        assert(all[j] == v && all.subrange(j + 1, all.len() as int) == rest) by {
            let tail_values = all.subrange(j, all.len() as int);
            assert(tail_values.len() == items.len());
            assert(all[j] == tail_values[0]);
            assert(all.subrange(j + 1, all.len() as int) =~= tail_values.subrange(
                1,
                tail_values.len() as int,
            ));
            assert(items.subrange(1, items.len() as int) =~= rest);
        }
        let written = value_text(ty, field, v)->Ok_0;
        let head = element_text(field, written, element_width, pad)->Ok_0;
        let tail = items_text(ty, field, element_width, pad, all, j + 1)->Ok_0;
        assert(head.len() == step);
        cursor_never_goes_back_in_group(ty, field, element_width, stop, input, cursor + step);
        lemma_split(head, tail, input, cursor as int, end as int);
        lemma_element_back(ty, field, element_width, pad, input, cursor, v, step);
        lemma_items_back(ty, field, element_width, pad, stop, input, cursor + step, all, j + 1);
    }
}

/// The round trip. If `input` decodes by the fields `fields` to the record
/// `values`, is used up by it and is canonical, then the record encodes to
/// `input`, character for character.
pub proof fn round_trip(fields: Seq<Field>, input: Seq<char>, values: Seq<ValueView>)
    requires
        decoded(fields, input) == Ok::<(Seq<ValueView>, nat), ErrorView>((values, input.len())),
        canonical(fields, input),
    ensures
        record_text(fields, values) == Ok::<Seq<char>, ErrorView>(input),
{
    one_value_for_each_field(fields, input, 0, 0);
    assert(values.subrange(0, values.len() as int) =~= values);
    lemma_fields(fields, input, 0, 0, values, values);
    assert(input.subrange(0, input.len() as int) =~= input);
}

/// A canonical beginning. If the beginning of `input` decodes by the fields
/// `fields` to the record `values` and is canonical, then no more was read
/// than there is, and the record encodes to what was read.
pub proof fn round_trip_prefix(
    fields: Seq<Field>,
    input: Seq<char>,
    values: Seq<ValueView>,
    end: nat,
)
    requires
        decoded(fields, input) == Ok::<(Seq<ValueView>, nat), ErrorView>((values, end)),
        canonical(fields, input),
    ensures
        end <= input.len(),
        record_text(fields, values) == Ok::<Seq<char>, ErrorView>(input.subrange(0, end as int)),
{
    one_value_for_each_field(fields, input, 0, 0);
    assert(values.subrange(0, values.len() as int) =~= values);
    lemma_fields(fields, input, 0, 0, values, values);
}

/// The round trip, exactly. A text that decodes comes back from encoding
/// the record if and only if decoding used it up and it is canonical.
pub proof fn round_trip_exactly(
    fields: Seq<Field>,
    input: Seq<char>,
    values: Seq<ValueView>,
    end: nat,
)
    requires
        decoded(fields, input) == Ok::<(Seq<ValueView>, nat), ErrorView>((values, end)),
    ensures
        record_text(fields, values) == Ok::<Seq<char>, ErrorView>(input) <==> end == input.len()
            && canonical(fields, input),
{
    one_value_for_each_field(fields, input, 0, 0);
    assert(values.subrange(0, values.len() as int) =~= values);
    if end == input.len() && canonical(fields, input) {
        round_trip(fields, input, values);
    }
    if record_text(fields, values) == Ok::<Seq<char>, ErrorView>(input) {
        lemma_length_of_fields(fields, input, 0, 0, values);
        assert(input.subrange(0, end as int) =~= input);
        lemma_fields_back(fields, input, 0, 0, values);
    }
}

/// Every text is canonical as a text, whatever the pad character.
pub proof fn text_is_canonical(text: Seq<char>, pad: char)
    ensures
        canonical_scalar(ScalarType::Text, text, pad),
        canonical_scalar_prefix(ScalarType::Text, text),
{
    assert(text.subrange(0, text.len() as int) =~= text);
}

/// Every single character is canonical as a character.
pub proof fn character_is_canonical(text: Seq<char>, pad: char)
    requires
        text.len() == 1,
    ensures
        canonical_scalar(ScalarType::Char, text, pad),
        canonical_scalar_prefix(ScalarType::Char, text),
{
    assert(seq![text[0]] =~= text);
    assert(text.subrange(0, 1) =~= text);
}

/// `true` and `false` are canonical as booleans.
pub proof fn boolean_is_canonical(text: Seq<char>, pad: char)
    requires
        text == true_text() || text == false_text(),
    ensures
        canonical_scalar(ScalarType::Bool, text, pad),
        canonical_scalar_prefix(ScalarType::Bool, text),
{
    assert(text.subrange(0, text.len() as int) =~= text);
    assert(true_text() != false_text()) by {
        assert(true_text().len() != false_text().len());
    }
}

/// A run of digits that stands for a number of the unsigned type `ty` is
/// canonical in a field that pads with zeros.
pub proof fn digits_are_canonical(ty: ScalarType, text: Seq<char>)
    requires
        ty.is_unsigned(),
        text.len() >= 1,
        all_digits(text),
        decimal(text) <= ty.max_value(),
    ensures
        canonical_scalar(ty, text, '0'),
{
    zero_padded_digits_come_back(text);
    assert(text[0] != '+');
    assert(parse_unsigned(text, ty.max_value()) == Ok::<int, IntErrorKind>(
        decimal(text) as int,
    ));
}

} // verus!
