//! What holds of the codec whatever the schema, the input and the record.

use vstd::prelude::*;
use crate::decode::{decoded_field, decoded_fields, decoded_items, decoded_value, default_of,
    element_step, lookahead, remaining};
use crate::encode::{field_text, fitted, items_text, too_large, value_text};
use crate::error::{ErrorView, ParseFailure};
use crate::number::{digits_of, digits_read_back};
use crate::scalar::{false_text, scalar_text, scalar_value, true_text};
use crate::schema::{Field, FieldSpec, FieldType, ScalarType};
use crate::until::StopPredicate;
use crate::text::repeat_char;
use crate::value::ValueView;

verus! {

/// The width of a fixed field is enforced. Where the value's own text is
/// longer than the width, encoding fails and names the field, the text, its
/// length and the width. Where it is as long, it is written as it is. Where
/// it is shorter, it is written behind as many pad characters as are
/// missing. What is written is always as long as the width.
pub proof fn fixed_width_is_enforced(field: Field, v: ValueView, written: Seq<char>)
    requires
        field.spec is Fixed,
        value_text(field.ty, field.name@, v) == Ok::<Seq<char>, ErrorView>(written),
    ensures
        ({
            let width = field.spec->width as nat;
            let pad = field.spec->Fixed_pad_char;
            &&& written.len() > width ==> field_text(field, v) == Err::<Seq<char>, ErrorView>(
                too_large(field.name@, written, width),
            )
            &&& written.len() == width ==> field_text(field, v) == Ok::<Seq<char>, ErrorView>(
                written,
            )
            &&& written.len() < width ==> field_text(field, v) == Ok::<Seq<char>, ErrorView>(
                repeat_char(pad, (width - written.len()) as nat) + written,
            )
            &&& field_text(field, v) matches Ok(text) ==> text.len() == width
        }),
{
}

/// A literal is skipped, not compared. Decoding a literal field moves the
/// cursor by the length of the literal and gives the placeholder, whatever
/// the input holds at the cursor and however long it is; the one condition
/// is that the cursor stays within what a machine word holds.
pub proof fn literal_is_skipped(field: Field, input: Seq<char>, cursor: nat)
    requires
        field.spec is Static,
        cursor + field.spec->text@.len() <= usize::MAX,
    ensures
        decoded_field(field, input, cursor) == Ok::<(ValueView, nat), ErrorView>(
            (ValueView::Static, cursor + field.spec->text@.len()),
        ),
{
}

/// A literal is written as it stands in the schema, whatever the value.
pub proof fn literal_is_written(field: Field, v: ValueView)
    requires
        field.spec is Static,
    ensures
        field_text(field, v) == Ok::<Seq<char>, ErrorView>(field.spec->text@),
{
}

/// An ignored field is its type's default after decoding, whatever the
/// input, and leaves the cursor where it is; encoding writes nothing for
/// it, whatever its value.
pub proof fn ignored_field_is_default(field: Field, input: Seq<char>, cursor: nat, v: ValueView)
    requires
        field.spec is Ignored,
    ensures
        decoded_field(field, input, cursor) == Ok::<(ValueView, nat), ErrorView>(
            (default_of(field.ty), cursor),
        ),
        field_text(field, v) == Ok::<Seq<char>, ErrorView>(Seq::empty()),
{
}

/// The stop predicate has no part in encoding: two repeated groups that
/// differ in nothing but their stop predicates encode every value alike.
pub proof fn stop_has_no_part_in_encoding(a: Field, b: Field, v: ValueView)
    requires
        a.spec is Repeated,
        b.spec is Repeated,
        a.name@ == b.name@,
        a.ty == b.ty,
        a.spec->element_width == b.spec->element_width,
        a.spec->Repeated_pad_char == b.spec->Repeated_pad_char,
    ensures
        field_text(a, v) == field_text(b, v),
{
}

/// Every element of a group is written: where the elements have a width,
/// the text of the elements from the `j`-th on is that width for each of
/// them.
pub proof fn every_element_is_written(
    ty: FieldType,
    field: Seq<char>,
    width: usize,
    pad: char,
    items: Seq<ValueView>,
    j: int,
)
    requires
        0 <= j <= items.len(),
        items_text(ty, field, Some(width), pad, items, j) is Ok,
    ensures
        items_text(ty, field, Some(width), pad, items, j) matches Ok(text) && text.len() == (
        items.len() - j) * width,
    decreases items.len() - j,
{
    if j < items.len() {
        let written = value_text(ty, field, items[j])->Ok_0;
        let head = fitted(field, written, width as nat, pad)->Ok_0;
        assert(head.len() == width);
        every_element_is_written(ty, field, width, pad, items, j + 1);
        assert((items.len() - j) * width == width + (items.len() - (j + 1)) * width)
            by (nonlinear_arith);
    } else {
        assert((items.len() - j) * width == 0) by (nonlinear_arith)
            requires
                items.len() - j == 0,
        ;
    }
}

/// The cursor never goes back over the elements of a group.
pub proof fn cursor_never_goes_back_in_group(
    ty: FieldType,
    field: Seq<char>,
    element_width: Option<usize>,
    stop: StopPredicate,
    input: Seq<char>,
    cursor: nat,
)
    ensures
        decoded_items(ty, field, element_width, stop, input, cursor) matches Ok((_, end))
            ==> cursor <= end,
    decreases remaining(input, cursor),
{
    let ahead = lookahead(input, cursor, element_width);
    if !stop.ends_group(ahead) {
        if let Ok(v) = decoded_value(ty, field, ahead) {
            if let Ok(step) = element_step(ty, field, element_width, v) {
                if step > 0 && cursor + step <= usize::MAX {
                    cursor_never_goes_back_in_group(
                        ty,
                        field,
                        element_width,
                        stop,
                        input,
                        cursor + step,
                    );
                }
            }
        }
    }
}

/// The cursor never goes back over a field.
pub proof fn cursor_never_goes_back(field: Field, input: Seq<char>, cursor: nat)
    ensures
        decoded_field(field, input, cursor) matches Ok((_, next)) ==> cursor <= next,
{
    if let FieldSpec::Repeated { element_width, pad_char, stop } = field.spec {
        cursor_never_goes_back_in_group(field.ty, field.name@, element_width, stop, input, cursor);
    }
}

/// The cursor never goes back over the fields of a record.
pub proof fn cursor_never_goes_back_in_record(
    fields: Seq<Field>,
    input: Seq<char>,
    i: int,
    cursor: nat,
)
    requires
        0 <= i <= fields.len(),
    ensures
        decoded_fields(fields, input, i, cursor) matches Ok((_, end)) ==> cursor <= end,
    decreases fields.len() - i,
{
    if i < fields.len() {
        cursor_never_goes_back(fields[i], input, cursor);
        if let Ok((_, next)) = decoded_field(fields[i], input, cursor) {
            cursor_never_goes_back_in_record(fields, input, i + 1, next);
        }
    }
}

/// What is written for a scalar reads back as that scalar.
pub proof fn written_scalar_reads_back(ty: ScalarType, v: ValueView)
    requires
        ty.admits(v),
    ensures
        scalar_text(ty, v) matches Some(written) && scalar_value(ty, written) == Ok::<
            ValueView,
            ParseFailure,
        >(v),
{
    match v {
        ValueView::Unsigned(n) => {
            digits_read_back(n as nat);
        },
        ValueView::Signed(n) => {
            if n < 0 {
                let digits = digits_of((-n) as nat);
                digits_read_back((-n) as nat);
                let written = seq!['-'] + digits;
                assert(written.drop_first() =~= digits);
                assert(written[0] == '-');
            } else {
                digits_read_back(n as nat);
            }
        },
        ValueView::Bool(b) => {
            assert(true_text().len() != false_text().len());
        },
        ValueView::Char(c) => {
            assert(seq![c][0] == c);
        },
        _ => {},
    }
}

} // verus!
