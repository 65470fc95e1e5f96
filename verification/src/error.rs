//! The failures of decoding and encoding, and their mathematical model.

use vstd::prelude::*;
use crate::number::{digits_of, write_unsigned, IntErrorKind};

verus! {

/// Why a text is not a single character.
#[derive(Clone, Copy, Debug, PartialEq, Eq, Structural)]
pub enum CharErrorKind {
    /// The text is empty.
    EmptyString,
    /// The text holds more than one character.
    TooManyChars,
}

/// Why a text is not a valid representation of a scalar.
#[derive(Clone, Copy, Debug, PartialEq, Eq, Structural)]
pub enum ParseFailure {
    /// It is not a decimal integer of the wanted type.
    Int(IntErrorKind),
    /// It is not a single character.
    Char(CharErrorKind),
    /// It is neither `true` nor `false`.
    Bool,
    /// It is none of the names of the enumeration.
    Name,
}

/// Why an input could not be decoded.
#[derive(Clone, Debug, PartialEq, Eq)]
pub enum UnpackReason {
    /// Fewer than `width` characters were left for the field: `available`.
    OutOfBounds { field: String, width: usize, available: usize },
    /// `text` is not a valid representation of the scalar that the field
    /// `field` holds. The name is empty where a scalar was read on its own.
    Malformed { field: String, text: String, cause: ParseFailure },
    /// A nested record read `consumed` characters of the `width` that its
    /// field gives it.
    NestedWidth { field: String, width: usize, consumed: usize },
    /// An element of a group without an element width took up no text, so
    /// the group would never end.
    EmptyElement { field: String },
}

/// Why a value could not be encoded.
#[derive(Clone, Debug, PartialEq, Eq)]
pub enum PackReason {
    /// The text of the value, `actual` characters of it, is longer than the
    /// `expected` width of the field.
    FieldTooLarge { field: String, text: String, actual: usize, expected: usize },
    /// The value is not of the kind that the field's type asks for.
    Mismatch { field: String },
    /// A record holds `actual` values where its schema has `expected`
    /// fields.
    Arity { expected: usize, actual: usize },
}

/// Every failure of decoding and encoding.
#[derive(Clone, Debug, PartialEq, Eq)]
pub enum AsciiPackError {
    /// A failure of which no more is known than a message.
    Unknown(String),
    /// The input could not be decoded.
    Unpack(UnpackReason),
    /// The value could not be encoded.
    Pack(PackReason),
    /// A text is not a decimal integer.
    ParseIntError(IntErrorKind),
    /// A text is not a single character.
    ParseCharError(CharErrorKind),
    /// A text is not a boolean.
    ParseBoolError,
    /// A failure of a scalar type that this library does not know.
    Other(String),
}

/// The mathematical model of an [`UnpackReason`].
pub enum UnpackReasonView {
    OutOfBounds { field: Seq<char>, width: nat, available: nat },
    Malformed { field: Seq<char>, text: Seq<char>, cause: ParseFailure },
    NestedWidth { field: Seq<char>, width: nat, consumed: nat },
    EmptyElement { field: Seq<char> },
}

/// The mathematical model of a [`PackReason`].
pub enum PackReasonView {
    FieldTooLarge { field: Seq<char>, text: Seq<char>, actual: nat, expected: nat },
    Mismatch { field: Seq<char> },
    Arity { expected: nat, actual: nat },
}

/// The mathematical model of an [`AsciiPackError`].
pub enum ErrorView {
    Unknown(Seq<char>),
    Unpack(UnpackReasonView),
    Pack(PackReasonView),
    ParseIntError(IntErrorKind),
    ParseCharError(CharErrorKind),
    ParseBoolError,
    Other(Seq<char>),
}

impl View for UnpackReason {
    type V = UnpackReasonView;

    open spec fn view(&self) -> UnpackReasonView {
        match self {
            UnpackReason::OutOfBounds { field, width, available } => UnpackReasonView::OutOfBounds {
                field: field@,
                width: *width as nat,
                available: *available as nat,
            },
            UnpackReason::Malformed { field, text, cause } => UnpackReasonView::Malformed {
                field: field@,
                text: text@,
                cause: *cause,
            },
            UnpackReason::NestedWidth { field, width, consumed } => UnpackReasonView::NestedWidth {
                field: field@,
                width: *width as nat,
                consumed: *consumed as nat,
            },
            UnpackReason::EmptyElement { field } => UnpackReasonView::EmptyElement {
                field: field@,
            },
        }
    }
}

impl View for PackReason {
    type V = PackReasonView;

    open spec fn view(&self) -> PackReasonView {
        match self {
            PackReason::FieldTooLarge { field, text, actual, expected } => {
                PackReasonView::FieldTooLarge {
                    field: field@,
                    text: text@,
                    actual: *actual as nat,
                    expected: *expected as nat,
                }
            },
            PackReason::Mismatch { field } => PackReasonView::Mismatch { field: field@ },
            PackReason::Arity { expected, actual } => PackReasonView::Arity {
                expected: *expected as nat,
                actual: *actual as nat,
            },
        }
    }
}

impl View for AsciiPackError {
    type V = ErrorView;

    open spec fn view(&self) -> ErrorView {
        match self {
            AsciiPackError::Unknown(message) => ErrorView::Unknown(message@),
            AsciiPackError::Unpack(reason) => ErrorView::Unpack(reason@),
            AsciiPackError::Pack(reason) => ErrorView::Pack(reason@),
            AsciiPackError::ParseIntError(kind) => ErrorView::ParseIntError(*kind),
            AsciiPackError::ParseCharError(kind) => ErrorView::ParseCharError(*kind),
            AsciiPackError::ParseBoolError => ErrorView::ParseBoolError,
            AsciiPackError::Other(message) => ErrorView::Other(message@),
        }
    }
}

impl From<IntErrorKind> for AsciiPackError {
    /// Wraps the failure of an integer that was read on its own.
    fn from(kind: IntErrorKind) -> (e: AsciiPackError) {
        AsciiPackError::ParseIntError(kind)
    }
}

impl vstd::std_specs::convert::FromSpecImpl<IntErrorKind> for AsciiPackError {
    open spec fn obeys_from_spec() -> bool {
        true
    }

    open spec fn from_spec(kind: IntErrorKind) -> AsciiPackError {
        AsciiPackError::ParseIntError(kind)
    }
}

impl From<CharErrorKind> for AsciiPackError {
    /// Wraps the failure of a character that was read on its own.
    fn from(kind: CharErrorKind) -> (e: AsciiPackError) {
        AsciiPackError::ParseCharError(kind)
    }
}

impl vstd::std_specs::convert::FromSpecImpl<CharErrorKind> for AsciiPackError {
    open spec fn obeys_from_spec() -> bool {
        true
    }

    open spec fn from_spec(kind: CharErrorKind) -> AsciiPackError {
        AsciiPackError::ParseCharError(kind)
    }
}

/// The words for the cause of a malformed scalar.
pub open spec fn cause_text(cause: ParseFailure) -> Seq<char> {
    match cause {
        ParseFailure::Int(IntErrorKind::Empty) => "cannot parse integer from empty string"@,
        ParseFailure::Int(IntErrorKind::InvalidDigit) => "invalid digit found in string"@,
        ParseFailure::Int(IntErrorKind::PosOverflow) => "number too large to fit in target type"@,
        ParseFailure::Int(IntErrorKind::NegOverflow) => "number too small to fit in target type"@,
        ParseFailure::Char(CharErrorKind::EmptyString) => "cannot parse char from empty string"@,
        ParseFailure::Char(CharErrorKind::TooManyChars) => "too many characters in string"@,
        ParseFailure::Bool => "provided string was not `true` or `false`"@,
        ParseFailure::Name => "Matching variant not found"@,
    }
}

/// The words that name the field of a failure, where it has a name.
pub open spec fn place_text(field: Seq<char>) -> Seq<char> {
    if field.len() == 0 {
        Seq::empty()
    } else {
        " in "@ + field
    }
}

/// The words for a failure of decoding.
pub open spec fn unpack_text(reason: UnpackReasonView) -> Seq<char> {
    match reason {
        UnpackReasonView::OutOfBounds { field, width, available } => "Field "@ + field
            + " needs "@ + digits_of(width) + " characters, left: "@ + digits_of(available),
        UnpackReasonView::Malformed { field, text, cause } => "Error unpacking '"@ + text
            + "'"@ + place_text(field) + " : "@ + cause_text(cause),
        UnpackReasonView::NestedWidth { field, width, consumed } => "Record in "@ + field
            + " has width "@ + digits_of(width) + ", read: "@ + digits_of(consumed),
        UnpackReasonView::EmptyElement { field } => "Item in "@ + field + " takes up no text"@,
    }
}

/// The words for a failure of encoding.
pub open spec fn pack_text(reason: PackReasonView) -> Seq<char> {
    match reason {
        PackReasonView::FieldTooLarge { field, text, actual, expected } => "Size of item in "@
            + field + " was too large - item: "@ + text + ", expected size: "@ + digits_of(
            expected,
        ),
        PackReasonView::Mismatch { field } => "Value of "@ + field + " is not of its type"@,
        PackReasonView::Arity { expected, actual } => "Record has "@ + digits_of(actual)
            + " values, expected: "@ + digits_of(expected),
    }
}

/// The words for a failure.
pub open spec fn message_text(e: ErrorView) -> Seq<char> {
    match e {
        ErrorView::Unknown(message) => "unknown error: "@ + message,
        ErrorView::Unpack(reason) => "Unpacking error: "@ + unpack_text(reason),
        ErrorView::Pack(reason) => "Packing error: "@ + pack_text(reason),
        ErrorView::ParseIntError(_) => "parse int failed"@,
        ErrorView::ParseCharError(_) => "parse char failed"@,
        ErrorView::ParseBoolError => "parse bool failed"@,
        ErrorView::Other(message) => message,
    }
}

/// The words for the cause of a malformed scalar.
fn cause_message(cause: ParseFailure) -> (words: &'static str)
    ensures
        words@ == cause_text(cause),
{
    match cause {
        ParseFailure::Int(IntErrorKind::Empty) => "cannot parse integer from empty string",
        ParseFailure::Int(IntErrorKind::InvalidDigit) => "invalid digit found in string",
        ParseFailure::Int(IntErrorKind::PosOverflow) => "number too large to fit in target type",
        ParseFailure::Int(IntErrorKind::NegOverflow) => "number too small to fit in target type",
        ParseFailure::Char(CharErrorKind::EmptyString) => "cannot parse char from empty string",
        ParseFailure::Char(CharErrorKind::TooManyChars) => "too many characters in string",
        ParseFailure::Bool => "provided string was not `true` or `false`",
        ParseFailure::Name => "Matching variant not found",
    }
}

impl UnpackReason {
    /// Appends the words for this failure to `out`.
    fn describe(&self, out: &mut String)
        ensures
            final(out)@ == old(out)@ + unpack_text(self@),
    {
        match self {
            UnpackReason::OutOfBounds { field, width, available } => {
                out.append("Field ");
                out.append(field.as_str());
                out.append(" needs ");
                write_unsigned(out, *width as u64);
                out.append(" characters, left: ");
                write_unsigned(out, *available as u64);
            },
            UnpackReason::Malformed { field, text, cause } => {
                out.append("Error unpacking '");
                out.append(text.as_str());
                out.append("'");
                if !field.as_str().is_empty() {
                    out.append(" in ");
                    out.append(field.as_str());
                }
                out.append(" : ");
                out.append(cause_message(*cause));
            },
            UnpackReason::NestedWidth { field, width, consumed } => {
                out.append("Record in ");
                out.append(field.as_str());
                out.append(" has width ");
                write_unsigned(out, *width as u64);
                out.append(", read: ");
                write_unsigned(out, *consumed as u64);
            },
            UnpackReason::EmptyElement { field } => {
                out.append("Item in ");
                out.append(field.as_str());
                out.append(" takes up no text");
            },
        }
        assert(out@ =~= old(out)@ + unpack_text(self@));
    }
}

impl PackReason {
    /// Appends the words for this failure to `out`.
    fn describe(&self, out: &mut String)
        ensures
            final(out)@ == old(out)@ + pack_text(self@),
    {
        match self {
            PackReason::FieldTooLarge { field, text, actual, expected } => {
                out.append("Size of item in ");
                out.append(field.as_str());
                out.append(" was too large - item: ");
                out.append(text.as_str());
                out.append(", expected size: ");
                write_unsigned(out, *expected as u64);
            },
            PackReason::Mismatch { field } => {
                out.append("Value of ");
                out.append(field.as_str());
                out.append(" is not of its type");
            },
            PackReason::Arity { expected, actual } => {
                out.append("Record has ");
                write_unsigned(out, *actual as u64);
                out.append(" values, expected: ");
                write_unsigned(out, *expected as u64);
            },
        }
        assert(out@ =~= old(out)@ + pack_text(self@));
    }
}

impl AsciiPackError {
    /// The failure in words.
    pub fn message(&self) -> (words: String)
        ensures
            words@ == message_text(self@),
    {
        let mut out = String::new();
        match self {
            AsciiPackError::Unknown(message) => {
                out.append("unknown error: ");
                out.append(message.as_str());
            },
            AsciiPackError::Unpack(reason) => {
                out.append("Unpacking error: ");
                reason.describe(&mut out);
            },
            AsciiPackError::Pack(reason) => {
                out.append("Packing error: ");
                reason.describe(&mut out);
            },
            AsciiPackError::ParseIntError(_) => {
                out.append("parse int failed");
            },
            AsciiPackError::ParseCharError(_) => {
                out.append("parse char failed");
            },
            AsciiPackError::ParseBoolError => {
                out.append("parse bool failed");
            },
            AsciiPackError::Other(message) => {
                out.append(message.as_str());
            },
        }
        assert(out@ =~= message_text(self@));
        out
    }
}

} // verus!
