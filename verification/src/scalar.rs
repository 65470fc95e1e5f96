//! The scalar codec: one primitive value to and from its text.

use vstd::prelude::*;
use crate::error::{AsciiPackError, CharErrorKind, ErrorView, PackReason, PackReasonView,
    ParseFailure, UnpackReason, UnpackReasonView};
use crate::number::{integer_text, digits_of, parse_signed, parse_unsigned, read_signed,
    read_unsigned, write_signed, write_unsigned};
use crate::schema::ScalarType;
use crate::text::push_char;
use crate::until::has_prefix;
use crate::value::{Value, ValueView};

verus! {

/// A type that can be read from its text and written back to it.
///
/// The scalar types of this library implement it; a record type of a program
/// implements it by decoding and encoding with its schema.
pub trait AsciiPack: Sized {
    /// Reads a value from the whole of `input`.
    fn from_ascii(input: &str) -> Result<Self, AsciiPackError>;

    /// Writes the value as text.
    fn to_ascii(&self) -> Result<String, AsciiPackError>;
}

/// The text of `true`.
pub open spec fn true_text() -> Seq<char> {
    seq!['t', 'r', 'u', 'e']
}

/// The text of `false`.
pub open spec fn false_text() -> Seq<char> {
    seq!['f', 'a', 'l', 's', 'e']
}

impl ScalarType {
    /// The type is one of the unsigned integers.
    pub open spec fn is_unsigned(self) -> bool {
        self is U8 || self is U16 || self is U32 || self is U64 || self is Usize
    }

    /// The type is one of the signed integers.
    pub open spec fn is_signed(self) -> bool {
        self is I8 || self is I16 || self is I32 || self is I64 || self is Isize
    }

    /// The smallest value of an integer type.
    pub open spec fn min_value(self) -> int {
        match self {
            ScalarType::I8 => i8::MIN as int,
            ScalarType::I16 => i16::MIN as int,
            ScalarType::I32 => i32::MIN as int,
            ScalarType::I64 => i64::MIN as int,
            ScalarType::Isize => isize::MIN as int,
            _ => 0,
        }
    }

    /// The largest value of an integer type.
    pub open spec fn max_value(self) -> int {
        match self {
            ScalarType::U8 => u8::MAX as int,
            ScalarType::U16 => u16::MAX as int,
            ScalarType::U32 => u32::MAX as int,
            ScalarType::U64 => u64::MAX as int,
            ScalarType::Usize => usize::MAX as int,
            ScalarType::I8 => i8::MAX as int,
            ScalarType::I16 => i16::MAX as int,
            ScalarType::I32 => i32::MAX as int,
            ScalarType::I64 => i64::MAX as int,
            ScalarType::Isize => isize::MAX as int,
            _ => 0,
        }
    }

    /// `v` is a value of this type.
    pub open spec fn admits(self, v: ValueView) -> bool {
        match v {
            ValueView::Unsigned(n) => self.is_unsigned() && n <= self.max_value(),
            ValueView::Signed(n) => self.is_signed() && self.min_value() <= n <= self.max_value(),
            ValueView::Bool(_) => self is Bool,
            ValueView::Char(_) => self is Char,
            ValueView::Text(_) => self is Text,
            _ => false,
        }
    }

    /// The default value of this type: zero, `false`, the NUL character or
    /// the empty text.
    pub open spec fn default_value(self) -> ValueView {
        if self.is_unsigned() {
            ValueView::Unsigned(0)
        } else if self.is_signed() {
            ValueView::Signed(0)
        } else if self is Bool {
            ValueView::Bool(false)
        } else if self is Char {
            ValueView::Char(0 as char)
        } else {
            ValueView::Text(Seq::empty())
        }
    }
}

/// The value that `text` stands for as a scalar of type `ty`, or why it
/// stands for none.
pub open spec fn scalar_value(ty: ScalarType, text: Seq<char>) -> Result<ValueView, ParseFailure> {
    if ty.is_unsigned() {
        match parse_unsigned(text, ty.max_value()) {
            Ok(n) => Ok(ValueView::Unsigned(n as u64)),
            Err(kind) => Err(ParseFailure::Int(kind)),
        }
    } else if ty.is_signed() {
        match parse_signed(text, ty.min_value(), ty.max_value()) {
            Ok(n) => Ok(ValueView::Signed(n as i64)),
            Err(kind) => Err(ParseFailure::Int(kind)),
        }
    } else if ty is Bool {
        if text == true_text() {
            Ok(ValueView::Bool(true))
        } else if text == false_text() {
            Ok(ValueView::Bool(false))
        } else {
            Err(ParseFailure::Bool)
        }
    } else if ty is Char {
        if text.len() == 1 {
            Ok(ValueView::Char(text[0]))
        } else if text.len() == 0 {
            Err(ParseFailure::Char(CharErrorKind::EmptyString))
        } else {
            Err(ParseFailure::Char(CharErrorKind::TooManyChars))
        }
    } else {
        Ok(ValueView::Text(text))
    }
}

/// The text of the scalar `v` of type `ty`, where `v` is of that type.
pub open spec fn scalar_text(ty: ScalarType, v: ValueView) -> Option<Seq<char>> {
    if !ty.admits(v) {
        None
    } else {
        match v {
            ValueView::Unsigned(n) => Some(digits_of(n as nat)),
            ValueView::Signed(n) => Some(integer_text(n as int)),
            ValueView::Bool(b) => Some(
                if b {
                    true_text()
                } else {
                    false_text()
                },
            ),
            ValueView::Char(c) => Some(seq![c]),
            ValueView::Text(s) => Some(s),
            _ => None,
        }
    }
}

/// The failure of a text that is no valid scalar of the field `field`.
pub open spec fn malformed(field: Seq<char>, text: Seq<char>, cause: ParseFailure) -> ErrorView {
    ErrorView::Unpack(UnpackReasonView::Malformed { field, text, cause })
}

/// The failure of a value that is not of its field's type.
pub open spec fn mismatch(field: Seq<char>) -> ErrorView {
    ErrorView::Pack(PackReasonView::Mismatch { field })
}

/// What reading `text` as a scalar of type `ty` gives, for the field
/// `field`.
pub open spec fn scalar_decoded(ty: ScalarType, field: Seq<char>, text: Seq<char>) -> Result<
    ValueView,
    ErrorView,
> {
    match scalar_value(ty, text) {
        Ok(v) => Ok(v),
        Err(cause) => Err(malformed(field, text, cause)),
    }
}

/// What writing the scalar `v` of the field `field`, of type `ty`, gives.
pub open spec fn scalar_encoded(ty: ScalarType, field: Seq<char>, v: ValueView) -> Result<
    Seq<char>,
    ErrorView,
> {
    match scalar_text(ty, v) {
        Some(text) => Ok(text),
        None => Err(mismatch(field)),
    }
}

/// `r` is what reading `text` on its own as a scalar of type `ty` gives.
pub open spec fn reads_as(
    ty: ScalarType,
    text: Seq<char>,
    r: Result<ValueView, AsciiPackError>,
) -> bool {
    match r {
        Ok(v) => scalar_decoded(ty, Seq::empty(), text) == Ok::<ValueView, ErrorView>(v),
        Err(e) => scalar_decoded(ty, Seq::empty(), text) == Err::<ValueView, ErrorView>(e@),
    }
}

/// The failure of `text`, which is no valid scalar of the field `field`
/// because of `cause`.
fn fail_malformed(field: &str, text: &str, cause: ParseFailure) -> (e: AsciiPackError)
    ensures
        e@ == malformed(field@, text@, cause),
{
    AsciiPackError::Unpack(
        UnpackReason::Malformed {
            field: String::from_str(field),
            text: String::from_str(text),
            cause,
        },
    )
}

/// The failure of `text`, which was read on its own and is no valid scalar
/// because of `cause`.
fn fail_alone(text: &str, cause: ParseFailure) -> (e: AsciiPackError)
    ensures
        e@ == malformed(Seq::empty(), text@, cause),
{
    AsciiPackError::Unpack(
        UnpackReason::Malformed { field: String::new(), text: String::from_str(text), cause },
    )
}

impl AsciiPack for u8 {
    fn from_ascii(input: &str) -> (r: Result<u8, AsciiPackError>)
        ensures
            reads_as(
                ScalarType::U8,
                input@,
                match r {
                    Ok(v) => Ok(ValueView::Unsigned(v as u64)),
                    Err(e) => Err(e),
                },
            ),
    {
        match read_unsigned(input, u8::MAX as u64) {
            Ok(v) => Ok(v as u8),
            Err(kind) => Err(fail_alone(input, ParseFailure::Int(kind))),
        }
    }

    fn to_ascii(&self) -> (r: Result<String, AsciiPackError>)
        ensures
            r matches Ok(text) && text@ == digits_of(*self as nat),
    {
        let mut out = String::new();
        write_unsigned(&mut out, *self as u64);
        Ok(out)
    }
}

impl AsciiPack for u16 {
    fn from_ascii(input: &str) -> (r: Result<u16, AsciiPackError>)
        ensures
            reads_as(
                ScalarType::U16,
                input@,
                match r {
                    Ok(v) => Ok(ValueView::Unsigned(v as u64)),
                    Err(e) => Err(e),
                },
            ),
    {
        match read_unsigned(input, u16::MAX as u64) {
            Ok(v) => Ok(v as u16),
            Err(kind) => Err(fail_alone(input, ParseFailure::Int(kind))),
        }
    }

    fn to_ascii(&self) -> (r: Result<String, AsciiPackError>)
        ensures
            r matches Ok(text) && text@ == digits_of(*self as nat),
    {
        let mut out = String::new();
        write_unsigned(&mut out, *self as u64);
        Ok(out)
    }
}

impl AsciiPack for u32 {
    fn from_ascii(input: &str) -> (r: Result<u32, AsciiPackError>)
        ensures
            reads_as(
                ScalarType::U32,
                input@,
                match r {
                    Ok(v) => Ok(ValueView::Unsigned(v as u64)),
                    Err(e) => Err(e),
                },
            ),
    {
        match read_unsigned(input, u32::MAX as u64) {
            Ok(v) => Ok(v as u32),
            Err(kind) => Err(fail_alone(input, ParseFailure::Int(kind))),
        }
    }

    fn to_ascii(&self) -> (r: Result<String, AsciiPackError>)
        ensures
            r matches Ok(text) && text@ == digits_of(*self as nat),
    {
        let mut out = String::new();
        write_unsigned(&mut out, *self as u64);
        Ok(out)
    }
}

impl AsciiPack for u64 {
    fn from_ascii(input: &str) -> (r: Result<u64, AsciiPackError>)
        ensures
            reads_as(
                ScalarType::U64,
                input@,
                match r {
                    Ok(v) => Ok(ValueView::Unsigned(v as u64)),
                    Err(e) => Err(e),
                },
            ),
    {
        match read_unsigned(input, u64::MAX as u64) {
            Ok(v) => Ok(v as u64),
            Err(kind) => Err(fail_alone(input, ParseFailure::Int(kind))),
        }
    }

    fn to_ascii(&self) -> (r: Result<String, AsciiPackError>)
        ensures
            r matches Ok(text) && text@ == digits_of(*self as nat),
    {
        let mut out = String::new();
        write_unsigned(&mut out, *self as u64);
        Ok(out)
    }
}

impl AsciiPack for usize {
    fn from_ascii(input: &str) -> (r: Result<usize, AsciiPackError>)
        ensures
            reads_as(
                ScalarType::Usize,
                input@,
                match r {
                    Ok(v) => Ok(ValueView::Unsigned(v as u64)),
                    Err(e) => Err(e),
                },
            ),
    {
        match read_unsigned(input, usize::MAX as u64) {
            Ok(v) => Ok(v as usize),
            Err(kind) => Err(fail_alone(input, ParseFailure::Int(kind))),
        }
    }

    fn to_ascii(&self) -> (r: Result<String, AsciiPackError>)
        ensures
            r matches Ok(text) && text@ == digits_of(*self as nat),
    {
        let mut out = String::new();
        write_unsigned(&mut out, *self as u64);
        Ok(out)
    }
}

impl AsciiPack for i8 {
    fn from_ascii(input: &str) -> (r: Result<i8, AsciiPackError>)
        ensures
            reads_as(
                ScalarType::I8,
                input@,
                match r {
                    Ok(v) => Ok(ValueView::Signed(v as i64)),
                    Err(e) => Err(e),
                },
            ),
    {
        match read_signed(input, i8::MIN as i64, i8::MAX as i64) {
            Ok(v) => Ok(v as i8),
            Err(kind) => Err(fail_alone(input, ParseFailure::Int(kind))),
        }
    }

    fn to_ascii(&self) -> (r: Result<String, AsciiPackError>)
        ensures
            r matches Ok(text) && text@ == integer_text(*self as int),
    {
        let mut out = String::new();
        write_signed(&mut out, *self as i64);
        Ok(out)
    }
}

impl AsciiPack for i16 {
    fn from_ascii(input: &str) -> (r: Result<i16, AsciiPackError>)
        ensures
            reads_as(
                ScalarType::I16,
                input@,
                match r {
                    Ok(v) => Ok(ValueView::Signed(v as i64)),
                    Err(e) => Err(e),
                },
            ),
    {
        match read_signed(input, i16::MIN as i64, i16::MAX as i64) {
            Ok(v) => Ok(v as i16),
            Err(kind) => Err(fail_alone(input, ParseFailure::Int(kind))),
        }
    }

    fn to_ascii(&self) -> (r: Result<String, AsciiPackError>)
        ensures
            r matches Ok(text) && text@ == integer_text(*self as int),
    {
        let mut out = String::new();
        write_signed(&mut out, *self as i64);
        Ok(out)
    }
}

impl AsciiPack for i32 {
    fn from_ascii(input: &str) -> (r: Result<i32, AsciiPackError>)
        ensures
            reads_as(
                ScalarType::I32,
                input@,
                match r {
                    Ok(v) => Ok(ValueView::Signed(v as i64)),
                    Err(e) => Err(e),
                },
            ),
    {
        match read_signed(input, i32::MIN as i64, i32::MAX as i64) {
            Ok(v) => Ok(v as i32),
            Err(kind) => Err(fail_alone(input, ParseFailure::Int(kind))),
        }
    }

    fn to_ascii(&self) -> (r: Result<String, AsciiPackError>)
        ensures
            r matches Ok(text) && text@ == integer_text(*self as int),
    {
        let mut out = String::new();
        write_signed(&mut out, *self as i64);
        Ok(out)
    }
}

impl AsciiPack for i64 {
    fn from_ascii(input: &str) -> (r: Result<i64, AsciiPackError>)
        ensures
            reads_as(
                ScalarType::I64,
                input@,
                match r {
                    Ok(v) => Ok(ValueView::Signed(v as i64)),
                    Err(e) => Err(e),
                },
            ),
    {
        match read_signed(input, i64::MIN as i64, i64::MAX as i64) {
            Ok(v) => Ok(v as i64),
            Err(kind) => Err(fail_alone(input, ParseFailure::Int(kind))),
        }
    }

    fn to_ascii(&self) -> (r: Result<String, AsciiPackError>)
        ensures
            r matches Ok(text) && text@ == integer_text(*self as int),
    {
        let mut out = String::new();
        write_signed(&mut out, *self as i64);
        Ok(out)
    }
}

impl AsciiPack for isize {
    fn from_ascii(input: &str) -> (r: Result<isize, AsciiPackError>)
        ensures
            reads_as(
                ScalarType::Isize,
                input@,
                match r {
                    Ok(v) => Ok(ValueView::Signed(v as i64)),
                    Err(e) => Err(e),
                },
            ),
    {
        match read_signed(input, isize::MIN as i64, isize::MAX as i64) {
            Ok(v) => Ok(v as isize),
            Err(kind) => Err(fail_alone(input, ParseFailure::Int(kind))),
        }
    }

    fn to_ascii(&self) -> (r: Result<String, AsciiPackError>)
        ensures
            r matches Ok(text) && text@ == integer_text(*self as int),
    {
        let mut out = String::new();
        write_signed(&mut out, *self as i64);
        Ok(out)
    }
}

/// Reads `text` as a boolean: `true` or `false`, and nothing else.
pub fn read_bool(text: &str) -> (r: Option<bool>)
    ensures
        r == (if text@ == true_text() {
            Some(true)
        } else if text@ == false_text() {
            Some(false)
        } else {
            None
        }),
{
    proof {
        reveal_strlit("true");
        reveal_strlit("false");
    }
    assert(true_text() =~= "true"@);
    assert(false_text() =~= "false"@);
    if has_prefix(text, "true") && text.unicode_len() == 4 {
        assert(text@ =~= text@.subrange(0, 4));
        Some(true)
    } else if has_prefix(text, "false") && text.unicode_len() == 5 {
        assert(text@ =~= text@.subrange(0, 5));
        Some(false)
    } else {
        assert(text@ != true_text()) by {
            if text@ == true_text() {
                assert(text@.subrange(0, 4) =~= text@);
            }
        }
        assert(text@ != false_text()) by {
            if text@ == false_text() {
                assert(text@.subrange(0, 5) =~= text@);
            }
        }
        None
    }
}

/// Reads `text` as a single character.
pub fn read_char(text: &str) -> (r: Result<char, CharErrorKind>)
    ensures
        r == (if text@.len() == 1 {
            Ok(text@[0])
        } else if text@.len() == 0 {
            Err(CharErrorKind::EmptyString)
        } else {
            Err(CharErrorKind::TooManyChars)
        }),
{
    let len: usize = text.unicode_len();
    if len == 1 {
        Ok(text.get_char(0))
    } else if len == 0 {
        Err(CharErrorKind::EmptyString)
    } else {
        Err(CharErrorKind::TooManyChars)
    }
}

impl AsciiPack for bool {
    fn from_ascii(input: &str) -> (r: Result<bool, AsciiPackError>)
        ensures
            reads_as(
                ScalarType::Bool,
                input@,
                match r {
                    Ok(v) => Ok(ValueView::Bool(v)),
                    Err(e) => Err(e),
                },
            ),
    {
        match read_bool(input) {
            Some(v) => Ok(v),
            None => Err(fail_alone(input, ParseFailure::Bool)),
        }
    }

    fn to_ascii(&self) -> (r: Result<String, AsciiPackError>)
        ensures
            r matches Ok(text) && text@ == (if *self {
                true_text()
            } else {
                false_text()
            }),
    {
        proof {
            reveal_strlit("true");
            reveal_strlit("false");
        }
        if *self {
            let out = String::from_str("true");
            assert(out@ =~= true_text());
            Ok(out)
        } else {
            let out = String::from_str("false");
            assert(out@ =~= false_text());
            Ok(out)
        }
    }
}

impl AsciiPack for char {
    fn from_ascii(input: &str) -> (r: Result<char, AsciiPackError>)
        ensures
            reads_as(
                ScalarType::Char,
                input@,
                match r {
                    Ok(v) => Ok(ValueView::Char(v)),
                    Err(e) => Err(e),
                },
            ),
    {
        match read_char(input) {
            Ok(v) => Ok(v),
            Err(kind) => Err(fail_alone(input, ParseFailure::Char(kind))),
        }
    }

    fn to_ascii(&self) -> (r: Result<String, AsciiPackError>)
        ensures
            r matches Ok(text) && text@ == seq![*self],
    {
        let mut out = String::new();
        push_char(&mut out, *self);
        assert(out@ =~= seq![*self]);
        Ok(out)
    }
}

impl AsciiPack for String {
    fn from_ascii(input: &str) -> (r: Result<String, AsciiPackError>)
        ensures
            r matches Ok(text) && text@ == input@,
    {
        Ok(String::from_str(input))
    }

    fn to_ascii(&self) -> (r: Result<String, AsciiPackError>)
        ensures
            r matches Ok(text) && text@ == self@,
    {
        Ok(self.clone())
    }
}

/// The place of the first name from the `i`-th on that is `text`.
pub open spec fn name_index(names: Seq<String>, text: Seq<char>, i: int) -> Option<int>
    decreases names.len() - i,
{
    if i < 0 || i >= names.len() {
        None
    } else if names[i]@ == text {
        Some(i)
    } else {
        name_index(names, text, i + 1)
    }
}

/// What reading `text` as one of the names `names` gives, for the field
/// `field`: the place of the first name that is `text`.
pub open spec fn variant_decoded(names: Seq<String>, field: Seq<char>, text: Seq<char>) -> Result<
    ValueView,
    ErrorView,
> {
    match name_index(names, text, 0) {
        Some(i) => Ok(ValueView::Variant(i as usize)),
        None => Err(malformed(field, text, ParseFailure::Name)),
    }
}

/// What writing the value `v` of the field `field`, one of the names
/// `names`, gives: the name at its place.
pub open spec fn variant_encoded(names: Seq<String>, field: Seq<char>, v: ValueView) -> Result<
    Seq<char>,
    ErrorView,
> {
    match v {
        ValueView::Variant(i) if i < names.len() => Ok(names[i as int]@),
        _ => Err(mismatch(field)),
    }
}

/// Whether `a` and `b` are the same text.
pub fn same_text(a: &str, b: &str) -> (r: bool)
    ensures
        r == (a@ == b@),
{
    if a.unicode_len() != b.unicode_len() {
        return false;
    }
    let r = has_prefix(a, b);
    assert(a@.subrange(0, a@.len() as int) =~= a@);
    r
}

/// Reads the whole of `text` as one of the names `names`, for the field
/// `field`. It fails, with the field and the text, exactly when none of the
/// names is `text`.
pub fn decode_variant(names: &Vec<String>, field: &str, text: &str) -> (r: Result<
    Value,
    AsciiPackError,
>)
    ensures
        match r {
            Ok(v) => variant_decoded(names@, field@, text@) == Ok::<ValueView, ErrorView>(v@),
            Err(e) => variant_decoded(names@, field@, text@) == Err::<ValueView, ErrorView>(e@),
        },
{
    let n: usize = names.len();
    let mut i: usize = 0;
    while i < n
        invariant
            i <= n == names@.len(),
            name_index(names@, text@, 0) == name_index(names@, text@, i as int),
        decreases n - i,
    {
        if same_text(names[i].as_str(), text) {
            return Ok(Value::Variant(i));
        }
        i += 1;
    }
    Err(fail_malformed(field, text, ParseFailure::Name))
}

/// Writes the value `value` of the field `field`, one of the names `names`.
/// It fails exactly when the value is no place in the list of names.
pub fn encode_variant(names: &Vec<String>, field: &str, value: &Value) -> (r: Result<
    String,
    AsciiPackError,
>)
    ensures
        match r {
            Ok(text) => variant_encoded(names@, field@, value@) == Ok::<Seq<char>, ErrorView>(
                text@,
            ),
            Err(e) => variant_encoded(names@, field@, value@) == Err::<Seq<char>, ErrorView>(e@),
        },
{
    match value {
        Value::Variant(i) => {
            if *i < names.len() {
                return Ok(names[*i].clone());
            }
        },
        _ => {},
    }
    Err(AsciiPackError::Pack(PackReason::Mismatch { field: String::from_str(field) }))
}

/// Reads the whole of `text` as a scalar of type `ty`, for the field
/// `field`. It fails, with the field, the text and the cause, exactly when
/// the text is no valid representation of such a scalar.
pub fn decode_scalar(ty: ScalarType, field: &str, text: &str) -> (r: Result<
    Value,
    AsciiPackError,
>)
    ensures
        match r {
            Ok(v) => scalar_decoded(ty, field@, text@) == Ok::<ValueView, ErrorView>(v@),
            Err(e) => scalar_decoded(ty, field@, text@) == Err::<ValueView, ErrorView>(e@),
        },
{
    match ty {
        ScalarType::U8 => decode_unsigned(ty, field, text, u8::MAX as u64),
        ScalarType::U16 => decode_unsigned(ty, field, text, u16::MAX as u64),
        ScalarType::U32 => decode_unsigned(ty, field, text, u32::MAX as u64),
        ScalarType::U64 => decode_unsigned(ty, field, text, u64::MAX),
        ScalarType::Usize => decode_unsigned(ty, field, text, usize::MAX as u64),
        ScalarType::I8 => decode_signed(ty, field, text, i8::MIN as i64, i8::MAX as i64),
        ScalarType::I16 => decode_signed(ty, field, text, i16::MIN as i64, i16::MAX as i64),
        ScalarType::I32 => decode_signed(ty, field, text, i32::MIN as i64, i32::MAX as i64),
        ScalarType::I64 => decode_signed(ty, field, text, i64::MIN, i64::MAX),
        ScalarType::Isize => decode_signed(ty, field, text, isize::MIN as i64, isize::MAX as i64),
        ScalarType::Bool => match read_bool(text) {
            Some(v) => Ok(Value::Bool(v)),
            None => Err(fail_malformed(field, text, ParseFailure::Bool)),
        },
        ScalarType::Char => match read_char(text) {
            Ok(_) => Ok(Value::Char(text.get_char(0))),
            Err(kind) => Err(fail_malformed(field, text, ParseFailure::Char(kind))),
        },
        ScalarType::Text => Ok(Value::Text(String::from_str(text))),
    }
}

/// Reads `text` as a scalar of the unsigned type `ty`, whose largest value
/// is `max`.
fn decode_unsigned(ty: ScalarType, field: &str, text: &str, max: u64) -> (r: Result<
    Value,
    AsciiPackError,
>)
    requires
        ty.is_unsigned(),
        max == ty.max_value(),
    ensures
        match r {
            Ok(v) => scalar_decoded(ty, field@, text@) == Ok::<ValueView, ErrorView>(v@),
            Err(e) => scalar_decoded(ty, field@, text@) == Err::<ValueView, ErrorView>(e@),
        },
{
    match read_unsigned(text, max) {
        Ok(v) => Ok(Value::Unsigned(v)),
        Err(kind) => Err(fail_malformed(field, text, ParseFailure::Int(kind))),
    }
}

/// Reads `text` as a scalar of the signed type `ty`, whose values go from
/// `min` to `max`.
fn decode_signed(ty: ScalarType, field: &str, text: &str, min: i64, max: i64) -> (r: Result<
    Value,
    AsciiPackError,
>)
    requires
        ty.is_signed(),
        min == ty.min_value(),
        max == ty.max_value(),
    ensures
        match r {
            Ok(v) => scalar_decoded(ty, field@, text@) == Ok::<ValueView, ErrorView>(v@),
            Err(e) => scalar_decoded(ty, field@, text@) == Err::<ValueView, ErrorView>(e@),
        },
{
    match read_signed(text, min, max) {
        Ok(v) => Ok(Value::Signed(v)),
        Err(kind) => Err(fail_malformed(field, text, ParseFailure::Int(kind))),
    }
}

/// Whether the unsigned `n` fits the integer type `ty`.
fn fits_unsigned(ty: ScalarType, n: u64) -> (r: bool)
    ensures
        r == ty.admits(ValueView::Unsigned(n)),
{
    match ty {
        ScalarType::U8 => n <= u8::MAX as u64,
        ScalarType::U16 => n <= u16::MAX as u64,
        ScalarType::U32 => n <= u32::MAX as u64,
        ScalarType::U64 => true,
        ScalarType::Usize => n <= usize::MAX as u64,
        _ => false,
    }
}

/// Whether the signed `n` fits the integer type `ty`.
fn fits_signed(ty: ScalarType, n: i64) -> (r: bool)
    ensures
        r == ty.admits(ValueView::Signed(n)),
{
    match ty {
        ScalarType::I8 => i8::MIN as i64 <= n && n <= i8::MAX as i64,
        ScalarType::I16 => i16::MIN as i64 <= n && n <= i16::MAX as i64,
        ScalarType::I32 => i32::MIN as i64 <= n && n <= i32::MAX as i64,
        ScalarType::I64 => true,
        ScalarType::Isize => isize::MIN as i64 <= n && n <= isize::MAX as i64,
        _ => false,
    }
}

/// Writes the scalar `value` of the field `field`, whose type is `ty`, as
/// text. It fails exactly when the value is not of that type.
pub fn encode_scalar(ty: ScalarType, field: &str, value: &Value) -> (r: Result<
    String,
    AsciiPackError,
>)
    ensures
        match r {
            Ok(text) => scalar_encoded(ty, field@, value@) == Ok::<Seq<char>, ErrorView>(text@),
            Err(e) => scalar_encoded(ty, field@, value@) == Err::<Seq<char>, ErrorView>(e@),
        },
{
    let fits = match value {
        Value::Unsigned(n) => fits_unsigned(ty, *n),
        Value::Signed(n) => fits_signed(ty, *n),
        Value::Bool(_) => matches!(ty, ScalarType::Bool),
        Value::Char(_) => matches!(ty, ScalarType::Char),
        Value::Text(_) => matches!(ty, ScalarType::Text),
        _ => false,
    };
    if !fits {
        return Err(AsciiPackError::Pack(PackReason::Mismatch { field: String::from_str(field) }));
    }
    match value {
        Value::Unsigned(n) => n.to_ascii(),
        Value::Signed(n) => n.to_ascii(),
        Value::Bool(b) => b.to_ascii(),
        Value::Char(c) => c.to_ascii(),
        Value::Text(s) => s.to_ascii(),
        _ => Err(AsciiPackError::Pack(PackReason::Mismatch { field: String::from_str(field) })),
    }
}

} // verus!

