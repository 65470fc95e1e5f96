//! The description of a record's layout: its fields in order, each with its
//! shape and its type.

use vstd::prelude::*;
use crate::until::StopPredicate;

verus! {

/// The scalar types that a field can hold.
#[derive(Clone, Copy, Debug, PartialEq, Eq, Structural)]
pub enum ScalarType {
    U8,
    U16,
    U32,
    U64,
    Usize,
    I8,
    I16,
    I32,
    I64,
    Isize,
    Bool,
    Char,
    Text,
}

/// The shape of one field in the text.
#[derive(Clone, Debug, PartialEq, Eq)]
pub enum FieldSpec {
    /// One value in exactly `width` characters, padded on the left with
    /// `pad_char` when its own text is shorter.
    Fixed { width: usize, pad_char: char },
    /// A literal: it takes up the length of `text` and holds no data.
    Static { text: String },
    /// A field that takes up no text: it holds its type's default.
    Ignored,
    /// A group of elements of one type, one after the other, that goes on
    /// until `stop` holds of what is left or nothing is left. With an
    /// `element_width`, each element takes up that many characters; without
    /// one, as many as its own text is long.
    Repeated { element_width: Option<usize>, pad_char: char, stop: StopPredicate },
}

/// The type of a field's value, or of the elements of a repeated group.
#[derive(Debug, PartialEq, Eq)]
pub enum FieldType {
    /// A scalar.
    Scalar(ScalarType),
    /// One of a list of names; the value is the place of the name in the
    /// list.
    Enumeration(Vec<String>),
    /// A nested record, laid out by its own schema.
    Record(Schema),
}

/// One field of a record.
#[derive(Debug, PartialEq, Eq)]
pub struct Field {
    /// The name by which failures refer to the field.
    pub name: String,
    /// Its shape in the text.
    pub spec: FieldSpec,
    /// The type of its value.
    pub ty: FieldType,
}

/// The layout of a record: its fields, in the order of the text.
#[derive(Debug, PartialEq, Eq)]
pub struct Schema {
    pub fields: Vec<Field>,
}

/// What is wrong with a list of fields that is no schema.
#[derive(Clone, Debug, PartialEq, Eq)]
pub enum SchemaError {
    /// A fixed field of this name has width zero.
    ZeroWidth(String),
    /// This name was given to a field before: the field has more than one
    /// shape attached.
    DuplicateField(String),
}

/// The mathematical model of a [`SchemaError`].
pub enum SchemaErrorView {
    ZeroWidth(Seq<char>),
    DuplicateField(Seq<char>),
}

impl View for SchemaError {
    type V = SchemaErrorView;

    open spec fn view(&self) -> SchemaErrorView {
        match self {
            SchemaError::ZeroWidth(name) => SchemaErrorView::ZeroWidth(name@),
            SchemaError::DuplicateField(name) => SchemaErrorView::DuplicateField(name@),
        }
    }
}

/// The pad character of a field that names none.
pub const DEFAULT_PAD: char = '0';

impl FieldSpec {
    /// A fixed field of `width` characters with the default pad character.
    pub fn fixed(width: usize) -> (spec: FieldSpec)
        ensures
            spec == (FieldSpec::Fixed { width, pad_char: '0' }),
    {
        FieldSpec::Fixed { width, pad_char: DEFAULT_PAD }
    }

    /// A fixed field of `width` characters, padded with `pad_char`.
    pub fn padded(width: usize, pad_char: char) -> (spec: FieldSpec)
        ensures
            spec == (FieldSpec::Fixed { width, pad_char }),
    {
        FieldSpec::Fixed { width, pad_char }
    }

    /// A literal field that holds `text`.
    pub fn literal(text: &str) -> (spec: FieldSpec)
        ensures
            spec matches FieldSpec::Static { text: t } && t@ == text@,
    {
        FieldSpec::Static { text: String::from_str(text) }
    }

    /// A repeated group whose elements take up `element_width` characters
    /// each, padded with the default pad character.
    pub fn repeated(element_width: usize, stop: StopPredicate) -> (spec: FieldSpec)
        ensures
            spec == (FieldSpec::Repeated {
                element_width: Some(element_width),
                pad_char: '0',
                stop,
            }),
    {
        FieldSpec::Repeated { element_width: Some(element_width), pad_char: DEFAULT_PAD, stop }
    }

    /// A repeated group whose elements take up as much as their own text.
    pub fn repeated_unsized(stop: StopPredicate) -> (spec: FieldSpec)
        ensures
            spec == (FieldSpec::Repeated { element_width: None, pad_char: '0', stop }),
    {
        FieldSpec::Repeated { element_width: None, pad_char: DEFAULT_PAD, stop }
    }
}

impl Field {
    /// The field `name` with the shape `spec` and the type `ty`.
    pub fn new(name: &str, spec: FieldSpec, ty: FieldType) -> (field: Field)
        ensures
            field.name@ == name@,
            field.spec == spec,
            field.ty == ty,
    {
        Field { name: String::from_str(name), spec, ty }
    }
}

/// A name of the first `n` fields is `name`.
pub open spec fn name_taken(fields: Seq<Field>, n: int, name: Seq<char>) -> bool {
    exists|j: int| 0 <= j < n && j < fields.len() && (#[trigger] fields[j]).name@ == name
}

/// The first thing that is wrong with the fields from the `i`-th on, if
/// anything is: a fixed field of width zero, a name that an earlier field
/// has, or what is wrong inside a nested record. The fields are looked at in
/// order, and a nested record after the field that holds it.
pub open spec fn first_defect(fields: Seq<Field>, i: int) -> Option<SchemaErrorView>
    decreases fields, fields.len() - i,
{
    if i < 0 || i >= fields.len() {
        None
    } else {
        let field = fields[i];
        if field.spec matches FieldSpec::Fixed { width, .. } && width == 0 {
            Some(SchemaErrorView::ZeroWidth(field.name@))
        } else if name_taken(fields, i, field.name@) {
            Some(SchemaErrorView::DuplicateField(field.name@))
        } else {
            let inside = match field.ty {
                FieldType::Record(nested) => first_defect(nested.fields@, 0),
                _ => None,
            };
            if inside is Some {
                inside
            } else {
                first_defect(fields, i + 1)
            }
        }
    }
}

impl Schema {
    /// Nothing is wrong with the schema, nor with a schema nested in it:
    /// every fixed field has a width above zero and no two fields of one
    /// record share a name.
    pub open spec fn valid(&self) -> bool {
        first_defect(self.fields@, 0) is None
    }

    /// Makes a schema of `fields` if nothing is wrong with them, and says
    /// what is wrong first if something is.
    pub fn new(fields: Vec<Field>) -> (r: Result<Schema, SchemaError>)
        ensures
            match r {
                Ok(schema) => schema.fields == fields && schema.valid(),
                Err(e) => first_defect(fields@, 0) == Some(e@),
            },
    {
        match find_defect(&fields) {
            Some(e) => Err(e),
            None => Ok(Schema { fields }),
        }
    }
}

/// Whether one of the first `n` fields has the name `name`.
fn has_name(fields: &Vec<Field>, n: usize, name: &String) -> (r: bool)
    requires
        n <= fields@.len(),
    ensures
        r == name_taken(fields@, n as int, name@),
{
    let mut j: usize = 0;
    while j < n
        invariant
            j <= n <= fields@.len(),
            !name_taken(fields@, j as int, name@),
        decreases n - j,
    {
        if fields[j].name == *name {
            return true;
        }
        j += 1;
    }
    false
}

/// Looks for the first thing that is wrong with `fields`.
fn find_defect(fields: &Vec<Field>) -> (r: Option<SchemaError>)
    ensures
        match r {
            Some(e) => first_defect(fields@, 0) == Some(e@),
            None => first_defect(fields@, 0) is None,
        },
    decreases fields,
{
    let n: usize = fields.len();
    let mut i: usize = 0;
    while i < n
        invariant
            i <= n == fields@.len(),
            first_defect(fields@, 0) == first_defect(fields@, i as int),
        decreases n - i,
    {
        let field = &fields[i];
        if let FieldSpec::Fixed { width, .. } = &field.spec {
            if *width == 0 {
                return Some(SchemaError::ZeroWidth(field.name.clone()));
            }
        }
        if has_name(fields, i, &field.name) {
            return Some(SchemaError::DuplicateField(field.name.clone()));
        }
        if let FieldType::Record(nested) = &field.ty {
            let inside = find_defect(&nested.fields);
            if inside.is_some() {
                return inside;
            }
        }
        i += 1;
    }
    None
}

} // verus!
