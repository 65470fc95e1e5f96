use ascii_pack::{Field, FieldSpec, FieldType, ScalarType, Schema, SchemaError, StopPredicate};

fn number(name: &str, width: usize) -> Field {
    Field::new(name, FieldSpec::fixed(width), FieldType::Scalar(ScalarType::U32))
}

#[test]
fn fields_with_distinct_names_and_widths_make_a_schema() {
    let schema = Schema::new(vec![number("a", 1), number("b", 2)]).unwrap();
    assert_eq!(schema.fields.len(), 2);
    assert_eq!(schema.fields[0].name, "a");
    assert_eq!(schema.fields[1].spec, FieldSpec::Fixed { width: 2, pad_char: '0' });
    assert!(Schema::new(vec![]).is_ok());
}

#[test]
fn field_with_two_shapes_is_refused() {
    let fields = vec![
        number("a", 1),
        number("b", 2),
        Field::new("a", FieldSpec::Ignored, FieldType::Scalar(ScalarType::Text)),
    ];
    assert_eq!(Schema::new(fields), Err(SchemaError::DuplicateField("a".to_string())));
}

#[test]
fn fixed_field_of_width_zero_is_refused() {
    assert_eq!(
        Schema::new(vec![number("a", 1), number("b", 0)]),
        Err(SchemaError::ZeroWidth("b".to_string()))
    );
    let group = Field::new(
        "group",
        FieldSpec::repeated(0, StopPredicate::Empty),
        FieldType::Scalar(ScalarType::Text),
    );
    assert!(Schema::new(vec![group]).is_ok());
}

#[test]
fn defect_inside_a_nested_record_is_found() {
    let inner = Schema { fields: vec![number("x", 1), number("x", 1)] };
    let outer = vec![number("a", 1), Field::new("in", FieldSpec::fixed(2), FieldType::Record(inner))];
    assert_eq!(Schema::new(outer), Err(SchemaError::DuplicateField("x".to_string())));
}

#[test]
fn first_defect_in_the_order_of_the_fields_is_named() {
    let inner = Schema { fields: vec![number("x", 0)] };
    let fields = vec![
        number("a", 1),
        Field::new("in", FieldSpec::fixed(2), FieldType::Record(inner)),
        number("a", 0),
    ];
    assert_eq!(Schema::new(fields), Err(SchemaError::ZeroWidth("x".to_string())));
    assert_eq!(
        Schema::new(vec![number("a", 1), number("a", 0)]),
        Err(SchemaError::ZeroWidth("a".to_string()))
    );
    assert_eq!(
        Schema::new(vec![number("a", 1), number("a", 1), number("b", 0)]),
        Err(SchemaError::DuplicateField("a".to_string()))
    );
}

#[test]
fn same_name_in_two_records_is_no_defect() {
    let inner = Schema::new(vec![number("a", 1)]).unwrap();
    let outer = vec![number("a", 1), Field::new("in", FieldSpec::fixed(1), FieldType::Record(inner))];
    assert!(Schema::new(outer).is_ok());
}

#[test]
fn builders_make_the_shapes() {
    assert_eq!(FieldSpec::fixed(4), FieldSpec::Fixed { width: 4, pad_char: '0' });
    assert_eq!(FieldSpec::padded(4, ' '), FieldSpec::Fixed { width: 4, pad_char: ' ' });
    assert_eq!(FieldSpec::literal("\r\n"), FieldSpec::Static { text: "\r\n".to_string() });
    assert_eq!(
        FieldSpec::repeated(3, StopPredicate::Empty),
        FieldSpec::Repeated { element_width: Some(3), pad_char: '0', stop: StopPredicate::Empty }
    );
    assert_eq!(
        FieldSpec::repeated_unsized(StopPredicate::AsciiAlpha),
        FieldSpec::Repeated { element_width: None, pad_char: '0', stop: StopPredicate::AsciiAlpha }
    );
    let field = Field::new("n", FieldSpec::Ignored, FieldType::Scalar(ScalarType::Bool));
    assert_eq!(field.name, "n");
    assert_eq!(field.spec, FieldSpec::Ignored);
    assert_eq!(field.ty, FieldType::Scalar(ScalarType::Bool));
}
