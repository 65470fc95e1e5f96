use ascii_pack::{
    decode, encode, AsciiPack, AsciiPackError, Field, FieldSpec, FieldType, ParseFailure,
    ScalarType, Schema, UnpackReason, Value,
};

#[derive(Debug, Default, Eq, PartialEq)]
struct PrimitiveBool(bool);

impl AsciiPack for PrimitiveBool {
    fn from_ascii(input: &str) -> Result<Self, AsciiPackError>
    where
        Self: Sized,
    {
        match input {
            "0" => Ok(PrimitiveBool(false)),
            "1" => Ok(PrimitiveBool(true)),
            other => Err(AsciiPackError::Unpack(UnpackReason::Malformed {
                field: String::new(),
                text: other.to_string(),
                cause: ParseFailure::Bool,
            })),
        }
    }

    fn to_ascii(&self) -> Result<String, AsciiPackError> {
        match self {
            PrimitiveBool(true) => Ok("1".to_owned()),
            PrimitiveBool(false) => Ok("0".to_owned()),
        }
    }
}

#[derive(PartialEq, Eq, Debug, Default)]
struct TestFormat {
    pub padded_number: u32,
    pub ignored_field: Option<usize>,
    pub handling: String,
    pub flag: PrimitiveBool,
    pub line_ending1: String,
    pub timestamp: u64,
}

fn test_format_schema() -> Schema {
    Schema::new(vec![
        Field::new("padded_number", FieldSpec::fixed(4), FieldType::Scalar(ScalarType::U32)),
        Field::new("ignored_field", FieldSpec::Ignored, FieldType::Scalar(ScalarType::Usize)),
        Field::new("handling", FieldSpec::padded(6, ' '), FieldType::Scalar(ScalarType::Text)),
        Field::new("flag", FieldSpec::fixed(1), FieldType::Scalar(ScalarType::Text)),
        Field::new("line_ending1", FieldSpec::fixed(2), FieldType::Scalar(ScalarType::Text)),
        Field::new("timestamp", FieldSpec::fixed(10), FieldType::Scalar(ScalarType::U64)),
    ])
    .unwrap()
}

impl AsciiPack for TestFormat {
    fn from_ascii(input: &str) -> Result<Self, AsciiPackError> {
        let values = decode(&test_format_schema(), input)?;
        Ok(TestFormat {
            padded_number: values[0].as_unsigned().unwrap() as u32,
            ignored_field: Default::default(),
            handling: values[2].as_text().unwrap().to_string(),
            flag: PrimitiveBool::from_ascii(values[3].as_text().unwrap())?,
            line_ending1: values[4].as_text().unwrap().to_string(),
            timestamp: values[5].as_unsigned().unwrap(),
        })
    }

    fn to_ascii(&self) -> Result<String, AsciiPackError> {
        let values = vec![
            Value::Unsigned(self.padded_number as u64),
            Value::Unsigned(self.ignored_field.unwrap_or_default() as u64),
            Value::text(&self.handling),
            Value::Text(self.flag.to_ascii()?),
            Value::text(&self.line_ending1),
            Value::Unsigned(self.timestamp),
        ];
        encode(&test_format_schema(), &values)
    }
}

#[test]
fn simple_test() {
    const TEST_ASCII: &str = "0012  TEST1\r\n1697774260";
    let unpacked = TestFormat::from_ascii(TEST_ASCII).unwrap();

    assert_eq!(unpacked.padded_number, 12);
    assert_eq!(unpacked.handling, "  TEST");
    assert_eq!(unpacked.flag, PrimitiveBool(true));
    assert_eq!(unpacked.line_ending1, "\r\n");
    assert_eq!(unpacked.timestamp, 1697774260);

    // an ignored field holds the default of its type
    assert_eq!(unpacked.ignored_field, None);

    // the struct should pack back into the same string
    assert_eq!(unpacked.to_ascii().unwrap(), TEST_ASCII);

    assert_eq!(TestFormat::from_ascii(TEST_ASCII).unwrap(), unpacked);
    assert_eq!(unpacked.to_ascii().unwrap(), unpacked.to_ascii().unwrap());
}

#[test]
fn ignored_field_decodes_to_the_default_of_its_type() {
    let values = decode(&test_format_schema(), "0012  TEST1\r\n1697774260").unwrap();
    assert_eq!(values[1], Value::Unsigned(0));
}

#[test]
fn flag_that_is_no_flag_is_refused() {
    let e = TestFormat::from_ascii("0012  TEST7\r\n1697774260").unwrap_err();
    assert_eq!(
        e,
        AsciiPackError::Unpack(UnpackReason::Malformed {
            field: String::new(),
            text: "7".to_string(),
            cause: ParseFailure::Bool,
        })
    );
}
