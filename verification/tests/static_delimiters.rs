use ascii_pack::{
    decode, encode, AsciiPack, AsciiPackError, Field, FieldSpec, FieldType, ScalarType, Schema,
    Static, Value,
};

const EXAMPLE: &str = "BEGIN1234END";

#[derive(PartialEq, Eq, Debug, Default)]
pub struct StaticTest {
    pub begin: Static,
    pub number: usize,
    pub end: Static,
}

fn static_test_schema() -> Schema {
    Schema::new(vec![
        Field::new("begin", FieldSpec::literal("BEGIN"), FieldType::Scalar(ScalarType::Text)),
        Field::new("number", FieldSpec::fixed(4), FieldType::Scalar(ScalarType::Usize)),
        Field::new("end", FieldSpec::literal("END"), FieldType::Scalar(ScalarType::Text)),
    ])
    .unwrap()
}

impl AsciiPack for StaticTest {
    fn from_ascii(input: &str) -> Result<Self, AsciiPackError> {
        let values = decode(&static_test_schema(), input)?;
        Ok(StaticTest {
            begin: Static::new(),
            number: values[1].as_unsigned().unwrap() as usize,
            end: Static::new(),
        })
    }

    fn to_ascii(&self) -> Result<String, AsciiPackError> {
        let values = vec![
            Value::Static(self.begin),
            Value::Unsigned(self.number as u64),
            Value::Static(self.end),
        ];
        encode(&static_test_schema(), &values)
    }
}

#[test]
fn static_delimeters() {
    let packed = StaticTest::from_ascii(EXAMPLE).unwrap();
    assert_eq!(packed.number, 1234);
    assert_eq!(packed.to_ascii().unwrap(), EXAMPLE);
}

#[test]
fn static_literal_is_not_compared_with_the_input() {
    let packed = StaticTest::from_ascii("XXXXX1234YYY").unwrap();
    assert_eq!(packed.number, 1234);
    assert_eq!(packed.to_ascii().unwrap(), EXAMPLE);
}
