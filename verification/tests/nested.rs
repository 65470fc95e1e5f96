use ascii_pack::{
    decode, encode, AsciiPack, AsciiPackError, Field, FieldSpec, FieldType, ScalarType, Schema,
    Value,
};

#[derive(PartialEq, Eq, Debug, Default)]
pub struct Inner {
    pub my_string: String,
    pub my_number: usize,
}

#[derive(PartialEq, Eq, Debug, Default)]
pub struct Outer {
    pub field1: u32,
    pub inner_struct: Inner,
}

fn inner_schema() -> Schema {
    Schema::new(vec![
        Field::new("my_string", FieldSpec::padded(6, ' '), FieldType::Scalar(ScalarType::Text)),
        Field::new("my_number", FieldSpec::fixed(4), FieldType::Scalar(ScalarType::Usize)),
    ])
    .unwrap()
}

fn outer_schema() -> Schema {
    Schema::new(vec![
        Field::new("field1", FieldSpec::fixed(4), FieldType::Scalar(ScalarType::U32)),
        Field::new("inner_struct", FieldSpec::fixed(10), FieldType::Record(inner_schema())),
    ])
    .unwrap()
}

impl Inner {
    fn from_values(values: &Vec<Value>) -> Inner {
        Inner {
            my_string: values[0].as_text().unwrap().to_string(),
            my_number: values[1].as_unsigned().unwrap() as usize,
        }
    }

    fn to_values(&self) -> Vec<Value> {
        vec![Value::text(&self.my_string), Value::Unsigned(self.my_number as u64)]
    }
}

impl AsciiPack for Inner {
    fn from_ascii(input: &str) -> Result<Self, AsciiPackError> {
        Ok(Inner::from_values(&decode(&inner_schema(), input)?))
    }

    fn to_ascii(&self) -> Result<String, AsciiPackError> {
        encode(&inner_schema(), &self.to_values())
    }
}

impl AsciiPack for Outer {
    fn from_ascii(input: &str) -> Result<Self, AsciiPackError> {
        let values = decode(&outer_schema(), input)?;
        Ok(Outer {
            field1: values[0].as_unsigned().unwrap() as u32,
            inner_struct: Inner::from_values(values[1].as_record().unwrap()),
        })
    }

    fn to_ascii(&self) -> Result<String, AsciiPackError> {
        let values = vec![
            Value::Unsigned(self.field1 as u64),
            Value::Record(self.inner_struct.to_values()),
        ];
        encode(&outer_schema(), &values)
    }
}

#[test]
fn nested_test() {
    let pack = Outer::from_ascii("0123TESTED4567").unwrap();
    assert_eq!(pack.field1, 123);
    assert_eq!(pack.inner_struct.my_number, 4567);
    assert_eq!(pack.inner_struct.my_string, "TESTED");
}

#[test]
fn nested_record_round_trips() {
    let pack = Outer::from_ascii("0123TESTED4567").unwrap();
    assert_eq!(pack.to_ascii().unwrap(), "0123TESTED4567");
    assert_eq!(pack.inner_struct.to_ascii().unwrap(), "TESTED4567");
    assert_eq!(Inner::from_ascii("TESTED4567").unwrap(), pack.inner_struct);
}
