use ascii_pack::{
    decode, encode, AsciiPack, AsciiPackError, Field, FieldSpec, FieldType, ScalarType, Schema,
    Value,
};

/// An address of four octets, written with dots between them.
#[derive(Debug, PartialEq, Eq, Clone, Copy)]
struct IpAddr([u8; 4]);

impl IpAddr {
    fn is_loopback(&self) -> bool {
        self.0[0] == 127
    }
}

impl AsciiPack for IpAddr {
    fn from_ascii(input: &str) -> Result<Self, AsciiPackError> {
        let parts: Vec<&str> = input.split('.').collect();
        if parts.len() != 4 {
            return Err(AsciiPackError::Other(format!("Error unpacking '{}'", input)));
        }
        let mut octets = [0u8; 4];
        for (octet, part) in octets.iter_mut().zip(parts) {
            *octet = <u8 as AsciiPack>::from_ascii(part)?;
        }
        Ok(IpAddr(octets))
    }

    fn to_ascii(&self) -> Result<String, AsciiPackError> {
        let [a, b, c, d] = self.0;
        Ok(format!("{}.{}.{}.{}", a, b, c, d))
    }
}

struct TestFormat {
    pub number: u32,
    pub handling: String,
    pub ip: IpAddr,
    pub line_ending1: String,
    pub timestamp: u64,
}

fn test_format_schema() -> Schema {
    Schema::new(vec![
        Field::new("number", FieldSpec::fixed(3), FieldType::Scalar(ScalarType::U32)),
        Field::new("handling", FieldSpec::padded(6, ' '), FieldType::Scalar(ScalarType::Text)),
        Field::new("ip", FieldSpec::fixed(9), FieldType::Scalar(ScalarType::Text)),
        Field::new("line_ending1", FieldSpec::fixed(3), FieldType::Scalar(ScalarType::Text)),
        Field::new("timestamp", FieldSpec::fixed(10), FieldType::Scalar(ScalarType::U64)),
    ])
    .unwrap()
}

impl AsciiPack for TestFormat {
    fn from_ascii(input: &str) -> Result<Self, AsciiPackError> {
        let values = decode(&test_format_schema(), input)?;
        let ip = IpAddr::from_ascii(values[2].as_text().unwrap())?;
        Ok(TestFormat {
            number: values[0].as_unsigned().unwrap() as u32,
            handling: values[1].as_text().unwrap().to_string(),
            ip,
            line_ending1: values[3].as_text().unwrap().to_string(),
            timestamp: values[4].as_unsigned().unwrap(),
        })
    }

    fn to_ascii(&self) -> Result<String, AsciiPackError> {
        let values = vec![
            Value::Unsigned(self.number as u64),
            Value::text(&self.handling),
            Value::Text(self.ip.to_ascii()?),
            Value::text(&self.line_ending1),
            Value::Unsigned(self.timestamp),
        ];
        encode(&test_format_schema(), &values)
    }
}

#[test]
fn test_format() {
    const TEST_ASCII: &str = "012  TEST127.0.0.1\r\r\n1697774260";
    let unpacked = TestFormat::from_ascii(TEST_ASCII).unwrap();

    assert_eq!(unpacked.number, 12);
    assert_eq!(unpacked.handling, "  TEST");
    assert!(unpacked.ip.is_loopback());
    assert_eq!(unpacked.line_ending1, "\r\r\n");
    assert_eq!(unpacked.timestamp, 1697774260);

    assert_eq!(unpacked.to_ascii().unwrap(), TEST_ASCII);
}

#[test]
fn address_with_a_bad_octet_is_refused() {
    let e = TestFormat::from_ascii("012  TEST127.0.0.x\r\r\n1697774260").err().unwrap();
    assert_eq!(e.message(), "Unpacking error: Error unpacking 'x' : invalid digit found in string");
}
