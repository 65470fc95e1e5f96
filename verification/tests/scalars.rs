use ascii_pack::decode::default_value;
use ascii_pack::number::{read_signed, read_unsigned};
use ascii_pack::scalar::{decode_variant, encode_variant, read_bool, read_char, same_text};
use ascii_pack::{
    decode_scalar, decode_value, encode_scalar, encode_value, AsciiPack, AsciiPackError,
    CharErrorKind, FieldType, IntErrorKind, PackReason, ParseFailure, ScalarType, UnpackReason,
    Value,
};

fn malformed(text: &str, cause: ParseFailure) -> AsciiPackError {
    malformed_in("", text, cause)
}

fn malformed_in(field: &str, text: &str, cause: ParseFailure) -> AsciiPackError {
    AsciiPackError::Unpack(UnpackReason::Malformed {
        field: field.to_string(),
        text: text.to_string(),
        cause,
    })
}

#[test]
fn unsigned_texts_read_as_std_reads_them() {
    let texts = [
        "0", "7", "12", "+12", "0012", "", "+", "-", "-1", "255", "256", "65535", "65536",
        "4294967295", "4294967296", "18446744073709551615", "18446744073709551616",
        "99999999999999999999999", "1x", "x1", " 1", "1 ", "1_000", "++1", "+-1", "0x10",
        "\u{0663}", "1\u{00e9}",
    ];
    for text in texts {
        assert_eq!(<u8 as AsciiPack>::from_ascii(text).ok(), text.parse::<u8>().ok(), "u8 {:?}", text);
        assert_eq!(<u16 as AsciiPack>::from_ascii(text).ok(), text.parse::<u16>().ok(), "u16 {:?}", text);
        assert_eq!(<u32 as AsciiPack>::from_ascii(text).ok(), text.parse::<u32>().ok(), "u32 {:?}", text);
        assert_eq!(<u64 as AsciiPack>::from_ascii(text).ok(), text.parse::<u64>().ok(), "u64 {:?}", text);
        assert_eq!(
            <usize as AsciiPack>::from_ascii(text).ok(),
            text.parse::<usize>().ok(),
            "usize {:?}",
            text
        );
    }
}

#[test]
fn signed_texts_read_as_std_reads_them() {
    let texts = [
        "0", "-0", "+0", "7", "-7", "+7", "127", "128", "-128", "-129", "32767", "32768",
        "-32768", "-32769", "2147483647", "2147483648", "-2147483648", "-2147483649",
        "9223372036854775807", "9223372036854775808", "-9223372036854775808",
        "-9223372036854775809", "", "-", "+", "--1", "-+1", "1-", "- 1", "-x", "-0012",
    ];
    for text in texts {
        assert_eq!(<i8 as AsciiPack>::from_ascii(text).ok(), text.parse::<i8>().ok(), "i8 {:?}", text);
        assert_eq!(<i16 as AsciiPack>::from_ascii(text).ok(), text.parse::<i16>().ok(), "i16 {:?}", text);
        assert_eq!(<i32 as AsciiPack>::from_ascii(text).ok(), text.parse::<i32>().ok(), "i32 {:?}", text);
        assert_eq!(<i64 as AsciiPack>::from_ascii(text).ok(), text.parse::<i64>().ok(), "i64 {:?}", text);
        assert_eq!(
            <isize as AsciiPack>::from_ascii(text).ok(),
            text.parse::<isize>().ok(),
            "isize {:?}",
            text
        );
    }
}

#[test]
fn integers_are_written_as_std_writes_them() {
    for n in [0u64, 1, 9, 10, 11, 99, 100, 255, 1697774260, u64::MAX] {
        assert_eq!(n.to_ascii().unwrap(), n.to_string());
    }
    for n in [0u8, 9, 10, 255] {
        assert_eq!(n.to_ascii().unwrap(), n.to_string());
    }
    for n in [0i64, 1, -1, 10, -10, i64::MAX, i64::MIN] {
        assert_eq!(n.to_ascii().unwrap(), n.to_string());
    }
    for n in [0i8, -1, 127, -128] {
        assert_eq!(n.to_ascii().unwrap(), n.to_string());
    }
    assert_eq!(1234usize.to_ascii().unwrap(), "1234");
    assert_eq!((-32768i16).to_ascii().unwrap(), "-32768");
    assert_eq!(65535u16.to_ascii().unwrap(), "65535");
    assert_eq!(4294967295u32.to_ascii().unwrap(), "4294967295");
    assert_eq!((-2147483648i32).to_ascii().unwrap(), "-2147483648");
    assert_eq!((-5isize).to_ascii().unwrap(), "-5");
}

#[test]
fn integer_failures_name_the_text_and_the_cause() {
    assert_eq!(
        <u32 as AsciiPack>::from_ascii(""),
        Err(malformed("", ParseFailure::Int(IntErrorKind::Empty)))
    );
    assert_eq!(
        <u32 as AsciiPack>::from_ascii("12a"),
        Err(malformed("12a", ParseFailure::Int(IntErrorKind::InvalidDigit)))
    );
    assert_eq!(
        <u32 as AsciiPack>::from_ascii("+"),
        Err(malformed("+", ParseFailure::Int(IntErrorKind::InvalidDigit)))
    );
    assert_eq!(
        <u8 as AsciiPack>::from_ascii("256"),
        Err(malformed("256", ParseFailure::Int(IntErrorKind::PosOverflow)))
    );
    assert_eq!(
        <i8 as AsciiPack>::from_ascii("-129"),
        Err(malformed("-129", ParseFailure::Int(IntErrorKind::NegOverflow)))
    );
    assert_eq!(
        <i8 as AsciiPack>::from_ascii("128"),
        Err(malformed("128", ParseFailure::Int(IntErrorKind::PosOverflow)))
    );
    assert_eq!(
        <i8 as AsciiPack>::from_ascii("-"),
        Err(malformed("-", ParseFailure::Int(IntErrorKind::InvalidDigit)))
    );
}

#[test]
fn booleans_are_true_and_false_and_nothing_else() {
    assert_eq!(<bool as AsciiPack>::from_ascii("true"), Ok(true));
    assert_eq!(<bool as AsciiPack>::from_ascii("false"), Ok(false));
    for text in ["", "True", "TRUE", "1", "0", "true ", " true", "truefalse", "fals", "falsee"] {
        assert_eq!(
            <bool as AsciiPack>::from_ascii(text),
            Err(malformed(text, ParseFailure::Bool)),
            "{:?}",
            text
        );
        assert!(text.parse::<bool>().is_err());
    }
    assert_eq!(true.to_ascii().unwrap(), "true");
    assert_eq!(false.to_ascii().unwrap(), "false");
}

#[test]
fn a_character_is_one_character() {
    assert_eq!(<char as AsciiPack>::from_ascii("a"), Ok('a'));
    assert_eq!(<char as AsciiPack>::from_ascii("\n"), Ok('\n'));
    assert_eq!(<char as AsciiPack>::from_ascii("\u{00e9}"), Ok('\u{00e9}'));
    assert_eq!(
        <char as AsciiPack>::from_ascii(""),
        Err(malformed("", ParseFailure::Char(CharErrorKind::EmptyString)))
    );
    assert_eq!(
        <char as AsciiPack>::from_ascii("ab"),
        Err(malformed("ab", ParseFailure::Char(CharErrorKind::TooManyChars)))
    );
    assert_eq!('x'.to_ascii().unwrap(), "x");
}

#[test]
fn text_is_kept_as_it_stands() {
    assert_eq!(<String as AsciiPack>::from_ascii("  TEST"), Ok("  TEST".to_string()));
    assert_eq!(<String as AsciiPack>::from_ascii(""), Ok(String::new()));
    assert_eq!("  TEST".to_string().to_ascii().unwrap(), "  TEST");
}

#[test]
fn decode_scalar_gives_the_value_of_the_type() {
    assert_eq!(decode_scalar(ScalarType::U8, "f", "012"), Ok(Value::Unsigned(12)));
    assert_eq!(decode_scalar(ScalarType::U16, "f", "65535"), Ok(Value::Unsigned(65535)));
    assert_eq!(decode_scalar(ScalarType::U32, "f", "0012"), Ok(Value::Unsigned(12)));
    assert_eq!(decode_scalar(ScalarType::U64, "f", "1697774260"), Ok(Value::Unsigned(1697774260)));
    assert_eq!(decode_scalar(ScalarType::Usize, "f", "+7"), Ok(Value::Unsigned(7)));
    assert_eq!(decode_scalar(ScalarType::I8, "f", "-128"), Ok(Value::Signed(-128)));
    assert_eq!(decode_scalar(ScalarType::I16, "f", "-1"), Ok(Value::Signed(-1)));
    assert_eq!(decode_scalar(ScalarType::I32, "f", "0042"), Ok(Value::Signed(42)));
    assert_eq!(
        decode_scalar(ScalarType::I64, "f", "-9223372036854775808"),
        Ok(Value::Signed(i64::MIN))
    );
    assert_eq!(decode_scalar(ScalarType::Isize, "f", "5"), Ok(Value::Signed(5)));
    assert_eq!(decode_scalar(ScalarType::Bool, "f", "true"), Ok(Value::Bool(true)));
    assert_eq!(decode_scalar(ScalarType::Char, "f", "R"), Ok(Value::Char('R')));
    assert_eq!(decode_scalar(ScalarType::Text, "f", "  TEST"), Ok(Value::text("  TEST")));
}

#[test]
fn decode_scalar_fails_on_what_is_no_such_scalar() {
    assert_eq!(
        decode_scalar(ScalarType::U8, "f", "256"),
        Err(malformed_in("f", "256", ParseFailure::Int(IntErrorKind::PosOverflow)))
    );
    assert_eq!(
        decode_scalar(ScalarType::U32, "f", "-1"),
        Err(malformed_in("f", "-1", ParseFailure::Int(IntErrorKind::InvalidDigit)))
    );
    assert_eq!(
        decode_scalar(ScalarType::I16, "f", "-32769"),
        Err(malformed_in("f", "-32769", ParseFailure::Int(IntErrorKind::NegOverflow)))
    );
    assert_eq!(
        decode_scalar(ScalarType::Bool, "f", "yes"),
        Err(malformed_in("f", "yes", ParseFailure::Bool))
    );
    assert_eq!(
        decode_scalar(ScalarType::Char, "f", "RR"),
        Err(malformed_in("f", "RR", ParseFailure::Char(CharErrorKind::TooManyChars)))
    );
    assert_eq!(
        decode_scalar(ScalarType::Char, "f", ""),
        Err(malformed_in("f", "", ParseFailure::Char(CharErrorKind::EmptyString)))
    );
    assert_eq!(
        decode_scalar(ScalarType::U64, "f", ""),
        Err(malformed_in("f", "", ParseFailure::Int(IntErrorKind::Empty)))
    );
}

#[test]
fn encode_scalar_gives_the_text_of_the_value() {
    assert_eq!(encode_scalar(ScalarType::U32, "n", &Value::Unsigned(12)), Ok("12".to_string()));
    assert_eq!(encode_scalar(ScalarType::U8, "n", &Value::Unsigned(255)), Ok("255".to_string()));
    assert_eq!(encode_scalar(ScalarType::I32, "n", &Value::Signed(-12)), Ok("-12".to_string()));
    assert_eq!(encode_scalar(ScalarType::Bool, "b", &Value::Bool(false)), Ok("false".to_string()));
    assert_eq!(encode_scalar(ScalarType::Char, "c", &Value::Char('c')), Ok("c".to_string()));
    assert_eq!(encode_scalar(ScalarType::Text, "t", &Value::text(" a ")), Ok(" a ".to_string()));
}

#[test]
fn encode_scalar_refuses_a_value_of_another_type() {
    let mismatch = |field: &str| AsciiPackError::Pack(PackReason::Mismatch { field: field.to_string() });
    assert_eq!(encode_scalar(ScalarType::U8, "small", &Value::Unsigned(256)), Err(mismatch("small")));
    assert_eq!(encode_scalar(ScalarType::U32, "n", &Value::Signed(1)), Err(mismatch("n")));
    assert_eq!(encode_scalar(ScalarType::I8, "n", &Value::Signed(-129)), Err(mismatch("n")));
    assert_eq!(encode_scalar(ScalarType::I8, "n", &Value::Unsigned(1)), Err(mismatch("n")));
    assert_eq!(encode_scalar(ScalarType::Text, "t", &Value::Char('c')), Err(mismatch("t")));
    assert_eq!(encode_scalar(ScalarType::Char, "c", &Value::text("c")), Err(mismatch("c")));
    assert_eq!(encode_scalar(ScalarType::Bool, "b", &Value::Unsigned(1)), Err(mismatch("b")));
    assert_eq!(encode_scalar(ScalarType::Text, "t", &Value::List(vec![])), Err(mismatch("t")));
    assert_eq!(encode_scalar(ScalarType::Text, "t", &Value::Record(vec![])), Err(mismatch("t")));
}

#[test]
fn what_is_written_reads_back() {
    for n in [0u64, 5, 10, 4096, u64::MAX] {
        let text = encode_scalar(ScalarType::U64, "n", &Value::Unsigned(n)).unwrap();
        assert_eq!(decode_scalar(ScalarType::U64, "f", &text), Ok(Value::Unsigned(n)));
    }
    for n in [i64::MIN, -10, -1, 0, 1, i64::MAX] {
        let text = encode_scalar(ScalarType::I64, "n", &Value::Signed(n)).unwrap();
        assert_eq!(decode_scalar(ScalarType::I64, "f", &text), Ok(Value::Signed(n)));
    }
}

fn colours() -> Vec<String> {
    vec!["RED".to_string(), "GREEN".to_string(), "".to_string(), "RED".to_string()]
}

#[test]
fn name_of_an_enumeration_reads_as_its_first_place() {
    assert_eq!(decode_variant(&colours(), "f", "RED"), Ok(Value::Variant(0)));
    assert_eq!(decode_variant(&colours(), "f", "GREEN"), Ok(Value::Variant(1)));
    assert_eq!(decode_variant(&colours(), "f", ""), Ok(Value::Variant(2)));
    for text in ["red", "RED ", " RED", "BLUE", "GREE"] {
        assert_eq!(
            decode_variant(&colours(), "f", text),
            Err(malformed_in("f", text, ParseFailure::Name)),
            "{:?}",
            text
        );
    }
    assert_eq!(decode_variant(&vec![], "f", ""), Err(malformed_in("f", "", ParseFailure::Name)));
    let ty = FieldType::Enumeration(colours());
    assert_eq!(decode_value(&ty, "f", "GREEN"), Ok(Value::Variant(1)));
    assert_eq!(default_value(&ty), Value::Variant(0));
}

#[test]
fn place_in_an_enumeration_is_written_as_its_name() {
    assert_eq!(encode_variant(&colours(), "c", &Value::Variant(0)), Ok("RED".to_string()));
    assert_eq!(encode_variant(&colours(), "c", &Value::Variant(1)), Ok("GREEN".to_string()));
    assert_eq!(encode_variant(&colours(), "c", &Value::Variant(3)), Ok("RED".to_string()));
    let mismatch = AsciiPackError::Pack(PackReason::Mismatch { field: "c".to_string() });
    assert_eq!(encode_variant(&colours(), "c", &Value::Variant(4)), Err(mismatch.clone()));
    assert_eq!(encode_variant(&colours(), "c", &Value::Unsigned(0)), Err(mismatch.clone()));
    assert_eq!(encode_variant(&vec![], "c", &Value::Variant(0)), Err(mismatch.clone()));
    let ty = FieldType::Enumeration(colours());
    assert_eq!(encode_value(&ty, "c", &Value::Variant(1)), Ok("GREEN".to_string()));
    assert_eq!(encode_value(&ty, "c", &Value::text("GREEN")), Err(mismatch));
}

#[test]
fn small_readers_answer_as_std_does() {
    assert_eq!(read_bool("true"), Some(true));
    assert_eq!(read_bool("false"), Some(false));
    assert_eq!(read_bool("truth"), None);
    assert_eq!(read_char("x"), Ok('x'));
    assert_eq!(read_char(""), Err(CharErrorKind::EmptyString));
    assert_eq!(read_char("xy"), Err(CharErrorKind::TooManyChars));
    for a in ["", "a", "ab", "ba", "abc"] {
        for b in ["", "a", "ab", "ba", "abc"] {
            assert_eq!(same_text(a, b), a == b);
        }
    }
}

#[test]
fn numbers_are_held_against_the_range_that_is_asked_for() {
    assert_eq!(read_unsigned("10", 10), Ok(10));
    assert_eq!(read_unsigned("11", 10), Err(IntErrorKind::PosOverflow));
    assert_eq!(read_unsigned("0", 0), Ok(0));
    assert_eq!(read_unsigned("000", 0), Ok(0));
    assert_eq!(read_unsigned("1", 0), Err(IntErrorKind::PosOverflow));
    assert_eq!(read_unsigned("1x", 0), Err(IntErrorKind::InvalidDigit));
    assert_eq!(read_unsigned("99999999999999999999x", 5), Err(IntErrorKind::InvalidDigit));
    assert_eq!(read_signed("-5", -5, 5), Ok(-5));
    assert_eq!(read_signed("-6", -5, 5), Err(IntErrorKind::NegOverflow));
    assert_eq!(read_signed("5", -5, 5), Ok(5));
    assert_eq!(read_signed("+5", -5, 5), Ok(5));
    assert_eq!(read_signed("6", -5, 5), Err(IntErrorKind::PosOverflow));
    assert_eq!(read_signed("-3", -10, -5), Err(IntErrorKind::PosOverflow));
    assert_eq!(read_signed("-7", -10, -5), Ok(-7));
    assert_eq!(read_signed("3", 5, 10), Err(IntErrorKind::NegOverflow));
    assert_eq!(read_signed("-0", 5, 10), Err(IntErrorKind::NegOverflow));
    assert_eq!(read_signed("7", 5, 10), Ok(7));
    assert_eq!(read_signed("7", 10, 5), Err(IntErrorKind::NegOverflow));
    assert_eq!(read_signed("", -5, 5), Err(IntErrorKind::Empty));
    assert_eq!(read_signed("-", -5, 5), Err(IntErrorKind::InvalidDigit));
    assert_eq!(read_signed("+", -5, 5), Err(IntErrorKind::InvalidDigit));
    assert_eq!(read_signed("+-1", -5, 5), Err(IntErrorKind::InvalidDigit));
    assert_eq!(
        read_signed("-99999999999999999999999", i64::MIN, i64::MAX),
        Err(IntErrorKind::NegOverflow)
    );
    assert_eq!(
        read_signed("99999999999999999999999", i64::MIN, i64::MAX),
        Err(IntErrorKind::PosOverflow)
    );
}

#[test]
fn failures_of_scalars_read_on_their_own_convert() {
    let e: AsciiPackError = IntErrorKind::Empty.into();
    assert_eq!(e, AsciiPackError::ParseIntError(IntErrorKind::Empty));
    assert_eq!(
        AsciiPackError::from(CharErrorKind::TooManyChars),
        AsciiPackError::ParseCharError(CharErrorKind::TooManyChars)
    );
}
