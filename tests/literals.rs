use beast::literal::{parse_integer, parse_literal};
use beast::lower::{integer_type, register};
use beast::ir::{IntegerType, Register};

#[test]
fn u8_literals() {
    assert_eq!(parse_literal("10", 0, 255), Some(10));
    assert_eq!(parse_literal("0xFF", 0, 255), Some(255));
    assert_eq!(parse_literal("0xff", 0, 255), Some(255));
    assert_eq!(parse_literal("0x100", 0, 255), None);
    assert_eq!(parse_literal("+7", 0, 255), Some(7));
    assert_eq!(parse_literal("-1", 0, 255), None);
}

#[test]
fn two_character_skip_applies_to_any_prefix() {
    // A decimal literal out of range falls back to reading its tail as hexadecimal.
    assert_eq!(parse_literal("256", 0, 255), Some(6));
    assert_eq!(parse_literal("1000", 0, 255), Some(0));
}

#[test]
fn signed_literals() {
    assert_eq!(parse_literal("-128", -128, 127), Some(-128));
    // Out of range in decimal, so the tail "29" is read as hexadecimal.
    assert_eq!(parse_literal("-129", -128, 127), Some(41));
    assert_eq!(parse_literal("0x7F", -128, 127), Some(127));
    assert_eq!(parse_literal("0x-1", -128, 127), Some(-1));
    assert_eq!(parse_literal("-32768", -32768, 32767), Some(-32768));
}

#[test]
fn empty_and_garbage_literals() {
    assert_eq!(parse_literal("", 0, 255), None);
    assert_eq!(parse_literal("x", 0, 255), None);
    assert_eq!(parse_literal("0x", 0, 255), None);
    assert_eq!(parse_literal("1g", 0, 65535), None);
    // Not decimal, so the tail "a" is read as hexadecimal.
    assert_eq!(parse_literal("12a", 0, 65535), Some(10));
}

#[test]
fn integer_parsing_bounds() {
    assert_eq!(parse_integer("65535", 10, 0, 65535), Some(65535));
    assert_eq!(parse_integer("65536", 10, 0, 65535), None);
    assert_eq!(parse_integer("99999999999999999999", 10, 0, 65535), None);
    assert_eq!(parse_integer("-2147483648", 10, -2147483648, 2147483647), Some(-2147483648));
    assert_eq!(parse_integer("FFFF", 16, 0, 65535), Some(65535));
    assert_eq!(parse_integer("+", 10, 0, 65535), None);
    assert_eq!(parse_integer("-", 10, -128, 127), None);
}

#[test]
fn type_and_register_tokens() {
    assert_eq!(integer_type("u8"), Some(IntegerType::U8));
    assert_eq!(integer_type("u16"), Some(IntegerType::U16));
    assert_eq!(integer_type("i8"), Some(IntegerType::I8));
    assert_eq!(integer_type("i16"), Some(IntegerType::I16));
    assert_eq!(integer_type("u1"), None);
    assert_eq!(register(":sp"), Some(Register::StackPtr));
    assert_eq!(register(":bp"), Some(Register::BasePtr));
    assert_eq!(register(":s"), None);
}
