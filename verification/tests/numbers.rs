use lua_lexer::lexer::tokenize;
use lua_lexer::token::{TokenType, TokenValue};
use lua_lexer::tokenizer::Tokenizer;

fn first(input: &[u8]) -> (TokenType, TokenValue, usize) {
    let tokens = tokenize(input);
    (tokens[0].kind, tokens[0].value.clone(), tokens[0].end)
}

fn int_of(input: &[u8]) -> i64 {
    match first(input) {
        (TokenType::Int, TokenValue::Int(n), end) => {
            assert_eq!(end, input.len());
            n
        }
        other => panic!("not an integer: {:?}", other),
    }
}

fn float_text(s: &str) -> TokenValue {
    TokenValue::Float(s.as_bytes().to_vec())
}

#[test]
fn decimal_integers() {
    assert_eq!(int_of(b"0"), 0);
    assert_eq!(int_of(b"7"), 7);
    assert_eq!(int_of(b"007"), 7);
    assert_eq!(int_of(b"42"), 42);
    assert_eq!(int_of(b"1234567890"), 1234567890);
    assert_eq!(int_of(b"9223372036854775807"), i64::MAX);
    assert_eq!(int_of(b"0000000000000000000000000000009"), 9);
}

#[test]
fn decimal_integer_too_large_is_float() {
    assert_eq!(
        first(b"9223372036854775808"),
        (TokenType::Float, float_text("9223372036854775808"), 19)
    );
    assert_eq!(
        first(b"99999999999999999999999"),
        (TokenType::Float, float_text("99999999999999999999999"), 23)
    );
}

#[test]
fn hex_integers() {
    assert_eq!(int_of(b"0x1A"), 26);
    assert_eq!(int_of(b"0X1a"), 26);
    assert_eq!(int_of(b"0xff"), 255);
    assert_eq!(int_of(b"0XFF"), 255);
    assert_eq!(int_of(b"0x0"), 0);
    assert_eq!(int_of(b"0xDEADbeef"), 3735928559);
    assert_eq!(int_of(b"0x1e5"), 0x1e5);
    assert_eq!(int_of(b"0x7FFFFFFFFFFFFFFF"), i64::MAX);
}

#[test]
fn hex_prefix_alone_is_zero() {
    assert_eq!(int_of(b"0x"), 0);
    assert_eq!(int_of(b"0X"), 0);
    assert_eq!(first(b"0xg"), (TokenType::Int, TokenValue::Int(0), 2));
}

#[test]
fn hex_keeps_the_low_64_bits() {
    assert_eq!(int_of(b"0x8000000000000000"), i64::MIN);
    assert_eq!(int_of(b"0xFFFFFFFFFFFFFFFF"), -1);
    assert_eq!(int_of(b"0x10000000000000000"), 0);
    assert_eq!(int_of(b"0x1FFFFFFFFFFFFFFFF"), -1);
    assert_eq!(int_of(b"0x123456789ABCDEF0123"), 0x456789ABCDEF0123);
    assert_eq!(int_of(b"0xFFFFFFFFFFFFFFFFFFFFFFFFFFFFFFFE"), -2);
}

#[test]
fn hex_stops_at_the_first_byte_that_is_no_hex_digit() {
    assert_eq!(first(b"0x1G"), (TokenType::Int, TokenValue::Int(1), 3));
    assert_eq!(first(b"0x1.5"), (TokenType::Int, TokenValue::Int(1), 3));
    assert_eq!(first(b"0xAp3"), (TokenType::Int, TokenValue::Int(10), 3));
}

#[test]
fn floats() {
    for s in ["1.5", "1.", "1.e3", "1e5", "1E5", "1e-5", "1e+5", "0.0", "10E+4", "3.1415"] {
        assert_eq!(first(s.as_bytes()), (TokenType::Float, float_text(s), s.len()), "{}", s);
    }
    for s in [".5", ".52", ".5e3", ".0"] {
        assert_eq!(first(s.as_bytes()), (TokenType::Float, float_text(s), s.len()), "{}", s);
    }
}

#[test]
fn exponent_without_digits_is_unidentified() {
    assert_eq!(first(b"1e"), (TokenType::Unidentified, TokenValue::Absent, 2));
    assert_eq!(first(b"1e+"), (TokenType::Unidentified, TokenValue::Absent, 3));
    assert_eq!(first(b"1e-"), (TokenType::Unidentified, TokenValue::Absent, 3));
    assert_eq!(first(b"1.e"), (TokenType::Unidentified, TokenValue::Absent, 3));
    assert_eq!(first(b"1.5E"), (TokenType::Unidentified, TokenValue::Absent, 4));
    assert_eq!(first(b"1ex"), (TokenType::Unidentified, TokenValue::Absent, 2));
    let tokens = tokenize(b"1e+ 2");
    assert_eq!(
        tokens.iter().map(|t| t.kind).collect::<Vec<_>>(),
        vec![TokenType::Unidentified, TokenType::Whitespace, TokenType::Int, TokenType::Eof]
    );
}

#[test]
fn one_dot_and_one_exponent_at_most() {
    let tokens = tokenize(b"1..2");
    assert_eq!(tokens[0].value, float_text("1."));
    assert_eq!(tokens[1].value, float_text(".2"));
    assert_eq!(tokens.len(), 3);

    let tokens = tokenize(b"1.2.3");
    assert_eq!(tokens[0].value, float_text("1.2"));
    assert_eq!(tokens[1].value, float_text(".3"));
    assert_eq!(tokens.len(), 3);

    let tokens = tokenize(b"1e5e6");
    assert_eq!(tokens[0].value, float_text("1e5"));
    assert_eq!(tokens[1].kind, TokenType::Identifier);
    assert_eq!(tokens[1].value, TokenValue::Str(b"e6".to_vec()));

    let tokens = tokenize(b"1e5.5");
    assert_eq!(tokens[0].value, float_text("1e5"));
    assert_eq!(tokens[1].value, float_text(".5"));

    let tokens = tokenize(b"12abc");
    assert_eq!(tokens[0].value, TokenValue::Int(12));
    assert_eq!(tokens[1].value, TokenValue::Str(b"abc".to_vec()));
}

#[test]
fn read_digit_moves_the_cursor_to_the_end_of_the_literal() {
    let mut t = Tokenizer::new(b"123+4");
    assert_eq!(t.read_digit(), (TokenType::Int, TokenValue::Int(123)));
    assert_eq!(t.position(), 3);

    let mut t = Tokenizer::new(b".5)");
    assert_eq!(t.read_digit(), (TokenType::Float, float_text(".5")));
    assert_eq!(t.position(), 2);

    let mut t = Tokenizer::new(b"0xfg");
    assert_eq!(t.read_digit(), (TokenType::Int, TokenValue::Int(15)));
    assert_eq!(t.position(), 3);
}

#[test]
fn read_digit_where_no_number_starts() {
    let mut t = Tokenizer::new(b"x1");
    assert_eq!(t.read_digit(), (TokenType::Unidentified, TokenValue::Absent));
    assert_eq!(t.position(), 0);

    let mut t = Tokenizer::new(b"");
    assert_eq!(t.read_digit(), (TokenType::Unidentified, TokenValue::Absent));
    assert_eq!(t.position(), 0);

    let mut t = Tokenizer::new(b".x");
    assert_eq!(t.read_digit(), (TokenType::Unidentified, TokenValue::Absent));
    assert_eq!(t.position(), 1);
}

#[test]
fn string_to_int_agrees_with_the_standard_parser() {
    let cases = [
        "", "0", "1", "-1", "+1", "-", "+", "--1", "+-1", "007", "-007", "12a", "a12", " 1", "1 ",
        "1_000", "1.0", "1e3", "9223372036854775807", "9223372036854775808",
        "-9223372036854775808", "-9223372036854775809", "+9223372036854775807",
        "+9223372036854775808", "18446744073709551616", "-18446744073709551616",
        "000000000000000000000000000000000000001", "-0", "+0", "99999999999999999999999999",
        "9223372036854775810", "922337203685477580", "92233720368547758070",
        "1844674407370955161", "18446744073709551615", "18446744073709551620",
    ];
    for s in cases {
        let expected = s.parse::<i64>().ok().map(TokenValue::Int);
        assert_eq!(Tokenizer::string_to_int(s.as_bytes()), expected, "{:?}", s);
    }
}

#[test]
fn string_to_int_reads_hex_after_a_prefix() {
    assert_eq!(Tokenizer::string_to_int(b"0x1A"), Some(TokenValue::Int(26)));
    assert_eq!(Tokenizer::string_to_int(b"0X1A"), Some(TokenValue::Int(26)));
    assert_eq!(Tokenizer::string_to_int(b"0x"), Some(TokenValue::Int(0)));
    assert_eq!(Tokenizer::string_to_int(b"0xffffffffffffffff"), Some(TokenValue::Int(-1)));
    assert_eq!(Tokenizer::string_to_int(b"0x1z"), Some(TokenValue::Int(16)));
    assert_eq!(Tokenizer::string_to_int(b"x1"), None);
    assert_eq!(Tokenizer::string_to_int(b"-0x1"), None);
}

#[test]
fn string_to_float_accepts_what_the_standard_parser_accepts() {
    let cases = [
        "", ".", "+", "-", "1", "+1", "-1", "1.", ".1", "1.1", "1e1", "1e", "1e+", "1e-", "1e+1",
        "1E-1", ".e1", "1.e1", "e1", "1e1.5", " 1", "1 ", "1_0", "1e1e1", "+.5", "-.5e-10", "++1",
        "1..", "..1", "0x10", "1.5.5", "3.1415", ".52", "10E+4", "1e999999999999999999999",
        "1e-999999999999999999999", "0000.0000", "-0", "+-1", "1e++1", "1f", "1.0f", "1e1 ",
        "123456789012345678901234567890.123456789012345678901234567890e12", "5.", "+5.e5", "-.e5",
        "+.", "-.", "+e5", ".5.", "\u{0}1",
    ];
    for s in cases {
        let expected = if s.parse::<f64>().is_ok() {
            Some(TokenValue::Float(s.as_bytes().to_vec()))
        } else {
            None
        };
        assert_eq!(Tokenizer::string_to_float(s.as_bytes()), expected, "{:?}", s);
    }
}

#[test]
fn string_to_float_takes_no_names_and_no_bytes_outside_ascii() {
    for s in ["inf", "-inf", "+infinity", "nan", "NaN"] {
        assert_eq!(Tokenizer::string_to_float(s.as_bytes()), None, "{:?}", s);
    }
    assert_eq!(Tokenizer::string_to_float(&[b'1', 0xFF]), None);
    assert_eq!(Tokenizer::string_to_float(&[0x03]), None);
}

#[test]
fn string_to_number_tries_integer_then_float() {
    assert_eq!(Tokenizer::string_to_number(b"12"), (TokenType::Int, TokenValue::Int(12)));
    assert_eq!(Tokenizer::string_to_number(b"-12"), (TokenType::Int, TokenValue::Int(-12)));
    assert_eq!(Tokenizer::string_to_number(b"0x10"), (TokenType::Int, TokenValue::Int(16)));
    assert_eq!(Tokenizer::string_to_number(b"12.0"), (TokenType::Float, float_text("12.0")));
    assert_eq!(
        Tokenizer::string_to_number(b"9223372036854775808"),
        (TokenType::Float, float_text("9223372036854775808"))
    );
    assert_eq!(
        Tokenizer::string_to_number(b"12x"),
        (TokenType::Unidentified, TokenValue::Absent)
    );
    assert_eq!(Tokenizer::string_to_number(b""), (TokenType::Unidentified, TokenValue::Absent));
}
