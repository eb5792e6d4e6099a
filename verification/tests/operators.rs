use lua_lexer::lexer::tokenize;
use lua_lexer::token::{TokenType, TokenValue};

fn kinds_of(input: &[u8]) -> Vec<TokenType> {
    tokenize(input).iter().map(|t| t.kind).collect()
}

fn spans_of(input: &[u8]) -> Vec<(usize, usize)> {
    tokenize(input).iter().map(|t| (t.start, t.end)).collect()
}

#[test]
fn empty_input_is_only_eof() {
    let tokens = tokenize(b"");
    assert_eq!(tokens.len(), 1);
    assert_eq!(tokens[0].kind, TokenType::Eof);
    assert_eq!(tokens[0].value, TokenValue::Absent);
    assert_eq!((tokens[0].start, tokens[0].end), (0, 0));
}

#[test]
fn greater_family() {
    assert_eq!(kinds_of(b">="), vec![TokenType::GreaterOrEqual, TokenType::Eof]);
    assert_eq!(kinds_of(b">>"), vec![TokenType::ShiftRight, TokenType::Eof]);
    assert_eq!(kinds_of(b">"), vec![TokenType::Greater, TokenType::Eof]);
    assert_eq!(kinds_of(b">x"), vec![TokenType::Greater, TokenType::Identifier, TokenType::Eof]);
    assert_eq!(spans_of(b">>="), vec![(0, 2), (2, 3), (3, 3)]);
    assert_eq!(kinds_of(b">>="), vec![TokenType::ShiftRight, TokenType::Assign, TokenType::Eof]);
}

#[test]
fn less_family() {
    assert_eq!(kinds_of(b"<="), vec![TokenType::LessOrEqual, TokenType::Eof]);
    assert_eq!(kinds_of(b"<<"), vec![TokenType::ShiftLeft, TokenType::Eof]);
    assert_eq!(kinds_of(b"<"), vec![TokenType::Less, TokenType::Eof]);
}

#[test]
fn dots_longest_match_first() {
    assert_eq!(kinds_of(b"..."), vec![TokenType::Dots, TokenType::Eof]);
    assert_eq!(kinds_of(b".."), vec![TokenType::Concat, TokenType::Eof]);
    assert_eq!(kinds_of(b"."), vec![TokenType::Attr, TokenType::Eof]);
    assert_eq!(kinds_of(b"...."), vec![TokenType::Dots, TokenType::Attr, TokenType::Eof]);
    assert_eq!(kinds_of(b"....."), vec![TokenType::Dots, TokenType::Concat, TokenType::Eof]);
    assert_eq!(kinds_of(b".x"), vec![TokenType::Attr, TokenType::Identifier, TokenType::Eof]);
    assert_eq!(spans_of(b"a...b"), vec![(0, 1), (1, 4), (4, 5), (5, 5)]);
}

#[test]
fn double_equals_is_concat() {
    assert_eq!(kinds_of(b"=="), vec![TokenType::Concat, TokenType::Eof]);
    assert_eq!(kinds_of(b"="), vec![TokenType::Assign, TokenType::Eof]);
    assert_eq!(kinds_of(b"==="), vec![TokenType::Concat, TokenType::Assign, TokenType::Eof]);
    assert!(!kinds_of(b"a == b = c === d").contains(&TokenType::Equal));
}

#[test]
fn tilde_and_colon_families() {
    assert_eq!(kinds_of(b"~="), vec![TokenType::NotEqual, TokenType::Eof]);
    assert_eq!(kinds_of(b"~"), vec![TokenType::BXor, TokenType::Eof]);
    assert_eq!(kinds_of(b"::"), vec![TokenType::DoubleColon, TokenType::Eof]);
    assert_eq!(kinds_of(b":"), vec![TokenType::Colon, TokenType::Eof]);
    assert_eq!(kinds_of(b":::"), vec![TokenType::DoubleColon, TokenType::Colon, TokenType::Eof]);
}

#[test]
fn brackets_and_minus() {
    assert_eq!(kinds_of(b"["), vec![TokenType::LeftSquareBracket, TokenType::Eof]);
    assert_eq!(
        kinds_of(b"[x]"),
        vec![
            TokenType::LeftSquareBracket,
            TokenType::Identifier,
            TokenType::RightSquareBracket,
            TokenType::Eof
        ]
    );
    assert_eq!(kinds_of(b"-"), vec![TokenType::Minus, TokenType::Eof]);
    assert_eq!(
        kinds_of(b"- -"),
        vec![TokenType::Minus, TokenType::Whitespace, TokenType::Minus, TokenType::Eof]
    );
    assert_eq!(
        kinds_of(b"1-2"),
        vec![TokenType::Int, TokenType::Minus, TokenType::Int, TokenType::Eof]
    );
}

#[test]
fn single_byte_punctuation() {
    let table: [(u8, TokenType); 15] = [
        (b';', TokenType::Semicolon),
        (b',', TokenType::Comma),
        (b'&', TokenType::BAnd),
        (b'|', TokenType::BOr),
        (b'(', TokenType::LeftParenthesis),
        (b')', TokenType::RightParenthesis),
        (b']', TokenType::RightSquareBracket),
        (b'{', TokenType::LeftCurlyBracket),
        (b'}', TokenType::RightCurlyBracket),
        (b'+', TokenType::Add),
        (b'*', TokenType::Mul),
        (b'/', TokenType::Div),
        (b'%', TokenType::Mod),
        (b'^', TokenType::Pow),
        (b'#', TokenType::Len),
    ];
    for (byte, kind) in table {
        let tokens = tokenize(&[byte]);
        assert_eq!(tokens.len(), 2);
        assert_eq!(tokens[0].kind, kind);
        assert_eq!(tokens[0].value, TokenValue::Absent);
        assert_eq!((tokens[0].start, tokens[0].end), (0, 1));
    }
}

#[test]
fn whitespace_bytes() {
    for byte in [b' ', b'\t', 0x0B, 0x0C] {
        assert_eq!(kinds_of(&[byte]), vec![TokenType::Whitespace, TokenType::Eof]);
    }
    assert_eq!(spans_of(b"  x"), vec![(0, 1), (1, 2), (2, 3), (3, 3)]);
}

#[test]
fn escape_class_bytes_are_whitespace() {
    for byte in [b'\n', b'\r', b'\t', b'\\', 0x00, 0x7F] {
        let tokens = tokenize(&[byte, b'x']);
        assert_eq!(tokens[0].kind, TokenType::Whitespace);
        assert_eq!((tokens[0].start, tokens[0].end), (0, 1));
        assert_eq!(tokens[1].kind, TokenType::Identifier);
    }
}

#[test]
fn capital_a_is_a_letter() {
    let tokens = tokenize(b"A");
    assert_eq!(tokens[0].kind, TokenType::Identifier);
    assert_eq!(tokens[0].value, TokenValue::Str(b"A".to_vec()));
}

#[test]
fn unidentified_bytes_are_consumed_one_by_one() {
    for byte in [b'@', b'$', b'!', b'?', b'`', 0x80, 0xFF, 0x01, 0x03] {
        let tokens = tokenize(&[byte, byte]);
        assert_eq!(
            tokens.iter().map(|t| t.kind).collect::<Vec<_>>(),
            vec![TokenType::Unidentified, TokenType::Unidentified, TokenType::Eof]
        );
        assert_eq!(tokens[0].value, TokenValue::Absent);
        assert_eq!((tokens[0].start, tokens[0].end), (0, 1));
        assert_eq!((tokens[1].start, tokens[1].end), (1, 2));
    }
}

#[test]
fn identifiers_are_maximal_runs() {
    let tokens = tokenize(b"_x1 x_y2z _ a1");
    let words: Vec<TokenValue> = tokens
        .iter()
        .filter(|t| t.kind == TokenType::Identifier)
        .map(|t| t.value.clone())
        .collect();
    assert_eq!(
        words,
        vec![
            TokenValue::Str(b"_x1".to_vec()),
            TokenValue::Str(b"x_y2z".to_vec()),
            TokenValue::Str(b"_".to_vec()),
            TokenValue::Str(b"a1".to_vec()),
        ]
    );
    assert_eq!(kinds_of(b"1a"), vec![TokenType::Int, TokenType::Identifier, TokenType::Eof]);
}

#[test]
fn every_keyword() {
    let table: [(&str, TokenType); 22] = [
        ("and", TokenType::And),
        ("goto", TokenType::Goto),
        ("function", TokenType::Function),
        ("end", TokenType::End),
        ("false", TokenType::False),
        ("for", TokenType::For),
        ("else", TokenType::Else),
        ("elseif", TokenType::ElseIf),
        ("do", TokenType::Do),
        ("break", TokenType::Break),
        ("local", TokenType::Local),
        ("if", TokenType::If),
        ("in", TokenType::In),
        ("nil", TokenType::Nil),
        ("not", TokenType::Not),
        ("repeat", TokenType::Repeat),
        ("or", TokenType::Or),
        ("then", TokenType::Then),
        ("true", TokenType::True),
        ("while", TokenType::While),
        ("until", TokenType::Until),
        ("return", TokenType::Return),
    ];
    for (word, kind) in table {
        assert_eq!(TokenType::convert_to_token_type(word), Some(kind));
        assert_eq!(TokenType::keyword_from_bytes(word.as_bytes()), Some(kind));
        let tokens = tokenize(word.as_bytes());
        assert_eq!(tokens.len(), 2);
        assert_eq!(tokens[0].kind, kind);
        assert_eq!(tokens[0].value, TokenValue::Absent);
        assert_eq!((tokens[0].start, tokens[0].end), (0, word.len()));

        let longer = format!("{}x", word);
        assert_eq!(TokenType::convert_to_token_type(&longer), None);
        assert_eq!(tokenize(longer.as_bytes())[0].kind, TokenType::Identifier);
        let shorter = &word[..word.len() - 1];
        if !table.iter().any(|(w, _)| *w == shorter) {
            assert_eq!(TokenType::convert_to_token_type(shorter), None);
        }
    }
}

#[test]
fn keywords_match_exactly() {
    assert_eq!(TokenType::convert_to_token_type(""), None);
    assert_eq!(TokenType::convert_to_token_type("And"), None);
    assert_eq!(TokenType::convert_to_token_type("AND"), None);
    assert_eq!(TokenType::convert_to_token_type(" and"), None);
    assert_eq!(TokenType::convert_to_token_type("end_"), None);
    assert_eq!(TokenType::convert_to_token_type("elseifx"), None);
    assert_eq!(TokenType::convert_to_token_type("\u{e9}nd"), None);
    assert_eq!(kinds_of(b"And"), vec![TokenType::Identifier, TokenType::Eof]);
    assert_eq!(
        kinds_of(b"else elseif"),
        vec![TokenType::Else, TokenType::Whitespace, TokenType::ElseIf, TokenType::Eof]
    );
}
