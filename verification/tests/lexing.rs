use sluap::{
    is_string_block, Error, ErrorKind, Keyword, Latin1Decoded, Latin1Decoder, Lexer, Symbol,
    TokenKind, Utf8Decoder,
};

#[test]
fn test_from_bytes() {
    assert_eq!(Keyword::from_bytes(b"and"), Some(Keyword::And));
    assert_eq!(Keyword::from_bytes(b"break"), Some(Keyword::Break));
    assert_eq!(Keyword::from_bytes(b"do"), Some(Keyword::Do));
    assert_eq!(Keyword::from_bytes(b"else"), Some(Keyword::Else));
    assert_eq!(Keyword::from_bytes(b"elseif"), Some(Keyword::ElseIf));
    assert_eq!(Keyword::from_bytes(b"end"), Some(Keyword::End));
    assert_eq!(Keyword::from_bytes(b"false"), Some(Keyword::False));
    assert_eq!(Keyword::from_bytes(b"for"), Some(Keyword::For));
    assert_eq!(Keyword::from_bytes(b"function"), Some(Keyword::Function));
    assert_eq!(Keyword::from_bytes(b"if"), Some(Keyword::If));
    assert_eq!(Keyword::from_bytes(b"in"), Some(Keyword::In));
    assert_eq!(Keyword::from_bytes(b"local"), Some(Keyword::Local));
    assert_eq!(Keyword::from_bytes(b"nil"), Some(Keyword::Nil));
    assert_eq!(Keyword::from_bytes(b"not"), Some(Keyword::Not));
    assert_eq!(Keyword::from_bytes(b"or"), Some(Keyword::Or));
    assert_eq!(Keyword::from_bytes(b"repeat"), Some(Keyword::Repeat));
    assert_eq!(Keyword::from_bytes(b"return"), Some(Keyword::Return));
    assert_eq!(Keyword::from_bytes(b"then"), Some(Keyword::Then));
    assert_eq!(Keyword::from_bytes(b"true"), Some(Keyword::True));
    assert_eq!(Keyword::from_bytes(b"until"), Some(Keyword::Until));
    assert_eq!(Keyword::from_bytes(b"while"), Some(Keyword::While));
}

#[test]
fn test_from_bytes_near_misses() {
    assert_eq!(Keyword::from_bytes(b"and1"), None);
    assert_eq!(Keyword::from_bytes(b"And"), None);
    assert_eq!(Keyword::from_bytes(b""), None);
    assert_eq!(Keyword::from_bytes(b"an"), None);
    assert_eq!(Keyword::from_bytes(b"functions"), None);
}

#[test]
fn test_win1252_decode() {
    // Just check that nothing goes wrong on any byte
    for chr in 0u8..=255 {
        sluap::win1252_char_decode(chr);
    }

    assert_eq!(sluap::win1252_char_decode(0x8b), '\u{2039}');
    assert_eq!(sluap::win1252_char_decode(0x9b), '\u{203a}');
    assert_eq!(sluap::win1252_char_decode(0xfb), '\u{fb}');
    assert_eq!(sluap::win1252_char_decode(0x80), '\u{20ac}');
    assert_eq!(sluap::win1252_char_decode(b'a'), 'a');
}

#[test]
fn test_latin1_decoded() {
    let decoded = Latin1Decoded(b"a\x8bz").decoded();
    assert_eq!(decoded, vec!['a', '\u{2039}', 'z']);
}

#[test]
fn test_keywords() {
    let decoder = Latin1Decoder::new(b"and or then true");
    let mut lexer = Lexer::new(decoder);

    assert_eq!(lexer.token_kind(), Ok(TokenKind::Keyword(Keyword::And)));
    assert_eq!(lexer.token_kind(), Ok(TokenKind::Whitespace));
    assert_eq!(lexer.token_kind(), Ok(TokenKind::Keyword(Keyword::Or)));
    assert_eq!(lexer.token_kind(), Ok(TokenKind::Whitespace));
    assert_eq!(lexer.token_kind(), Ok(TokenKind::Keyword(Keyword::Then)));
    assert_eq!(lexer.token_kind(), Ok(TokenKind::Whitespace));
    assert_eq!(lexer.token_kind(), Ok(TokenKind::Keyword(Keyword::True)));
    assert_eq!(lexer.token_kind(), Ok(TokenKind::Eof));
}

#[test]
fn test_symbols() {
    let decoder = Latin1Decoder::new(b"+-*/%");
    let mut lexer = Lexer::new(decoder);

    assert_eq!(lexer.token_kind(), Ok(TokenKind::Symbol(Symbol::Plus)));
    assert_eq!(lexer.token_kind(), Ok(TokenKind::Symbol(Symbol::Minus)));
    assert_eq!(lexer.token_kind(), Ok(TokenKind::Symbol(Symbol::Times)));
    assert_eq!(lexer.token_kind(), Ok(TokenKind::Symbol(Symbol::Slash)));
    assert_eq!(lexer.token_kind(), Ok(TokenKind::Symbol(Symbol::Percent)));
    assert_eq!(lexer.token_kind(), Ok(TokenKind::Eof));
}

/// The float value a numeral span denotes, for checking scanned numerals.
fn float_of(span: &[u8]) -> f32 {
    let (value, used) = lexical_core::parse_partial::<f32>(span).expect("numeral parses");
    assert_eq!(used, span.len());
    value
}

#[test]
fn test_numbers() {
    let input: &[u8] = b"3   3.0   3.1416   314.16e-2   0.31416E1   0xff   0x56";
    let decoder = Latin1Decoder::new(input);
    let mut lexer = Lexer::new(decoder);

    let expected: [f32; 5] = [3.0, 3.0, 3.1416, 3.1416, 3.1416];
    for value in expected {
        let token = lexer.token().unwrap();
        assert_eq!(token.kind(), TokenKind::Number);
        let span = token.span();
        assert_eq!(float_of(&input[span.start..span.end]), value);
        assert_eq!(lexer.token_kind(), Ok(TokenKind::Whitespace));
    }
    assert_eq!(lexer.token_kind(), Ok(TokenKind::Hex(0xFF)));
    assert_eq!(lexer.token_kind(), Ok(TokenKind::Whitespace));
    assert_eq!(lexer.token_kind(), Ok(TokenKind::Hex(0x56)));
    assert_eq!(lexer.token_kind(), Ok(TokenKind::Eof));
}

#[test]
fn test_strings() {
    let input = r#"'Hello World!' 'Two\nLines' "double quotes""#;
    let mut lexer = Lexer::new(Utf8Decoder::new(input));

    let t = lexer.token().unwrap();
    assert_eq!(t.kind(), TokenKind::String);
    assert_eq!(&input[t.span().start..t.span().end], "'Hello World!'");

    let t = lexer.token().unwrap();
    assert_eq!(t.kind(), TokenKind::Whitespace);
    assert_eq!(&input[t.span().start..t.span().end], " ");

    let t = lexer.token().unwrap();
    assert_eq!(t.kind(), TokenKind::String);
    assert_eq!(&input[t.span().start..t.span().end], r#"'Two\nLines'"#);

    let t = lexer.token().unwrap();
    assert_eq!(t.kind(), TokenKind::Whitespace);
    assert_eq!(&input[t.span().start..t.span().end], " ");

    let t = lexer.token().unwrap();
    assert_eq!(t.kind(), TokenKind::String);
    assert_eq!(&input[t.span().start..t.span().end], r#""double quotes""#);
}

#[test]
fn test_eof_idempotent() {
    let mut lexer = Lexer::new(Latin1Decoder::new(b"#"));
    assert_eq!(lexer.token_kind(), Ok(TokenKind::Symbol(Symbol::Hash)));
    for _ in 0..5 {
        let t = lexer.token().unwrap();
        assert_eq!(t.kind(), TokenKind::Eof);
        assert_eq!(t.span().start, 1);
        assert_eq!(t.span().end, 1);
    }
}

#[test]
fn test_span_exactness() {
    let input: &[u8] = b"local x = 42 -- init\nwhile x do x = x - 1 end";
    let mut lexer = Lexer::new(Latin1Decoder::new(input));
    let mut concat: Vec<u8> = Vec::new();
    loop {
        let token = lexer.token().unwrap();
        if token.kind() == TokenKind::Eof {
            break;
        }
        concat.extend_from_slice(&input[token.span().start..token.span().end]);
    }
    assert_eq!(concat, input);
}

#[test]
fn test_whitespace_maximality() {
    let mut lexer = Lexer::new(Latin1Decoder::new(b"   "));
    let t = lexer.token().unwrap();
    assert_eq!(t.kind(), TokenKind::Whitespace);
    assert_eq!(t.span().start, 0);
    assert_eq!(t.span().end, 3);
    assert_eq!(lexer.token_kind(), Ok(TokenKind::Eof));
}

#[test]
fn test_keyword_name_boundary() {
    let mut lexer = Lexer::new(Latin1Decoder::new(b"and1"));
    let t = lexer.token().unwrap();
    assert_eq!(t.kind(), TokenKind::Name);
    assert_eq!(t.span().start, 0);
    assert_eq!(t.span().end, 4);
    assert_eq!(lexer.token_kind(), Ok(TokenKind::Eof));
}

#[test]
fn test_underscore_name() {
    let mut lexer = Lexer::new(Latin1Decoder::new(b"_tmp"));
    let t = lexer.token().unwrap();
    assert_eq!(t.kind(), TokenKind::Name);
    assert_eq!(t.span().end, 4);
}

#[test]
fn test_operator_longest_match() {
    let mut lexer = Lexer::new(Latin1Decoder::new(b"..."));
    assert_eq!(lexer.token_kind(), Ok(TokenKind::Symbol(Symbol::Dot3)));
    assert_eq!(lexer.token_kind(), Ok(TokenKind::Eof));

    let mut lexer = Lexer::new(Latin1Decoder::new(b"=="));
    assert_eq!(lexer.token_kind(), Ok(TokenKind::Symbol(Symbol::Eq)));
    assert_eq!(lexer.token_kind(), Ok(TokenKind::Eof));

    let mut lexer = Lexer::new(Latin1Decoder::new(b"..<=>=~="));
    assert_eq!(lexer.token_kind(), Ok(TokenKind::Symbol(Symbol::Dot2)));
    assert_eq!(lexer.token_kind(), Ok(TokenKind::Symbol(Symbol::LtEq)));
    assert_eq!(lexer.token_kind(), Ok(TokenKind::Symbol(Symbol::GtEq)));
    assert_eq!(lexer.token_kind(), Ok(TokenKind::Symbol(Symbol::NotEq)));
    assert_eq!(lexer.token_kind(), Ok(TokenKind::Eof));
}

#[test]
fn test_hex_literal() {
    let mut lexer = Lexer::new(Latin1Decoder::new(b"0xff"));
    assert_eq!(lexer.token_kind(), Ok(TokenKind::Hex(0xFF)));
    assert_eq!(lexer.token_kind(), Ok(TokenKind::Eof));
}

#[test]
fn test_float_family() {
    for text in ["3.1416", "314.16e-2", "0.31416E1"] {
        let mut lexer = Lexer::new(Utf8Decoder::new(text));
        let t = lexer.token().unwrap();
        assert_eq!(t.kind(), TokenKind::Number);
        assert_eq!(t.span().start, 0);
        assert_eq!(t.span().end, text.len());
        let value = float_of(text.as_bytes());
        assert!((value - 3.1416f32).abs() < 1e-5);
        assert_eq!(lexer.token_kind(), Ok(TokenKind::Eof));
    }
}

#[test]
fn test_line_comment_boundary() {
    let input: &[u8] = b"-- comment\nand";
    let mut lexer = Lexer::new(Latin1Decoder::new(input));
    let t = lexer.token().unwrap();
    assert_eq!(t.kind(), TokenKind::Comment);
    assert_eq!(&input[t.span().start..t.span().end], b"-- comment");
    assert_eq!(lexer.token_kind(), Ok(TokenKind::Whitespace));
    assert_eq!(lexer.token_kind(), Ok(TokenKind::Keyword(Keyword::And)));
    assert_eq!(lexer.token_kind(), Ok(TokenKind::Eof));
}

#[test]
fn test_block_comment_nesting() {
    let input: &[u8] = b"--[==[ inner ]=] still inside ]==]";
    let mut lexer = Lexer::new(Latin1Decoder::new(input));
    let t = lexer.token().unwrap();
    assert_eq!(t.kind(), TokenKind::Comment);
    assert_eq!(t.span().start, 0);
    assert_eq!(t.span().end, input.len());
    assert_eq!(lexer.token_kind(), Ok(TokenKind::Eof));
}

#[test]
fn test_block_comment_level_zero() {
    let input: &[u8] = b"--[[ one ]] and";
    let mut lexer = Lexer::new(Latin1Decoder::new(input));
    let t = lexer.token().unwrap();
    assert_eq!(t.kind(), TokenKind::Comment);
    assert_eq!(&input[t.span().start..t.span().end], b"--[[ one ]]");
    assert_eq!(lexer.token_kind(), Ok(TokenKind::Whitespace));
    assert_eq!(lexer.token_kind(), Ok(TokenKind::Keyword(Keyword::And)));
}

#[test]
fn test_string_with_escape() {
    let input: &[u8] = b"'Two\\nLines'";
    let mut lexer = Lexer::new(Latin1Decoder::new(input));
    let t = lexer.token().unwrap();
    assert_eq!(t.kind(), TokenKind::String);
    assert_eq!(t.span().start, 0);
    assert_eq!(t.span().end, input.len());
    assert_eq!(lexer.token_kind(), Ok(TokenKind::Eof));
}

#[test]
fn test_unterminated_string() {
    let mut lexer = Lexer::new(Latin1Decoder::new(b"'abc"));
    assert_eq!(
        lexer.token_kind(),
        Err(Error { kind: ErrorKind::UnterminatedString })
    );
}

#[test]
fn test_invalid_escape() {
    let mut lexer = Lexer::new(Latin1Decoder::new(b"'a\\qb'"));
    assert_eq!(
        lexer.token_kind(),
        Err(Error { kind: ErrorKind::InvalidEscape })
    );
    // a decimal-digit escape is rejected as well
    let mut lexer = Lexer::new(Latin1Decoder::new(b"'a\\65b'"));
    assert_eq!(
        lexer.token_kind(),
        Err(Error { kind: ErrorKind::InvalidEscape })
    );
}

#[test]
fn test_unterminated_block_comment() {
    let mut lexer = Lexer::new(Latin1Decoder::new(b"--[=[ never closed ]]"));
    assert_eq!(
        lexer.token_kind(),
        Err(Error { kind: ErrorKind::UnterminatedComment })
    );
}

#[test]
fn test_malformed_numbers() {
    // no digits after the x
    let mut lexer = Lexer::new(Latin1Decoder::new(b"0x"));
    assert_eq!(
        lexer.token_kind(),
        Err(Error { kind: ErrorKind::MalformedNumber })
    );
    // more than 32 bits
    let mut lexer = Lexer::new(Latin1Decoder::new(b"0xfffffffff"));
    assert_eq!(
        lexer.token_kind(),
        Err(Error { kind: ErrorKind::MalformedNumber })
    );
    // leading zeros do not overflow
    let mut lexer = Lexer::new(Latin1Decoder::new(b"0x000000001"));
    assert_eq!(lexer.token_kind(), Ok(TokenKind::Hex(1)));
}

#[test]
fn test_unrecognized() {
    let mut lexer = Lexer::new(Latin1Decoder::new(b"~~"));
    assert_eq!(
        lexer.token_kind(),
        Err(Error { kind: ErrorKind::Unrecognized })
    );
    let mut lexer = Lexer::new(Latin1Decoder::new(b"\x01"));
    assert_eq!(
        lexer.token_kind(),
        Err(Error { kind: ErrorKind::Unrecognized })
    );
}

#[test]
fn test_long_bracket_rejected() {
    let mut lexer = Lexer::new(Latin1Decoder::new(b"[[text]]"));
    assert_eq!(
        lexer.token_kind(),
        Err(Error { kind: ErrorKind::LongBracket })
    );
    let mut lexer = Lexer::new(Latin1Decoder::new(b"[a]"));
    assert_eq!(lexer.token_kind(), Ok(TokenKind::Symbol(Symbol::BracketL)));
    assert_eq!(lexer.token_kind(), Ok(TokenKind::Name));
    assert_eq!(lexer.token_kind(), Ok(TokenKind::Symbol(Symbol::BracketR)));
}

#[test]
fn test_is_string_block() {
    let decoder = Latin1Decoder::new(b"[==[ body");
    assert_eq!(is_string_block(&decoder), Some((2, 4)));
    let decoder = Latin1Decoder::new(b"[== nope");
    assert_eq!(is_string_block(&decoder), None);
    let decoder = Latin1Decoder::new(b"x");
    assert_eq!(is_string_block(&decoder), None);
}

#[test]
fn test_decoder_equivalence_ascii() {
    let text = "local x = 0x2a -- the answer\nwhile x do x = x - 1 end ... 'str\\n' \"q\"";
    let mut latin = Lexer::new(Latin1Decoder::new(text.as_bytes()));
    let mut utf = Lexer::new(Utf8Decoder::new(text));
    loop {
        let a = latin.token();
        let b = utf.token();
        assert_eq!(a, b);
        match a {
            Ok(t) => {
                if t.kind() == TokenKind::Eof {
                    break;
                }
            }
            Err(_) => break,
        }
    }
}

#[test]
fn test_utf8_name() {
    // a non-ASCII identifier is a Name, never a keyword
    let text = "δ and";
    let mut lexer = Lexer::new(Utf8Decoder::new(text));
    let t = lexer.token().unwrap();
    assert_eq!(t.kind(), TokenKind::Name);
    // spans count characters, not bytes, under the Unicode decoder
    assert_eq!(t.span().start, 0);
    assert_eq!(t.span().end, 1);
    assert_eq!(lexer.token_kind(), Ok(TokenKind::Whitespace));
    assert_eq!(lexer.token_kind(), Ok(TokenKind::Keyword(Keyword::And)));
}

#[test]
fn test_numeral_edges() {
    // a trailing period belongs to the numeral, an empty exponent does not
    let input: &[u8] = b"3.";
    let mut lexer = Lexer::new(Latin1Decoder::new(input));
    let t = lexer.token().unwrap();
    assert_eq!(t.kind(), TokenKind::Number);
    assert_eq!(t.span().end, 2);
    assert_eq!(lexer.token_kind(), Ok(TokenKind::Eof));

    let input: &[u8] = b"1e";
    let mut lexer = Lexer::new(Latin1Decoder::new(input));
    let t = lexer.token().unwrap();
    assert_eq!(t.kind(), TokenKind::Number);
    assert_eq!(t.span().end, 1);
    assert_eq!(lexer.token_kind(), Ok(TokenKind::Name));
    assert_eq!(lexer.token_kind(), Ok(TokenKind::Eof));

    let input: &[u8] = b"1e+5";
    let mut lexer = Lexer::new(Latin1Decoder::new(input));
    let t = lexer.token().unwrap();
    assert_eq!(t.kind(), TokenKind::Number);
    assert_eq!(t.span().end, 4);
    assert_eq!(lexer.token_kind(), Ok(TokenKind::Eof));

    // hexadecimal mode is committed by the x after any leading digit
    let mut lexer = Lexer::new(Latin1Decoder::new(b"3x12"));
    assert_eq!(lexer.token_kind(), Ok(TokenKind::Hex(0x12)));
    assert_eq!(lexer.token_kind(), Ok(TokenKind::Eof));
}
