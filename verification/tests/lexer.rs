use runec::lexer::Lexer;
use runec::token::Kind;

#[test]
fn tokens_carry_kind_text_and_position() {
    let mut lexer = Lexer::new("foo 12\n\"a\" 0x10 1_2_3_4_5", "t.rs2");
    let toks = lexer.tokenize().unwrap();
    let got: Vec<(Kind, String, usize, usize)> =
        toks.iter().map(|t| (t.kind, t.value.clone(), t.line, t.column)).collect();
    assert_eq!(
        got,
        vec![
            (Kind::Identifier, "foo".to_string(), 1, 1),
            (Kind::Number, "12".to_string(), 1, 5),
            (Kind::StringLiteral, "a".to_string(), 2, 1),
            (Kind::Number, "16".to_string(), 2, 5),
            (Kind::CoordLiteral, "1_2_3_4_5".to_string(), 2, 10),
            (Kind::EndOfFile, "EOF".to_string(), 2, 19),
        ]
    );
}

#[test]
fn nested_comment_text_and_unterminated_comment() {
    let mut lexer = Lexer::new("/* a /* b */ c */x", "t.rs2");
    let toks = lexer.tokenize().unwrap();
    assert_eq!(toks[0].kind, Kind::MultiLineComment);
    assert_eq!(toks[0].value, " a /* b */ c ");
    assert_eq!(toks[1].value, "x");
    let mut bad = Lexer::new("x /* open", "t.rs2");
    let e = bad.tokenize().unwrap_err();
    assert_eq!(e.message, "Unterminated multi-line comment");
    assert_eq!((e.line, e.position), (1, 3));
}
