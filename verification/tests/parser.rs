use runec::lexer::Lexer;
use runec::parser::Parser;
use runec::pointer::PointerType;
use runec::types::Type;

fn parse_text(text: &str) -> Result<runec::parser::ScriptFile, runec::error::SyntaxError> {
    let mut lexer = Lexer::new(text, "a.rs2");
    let tokens = match lexer.tokenize() {
        Ok(t) => t,
        Err(_) => panic!("lexing failed"),
    };
    let mut parser = Parser::new(tokens, "a.rs2");
    parser.parse()
}

#[test]
fn declarations_without_bodies_parse_in_order() {
    let file = match parse_text("[proc,first]\n[label,second]{}\n[proc,third](int $x)(string)\n") {
        Ok(f) => f,
        Err(_) => panic!("expected a parsed file"),
    };
    assert_eq!(file.scripts.len(), 3);
    assert_eq!(file.scripts[0].trigger, "proc");
    assert_eq!(file.scripts[0].name, "first");
    assert_eq!(file.scripts[1].trigger, "label");
    assert_eq!(file.scripts[1].name, "second");
    assert_eq!(file.scripts[2].name, "third");
    assert_eq!(file.scripts[2].params.len(), 1);
    assert_eq!(file.scripts[2].params[0].name, "x");
    assert_eq!(file.scripts[2].params[0].param_type, Type::Int);
    assert_eq!(file.scripts[2].return_types, vec![Type::String]);
    assert_eq!(file.scripts[2].line, 3);
    assert!(file.scripts.iter().all(|s| s.body.is_empty()));
}

#[test]
fn empty_file_parses_to_no_scripts() {
    match parse_text("") {
        Ok(f) => assert!(f.scripts.is_empty()),
        Err(_) => panic!("expected an empty file"),
    }
}

#[test]
fn file_without_header_is_refused() {
    assert!(parse_text("mes(\"hi\");\n").is_err());
}

#[test]
fn pointer_names_round_trip() {
    for p in PointerType::all_types() {
        assert_eq!(PointerType::from_name(p.representation()), Some(p));
    }
    assert_eq!(PointerType::from_name("P_ACTIVE_PLAYER"), Some(PointerType::PActivePlayer));
    assert_eq!(PointerType::from_name("nothing"), None);
}

#[test]
fn file_without_header_names_the_missing_bracket() {
    match parse_text("foo = 1;\n") {
        Err(e) => {
            assert_eq!(e.message, "Expected LBracket, got Identifier 'foo'");
            assert_eq!(e.line, 1);
        }
        Ok(_) => panic!("expected an error"),
    }
}
