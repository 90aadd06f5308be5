use m4_expander::{Group, M4Parser, MacroCall, Token};

#[test]
fn test_parse_simple_define() {
    let input = "define(`foo', `bar')";
    let tokens = M4Parser::parse_input(input).unwrap();
    assert_eq!(tokens.len(), 1);

    match &tokens[0] {
        Token::MacroCall(MacroCall { name, args }) => {
            assert_eq!(name, &"define");
            assert_eq!(args.len(), 2);

            assert!(matches!(&args[0], Token::Group(grp) if grp.lexeme == "`foo'"));
            assert!(matches!(&args[1], Token::Group(grp) if grp.lexeme == "`bar'"));
        }
        _ => panic!("Expected MacroCall token"),
    }
}

#[test]
fn test_parse_define_with_positional() {
    let input = "define(`greet', `Hello $1!')";
    let tokens = M4Parser::parse_input(input).unwrap();
    match &tokens[0] {
        Token::MacroCall(MacroCall { name, args }) => {
            assert_eq!(name, &"define");
            assert_eq!(args.len(), 2);

            assert!(matches!(&args[0], Token::Group(grp) if grp.lexeme == "`greet'"));

            assert_eq!(
                args[1],
                Token::Group(Group {
                    lexeme: "`Hello $1!'".to_string(),
                    tokens: vec![
                        Token::MacroCall(MacroCall {
                            name: "Hello".to_string(),
                            args: vec![]
                        }),
                        Token::Literal(" ".to_string()),
                        Token::Positional(1),
                        Token::Literal("!".to_string()),
                    ],
                })
            );
        }
        _ => panic!("Expected MacroCall token"),
    }
}

#[test]
fn test_parse_ifelse() {
    let input = "ifelse(a, b, yes, no)";
    let tokens = M4Parser::parse_input(input).unwrap();
    match &tokens[0] {
        Token::MacroCall(MacroCall { name, args }) => {
            assert_eq!(name, &"ifelse");
            assert_eq!(args.len(), 4);
            assert!(matches!(&args[0], Token::MacroCall(mc) if mc.name == "a"));
            assert!(matches!(&args[1], Token::MacroCall(mc) if mc.name == "b"));
            assert!(matches!(&args[2], Token::MacroCall(mc) if mc.name == "yes"));
            assert!(matches!(&args[3], Token::MacroCall(mc) if mc.name == "no"));
        }
        _ => panic!("Expected MacroCall token for ifelse"),
    }
}

#[test]
fn test_parse_ifdef() {
    let input = "ifdef(`DEBUG', `debug mode', `release mode')";
    let tokens = M4Parser::parse_input(input).unwrap();
    match &tokens[0] {
        Token::MacroCall(MacroCall { name, args }) => {
            assert_eq!(name, &"ifdef");
            assert_eq!(args.len(), 3);
            assert!(matches!(&args[0], Token::Group(_)));
            assert!(matches!(&args[1], Token::Group(_)));
            assert!(matches!(&args[2], Token::Group(_)));
        }
        _ => panic!("Expected MacroCall token for ifdef"),
    }
}

#[test]
fn test_parse_nested_macro() {
    let input = "ifelse(a, b, c, ifelse(d, e, f))";
    let tokens = M4Parser::parse_input(input).unwrap();
    match &tokens[0] {
        Token::MacroCall(MacroCall { name, args }) => {
            assert_eq!(name, &"ifelse");
            assert!(args.len() == 4);
            assert!(matches!(args.last(), Some(Token::MacroCall(_))));
        }
        _ => panic!("Expected MacroCall token for ifelse"),
    }
}

#[test]
fn test_parse_quoted_string() {
    let input = "`hello world'";
    let tokens = M4Parser::parse_input(input).unwrap();
    match &tokens[0] {
        Token::Group(g) => {
            assert_eq!(g.lexeme, "`hello world'");
            // Content should have tokens for "hello", " ", "world"
            assert!(g.tokens.len() >= 2);
        }
        _ => panic!("Expected Group token"),
    }
}

#[test]
fn test_parse_unquoted_args() {
    let input = "ifelse(a, b, hello world, no)";
    let tokens = M4Parser::parse_input(input).unwrap();
    match &tokens[0] {
        Token::MacroCall(MacroCall { name, args }) => {
            assert_eq!(name, &"ifelse");
            assert_eq!(args.len(), 4);
            assert!(matches!(
                &args[2],
                Token::Group(Group {
                    lexeme,
                    ..
                }) if lexeme == "hello world"
            ));
        }
        _ => panic!("Expected MacroCall token for ifelse"),
    }
}
