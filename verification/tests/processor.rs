use m4_expander::{Expander, ExpandingReader, M4Parser, MacroCall, MacroRegistry, Token};

#[test]
fn test_simple_define() {
    let mut registry = MacroRegistry::new();
    registry.load("define(`foo', `bar')").unwrap();
    assert!(registry.is_defined("foo"));
}

#[test]
fn test_simple_expansion() {
    let mut registry = MacroRegistry::new();
    registry.define("foo".to_string(), vec![Token::Literal("bar".to_string())]);

    let mut expander = Expander::new(registry);
    let result = expander.expand("hello foo world").unwrap();
    assert_eq!(result, "hello bar world");
}

#[test]
fn test_macro_with_args() {
    let mut registry = MacroRegistry::new();
    registry.define(
        "greet".to_string(),
        vec![
            Token::Literal("Hello ".to_string()),
            Token::Positional(1),
            Token::Literal("!".to_string()),
        ],
    );

    let mut expander = Expander::new(registry);
    let result = expander.expand("greet(World)").unwrap();
    assert_eq!(result, "Hello World!");
}

#[test]
fn test_nested_expansion() {
    let mut registry = MacroRegistry::new();
    registry.define("inner".to_string(), vec![Token::Literal("INNER".to_string())]);
    registry.define(
        "outer".to_string(),
        vec![
            Token::Literal("before ".to_string()),
            Token::MacroCall(MacroCall { name: "inner".to_string(), args: vec![] }),
            Token::Literal(" after".to_string()),
        ],
    );

    let mut expander = Expander::new(registry);
    let result = expander.expand("outer").unwrap();
    assert_eq!(result, "before INNER after");
}

#[test]
fn test_ifelse() {
    let registry = MacroRegistry::new();
    let mut expander = Expander::new(registry);

    let result = expander.expand("ifelse(a, a, hello world, nello world)").unwrap();
    assert_eq!(result, "hello world");

    let result = expander.expand("ifelse(a, b, hello world, nello world)").unwrap();
    assert_eq!(result, "nello world");
}

#[test]
fn test_ifdef() {
    let mut registry = MacroRegistry::new();
    registry.define("DEBUG".to_string(), vec![Token::Literal("1".to_string())]);

    let mut expander = Expander::new(registry);
    let result = expander.expand("ifdef(`DEBUG', `yes', `no')").unwrap();
    assert_eq!(result, "yes");
}

#[test]
fn test_ifdef_undefined() {
    let registry = MacroRegistry::new();
    let mut expander = Expander::new(registry);

    let result = expander.expand("ifdef(`UNDEFINED', `yes', `no')").unwrap();
    assert_eq!(result, "no");
}

#[test]
fn test_quoted_string() {
    let mut registry = MacroRegistry::new();
    registry.define("foo".to_string(), vec![Token::Literal("bar".to_string())]);

    let mut expander = Expander::new(registry);
    // Quoted string should not expand
    let result = expander.expand("`foo'").unwrap();
    assert_eq!(result, "foo");
}

#[test]
fn test_dnl() {
    let registry = MacroRegistry::new();
    let mut expander = Expander::new(registry);

    let input = "hello dnl this is removed\nworld";
    let tokens = M4Parser::parse_input(input).unwrap();
    println!("{:?}", tokens);

    let result = expander.expand(input).unwrap();
    assert_eq!(result, "hello world");
}

#[test]
fn test_expanding_reader() {
    let mut registry = MacroRegistry::new();
    registry.define("foo".to_string(), vec![Token::Literal("bar".to_string())]);

    let input = "hello foo world";

    let mut reader = ExpandingReader::new(registry);
    assert!(reader.needs_input());
    reader.fill_buffer(input).unwrap();

    let mut bytes: Vec<u8> = Vec::new();
    let mut buf = [0u8; 4];
    loop {
        let n = reader.read(&mut buf);
        if n == 0 {
            break;
        }
        bytes.extend_from_slice(&buf[..n]);
    }
    let output = String::from_utf8(bytes).unwrap();

    assert_eq!(output, "hello bar world");
}

#[test]
fn test_recursive_argument_expansion() {
    // Arguments which are themselves macros get expanded first
    let mut registry = MacroRegistry::new();
    registry.define("inner".to_string(), vec![Token::Literal("EXPANDED".to_string())]);
    registry.define(
        "wrapper".to_string(),
        vec![
            Token::Literal("[".to_string()),
            Token::Positional(1),
            Token::Literal("]".to_string()),
        ],
    );

    let mut expander = Expander::new(registry);
    // When we call wrapper(inner), inner should be expanded to EXPANDED first
    let result = expander.expand("wrapper(inner)").unwrap();
    assert_eq!(result, "[EXPANDED]");
}

#[test]
fn test_lazy_macro_storage() {
    // Macros referencing other macros work because definitions are stored
    // raw and expanded on use
    let mut registry = MacroRegistry::new();
    registry.load("define(`foo', `bar')").unwrap();
    registry.load("define(`baz', `foo qux')").unwrap();

    let mut expander = Expander::new(registry);
    // When baz is expanded, foo inside its body should also expand
    let result = expander.expand("baz").unwrap();
    assert_eq!(result, "bar qux");
}

#[test]
fn test_conditional_macro_name() {
    // Macro names can be conditionally defined using ifdef
    let mut registry = MacroRegistry::new();

    // First, define a flag
    registry.load("define(`HAS_FEATURE', `1')").unwrap();

    // Now define a macro whose name depends on the flag
    registry
        .load("define(ifdef(`HAS_FEATURE', `feature_impl', `fallback_impl'), `FEATURE_CODE')")
        .unwrap();

    // The macro should be defined as 'feature_impl' (not 'fallback_impl')
    assert!(registry.is_defined("feature_impl"));
    assert!(!registry.is_defined("fallback_impl"));

    let mut expander = Expander::new(registry);
    let result = expander.expand("feature_impl").unwrap();
    assert_eq!(result, "FEATURE_CODE");
}
