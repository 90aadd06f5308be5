use m4_expander::{ExpandError, MacroRegistry, ParseError, Token};

#[test]
fn new_registry_defines_nothing() {
    let registry = MacroRegistry::new();
    assert!(!registry.is_defined("foo"));
    assert!(!registry.is_defined(""));
    assert!(registry.get("foo").is_none());
}

#[test]
fn define_then_get() {
    let mut registry = MacroRegistry::new();
    let body = vec![Token::Literal("x".to_string()), Token::Positional(2)];
    registry.define("m".to_string(), body.clone());
    assert!(registry.is_defined("m"));
    assert_eq!(registry.get("m"), Some(&body));
}

#[test]
fn define_again_replaces_the_body() {
    let mut registry = MacroRegistry::new();
    registry.define("m".to_string(), vec![Token::Literal("one".to_string())]);
    registry.define("other".to_string(), vec![]);
    registry.define("m".to_string(), vec![Token::Literal("two".to_string())]);
    assert_eq!(registry.get("m"), Some(&vec![Token::Literal("two".to_string())]));
    assert_eq!(registry.get("other"), Some(&vec![]));
}

#[test]
fn names_are_matched_exactly() {
    let mut registry = MacroRegistry::new();
    registry.define("Foo".to_string(), vec![]);
    assert!(registry.is_defined("Foo"));
    assert!(!registry.is_defined("foo"));
    assert!(!registry.is_defined("Foo "));
    assert!(!registry.is_defined("Fo"));
}

#[test]
fn clone_holds_the_same_definitions_apart() {
    let mut registry = MacroRegistry::new();
    registry.define("a".to_string(), vec![Token::Positional(1)]);
    let mut copy = registry.clone();
    copy.define("b".to_string(), vec![]);
    assert!(copy.is_defined("a"));
    assert!(copy.is_defined("b"));
    assert!(!registry.is_defined("b"));
    assert_eq!(copy.get("a"), registry.get("a"));
}

#[test]
fn load_keeps_definitions_and_drops_text() {
    let mut registry = MacroRegistry::new();
    registry.load("some text define(`a', `1') more define(`b', `2')").unwrap();
    assert!(registry.is_defined("a"));
    assert!(registry.is_defined("b"));
    assert!(!registry.is_defined("some"));
}

#[test]
fn load_that_fails_to_parse_changes_nothing() {
    let mut registry = MacroRegistry::new();
    let r = registry.load("define(`a', `1') `open");
    assert_eq!(r, Err(ExpandError::Parse(ParseError::UnterminatedQuote { at: 17 })));
    assert!(!registry.is_defined("a"));
}

#[test]
fn load_that_goes_too_deep_changes_nothing() {
    let mut registry = MacroRegistry::new();
    let r = registry.load("define(`a', `1') define(`again', `again') again");
    assert_eq!(r, Err(ExpandError::DepthExceeded));
    assert!(!registry.is_defined("a"));
    assert!(!registry.is_defined("again"));
}

#[test]
fn default_registry_is_empty() {
    let registry = MacroRegistry::default();
    assert!(!registry.is_defined("x"));
}
