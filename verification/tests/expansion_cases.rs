use m4_expander::{
    ExpandError, Expander, Group, M4Parser, MacroCall, MacroRegistry, ParseError, Token,
    MAX_DEPTH,
};

fn call(name: &str, args: Vec<Token>) -> Token {
    Token::MacroCall(MacroCall { name: name.to_string(), args })
}

fn lit(text: &str) -> Token {
    Token::Literal(text.to_string())
}

fn group(lexeme: &str, tokens: Vec<Token>) -> Token {
    Token::Group(Group { lexeme: lexeme.to_string(), tokens })
}

fn expander_after(source: &str) -> Expander {
    let mut registry = MacroRegistry::new();
    registry.load(source).unwrap();
    Expander::new(registry)
}

fn expand(source: &str) -> String {
    Expander::new(MacroRegistry::new()).expand(source).unwrap()
}

#[test]
fn text_without_macro_syntax_is_kept() {
    for text in ["", " ", "1 + 2 = 3; (ok), [x]!", "$ 5% #{'}\n\t--", "\u{e9}\u{3000}\u{4e2d}"] {
        let mut expander = expander_after("define(`a', `b')");
        assert_eq!(expander.expand(text).unwrap(), text);
    }
}

#[test]
fn unknown_names_pass_through() {
    assert_eq!(expand("hello, world"), "hello, world");
    assert_eq!(expand("it's"), "it's");
}

#[test]
fn quoted_text_is_kept_one_level() {
    let mut expander = expander_after("define(`foo', `bar')");
    assert_eq!(
        expander.expand("`define(`x', `y') foo $1 ifelse(a,a,b)'").unwrap(),
        "define(`x', `y') foo $1 ifelse(a,a,b)"
    );
    assert!(!expander.registry.is_defined("x"));
    assert_eq!(expander.expand("``foo''").unwrap(), "`foo'");
    assert_eq!(expander.expand("`'").unwrap(), "");
    assert_eq!(expander.expand("`foo(' foo").unwrap(), "foo( bar");
}

#[test]
fn define_gives_no_text_and_defines() {
    let mut expander = Expander::new(MacroRegistry::new());
    assert_eq!(expander.expand("define(`foo', `bar')").unwrap(), "");
    assert!(expander.registry.is_defined("foo"));
    assert_eq!(
        expander.registry.get("foo"),
        Some(&vec![call("bar", vec![])])
    );
}

#[test]
fn define_with_one_argument_does_nothing() {
    let mut expander = Expander::new(MacroRegistry::new());
    assert_eq!(expander.expand("define(`foo')").unwrap(), "");
    assert!(!expander.registry.is_defined("foo"));
    assert_eq!(expander.expand("define").unwrap(), "");
    assert_eq!(expander.expand("define()").unwrap(), "");
}

#[test]
fn define_trims_the_expanded_name() {
    let mut expander = Expander::new(MacroRegistry::new());
    expander.expand("define(`  spaced  ', `v')").unwrap();
    assert!(expander.registry.is_defined("spaced"));
    assert!(!expander.registry.is_defined("  spaced  "));
}

#[test]
fn define_stores_a_single_token_as_it_stands() {
    let mut expander = Expander::new(MacroRegistry::new());
    expander.expand("define(`n', body)").unwrap();
    assert_eq!(expander.registry.get("n"), Some(&vec![call("body", vec![])]));
    expander.expand("define(`p', $2)").unwrap();
    assert_eq!(expander.registry.get("p"), Some(&vec![Token::Positional(2)]));
}

#[test]
fn define_stores_the_tokens_of_a_group() {
    let mut expander = Expander::new(MacroRegistry::new());
    expander.expand("define(`n', b c)").unwrap();
    assert_eq!(
        expander.registry.get("n"),
        Some(&vec![call("b", vec![]), lit(" "), call("c", vec![])])
    );
    expander.expand("define(`q', `Hello $1!')").unwrap();
    assert_eq!(
        expander.registry.get("q"),
        Some(&vec![call("Hello", vec![]), lit(" "), Token::Positional(1), lit("!")])
    );
}

#[test]
fn define_later_arguments_are_ignored() {
    let mut expander = Expander::new(MacroRegistry::new());
    assert_eq!(expander.expand("define(`n', `one', `two')n").unwrap(), "one");
}

#[test]
fn defined_macro_gives_its_body() {
    let mut registry = MacroRegistry::new();
    let body = vec![lit("a"), Token::Positional(1), lit("b "), call("c", vec![])];
    registry.define("m".to_string(), body.clone());
    let mut expander = Expander::new(registry);
    let direct = expander.expand_tokens_with_depth(&body, &[], 1).unwrap();
    assert_eq!(direct, "ab c");
    assert_eq!(expander.expand("m").unwrap(), "ab c");
}

#[test]
fn positional_arguments_are_bound() {
    let mut expander = expander_after("define(`pair', `<$1|$2>')");
    assert_eq!(expander.expand("pair(x, y)").unwrap(), "<x|y>");
    assert_eq!(expander.expand("pair(x)").unwrap(), "<x|>");
    assert_eq!(expander.expand("pair").unwrap(), "<|>");
    assert_eq!(expander.expand("pair(x, y, z)").unwrap(), "<x|y>");
}

#[test]
fn positional_out_of_range_is_empty() {
    let mut registry = MacroRegistry::new();
    registry.define(
        "m".to_string(),
        vec![Token::Positional(0), lit("["), Token::Positional(99), lit("]"), Token::Positional(1)],
    );
    let mut expander = Expander::new(registry);
    assert_eq!(expander.expand("m(v)").unwrap(), "[]v");
    assert_eq!(expander.expand("$1 $0").unwrap(), " ");
}

#[test]
fn unknown_call_is_written_out_again() {
    assert_eq!(expand("foo(a, `b  c',   d)"), "foo(a, b  c, d)");
    assert_eq!(expand("foo(a,b)"), "foo(a, b)");
    assert_eq!(expand("foo()"), "foo");
    assert_eq!(expand("foo(,)"), "foo(, )");
    assert_eq!(expand("foo(x)"), "foo(x)");
}

#[test]
fn arguments_are_expanded_before_the_body() {
    let mut expander =
        expander_after("define(`inner', `EXPANDED') define(`wrapper', `[$1]')");
    assert_eq!(expander.expand("wrapper(inner)").unwrap(), "[EXPANDED]");
    assert_eq!(expander.expand("wrapper(`inner')").unwrap(), "[EXPANDED]");
    assert_eq!(expander.expand("wrapper(``inner'')").unwrap(), "[inner]");
    assert_eq!(expander.expand("unknown(inner, x inner)").unwrap(), "unknown(EXPANDED, x EXPANDED)");
}

#[test]
fn arguments_may_define() {
    let mut expander = Expander::new(MacroRegistry::new());
    assert_eq!(expander.expand("m(define(`m', `now $1'))").unwrap(), "now ");
    assert!(expander.registry.is_defined("m"));
}

#[test]
fn what_a_macro_gives_is_scanned_again() {
    let mut expander =
        expander_after("define(`cat', `$1$2') define(`foobar', `joined')");
    assert_eq!(expander.expand("cat(foo, bar)").unwrap(), "joined");
    assert_eq!(expander.expand("cat(`foo', `bar(x)')").unwrap(), "joined");
}

#[test]
fn text_that_does_not_parse_again_is_kept() {
    let mut registry = MacroRegistry::new();
    registry.define("q".to_string(), vec![lit("`open")]);
    let mut expander = Expander::new(registry);
    assert_eq!(expander.expand("q").unwrap(), "`open");
    assert_eq!(expander.expand("<q>").unwrap(), "<`open>");
}

#[test]
fn parse_failure_at_the_top_is_an_error() {
    let mut expander = expander_after("define(`a', `b')");
    assert_eq!(
        expander.expand("a `b"),
        Err(ExpandError::Parse(ParseError::UnterminatedQuote { at: 2 }))
    );
    assert!(expander.registry.is_defined("a"));
}

#[test]
fn endless_recursion_is_an_error() {
    let mut expander = expander_after("define(`again', `again')");
    assert_eq!(expander.expand("again"), Err(ExpandError::DepthExceeded));
    let mut expander = expander_after("define(`a', `b') define(`b', `a')");
    assert_eq!(expander.expand("x a"), Err(ExpandError::DepthExceeded));
    let mut expander = expander_after("define(`grow', `x grow(`$1')')");
    assert_eq!(expander.expand("grow(1)"), Err(ExpandError::DepthExceeded));
}

#[test]
fn endless_second_pass_is_an_error() {
    let mut expander = expander_after("define(`again', ``again'')");
    assert_eq!(expander.expand("again"), Err(ExpandError::DepthExceeded));
}

#[test]
fn failed_expansion_keeps_what_was_defined_before() {
    let mut expander = expander_after("define(`again', `again')");
    assert_eq!(
        expander.expand("define(`k', `v') again define(`late', `v')"),
        Err(ExpandError::DepthExceeded)
    );
    assert!(expander.registry.is_defined("k"));
    assert!(!expander.registry.is_defined("late"));
}

#[test]
fn depth_is_counted_in_macro_calls() {
    let mut source = String::new();
    for i in 0..=MAX_DEPTH {
        source.push_str(&format!("define(`m{}', `m{}')", i, i + 1));
    }
    let mut expander = expander_after(&source);
    assert_eq!(expander.expand("m1").unwrap(), format!("m{}", MAX_DEPTH + 1));
    assert_eq!(expander.expand("m0"), Err(ExpandError::DepthExceeded));
}

#[test]
fn expanding_tokens_at_a_depth() {
    let mut expander = Expander::new(MacroRegistry::new());
    let tokens = vec![lit("x")];
    assert_eq!(expander.expand_tokens_with_depth(&tokens, &[], MAX_DEPTH).unwrap(), "x");
    assert_eq!(
        expander.expand_tokens_with_depth(&tokens, &[], MAX_DEPTH + 1),
        Err(ExpandError::DepthExceeded)
    );
    assert_eq!(
        expander.expand_tokens_with_depth(&[], &[], MAX_DEPTH + 1),
        Err(ExpandError::DepthExceeded)
    );
    assert_eq!(
        expander
            .expand_tokens_with_depth(
                &[Token::Positional(2), Token::Positional(1)],
                &["a".to_string(), "b".to_string()],
                0
            )
            .unwrap(),
        "ba"
    );
}

#[test]
fn group_is_quoted_by_its_lexeme() {
    let mut expander = expander_after("define(`x', `y')");
    // the lexeme decides, not the tokens
    let quoted = group("`x z'", vec![lit("other")]);
    assert_eq!(expander.expand_tokens(&[quoted]).unwrap(), "x z");
    let open = group("x z", vec![call("x", vec![]), lit("-")]);
    assert_eq!(expander.expand_tokens(&[open]).unwrap(), "y-");
    let half = group("`x", vec![lit("t")]);
    assert_eq!(expander.expand_tokens(&[half]).unwrap(), "t");
    let one = group("`", vec![lit("t")]);
    assert_eq!(expander.expand_tokens(&[one]).unwrap(), "t");
    let empty = group("", vec![]);
    assert_eq!(expander.expand_tokens(&[empty]).unwrap(), "");
    // an argument of several tokens that begins and ends with quotes
    assert_eq!(expander.expand("f(`a' x `b')").unwrap(), "f(a' x `b)");
}

#[test]
fn dnl_gives_no_text() {
    let mut expander = Expander::new(MacroRegistry::new());
    assert_eq!(expander.expand("hello dnl comment\nworld").unwrap(), "hello world");
    assert_eq!(expander.expand("a dnl to the end").unwrap(), "a ");
    let tokens = vec![lit("a"), call("dnl", vec![lit("ignored")]), lit("b")];
    assert_eq!(expander.expand_tokens(&tokens).unwrap(), "ab");
}

#[test]
fn ifelse_with_two_to_seven_arguments() {
    assert_eq!(expand("ifelse(a, b)"), "a");
    assert_eq!(expand("ifelse(a)"), "a");
    assert_eq!(expand("ifelse()"), "");
    assert_eq!(expand("ifelse"), "");
    assert_eq!(expand("ifelse(a, a, yes)"), "yes");
    assert_eq!(expand("ifelse(a, b, yes)"), "");
    assert_eq!(expand("ifelse(a, a, yes, no)"), "yes");
    assert_eq!(expand("ifelse(a, b, yes, no)"), "no");
    assert_eq!(expand("ifelse(a, b, yes, c, d)"), "c");
    assert_eq!(expand("ifelse(a, b, yes, c, c, second)"), "second");
    assert_eq!(expand("ifelse(a, b, yes, c, d, second)"), "");
    assert_eq!(expand("ifelse(a, b, x, c, d, y, z)"), "z");
    assert_eq!(expand("ifelse(a, b, x, c, c, y, z)"), "y");
    assert_eq!(expand("ifelse(a, a, x, c, c, y, z)"), "x");
}

#[test]
fn ifelse_trims_what_it_compares_and_gives() {
    assert_eq!(expand("ifelse(`a ', ` a', `  padded  ', no)"), "padded");
    assert_eq!(expand("ifelse(`a b', `a  b', yes, `\tno\n')"), "no");
    assert_eq!(expand("ifelse(`', ` ', yes, no)"), "yes");
}

#[test]
fn ifelse_expands_what_it_compares() {
    let mut expander = expander_after("define(`one', `1') define(`uno', `1')");
    assert_eq!(expander.expand("ifelse(one, uno, same, differ)").unwrap(), "same");
    assert_eq!(expander.expand("ifelse(`one', uno, same, differ)").unwrap(), "differ");
}

#[test]
fn ifelse_compares_what_each_expansion_gives() {
    // the first expansion defines x, so the second, written alike, gives another text
    let a = "ifdef(`x', one, define(`x', `v')two)";
    assert_eq!(expand(&format!("ifelse({}, {}, yes, no)", a, a)), "no");
}

#[test]
fn ifelse_stops_at_the_first_match() {
    let mut expander = Expander::new(MacroRegistry::new());
    assert_eq!(
        expander
            .expand("ifelse(a, a, define(`first', `1'), b, b, define(`second', `2'))")
            .unwrap(),
        ""
    );
    assert!(expander.registry.is_defined("first"));
    assert!(!expander.registry.is_defined("second"));
}

#[test]
fn ifdef_follows_the_registry() {
    let mut expander = expander_after("define(`DEBUG', `1')");
    assert_eq!(expander.expand("ifdef(`DEBUG', `yes', `no')").unwrap(), "yes");
    assert_eq!(expander.expand("ifdef(`OTHER', `yes', `no')").unwrap(), "no");
    assert_eq!(expander.expand("ifdef(DEBUG, yes, no)").unwrap(), "yes");
    assert_eq!(expander.expand("ifdef( `DEBUG' , ` yes ', no)").unwrap(), "yes");
    expander.registry.define("DEBUG".to_string(), vec![]);
    assert_eq!(expander.expand("ifdef(`DEBUG', `yes', `no')").unwrap(), "yes");
    expander.registry.define("DEBUG".to_string(), vec![call("OTHER", vec![])]);
    assert_eq!(expander.expand("ifdef(`DEBUG', `yes', `no')").unwrap(), "yes");
    assert_eq!(expander.expand("ifdef(`OTHER', `yes', `no')").unwrap(), "no");
}

#[test]
fn ifdef_with_few_arguments() {
    let mut expander = expander_after("define(`X', `1')");
    assert_eq!(expander.expand("ifdef()").unwrap(), "");
    assert_eq!(expander.expand("ifdef").unwrap(), "");
    assert_eq!(expander.expand("ifdef(`X')").unwrap(), "");
    assert_eq!(expander.expand("ifdef(`X', yes)").unwrap(), "yes");
    assert_eq!(expander.expand("ifdef(`Y', yes)").unwrap(), "");
}

#[test]
fn ifdef_reads_its_name_without_expanding() {
    let mut expander = expander_after("define(`alias', `target') define(`target', `t')");
    // the name read is `alias`, which is defined
    assert_eq!(expander.expand("ifdef(alias, yes, no)").unwrap(), "yes");
    let mut expander = expander_after("define(`alias', `target')");
    // `target` is not defined, but the name read is still `alias`
    assert_eq!(expander.expand("ifdef(alias, yes, no)").unwrap(), "yes");
    // a call with arguments gives no name
    assert_eq!(expander.expand("ifdef(alias(x), yes, no)").unwrap(), "no");
    // a group gives the text of its tokens
    assert_eq!(expander.expand("ifdef(`al'`ias', yes, no)").unwrap(), "yes");
}

#[test]
fn ifdef_reads_positional_names() {
    let mut expander =
        expander_after("define(`known', `1') define(`has', `ifdef($1, yes, no)')");
    assert_eq!(expander.expand("has(`known')").unwrap(), "yes");
    assert_eq!(expander.expand("has(`nope')").unwrap(), "no");
}

#[test]
fn bodies_are_resolved_when_called() {
    let mut expander = expander_after("define(`baz', `foo qux')");
    assert_eq!(expander.expand("baz").unwrap(), "foo qux");
    expander.expand("define(`foo', `bar')").unwrap();
    assert_eq!(expander.expand("baz").unwrap(), "bar qux");
    expander.expand("define(`foo', `changed')").unwrap();
    assert_eq!(expander.expand("baz").unwrap(), "changed qux");
}

#[test]
fn conditional_definition() {
    let mut expander = Expander::new(MacroRegistry::new());
    let text = "define(ifdef(`fast', `quick', `slow'), `chosen')";
    expander.expand(text).unwrap();
    assert!(expander.registry.is_defined("slow"));
    expander.expand("define(`fast', `1')").unwrap();
    expander.expand(text).unwrap();
    assert!(expander.registry.is_defined("quick"));
}

#[test]
fn expand_is_expand_tokens_of_the_parse() {
    let text = "define(`f', `<$1>') f(a) f(f(b)) `f(c)' ifelse(f(a), <a>, y, n)";
    let mut one = Expander::new(MacroRegistry::new());
    let mut two = Expander::new(MacroRegistry::new());
    let tokens = M4Parser::parse_input(text).unwrap();
    assert_eq!(one.expand(text), two.expand_tokens(&tokens));
    assert_eq!(one.expand(text).unwrap(), " <a> <<b>> f(c) y");
}

#[test]
fn error_messages() {
    assert_eq!(ExpandError::DepthExceeded.message(), "Maximum expansion depth exceeded");
    assert_eq!(
        ExpandError::Parse(ParseError::UnterminatedQuote { at: 7 }).message(),
        "unterminated quote at character 7"
    );
}

#[test]
fn into_registry_gives_the_registry_back() {
    let mut expander = Expander::new(MacroRegistry::new());
    expander.expand("define(`a', `b')").unwrap();
    let registry = expander.into_registry();
    assert!(registry.is_defined("a"));
}
