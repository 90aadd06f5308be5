//! Laws of expansion, proved from the grammar and from the meaning of
//! expansion.

use vstd::prelude::*;
use crate::ast::SpecToken;
use crate::grammar::{
    closing_quote, lemma_name_end, lemma_plain_end, name_end, plain_end, positional_at, prepend,
    tokens_from, ParseError,
};
use crate::nesting::{law_closed_quotes_parse, lemma_content_closed};
use crate::registry::Defs;
use crate::semantics::{
    argument_values, body_expansion, body_of, call_expansion, expansion, ifelse_expansion,
    is_builtin, is_quoted, text_expansion, token_expansion, token_text, Outcome, Values,
    MAX_DEPTH,
};
use crate::text::{
    is_name_char, is_name_start, is_space, lemma_skip_spaces, skip_spaces, trim, CLOSE_QUOTE,
    OPEN_QUOTE,
};

verus! {

/// Whether macro syntax starts at the character `i` of `s`: a name, a
/// quoted span or a positional reference.
pub open spec fn macro_syntax_at(s: Seq<char>, i: int) -> bool {
    is_name_start(s[i]) || s[i] == OPEN_QUOTE || positional_at(s, i)
}

/// Whether `s` is free of macro syntax.
pub open spec fn is_plain_text(s: Seq<char>) -> bool {
    forall|i: int| 0 <= i < s.len() ==> !macro_syntax_at(s, i)
}

/// The tokens of a text without macro syntax expand to the text itself,
/// from any character on.
proof fn lemma_plain_tokens(defs: Defs, s: Seq<char>, i: int, args: Seq<Seq<char>>, depth: nat)
    requires
        is_plain_text(s),
        0 <= i <= s.len(),
        depth <= MAX_DEPTH,
    ensures
        tokens_from(s, i) matches Ok(tokens) && expansion(defs, tokens, args, depth)
            == Outcome::of(defs, s.subrange(i, s.len() as int)),
    decreases s.len() - i,
{
    if i >= s.len() {
        assert(s.subrange(i, s.len() as int) =~= Seq::empty());
    } else {
        assert(!macro_syntax_at(s, i));
        let j = if is_space(s[i]) {
            skip_spaces(s, i + 1, s.len() as int)
        } else {
            plain_end(s, i + 1)
        };
        lemma_skip_spaces(s, i + 1, s.len() as int);
        lemma_plain_end(s, i + 1);
        lemma_plain_tokens(defs, s, j, args, depth);
        let token = SpecToken::Literal(s.subrange(i, j));
        let rest = tokens_from(s, j)->Ok_0;
        let tokens = seq![token] + rest;
        assert(tokens_from(s, i) == prepend(token, tokens_from(s, j)));
        assert(tokens[0] == token);
        assert(tokens.drop_first() =~= rest);
        assert(s.subrange(i, j) + s.subrange(j, s.len() as int) =~= s.subrange(
            i,
            s.len() as int,
        ));
        assert(token_expansion(defs, token, args, depth) == Outcome::of(defs, s.subrange(i, j)));
        assert(expansion(defs, rest, args, depth) == Outcome::of(
            defs,
            s.subrange(j, s.len() as int),
        ));
    }
}

/// A text without macro syntax expands to itself, whatever is defined, and
/// defines nothing.
pub proof fn law_plain_text_is_kept(defs: Defs, s: Seq<char>)
    requires
        is_plain_text(s),
    ensures
        text_expansion(defs, s) == Outcome::of(defs, s),
{
    lemma_plain_tokens(defs, s, 0, Seq::empty(), 0);
    assert(s.subrange(0, s.len() as int) =~= s);
}

/// `x` between an opening and a closing quote.
pub open spec fn quoted(x: Seq<char>) -> Seq<char> {
    seq![OPEN_QUOTE] + x + seq![CLOSE_QUOTE]
}

/// Whether the quotes in `x` are balanced: put between quotes, `x` is one
/// quoted span, closed by the quote at its end and not before.
pub open spec fn balanced(x: Seq<char>) -> bool {
    closing_quote(quoted(x), 1, 1) == Some(quoted(x).len() as int)
}

/// Quoting defers expansion by one level: a balanced text between quotes
/// expands to the text as it stands, whatever macro names it holds and
/// whatever is defined, and defines nothing.
pub proof fn law_quoted_text_is_kept(defs: Defs, x: Seq<char>)
    requires
        balanced(x),
    ensures
        text_expansion(defs, quoted(x)) == Outcome::of(defs, x),
{
    let s = quoted(x);
    let len = s.len() as int;
    assert(s[0] == OPEN_QUOTE);
    assert(s[len - 1] == CLOSE_QUOTE);
    assert(s.subrange(1, len - 1) =~= x);
    assert(s.subrange(0, len) =~= s);
    lemma_content_closed(s, 1);
    law_closed_quotes_parse(x);
    let inner = tokens_from(x, 0)->Ok_0;
    let group = SpecToken::Group { lexeme: s, tokens: inner };
    assert(tokens_from(s, len) == Ok::<Seq<SpecToken>, ParseError>(Seq::empty()));
    assert(tokens_from(s, 0) == prepend(group, tokens_from(s, len)));
    let tokens = seq![group] + Seq::<SpecToken>::empty();
    assert(tokens[0] == group);
    assert(tokens.drop_first() =~= Seq::<SpecToken>::empty());
    assert(is_quoted(s));
    assert(token_expansion(defs, group, Seq::empty(), 0) == Outcome::of(defs, x));
    assert(expansion(defs, tokens.drop_first(), Seq::empty(), 0) == Outcome::of(
        defs,
        Seq::empty(),
    ));
    assert(x + Seq::<char>::empty() =~= x);
}

/// After `name` is defined as `body`, a call of `name` without arguments
/// gives what `body` expands to without arguments, one level deeper and
/// scanned again.
pub proof fn law_defined_macro_gives_its_body(
    defs: Defs,
    name: Seq<char>,
    body: Seq<SpecToken>,
    args: Seq<Seq<char>>,
    depth: nat,
)
    requires
        !is_builtin(name),
    ensures
        token_expansion(
            defs.insert(name, body),
            SpecToken::MacroCall { name, args: Seq::empty() },
            args,
            depth,
        ) == body_expansion(defs.insert(name, body), body, Seq::empty(), depth + 1),
{
    let with = defs.insert(name, body);
    let none = Seq::<SpecToken>::empty();
    assert(argument_values(with, none, args, depth, 0) == (Values {
        defs: with,
        texts: Ok(Seq::empty()),
    }));
    assert(call_expansion(with, name, none, args, depth) == body_expansion(
        with,
        body,
        Seq::empty(),
        depth + 1,
    ));
}

/// Whether `name` is written as a macro name is: a letter or `_`, then
/// letters, digits and `_`.
pub open spec fn is_name(name: Seq<char>) -> bool {
    &&& name.len() > 0
    &&& is_name_start(name[0])
    &&& forall|i: int| 0 <= i < name.len() ==> is_name_char(#[trigger] name[i])
}

/// After `name` is defined as `body`, the text that is just `name` expands
/// to what `body` gives without arguments.
pub proof fn law_defined_name_gives_its_body(defs: Defs, name: Seq<char>, body: Seq<SpecToken>)
    requires
        is_name(name),
        !is_builtin(name),
    ensures
        text_expansion(defs.insert(name, body), name) == body_expansion(
            defs.insert(name, body),
            body,
            Seq::empty(),
            1,
        ),
{
    let with = defs.insert(name, body);
    let len = name.len() as int;
    let call = SpecToken::MacroCall { name, args: Seq::empty() };
    lemma_name_end(name, 1);
    assert(name_end(name, 1) == len);
    assert(name.subrange(0, len) =~= name);
    assert(tokens_from(name, len) == Ok::<Seq<SpecToken>, ParseError>(Seq::empty()));
    assert(tokens_from(name, 0) == prepend(call, tokens_from(name, len)));
    let tokens = seq![call] + Seq::<SpecToken>::empty();
    assert(tokens[0] == call);
    assert(tokens.drop_first() =~= Seq::<SpecToken>::empty());
    law_defined_macro_gives_its_body(defs, name, body, Seq::empty(), 0);
    let given = body_expansion(with, body, Seq::empty(), 1);
    assert(token_expansion(with, call, Seq::empty(), 0) == given);
    match given.text {
        Ok(text) => {
            assert(expansion(given.defs, tokens.drop_first(), Seq::empty(), 0) == Outcome::of(
                given.defs,
                Seq::empty(),
            ));
            assert(text + Seq::<char>::empty() =~= text);
        },
        Err(_) => {},
    }
}

/// `ifelse(a, b, yes, no)`: where the expansions of `a` and `b` agree up to
/// surrounding whitespace the call gives the trimmed expansion of `yes`,
/// else that of `no`.
pub proof fn law_ifelse_chooses(
    defs: Defs,
    a: SpecToken,
    b: SpecToken,
    yes: SpecToken,
    no: SpecToken,
    args: Seq<Seq<char>>,
    depth: nat,
)
    ensures
        ({
            let left = token_expansion(defs, a, args, depth);
            let right = token_expansion(left.defs, b, args, depth);
            left.text is Ok && right.text is Ok ==> call_expansion(
                defs,
                "ifelse"@,
                seq![a, b, yes, no],
                args,
                depth,
            ) == token_expansion(
                right.defs,
                if trim(left.text->Ok_0) == trim(right.text->Ok_0) {
                    yes
                } else {
                    no
                },
                args,
                depth,
            ).trimmed()
        }),
{
    lemma_builtin_names();
    let call_args = seq![a, b, yes, no];
    let left = token_expansion(defs, a, args, depth);
    let right = token_expansion(left.defs, b, args, depth);
    if left.text is Ok && right.text is Ok {
        assert(call_args[0] == a && call_args[1] == b && call_args[2] == yes && call_args[3] == no);
        assert(call_expansion(defs, "ifelse"@, call_args, args, depth) == ifelse_expansion(
            defs,
            call_args,
            args,
            depth,
            0,
        ));
        if trim(left.text->Ok_0) != trim(right.text->Ok_0) {
            assert(ifelse_expansion(defs, call_args, args, depth, 0) == ifelse_expansion(
                right.defs,
                call_args,
                args,
                depth,
                3,
            ));
        }
    }
}

/// `ifelse(a, a, yes, no)` gives the trimmed expansion of `yes`, where the
/// expansion of `a` gives a text and leaves the definitions as they are.
pub proof fn law_ifelse_of_equals(
    defs: Defs,
    a: SpecToken,
    yes: SpecToken,
    no: SpecToken,
    args: Seq<Seq<char>>,
    depth: nat,
)
    requires
        token_expansion(defs, a, args, depth).text is Ok,
        token_expansion(defs, a, args, depth).defs == defs,
    ensures
        call_expansion(defs, "ifelse"@, seq![a, a, yes, no], args, depth) == token_expansion(
            defs,
            yes,
            args,
            depth,
        ).trimmed(),
{
    law_ifelse_chooses(defs, a, a, yes, no, args, depth);
}

/// The definitions after all the comparisons of an `ifelse` from its
/// argument `i` on, where each could be made and none of them agreed.
pub open spec fn all_differ(
    defs: Defs,
    call_args: Seq<SpecToken>,
    args: Seq<Seq<char>>,
    depth: nat,
    i: nat,
) -> Option<Defs>
    decreases call_args.len() - i,
{
    if i + 2 < call_args.len() {
        let left = token_expansion(defs, call_args[i as int], args, depth);
        let right = token_expansion(left.defs, call_args[i as int + 1], args, depth);
        if left.text is Ok && right.text is Ok && trim(left.text->Ok_0) != trim(right.text->Ok_0) {
            all_differ(right.defs, call_args, args, depth, i + 3)
        } else {
            None
        }
    } else {
        Some(defs)
    }
}

/// Where the groups of three end that start at the argument `i` of `len`.
pub open spec fn leftover(len: nat, i: nat) -> nat
    decreases len - i,
{
    if i + 2 < len {
        leftover(len, i + 3)
    } else {
        i
    }
}

/// An `ifelse` in which no pair agrees gives the trimmed expansion of the
/// argument that is left over after its groups of three, and nothing where
/// none is left over.
pub proof fn law_ifelse_falls_through(
    defs: Defs,
    call_args: Seq<SpecToken>,
    args: Seq<Seq<char>>,
    depth: nat,
    i: nat,
)
    requires
        all_differ(defs, call_args, args, depth, i) is Some,
    ensures
        ({
            let last = all_differ(defs, call_args, args, depth, i)->Some_0;
            let k = leftover(call_args.len(), i);
            ifelse_expansion(defs, call_args, args, depth, i) == if k < call_args.len() {
                token_expansion(last, call_args[k as int], args, depth).trimmed()
            } else {
                Outcome::of(last, Seq::empty())
            }
        }),
    decreases call_args.len() - i,
{
    if i + 2 < call_args.len() {
        let left = token_expansion(defs, call_args[i as int], args, depth);
        let right = token_expansion(left.defs, call_args[i as int + 1], args, depth);
        law_ifelse_falls_through(right.defs, call_args, args, depth, i + 3);
    }
}

/// `ifdef(name, yes, no)` gives the trimmed expansion of `yes` where the
/// name is defined when the call is expanded, else that of `no`. The name
/// is read from the first argument as it stands.
pub proof fn law_ifdef_follows_membership(
    defs: Defs,
    name: SpecToken,
    yes: SpecToken,
    no: SpecToken,
    args: Seq<Seq<char>>,
    depth: nat,
)
    ensures
        call_expansion(defs, "ifdef"@, seq![name, yes, no], args, depth) == token_expansion(
            defs,
            if defs.contains_key(trim(token_text(name, args))) {
                yes
            } else {
                no
            },
            args,
            depth,
        ).trimmed(),
{
    lemma_builtin_names();
    let call_args = seq![name, yes, no];
    assert(call_args[0] == name && call_args[1] == yes && call_args[2] == no);
}

/// `ifdef` asks whether a name is defined, not what as: with any body
/// stored under the name it gives the trimmed expansion of `yes`.
pub proof fn law_ifdef_ignores_the_body(
    defs: Defs,
    body: Seq<SpecToken>,
    name: SpecToken,
    yes: SpecToken,
    no: SpecToken,
    args: Seq<Seq<char>>,
    depth: nat,
)
    ensures
        ({
            let with = defs.insert(trim(token_text(name, args)), body);
            call_expansion(with, "ifdef"@, seq![name, yes, no], args, depth) == token_expansion(
                with,
                yes,
                args,
                depth,
            ).trimmed()
        }),
{
    law_ifdef_follows_membership(
        defs.insert(trim(token_text(name, args)), body),
        name,
        yes,
        no,
        args,
        depth,
    );
}

/// `define(name, body)` stores the tokens of `body` as they stand, under
/// the trimmed expansion of `name`, and gives no text. What the body
/// refers to is looked up when the macro is called.
pub proof fn law_define_keeps_the_body_raw(
    defs: Defs,
    name: SpecToken,
    body: SpecToken,
    args: Seq<Seq<char>>,
    depth: nat,
)
    ensures
        ({
            let named = token_expansion(defs, name, args, depth);
            named.text is Ok ==> call_expansion(defs, "define"@, seq![name, body], args, depth)
                == Outcome::of(
                named.defs.insert(trim(named.text->Ok_0), body_of(body)),
                Seq::empty(),
            )
        }),
{
    let call_args = seq![name, body];
    assert(call_args[0] == name && call_args[1] == body);
}

/// The four names that the expander handles itself differ from each other.
proof fn lemma_builtin_names()
    ensures
        "define"@ != "ifelse"@,
        "define"@ != "ifdef"@,
        "ifelse"@ != "ifdef"@,
        "define"@ != "dnl"@,
        "ifelse"@ != "dnl"@,
        "ifdef"@ != "dnl"@,
{
    reveal_strlit("define");
    reveal_strlit("ifelse");
    reveal_strlit("ifdef");
    reveal_strlit("dnl");
    assert("define"@[0] != "ifelse"@[0]);
    assert("define"@[0] != "ifdef"@[0]);
    assert("ifelse"@.len() != "ifdef"@.len());
    assert("define"@.len() != "dnl"@.len());
    assert("ifelse"@.len() != "dnl"@.len());
    assert("ifdef"@.len() != "dnl"@.len());
}

} // verus!
