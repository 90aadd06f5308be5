//! What expansion means: the result of expanding tokens against a set of
//! definitions, as functions on the model.
//!
//! Expansion threads the definitions through: a `define` met on the way
//! changes them for everything that follows. Each function therefore gives
//! an [`Outcome`]: the definitions as they are afterwards, and the text or
//! the reason why there is none.

use vstd::prelude::*;
use vstd::string::*;
use crate::ast::SpecToken;
use crate::grammar::{parse, ParseError};
use crate::registry::Defs;
use crate::text::{trim, CLOSE_QUOTE, OPEN_QUOTE};

verus! {

/// How deep macro calls may nest.
pub const MAX_DEPTH: usize = 100;

/// Why an expansion gave no text.
#[derive(Debug, Clone, Copy, PartialEq, Eq)]
pub enum ExpandError {
    /// The text could not be parsed.
    Parse(ParseError),
    /// Macro calls nested deeper than [`MAX_DEPTH`].
    DepthExceeded,
}

impl ExpandError {
    /// What the message says.
    pub open spec fn message_text(self) -> Seq<char> {
        match self {
            ExpandError::Parse(e) => e.message_text(),
            ExpandError::DepthExceeded => "Maximum expansion depth exceeded"@,
        }
    }

    /// The error in words.
    pub fn message(&self) -> (r: String)
        ensures
            r@ == self.message_text(),
    {
        match self {
            ExpandError::Parse(e) => e.message(),
            ExpandError::DepthExceeded => String::from_str("Maximum expansion depth exceeded"),
        }
    }
}

/// The definitions after an expansion, with its text.
pub struct Outcome {
    pub defs: Defs,
    pub text: Result<Seq<char>, ExpandError>,
}

/// The definitions after the expansion of a call's arguments, with their texts.
pub struct Values {
    pub defs: Defs,
    pub texts: Result<Seq<Seq<char>>, ExpandError>,
}

impl Outcome {
    /// The outcome with the text `text`.
    pub open spec fn of(defs: Defs, text: Seq<char>) -> Outcome {
        Outcome { defs, text: Ok(text) }
    }

    /// The outcome of an expansion that went too deep.
    pub open spec fn too_deep(defs: Defs) -> Outcome {
        Outcome { defs, text: Err(ExpandError::DepthExceeded) }
    }

    /// This outcome with its text trimmed.
    pub open spec fn trimmed(self) -> Outcome {
        Outcome {
            defs: self.defs,
            text: match self.text {
                Ok(text) => Ok(trim(text)),
                Err(e) => Err(e),
            },
        }
    }
}

/// What is left of the allowed nesting at `depth`.
pub open spec fn headroom(depth: nat) -> nat {
    if depth <= MAX_DEPTH {
        (MAX_DEPTH - depth + 1) as nat
    } else {
        0
    }
}

/// Whether `name` is handled by the expander itself.
pub open spec fn is_builtin(name: Seq<char>) -> bool {
    name == "define"@ || name == "ifelse"@ || name == "ifdef"@ || name == "dnl"@
}

/// Whether a group with this lexeme is a quoted span: the lexeme begins
/// with the opening quote and ends with the closing one.
pub open spec fn is_quoted(lexeme: Seq<char>) -> bool {
    lexeme.len() > 0 && lexeme.first() == OPEN_QUOTE && lexeme.last() == CLOSE_QUOTE
}

/// A quoted lexeme without its two delimiters.
pub open spec fn unquoted(lexeme: Seq<char>) -> Seq<char> {
    lexeme.subrange(1, lexeme.len() - 1)
}

/// The text of the `n`-th argument, counted from 1; empty where there is none.
pub open spec fn positional(args: Seq<Seq<char>>, n: nat) -> Seq<char> {
    if 1 <= n <= args.len() {
        args[n - 1]
    } else {
        Seq::empty()
    }
}

/// The text that a token stands for when it is read as a name, without
/// expanding it.
pub open spec fn token_text(token: SpecToken, args: Seq<Seq<char>>) -> Seq<char>
    decreases token,
{
    match token {
        SpecToken::Literal(text) => text,
        SpecToken::Positional(n) => positional(args, n),
        SpecToken::Group { lexeme, tokens } => tokens_text(tokens, args),
        SpecToken::MacroCall { name, args: call_args } => if call_args.len() == 0 {
            name
        } else {
            Seq::empty()
        },
    }
}

/// The texts of `tokens`, one after the other.
pub open spec fn tokens_text(tokens: Seq<SpecToken>, args: Seq<Seq<char>>) -> Seq<char>
    decreases tokens,
{
    if tokens.len() == 0 {
        Seq::empty()
    } else {
        tokens_text(tokens.drop_last(), args) + token_text(tokens.last(), args)
    }
}

/// The body that `define` stores for its second argument: the tokens of a
/// group, or the one token itself.
pub open spec fn body_of(token: SpecToken) -> Seq<SpecToken> {
    match token {
        SpecToken::Group { lexeme, tokens } => tokens,
        _ => seq![token],
    }
}

/// `texts[from..]` with `", "` between them.
pub open spec fn joined(texts: Seq<Seq<char>>, from: int) -> Seq<char>
    decreases texts.len() - from,
{
    if from < 0 || from >= texts.len() {
        Seq::empty()
    } else if from + 1 == texts.len() {
        texts[from]
    } else {
        texts[from] + ", "@ + joined(texts, from + 1)
    }
}

/// A call of an undefined macro, written out again with its expanded arguments.
pub open spec fn rendered(name: Seq<char>, texts: Seq<Seq<char>>) -> Seq<char> {
    if texts.len() == 0 {
        name
    } else {
        name + "("@ + joined(texts, 0) + ")"@
    }
}

/// The expansion of `tokens`, one after the other, with `args` as the
/// arguments of the macro whose body they are.
pub open spec fn expansion(defs: Defs, tokens: Seq<SpecToken>, args: Seq<Seq<char>>, depth: nat) -> Outcome
    decreases headroom(depth), 0nat, tokens, 0nat,
{
    if depth > MAX_DEPTH {
        Outcome::too_deep(defs)
    } else if tokens.len() == 0 {
        Outcome::of(defs, Seq::empty())
    } else {
        let first = token_expansion(defs, tokens[0], args, depth);
        match first.text {
            Err(_) => first,
            Ok(head) => {
                let rest = expansion(first.defs, tokens.drop_first(), args, depth);
                match rest.text {
                    Err(_) => rest,
                    Ok(tail) => Outcome::of(rest.defs, head + tail),
                }
            },
        }
    }
}

/// The expansion of one token.
pub open spec fn token_expansion(defs: Defs, token: SpecToken, args: Seq<Seq<char>>, depth: nat) -> Outcome
    decreases headroom(depth), 0nat, token, 0nat,
{
    match token {
        SpecToken::Literal(text) => Outcome::of(defs, text),
        SpecToken::Positional(n) => Outcome::of(defs, positional(args, n)),
        SpecToken::Group { lexeme, tokens } => if is_quoted(lexeme) {
            Outcome::of(defs, unquoted(lexeme))
        } else {
            expansion(defs, tokens, args, depth)
        },
        SpecToken::MacroCall { name, args: call_args } => call_expansion(
            defs,
            name,
            call_args,
            args,
            depth,
        ),
    }
}

/// The expansion of the call of `name` with the arguments `call_args`,
/// written in the body of a macro that was called with `args`.
///
/// `define`, `ifelse`, `ifdef` and `dnl` have their own rules. For any
/// other name the arguments are expanded first, each on its own. Where the
/// name is then defined, its body is expanded one level deeper with the
/// texts of the arguments bound, and what that gives is scanned again.
/// Where it is not, the call is written out again with the texts of its
/// arguments.
pub open spec fn call_expansion(
    defs: Defs,
    name: Seq<char>,
    call_args: Seq<SpecToken>,
    args: Seq<Seq<char>>,
    depth: nat,
) -> Outcome
    decreases headroom(depth), 0nat, call_args, call_args.len() + 2,
{
    if name == "define"@ {
        define_expansion(defs, call_args, args, depth)
    } else if name == "ifelse"@ {
        ifelse_expansion(defs, call_args, args, depth, 0)
    } else if name == "ifdef"@ {
        ifdef_expansion(defs, call_args, args, depth)
    } else if name == "dnl"@ {
        Outcome::of(defs, Seq::empty())
    } else {
        let values = argument_values(defs, call_args, args, depth, 0);
        match values.texts {
            Err(e) => Outcome { defs: values.defs, text: Err(e) },
            Ok(texts) => if values.defs.contains_key(name) {
                if depth < MAX_DEPTH {
                    body_expansion(values.defs, values.defs[name], texts, depth + 1)
                } else {
                    Outcome::too_deep(values.defs)
                }
            } else {
                Outcome::of(values.defs, rendered(name, texts))
            },
        }
    }
}

/// `define(name, body)`: the first argument is expanded and trimmed to give
/// the name, the second is stored as it stands. With fewer than two
/// arguments nothing happens.
pub open spec fn define_expansion(
    defs: Defs,
    call_args: Seq<SpecToken>,
    args: Seq<Seq<char>>,
    depth: nat,
) -> Outcome
    decreases headroom(depth), 0nat, call_args, 0nat,
{
    if call_args.len() >= 2 {
        let name = token_expansion(defs, call_args[0], args, depth);
        match name.text {
            Err(_) => name,
            Ok(text) => Outcome::of(
                name.defs.insert(trim(text), body_of(call_args[1])),
                Seq::empty(),
            ),
        }
    } else {
        Outcome::of(defs, Seq::empty())
    }
}

/// `ifelse` from its argument `i` on: while three arguments are left, the
/// first two are expanded and compared; where they agree the third gives
/// the text. The argument left over after the last three gives it otherwise.
pub open spec fn ifelse_expansion(
    defs: Defs,
    call_args: Seq<SpecToken>,
    args: Seq<Seq<char>>,
    depth: nat,
    i: nat,
) -> Outcome
    decreases headroom(depth), 0nat, call_args, call_args.len() - i,
{
    if i + 2 < call_args.len() {
        let left = token_expansion(defs, call_args[i as int], args, depth);
        match left.text {
            Err(_) => left,
            Ok(a) => {
                let right = token_expansion(left.defs, call_args[i as int + 1], args, depth);
                match right.text {
                    Err(_) => right,
                    Ok(b) => if trim(a) == trim(b) {
                        token_expansion(right.defs, call_args[i as int + 2], args, depth).trimmed()
                    } else {
                        ifelse_expansion(right.defs, call_args, args, depth, i + 3)
                    },
                }
            },
        }
    } else if i < call_args.len() {
        token_expansion(defs, call_args[i as int], args, depth).trimmed()
    } else {
        Outcome::of(defs, Seq::empty())
    }
}

/// `ifdef(name, yes, no)`: the first argument is read as a name, not
/// expanded; the second gives the text where that name is defined, the
/// third where it is not.
pub open spec fn ifdef_expansion(
    defs: Defs,
    call_args: Seq<SpecToken>,
    args: Seq<Seq<char>>,
    depth: nat,
) -> Outcome
    decreases headroom(depth), 0nat, call_args, 0nat,
{
    if call_args.len() == 0 {
        Outcome::of(defs, Seq::empty())
    } else if defs.contains_key(trim(token_text(call_args[0], args))) {
        if call_args.len() > 1 {
            token_expansion(defs, call_args[1], args, depth).trimmed()
        } else {
            Outcome::of(defs, Seq::empty())
        }
    } else if call_args.len() > 2 {
        token_expansion(defs, call_args[2], args, depth).trimmed()
    } else {
        Outcome::of(defs, Seq::empty())
    }
}

/// The expansions of the arguments `call_args[i..]` of a call, each on its
/// own, in order.
pub open spec fn argument_values(
    defs: Defs,
    call_args: Seq<SpecToken>,
    args: Seq<Seq<char>>,
    depth: nat,
    i: nat,
) -> Values
    decreases headroom(depth), 0nat, call_args, call_args.len() - i,
{
    if i >= call_args.len() {
        Values { defs, texts: Ok(Seq::empty()) }
    } else {
        let first = token_expansion(defs, call_args[i as int], args, depth);
        match first.text {
            Err(e) => Values { defs: first.defs, texts: Err(e) },
            Ok(text) => {
                let rest = argument_values(first.defs, call_args, args, depth, i + 1);
                match rest.texts {
                    Err(_) => rest,
                    Ok(texts) => Values { defs: rest.defs, texts: Ok(seq![text] + texts) },
                }
            },
        }
    }
}

/// What the body of a macro gives for the arguments `texts`: its
/// expansion, scanned again.
pub open spec fn body_expansion(defs: Defs, body: Seq<SpecToken>, texts: Seq<Seq<char>>, depth: nat) -> Outcome
    decreases headroom(depth), 2nat, Seq::<SpecToken>::empty(), 0nat,
{
    let given = expansion(defs, body, texts, depth);
    match given.text {
        Ok(text) => rescanned(given.defs, text, depth),
        Err(_) => given,
    }
}

/// The second pass over the text that a macro's body gave: the text is
/// parsed and expanded without arguments. A text that cannot be parsed
/// stays as it is.
pub open spec fn rescanned(defs: Defs, text: Seq<char>, depth: nat) -> Outcome
    decreases headroom(depth), 1nat, Seq::<SpecToken>::empty(), 0nat,
{
    if depth > MAX_DEPTH {
        Outcome::too_deep(defs)
    } else {
        match parse(text) {
            Ok(tokens) => expansion(defs, tokens, Seq::empty(), depth),
            Err(_) => Outcome::of(defs, text),
        }
    }
}

/// The expansion of a text: it is parsed, and its tokens are expanded
/// without arguments.
pub open spec fn text_expansion(defs: Defs, text: Seq<char>) -> Outcome {
    match parse(text) {
        Ok(tokens) => expansion(defs, tokens, Seq::empty(), 0),
        Err(e) => Outcome { defs, text: Err(ExpandError::Parse(e)) },
    }
}

} // verus!
