//! The token tree: what a parse produces and what expansion walks.

use vstd::prelude::*;

verus! {

/// One parsed token.
#[derive(Debug, PartialEq)]
pub enum Token {
    /// A macro invocation as written.
    MacroCall(MacroCall),
    /// A reference to the n-th argument (counted from 1) of the macro whose
    /// body holds it.
    Positional(usize),
    /// Verbatim text. The empty string is a literal like any other.
    Literal(String),
    /// A quoted span, or an argument made of several tokens.
    Group(Group),
}

/// A quoted span or a multi-token argument.
#[derive(Debug, PartialEq)]
pub struct Group {
    /// The source text of the span, delimiters and all.
    pub lexeme: String,
    /// The parsed content of the span.
    pub tokens: Vec<Token>,
}

/// A macro name with the arguments it was written with, in source order.
#[derive(Debug, PartialEq)]
pub struct MacroCall {
    pub name: String,
    pub args: Vec<Token>,
}

/// The mathematical value of a [`Token`]: text as character sequences,
/// children as sequences of values.
pub enum SpecToken {
    MacroCall { name: Seq<char>, args: Seq<SpecToken> },
    Positional(nat),
    Literal(Seq<char>),
    Group { lexeme: Seq<char>, tokens: Seq<SpecToken> },
}

impl View for Token {
    type V = SpecToken;

    open spec fn view(&self) -> SpecToken
        decreases self,
    {
        match self {
            Token::MacroCall(call) => SpecToken::MacroCall {
                name: call.name@,
                args: models(call.args@),
            },
            Token::Positional(n) => SpecToken::Positional(*n as nat),
            Token::Literal(s) => SpecToken::Literal(s@),
            Token::Group(g) => SpecToken::Group { lexeme: g.lexeme@, tokens: models(g.tokens@) },
        }
    }
}

/// The values of a sequence of tokens, one for one.
pub open spec fn models(ts: Seq<Token>) -> Seq<SpecToken>
    decreases ts,
{
    Seq::new(
        ts.len(),
        |i: int|
            if 0 <= i < ts.len() {
                ts[i]@
            } else {
                arbitrary()
            },
    )
}

impl View for Group {
    type V = SpecToken;

    open spec fn view(&self) -> SpecToken {
        SpecToken::Group { lexeme: self.lexeme@, tokens: models(self.tokens@) }
    }
}

impl View for MacroCall {
    type V = SpecToken;

    open spec fn view(&self) -> SpecToken {
        SpecToken::MacroCall { name: self.name@, args: models(self.args@) }
    }
}

/// `models` goes through `push`.
pub proof fn lemma_models_push(ts: Seq<Token>, t: Token)
    ensures
        models(ts.push(t)) == models(ts).push(t@),
{
    assert(models(ts.push(t)) =~= models(ts).push(t@));
}

/// A deep copy of `tokens`.
pub fn clone_tokens(tokens: &Vec<Token>) -> (r: Vec<Token>)
    ensures
        models(r@) == models(tokens@),
    decreases tokens,
{
    let mut out: Vec<Token> = Vec::new();
    let mut i: usize = 0;
    while i < tokens.len()
        invariant
            i <= tokens.len(),
            out.len() == i,
            forall|k: int| 0 <= k < i ==> out@[k]@ == tokens@[k]@,
        decreases tokens.len() - i,
    {
        let t = clone_token(&tokens[i]);
        out.push(t);
        i += 1;
    }
    assert(models(out@) =~= models(tokens@));
    out
}

/// A deep copy of `token`.
pub fn clone_token(token: &Token) -> (r: Token)
    ensures
        r@ == token@,
    decreases token,
{
    match token {
        Token::MacroCall(call) => Token::MacroCall(
            MacroCall { name: call.name.clone(), args: clone_tokens(&call.args) },
        ),
        Token::Positional(n) => Token::Positional(*n),
        Token::Literal(s) => Token::Literal(s.clone()),
        Token::Group(g) => Token::Group(
            Group { lexeme: g.lexeme.clone(), tokens: clone_tokens(&g.tokens) },
        ),
    }
}

impl Clone for Token {
    fn clone(&self) -> (r: Token)
        ensures
            r@ == self@,
    {
        clone_token(self)
    }
}

impl Clone for Group {
    fn clone(&self) -> (r: Group)
        ensures
            r@ == self@,
    {
        Group { lexeme: self.lexeme.clone(), tokens: clone_tokens(&self.tokens) }
    }
}

impl Clone for MacroCall {
    fn clone(&self) -> (r: MacroCall)
        ensures
            r@ == self@,
    {
        MacroCall { name: self.name.clone(), args: clone_tokens(&self.args) }
    }
}

impl Token {
    /// This token with all its text held in strings of its own. The
    /// conversion reaches every variant and every child.
    pub fn into_owned(self) -> (r: Token)
        ensures
            r@ == self@,
    {
        match self {
            Token::MacroCall(call) => Token::MacroCall(call.into_owned()),
            Token::Positional(n) => Token::Positional(n),
            Token::Literal(s) => Token::Literal(s),
            Token::Group(g) => Token::Group(g.into_owned()),
        }
    }
}

impl Group {
    /// This group with all its text held in strings of its own.
    pub fn into_owned(self) -> (r: Group)
        ensures
            r@ == self@,
    {
        Group { lexeme: self.lexeme, tokens: clone_tokens(&self.tokens) }
    }
}

impl MacroCall {
    /// This call with all its text held in strings of its own.
    pub fn into_owned(self) -> (r: MacroCall)
        ensures
            r@ == self@,
    {
        MacroCall { name: self.name, args: clone_tokens(&self.args) }
    }
}

} // verus!
