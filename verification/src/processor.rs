//! The expander: it walks a token tree against a registry and gives the
//! expanded text, as the model in [`crate::semantics`] says.

use vstd::prelude::*;
use vstd::string::*;
use crate::ast::{clone_token, clone_tokens, models, MacroCall, Token};
use crate::parser::M4Parser;
use crate::registry::{Defs, MacroRegistry};
use crate::semantics::{
    argument_values, body_of, call_expansion, expansion, headroom, ifdef_expansion,
    ifelse_expansion, is_quoted, joined, rendered, rescanned, text_expansion, token_expansion,
    token_text, tokens_text, unquoted, ExpandError, Outcome, Values, MAX_DEPTH,
};
use crate::text::{same_text, trimmed, CLOSE_QUOTE, OPEN_QUOTE};

verus! {

/// The texts of a list of strings, one for one.
pub open spec fn texts(strings: Seq<String>) -> Seq<Seq<char>> {
    Seq::new(strings.len(), |i: int| strings[i]@)
}

/// Whether a call left the definitions `defs` and returned `result`, as
/// `outcome` says.
pub open spec fn agrees(defs: Defs, result: Result<String, ExpandError>, outcome: Outcome) -> bool {
    &&& defs == outcome.defs
    &&& match result {
        Ok(text) => outcome.text == Ok::<Seq<char>, ExpandError>(text@),
        Err(e) => outcome.text == Err::<Seq<char>, ExpandError>(e),
    }
}

/// `outcome` with `front` before its text.
pub open spec fn prefixed(front: Seq<char>, outcome: Outcome) -> Outcome {
    Outcome {
        defs: outcome.defs,
        text: match outcome.text {
            Ok(text) => Ok(front + text),
            Err(e) => Err(e),
        },
    }
}

/// `values` with `front` before its texts.
pub open spec fn after(front: Seq<Seq<char>>, values: Values) -> Values {
    Values {
        defs: values.defs,
        texts: match values.texts {
            Ok(texts) => Ok(front + texts),
            Err(e) => Err(e),
        },
    }
}

/// The content of a quoted lexeme; nothing for one that is not quoted.
fn unquote(lexeme: &str) -> (r: Option<String>)
    ensures
        match r {
            Some(text) => is_quoted(lexeme@) && text@ == unquoted(lexeme@),
            None => !is_quoted(lexeme@),
        },
{
    let len = lexeme.unicode_len();
    if len > 0 && lexeme.get_char(0) == OPEN_QUOTE && lexeme.get_char(len - 1) == CLOSE_QUOTE {
        Some(String::from_str(lexeme.substring_char(1, len - 1)))
    } else {
        None
    }
}

/// A call of an undefined macro, written out again.
fn render_call(name: &str, values: &[String]) -> (r: String)
    ensures
        r@ == rendered(name@, texts(values@)),
{
    let mut out = String::from_str(name);
    if values.len() == 0 {
        return out;
    }
    out.append("(");
    let ghost target = name@ + "("@ + joined(texts(values@), 0);
    let mut i: usize = 0;
    while i < values.len()
        invariant
            i <= values@.len(),
            out@ + joined(texts(values@), i as int) == target,
        decreases values@.len() - i,
    {
        let ghost before = out@;
        out.append(values[i].as_str());
        if i + 1 < values.len() {
            out.append(", ");
        }
        assert(out@ + joined(texts(values@), i + 1) =~= before + joined(texts(values@), i as int));
        i += 1;
    }
    assert(out@ + joined(texts(values@), i as int) =~= out@);
    out.append(")");
    out
}

/// The text that `token` stands for when it is read as a name.
fn extract_text(token: &Token, parent_args: &[String]) -> (r: String)
    ensures
        r@ == token_text(token@, texts(parent_args@)),
    decreases token,
{
    match token {
        Token::Literal(s) => s.clone(),
        Token::Positional(n) => {
            if *n > 0 && *n <= parent_args.len() {
                parent_args[*n - 1].clone()
            } else {
                String::new()
            }
        },
        Token::Group(g) => extract_texts(&g.tokens, parent_args),
        Token::MacroCall(call) => {
            if call.args.len() == 0 {
                call.name.clone()
            } else {
                assert(models(call.args@).len() > 0);
                String::new()
            }
        },
    }
}

/// The texts of `tokens`, one after the other.
fn extract_texts(tokens: &Vec<Token>, parent_args: &[String]) -> (r: String)
    ensures
        r@ == tokens_text(models(tokens@), texts(parent_args@)),
    decreases tokens,
{
    let mut out = String::new();
    let ghost all = models(tokens@);
    let mut i: usize = 0;
    assert(all.take(0) =~= Seq::empty());
    while i < tokens.len()
        invariant
            i <= tokens@.len(),
            all == models(tokens@),
            out@ == tokens_text(all.take(i as int), texts(parent_args@)),
        decreases tokens@.len() - i,
    {
        let piece = extract_text(&tokens[i], parent_args);
        out.append(piece.as_str());
        i += 1;
        assert(all.take(i as int).drop_last() =~= all.take(i - 1));
    }
    assert(all.take(i as int) =~= all);
    out
}

/// The body that `define` stores for `token`, as tokens of its own.
fn extract_body_tokens(token: &Token) -> (r: Vec<Token>)
    ensures
        models(r@) == body_of(token@),
{
    match token {
        Token::Group(g) => clone_tokens(&g.tokens),
        _ => {
            let copy = clone_token(token);
            let mut out: Vec<Token> = Vec::new();
            out.push(copy);
            assert(models(out@) =~= seq![token@]);
            out
        },
    }
}

/// The expander of a session: a registry, and the rules of expansion.
pub struct Expander {
    pub registry: MacroRegistry,
}

impl Expander {
    /// An expander over `registry`.
    pub fn new(registry: MacroRegistry) -> (r: Self)
        ensures
            r.registry == registry,
    {
        Expander { registry }
    }

    /// The registry as the expansions so far have left it.
    pub fn into_registry(self) -> (r: MacroRegistry)
        ensures
            r == self.registry,
    {
        self.registry
    }

    /// Expands the text `input`.
    pub fn expand(&mut self, input: &str) -> (r: Result<String, ExpandError>)
        ensures
            agrees(final(self).registry@, r, text_expansion(old(self).registry@, input@)),
    {
        match M4Parser::parse_input(input) {
            Ok(tokens) => self.expand_tokens(tokens.as_slice()),
            Err(e) => Err(ExpandError::Parse(e)),
        }
    }

    /// Expands `tokens`, with no arguments bound.
    pub fn expand_tokens(&mut self, tokens: &[Token]) -> (r: Result<String, ExpandError>)
        ensures
            agrees(
                final(self).registry@,
                r,
                expansion(old(self).registry@, models(tokens@), Seq::empty(), 0),
            ),
    {
        let args: Vec<String> = Vec::new();
        assert(texts(args@) =~= Seq::empty());
        self.expand_tokens_with_depth(tokens, args.as_slice(), 0)
    }

    /// Expands `tokens` at nesting `depth`, with `args` as the arguments of
    /// the macro whose body they are.
    pub fn expand_tokens_with_depth(
        &mut self,
        tokens: &[Token],
        args: &[String],
        depth: usize,
    ) -> (r: Result<String, ExpandError>)
        ensures
            agrees(
                final(self).registry@,
                r,
                expansion(old(self).registry@, models(tokens@), texts(args@), depth as nat),
            ),
        decreases headroom(depth as nat), 0nat, tokens@, 0nat,
    {
        if depth > MAX_DEPTH {
            return Err(ExpandError::DepthExceeded);
        }
        let ghost all = models(tokens@);
        let ghost target = expansion(old(self).registry@, all, texts(args@), depth as nat);
        let mut result = String::new();
        let mut i: usize = 0;
        assert(all.subrange(0, all.len() as int) =~= all);
        while i < tokens.len()
            invariant
                i <= tokens@.len(),
                depth <= MAX_DEPTH,
                all == models(tokens@),
                target == expansion(old(self).registry@, all, texts(args@), depth as nat),
                target == prefixed(
                    result@,
                    expansion(
                        self.registry@,
                        all.subrange(i as int, all.len() as int),
                        texts(args@),
                        depth as nat,
                    ),
                ),
            decreases tokens@.len() - i,
        {
            let ghost rest = all.subrange(i as int, all.len() as int);
            let ghost before = result@;
            assert(rest[0] == tokens@[i as int]@);
            assert(rest.drop_first() =~= all.subrange(i + 1, all.len() as int));
            match self.expand_token(&tokens[i], args, depth) {
                Ok(piece) => {
                    result.append(piece.as_str());
                    proof {
                        let next = expansion(
                            self.registry@,
                            all.subrange(i + 1, all.len() as int),
                            texts(args@),
                            depth as nat,
                        );
                        match next.text {
                            Ok(tail) => {
                                assert(before + (piece@ + tail) =~= result@ + tail);
                            },
                            Err(_) => {},
                        }
                    }
                },
                Err(e) => {
                    return Err(e);
                },
            }
            i += 1;
        }
        assert(result@ + Seq::<char>::empty() =~= result@);
        Ok(result)
    }

    /// Expands one token.
    fn expand_token(&mut self, token: &Token, args: &[String], depth: usize) -> (r: Result<
        String,
        ExpandError,
    >)
        requires
            depth <= MAX_DEPTH,
        ensures
            agrees(
                final(self).registry@,
                r,
                token_expansion(old(self).registry@, token@, texts(args@), depth as nat),
            ),
        decreases headroom(depth as nat), 0nat, token, 0nat,
    {
        match token {
            Token::MacroCall(call) => self.expand_macro_call(call, args, depth),
            Token::Positional(n) => {
                if *n > 0 && *n <= args.len() {
                    Ok(args[*n - 1].clone())
                } else {
                    Ok(String::new())
                }
            },
            Token::Literal(s) => Ok(s.clone()),
            Token::Group(g) => {
                match unquote(g.lexeme.as_str()) {
                    Some(content) => Ok(content),
                    None => self.expand_tokens_with_depth(g.tokens.as_slice(), args, depth),
                }
            },
        }
    }

    /// Expands the call `call`, written in the body of a macro that was
    /// called with `parent_args`.
    fn expand_macro_call(&mut self, call: &MacroCall, parent_args: &[String], depth: usize) -> (r:
        Result<String, ExpandError>)
        requires
            depth <= MAX_DEPTH,
        ensures
            agrees(
                final(self).registry@,
                r,
                call_expansion(
                    old(self).registry@,
                    call.name@,
                    models(call.args@),
                    texts(parent_args@),
                    depth as nat,
                ),
            ),
        decreases headroom(depth as nat), 0nat, call.args@, call.args@.len() + 2,
    {
        let name = call.name.as_str();
        if same_text(name, "define") {
            if call.args.len() >= 2 {
                match self.expand_token(&call.args[0], parent_args, depth) {
                    Ok(text) => {
                        let macro_name = trimmed(text.as_str());
                        let body = extract_body_tokens(&call.args[1]);
                        self.registry.define(macro_name, body);
                    },
                    Err(e) => {
                        return Err(e);
                    },
                }
            }
            Ok(String::new())
        } else if same_text(name, "ifelse") {
            self.expand_ifelse(&call.args, parent_args, depth)
        } else if same_text(name, "ifdef") {
            self.expand_ifdef(&call.args, parent_args, depth)
        } else if same_text(name, "dnl") {
            Ok(String::new())
        } else {
            let expanded_args = match self.expand_arguments(&call.args, parent_args, depth) {
                Ok(values) => values,
                Err(e) => {
                    return Err(e);
                },
            };
            match self.registry.get(name) {
                Some(body) => {
                    let body = clone_tokens(body);
                    match self.expand_tokens_with_depth(
                        body.as_slice(),
                        expanded_args.as_slice(),
                        depth + 1,
                    ) {
                        Ok(expanded) => self.rescan(expanded.as_str(), depth + 1),
                        Err(e) => Err(e),
                    }
                },
                None => Ok(render_call(name, expanded_args.as_slice())),
            }
        }
    }

    /// Expands the arguments of a call, each on its own, in order.
    fn expand_arguments(&mut self, args: &Vec<Token>, parent_args: &[String], depth: usize) -> (r:
        Result<Vec<String>, ExpandError>)
        requires
            depth <= MAX_DEPTH,
        ensures
            ({
                let values = argument_values(
                    old(self).registry@,
                    models(args@),
                    texts(parent_args@),
                    depth as nat,
                    0,
                );
                &&& final(self).registry@ == values.defs
                &&& match r {
                    Ok(v) => values.texts == Ok::<Seq<Seq<char>>, ExpandError>(texts(v@)),
                    Err(e) => values.texts == Err::<Seq<Seq<char>>, ExpandError>(e),
                }
            }),
        decreases headroom(depth as nat), 0nat, args@, args@.len() + 1,
    {
        let ghost target = argument_values(
            old(self).registry@,
            models(args@),
            texts(parent_args@),
            depth as nat,
            0,
        );
        let mut result: Vec<String> = Vec::new();
        let mut i: usize = 0;
        assert(texts(result@) =~= Seq::empty());
        while i < args.len()
            invariant
                i <= args@.len(),
                depth <= MAX_DEPTH,
                target == argument_values(
                    old(self).registry@,
                    models(args@),
                    texts(parent_args@),
                    depth as nat,
                    0,
                ),
                target == after(
                    texts(result@),
                    argument_values(
                        self.registry@,
                        models(args@),
                        texts(parent_args@),
                        depth as nat,
                        i as nat,
                    ),
                ),
            decreases args@.len() - i,
        {
            let ghost before = texts(result@);
            match self.expand_argument(&args[i], parent_args, depth) {
                Ok(value) => {
                    result.push(value);
                    proof {
                        assert(texts(result@) =~= before.push(value@));
                        let next = argument_values(
                            self.registry@,
                            models(args@),
                            texts(parent_args@),
                            depth as nat,
                            (i + 1) as nat,
                        );
                        match next.texts {
                            Ok(tail) => {
                                assert(before + (seq![value@] + tail) =~= texts(result@) + tail);
                            },
                            Err(_) => {},
                        }
                    }
                },
                Err(e) => {
                    return Err(e);
                },
            }
            i += 1;
        }
        assert(texts(result@) + Seq::<Seq<char>>::empty() =~= texts(result@));
        Ok(result)
    }

    /// Expands one argument of a call: a call of a macro is expanded in
    /// full, a quoted span gives its content, anything else is expanded as
    /// a token. All three are what the token's own expansion is.
    fn expand_argument(&mut self, arg: &Token, parent_args: &[String], depth: usize) -> (r: Result<
        String,
        ExpandError,
    >)
        requires
            depth <= MAX_DEPTH,
        ensures
            agrees(
                final(self).registry@,
                r,
                token_expansion(old(self).registry@, arg@, texts(parent_args@), depth as nat),
            ),
        decreases headroom(depth as nat), 0nat, arg, 1nat,
    {
        match arg {
            Token::MacroCall(call) => self.expand_macro_call(call, parent_args, depth),
            Token::Group(g) => {
                match unquote(g.lexeme.as_str()) {
                    Some(content) => Ok(content),
                    None => self.expand_tokens_with_depth(g.tokens.as_slice(), parent_args, depth),
                }
            },
            _ => self.expand_token(arg, parent_args, depth),
        }
    }

    /// Expands `ifelse` with the arguments `args`.
    fn expand_ifelse(&mut self, args: &Vec<Token>, parent_args: &[String], depth: usize) -> (r:
        Result<String, ExpandError>)
        requires
            depth <= MAX_DEPTH,
        ensures
            agrees(
                final(self).registry@,
                r,
                ifelse_expansion(
                    old(self).registry@,
                    models(args@),
                    texts(parent_args@),
                    depth as nat,
                    0,
                ),
            ),
        decreases headroom(depth as nat), 0nat, args@, args@.len() + 1,
    {
        let ghost target = ifelse_expansion(
            old(self).registry@,
            models(args@),
            texts(parent_args@),
            depth as nat,
            0,
        );
        let mut i: usize = 0;
        while i < args.len() && args.len() - i > 2
            invariant
                i <= args@.len(),
                depth <= MAX_DEPTH,
                target == ifelse_expansion(
                    old(self).registry@,
                    models(args@),
                    texts(parent_args@),
                    depth as nat,
                    0,
                ),
                target == ifelse_expansion(
                    self.registry@,
                    models(args@),
                    texts(parent_args@),
                    depth as nat,
                    i as nat,
                ),
            decreases args@.len() - i,
        {
            let a = match self.expand_token(&args[i], parent_args, depth) {
                Ok(text) => text,
                Err(e) => {
                    return Err(e);
                },
            };
            let b = match self.expand_token(&args[i + 1], parent_args, depth) {
                Ok(text) => text,
                Err(e) => {
                    return Err(e);
                },
            };
            if same_text(trimmed(a.as_str()).as_str(), trimmed(b.as_str()).as_str()) {
                return match self.expand_token(&args[i + 2], parent_args, depth) {
                    Ok(text) => Ok(trimmed(text.as_str())),
                    Err(e) => Err(e),
                };
            }
            i += 3;
        }
        if i < args.len() {
            match self.expand_token(&args[i], parent_args, depth) {
                Ok(text) => Ok(trimmed(text.as_str())),
                Err(e) => Err(e),
            }
        } else {
            Ok(String::new())
        }
    }

    /// Expands `ifdef` with the arguments `args`.
    fn expand_ifdef(&mut self, args: &Vec<Token>, parent_args: &[String], depth: usize) -> (r:
        Result<String, ExpandError>)
        requires
            depth <= MAX_DEPTH,
        ensures
            agrees(
                final(self).registry@,
                r,
                ifdef_expansion(
                    old(self).registry@,
                    models(args@),
                    texts(parent_args@),
                    depth as nat,
                ),
            ),
        decreases headroom(depth as nat), 0nat, args@, 0nat,
    {
        if args.len() == 0 {
            return Ok(String::new());
        }
        let name = trimmed(extract_text(&args[0], parent_args).as_str());
        if self.registry.is_defined(name.as_str()) {
            if args.len() > 1 {
                match self.expand_token(&args[1], parent_args, depth) {
                    Ok(text) => Ok(trimmed(text.as_str())),
                    Err(e) => Err(e),
                }
            } else {
                Ok(String::new())
            }
        } else if args.len() > 2 {
            match self.expand_token(&args[2], parent_args, depth) {
                Ok(text) => Ok(trimmed(text.as_str())),
                Err(e) => Err(e),
            }
        } else {
            Ok(String::new())
        }
    }

    /// The second pass: parses `text` and expands it without arguments; a
    /// text that cannot be parsed is returned as it is.
    fn rescan(&mut self, text: &str, depth: usize) -> (r: Result<String, ExpandError>)
        ensures
            agrees(
                final(self).registry@,
                r,
                rescanned(old(self).registry@, text@, depth as nat),
            ),
        decreases headroom(depth as nat), 1nat, Seq::<Token>::empty(), 0nat,
    {
        if depth > MAX_DEPTH {
            return Err(ExpandError::DepthExceeded);
        }
        match M4Parser::parse_input(text) {
            Ok(tokens) => {
                let args: Vec<String> = Vec::new();
                assert(texts(args@) =~= Seq::empty());
                self.expand_tokens_with_depth(tokens.as_slice(), args.as_slice(), depth)
            },
            Err(_) => Ok(String::from_str(text)),
        }
    }
}

impl MacroRegistry {
    /// Expands `source` for the sake of the definitions it makes: the text
    /// it gives is dropped. Where the expansion fails, the registry stays
    /// as it was.
    pub fn load(&mut self, source: &str) -> (r: Result<(), ExpandError>)
        ensures
            ({
                let outcome = text_expansion(old(self)@, source@);
                match r {
                    Ok(_) => outcome.text is Ok && final(self)@ == outcome.defs,
                    Err(e) => outcome.text == Err::<Seq<char>, ExpandError>(e) && final(self)@
                        == old(self)@,
                }
            }),
    {
        let mut expander = Expander::new(self.clone());
        match expander.expand(source) {
            Ok(_) => {
                *self = expander.into_registry();
                Ok(())
            },
            Err(e) => Err(e),
        }
    }
}

/// The state of a reader that serves the expansion of a whole input in
/// pieces: the input is taken once, expanded, and its bytes are handed out
/// as far as the caller's buffers hold them.
pub struct ExpandingReader {
    registry: MacroRegistry,
    buffer: Vec<u8>,
    buffer_pos: usize,
    done: bool,
}

impl ExpandingReader {
    /// The definitions that the input is expanded against.
    pub closed spec fn defs(&self) -> Defs {
        self.registry@
    }

    /// The bytes that are still to be served.
    pub closed spec fn pending(&self) -> Seq<u8> {
        if self.buffer_pos <= self.buffer@.len() {
            self.buffer@.skip(self.buffer_pos as int)
        } else {
            Seq::empty()
        }
    }

    /// Whether the input was taken and expanded.
    pub closed spec fn done(&self) -> bool {
        self.done
    }

    /// A reader that has taken no input yet.
    pub fn new(registry: MacroRegistry) -> (r: Self)
        ensures
            r.defs() == registry@,
            r.pending() == Seq::<u8>::empty(),
            !r.done(),
    {
        let r = ExpandingReader { registry, buffer: Vec::new(), buffer_pos: 0, done: false };
        assert(r.pending() =~= Seq::<u8>::empty());
        r
    }

    /// Whether the input has to be handed in before anything can be served.
    pub fn needs_input(&self) -> (r: bool)
        ensures
            r == (!self.done() && self.pending().len() == 0),
    {
        self.buffer_pos >= self.buffer.len() && !self.done
    }

    /// Takes the whole input: expands it and keeps the bytes of the result
    /// to be served. Once that has succeeded, further calls change nothing.
    /// Where the expansion fails, nothing is taken.
    pub fn fill_buffer(&mut self, input: &str) -> (r: Result<(), ExpandError>)
        ensures
            final(self).defs() == old(self).defs(),
            old(self).done() ==> r is Ok && final(self).done() && final(self).pending()
                == old(self).pending(),
            !old(self).done() ==> match text_expansion(old(self).defs(), input@).text {
                Ok(text) => r is Ok && final(self).done() && final(self).pending()
                    == vstd::utf8::encode_utf8(text),
                Err(e) => r == Err::<(), ExpandError>(e) && !final(self).done()
                    && final(self).pending() == old(self).pending(),
            },
    {
        if self.done {
            return Ok(());
        }
        let mut expander = Expander::new(self.registry.clone());
        match expander.expand(input) {
            Ok(expanded) => {
                self.buffer = expanded.as_str().as_bytes_vec();
                self.buffer_pos = 0;
                assert(self.buffer@.skip(0) =~= self.buffer@);
            },
            Err(e) => {
                return Err(e);
            },
        }
        self.done = true;
        Ok(())
    }

    /// Serves the next bytes: as many as are pending and `buf` has room
    /// for, written to the front of `buf`. The rest of `buf` stays.
    pub fn read(&mut self, buf: &mut [u8]) -> (n: usize)
        ensures
            n == if old(self).pending().len() <= old(buf)@.len() {
                old(self).pending().len()
            } else {
                old(buf)@.len()
            },
            final(buf)@ == old(self).pending().take(n as int) + old(buf)@.skip(n as int),
            final(self).pending() == old(self).pending().skip(n as int),
            final(self).defs() == old(self).defs(),
            final(self).done() == old(self).done(),
    {
        if self.buffer_pos >= self.buffer.len() {
            assert(self.pending().len() == 0);
            assert(buf@ =~= self.pending().take(0) + buf@.skip(0));
            assert(self.pending() =~= self.pending().skip(0));
            return 0;
        }
        let available = self.buffer.len() - self.buffer_pos;
        let to_copy = if available <= buf.len() {
            available
        } else {
            buf.len()
        };
        let ghost pending = self.pending();
        let ghost start = buf@;
        let mut k: usize = 0;
        while k < to_copy
            invariant
                k <= to_copy,
                to_copy <= self.buffer@.len() - self.buffer_pos,
                to_copy <= buf@.len(),
                self.buffer_pos < self.buffer@.len() <= usize::MAX,
                pending == self.buffer@.skip(self.buffer_pos as int),
                buf@.len() == start.len(),
                buf@ =~= pending.take(k as int) + start.skip(k as int),
            decreases to_copy - k,
        {
            buf[k] = self.buffer[self.buffer_pos + k];
            k += 1;
        }
        self.buffer_pos += to_copy;
        assert(self.pending() =~= pending.skip(to_copy as int));
        to_copy
    }
}

} // verus!
