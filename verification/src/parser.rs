//! The parser: text in, token tree out, proved against the grammar.

use vstd::prelude::*;
use vstd::slice::slice_subrange;
use crate::ast::{lemma_models_push, models, Group, MacroCall, SpecToken, Token};
use crate::grammar::{
    argument, argument_end, arguments, arguments_from, closing_paren, closing_quote, decimal,
    digits_end, dnl_word, lemma_argument_end, lemma_closing_paren, lemma_closing_quote,
    lemma_digits_end, lemma_line_end, lemma_name_end, line_end, name_end, parse, plain_at,
    plain_end, positional_at, positional_index, prepend, tokens_from, ParseError, Parsed,
};
use crate::text::{
    digit, digit_value, drop_spaces_in, is_digit, is_name_start, lemma_skip_spaces, name_char,
    name_start, skip_spaces_in, space, text_of, to_chars, CLOSE_QUOTE, OPEN_QUOTE,
};

verus! {

/// The parser of the macro language.
pub struct M4Parser;

/// Whether `result` is what the grammar gives as `parsed`.
pub open spec fn parsed_as(result: Result<Vec<Token>, ParseError>, parsed: Parsed) -> bool {
    match result {
        Ok(tokens) => parsed == Ok::<Seq<SpecToken>, ParseError>(models(tokens@)),
        Err(e) => parsed == Err::<Seq<SpecToken>, ParseError>(e),
    }
}

/// Whether `result`, if it is an error, points into a text of `len` characters.
pub open spec fn error_within<T>(result: Result<T, ParseError>, len: int) -> bool {
    match result {
        Ok(_) => true,
        Err(ParseError::UnterminatedQuote { at }) => at < len,
    }
}

/// `front` followed by what `rest` holds; the failure of `rest` if it failed.
pub open spec fn followed(front: Seq<SpecToken>, rest: Parsed) -> Parsed {
    match rest {
        Ok(tokens) => Ok(front + tokens),
        Err(e) => Err(e),
    }
}

proof fn lemma_followed_prepend(
    front: Seq<SpecToken>,
    token: SpecToken,
    rest: Parsed,
)
    ensures
        followed(front, prepend(token, rest)) == followed(front.push(token), rest),
{
    match rest {
        Ok(tokens) => {
            assert(front + (seq![token] + tokens) =~= front.push(token) + tokens);
        },
        Err(_) => {},
    }
}

fn find_closing_quote(s: &[char], start: usize) -> (r: Option<usize>)
    requires
        1 <= start <= s@.len(),
    ensures
        match r {
            Some(j) => closing_quote(s@, start as int, 1) == Some(j as int) && start < j
                <= s@.len(),
            None => closing_quote(s@, start as int, 1) is None,
        },
{
    let mut i: usize = start;
    let mut depth: usize = 1;
    while i < s.len()
        invariant
            1 <= start <= i <= s@.len(),
            1 <= depth <= i - start + 1,
            closing_quote(s@, start as int, 1) == closing_quote(s@, i as int, depth as nat),
        decreases s@.len() - i,
    {
        let c = s[i];
        if c == OPEN_QUOTE {
            depth += 1;
        } else if c == CLOSE_QUOTE {
            if depth == 1 {
                return Some(i + 1);
            }
            depth -= 1;
        }
        i += 1;
    }
    None
}

fn find_closing_paren(s: &[char], start: usize) -> (r: Option<usize>)
    requires
        1 <= start <= s@.len(),
    ensures
        match r {
            Some(j) => closing_paren(s@, start as int, 1) == Some(j as int) && start < j
                <= s@.len(),
            None => closing_paren(s@, start as int, 1) is None,
        },
{
    let mut i: usize = start;
    let mut depth: usize = 1;
    while i < s.len()
        invariant
            1 <= start <= i <= s@.len(),
            1 <= depth <= i - start + 1,
            closing_paren(s@, start as int, 1) == closing_paren(s@, i as int, depth as nat),
        decreases s@.len() - i,
    {
        let c = s[i];
        if c == OPEN_QUOTE {
            match find_closing_quote(s, i + 1) {
                Some(j) => {
                    i = j;
                },
                None => {
                    return None;
                },
            }
        } else if c == '(' {
            depth += 1;
            i += 1;
        } else if c == ')' {
            if depth == 1 {
                return Some(i + 1);
            }
            depth -= 1;
            i += 1;
        } else {
            i += 1;
        }
    }
    None
}

fn find_argument_end(s: &[char], start: usize) -> (r: usize)
    requires
        start <= s@.len(),
    ensures
        r == argument_end(s@, start as int, 0),
        start <= r <= s@.len(),
        r < s@.len() ==> s@[r as int] == ',',
{
    let mut i: usize = start;
    let mut depth: usize = 0;
    proof {
        lemma_argument_end(s@, start as int, 0);
    }
    while i < s.len()
        invariant
            start <= i <= s@.len(),
            depth <= i - start,
            argument_end(s@, start as int, 0) == argument_end(s@, i as int, depth as nat),
        decreases s@.len() - i,
    {
        let c = s[i];
        if c == OPEN_QUOTE {
            match find_closing_quote(s, i + 1) {
                Some(j) => {
                    i = j;
                },
                None => {
                    i += 1;
                },
            }
        } else if c == '(' {
            depth += 1;
            i += 1;
        } else if c == ')' {
            if depth >= 1 {
                depth -= 1;
            }
            i += 1;
        } else if c == ',' && depth == 0 {
            return i;
        } else {
            i += 1;
        }
    }
    i
}

fn find_name_end(s: &[char], start: usize) -> (r: usize)
    requires
        start <= s@.len(),
    ensures
        r == name_end(s@, start as int),
        start <= r <= s@.len(),
{
    let mut i: usize = start;
    while i < s.len() && name_char(s[i])
        invariant
            start <= i <= s@.len(),
            name_end(s@, start as int) == name_end(s@, i as int),
        decreases s@.len() - i,
    {
        i += 1;
    }
    i
}

fn find_digits_end(s: &[char], start: usize) -> (r: usize)
    requires
        start <= s@.len(),
    ensures
        r == digits_end(s@, start as int),
        start <= r <= s@.len(),
        forall|k: int| start <= k < r ==> is_digit(#[trigger] s@[k]),
{
    let mut i: usize = start;
    proof {
        lemma_digits_end(s@, start as int);
    }
    while i < s.len() && digit(s[i])
        invariant
            start <= i <= s@.len(),
            digits_end(s@, start as int) == digits_end(s@, i as int),
        decreases s@.len() - i,
    {
        i += 1;
    }
    i
}

fn find_line_end(s: &[char], start: usize) -> (r: usize)
    requires
        start <= s@.len(),
    ensures
        r == line_end(s@, start as int),
        start <= r <= s@.len(),
{
    let mut i: usize = start;
    while i < s.len()
        invariant
            start <= i <= s@.len(),
            line_end(s@, start as int) == line_end(s@, i as int),
        decreases s@.len() - i,
    {
        if s[i] == '\n' {
            return i + 1;
        }
        i += 1;
    }
    i
}

fn is_positional_at(s: &[char], i: usize) -> (r: bool)
    requires
        i < s@.len(),
    ensures
        r == positional_at(s@, i as int),
{
    s[i] == '$' && i + 1 < s.len() && digit(s[i + 1])
}

fn is_plain_at(s: &[char], i: usize) -> (r: bool)
    requires
        i < s@.len(),
    ensures
        r == plain_at(s@, i as int),
{
    let c = s[i];
    !space(c) && !name_start(c) && c != OPEN_QUOTE && !is_positional_at(s, i)
}

fn find_plain_end(s: &[char], start: usize) -> (r: usize)
    requires
        start <= s@.len(),
    ensures
        r == plain_end(s@, start as int),
        start <= r <= s@.len(),
{
    let mut i: usize = start;
    while i < s.len() && is_plain_at(s, i)
        invariant
            start <= i <= s@.len(),
            plain_end(s@, start as int) == plain_end(s@, i as int),
        decreases s@.len() - i,
    {
        i += 1;
    }
    i
}

/// The value of the digit `c`.
fn digit_of(c: char) -> (r: usize)
    requires
        is_digit(c),
    ensures
        r == digit_value(c),
        r <= 9,
{
    (c as u32 - '0' as u32) as usize
}

/// The index that the digits `s[from..to]` name.
fn read_index(s: &[char], from: usize, to: usize) -> (r: usize)
    requires
        from <= to <= s@.len(),
        forall|k: int| from <= k < to ==> is_digit(#[trigger] s@[k]),
    ensures
        r == positional_index(s@, from as int, to as int),
{
    let mut value: usize = 0;
    let mut fits = true;
    let mut i: usize = from;
    while i < to
        invariant
            from <= i <= to <= s@.len(),
            forall|k: int| from <= k < to ==> is_digit(#[trigger] s@[k]),
            fits ==> value == decimal(s@, from as int, i as int),
            !fits ==> decimal(s@, from as int, i as int) > usize::MAX,
        decreases to - i,
    {
        let d = digit_of(s[i]);
        if fits {
            match value.checked_mul(10) {
                Some(tens) => match tens.checked_add(d) {
                    Some(next) => {
                        value = next;
                    },
                    None => {
                        fits = false;
                    },
                },
                None => {
                    fits = false;
                },
            }
        }
        i += 1;
    }
    if fits {
        value
    } else {
        0
    }
}

impl M4Parser {
    /// Parses `input` into its tokens.
    pub fn parse_input(input: &str) -> (r: Result<Vec<Token>, ParseError>)
        ensures
            parsed_as(r, parse(input@)),
            error_within(r, input@.len() as int),
    {
        let chars = to_chars(input);
        Self::parse_tokens(chars.as_slice())
    }

    /// The tokens of the text `s`.
    pub fn parse_tokens(s: &[char]) -> (r: Result<Vec<Token>, ParseError>)
        ensures
            parsed_as(r, tokens_from(s@, 0)),
            error_within(r, s@.len() as int),
        decreases s@.len(), 2nat,
    {
        let mut out: Vec<Token> = Vec::new();
        let mut i: usize = 0;
        while i < s.len()
            invariant
                i <= s@.len(),
                tokens_from(s@, 0) == followed(models(out@), tokens_from(s@, i as int)),
            decreases s@.len() - i,
        {
            match Self::parse_token(s, i) {
                Ok((Some(token), next)) => {
                    proof {
                        lemma_followed_prepend(
                            models(out@),
                            token@,
                            tokens_from(s@, next as int),
                        );
                        lemma_models_push(out@, token);
                    }
                    out.push(token);
                    i = next;
                },
                Ok((None, next)) => {
                    i = next;
                },
                Err(e) => {
                    return Err(e);
                },
            }
        }
        proof {
            assert(models(out@) + Seq::empty() =~= models(out@));
        }
        Ok(out)
    }

    /// The token that starts at `at`, with the index just past it. A
    /// comment gives no token.
    fn parse_token(s: &[char], at: usize) -> (r: Result<(Option<Token>, usize), ParseError>)
        requires
            at < s@.len(),
        ensures
            match r {
                Ok((Some(token), next)) => at < next <= s@.len() && tokens_from(s@, at as int)
                    == prepend(token@, tokens_from(s@, next as int)),
                Ok((None, next)) => at < next <= s@.len() && tokens_from(s@, at as int)
                    == tokens_from(s@, next as int),
                Err(e) => tokens_from(s@, at as int) == Err::<Seq<SpecToken>, ParseError>(e),
            },
            error_within(r, s@.len() as int),
        decreases s@.len(), 1nat,
    {
        let c = s[at];
        if c == OPEN_QUOTE {
            match Self::parse_group(s, at) {
                Ok((group, next)) => Ok((Some(Token::Group(group)), next)),
                Err(e) => Err(e),
            }
        } else if is_positional_at(s, at) {
            let next = find_digits_end(s, at + 2);
            Ok((Some(Token::Positional(read_index(s, at + 1, next))), next))
        } else if name_start(c) {
            let end = find_name_end(s, at + 1);
            proof {
                lemma_name_end(s@, at + 1);
                lemma_line_end(s@, end as int);
            }
            if Self::is_dnl(s, at, end) {
                Ok((None, find_line_end(s, end)))
            } else {
                match Self::parse_macrocall(s, at, end) {
                    Ok((call, next)) => Ok((Some(Token::MacroCall(call)), next)),
                    Err(e) => Err(e),
                }
            }
        } else {
            let next = if space(c) {
                proof {
                    lemma_skip_spaces(s@, at + 1, s@.len() as int);
                }
                skip_spaces_in(s, at + 1, s.len())
            } else {
                find_plain_end(s, at + 1)
            };
            Ok((Some(Token::Literal(text_of(s, at, next))), next))
        }
    }

    /// Whether `s[from..to]` is the word `dnl`.
    fn is_dnl(s: &[char], from: usize, to: usize) -> (r: bool)
        requires
            from <= to <= s@.len(),
        ensures
            r == (s@.subrange(from as int, to as int) == dnl_word()),
    {
        let ghost word = s@.subrange(from as int, to as int);
        proof {
            reveal_strlit("dnl");
        }
        if to - from != 3 {
            assert(word.len() != dnl_word().len());
            return false;
        }
        let r = s[from] == 'd' && s[from + 1] == 'n' && s[from + 2] == 'l';
        proof {
            assert(word[0] == s@[from as int]);
            assert(word[1] == s@[from + 1]);
            assert(word[2] == s@[from + 2]);
            if r {
                assert(word =~= dnl_word());
            }
        }
        r
    }

    /// The quoted span that opens at `at`, with the index just past it.
    fn parse_group(s: &[char], at: usize) -> (r: Result<(Group, usize), ParseError>)
        requires
            at < s@.len(),
            s@[at as int] == OPEN_QUOTE,
        ensures
            match r {
                Ok((group, next)) => at < next <= s@.len() && tokens_from(s@, at as int)
                    == prepend(group@, tokens_from(s@, next as int)),
                Err(e) => tokens_from(s@, at as int) == Err::<Seq<SpecToken>, ParseError>(e),
            },
            error_within(r, s@.len() as int),
        decreases s@.len(), 0nat,
    {
        let len = s.len();
        match find_closing_quote(s, at + 1) {
            None => Err(ParseError::UnterminatedQuote { at }),
            Some(end) => {
                proof {
                    lemma_closing_quote(s@, at + 1, 1);
                }
                match Self::parse_tokens(slice_subrange(s, at + 1, end - 1)) {
                    Ok(tokens) => Ok((Group { lexeme: text_of(s, at, end), tokens }, end)),
                    Err(ParseError::UnterminatedQuote { at: inner }) => Err(
                        ParseError::UnterminatedQuote { at: inner + (at + 1) },
                    ),
                }
            },
        }
    }

    /// The call of the name `s[at..name_end]`, with the index just past it.
    fn parse_macrocall(s: &[char], at: usize, name_end: usize) -> (r: Result<
        (MacroCall, usize),
        ParseError,
    >)
        requires
            at < s@.len(),
            s@[at as int] != OPEN_QUOTE,
            !positional_at(s@, at as int),
            is_name_start(s@[at as int]),
            name_end == crate::grammar::name_end(s@, at + 1),
            s@.subrange(at as int, name_end as int) != dnl_word(),
        ensures
            match r {
                Ok((call, next)) => at < next <= s@.len() && tokens_from(s@, at as int)
                    == prepend(call@, tokens_from(s@, next as int)),
                Err(e) => tokens_from(s@, at as int) == Err::<Seq<SpecToken>, ParseError>(e),
            },
            error_within(r, s@.len() as int),
        decreases s@.len(), 0nat,
    {
        proof {
            lemma_name_end(s@, at + 1);
        }
        let name = text_of(s, at, name_end);
        if name_end < s.len() && s[name_end] == '(' {
            match find_closing_paren(s, name_end + 1) {
                Some(end) => {
                    proof {
                        lemma_closing_paren(s@, name_end + 1, 1);
                    }
                    match Self::parse_arguments(slice_subrange(s, name_end + 1, end - 1)) {
                        Ok(args) => Ok((MacroCall { name, args }, end)),
                        Err(ParseError::UnterminatedQuote { at: inner }) => Err(
                            ParseError::UnterminatedQuote { at: inner + (name_end + 1) },
                        ),
                    }
                },
                None => {
                    proof {
                        assert(models(Seq::<Token>::empty()) =~= Seq::empty());
                    }
                    Ok((MacroCall { name, args: Vec::new() }, name_end))
                },
            }
        } else {
            proof {
                assert(models(Seq::<Token>::empty()) =~= Seq::empty());
            }
            Ok((MacroCall { name, args: Vec::new() }, name_end))
        }
    }

    /// The arguments written in `s`, the text between the parentheses of a call.
    fn parse_arguments(s: &[char]) -> (r: Result<Vec<Token>, ParseError>)
        ensures
            parsed_as(r, arguments(s@)),
            error_within(r, s@.len() as int),
        decreases s@.len(), 4nat,
    {
        let mut out: Vec<Token> = Vec::new();
        if skip_spaces_in(s, 0, s.len()) >= s.len() {
            proof {
                assert(models(out@) =~= Seq::empty());
            }
            return Ok(out);
        }
        let mut i: usize = 0;
        loop
            invariant
                i <= s@.len(),
                arguments(s@) == followed(models(out@), arguments_from(s@, i as int)),
            decreases s@.len() - i,
        {
            let end = find_argument_end(s, i);
            let from = skip_spaces_in(s, i, end);
            let to = drop_spaces_in(s, from, end);
            let ghost front = models(out@);
            match Self::parse_argument(slice_subrange(s, from, to)) {
                Ok(token) => {
                    proof {
                        lemma_models_push(out@, token);
                        if end < s@.len() {
                            lemma_followed_prepend(
                                front,
                                token@,
                                arguments_from(s@, end + 1),
                            );
                        } else {
                            assert(front + seq![token@] =~= front.push(token@));
                        }
                    }
                    out.push(token);
                },
                Err(ParseError::UnterminatedQuote { at: inner }) => {
                    return Err(ParseError::UnterminatedQuote { at: inner + from });
                },
            }
            if end < s.len() {
                i = end + 1;
            } else {
                return Ok(out);
            }
        }
    }

    /// The token that stands for the argument written as `piece`.
    fn parse_argument(piece: &[char]) -> (r: Result<Token, ParseError>)
        ensures
            match r {
                Ok(token) => argument(piece@) == Ok::<SpecToken, ParseError>(token@),
                Err(e) => argument(piece@) == Err::<SpecToken, ParseError>(e),
            },
            error_within(r, piece@.len() as int),
        decreases piece@.len(), 3nat,
    {
        match Self::parse_tokens(piece) {
            Ok(mut tokens) => {
                if tokens.len() == 1 {
                    let ghost first = tokens@[0];
                    let token = tokens.remove(0);
                    assert(token == first);
                    assert(models(seq![first])[0] == first@);
                    Ok(token)
                } else {
                    proof {
                        assert(piece@.subrange(0, piece@.len() as int) =~= piece@);
                    }
                    Ok(Token::Group(Group { lexeme: text_of(piece, 0, piece.len()), tokens }))
                }
            },
            Err(e) => Err(e),
        }
    }
}

} // verus!
