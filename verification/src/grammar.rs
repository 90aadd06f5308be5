//! The surface grammar of the macro language, as functions on character
//! sequences.
//!
//! A text is a run of tokens. A token is a quoted span, a positional
//! reference, a macro call, a run of whitespace or a run of other
//! characters. A `dnl` word and the rest of its line leave no token.
//! Quotes nest; the arguments of a call are found by matching its
//! parentheses, skipping quoted spans, and each argument is parsed as a text
//! of its own.

use vstd::prelude::*;
use vstd::string::*;
use crate::ast::SpecToken;
use crate::text::{
    drop_spaces, is_digit, is_name_char, is_name_start, is_space, digit_value, skip_spaces,
    lemma_drop_spaces, lemma_skip_spaces, numeral, push_numeral, CLOSE_QUOTE, OPEN_QUOTE,
};

verus! {

/// Why a text could not be parsed.
#[derive(Debug, Clone, Copy, PartialEq, Eq)]
pub enum ParseError {
    /// The opening quote at character `at` is never closed.
    UnterminatedQuote { at: usize },
}

impl ParseError {
    /// The character at which the text went wrong.
    pub open spec fn position(self) -> nat {
        match self {
            ParseError::UnterminatedQuote { at } => at as nat,
        }
    }

    /// What the message says.
    pub open spec fn message_text(self) -> Seq<char> {
        "unterminated quote at character "@ + numeral(self.position())
    }

    /// The error in words.
    pub fn message(&self) -> (r: String)
        ensures
            r@ == self.message_text(),
    {
        let mut out = String::from_str("unterminated quote at character ");
        match self {
            ParseError::UnterminatedQuote { at } => {
                push_numeral(&mut out, *at);
            },
        }
        out
    }
}

/// The result of parsing, in the model.
pub type Parsed = Result<Seq<SpecToken>, ParseError>;

/// The word that starts a comment.
pub open spec fn dnl_word() -> Seq<char> {
    "dnl"@
}

/// The error for the opening quote at `at`.
pub open spec fn unterminated(at: int) -> ParseError {
    ParseError::UnterminatedQuote { at: at as usize }
}

/// `e` as seen from a text in which the parsed text starts at `offset`.
pub open spec fn moved(e: ParseError, offset: int) -> ParseError {
    match e {
        ParseError::UnterminatedQuote { at } => unterminated(at + offset),
    }
}

/// `token` in front of what `rest` holds; the failure of `rest` if it failed.
pub open spec fn prepend(token: SpecToken, rest: Parsed) -> Parsed {
    match rest {
        Ok(tokens) => Ok(seq![token] + tokens),
        Err(e) => Err(e),
    }
}

/// Where the quoted span ends that is open `depth` levels deep at `i`: the
/// index just past its closing quote, if there is one.
pub open spec fn closing_quote(s: Seq<char>, i: int, depth: nat) -> Option<int>
    decreases s.len() - i,
{
    if i < 0 || i >= s.len() {
        None
    } else if s[i] == OPEN_QUOTE {
        closing_quote(s, i + 1, depth + 1)
    } else if s[i] == CLOSE_QUOTE {
        if depth <= 1 {
            Some(i + 1)
        } else {
            closing_quote(s, i + 1, (depth - 1) as nat)
        }
    } else {
        closing_quote(s, i + 1, depth)
    }
}

/// Where the parenthesis ends that is open `depth` levels deep at `i`: the
/// index just past its closing parenthesis, if there is one. Quoted spans
/// are passed over whole; one that is never closed hides the parenthesis.
pub open spec fn closing_paren(s: Seq<char>, i: int, depth: nat) -> Option<int>
    decreases s.len() - i,
{
    if i < 0 || i >= s.len() {
        None
    } else if s[i] == OPEN_QUOTE {
        match closing_quote(s, i + 1, 1) {
            Some(j) => {
                proof {
                    lemma_closing_quote(s, i + 1, 1);
                }
                closing_paren(s, j, depth)
            },
            None => None,
        }
    } else if s[i] == '(' {
        closing_paren(s, i + 1, depth + 1)
    } else if s[i] == ')' {
        if depth <= 1 {
            Some(i + 1)
        } else {
            closing_paren(s, i + 1, (depth - 1) as nat)
        }
    } else {
        closing_paren(s, i + 1, depth)
    }
}

/// Where the argument ends that holds `i`, `depth` parentheses deep: at the
/// next comma outside quotes and parentheses, or at the end of `s`.
pub open spec fn argument_end(s: Seq<char>, i: int, depth: nat) -> int
    decreases s.len() - i,
{
    if i < 0 || i >= s.len() {
        s.len() as int
    } else if s[i] == OPEN_QUOTE {
        match closing_quote(s, i + 1, 1) {
            Some(j) => {
                proof {
                    lemma_closing_quote(s, i + 1, 1);
                }
                argument_end(s, j, depth)
            },
            None => argument_end(s, i + 1, depth),
        }
    } else if s[i] == '(' {
        argument_end(s, i + 1, depth + 1)
    } else if s[i] == ')' {
        argument_end(s, i + 1, if depth >= 1 { (depth - 1) as nat } else { 0 })
    } else if s[i] == ',' && depth == 0 {
        i
    } else {
        argument_end(s, i + 1, depth)
    }
}

/// The end of the run of name characters at `i`.
pub open spec fn name_end(s: Seq<char>, i: int) -> int
    decreases s.len() - i,
{
    if 0 <= i < s.len() && is_name_char(s[i]) {
        name_end(s, i + 1)
    } else {
        i
    }
}

/// The end of the run of digits at `i`.
pub open spec fn digits_end(s: Seq<char>, i: int) -> int
    decreases s.len() - i,
{
    if 0 <= i < s.len() && is_digit(s[i]) {
        digits_end(s, i + 1)
    } else {
        i
    }
}

/// The decimal number written in `s[from..to]`.
pub open spec fn decimal(s: Seq<char>, from: int, to: int) -> nat
    decreases to - from,
{
    if from < to {
        decimal(s, from, to - 1) * 10 + digit_value(s[to - 1])
    } else {
        0
    }
}

/// The index a positional reference names: the number written, or 0 where
/// that number has no place in a `usize`.
pub open spec fn positional_index(s: Seq<char>, from: int, to: int) -> nat {
    if decimal(s, from, to) <= usize::MAX {
        decimal(s, from, to)
    } else {
        0
    }
}

/// The start of the line after the one that holds `i`: the index just past
/// the next line feed, or the end of `s`.
pub open spec fn line_end(s: Seq<char>, i: int) -> int
    decreases s.len() - i,
{
    if 0 <= i < s.len() {
        if s[i] == '\n' {
            i + 1
        } else {
            line_end(s, i + 1)
        }
    } else {
        i
    }
}

/// Whether a positional reference starts at `i`: a `$` with a digit after it.
pub open spec fn positional_at(s: Seq<char>, i: int) -> bool {
    0 <= i && i + 1 < s.len() && s[i] == '$' && is_digit(s[i + 1])
}

/// Whether the character at `i` belongs to a run of plain text: it is no
/// whitespace and starts no name, quoted span or positional reference.
pub open spec fn plain_at(s: Seq<char>, i: int) -> bool {
    &&& 0 <= i < s.len()
    &&& !is_space(s[i])
    &&& !is_name_start(s[i])
    &&& s[i] != OPEN_QUOTE
    &&& !positional_at(s, i)
}

/// The end of the run of plain text at `i`.
pub open spec fn plain_end(s: Seq<char>, i: int) -> int
    decreases s.len() - i,
{
    if plain_at(s, i) {
        plain_end(s, i + 1)
    } else {
        i
    }
}

/// Where the argument list ends that opens at `i`: the index just past its
/// closing parenthesis, if `s[i]` is a parenthesis that is closed.
pub open spec fn call_end(s: Seq<char>, i: int) -> Option<int> {
    if 0 <= i < s.len() && s[i] == '(' {
        closing_paren(s, i + 1, 1)
    } else {
        None
    }
}

/// A closing quote that is found lies after the start, and is a closing quote.
pub proof fn lemma_closing_quote(s: Seq<char>, i: int, depth: nat)
    requires
        0 <= i,
    ensures
        closing_quote(s, i, depth) matches Some(j) ==> i < j <= s.len() && s[j - 1] == CLOSE_QUOTE,
    decreases s.len() - i,
{
    if i < s.len() {
        if s[i] == OPEN_QUOTE {
            lemma_closing_quote(s, i + 1, depth + 1);
        } else if s[i] == CLOSE_QUOTE {
            if depth > 1 {
                lemma_closing_quote(s, i + 1, (depth - 1) as nat);
            }
        } else {
            lemma_closing_quote(s, i + 1, depth);
        }
    }
}

/// A closing parenthesis that is found lies after the start, and is one.
pub proof fn lemma_closing_paren(s: Seq<char>, i: int, depth: nat)
    requires
        0 <= i,
    ensures
        closing_paren(s, i, depth) matches Some(j) ==> i < j <= s.len() && s[j - 1] == ')',
    decreases s.len() - i,
{
    if i < s.len() {
        if s[i] == OPEN_QUOTE {
            lemma_closing_quote(s, i + 1, 1);
            match closing_quote(s, i + 1, 1) {
                Some(j) => {
                    lemma_closing_paren(s, j, depth);
                },
                None => {},
            }
        } else if s[i] == '(' {
            lemma_closing_paren(s, i + 1, depth + 1);
        } else if s[i] == ')' {
            if depth > 1 {
                lemma_closing_paren(s, i + 1, (depth - 1) as nat);
            }
        } else {
            lemma_closing_paren(s, i + 1, depth);
        }
    }
}

/// An argument ends in its text: at a comma, or at the end.
pub proof fn lemma_argument_end(s: Seq<char>, i: int, depth: nat)
    requires
        0 <= i <= s.len(),
    ensures
        i <= argument_end(s, i, depth) <= s.len(),
        argument_end(s, i, depth) < s.len() ==> s[argument_end(s, i, depth)] == ',',
    decreases s.len() - i,
{
    if i < s.len() {
        if s[i] == OPEN_QUOTE {
            lemma_closing_quote(s, i + 1, 1);
            match closing_quote(s, i + 1, 1) {
                Some(j) => {
                    lemma_argument_end(s, j, depth);
                },
                None => {
                    lemma_argument_end(s, i + 1, depth);
                },
            }
        } else if s[i] == '(' {
            lemma_argument_end(s, i + 1, depth + 1);
        } else if s[i] == ')' {
            lemma_argument_end(s, i + 1, if depth >= 1 { (depth - 1) as nat } else { 0 });
        } else if s[i] == ',' && depth == 0 {
        } else {
            lemma_argument_end(s, i + 1, depth);
        }
    }
}

/// A name ends in its text: at the first character that is none of a name.
pub proof fn lemma_name_end(s: Seq<char>, i: int)
    requires
        0 <= i <= s.len(),
    ensures
        i <= name_end(s, i) <= s.len(),
        forall|k: int| i <= k < name_end(s, i) ==> is_name_char(#[trigger] s[k]),
        name_end(s, i) < s.len() ==> !is_name_char(s[name_end(s, i)]),
    decreases s.len() - i,
{
    if i < s.len() && is_name_char(s[i]) {
        lemma_name_end(s, i + 1);
    }
}

/// A run of digits ends in its text, and holds digits only.
pub proof fn lemma_digits_end(s: Seq<char>, i: int)
    requires
        0 <= i <= s.len(),
    ensures
        i <= digits_end(s, i) <= s.len(),
        forall|k: int| i <= k < digits_end(s, i) ==> is_digit(#[trigger] s[k]),
    decreases s.len() - i,
{
    if i < s.len() && is_digit(s[i]) {
        lemma_digits_end(s, i + 1);
    }
}

/// A line ends in its text, and after the character it was asked from.
pub proof fn lemma_line_end(s: Seq<char>, i: int)
    requires
        0 <= i <= s.len(),
    ensures
        i <= line_end(s, i) <= s.len(),
        i < s.len() ==> i < line_end(s, i),
    decreases s.len() - i,
{
    if i < s.len() && s[i] != '\n' {
        lemma_line_end(s, i + 1);
    }
}

/// A run of plain text ends in its text, and holds plain characters only.
pub proof fn lemma_plain_end(s: Seq<char>, i: int)
    requires
        0 <= i <= s.len(),
    ensures
        i <= plain_end(s, i) <= s.len(),
        forall|k: int| i <= k < plain_end(s, i) ==> plain_at(s, k),
    decreases s.len() - i,
{
    if plain_at(s, i) {
        lemma_plain_end(s, i + 1);
    }
}

/// The tokens of `s` from `i` on.
pub open spec fn tokens_from(s: Seq<char>, i: int) -> Parsed
    decreases s.len(), 0nat, s.len() - i,
{
    if i < 0 || i >= s.len() {
        Ok(Seq::empty())
    } else if s[i] == OPEN_QUOTE {
        match closing_quote(s, i + 1, 1) {
            None => Err(unterminated(i)),
            Some(j) => {
                proof {
                    lemma_closing_quote(s, i + 1, 1);
                }
                match tokens_from(s.subrange(i + 1, j - 1), 0) {
                    Err(e) => Err(moved(e, i + 1)),
                    Ok(inner) => prepend(
                        SpecToken::Group { lexeme: s.subrange(i, j), tokens: inner },
                        tokens_from(s, j),
                    ),
                }
            },
        }
    } else if positional_at(s, i) {
        let j = digits_end(s, i + 2);
        proof {
            lemma_digits_end(s, i + 2);
        }
        prepend(SpecToken::Positional(positional_index(s, i + 1, j)), tokens_from(s, j))
    } else if is_name_start(s[i]) {
        let j = name_end(s, i + 1);
        let name = s.subrange(i, j);
        proof {
            lemma_name_end(s, i + 1);
            lemma_line_end(s, j);
        }
        if name == dnl_word() {
            tokens_from(s, line_end(s, j))
        } else {
            match call_end(s, j) {
                Some(k) => {
                    proof {
                        lemma_closing_paren(s, j + 1, 1);
                    }
                    match arguments(s.subrange(j + 1, k - 1)) {
                        Err(e) => Err(moved(e, j + 1)),
                        Ok(args) => prepend(
                            SpecToken::MacroCall { name, args },
                            tokens_from(s, k),
                        ),
                    }
                },
                None => prepend(
                    SpecToken::MacroCall { name, args: Seq::empty() },
                    tokens_from(s, j),
                ),
            }
        }
    } else if is_space(s[i]) {
        let j = skip_spaces(s, i + 1, s.len() as int);
        proof {
            lemma_skip_spaces(s, i + 1, s.len() as int);
        }
        prepend(SpecToken::Literal(s.subrange(i, j)), tokens_from(s, j))
    } else {
        let j = plain_end(s, i + 1);
        proof {
            lemma_plain_end(s, i + 1);
        }
        prepend(SpecToken::Literal(s.subrange(i, j)), tokens_from(s, j))
    }
}

/// The token that stands for the argument written as `piece`: its one
/// token, or a group of its tokens where there is another number of them.
pub open spec fn argument(piece: Seq<char>) -> Result<SpecToken, ParseError>
    decreases piece.len(), 1nat, 0nat,
{
    match tokens_from(piece, 0) {
        Err(e) => Err(e),
        Ok(tokens) => if tokens.len() == 1 {
            Ok(tokens[0])
        } else {
            Ok(SpecToken::Group { lexeme: piece, tokens })
        },
    }
}

/// The arguments written in `s` from `i` on: `s` is cut at the commas
/// outside quotes and parentheses, and the whitespace around each piece is
/// dropped.
pub open spec fn arguments_from(s: Seq<char>, i: int) -> Parsed
    decreases s.len(), 2nat, s.len() - i,
{
    if i < 0 || i > s.len() {
        Ok(Seq::empty())
    } else {
        let end = argument_end(s, i, 0);
        let from = skip_spaces(s, i, end);
        let to = drop_spaces(s, from, end);
        proof {
            lemma_argument_end(s, i, 0);
            lemma_skip_spaces(s, i, end);
            lemma_drop_spaces(s, from, end);
        }
        match argument(s.subrange(from, to)) {
            Err(e) => Err(moved(e, from)),
            Ok(first) => if end < s.len() {
                prepend(first, arguments_from(s, end + 1))
            } else {
                Ok(seq![first])
            },
        }
    }
}

/// The arguments written between the parentheses of a call: none where
/// there is only whitespace.
pub open spec fn arguments(s: Seq<char>) -> Parsed
    decreases s.len(), 3nat, 0nat,
{
    if skip_spaces(s, 0, s.len() as int) >= s.len() {
        Ok(Seq::empty())
    } else {
        arguments_from(s, 0)
    }
}

/// The tokens of the text `s`, or why it has none.
pub open spec fn parse(s: Seq<char>) -> Parsed {
    tokens_from(s, 0)
}

} // verus!
