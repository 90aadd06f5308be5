//! How quotes nest, and why a text with all its quotes closed parses.

use vstd::prelude::*;
use crate::grammar::{
    argument, argument_end, arguments, arguments_from, call_end, closing_paren, closing_quote,
    digits_end, dnl_word, lemma_argument_end, lemma_closing_paren, lemma_closing_quote,
    lemma_digits_end, lemma_line_end, lemma_name_end, lemma_plain_end, line_end, name_end, parse,
    plain_end, positional_at, tokens_from,
};
use crate::text::{
    drop_spaces, is_name_start, is_space, lemma_drop_spaces, lemma_skip_spaces, skip_spaces,
    CLOSE_QUOTE, OPEN_QUOTE,
};

verus! {

/// Whether every opening quote in `s` has its closing quote.
pub open spec fn quotes_closed(s: Seq<char>) -> bool {
    forall|p: int| 0 <= p < s.len() && s[p] == OPEN_QUOTE ==> closing_quote(s, p + 1, 1) is Some
}

/// A span that is open `inner + outer` levels deep first closes its
/// `inner` levels, and what is left of it closes from there.
pub proof fn lemma_quote_depths(s: Seq<char>, i: int, inner: nat, outer: nat)
    requires
        0 <= i,
        inner >= 1,
        outer >= 1,
        closing_quote(s, i, inner + outer) is Some,
    ensures
        closing_quote(s, i, inner) matches Some(m) && m < closing_quote(s, i, inner + outer)->Some_0
            && closing_quote(s, m, outer) == closing_quote(s, i, inner + outer),
    decreases s.len() - i,
{
    if i < s.len() {
        if s[i] == OPEN_QUOTE {
            lemma_quote_depths(s, i + 1, inner + 1, outer);
        } else if s[i] == CLOSE_QUOTE {
            if inner == 1 {
                lemma_closing_quote(s, i + 1, outer);
            } else {
                lemma_quote_depths(s, i + 1, (inner - 1) as nat, outer);
            }
        } else {
            lemma_quote_depths(s, i + 1, inner, outer);
        }
    }
}

/// An opening quote inside a quoted span is closed inside that span.
pub proof fn lemma_quotes_nest(s: Seq<char>, i: int, depth: nat, p: int)
    requires
        0 <= i <= p,
        depth >= 1,
        closing_quote(s, i, depth) matches Some(j) && p < j - 1,
        s[p] == OPEN_QUOTE,
    ensures
        closing_quote(s, p + 1, 1) matches Some(m) && m < closing_quote(s, i, depth)->Some_0,
    decreases p - i,
{
    lemma_closing_quote(s, i, depth);
    if i == p {
        lemma_quote_depths(s, i + 1, 1, depth);
    } else if s[i] == OPEN_QUOTE {
        lemma_quotes_nest(s, i + 1, depth + 1, p);
    } else if s[i] == CLOSE_QUOTE {
        if depth > 1 {
            lemma_quotes_nest(s, i + 1, (depth - 1) as nat, p);
        }
    } else {
        lemma_quotes_nest(s, i + 1, depth, p);
    }
}

/// A span that closes inside a part of `s` closes at the same place when
/// the part is taken alone.
pub proof fn lemma_quote_in_part(s: Seq<char>, from: int, to: int, p: int, depth: nat)
    requires
        0 <= from,
        0 <= p,
        to <= s.len(),
        depth >= 1,
        closing_quote(s, from + p, depth) matches Some(m) && m <= to,
    ensures
        closing_quote(s.subrange(from, to), p, depth) == Some(
            closing_quote(s, from + p, depth)->Some_0 - from,
        ),
    decreases to - from - p,
{
    lemma_closing_quote(s, from + p, depth);
    let part = s.subrange(from, to);
    let c = s[from + p];
    assert(part[p] == c);
    if c == OPEN_QUOTE {
        lemma_quote_in_part(s, from, to, p + 1, depth + 1);
    } else if c == CLOSE_QUOTE {
        if depth > 1 {
            lemma_quote_in_part(s, from, to, p + 1, (depth - 1) as nat);
        }
    } else {
        lemma_quote_in_part(s, from, to, p + 1, depth);
    }
}

/// The content of a quoted span has all its quotes closed.
pub proof fn lemma_content_closed(s: Seq<char>, i: int)
    requires
        0 <= i,
        closing_quote(s, i, 1) is Some,
    ensures
        quotes_closed(s.subrange(i, closing_quote(s, i, 1)->Some_0 - 1)),
{
    let j = closing_quote(s, i, 1)->Some_0;
    lemma_closing_quote(s, i, 1);
    let content = s.subrange(i, j - 1);
    assert forall|p: int| 0 <= p < content.len() && content[p] == OPEN_QUOTE implies closing_quote(
        content,
        p + 1,
        1,
    ) is Some by {
        lemma_quotes_nest(s, i, 1, i + p);
        lemma_quote_in_part(s, i, j - 1, p + 1, 1);
    }
}

/// An opening quote inside the parentheses of a call is closed inside them.
pub proof fn lemma_quotes_in_parens(s: Seq<char>, i: int, depth: nat, p: int)
    requires
        0 <= i <= p,
        closing_paren(s, i, depth) matches Some(k) && p < k - 1,
        s[p] == OPEN_QUOTE,
    ensures
        closing_quote(s, p + 1, 1) matches Some(m) && m < closing_paren(s, i, depth)->Some_0,
    decreases s.len() - i,
{
    lemma_closing_paren(s, i, depth);
    if s[i] == OPEN_QUOTE {
        lemma_closing_quote(s, i + 1, 1);
        let q = closing_quote(s, i + 1, 1)->Some_0;
        lemma_closing_paren(s, q, depth);
        if p == i {
        } else if p < q - 1 {
            lemma_quotes_nest(s, i + 1, 1, p);
        } else {
            lemma_quotes_in_parens(s, q, depth, p);
        }
    } else if s[i] == '(' {
        lemma_quotes_in_parens(s, i + 1, depth + 1, p);
    } else if s[i] == ')' {
        if depth > 1 {
            lemma_quotes_in_parens(s, i + 1, (depth - 1) as nat, p);
        }
    } else {
        lemma_quotes_in_parens(s, i + 1, depth, p);
    }
}

/// The text between the parentheses of a call has all its quotes closed.
pub proof fn lemma_arguments_closed(s: Seq<char>, i: int)
    requires
        0 <= i,
        closing_paren(s, i, 1) is Some,
    ensures
        quotes_closed(s.subrange(i, closing_paren(s, i, 1)->Some_0 - 1)),
{
    let k = closing_paren(s, i, 1)->Some_0;
    lemma_closing_paren(s, i, 1);
    let inside = s.subrange(i, k - 1);
    assert forall|p: int| 0 <= p < inside.len() && inside[p] == OPEN_QUOTE implies closing_quote(
        inside,
        p + 1,
        1,
    ) is Some by {
        lemma_quotes_in_parens(s, i, 1, i + p);
        lemma_quote_in_part(s, i, k - 1, p + 1, 1);
    }
}

/// An opening quote inside an argument is closed inside it, where all
/// quotes are closed.
pub proof fn lemma_quotes_in_argument(s: Seq<char>, i: int, depth: nat, p: int)
    requires
        quotes_closed(s),
        0 <= i <= p < argument_end(s, i, depth),
        s[p] == OPEN_QUOTE,
    ensures
        closing_quote(s, p + 1, 1) matches Some(m) && m <= argument_end(s, i, depth),
    decreases s.len() - i,
{
    lemma_argument_end(s, i, depth);
    if s[i] == OPEN_QUOTE {
        lemma_closing_quote(s, i + 1, 1);
        let q = closing_quote(s, i + 1, 1)->Some_0;
        lemma_argument_end(s, q, depth);
        if p == i {
        } else if p < q - 1 {
            lemma_quotes_nest(s, i + 1, 1, p);
        } else {
            lemma_quotes_in_argument(s, q, depth, p);
        }
    } else if s[i] == '(' {
        lemma_quotes_in_argument(s, i + 1, depth + 1, p);
    } else if s[i] == ')' {
        lemma_quotes_in_argument(
            s,
            i + 1,
            if depth >= 1 {
                (depth - 1) as nat
            } else {
                0
            },
            p,
        );
    } else if s[i] == ',' && depth == 0 {
    } else {
        lemma_quotes_in_argument(s, i + 1, depth, p);
    }
}

/// An argument, without the whitespace around it, has all its quotes
/// closed, where the text it is cut from has.
pub proof fn lemma_piece_closed(s: Seq<char>, i: int)
    requires
        quotes_closed(s),
        0 <= i <= s.len(),
    ensures
        ({
            let end = argument_end(s, i, 0);
            let from = skip_spaces(s, i, end);
            let to = drop_spaces(s, from, end);
            quotes_closed(s.subrange(from, to))
        }),
{
    let end = argument_end(s, i, 0);
    lemma_argument_end(s, i, 0);
    let from = skip_spaces(s, i, end);
    lemma_skip_spaces(s, i, end);
    let to = drop_spaces(s, from, end);
    lemma_drop_spaces(s, from, end);
    let piece = s.subrange(from, to);
    assert forall|p: int| 0 <= p < piece.len() && piece[p] == OPEN_QUOTE implies closing_quote(
        piece,
        p + 1,
        1,
    ) is Some by {
        lemma_quotes_in_argument(s, i, 0, from + p);
        lemma_closing_quote(s, from + p + 1, 1);
        let m = closing_quote(s, from + p + 1, 1)->Some_0;
        if m > to {
            assert(is_space(s[m - 1]));
        }
        lemma_quote_in_part(s, from, to, p + 1, 1);
    }
}

/// A text with all its quotes closed has tokens from any character on.
pub proof fn lemma_tokens_exist(s: Seq<char>, i: int)
    requires
        quotes_closed(s),
    ensures
        tokens_from(s, i) is Ok,
    decreases s.len(), 0nat, s.len() - i,
{
    if i < 0 || i >= s.len() {
    } else if s[i] == OPEN_QUOTE {
        lemma_closing_quote(s, i + 1, 1);
        let j = closing_quote(s, i + 1, 1)->Some_0;
        lemma_content_closed(s, i + 1);
        lemma_tokens_exist(s.subrange(i + 1, j - 1), 0);
        lemma_tokens_exist(s, j);
    } else if positional_at(s, i) {
        lemma_digits_end(s, i + 2);
        lemma_tokens_exist(s, digits_end(s, i + 2));
    } else if is_name_start(s[i]) {
        let j = name_end(s, i + 1);
        lemma_name_end(s, i + 1);
        lemma_line_end(s, j);
        if s.subrange(i, j) == dnl_word() {
            lemma_tokens_exist(s, line_end(s, j));
        } else {
            match call_end(s, j) {
                Some(k) => {
                    lemma_closing_paren(s, j + 1, 1);
                    lemma_arguments_closed(s, j + 1);
                    lemma_arguments_exist(s.subrange(j + 1, k - 1));
                    lemma_tokens_exist(s, k);
                },
                None => {
                    lemma_tokens_exist(s, j);
                },
            }
        }
    } else if is_space(s[i]) {
        lemma_skip_spaces(s, i + 1, s.len() as int);
        lemma_tokens_exist(s, skip_spaces(s, i + 1, s.len() as int));
    } else {
        lemma_plain_end(s, i + 1);
        lemma_tokens_exist(s, plain_end(s, i + 1));
    }
}

/// The arguments written in a text with all its quotes closed can be parsed.
pub proof fn lemma_arguments_exist(s: Seq<char>)
    requires
        quotes_closed(s),
    ensures
        arguments(s) is Ok,
    decreases s.len(), 3nat, 0nat,
{
    if skip_spaces(s, 0, s.len() as int) < s.len() {
        lemma_arguments_from_exist(s, 0);
    }
}

proof fn lemma_arguments_from_exist(s: Seq<char>, i: int)
    requires
        quotes_closed(s),
    ensures
        arguments_from(s, i) is Ok,
    decreases s.len(), 2nat, s.len() - i,
{
    if 0 <= i <= s.len() {
        let end = argument_end(s, i, 0);
        let from = skip_spaces(s, i, end);
        let to = drop_spaces(s, from, end);
        lemma_argument_end(s, i, 0);
        lemma_skip_spaces(s, i, end);
        lemma_drop_spaces(s, from, end);
        lemma_piece_closed(s, i);
        lemma_argument_exists(s.subrange(from, to));
        if end < s.len() {
            lemma_arguments_from_exist(s, end + 1);
        }
    }
}

proof fn lemma_argument_exists(piece: Seq<char>)
    requires
        quotes_closed(piece),
    ensures
        argument(piece) is Ok,
    decreases piece.len(), 1nat, 0nat,
{
    lemma_tokens_exist(piece, 0);
}

/// A text in which every opening quote has its closing quote can be parsed.
pub proof fn law_closed_quotes_parse(s: Seq<char>)
    requires
        quotes_closed(s),
    ensures
        parse(s) is Ok,
{
    lemma_tokens_exist(s, 0);
}

/// Where the tokens of a text fail from some character on, the failure
/// names an opening quote at or after that character that is never closed.
pub proof fn lemma_failure_names_open_quote(s: Seq<char>, i: int)
    requires
        0 <= i,
        s.len() <= usize::MAX,
    ensures
        tokens_from(s, i) matches Err(e) ==> i <= e.position() < s.len() && s[e.position() as int]
            == OPEN_QUOTE && closing_quote(s, e.position() as int + 1, 1) is None,
    decreases s.len() - i,
{
    if i >= s.len() {
    } else if s[i] == OPEN_QUOTE {
        if closing_quote(s, i + 1, 1) is Some {
            lemma_closing_quote(s, i + 1, 1);
            let j = closing_quote(s, i + 1, 1)->Some_0;
            lemma_content_closed(s, i + 1);
            lemma_tokens_exist(s.subrange(i + 1, j - 1), 0);
            lemma_failure_names_open_quote(s, j);
        }
    } else if positional_at(s, i) {
        lemma_digits_end(s, i + 2);
        lemma_failure_names_open_quote(s, digits_end(s, i + 2));
    } else if is_name_start(s[i]) {
        let j = name_end(s, i + 1);
        lemma_name_end(s, i + 1);
        lemma_line_end(s, j);
        if s.subrange(i, j) == dnl_word() {
            lemma_failure_names_open_quote(s, line_end(s, j));
        } else {
            match call_end(s, j) {
                Some(k) => {
                    lemma_closing_paren(s, j + 1, 1);
                    lemma_arguments_closed(s, j + 1);
                    lemma_arguments_exist(s.subrange(j + 1, k - 1));
                    lemma_failure_names_open_quote(s, k);
                },
                None => {
                    lemma_failure_names_open_quote(s, j);
                },
            }
        }
    } else if is_space(s[i]) {
        lemma_skip_spaces(s, i + 1, s.len() as int);
        lemma_failure_names_open_quote(s, skip_spaces(s, i + 1, s.len() as int));
    } else {
        lemma_plain_end(s, i + 1);
        lemma_failure_names_open_quote(s, plain_end(s, i + 1));
    }
}

/// A text that cannot be parsed holds an opening quote that is never
/// closed, and the error names it.
pub proof fn law_parse_fails_at_an_open_quote(s: Seq<char>)
    requires
        s.len() <= usize::MAX,
    ensures
        parse(s) matches Err(e) ==> e.position() < s.len() && s[e.position() as int] == OPEN_QUOTE
            && closing_quote(s, e.position() as int + 1, 1) is None,
{
    lemma_failure_names_open_quote(s, 0);
}

} // verus!
