//! What holds of every scan: laws of the lexical grammar, and so of the
//! scanner, whose result is what the grammar defines.
//!
//! The laws speak of the tokens by their index and of the place of each in the
//! source, which a token itself does not record: `token_starts` gives the
//! position of the first character of each token, `error_starts` that of each
//! unit in error.

use crate::chars::{continues_word, is_blank, is_digit, starts_word};
use crate::grammar::{
    end_token, errors_from, follows, lemma_line_at_grows, lemma_run_end, lemma_unit_extent,
    line_at, number_end, operator, punctuation, run_end, scan, token_at, tokens_from,
    unexpected_character, unit_at, unit_errors, unit_tokens, unterminated_string, Lexed, Run,
    Scanned,
};
use crate::token::{LiteralView, TokenView};
use crate::token_kind::{lemma_word_kind, TokenKind};
use vstd::prelude::*;

verus! {

/// Whether a unit gives an item of the kind asked for: a token, or, where
/// `errors` is set, an error.
pub open spec fn gives(lexed: Lexed, errors: bool) -> bool {
    if errors {
        lexed is Error
    } else {
        lexed is Token
    }
}

/// The positions at which the units from `pos` on that give an item of the
/// kind asked for begin, in their order.
pub open spec fn unit_starts(src: Seq<char>, pos: int, errors: bool) -> Seq<int>
    decreases src.len() - pos,
{
    if 0 <= pos < src.len() {
        proof {
            lemma_unit_extent(src, pos);
        }
        let unit = unit_at(src, pos);
        let here = if gives(unit.lexed, errors) {
            seq![pos]
        } else {
            Seq::empty()
        };
        here + unit_starts(src, unit.end, errors)
    } else {
        Seq::empty()
    }
}

/// The positions at which the units from `pos` on that give a token begin, in
/// their order: the position of the first character of each token.
pub open spec fn token_starts(src: Seq<char>, pos: int) -> Seq<int> {
    unit_starts(src, pos, false)
}

/// The positions at which the units from `pos` on that are in error begin, in
/// their order.
pub open spec fn error_starts(src: Seq<char>, pos: int) -> Seq<int> {
    unit_starts(src, pos, true)
}

/// Items that are gathered unit by unit, each unit giving one where it is of
/// the kind asked for and none otherwise, are one for each such unit, each the
/// item of the unit at its place, and these units follow one another.
proof fn lemma_items_of_units<T>(
    src: Seq<char>,
    pos: int,
    errors: bool,
    give: spec_fn(int) -> Seq<T>,
    items: spec_fn(int) -> Seq<T>,
)
    requires
        0 <= pos <= src.len(),
        forall|p: int|
            0 <= p < src.len() ==> (#[trigger] give(p)).len() == if gives(
                unit_at(src, p).lexed,
                errors,
            ) {
                1int
            } else {
                0int
            },
        forall|p: int|
            #[trigger] items(p) == if 0 <= p < src.len() {
                give(p) + items(unit_at(src, p).end)
            } else {
                Seq::empty()
            },
    ensures
        unit_starts(src, pos, errors).len() == items(pos).len(),
        forall|i: int|
            0 <= i < items(pos).len() ==> {
                let start = #[trigger] unit_starts(src, pos, errors)[i];
                &&& pos <= start < src.len()
                &&& give(start) == seq![items(pos)[i]]
            },
        forall|i: int, j: int|
            0 <= i < j < items(pos).len() ==> unit_at(
                src,
                #[trigger] unit_starts(src, pos, errors)[i],
            ).end <= #[trigger] unit_starts(src, pos, errors)[j],
    decreases src.len() - pos,
{
    if pos < src.len() {
        lemma_unit_extent(src, pos);
        let unit = unit_at(src, pos);
        lemma_items_of_units(src, unit.end, errors, give, items);
        let starts = unit_starts(src, pos, errors);
        let rest_starts = unit_starts(src, unit.end, errors);
        let rest_items = items(unit.end);
        assert(items(pos) == give(pos) + rest_items);
        if gives(unit.lexed, errors) {
            assert(starts =~= seq![pos] + rest_starts);
            assert forall|i: int| 0 <= i < items(pos).len() implies {
                let start = #[trigger] starts[i];
                &&& pos <= start < src.len()
                &&& give(start) == seq![items(pos)[i]]
            } by {
                if i > 0 {
                    assert(starts[i] == rest_starts[i - 1]);
                    assert(items(pos)[i] == rest_items[i - 1]);
                } else {
                    assert(give(pos) =~= seq![items(pos)[0]]);
                }
            }
            assert forall|i: int, j: int| 0 <= i < j < items(pos).len() implies unit_at(
                src,
                #[trigger] starts[i],
            ).end <= #[trigger] starts[j] by {
                assert(starts[j] == rest_starts[j - 1]);
                if i > 0 {
                    assert(starts[i] == rest_starts[i - 1]);
                }
            }
        } else {
            assert(starts =~= rest_starts);
            assert(items(pos) =~= rest_items);
        }
    }
}

/// Every token of the units from `pos` on is the token of the unit that
/// begins where the token begins, and the units of two tokens do not overlap:
/// the earlier one ends before the later one begins.
pub proof fn lemma_tokens_of_units(src: Seq<char>, pos: int)
    requires
        0 <= pos <= src.len(),
    ensures
        token_starts(src, pos).len() == tokens_from(src, pos).len(),
        forall|i: int|
            0 <= i < tokens_from(src, pos).len() ==> {
                let start = #[trigger] token_starts(src, pos)[i];
                &&& pos <= start < src.len()
                &&& unit_tokens(src, start) == seq![tokens_from(src, pos)[i]]
            },
        forall|i: int, j: int|
            0 <= i < j < tokens_from(src, pos).len() ==> unit_at(
                src,
                #[trigger] token_starts(src, pos)[i],
            ).end <= #[trigger] token_starts(src, pos)[j],
{
    lemma_items_of_units(
        src,
        pos,
        false,
        |p: int| unit_tokens(src, p),
        |p: int| tokens_from(src, p),
    );
}

/// Every error of the units from `pos` on is the error of the unit that
/// begins where the error begins, and these units follow one another.
pub proof fn lemma_errors_of_units(src: Seq<char>, pos: int)
    requires
        0 <= pos <= src.len(),
    ensures
        error_starts(src, pos).len() == errors_from(src, pos).len(),
        forall|i: int|
            0 <= i < errors_from(src, pos).len() ==> {
                let start = #[trigger] error_starts(src, pos)[i];
                &&& pos <= start < src.len()
                &&& unit_errors(src, start) == seq![errors_from(src, pos)[i]]
            },
        forall|i: int, j: int|
            0 <= i < j < errors_from(src, pos).len() ==> unit_at(
                src,
                #[trigger] error_starts(src, pos)[i],
            ).end <= #[trigger] error_starts(src, pos)[j],
{
    lemma_items_of_units(
        src,
        pos,
        true,
        |p: int| unit_errors(src, p),
        |p: int| errors_from(src, p),
    );
}

/// The token at index `i` of a scan, if it is not the end token, is the token
/// of the unit that begins where it begins.
proof fn lemma_token_unit(src: Seq<char>, tokens: Seq<TokenView>, i: int)
    requires
        scan(src) == Scanned::Ok(tokens),
        0 <= i < tokens.len() - 1,
    ensures
        tokens.len() == token_starts(src, 0).len() + 1,
        ({
            let start = token_starts(src, 0)[i];
            let unit = unit_at(src, start);
            &&& 0 <= start < unit.end <= src.len()
            &&& unit.lexed == Lexed::Token(tokens[i].kind)
            &&& tokens[i] == token_at(src, start, unit.end, tokens[i].kind)
        }),
{
    lemma_tokens_of_units(src, 0);
    let start = token_starts(src, 0)[i];
    lemma_unit_extent(src, start);
    assert(unit_tokens(src, start)[0] == tokens[i]);
}

/// The number of line feeds in `text`.
pub open spec fn line_feeds(text: Seq<char>) -> nat {
    text.filter(|c: char| c == '\n').len()
}

/// The line of a position is one more than the number of line feeds before
/// it.
pub proof fn lemma_line_at_counts_line_feeds(src: Seq<char>, pos: int)
    requires
        0 <= pos <= src.len(),
    ensures
        line_at(src, pos) == 1 + line_feeds(src.take(pos)),
    decreases pos,
{
    reveal(Seq::filter);
    if pos > 0 {
        lemma_line_at_counts_line_feeds(src, pos - 1);
        assert(src.take(pos).drop_last() =~= src.take(pos - 1));
    }
}

/// A source that holds nothing but blank space scans to the end token alone.
pub proof fn lemma_blank_source(src: Seq<char>)
    requires
        forall|i: int| 0 <= i < src.len() ==> is_blank(#[trigger] src[i]),
    ensures
        scan(src) == Scanned::Ok(seq![end_token(src)]),
{
    lemma_blank_from(src, 0);
    assert(Seq::<TokenView>::empty().push(end_token(src)) =~= seq![end_token(src)]);
}

/// Blank space gives neither tokens nor errors.
proof fn lemma_blank_from(src: Seq<char>, pos: int)
    requires
        0 <= pos <= src.len(),
        forall|i: int| 0 <= i < src.len() ==> is_blank(#[trigger] src[i]),
    ensures
        tokens_from(src, pos) == Seq::<TokenView>::empty(),
        errors_from(src, pos).len() == 0,
    decreases src.len() - pos,
{
    if pos < src.len() {
        assert(is_blank(src[pos]));
        lemma_blank_from(src, pos + 1);
        assert(tokens_from(src, pos) =~= Seq::empty());
        assert(errors_from(src, pos) =~= Seq::empty());
    }
}

/// The text of every token is the stretch of the source from the token's
/// first character on: what was read is what is reported. Every token but
/// the end token has at least one character, and the tokens lie in the source
/// in their order without overlapping.
pub proof fn lemma_lexemes_span_source(src: Seq<char>, tokens: Seq<TokenView>)
    requires
        scan(src) == Scanned::Ok(tokens),
    ensures
        tokens.len() == token_starts(src, 0).len() + 1,
        forall|i: int|
            0 <= i < tokens.len() - 1 ==> {
                let start = #[trigger] token_starts(src, 0)[i];
                let end = start + tokens[i].lexeme.len();
                &&& 0 <= start < end <= src.len()
                &&& tokens[i].lexeme == src.subrange(start, end)
            },
        forall|i: int, j: int|
            0 <= i < j < tokens.len() - 1 ==> #[trigger] token_starts(src, 0)[i]
                + tokens[i].lexeme.len() <= #[trigger] token_starts(src, 0)[j],
        tokens.last().lexeme.len() == 0,
{
    lemma_tokens_of_units(src, 0);
    assert forall|i: int| 0 <= i < tokens.len() - 1 implies {
        let start = #[trigger] token_starts(src, 0)[i];
        let end = start + tokens[i].lexeme.len();
        &&& 0 <= start < end <= src.len()
        &&& tokens[i].lexeme == src.subrange(start, end)
        &&& end == unit_at(src, start).end
    } by {
        lemma_token_unit(src, tokens, i);
    }
}

/// Whether position `at` of `src` lies in a comment: two slashes stand at or
/// before it, with no line feed from them to it.
pub open spec fn in_comment(src: Seq<char>, at: int) -> bool {
    exists|from: int|
        {
            &&& 0 <= from <= at
            &&& #[trigger] follows(src, from, '/')
            &&& follows(src, from + 1, '/')
            &&& forall|k: int| from <= k <= at ==> #[trigger] src[k] != '\n'
        }
}

/// Whether position `at` lies in the text of one of the tokens that begin at
/// `starts`, each token reaching as far as its unit.
pub open spec fn in_token(src: Seq<char>, starts: Seq<int>, at: int) -> bool {
    exists|i: int| 0 <= i < starts.len() && #[trigger] starts[i] <= at < unit_at(src, starts[i]).end
}

/// Where the units from `pos` on hold no error, every character from there on
/// is blank, lies in a comment or lies in a token.
proof fn lemma_units_cover(src: Seq<char>, pos: int, at: int)
    requires
        0 <= pos <= at < src.len(),
        errors_from(src, pos).len() == 0,
    ensures
        is_blank(src[at]) || in_comment(src, at) || in_token(src, token_starts(src, pos), at),
    decreases src.len() - pos,
{
    lemma_unit_extent(src, pos);
    let unit = unit_at(src, pos);
    let starts = token_starts(src, pos);
    let rest = token_starts(src, unit.end);
    if at < unit.end {
        match unit.lexed {
            Lexed::Token(_) => {
                assert(starts[0] == pos);
            },
            Lexed::Nothing => {
                if !is_blank(src[pos]) {
                    lemma_run_end(src, pos + 2, Run::Comment);
                    assert(follows(src, pos, '/'));
                }
            },
            Lexed::Error(_) => {
                assert(unit_errors(src, pos).len() == 1);
            },
        }
    } else {
        lemma_units_cover(src, unit.end, at);
        if in_token(src, rest, at) {
            let i = choose|i: int|
                0 <= i < rest.len() && #[trigger] rest[i] <= at && at < unit_at(src, rest[i]).end;
            if unit.lexed is Token {
                assert(starts[i + 1] == rest[i]);
            } else {
                assert(starts[i] == rest[i]);
            }
        }
    }
}

/// Nothing of the source is lost between the tokens: every character that
/// lies in no token's text is blank or lies in a comment.
pub proof fn lemma_gaps_hold_no_text(src: Seq<char>, tokens: Seq<TokenView>, at: int)
    requires
        scan(src) == Scanned::Ok(tokens),
        0 <= at < src.len(),
        forall|i: int|
            0 <= i < token_starts(src, 0).len() && i < tokens.len() ==> !(#[trigger] token_starts(
                src,
                0,
            )[i] <= at < token_starts(src, 0)[i] + tokens[i].lexeme.len()),
    ensures
        is_blank(src[at]) || in_comment(src, at),
{
    lemma_units_cover(src, 0, at);
    lemma_tokens_of_units(src, 0);
    let starts = token_starts(src, 0);
    if in_token(src, starts, at) {
        let i = choose|i: int|
            0 <= i < starts.len() && #[trigger] starts[i] <= at && at < unit_at(
                src,
                starts[i],
            ).end;
        lemma_token_unit(src, tokens, i);
    }
}

/// The line of every token is the line of its first character: one more than
/// the number of line feeds before it, wherever they stand. The line of the
/// end token is that of the end of the source.
pub proof fn lemma_lines_count_line_feeds(src: Seq<char>, tokens: Seq<TokenView>)
    requires
        scan(src) == Scanned::Ok(tokens),
    ensures
        tokens.len() == token_starts(src, 0).len() + 1,
        forall|i: int|
            0 <= i < tokens.len() - 1 ==> tokens[i].line == 1 + line_feeds(
                src.take(#[trigger] token_starts(src, 0)[i]),
            ),
        tokens.last().line == 1 + line_feeds(src),
        forall|i: int, j: int|
            0 <= i <= j < tokens.len() ==> #[trigger] tokens[i].line <= #[trigger] tokens[j].line,
{
    lemma_tokens_of_units(src, 0);
    let starts = token_starts(src, 0);
    assert forall|i: int| 0 <= i < tokens.len() - 1 implies tokens[i].line == line_at(
        src,
        #[trigger] starts[i],
    ) && tokens[i].line == 1 + line_feeds(src.take(starts[i])) by {
        lemma_token_unit(src, tokens, i);
        lemma_line_at_counts_line_feeds(src, starts[i]);
    }
    lemma_line_at_counts_line_feeds(src, src.len() as int);
    assert(src.take(src.len() as int) =~= src);
    assert forall|i: int, j: int| 0 <= i <= j < tokens.len() implies #[trigger] tokens[i].line
        <= #[trigger] tokens[j].line by {
        if i < j {
            let from = starts[i];
            lemma_unit_extent(src, from);
            if j < tokens.len() - 1 {
                assert(unit_at(src, starts[i]).end <= starts[j]);
                lemma_line_at_grows(src, from, starts[j]);
            } else {
                lemma_line_at_grows(src, from, src.len() as int);
            }
        }
    }
}

/// A scan without error ends with the end token, which has no text and no
/// value, and holds no other token of its kind.
pub proof fn lemma_one_end_token(src: Seq<char>, tokens: Seq<TokenView>)
    requires
        scan(src) == Scanned::Ok(tokens),
    ensures
        tokens.len() >= 1,
        tokens.last().kind == TokenKind::Eof,
        tokens.last().lexeme.len() == 0,
        tokens.last().literal is None,
        forall|i: int| 0 <= i < tokens.len() - 1 ==> (#[trigger] tokens[i]).kind != TokenKind::Eof,
{
    assert forall|i: int| 0 <= i < tokens.len() - 1 implies (#[trigger] tokens[i]).kind
        != TokenKind::Eof by {
        lemma_token_unit(src, tokens, i);
        let start = token_starts(src, 0)[i];
        lemma_run_end(src, start + 1, Run::Word);
        lemma_word_kind(src.subrange(start, run_end(src, start + 1, Run::Word)));
    }
}

/// Whether every character of `text` is a decimal digit.
pub open spec fn all_digits(text: Seq<char>) -> bool {
    forall|i: int| 0 <= i < text.len() ==> is_digit(#[trigger] text[i])
}

/// Whether `text` is a decimal numeral: one digit or more, and then, or not,
/// a point and again one digit or more.
pub open spec fn is_numeral(text: Seq<char>) -> bool {
    ||| text.len() > 0 && all_digits(text)
    ||| exists|point: int|
        {
            &&& 0 < point < text.len() - 1
            &&& #[trigger] text[point] == '.'
            &&& all_digits(text.take(point))
            &&& all_digits(text.skip(point + 1))
        }
}

/// Only strings and numbers carry a value. A string has a double quote at
/// both ends of its text and none between them, and its value is the text
/// between them. The value of a number is its text, which is a decimal
/// numeral.
pub proof fn lemma_literals(src: Seq<char>, tokens: Seq<TokenView>)
    requires
        scan(src) == Scanned::Ok(tokens),
    ensures
        forall|i: int|
            0 <= i < tokens.len() ==> {
                let token = #[trigger] tokens[i];
                match token.kind {
                    TokenKind::String => {
                        let inside = token.lexeme.subrange(1, token.lexeme.len() - 1);
                        &&& token.lexeme.len() >= 2
                        &&& token.lexeme.first() == '"'
                        &&& token.lexeme.last() == '"'
                        &&& !inside.contains('"')
                        &&& token.literal == Some(LiteralView::Text(inside))
                    },
                    TokenKind::Number => {
                        &&& is_numeral(token.lexeme)
                        &&& token.literal == Some(LiteralView::Number(token.lexeme))
                    },
                    _ => token.literal is None,
                }
            },
{
    assert forall|i: int| 0 <= i < tokens.len() implies {
        let token = #[trigger] tokens[i];
        match token.kind {
            TokenKind::String => {
                let inside = token.lexeme.subrange(1, token.lexeme.len() - 1);
                &&& token.lexeme.len() >= 2
                &&& token.lexeme.first() == '"'
                &&& token.lexeme.last() == '"'
                &&& !inside.contains('"')
                &&& token.literal == Some(LiteralView::Text(inside))
            },
            TokenKind::Number => {
                &&& is_numeral(token.lexeme)
                &&& token.literal == Some(LiteralView::Number(token.lexeme))
            },
            _ => token.literal is None,
        }
    } by {
        if i < tokens.len() - 1 {
            lemma_token_unit(src, tokens, i);
            let start = token_starts(src, 0)[i];
            let token = tokens[i];
            lemma_run_end(src, start + 1, Run::Word);
            lemma_word_kind(src.subrange(start, run_end(src, start + 1, Run::Word)));
            if token.kind == TokenKind::String {
                lemma_run_end(src, start + 1, Run::Text);
                let inside = token.lexeme.subrange(1, token.lexeme.len() - 1);
                assert forall|k: int| 0 <= k < inside.len() implies inside[k] != '"' by {
                    assert(inside[k] == src[start + 1 + k]);
                }
            } else if token.kind == TokenKind::Number {
                lemma_number_is_numeral(src, start);
            }
        }
    }
}

/// The text of a number is a decimal numeral.
proof fn lemma_number_is_numeral(src: Seq<char>, start: int)
    requires
        0 <= start < src.len(),
        is_digit(src[start]),
    ensures
        is_numeral(src.subrange(start, number_end(src, start))),
{
    lemma_run_end(src, start, Run::Digits);
    let whole = run_end(src, start, Run::Digits);
    let end = number_end(src, start);
    let text = src.subrange(start, end);
    if end == whole {
        assert forall|i: int| 0 <= i < text.len() implies is_digit(#[trigger] text[i]) by {
            assert(text[i] == src[start + i]);
        }
    } else {
        lemma_run_end(src, whole + 1, Run::Digits);
        let point = whole - start;
        assert(text[point] == '.');
        assert forall|i: int| 0 <= i < text.take(point).len() implies is_digit(
            #[trigger] text.take(point)[i],
        ) by {
            assert(text.take(point)[i] == src[start + i]);
        }
        assert forall|i: int| 0 <= i < text.skip(point + 1).len() implies is_digit(
            #[trigger] text.skip(point + 1)[i],
        ) by {
            assert(text.skip(point + 1)[i] == src[whole + 1 + i]);
        }
    }
}

/// Every token is as long as it can be. An operator of one character has no
/// equals sign behind it, and a slash no second slash; a number is not
/// followed by a digit, nor by a point and a digit unless it has a fraction
/// already; a word is not followed by a character that a word goes on with.
pub proof fn lemma_longest_match(src: Seq<char>, tokens: Seq<TokenView>)
    requires
        scan(src) == Scanned::Ok(tokens),
    ensures
        tokens.len() == token_starts(src, 0).len() + 1,
        forall|i: int|
            0 <= i < tokens.len() - 1 ==> {
                let token = #[trigger] tokens[i];
                let end = token_starts(src, 0)[i] + token.lexeme.len();
                match token.kind {
                    TokenKind::Bang | TokenKind::Equal | TokenKind::Less | TokenKind::Greater => {
                        !follows(src, end, '=')
                    },
                    TokenKind::Slash => !follows(src, end, '/'),
                    TokenKind::Number => {
                        &&& end < src.len() ==> !is_digit(src[end])
                        &&& follows(src, end, '.') && end + 1 < src.len() && is_digit(src[end + 1])
                            ==> token.lexeme.contains('.')
                    },
                    TokenKind::Identifier => end < src.len() ==> !continues_word(src[end]),
                    _ => token.kind.is_reserved_word() && end < src.len() ==> !continues_word(
                        src[end],
                    ),
                }
            },
{
    lemma_tokens_of_units(src, 0);
    assert forall|i: int| 0 <= i < tokens.len() - 1 implies {
        let token = #[trigger] tokens[i];
        let end = token_starts(src, 0)[i] + token.lexeme.len();
        match token.kind {
            TokenKind::Bang | TokenKind::Equal | TokenKind::Less | TokenKind::Greater => {
                !follows(src, end, '=')
            },
            TokenKind::Slash => !follows(src, end, '/'),
            TokenKind::Number => {
                &&& end < src.len() ==> !is_digit(src[end])
                &&& follows(src, end, '.') && end + 1 < src.len() && is_digit(src[end + 1])
                    ==> token.lexeme.contains('.')
            },
            TokenKind::Identifier => end < src.len() ==> !continues_word(src[end]),
            _ => token.kind.is_reserved_word() && end < src.len() ==> !continues_word(src[end]),
        }
    } by {
        lemma_token_unit(src, tokens, i);
        let start = token_starts(src, 0)[i];
        let token = tokens[i];
        lemma_run_end(src, start + 1, Run::Word);
        lemma_word_kind(src.subrange(start, run_end(src, start + 1, Run::Word)));
        if token.kind == TokenKind::Number {
            lemma_run_end(src, start, Run::Digits);
            let whole = run_end(src, start, Run::Digits);
            if whole < src.len() {
                lemma_run_end(src, whole + 1, Run::Digits);
            }
            if number_end(src, start) != whole {
                assert(token.lexeme[whole - start] == '.');
            }
        }
    }
}

/// Whether `c` begins a unit that is not in error for its first character: a
/// token, blank space, a comment or a string.
pub open spec fn begins_unit(c: char) -> bool {
    ||| punctuation(c) is Some
    ||| operator(c, false) is Some
    ||| c == '/'
    ||| is_blank(c)
    ||| c == '"'
    ||| is_digit(c)
    ||| starts_word(c)
}

/// A scan fails exactly where a unit is in error, and then reports every such
/// unit, in the order of the source: it does not stop at the first. An error is
/// one of two. Either a character begins no unit: the error has the line of
/// that character, and scanning goes on behind it. Or a string is open at the
/// end of the source: no double quote follows the one that opens it, the error
/// has the line of the end of the source, and it is the last.
pub proof fn lemma_errors(src: Seq<char>)
    ensures
        scan(src) is Err <==> error_starts(src, 0).len() > 0,
        scan(src) matches Err(errors) ==> {
            &&& errors.len() == error_starts(src, 0).len()
            &&& forall|i: int|
                0 <= i < errors.len() ==> {
                    let start = #[trigger] error_starts(src, 0)[i];
                    &&& 0 <= start < src.len()
                    &&& if src[start] == '"' {
                        &&& errors[i].message == unterminated_string()
                        &&& errors[i].line == 1 + line_feeds(src)
                        &&& !src.skip(start + 1).contains('"')
                        &&& i == errors.len() - 1
                    } else {
                        &&& errors[i].message == unexpected_character()
                        &&& errors[i].line == 1 + line_feeds(src.take(start))
                        &&& !begins_unit(src[start])
                    }
                }
            &&& forall|i: int, j: int|
                0 <= i < j < errors.len() ==> #[trigger] error_starts(src, 0)[i]
                    < #[trigger] error_starts(src, 0)[j]
        },
{
    lemma_errors_of_units(src, 0);
    let errors = errors_from(src, 0);
    let starts = error_starts(src, 0);
    assert forall|i: int| 0 <= i < errors.len() implies {
        let start = #[trigger] starts[i];
        &&& 0 <= start < src.len()
        &&& unit_at(src, start).end > start
        &&& if src[start] == '"' {
            &&& errors[i].message == unterminated_string()
            &&& errors[i].line == 1 + line_feeds(src)
            &&& !src.skip(start + 1).contains('"')
            &&& i == errors.len() - 1
        } else {
            &&& errors[i].message == unexpected_character()
            &&& errors[i].line == 1 + line_feeds(src.take(start))
            &&& !begins_unit(src[start])
        }
    } by {
        let start = starts[i];
        lemma_unit_extent(src, start);
        assert(unit_errors(src, start)[0] == errors[i]);
        lemma_line_at_counts_line_feeds(src, start);
        lemma_line_at_counts_line_feeds(src, start + 1);
        lemma_line_at_counts_line_feeds(src, src.len() as int);
        assert(src.take(src.len() as int) =~= src);
        if src[start] == '"' {
            lemma_run_end(src, start + 1, Run::Text);
            let rest = src.skip(start + 1);
            assert forall|k: int| 0 <= k < rest.len() implies rest[k] != '"' by {
                assert(rest[k] == src[start + 1 + k]);
            }
            if i < errors.len() - 1 {
                assert(unit_at(src, starts[i]).end <= starts[i + 1]);
            }
        }
    }
    assert forall|i: int, j: int| 0 <= i < j < errors.len() implies #[trigger] starts[i]
        < #[trigger] starts[j] by {
        lemma_unit_extent(src, starts[i]);
    }
}

} // verus!
