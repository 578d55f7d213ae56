//! What holds of every scan, proved from the grammar.

use crate::grammar::{
    eof, has_char, has_digit, is_alpha, is_alpha_numeric, is_blank, is_digit, is_digits,
    is_lexeme, is_numeral, keywords, lemma_lexeme_bounds, lemma_run_is_longest, lexeme_at,
    line_at, newlines_before, run_end, scan, scan_from, span_texts, span_tokens, spans,
    spans_from, token_at, tokens_at, word_kind, LiteralView, Run, Span, TokenView,
};
use crate::token_type::TokenType;
use vstd::prelude::*;

verus! {

/// There are no more line breaks before a position than characters.
pub proof fn lemma_newlines_bounded(s: Seq<char>, pos: int)
    requires
        0 <= pos,
    ensures
        newlines_before(s, pos) <= pos,
    decreases pos,
{
    if pos > 0 {
        lemma_newlines_bounded(s, pos - 1);
    }
}

/// What the scanner discards is a single blank, or a comment: two slashes
/// and all that follows them on the line, without the line break.
pub proof fn lemma_discards_blanks_and_comments(s: Seq<char>, pos: int)
    requires
        0 <= pos < s.len(),
        lexeme_at(s, pos).kind is None,
    ensures
        ({
            let end = lexeme_at(s, pos).end;
            ||| is_blank(s[pos]) && end == pos + 1
            ||| {
                &&& has_char(s, pos, '/')
                &&& has_char(s, pos + 1, '/')
                &&& pos + 2 <= end <= s.len()
                &&& forall|i: int| pos <= i < end ==> #[trigger] s[i] != '\n'
                &&& end < s.len() ==> s[end] == '\n'
            }
        }),
{
    if !is_blank(s[pos]) {
        lemma_run_is_longest(s, pos + 2, Run::Comment);
    }
}

/// Two slashes begin a comment, which makes no token and ends before the
/// line break or with the text.
pub proof fn lemma_comment_makes_no_token(s: Seq<char>, pos: int)
    requires
        has_char(s, pos, '/'),
        has_char(s, pos + 1, '/'),
    ensures
        tokens_at(s, pos) == Seq::<TokenView>::empty(),
        pos + 2 <= lexeme_at(s, pos).end <= s.len(),
        forall|i: int| pos <= i < lexeme_at(s, pos).end ==> #[trigger] s[i] != '\n',
        lexeme_at(s, pos).end < s.len() ==> s[lexeme_at(s, pos).end] == '\n',
{
    lemma_run_is_longest(s, pos + 2, Run::Comment);
}

/// An operator is never split from its `=`: where `!`, `=`, `<` or `>`
/// stands alone as a token, the character behind it is no `=`.
pub proof fn lemma_operators_are_not_split(s: Seq<char>, pos: int)
    requires
        0 <= pos < s.len(),
        ({
            let kind = lexeme_at(s, pos).kind;
            ||| kind == Some(TokenType::Bang)
            ||| kind == Some(TokenType::Equal)
            ||| kind == Some(TokenType::Less)
            ||| kind == Some(TokenType::Greater)
        }),
    ensures
        lexeme_at(s, pos).end == pos + 1,
        !has_char(s, pos + 1, '='),
{
    lemma_word_kind(s.subrange(pos, run_end(s, pos, Run::Word)));
    lemma_run_is_longest(s, pos + 1, Run::Quoted);
}

/// A reserved word is a token only as a whole word: the lexeme of a keyword
/// token is the spelling of that keyword, the lexeme of an identifier is
/// the spelling of none, and neither is followed by a letter, a digit or an
/// underscore.
pub proof fn lemma_words_are_whole(s: Seq<char>, pos: int)
    requires
        0 <= pos < s.len(),
        lexeme_at(s, pos).kind is Some,
        lexeme_at(s, pos).kind->0 is Identifier || lexeme_at(s, pos).kind->0.is_keyword(),
    ensures
        ({
            let end = lexeme_at(s, pos).end;
            let kind = lexeme_at(s, pos).kind->0;
            let text = s.subrange(pos, end);
            &&& is_alpha(s[pos])
            &&& pos < end <= s.len()
            &&& forall|i: int| pos <= i < end ==> is_alpha_numeric(#[trigger] s[i])
            &&& end < s.len() ==> !is_alpha_numeric(s[end])
            &&& kind.is_keyword() <==> keywords().contains_key(text)
            &&& kind.is_keyword() ==> keywords()[text] == kind
        }),
{
    lemma_run_is_longest(s, pos + 1, Run::Quoted);
    lemma_run_is_longest(s, pos, Run::Word);
    lemma_word_kind(s.subrange(pos, run_end(s, pos, Run::Word)));
}

/// A string that never closes is one error token that takes in all the
/// text that is left; nothing follows it but `Eof`.
pub proof fn lemma_unterminated_string_ends_scan(s: Seq<char>, pos: int)
    requires
        has_char(s, pos, '"'),
        forall|i: int| pos < i < s.len() ==> #[trigger] s[i] != '"',
    ensures
        scan_from(s, pos) == seq![
            token_at(s, pos, s.len() as int, TokenType::Unknown),
            eof(s),
        ],
{
    lemma_run_is_longest(s, pos + 1, Run::Quoted);
    assert(scan_from(s, s.len() as int) == seq![eof(s)]);
    assert(scan_from(s, pos) =~= seq![
        token_at(s, pos, s.len() as int, TokenType::Unknown),
        eof(s),
    ]);
}

/// The lexeme of a number literal is a decimal numeral, and the token
/// carries that numeral as its value.
pub proof fn lemma_number_is_numeral(s: Seq<char>, pos: int)
    requires
        0 <= pos < s.len(),
        lexeme_at(s, pos).kind == Some(TokenType::Number),
    ensures
        is_numeral(s.subrange(pos, lexeme_at(s, pos).end)),
        tokens_at(s, pos)[0].literal == LiteralView::Number(
            s.subrange(pos, lexeme_at(s, pos).end),
        ),
{
    let end = lexeme_at(s, pos).end;
    let text = s.subrange(pos, end);
    let whole = run_end(s, pos, Run::Digits);
    lemma_word_kind(s.subrange(pos, run_end(s, pos, Run::Word)));
    lemma_run_is_longest(s, pos + 1, Run::Quoted);
    assert(is_digit(s[pos]));
    lemma_run_is_longest(s, pos, Run::Digits);
    if has_char(s, whole, '.') && has_digit(s, whole + 1) {
        lemma_run_is_longest(s, whole + 1, Run::Digits);
        let dot = whole - pos;
        assert(has_char(text, dot, '.'));
        assert(is_digits(text.subrange(0, dot)));
        assert(is_digits(text.subrange(dot + 1, text.len() as int)));
    } else {
        assert(is_digits(text));
    }
}

/// A word is an identifier or one of the reserved words, nothing else.
pub proof fn lemma_word_kind(text: Seq<char>)
    ensures
        word_kind(text) is Identifier || word_kind(text).is_keyword(),
{
}

/// No lexeme of the text makes an `Eof` token.
pub proof fn lemma_lexeme_is_not_eof(s: Seq<char>, pos: int)
    ensures
        lexeme_at(s, pos).kind != Some(TokenType::Eof),
{
    let end = run_end(s, pos, Run::Word);
    lemma_word_kind(s.subrange(pos, end));
}

/// A position further on lies on the same line or a later one.
pub proof fn lemma_line_at_ascends(s: Seq<char>, from: int, to: int)
    requires
        from <= to,
    ensures
        line_at(s, from) <= line_at(s, to),
    decreases to - from,
{
    if from < to {
        lemma_line_at_ascends(s, from, to - 1);
    }
}

/// From any position on, the scan ends with `Eof` and holds no other `Eof`.
proof fn lemma_eof_closes_scan_from(s: Seq<char>, pos: int)
    ensures
        scan_from(s, pos).len() >= 1,
        scan_from(s, pos).last() == eof(s),
        forall|i: int|
            0 <= i < scan_from(s, pos).len() - 1 ==> !((#[trigger] scan_from(
                s,
                pos,
            )[i]).token_type is Eof),
    decreases s.len() - pos,
{
    if 0 <= pos < s.len() {
        lemma_lexeme_bounds(s, pos);
        lemma_lexeme_is_not_eof(s, pos);
        lemma_eof_closes_scan_from(s, lexeme_at(s, pos).end);
    }
}

/// Every scan ends with exactly one `Eof` token: the last token is `Eof`,
/// and no token before it is.
pub proof fn lemma_eof_closes_scan(s: Seq<char>)
    ensures
        scan(s).len() >= 1,
        scan(s).last() == eof(s),
        forall|i: int| 0 <= i < scan(s).len() - 1 ==> !((#[trigger] scan(s)[i]).token_type is Eof),
{
    lemma_eof_closes_scan_from(s, 0);
}

/// From any position on, no token stands on an earlier line than the
/// position, and none on an earlier line than a token before it.
proof fn lemma_lines_ascend_from(s: Seq<char>, pos: int)
    requires
        0 <= pos <= s.len(),
    ensures
        forall|i: int|
            0 <= i < scan_from(s, pos).len() ==> line_at(s, pos) <= (#[trigger] scan_from(
                s,
                pos,
            )[i]).line,
        forall|i: int, j: int|
            0 <= i <= j < scan_from(s, pos).len() ==> (#[trigger] scan_from(s, pos)[i]).line
                <= (#[trigger] scan_from(s, pos)[j]).line,
    decreases s.len() - pos,
{
    if pos < s.len() {
        let end = lexeme_at(s, pos).end;
        lemma_lexeme_bounds(s, pos);
        lemma_lines_ascend_from(s, end);
        lemma_line_at_ascends(s, pos, end);
    }
}

/// Line numbers never fall along a scan.
pub proof fn lemma_lines_ascend(s: Seq<char>)
    ensures
        forall|i: int, j: int|
            0 <= i <= j < scan(s).len() ==> (#[trigger] scan(s)[i]).line <= (#[trigger] scan(
                s,
            )[j]).line,
{
    lemma_lines_ascend_from(s, 0);
}

/// From any position on, the stretches follow one another without gap or
/// overlap up to the end of the text.
proof fn lemma_spans_tile_from(s: Seq<char>, pos: int)
    requires
        0 <= pos <= s.len(),
    ensures
        pos < s.len() ==> spans_from(s, pos).len() > 0 && spans_from(s, pos)[0].start == pos
            && spans_from(s, pos).last().end == s.len(),
        pos == s.len() ==> spans_from(s, pos).len() == 0,
        forall|i: int|
            0 <= i < spans_from(s, pos).len() ==> pos <= (#[trigger] spans_from(s, pos)[i]).start
                < spans_from(s, pos)[i].end <= s.len(),
        forall|i: int|
            0 <= i < spans_from(s, pos).len() - 1 ==> (#[trigger] spans_from(s, pos)[i]).end
                == spans_from(s, pos)[i + 1].start,
        forall|i: int|
            0 <= i < spans_from(s, pos).len() ==> is_lexeme(s, #[trigger] spans_from(s, pos)[i]),
    decreases s.len() - pos,
{
    if pos < s.len() {
        let end = lexeme_at(s, pos).end;
        lemma_lexeme_bounds(s, pos);
        lemma_spans_tile_from(s, end);
        let rest = spans_from(s, end);
        let all = spans_from(s, pos);
        assert forall|i: int| 0 <= i < all.len() - 1 implies (#[trigger] all[i]).end == all[i
            + 1].start by {
            if i > 0 {
                assert(all[i] == rest[i - 1]);
                assert(all[i + 1] == rest[i]);
            }
        }
    }
}

/// From any position on, the texts of the stretches make up the rest of the
/// text, and their tokens the rest of the scan.
proof fn lemma_spans_rebuild_from(s: Seq<char>, pos: int)
    requires
        0 <= pos <= s.len(),
    ensures
        span_texts(s, spans_from(s, pos)).flatten() == s.subrange(pos, s.len() as int),
        span_tokens(s, spans_from(s, pos)).flatten().push(eof(s)) == scan_from(s, pos),
    decreases s.len() - pos,
{
    if pos < s.len() {
        let lexeme = lexeme_at(s, pos);
        let first = Span { start: pos, end: lexeme.end, kind: lexeme.kind };
        let rest = spans_from(s, lexeme.end);
        lemma_lexeme_bounds(s, pos);
        lemma_spans_rebuild_from(s, lexeme.end);

        let texts = span_texts(s, spans_from(s, pos));
        assert(texts.first() == first.text(s));
        assert(texts.drop_first() =~= span_texts(s, rest));
        assert(texts.flatten() =~= s.subrange(pos, s.len() as int));

        let tokens = span_tokens(s, spans_from(s, pos));
        assert(tokens.first() == tokens_at(s, pos));
        assert(tokens.drop_first() =~= span_tokens(s, rest));
        assert(tokens.flatten().push(eof(s)) =~= scan_from(s, pos));
    } else {
        assert(span_texts(s, spans_from(s, pos)).flatten() =~= s.subrange(pos, s.len() as int));
        assert(span_tokens(s, spans_from(s, pos)).flatten().push(eof(s)) =~= scan_from(s, pos));
    }
}

/// The scanner cuts the text into stretches that follow one another without
/// gap or overlap from its first character to its last, each of them the
/// lexeme that begins where it begins. Put end to end, the stretches are the
/// text again; and the tokens of the scan are the tokens of the stretches
/// that are not discarded, in the order of the text, closed by `Eof`.
pub proof fn lemma_spans_rebuild_source(s: Seq<char>)
    ensures
        span_texts(s, spans(s)).flatten() == s,
        span_tokens(s, spans(s)).flatten().push(eof(s)) == scan(s),
        s.len() > 0 ==> spans(s).len() > 0 && spans(s)[0].start == 0 && spans(s).last().end
            == s.len(),
        s.len() == 0 ==> spans(s).len() == 0,
        forall|i: int|
            0 <= i < spans(s).len() ==> 0 <= (#[trigger] spans(s)[i]).start < spans(s)[i].end
                <= s.len(),
        forall|i: int|
            0 <= i < spans(s).len() - 1 ==> (#[trigger] spans(s)[i]).end == spans(s)[i + 1].start,
        forall|i: int| 0 <= i < spans(s).len() ==> is_lexeme(s, #[trigger] spans(s)[i]),
{
    lemma_spans_tile_from(s, 0);
    lemma_spans_rebuild_from(s, 0);
    assert(s.subrange(0, s.len() as int) =~= s);
}

/// Each token of the scan from `from` on, but the closing `Eof`, is the
/// token of a lexeme that begins at or after `from`: the position returned.
proof fn lemma_token_has_lexeme_from(s: Seq<char>, from: int, i: int) -> (pos: int)
    requires
        0 <= from <= s.len(),
        0 <= i < scan_from(s, from).len() - 1,
    ensures
        from <= pos < s.len(),
        tokens_at(s, pos) == seq![scan_from(s, from)[i]],
    decreases s.len() - from,
{
    lemma_lexeme_bounds(s, from);
    let end = lexeme_at(s, from).end;
    if lexeme_at(s, from).kind is Some && i == 0 {
        from
    } else {
        lemma_token_has_lexeme_from(s, end, i - tokens_at(s, from).len())
    }
}

/// Each token of a scan, but the closing `Eof`, is the token of a lexeme of
/// the text: the one that begins at the position returned. Its lexeme is
/// that stretch of the text, and is not empty.
pub proof fn lemma_token_has_lexeme(s: Seq<char>, i: int) -> (pos: int)
    requires
        0 <= i < scan(s).len() - 1,
    ensures
        0 <= pos < lexeme_at(s, pos).end <= s.len(),
        tokens_at(s, pos) == seq![scan(s)[i]],
        scan(s)[i].lexeme == s.subrange(pos, lexeme_at(s, pos).end),
        scan(s)[i].line == line_at(s, pos),
{
    let pos = lemma_token_has_lexeme_from(s, 0, i);
    lemma_lexeme_bounds(s, pos);
    assert(tokens_at(s, pos)[0] == scan(s)[i]);
    pos
}

/// Every number token of a scan has a decimal numeral for its lexeme and
/// carries that numeral as its value.
pub proof fn lemma_numbers_are_numerals(s: Seq<char>)
    ensures
        forall|i: int|
            0 <= i < scan(s).len() && (#[trigger] scan(s)[i]).token_type is Number ==> is_numeral(
                scan(s)[i].lexeme,
            ) && scan(s)[i].literal == LiteralView::Number(scan(s)[i].lexeme),
{
    lemma_eof_closes_scan(s);
    assert forall|i: int|
        0 <= i < scan(s).len() && (#[trigger] scan(s)[i]).token_type is Number implies is_numeral(
        scan(s)[i].lexeme,
    ) && scan(s)[i].literal == LiteralView::Number(scan(s)[i].lexeme) by {
        let pos = lemma_token_has_lexeme(s, i);
        assert(tokens_at(s, pos)[0] == scan(s)[i]);
        lemma_number_is_numeral(s, pos);
    }
}

} // verus!
