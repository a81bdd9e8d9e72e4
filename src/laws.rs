use vstd::prelude::*;

use crate::lexer::{
    digit_run_end, digits_value, eof_token, initial_state, is_digit, is_punctuation, lex,
    lemma_digit_run_end_bounds, lemma_scan_advances, next_pos, scanned_state, scanned_token,
    tokens_from, valid_state, wrap_i64, LexerView,
};
use crate::token::TokenKind;

verus! {

proof fn lemma_digits_value_nonneg(s: Seq<char>)
    requires
        forall|i: int| 0 <= i < s.len() ==> is_digit(#[trigger] s[i]),
    ensures
        digits_value(s) >= 0,
    decreases s.len(),
{
    if s.len() > 0 {
        lemma_digits_value_nonneg(s.drop_last());
        assert(is_digit(s[s.len() - 1]));
    }
}

/// An input made only of digits, and not empty, is read by one scan as one
/// integer token: its value is the decimal value of the whole input, wrapped
/// into `i64`, and exactly that value where it fits. The scan leaves the
/// cursor at the end, so the token sequence is that integer and end of input.
pub proof fn lemma_digit_input_is_one_integer(s: Seq<char>)
    requires
        s.len() > 0,
        forall|i: int| 0 <= i < s.len() ==> is_digit(#[trigger] s[i]),
    ensures
        scanned_token(initial_state(s)).kind == TokenKind::Integer(wrap_i64(digits_value(s))),
        digits_value(s) <= i64::MAX ==> scanned_token(initial_state(s)).kind
            == TokenKind::Integer(digits_value(s) as i64),
        scanned_state(initial_state(s)).pos == s.len(),
        lex(s) == seq![scanned_token(initial_state(s)), eof_token()],
{
    let st = initial_state(s);
    lemma_digit_run_end_bounds(s, 0);
    assert(digit_run_end(s, 0) == s.len());
    assert(s.subrange(0, s.len() as int) =~= s);
    lemma_digits_value_nonneg(s);
    lemma_scan_advances(st);
    assert(tokens_from(scanned_state(st)) == seq![eof_token()]);
    assert(lex(s) =~= seq![scanned_token(st), eof_token()]);
}

/// Scanning depends on the lexer's state alone: lexers in equal states give
/// equal tokens and equal next states, and fresh lexers on equal inputs give
/// the same token sequence.
pub proof fn lemma_scan_is_deterministic(a: LexerView, b: LexerView)
    requires
        a == b,
    ensures
        scanned_token(a) == scanned_token(b),
        scanned_state(a) == scanned_state(b),
        tokens_from(a) == tokens_from(b),
        lex(a.input) == lex(b.input),
{
}

/// A token that consumes a run of more than one character, which only a run
/// of digits or of punctuation does, still gets a span of one position: it
/// ends one past its start and its literal is one character long, while the
/// cursor moves past the whole run.
pub proof fn lemma_run_span_is_one_position(st: LexerView)
    requires
        valid_state(st),
        st.pos < st.input.len(),
        next_pos(st) - st.pos > 1,
    ensures
        is_digit(st.input[st.pos as int]) || is_punctuation(st.input[st.pos as int]),
        scanned_token(st).span.start == st.idx,
        scanned_token(st).span.end == st.idx + 1,
        scanned_token(st).span.literal.len() == 1,
        scanned_state(st).pos == next_pos(st),
        scanned_state(st).pos - st.pos > scanned_token(st).span.end - scanned_token(st).span.start,
{
    lemma_scan_advances(st);
}

} // verus!
