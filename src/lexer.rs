use vstd::arithmetic::div_mod::{lemma_fundamental_div_mod, lemma_mod_multiples_vanish};
use vstd::prelude::*;
use vstd::string::*;

use crate::token::{TextSpan, TextSpanView, Token, TokenKind, TokenView};

verus! {

/// `0` to `9`.
pub open spec fn is_digit(c: char) -> bool {
    '0' <= c && c <= '9'
}

/// The value of a decimal digit.
pub open spec fn digit_value(c: char) -> int {
    c as int - '0' as int
}

/// `+`, `-` and `=`.
pub open spec fn is_punctuation(c: char) -> bool {
    c == '+' || c == '-' || c == '='
}

/// The characters with Unicode's White_Space property.
pub open spec fn is_white_space(c: char) -> bool {
    let u = c as u32;
    (0x09 <= u && u <= 0x0D) || u == 0x20 || u == 0x85 || u == 0xA0 || u == 0x1680
        || (0x2000 <= u && u <= 0x200A) || u == 0x2028 || u == 0x2029 || u == 0x202F
        || u == 0x205F || u == 0x3000
}

/// The decimal number that a run of digits spells.
pub open spec fn digits_value(s: Seq<char>) -> int
    decreases s.len(),
{
    if s.len() == 0 {
        0
    } else {
        digits_value(s.drop_last()) * 10 + digit_value(s.last())
    }
}

/// `x` taken modulo 2^64 into the range of `i64`, as two's complement
/// arithmetic does.
pub open spec fn wrap_i64(x: int) -> i64 {
    let m = x % 0x1_0000_0000_0000_0000int;
    if m > i64::MAX as int {
        (m - 0x1_0000_0000_0000_0000int) as i64
    } else {
        m as i64
    }
}

/// Where the run of digits that starts at `i` ends (exclusive).
pub open spec fn digit_run_end(s: Seq<char>, i: int) -> int
    decreases s.len() - i,
{
    if 0 <= i < s.len() && is_digit(s[i]) {
        digit_run_end(s, i + 1)
    } else {
        i
    }
}

/// Where the run of punctuation that starts at `i` ends (exclusive).
pub open spec fn punctuation_run_end(s: Seq<char>, i: int) -> int
    decreases s.len() - i,
{
    if 0 <= i < s.len() && is_punctuation(s[i]) {
        punctuation_run_end(s, i + 1)
    } else {
        i
    }
}

/// The kind that one punctuation character stands for.
pub open spec fn punctuation_kind(c: char) -> TokenKind {
    if c == '+' {
        TokenKind::Plus
    } else if c == '-' {
        TokenKind::Minus
    } else if c == '=' {
        TokenKind::Equals
    } else {
        TokenKind::Bad
    }
}

/// A lexer's state, as a mathematical value: the input, how many of its
/// characters the cursor has consumed, and the running index that delimits
/// spans (one step per token, whatever the token consumed).
pub struct LexerView {
    pub input: Seq<char>,
    pub pos: nat,
    pub idx: nat,
}

/// A state that a lexer can be in: the cursor within the input, and the
/// index at or behind the cursor until the input is used up.
pub open spec fn valid_state(st: LexerView) -> bool {
    &&& st.pos <= st.input.len()
    &&& (st.idx <= st.pos || st.pos == st.input.len())
}

/// The state of a lexer freshly made on `input`.
pub open spec fn initial_state(input: Seq<char>) -> LexerView {
    LexerView { input, pos: 0, idx: 0 }
}

/// Where the cursor stands after the token that starts at `st.pos`.
pub open spec fn next_pos(st: LexerView) -> int {
    let s = st.input;
    let c = s[st.pos as int];
    if is_digit(c) {
        digit_run_end(s, st.pos as int)
    } else if is_punctuation(c) {
        punctuation_run_end(s, st.pos as int)
    } else {
        st.pos as int + 1
    }
}

/// The kind of the token that starts at `st.pos`: a run of digits is one
/// integer, a run of punctuation takes the kind of its last character, and
/// any other character is a token of its own.
pub open spec fn next_kind(st: LexerView) -> TokenKind {
    let s = st.input;
    let c = s[st.pos as int];
    if is_digit(c) {
        TokenKind::Integer(
            wrap_i64(digits_value(s.subrange(st.pos as int, digit_run_end(s, st.pos as int)))),
        )
    } else if is_punctuation(c) {
        punctuation_kind(s[punctuation_run_end(s, st.pos as int) - 1])
    } else if is_white_space(c) {
        TokenKind::Whitespace
    } else {
        TokenKind::Bad
    }
}

/// The token that end of input gives.
pub open spec fn eof_token() -> TokenView {
    TokenView {
        kind: TokenKind::EOF,
        span: TextSpanView { start: 0, end: 0, literal: seq!['\0'] },
    }
}

/// The token that one scan from `st` returns. Its span starts at the running
/// index and ends one past it, whatever the token consumed.
pub open spec fn scanned_token(st: LexerView) -> TokenView {
    if st.pos >= st.input.len() {
        eof_token()
    } else {
        TokenView {
            kind: next_kind(st),
            span: TextSpanView {
                start: st.idx,
                end: st.idx + 1,
                literal: st.input.subrange(st.idx as int, st.idx as int + 1),
            },
        }
    }
}

/// The state after one scan from `st`. At end of input the cursor stays
/// and the index still steps, stopping at the largest `usize`.
pub open spec fn scanned_state(st: LexerView) -> LexerView {
    if st.pos >= st.input.len() {
        LexerView {
            idx: if st.idx < usize::MAX { st.idx + 1 } else { st.idx },
            ..st
        }
    } else {
        LexerView { pos: next_pos(st) as nat, idx: st.idx + 1, ..st }
    }
}

/// Every token that a lexer in state `st` gives, up to and including the
/// first end-of-input token.
pub open spec fn tokens_from(st: LexerView) -> Seq<TokenView>
    decreases st.input.len() - st.pos,
    via tokens_from_decreases
{
    if st.pos >= st.input.len() {
        seq![eof_token()]
    } else {
        seq![scanned_token(st)] + tokens_from(scanned_state(st))
    }
}

#[via_fn]
proof fn tokens_from_decreases(st: LexerView) {
    if st.pos < st.input.len() {
        lemma_scan_advances(st);
    }
}

/// The tokens of `input`, from the first up to and including the
/// end-of-input token.
pub open spec fn lex(input: Seq<char>) -> Seq<TokenView> {
    tokens_from(initial_state(input))
}

/// The views of a sequence of tokens.
pub open spec fn token_views(ts: Seq<Token>) -> Seq<TokenView> {
    ts.map_values(|t: Token| t@)
}

/// Before end of input, a scan moves the cursor forward by at least one
/// character and at most to the end.
pub proof fn lemma_scan_advances(st: LexerView)
    requires
        st.pos < st.input.len(),
    ensures
        st.pos < next_pos(st) <= st.input.len(),
{
    lemma_digit_run_end_bounds(st.input, st.pos as int);
    lemma_punctuation_run_end_bounds(st.input, st.pos as int);
    lemma_digit_run_end_bounds(st.input, st.pos as int + 1);
    lemma_punctuation_run_end_bounds(st.input, st.pos as int + 1);
}

pub proof fn lemma_digit_run_end_bounds(s: Seq<char>, i: int)
    requires
        0 <= i <= s.len(),
    ensures
        i <= digit_run_end(s, i) <= s.len(),
        forall|k: int| i <= k < digit_run_end(s, i) ==> is_digit(#[trigger] s[k]),
        digit_run_end(s, i) < s.len() ==> !is_digit(s[digit_run_end(s, i)]),
    decreases s.len() - i,
{
    if i < s.len() && is_digit(s[i]) {
        lemma_digit_run_end_bounds(s, i + 1);
    }
}

pub proof fn lemma_punctuation_run_end_bounds(s: Seq<char>, i: int)
    requires
        0 <= i <= s.len(),
    ensures
        i <= punctuation_run_end(s, i) <= s.len(),
        forall|k: int| i <= k < punctuation_run_end(s, i) ==> is_punctuation(#[trigger] s[k]),
        punctuation_run_end(s, i) < s.len() ==> !is_punctuation(s[punctuation_run_end(s, i)]),
    decreases s.len() - i,
{
    if i < s.len() && is_punctuation(s[i]) {
        lemma_punctuation_run_end_bounds(s, i + 1);
    }
}

/// Accumulating a digit onto a wrapped value wraps like accumulating it onto
/// the exact value.
proof fn lemma_wrap_accumulate(a: int, d: int)
    ensures
        wrap_i64(wrap_i64(a) * 10 + d) == wrap_i64(a * 10 + d),
{
    let r: int = 0x1_0000_0000_0000_0000int;
    lemma_fundamental_div_mod(a, r);
    let q = a / r;
    let m = a % r;
    let w = wrap_i64(a) as int;
    let k: int = if m > i64::MAX as int { -10 * q - 10 } else { -10 * q };
    assert(w * 10 + d == r * k + (a * 10 + d)) by (nonlinear_arith)
        requires
            a == r * q + m,
            w == (if m > i64::MAX as int { m - r } else { m }),
            k == (if m > i64::MAX as int { -10 * q - 10 } else { -10 * q }),
    ;
    lemma_mod_multiples_vanish(k, a * 10 + d, r);
}

/// Adding to a wrapped value wraps like adding to the exact value.
proof fn lemma_wrap_add(x: int, y: int)
    ensures
        wrap_i64(wrap_i64(x) + y) == wrap_i64(x + y),
{
    let r: int = 0x1_0000_0000_0000_0000int;
    lemma_fundamental_div_mod(x, r);
    let q = x / r;
    let m = x % r;
    let w = wrap_i64(x) as int;
    let k: int = if m > i64::MAX as int { -q - 1 } else { -q };
    assert(w + y == r * k + (x + y)) by (nonlinear_arith)
        requires
            x == r * q + m,
            w == (if m > i64::MAX as int { m - r } else { m }),
            k == (if m > i64::MAX as int { -q - 1 } else { -q }),
    ;
    lemma_mod_multiples_vanish(k, x + y, r);
}

/// `wrapping_add` on `i64` is addition taken through `wrap_i64`.
proof fn lemma_wrapping_add_is_wrap(x: i64, y: i64)
    ensures
        x.wrapping_add(y) == wrap_i64(x + y),
{
    let r: int = 0x1_0000_0000_0000_0000int;
    let t = x + y;
    if t < 0 {
        lemma_mod_multiples_vanish(1, t, r);
        assert((t + r) % r == t + r);
    } else {
        assert(t % r == t);
    }
}

/// Turns a string into tokens, one per call of `scan_for_token`.
///
/// Offsets count characters, so every span falls on character boundaries.
/// The running index steps by one per token even where the token consumed a
/// longer run, so the span of such a token covers only its first position;
/// and once the input is used up every call gives another end-of-input
/// token.
pub struct Lexer<'a> {
    source: &'a str,
    chars: Vec<char>,
    pos: usize,
    idx: usize,
}

impl<'a> View for Lexer<'a> {
    type V = LexerView;

    closed spec fn view(&self) -> LexerView {
        LexerView { input: self.chars@, pos: self.pos as nat, idx: self.idx as nat }
    }
}

impl<'a> Lexer<'a> {
    /// The lexer's internal consistency: the characters are those of the
    /// source, and the state is one that a lexer can be in.
    pub closed spec fn wf(&self) -> bool {
        &&& self.chars@ == self.source@
        &&& valid_state(self@)
    }

    pub fn new(input: &'a str) -> (r: Lexer<'a>)
        ensures
            r.wf(),
            valid_state(r@),
            r@ == initial_state(input@),
    {
        let n = input.unicode_len();
        let mut chars: Vec<char> = Vec::new();
        let mut i: usize = 0;
        while i < n
            invariant
                n == input@.len(),
                i <= n,
                chars@ == input@.subrange(0, i as int),
            decreases n - i,
        {
            chars.push(input.get_char(i));
            i = i + 1;
        }
        assert(chars@ == input@);
        Lexer { source: input, chars, pos: 0, idx: 0 }
    }
    /// Reads the next token. At end of input this is an end-of-input token
    /// with the span `(0, 0, "\0")`, on every call. Otherwise the token is a
    /// run of digits, a run of punctuation, one whitespace character or one
    /// other character, and its span reaches from the running index to one
    /// past it. The result is always `Some`.
    pub fn scan_for_token(&mut self) -> (r: Option<Token>)
        requires
            old(self).wf(),
        ensures
            final(self).wf(),
            valid_state(final(self)@),
            final(self)@ == scanned_state(old(self)@),
            r is Some,
            r->0@ == scanned_token(old(self)@),
    {
        let mut kind = TokenKind::Bad;
        let start_pos = self.idx;
        let ghost st = self@;

        if self.peek().is_none() {
            self.idx = self.idx.saturating_add(1);
            let literal = String::from_str("\0");
            proof {
                reveal_strlit("\0");
                assert(literal@ =~= seq!['\0']);
            }
            return Some(Token::new(TokenKind::EOF, TextSpan::new(0, 0, literal)));
        }
        let c = self.peek().unwrap();
        proof {
            lemma_scan_advances(st);
        }
        if Self::is_valid_number(&c) {
            let number = self.tokenize_number();
            kind = TokenKind::Integer(number);
        } else if Self::is_valid_punctuation(&c) {
            let punctuation = self.tokenize_punctuation();
            kind = punctuation;
        } else if Self::is_whitespace(&c) {
            self.next();
            kind = TokenKind::Whitespace;
        } else {
            self.next();
        }

        self.idx = self.idx + 1;
        let literal = String::from_str(self.source.substring_char(start_pos, self.idx));
        let span = TextSpan::new(start_pos, self.idx, literal);
        Some(Token::new(kind, span))
    }

    fn peek(&self) -> (r: Option<char>)
        requires
            self.wf(),
        ensures
            r == (if self.pos < self.chars@.len() {
                Some(self.chars@[self.pos as int])
            } else {
                None::<char>
            }),
    {
        if self.pos < self.chars.len() {
            Some(self.chars[self.pos])
        } else {
            None
        }
    }

    fn next(&mut self) -> (r: Option<char>)
        requires
            old(self).wf(),
        ensures
            final(self).wf(),
            final(self).source == old(self).source,
            old(self).pos < old(self).chars@.len() ==> r == Some(old(self).chars@[old(self).pos as int])
                && final(self)@ == (LexerView { pos: (old(self).pos + 1) as nat, ..old(self)@ }),
            old(self).pos >= old(self).chars@.len() ==> r is None && *final(self) == *old(self),
    {
        if self.pos < self.chars.len() {
            let c = self.chars[self.pos];
            self.pos = self.pos + 1;
            Some(c)
        } else {
            None
        }
    }

    fn is_valid_number(c: &char) -> (r: bool)
        ensures
            r == is_digit(*c),
    {
        '0' <= *c && *c <= '9'
    }

    fn is_valid_punctuation(c: &char) -> (r: bool)
        ensures
            r == is_punctuation(*c),
    {
        match c {
            '+' | '-' | '=' => true,
            _ => false,
        }
    }

    /// Relies on `char::is_whitespace`: true exactly for the characters with
    /// Unicode's White_Space property.
    #[verifier::external_body]
    fn is_whitespace(c: &char) -> (r: bool)
        ensures
            r == is_white_space(*c),
    {
        c.is_whitespace()
    }

    /// Consumes the run of digits at the cursor and returns its decimal
    /// value, wrapped into `i64`.
    fn tokenize_number(&mut self) -> (r: i64)
        requires
            old(self).wf(),
        ensures
            final(self).wf(),
            final(self).source == old(self).source,
            final(self)@ == (LexerView {
                pos: digit_run_end(old(self)@.input, old(self)@.pos as int) as nat,
                ..old(self)@
            }),
            r == wrap_i64(
                digits_value(
                    old(self)@.input.subrange(
                        old(self)@.pos as int,
                        digit_run_end(old(self)@.input, old(self)@.pos as int),
                    ),
                ),
            ),
    {
        let ghost s = self.chars@;
        let ghost start = self.pos as int;
        let ghost end = digit_run_end(s, start);
        proof {
            lemma_digit_run_end_bounds(s, start);
            assert(s.subrange(start, start) =~= Seq::<char>::empty());
        }
        let mut number: i64 = 0;
        loop
            invariant
                self.wf(),
                self.source == old(self).source,
                self@ == (LexerView { pos: self.pos as nat, ..old(self)@ }),
                s == old(self)@.input,
                0 <= start <= self.pos <= end <= s.len(),
                digit_run_end(s, self.pos as int) == end,
                number == wrap_i64(digits_value(s.subrange(start, self.pos as int))),
            ensures
                self.pos == end,
                self@ == (LexerView { pos: self.pos as nat, ..old(self)@ }),
                self.wf(),
                self.source == old(self).source,
                number == wrap_i64(digits_value(s.subrange(start, end))),
            decreases s.len() - self.pos,
        {
            match self.peek() {
                Some(c) => {
                    if Self::is_valid_number(&c) {
                        let n = self.next().unwrap();
                        let d: i64 = (n as u32 - '0' as u32) as i64;
                        proof {
                            let p = self.pos - 1;
                            lemma_digit_run_end_bounds(s, p + 1);
                            let prev = s.subrange(start, p);
                            assert(s.subrange(start, p + 1).drop_last() =~= prev);
                            lemma_wrapping_add_is_wrap(number.wrapping_mul(10), d);
                            lemma_wrap_add(number * 10, d as int);
                            lemma_wrap_accumulate(digits_value(prev), d as int);
                        }
                        number = number.wrapping_mul(10).wrapping_add(d);
                    } else {
                        break;
                    }
                },
                None => {
                    break;
                },
            }
        }
        number
    }

    /// Consumes the run of punctuation at the cursor and returns the kind of
    /// its last character.
    fn tokenize_punctuation(&mut self) -> (r: TokenKind)
        requires
            old(self).wf(),
        ensures
            final(self).wf(),
            final(self).source == old(self).source,
            final(self)@ == (LexerView {
                pos: punctuation_run_end(old(self)@.input, old(self)@.pos as int) as nat,
                ..old(self)@
            }),
            r == (if punctuation_run_end(old(self)@.input, old(self)@.pos as int) > old(self)@.pos {
                punctuation_kind(
                    old(self)@.input[punctuation_run_end(old(self)@.input, old(self)@.pos as int) - 1],
                )
            } else {
                TokenKind::Bad
            }),
    {
        let ghost s = self.chars@;
        let ghost start = self.pos as int;
        let ghost end = punctuation_run_end(s, start);
        proof {
            lemma_punctuation_run_end_bounds(s, start);
        }
        let mut ptoken = TokenKind::Bad;
        loop
            invariant
                self.wf(),
                self.source == old(self).source,
                self@ == (LexerView { pos: self.pos as nat, ..old(self)@ }),
                s == old(self)@.input,
                0 <= start <= self.pos <= end <= s.len(),
                punctuation_run_end(s, self.pos as int) == end,
                ptoken == (if self.pos > start {
                    punctuation_kind(s[self.pos - 1])
                } else {
                    TokenKind::Bad
                }),
            ensures
                self.pos == end,
                self@ == (LexerView { pos: self.pos as nat, ..old(self)@ }),
                self.wf(),
                self.source == old(self).source,
                ptoken == (if end > start {
                    punctuation_kind(s[end - 1])
                } else {
                    TokenKind::Bad
                }),
            decreases s.len() - self.pos,
        {
            match self.peek() {
                Some(c) => {
                    if Self::is_valid_punctuation(&c) {
                        let p = self.next().unwrap();
                        proof {
                            lemma_punctuation_run_end_bounds(s, self.pos as int);
                        }
                        match p {
                            '+' => ptoken = TokenKind::Plus,
                            '-' => ptoken = TokenKind::Minus,
                            '=' => ptoken = TokenKind::Equals,
                            _ => ptoken = TokenKind::Bad,
                        };
                    } else {
                        break;
                    }
                },
                None => {
                    break;
                },
            }
        }
        ptoken
    }
}

/// Scans `input` from the start and collects the tokens, up to and including
/// the first end-of-input token.
pub fn tokenize(input: &str) -> (r: Vec<Token>)
    ensures
        token_views(r@) == lex(input@),
{
    let mut lexer = Lexer::new(input);
    let mut tokens: Vec<Token> = Vec::new();
    loop
        invariant_except_break
            token_views(tokens@) + tokens_from(lexer@) == lex(input@),
        invariant
            lexer.wf(),
            lexer@.input == input@,
        ensures
            token_views(tokens@) == lex(input@),
        decreases lexer@.input.len() - lexer@.pos,
    {
        let ghost st = lexer@;
        let ghost before = tokens@;
        let token = lexer.scan_for_token().unwrap();
        let eof = matches!(token.kind(), TokenKind::EOF);
        tokens.push(token);
        proof {
            assert(token_views(tokens@) =~= token_views(before).push(scanned_token(st)));
            if st.pos < st.input.len() {
                lemma_scan_advances(st);
                assert(tokens_from(st) == seq![scanned_token(st)] + tokens_from(lexer@));
                assert(token_views(before) + tokens_from(st) =~= token_views(tokens@)
                    + tokens_from(lexer@));
            } else {
                assert(tokens_from(st) == seq![eof_token()]);
                assert(token_views(before) + tokens_from(st) =~= token_views(tokens@));
            }
        }
        if eof {
            break;
        }
    }
    tokens
}

} // verus!
