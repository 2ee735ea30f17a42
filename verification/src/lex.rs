//! The character scanner: turns input text into a stream of tokens.
//!
//! The scanner keeps a single monotonically increasing cursor into the input
//! and peeks before consuming, so it never has to step back.  Each call to
//! [`Lexer::next`] skips leading whitespace, classifies the next character,
//! and returns exactly one token.

use crate::token::Token;
use vstd::prelude::*;
use vstd::string::StrSliceExecFns;

verus! {

/// Whitespace skipped between tokens: space, tab, newline, carriage return.
pub open spec fn is_white(c: char) -> bool {
    c == ' ' || c == '\t' || c == '\n' || c == '\r'
}

/// An ASCII decimal digit.
pub open spec fn is_decimal_digit(c: char) -> bool {
    '0' <= c && c <= '9'
}

/// A character the digit scan consumes: an ASCII digit, or — as an accepted
/// but unsupported edge case — a literal `.`.  A run containing a `.` never
/// becomes a number; it scans as `Illegal`.
pub open spec fn is_num_char(c: char) -> bool {
    is_decimal_digit(c) || c == '.'
}

/// The first position at or after `pos` holding a non-whitespace character
/// (or the end of the input).
pub open spec fn skip_white(s: Seq<char>, pos: int) -> int
    decreases s.len() - pos,
{
    if 0 <= pos && pos < s.len() && is_white(s[pos]) {
        skip_white(s, pos + 1)
    } else {
        pos
    }
}

/// The end of the maximal run of digit-scan characters starting at `pos`.
pub open spec fn run_end(s: Seq<char>, pos: int) -> int
    decreases s.len() - pos,
{
    if 0 <= pos && pos < s.len() && is_num_char(s[pos]) {
        run_end(s, pos + 1)
    } else {
        pos
    }
}

/// The standard base-10 interpretation of a digit string.
pub open spec fn digits_value(s: Seq<char>) -> int
    decreases s.len(),
{
    if s.len() == 0 {
        0
    } else {
        10 * digits_value(s.drop_last()) + (s.last() as int - '0' as int)
    }
}

/// Whether every character of `s` is an ASCII decimal digit.
pub open spec fn all_decimal_digits(s: Seq<char>) -> bool {
    forall|i: int| 0 <= i < s.len() ==> #[trigger] is_decimal_digit(s[i])
}

/// The token a maximal digit run denotes: its base-10 value when the run is
/// all digits and the value fits in `i32`, and `Illegal` otherwise (an
/// embedded `.`, or a value too large for `i32`).
pub open spec fn number_token_of(run: Seq<char>) -> Token {
    if all_decimal_digits(run) && digits_value(run) <= i32::MAX {
        Token::Number(digits_value(run) as i32)
    } else {
        Token::Illegal
    }
}

/// The token produced by a scan that starts at `pos`.
pub open spec fn token_at(s: Seq<char>, pos: int) -> Token {
    let p = skip_white(s, pos);
    if p >= s.len() {
        Token::EOF
    } else if s[p] == '+' {
        Token::Plus
    } else if s[p] == '-' {
        Token::Minus
    } else if s[p] == '*' {
        Token::Asterisk
    } else if s[p] == '/' {
        Token::Slash
    } else if is_decimal_digit(s[p]) {
        number_token_of(s.subrange(p, run_end(s, p)))
    } else {
        Token::Illegal
    }
}

/// The cursor position after a scan that starts at `pos`.
pub open spec fn pos_after(s: Seq<char>, pos: int) -> int {
    let p = skip_white(s, pos);
    if p >= s.len() {
        p
    } else if is_decimal_digit(s[p]) {
        run_end(s, p)
    } else {
        p + 1
    }
}

/// Skipping whitespace stays within the input and stops on a non-whitespace
/// character.
pub proof fn lemma_skip_white_bounds(s: Seq<char>, pos: int)
    requires
        0 <= pos <= s.len(),
    ensures
        pos <= skip_white(s, pos) <= s.len(),
        skip_white(s, pos) < s.len() ==> !is_white(s[skip_white(s, pos)]),
    decreases s.len() - pos,
{
    if pos < s.len() && is_white(s[pos]) {
        lemma_skip_white_bounds(s, pos + 1);
    }
}

/// A digit run stays within the input, consists of digit-scan characters,
/// and stops on a character the digit scan does not accept.
pub proof fn lemma_run_end_bounds(s: Seq<char>, pos: int)
    requires
        0 <= pos <= s.len(),
    ensures
        pos <= run_end(s, pos) <= s.len(),
        run_end(s, pos) < s.len() ==> !is_num_char(s[run_end(s, pos)]),
        forall|i: int| pos <= i < run_end(s, pos) ==> #[trigger] is_num_char(s[i]),
    decreases s.len() - pos,
{
    if pos < s.len() && is_num_char(s[pos]) {
        lemma_run_end_bounds(s, pos + 1);
    }
}

/// A run of digit-scan characters bounded on the right ends exactly there.
pub proof fn lemma_run_end_of_run(s: Seq<char>, p: int, e: int)
    requires
        0 <= p <= e <= s.len(),
        forall|i: int| p <= i < e ==> #[trigger] is_num_char(s[i]),
        e == s.len() || !is_num_char(s[e]),
    ensures
        run_end(s, p) == e,
    decreases e - p,
{
    if p < e {
        lemma_run_end_of_run(s, p + 1, e);
    }
}

/// Scanning always moves the cursor forward, and strictly forward unless it
/// reports the end of the input.
pub proof fn lemma_pos_after(s: Seq<char>, pos: int)
    requires
        0 <= pos <= s.len(),
    ensures
        pos <= pos_after(s, pos) <= s.len(),
        token_at(s, pos) != Token::EOF ==> pos < pos_after(s, pos),
    decreases s.len() - pos,
{
    lemma_skip_white_bounds(s, pos);
    let p = skip_white(s, pos);
    if p < s.len() {
        lemma_run_end_bounds(s, p);
    }
}

/// A digit string has a nonnegative value.
pub proof fn lemma_digits_value_nonneg(s: Seq<char>)
    requires
        all_decimal_digits(s),
    ensures
        digits_value(s) >= 0,
    decreases s.len(),
{
    if s.len() > 0 {
        assert(all_decimal_digits(s.drop_last()));
        lemma_digits_value_nonneg(s.drop_last());
        assert(is_decimal_digit(s.last()));
    }
}

/// The value carried by a `Number` token is always in `0 ..= i32::MAX`: the
/// scanner builds it from a digit run without a sign.
pub proof fn lemma_number_token_nonneg(s: Seq<char>, pos: int)
    requires
        0 <= pos <= s.len(),
    ensures
        token_at(s, pos) matches Token::Number(n) ==> 0 <= n,
    decreases s.len() - pos,
{
    let p = skip_white(s, pos);
    lemma_skip_white_bounds(s, pos);
    if p < s.len() && is_decimal_digit(s[p]) {
        let run = s.subrange(p, run_end(s, p));
        if all_decimal_digits(run) {
            lemma_digits_value_nonneg(run);
        }
    }
}

/// A maximal digit run with no embedded `.` scans as the number whose value
/// is the standard base-10 interpretation of its digits, and the scan stops
/// right after the run.
pub proof fn lemma_digit_run_value(s: Seq<char>, p: int, e: int)
    requires
        0 <= p < e <= s.len(),
        forall|i: int| p <= i < e ==> #[trigger] is_decimal_digit(s[i]),
        e == s.len() || !is_num_char(s[e]),
        digits_value(s.subrange(p, e)) <= i32::MAX,
    ensures
        token_at(s, p) == Token::Number(digits_value(s.subrange(p, e)) as i32),
        pos_after(s, p) == e,
{
    assert(is_decimal_digit(s[p]));
    assert(!is_white(s[p]));
    assert(skip_white(s, p) == p);
    assert(forall|i: int| p <= i < e ==> #[trigger] is_num_char(s[i]));
    lemma_run_end_of_run(s, p, e);
    let run = s.subrange(p, e);
    assert(all_decimal_digits(run));
    lemma_digits_value_nonneg(run);
}

/// The scanner: the input text, its length in characters, and the cursor.
pub struct Lexer {
    input: String,
    length: usize,
    pos: usize,
}

impl Lexer {
    /// The input text being scanned.
    pub closed spec fn text(self) -> Seq<char> {
        self.input@
    }

    /// The current cursor position, in characters.
    pub closed spec fn cursor(self) -> int {
        self.pos as int
    }

    /// The scanner's internal invariant: the cursor lies within the input and
    /// the cached length matches the text.
    pub closed spec fn wf(self) -> bool {
        self.length == self.input@.len() && self.pos <= self.length
    }

    /// Creates a scanner positioned at the start of `input`.
    pub fn new(input: String) -> (lx: Lexer)
        ensures
            lx.wf(),
            lx.text() == input@,
            lx.cursor() == 0,
    {
        let length = input.as_str().unicode_len();
        Lexer { input, length, pos: 0 }
    }

    /// Scans and returns the next token, advancing the cursor past it.
    pub fn next(&mut self) -> (t: Token)
        requires
            old(self).wf(),
        ensures
            final(self).wf(),
            final(self).text() == old(self).text(),
            t == token_at(old(self).text(), old(self).cursor()),
            final(self).cursor() == pos_after(old(self).text(), old(self).cursor()),
    {
        let ghost s = self.input@;
        let ghost p0 = self.pos as int;
        self.skip_white_space();
        proof {
            lemma_skip_white_bounds(s, p0);
        }
        if self.pos >= self.length {
            return Token::EOF;
        }
        let c = self.input.as_str().get_char(self.pos);
        if c == '+' {
            self.pos = self.pos + 1;
            Token::Plus
        } else if c == '-' {
            self.pos = self.pos + 1;
            Token::Minus
        } else if c == '*' {
            self.pos = self.pos + 1;
            Token::Asterisk
        } else if c == '/' {
            self.pos = self.pos + 1;
            Token::Slash
        } else if '0' <= c && c <= '9' {
            self.digit()
        } else {
            self.pos = self.pos + 1;
            Token::Illegal
        }
    }

    /// Scans the maximal run of digit-scan characters at the cursor and turns
    /// it into a `Number` token, or `Illegal` when the run holds a `.` or its
    /// value does not fit in `i32`.
    fn digit(&mut self) -> (t: Token)
        requires
            old(self).wf(),
            old(self).cursor() < old(self).text().len(),
            is_decimal_digit(old(self).text()[old(self).cursor()]),
        ensures
            final(self).wf(),
            final(self).text() == old(self).text(),
            t == number_token_of(
                old(self).text().subrange(
                    old(self).cursor(),
                    run_end(old(self).text(), old(self).cursor()),
                ),
            ),
            final(self).cursor() == run_end(old(self).text(), old(self).cursor()),
    {
        let ghost s = self.input@;
        let ghost start = self.pos as int;
        let mut value: u64 = 0;
        let mut has_dot = false;
        let mut too_big = false;
        while self.pos < self.length && Lexer::is_digit(self.input.as_str().get_char(self.pos))
            invariant
                self.wf(),
                self.input@ == s,
                0 <= start <= self.pos <= self.length == s.len(),
                run_end(s, start) == run_end(s, self.pos as int),
                has_dot == !all_decimal_digits(s.subrange(start, self.pos as int)),
                !has_dot && !too_big ==> value == digits_value(s.subrange(start, self.pos as int))
                    && value <= i32::MAX,
                !has_dot && too_big ==> digits_value(s.subrange(start, self.pos as int))
                    > i32::MAX,
            decreases self.length - self.pos,
        {
            let c = self.input.as_str().get_char(self.pos);
            let ghost prefix = s.subrange(start, self.pos as int);
            proof {
                assert(s.subrange(start, self.pos + 1) =~= prefix.push(s[self.pos as int]));
                assert(prefix.push(c).drop_last() =~= prefix);
            }
            if c == '.' {
                has_dot = true;
                proof {
                    assert(!is_decimal_digit('.'));
                    assert(prefix.push('.')[prefix.len() as int] == '.');
                    assert(!all_decimal_digits(prefix.push('.')));
                }
            } else {
                proof {
                    assert(is_decimal_digit(c));
                    if !has_dot {
                        assert(all_decimal_digits(prefix.push(c)));
                    } else {
                        let j = choose|j: int|
                            0 <= j < prefix.len() && !is_decimal_digit(prefix[j]);
                        assert(prefix.push(c)[j] == prefix[j]);
                        assert(!all_decimal_digits(prefix.push(c)));
                    }
                    assert(digits_value(prefix.push(c)) == 10 * digits_value(prefix) + (
                    c as int - '0' as int));
                }
                if !too_big && !has_dot {
                    let d: u64 = (c as u32 - 48) as u64;
                    proof {
                        assert('0' as int == 48);
                        assert(d == c as int - '0' as int);
                    }
                    let nv: u64 = value * 10 + d;
                    if nv > 0x7fffffffu64 {
                        too_big = true;
                    }
                    value = nv;
                }
            }
            self.pos = self.pos + 1;
        }
        proof {
            assert(run_end(s, self.pos as int) == self.pos as int);
            let run = s.subrange(start, self.pos as int);
            if !has_dot {
                lemma_digits_value_nonneg(run);
            }
        }
        if has_dot || too_big {
            Token::Illegal
        } else {
            Token::Number(value as i32)
        }
    }

    /// Advances the cursor past any run of whitespace.
    fn skip_white_space(&mut self)
        requires
            old(self).wf(),
        ensures
            final(self).wf(),
            final(self).text() == old(self).text(),
            final(self).cursor() == skip_white(old(self).text(), old(self).cursor()),
    {
        let ghost s = self.input@;
        let ghost p0 = self.pos as int;
        while self.pos < self.length && Lexer::is_white_char(self.input.as_str().get_char(self.pos))
            invariant
                self.wf(),
                self.input@ == s,
                p0 <= self.pos <= self.length == s.len(),
                skip_white(s, p0) == skip_white(s, self.pos as int),
            decreases self.length - self.pos,
        {
            self.pos = self.pos + 1;
        }
    }

    /// Whether the digit scan accepts `ch`: an ASCII digit or a literal `.`.
    fn is_digit(ch: char) -> (r: bool)
        ensures
            r == is_num_char(ch),
    {
        ('0' <= ch && ch <= '9') || ch == '.'
    }

    /// Whether `ch` is whitespace the scanner skips.
    fn is_white_char(ch: char) -> (r: bool)
        ensures
            r == is_white(ch),
    {
        ch == ' ' || ch == '\t' || ch == '\n' || ch == '\r'
    }
}

} // verus!
