//! The lexer: a cursor over the program text that produces one token per
//! call, in strict left-to-right order.
//!
//! The specification-level scanner (`spec_next_token`) is a total function
//! from a character sequence and a position to either a token and the
//! position just after it, or a fatal lexical fault; `Lexer::next_token`
//! is proved to follow it exactly.

use vstd::prelude::*;
use crate::rational::{Rat, Rational};
use crate::token::{Fatal, Tok, Token};

verus! {

/// The whitespace characters the lexer skips between tokens.
pub open spec fn is_space_char(c: char) -> bool {
    c == ' ' || c == '\t' || c == '\n' || c == '\r'
}

/// A decimal digit.
pub open spec fn is_digit_char(c: char) -> bool {
    48 <= c as u32 && c as u32 <= 57
}

/// The value of a decimal digit.
pub open spec fn digit_val(c: char) -> int {
    c as u32 - 48
}

/// A character that may stand in a keyword: a letter or an underscore.
pub open spec fn is_word_char(c: char) -> bool {
    (97 <= c as u32 && c as u32 <= 122) || (65 <= c as u32 && c as u32 <= 90) || c == '_'
}

/// The keyword that prints a quoted literal.
pub open spec fn kw_print() -> Seq<char> {
    seq!['p', 'r', 'i', 'n', 't']
}

/// The keyword that prints an evaluated arithmetic chain.
pub open spec fn kw_printcal() -> Seq<char> {
    seq!['p', 'r', 'i', 'n', 't', 'c', 'a', 'l']
}

/// First position at or after `i` that does not hold whitespace.
pub open spec fn skip_ws(s: Seq<char>, i: int) -> int
    decreases s.len() - i when 0 <= i <= s.len()
{
    if i < s.len() && is_space_char(s[i]) {
        skip_ws(s, i + 1)
    } else {
        i
    }
}

/// Scans a decimal literal from position `i`, accumulating the exact value.
///
/// `num` is the value of the digits read so far with the decimal point
/// ignored, `den` the power of ten that scales it back (`1` before the
/// point), `seen_dot` whether the point has been consumed. At most one `.`
/// is consumed; a second one ends the literal. Returns the final
/// `(num, den)` and the position just after the literal.
pub open spec fn scan_number(s: Seq<char>, i: int, num: int, den: int, seen_dot: bool) -> (int, int, int)
    decreases s.len() - i when 0 <= i <= s.len()
{
    if i < s.len() {
        if is_digit_char(s[i]) {
            scan_number(s, i + 1, num * 10 + digit_val(s[i]), if seen_dot { den * 10 } else { den }, seen_dot)
        } else if s[i] == '.' && !seen_dot {
            scan_number(s, i + 1, num, den, true)
        } else {
            (num, den, i)
        }
    } else {
        (num, den, i)
    }
}

/// Position just after the maximal run of word characters starting at `i`.
pub open spec fn scan_word_end(s: Seq<char>, i: int) -> int
    decreases s.len() - i when 0 <= i <= s.len()
{
    if i < s.len() && is_word_char(s[i]) {
        scan_word_end(s, i + 1)
    } else {
        i
    }
}

/// Position of the closing quote at or after `i`, or the end of the input
/// when the quote never closes.
pub open spec fn scan_text_end(s: Seq<char>, i: int) -> int
    decreases s.len() - i when 0 <= i <= s.len()
{
    if i < s.len() && s[i] != '"' {
        scan_text_end(s, i + 1)
    } else {
        i
    }
}

/// What one call of the lexer yields: a token and the position just after
/// it, or a fatal lexical fault.
pub ghost enum Scan {
    Found(Tok, int),
    Fail(Fatal),
}

/// The token starting at position `i` of `s`, after leading whitespace.
///
/// A literal whose exact numerator or denominator exceeds `i64::MAX` is a
/// fatal `Overflow`; a word starting with `p` other than the two keywords is
/// a fatal `UnknownKeyword`; any other character that starts no token is a
/// fatal `UnexpectedChar`.
pub open spec fn spec_next_token(s: Seq<char>, i: int) -> Scan
    recommends 0 <= i <= s.len()
{
    let j = skip_ws(s, i);
    if j >= s.len() {
        Scan::Found(Tok::EndOfInput, j)
    } else {
        let c = s[j];
        if is_digit_char(c) || c == '.' {
            let r = scan_number(s, j, 0, 1, false);
            if r.0 <= i64::MAX && r.1 <= i64::MAX {
                Scan::Found(Tok::Number(Rat { num: r.0, den: r.1 }), r.2)
            } else {
                Scan::Fail(Fatal::Overflow)
            }
        } else if c == 'p' {
            let k = scan_word_end(s, j);
            let w = s.subrange(j, k);
            if w == kw_printcal() {
                Scan::Found(Tok::PrintCal, k)
            } else if w == kw_print() {
                Scan::Found(Tok::Print, k)
            } else {
                Scan::Fail(Fatal::UnknownKeyword)
            }
        } else if c == '"' {
            let e = scan_text_end(s, j + 1);
            let k = if e < s.len() { e + 1 } else { e };
            Scan::Found(Tok::Text(s.subrange(j + 1, e)), k)
        } else if c == '+' {
            Scan::Found(Tok::Plus, j + 1)
        } else if c == '-' {
            Scan::Found(Tok::Minus, j + 1)
        } else if c == '*' {
            Scan::Found(Tok::Multiply, j + 1)
        } else if c == '/' {
            Scan::Found(Tok::Divide, j + 1)
        } else {
            Scan::Fail(Fatal::UnexpectedChar)
        }
    }
}

pub proof fn lemma_skip_ws_bounds(s: Seq<char>, i: int)
    requires
        0 <= i <= s.len(),
    ensures
        i <= skip_ws(s, i) <= s.len(),
    decreases s.len() - i,
{
    if i < s.len() && is_space_char(s[i]) {
        lemma_skip_ws_bounds(s, i + 1);
    }
}

/// The literal scanner stays within the input and never shrinks the
/// accumulated numerator or denominator.
pub proof fn lemma_scan_number_props(s: Seq<char>, i: int, num: int, den: int, seen_dot: bool)
    requires
        0 <= i <= s.len(),
        0 <= num,
        1 <= den,
    ensures
        ({
            let r = scan_number(s, i, num, den, seen_dot);
            &&& i <= r.2 <= s.len()
            &&& r.0 >= num
            &&& r.1 >= den
        }),
    decreases s.len() - i,
{
    if i < s.len() {
        if is_digit_char(s[i]) {
            lemma_scan_number_props(
                s,
                i + 1,
                num * 10 + digit_val(s[i]),
                if seen_dot { den * 10 } else { den },
                seen_dot,
            );
        } else if s[i] == '.' && !seen_dot {
            lemma_scan_number_props(s, i + 1, num, den, true);
        }
    }
}

pub proof fn lemma_scan_word_end_bounds(s: Seq<char>, i: int)
    requires
        0 <= i <= s.len(),
    ensures
        i <= scan_word_end(s, i) <= s.len(),
    decreases s.len() - i,
{
    if i < s.len() && is_word_char(s[i]) {
        lemma_scan_word_end_bounds(s, i + 1);
    }
}

pub proof fn lemma_scan_text_end_bounds(s: Seq<char>, i: int)
    requires
        0 <= i <= s.len(),
    ensures
        i <= scan_text_end(s, i) <= s.len(),
    decreases s.len() - i,
{
    if i < s.len() && s[i] != '"' {
        lemma_scan_text_end_bounds(s, i + 1);
    }
}

/// The value of a run of decimal digits read as an integer.
pub open spec fn digits_val(ds: Seq<char>) -> int
    decreases ds.len(),
{
    if ds.len() == 0 {
        0
    } else {
        digits_val(ds.drop_last()) * 10 + digit_val(ds.last())
    }
}

/// The `n`-th power of ten.
pub open spec fn pow10(n: nat) -> int
    decreases n,
{
    if n == 0 {
        1
    } else {
        10 * pow10((n - 1) as nat)
    }
}

/// A run of digits is bounded by the matching power of ten, so any literal
/// with at most eighteen digits fits the executable representation.
pub proof fn lemma_digits_val_bounds(ds: Seq<char>)
    requires
        forall|k: int| 0 <= k < ds.len() ==> is_digit_char(#[trigger] ds[k]),
    ensures
        0 <= digits_val(ds) < pow10(ds.len()),
    decreases ds.len(),
{
    if ds.len() > 0 {
        lemma_digits_val_bounds(ds.drop_last());
        assert(is_digit_char(ds.last()));
    }
}

/// Peeling the first digit: `d_0 d_1 … d_m` is `d_0 * 10^m + (d_1 … d_m)`.
proof fn lemma_digits_val_first(ds: Seq<char>)
    requires
        ds.len() >= 1,
    ensures
        digits_val(ds) == digit_val(ds[0]) * pow10((ds.len() - 1) as nat) + digits_val(
            ds.drop_first(),
        ),
    decreases ds.len(),
{
    if ds.len() == 1 {
        assert(ds.drop_first() =~= Seq::<char>::empty());
        assert(digits_val(ds.drop_last()) == 0);
        assert(digits_val(ds.drop_first()) == 0);
    } else {
        lemma_digits_val_first(ds.drop_last());
        assert(ds.drop_last().drop_first() =~= ds.drop_first().drop_last());
        assert(ds.drop_last()[0] == ds[0]);
        assert(ds.drop_first().last() == ds.last());
        let d0 = digit_val(ds[0]);
        let m = (ds.len() - 2) as nat;
        assert(digits_val(ds) == (d0 * pow10(m) + digits_val(ds.drop_last().drop_first())) * 10
            + digit_val(ds.last()));
        assert((d0 * pow10(m) + digits_val(ds.drop_last().drop_first())) * 10 == d0 * (10 * pow10(
            m,
        )) + digits_val(ds.drop_last().drop_first()) * 10) by (nonlinear_arith);
        assert(pow10((ds.len() - 1) as nat) == 10 * pow10(m));
        assert(ds.drop_first().len() >= 1);
        assert(digits_val(ds.drop_first()) == digits_val(ds.drop_first().drop_last()) * 10
            + digit_val(ds.drop_first().last()));
        assert(digits_val(ds.drop_first()) == digits_val(ds.drop_last().drop_first()) * 10
            + digit_val(ds.last()));
    }
}

/// Running the literal scanner across a run of digits multiplies the
/// accumulators by the matching power of ten and adds the digits' value.
proof fn lemma_scan_digits(s: Seq<char>, i: int, j: int, num: int, den: int, seen_dot: bool)
    requires
        0 <= i <= j <= s.len(),
        forall|k: int| i <= k < j ==> is_digit_char(#[trigger] s[k]),
    ensures
        scan_number(s, i, num, den, seen_dot) == scan_number(
            s,
            j,
            num * pow10((j - i) as nat) + digits_val(s.subrange(i, j)),
            if seen_dot {
                den * pow10((j - i) as nat)
            } else {
                den
            },
            seen_dot,
        ),
    decreases j - i,
{
    if i == j {
        assert(s.subrange(i, j) =~= Seq::<char>::empty());
        assert(digits_val(s.subrange(i, j)) == 0);
        assert(pow10(0) == 1);
    } else {
        lemma_scan_digits(s, i + 1, j, num * 10 + digit_val(s[i]), if seen_dot {
            den * 10
        } else {
            den
        }, seen_dot);
        let w = s.subrange(i, j);
        lemma_digits_val_first(w);
        assert(w.drop_first() =~= s.subrange(i + 1, j));
        let m = (j - i - 1) as nat;
        assert((num * 10 + digit_val(s[i])) * pow10(m) + digits_val(s.subrange(i + 1, j)) == num
            * (10 * pow10(m)) + (digit_val(s[i]) * pow10(m) + digits_val(s.subrange(i + 1, j))))
            by (nonlinear_arith);
        assert(pow10((j - i) as nat) == 10 * pow10(m));
        if seen_dot {
            assert((den * 10) * pow10(m) == den * (10 * pow10(m))) by (nonlinear_arith);
        }
    }
}

/// Law: for a decimal literal without a point — a maximal run of digits —
/// the lexer recovers the exact mathematical value: the token is the
/// rational `digits_val / 1`, and the literal's characters are consumed.
pub proof fn lemma_literal_exact_integer(s: Seq<char>, i: int, j: int)
    requires
        0 <= i < j <= s.len(),
        forall|k: int| i <= k < j ==> is_digit_char(#[trigger] s[k]),
        j == s.len() || (!is_digit_char(s[j]) && s[j] != '.'),
        digits_val(s.subrange(i, j)) <= i64::MAX,
    ensures
        spec_next_token(s, i) == Scan::Found(
            Tok::Number(Rat { num: digits_val(s.subrange(i, j)), den: 1 }),
            j,
        ),
{
    assert(skip_ws(s, i) == i);
    lemma_scan_digits(s, i, j, 0, 1, false);
}

/// Law: for a decimal literal with one point — digits, `.` at position
/// `p`, digits, then a boundary — the lexer recovers the exact mathematical
/// value: with `f` fraction digits the token is the rational whose
/// numerator is `intpart * 10^f + fracpart` and whose denominator is
/// `10^f`, so exactly `intpart + fracpart / 10^f`.
pub proof fn lemma_literal_exact_decimal(s: Seq<char>, i: int, p: int, j: int)
    requires
        0 <= i <= p < j <= s.len(),
        forall|k: int| i <= k < p ==> is_digit_char(#[trigger] s[k]),
        s[p] == '.',
        forall|k: int| p < k < j ==> is_digit_char(#[trigger] s[k]),
        j == s.len() || !is_digit_char(s[j]),
        digits_val(s.subrange(i, p)) * pow10((j - p - 1) as nat) + digits_val(
            s.subrange(p + 1, j),
        ) <= i64::MAX,
        pow10((j - p - 1) as nat) <= i64::MAX,
    ensures
        spec_next_token(s, i) == Scan::Found(
            Tok::Number(
                Rat {
                    num: digits_val(s.subrange(i, p)) * pow10((j - p - 1) as nat) + digits_val(
                        s.subrange(p + 1, j),
                    ),
                    den: pow10((j - p - 1) as nat),
                },
            ),
            j,
        ),
{
    assert(skip_ws(s, i) == i);
    lemma_scan_digits(s, i, p, 0, 1, false);
    let ip = digits_val(s.subrange(i, p));
    assert(scan_number(s, p, ip, 1, false) == scan_number(s, p + 1, ip, 1, true));
    lemma_scan_digits(s, p + 1, j, ip, 1, true);
}

/// A scanned token lies within the input, consumes at least one character
/// unless it is the end of the input, and a scanned number is a well-formed
/// non-negative rational that fits the executable representation.
pub proof fn lemma_next_token_bounds(s: Seq<char>, i: int)
    requires
        0 <= i <= s.len(),
    ensures
        match spec_next_token(s, i) {
            Scan::Found(t, j) => {
                &&& i <= j <= s.len()
                &&& (!(t is EndOfInput) ==> i < j)
                &&& (t matches Tok::Number(b) ==> 0 <= b.num <= i64::MAX && 1 <= b.den
                    <= i64::MAX)
            },
            Scan::Fail(_) => true,
        },
{
    lemma_skip_ws_bounds(s, i);
    let j = skip_ws(s, i);
    if j < s.len() {
        let c = s[j];
        if is_digit_char(c) || c == '.' {
            if is_digit_char(c) {
                lemma_scan_number_props(s, j + 1, digit_val(c), 1, false);
            } else {
                lemma_scan_number_props(s, j + 1, 0, 1, true);
            }
        } else if c == 'p' {
            lemma_scan_word_end_bounds(s, j + 1);
        } else if c == '"' {
            lemma_scan_text_end_bounds(s, j + 1);
        }
    }
}

/// The lexer: the program text and the position of the next unread
/// character.
pub struct Lexer {
    pub input: String,
    pub pos: usize,
}

fn space_char(c: char) -> (r: bool)
    ensures
        r == is_space_char(c),
{
    c == ' ' || c == '\t' || c == '\n' || c == '\r'
}

fn word_char(c: char) -> (r: bool)
    ensures
        r == is_word_char(c),
{
    let u = c as u32;
    (97 <= u && u <= 122) || (65 <= u && u <= 90) || c == '_'
}

impl Lexer {
    /// The cursor never passes the end of the input.
    pub open spec fn inv(self) -> bool {
        self.pos <= self.input@.len()
    }

    /// A fresh lexer at the start of the given program text.
    pub fn new(input: &str) -> (r: Lexer)
        ensures
            r.inv(),
            r.input@ == input@,
            r.pos == 0,
    {
        Lexer { input: input.to_owned(), pos: 0 }
    }

    /// Produces the next token and consumes its characters, or reports a
    /// fatal lexical fault, exactly as `spec_next_token` says.
    pub fn next_token(&mut self) -> (r: Result<Token, Fatal>)
        requires
            old(self).inv(),
        ensures
            final(self).inv(),
            final(self).input == old(self).input,
            match r {
                Ok(t) => {
                    &&& spec_next_token(old(self).input@, old(self).pos as int) == Scan::Found(
                        t@,
                        final(self).pos as int,
                    )
                    &&& (t matches Token::Number(v) ==> v.inv())
                },
                Err(f) => spec_next_token(old(self).input@, old(self).pos as int) == Scan::Fail(f),
            },
    {
        let ghost s = self.input@;
        let ghost i0 = self.pos as int;
        let len = self.input.as_str().unicode_len();
        let mut p = self.pos;
        loop
            invariant
                self == old(self),
                s == self.input@,
                len == s.len(),
                0 <= i0 <= p as int <= s.len(),
                skip_ws(s, i0) == skip_ws(s, p as int),
            ensures
                p as int == skip_ws(s, i0),
            decreases s.len() - p,
        {
            if p < len {
                let c = self.input.as_str().get_char(p);
                if space_char(c) {
                    p = p + 1;
                } else {
                    break;
                }
            } else {
                break;
            }
        }
        if p == len {
            self.pos = p;
            return Ok(Token::EndOfInput);
        }
        let c = self.input.as_str().get_char(p);
        let u = c as u32;
        if (48 <= u && u <= 57) || c == '.' {
            let ghost j0 = p as int;
            let mut num: i64 = 0;
            let mut den: i64 = 1;
            let mut seen_dot: bool = false;
            loop
                invariant
                    self == old(self),
                    s == self.input@,
                    len == s.len(),
                    0 <= i0 <= j0 <= p as int <= s.len(),
                    i0 == old(self).pos as int,
                    j0 == skip_ws(s, i0),
                    is_digit_char(s[j0]) || s[j0] == '.',
                    0 <= num,
                    1 <= den,
                    scan_number(s, j0, 0, 1, false) == scan_number(
                        s,
                        p as int,
                        num as int,
                        den as int,
                        seen_dot,
                    ),
                ensures
                    scan_number(s, j0, 0, 1, false) == (num as int, den as int, p as int),
                decreases s.len() - p,
            {
                if p == len {
                    break;
                }
                let c2 = self.input.as_str().get_char(p);
                let u2 = c2 as u32;
                if 48 <= u2 && u2 <= 57 {
                    let dig = (u2 - 48) as i64;
                    let tn: i128 = num as i128 * 10 + dig as i128;
                    let td: i128 = if seen_dot {
                        den as i128 * 10
                    } else {
                        den as i128
                    };
                    if tn > i64::MAX as i128 || td > i64::MAX as i128 {
                        proof {
                            lemma_scan_number_props(
                                s,
                                p as int + 1,
                                num as int * 10 + digit_val(c2),
                                if seen_dot {
                                    den as int * 10
                                } else {
                                    den as int
                                },
                                seen_dot,
                            );
                        }
                        self.pos = p;
                        return Err(Fatal::Overflow);
                    }
                    num = tn as i64;
                    den = td as i64;
                    p = p + 1;
                } else if u2 == 46 && !seen_dot {
                    seen_dot = true;
                    p = p + 1;
                } else {
                    break;
                }
            }
            self.pos = p;
            return Ok(Token::Number(Rational { num, den }));
        }
        if c == 'p' {
            let start = p;
            loop
                invariant
                    self == old(self),
                    s == self.input@,
                    len == s.len(),
                    0 <= start as int <= p as int <= s.len(),
                    scan_word_end(s, start as int) == scan_word_end(s, p as int),
                ensures
                    scan_word_end(s, start as int) == p as int,
                decreases s.len() - p,
            {
                if p == len {
                    break;
                }
                let c2 = self.input.as_str().get_char(p);
                if word_char(c2) {
                    p = p + 1;
                } else {
                    break;
                }
            }
            let ghost w = s.subrange(start as int, p as int);
            let wlen = p - start;
            let is_printcal = wlen == 8 && self.input.as_str().get_char(start + 1) == 'r'
                && self.input.as_str().get_char(start + 2) == 'i' && self.input.as_str().get_char(
                start + 3,
            ) == 'n' && self.input.as_str().get_char(start + 4) == 't'
                && self.input.as_str().get_char(start + 5) == 'c' && self.input.as_str().get_char(
                start + 6,
            ) == 'a' && self.input.as_str().get_char(start + 7) == 'l';
            if is_printcal {
                proof {
                    assert(w =~= kw_printcal());
                }
                self.pos = p;
                return Ok(Token::PrintCal);
            }
            let is_print = wlen == 5 && self.input.as_str().get_char(start + 1) == 'r'
                && self.input.as_str().get_char(start + 2) == 'i' && self.input.as_str().get_char(
                start + 3,
            ) == 'n' && self.input.as_str().get_char(start + 4) == 't';
            if is_print {
                proof {
                    assert(w =~= kw_print());
                }
                self.pos = p;
                return Ok(Token::Print);
            }
            proof {
                assert(kw_printcal().len() == 8);
                assert(kw_print().len() == 5);
                if w == kw_printcal() {
                    assert(w[1] == 'r' && w[2] == 'i' && w[3] == 'n' && w[4] == 't' && w[5] == 'c'
                        && w[6] == 'a' && w[7] == 'l');
                }
                if w == kw_print() {
                    assert(w[1] == 'r' && w[2] == 'i' && w[3] == 'n' && w[4] == 't');
                }
            }
            self.pos = p;
            return Err(Fatal::UnknownKeyword);
        }
        if c == '"' {
            let start = p + 1;
            let mut e = start;
            loop
                invariant
                    self == old(self),
                    s == self.input@,
                    len == s.len(),
                    0 <= start as int <= e as int <= s.len(),
                    scan_text_end(s, start as int) == scan_text_end(s, e as int),
                ensures
                    scan_text_end(s, start as int) == e as int,
                decreases s.len() - e,
            {
                if e == len {
                    break;
                }
                let c2 = self.input.as_str().get_char(e);
                if c2 == '"' {
                    break;
                }
                e = e + 1;
            }
            let piece = self.input.as_str().substring_char(start, e);
            let content = piece.to_owned();
            if e < len {
                self.pos = e + 1;
            } else {
                self.pos = e;
            }
            return Ok(Token::Text(content));
        }
        if c == '+' {
            self.pos = p + 1;
            return Ok(Token::Plus);
        }
        if c == '-' {
            self.pos = p + 1;
            return Ok(Token::Minus);
        }
        if c == '*' {
            self.pos = p + 1;
            return Ok(Token::Multiply);
        }
        if c == '/' {
            self.pos = p + 1;
            return Ok(Token::Divide);
        }
        self.pos = p;
        Err(Fatal::UnexpectedChar)
    }
}

} // verus!
