//! The expression evaluator: reduces a left-to-right arithmetic chain,
//! pulled token by token from the lexer, to a single exact rational.
//!
//! There is no operator precedence: each operator is applied at once to the
//! running value and the next operand, so `2 + 3 * 4` is `(2 + 3) * 4`.

use vstd::prelude::*;
use crate::lexer::{lemma_next_token_bounds, spec_next_token, Lexer, Scan};
use crate::rational::{rat_add, rat_div, rat_fits, rat_mul, rat_sub, Rat, Rational};
use crate::token::{tok_op, Fatal, Op, Tok, Token};

verus! {

/// The exact rational result of one operator application.
pub open spec fn apply_op(op: Op, a: Rat, b: Rat) -> Rat {
    match op {
        Op::Add => rat_add(a, b),
        Op::Sub => rat_sub(a, b),
        Op::Mul => rat_mul(a, b),
        Op::Div => rat_div(a, b),
    }
}

/// What evaluating a chain yields: the final value and the position after
/// the chain's end-of-input, or a fatal fault.
pub ghost enum Eval {
    Val(Rat, int),
    Fail(Fatal),
}

/// Left-to-right evaluation from position `i` with running value `acc`.
///
/// The chain ends only at the end of the input; an operator must be followed
/// by a number; a divisor that is exactly zero is a fatal
/// `DivisionByZero`; a running value whose exact numerator or denominator
/// leaves the `i64` range is a fatal `Overflow`; any other token is a fatal
/// `UnexpectedToken`.
pub open spec fn spec_eval(s: Seq<char>, i: int, acc: Rat) -> Eval
    decreases s.len() - i when 0 <= i <= s.len() via spec_eval_decreases
{
    match spec_next_token(s, i) {
        Scan::Fail(f) => Eval::Fail(f),
        Scan::Found(t, j) => {
            if t is EndOfInput {
                Eval::Val(acc, j)
            } else {
                match tok_op(t) {
                    None => Eval::Fail(Fatal::UnexpectedToken),
                    Some(op) => match spec_next_token(s, j) {
                        Scan::Fail(f) => Eval::Fail(f),
                        Scan::Found(t2, k) => match t2 {
                            Tok::Number(b) => {
                                if op is Div && b.num == 0 {
                                    Eval::Fail(Fatal::DivisionByZero)
                                } else if rat_fits(apply_op(op, acc, b)) {
                                    spec_eval(s, k, apply_op(op, acc, b))
                                } else {
                                    Eval::Fail(Fatal::Overflow)
                                }
                            },
                            _ => Eval::Fail(Fatal::ExpectedNumber),
                        },
                    },
                }
            }
        },
    }
}

#[via_fn]
proof fn spec_eval_decreases(s: Seq<char>, i: int, acc: Rat) {
    lemma_next_token_bounds(s, i);
    if let Scan::Found(t, j) = spec_next_token(s, i) {
        if i <= j <= s.len() {
            lemma_next_token_bounds(s, j);
        }
    }
}

/// A finished chain ends at or after its start, within the input.
pub proof fn lemma_spec_eval_bounds(s: Seq<char>, i: int, acc: Rat)
    requires
        0 <= i <= s.len(),
    ensures
        spec_eval(s, i, acc) matches Eval::Val(v, m) ==> i <= m <= s.len(),
    decreases s.len() - i,
{
    lemma_next_token_bounds(s, i);
    if let Scan::Found(t, j) = spec_next_token(s, i) {
        if !(t is EndOfInput) {
            if let Some(op) = tok_op(t) {
                lemma_next_token_bounds(s, j);
                if let Scan::Found(t2, k) = spec_next_token(s, j) {
                    if let Tok::Number(b) = t2 {
                        if !(op is Div && b.num == 0) && rat_fits(apply_op(op, acc, b)) {
                            lemma_spec_eval_bounds(s, k, apply_op(op, acc, b));
                        }
                    }
                }
            }
        }
    }
}

/// The operator denoted by an operator token, if any.
pub fn token_op(t: &Token) -> (r: Option<Op>)
    ensures
        r == tok_op(t@),
{
    match t {
        Token::Plus => Some(Op::Add),
        Token::Minus => Some(Op::Sub),
        Token::Multiply => Some(Op::Mul),
        Token::Divide => Some(Op::Div),
        _ => None,
    }
}

/// Applies one operator exactly, or reports that the exact result does not
/// fit the bounded representation.
pub fn apply_checked(op: Op, a: Rational, b: Rational) -> (r: Option<Rational>)
    requires
        a.inv(),
        b.inv(),
        op is Div ==> b@.num != 0,
    ensures
        match r {
            Some(v) => v.inv() && v@ == apply_op(op, a@, b@) && rat_fits(apply_op(op, a@, b@)),
            None => !rat_fits(apply_op(op, a@, b@)),
        },
{
    match op {
        Op::Add => a.checked_add(b),
        Op::Sub => a.checked_sub(b),
        Op::Mul => a.checked_mul(b),
        Op::Div => a.checked_div(b),
    }
}

/// Folds the rest of the chain into the running value `acc`, exactly as
/// `spec_eval` says: reads an operator and a number at a time until the end
/// of the input.
pub fn eval_chain(lexer: &mut Lexer, acc: Rational) -> (r: Result<Rational, Fatal>)
    requires
        old(lexer).inv(),
        acc.inv(),
    ensures
        final(lexer).inv(),
        final(lexer).input == old(lexer).input,
        match r {
            Ok(v) => v.inv() && spec_eval(old(lexer).input@, old(lexer).pos as int, acc@)
                == Eval::Val(v@, final(lexer).pos as int),
            Err(f) => spec_eval(old(lexer).input@, old(lexer).pos as int, acc@) == Eval::Fail(f),
        },
{
    let ghost s = old(lexer).input@;
    let mut value = acc;
    loop
        invariant
            lexer.inv(),
            lexer.input == old(lexer).input,
            s == lexer.input@,
            value.inv(),
            spec_eval(s, old(lexer).pos as int, acc@) == spec_eval(s, lexer.pos as int, value@),
        decreases s.len() - lexer.pos,
    {
        let ghost pos0 = lexer.pos as int;
        proof {
            lemma_next_token_bounds(s, pos0);
        }
        let t = match lexer.next_token() {
            Ok(t) => t,
            Err(f) => {
                return Err(f);
            },
        };
        if let Token::EndOfInput = t {
            return Ok(value);
        }
        let op = match token_op(&t) {
            Some(op) => op,
            None => {
                return Err(Fatal::UnexpectedToken);
            },
        };
        proof {
            lemma_next_token_bounds(s, lexer.pos as int);
        }
        let t2 = match lexer.next_token() {
            Ok(t2) => t2,
            Err(f) => {
                return Err(f);
            },
        };
        let b = match t2 {
            Token::Number(b) => b,
            _ => {
                return Err(Fatal::ExpectedNumber);
            },
        };
        if let Op::Div = op {
            if b.is_zero() {
                return Err(Fatal::DivisionByZero);
            }
        }
        value = match apply_checked(op, value, b) {
            Some(v2) => v2,
            None => {
                return Err(Fatal::Overflow);
            },
        };
    }
}

/// The `(operator, operand)` pairs standing between position `i` and the
/// end of the input, in source order, when the text there has that shape.
pub open spec fn chain_from(s: Seq<char>, i: int) -> Option<Seq<(Op, Rat)>>
    decreases s.len() - i when 0 <= i <= s.len() via chain_from_decreases
{
    match spec_next_token(s, i) {
        Scan::Fail(_) => None,
        Scan::Found(t, j) => {
            if t is EndOfInput {
                Some(Seq::empty())
            } else {
                match tok_op(t) {
                    None => None,
                    Some(op) => match spec_next_token(s, j) {
                        Scan::Fail(_) => None,
                        Scan::Found(t2, k) => match t2 {
                            Tok::Number(b) => match chain_from(s, k) {
                                None => None,
                                Some(c) => Some(seq![(op, b)] + c),
                            },
                            _ => None,
                        },
                    },
                }
            }
        },
    }
}

#[via_fn]
proof fn chain_from_decreases(s: Seq<char>, i: int) {
    lemma_next_token_bounds(s, i);
    if let Scan::Found(t, j) = spec_next_token(s, i) {
        if i <= j <= s.len() {
            lemma_next_token_bounds(s, j);
        }
    }
}

/// The exact left fold of a chain of operators and operands over a seed
/// value, in the unbounded rationals.
pub open spec fn fold_chain(acc: Rat, c: Seq<(Op, Rat)>) -> Rat
    decreases c.len(),
{
    if c.len() == 0 {
        acc
    } else {
        fold_chain(apply_op(c[0].0, acc, c[0].1), c.drop_first())
    }
}

/// Law: for a chain of numbers and operators with no division by zero, in
/// which every intermediate value fits the bounded representation, the
/// evaluator's result is exactly the left fold of the operators over the
/// numbers in source order — each operator applied at once to the running
/// value, with no precedence.
pub proof fn lemma_eval_is_left_fold(s: Seq<char>, i: int, seed: Rat, c: Seq<(Op, Rat)>)
    requires
        0 <= i <= s.len(),
        chain_from(s, i) == Some(c),
        forall|n: int| 0 <= n < c.len() ==> !((#[trigger] c[n].0) is Div && c[n].1.num == 0),
        forall|n: int| 0 < n <= c.len() ==> rat_fits(fold_chain(seed, #[trigger] c.subrange(0, n))),
    ensures
        spec_eval(s, i, seed) matches Eval::Val(v, m) && v == fold_chain(seed, c),
    decreases s.len() - i,
{
    lemma_next_token_bounds(s, i);
    if let Scan::Found(t, j) = spec_next_token(s, i) {
        if t is EndOfInput {
            assert(c =~= Seq::<(Op, Rat)>::empty());
        } else {
            let op = tok_op(t)->Some_0;
            lemma_next_token_bounds(s, j);
            if let Scan::Found(t2, k) = spec_next_token(s, j) {
                if let Tok::Number(b) = t2 {
                    let rest = chain_from(s, k)->Some_0;
                    assert(c == seq![(op, b)] + rest);
                    assert(c[0] == (op, b));
                    assert(c.len() == 1 + rest.len());
                    let c1 = apply_op(op, seed, b);
                    assert(!(op is Div && b.num == 0));
                    assert(c.subrange(0, 1) =~= seq![(op, b)]);
                    assert(c.subrange(0, 1).drop_first() =~= Seq::<(Op, Rat)>::empty());
                    assert(fold_chain(c1, Seq::<(Op, Rat)>::empty()) == c1);
                    assert(fold_chain(seed, c.subrange(0, 1)) == c1);
                    assert(rat_fits(c1));
                    assert forall|n: int| 0 < n <= rest.len() implies rat_fits(
                        fold_chain(c1, #[trigger] rest.subrange(0, n)),
                    ) by {
                        assert(c.subrange(0, n + 1)[0] == (op, b));
                        assert(c.subrange(0, n + 1).drop_first() =~= rest.subrange(0, n));
                        assert(fold_chain(seed, c.subrange(0, n + 1)) == fold_chain(
                            c1,
                            rest.subrange(0, n),
                        ));
                    }
                    assert forall|n: int| 0 <= n < rest.len() implies !((#[trigger] rest[n].0)
                        is Div && rest[n].1.num == 0) by {
                        assert(rest[n] == c[n + 1]);
                    }
                    lemma_eval_is_left_fold(s, k, c1, rest);
                    assert(c.drop_first() =~= rest);
                    assert(fold_chain(seed, c) == fold_chain(c1, rest));
                }
            }
        }
    }
}

/// The whole expression from position `i`: a first number, then the folded
/// chain.
pub open spec fn spec_parse_expression(s: Seq<char>, i: int) -> Eval
    recommends
        0 <= i <= s.len(),
{
    match spec_next_token(s, i) {
        Scan::Fail(f) => Eval::Fail(f),
        Scan::Found(t, j) => match t {
            Tok::Number(b) => spec_eval(s, j, b),
            _ => Eval::Fail(Fatal::ExpectedNumber),
        },
    }
}

/// Reads one number as the running value, then folds the chain after it.
pub fn parse_expression(lexer: &mut Lexer) -> (r: Result<Rational, Fatal>)
    requires
        old(lexer).inv(),
    ensures
        final(lexer).inv(),
        final(lexer).input == old(lexer).input,
        match r {
            Ok(v) => v.inv() && spec_parse_expression(old(lexer).input@, old(lexer).pos as int)
                == Eval::Val(v@, final(lexer).pos as int),
            Err(f) => spec_parse_expression(old(lexer).input@, old(lexer).pos as int)
                == Eval::Fail(f),
        },
{
    let ghost s = old(lexer).input@;
    proof {
        lemma_next_token_bounds(s, old(lexer).pos as int);
    }
    let t = match lexer.next_token() {
        Ok(t) => t,
        Err(f) => {
            return Err(f);
        },
    };
    match t {
        Token::Number(b) => eval_chain(lexer, b),
        _ => Err(Fatal::ExpectedNumber),
    }
}

} // verus!
