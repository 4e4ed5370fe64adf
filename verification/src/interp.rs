//! The interpreter: a state machine over statements.
//!
//! One statement per iteration: `print` followed by quoted text emits the
//! text; `printcal` followed by a number evaluates the arithmetic chain that
//! follows and emits its value; end of input finishes the run. A statement
//! of the wrong shape stops the run with a numbered diagnostic that cites
//! the 1-based statement index; a lexer or evaluator fault stops it with a
//! fatal error and no diagnostic. The interpreter itself never panics and
//! performs no output: it returns the emitted items, and its caller prints
//! them.

use vstd::prelude::*;
use crate::eval::{eval_chain, lemma_spec_eval_bounds, spec_eval, Eval};
use crate::lexer::{lemma_next_token_bounds, spec_next_token, Lexer, Scan};
use crate::rational::{Rat, Rational};
use crate::token::{Fatal, Tok, Token};

verus! {

/// The recoverable statement-shape diagnostics.
#[derive(Clone, Copy, Debug, PartialEq, Eq, Structural)]
pub enum DiagCode {
    /// `printcal` not followed by a number.
    PrintcalNeedsNumber,
    /// `print` not followed by quoted text.
    PrintNeedsText,
    /// A leading token that is neither `print` nor `printcal` nor the end
    /// of the input.
    BadLeadingToken,
}

impl DiagCode {
    /// The stable numeric code of the diagnostic.
    pub open spec fn spec_code(self) -> int {
        match self {
            DiagCode::PrintcalNeedsNumber => 1,
            DiagCode::PrintNeedsText => 2,
            DiagCode::BadLeadingToken => 3,
        }
    }

    /// The stable numeric code, for rendering `ERROR[000n]`.
    pub fn code(self) -> (r: u32)
        ensures
            r as int == self.spec_code(),
    {
        match self {
            DiagCode::PrintcalNeedsNumber => 1,
            DiagCode::PrintNeedsText => 2,
            DiagCode::BadLeadingToken => 3,
        }
    }
}

/// One emitted item: the content of a `print` statement, or the value of a
/// `printcal` statement. The caller prints each item on a line of its own.
#[derive(Clone, Debug, PartialEq)]
pub enum Output {
    Text(String),
    Number(Rational),
}

/// An emitted item at the specification level.
pub ghost enum OutputV {
    Text(Seq<char>),
    Number(Rat),
}

impl View for Output {
    type V = OutputV;

    open spec fn view(&self) -> OutputV {
        match self {
            Output::Text(s) => OutputV::Text(s@),
            Output::Number(r) => OutputV::Number(r@),
        }
    }
}

/// How a run ended: cleanly, with a numbered diagnostic citing the 1-based
/// statement index, or with a fatal fault.
#[derive(Clone, Copy, Debug, PartialEq, Eq)]
pub enum Status {
    Finished,
    Diagnostic(DiagCode, u64),
    Aborted(Fatal),
}

/// A run's end at the specification level.
pub ghost enum StatusV {
    Finished,
    Diagnostic(DiagCode, int),
    Aborted(Fatal),
}

impl View for Status {
    type V = StatusV;

    open spec fn view(&self) -> StatusV {
        match self {
            Status::Finished => StatusV::Finished,
            Status::Diagnostic(c, n) => StatusV::Diagnostic(*c, *n as int),
            Status::Aborted(f) => StatusV::Aborted(*f),
        }
    }
}

/// Everything a run produced: the emitted items, in order, and how it
/// ended. Items emitted before a diagnostic or a fatal fault are kept.
#[derive(Clone, Debug, PartialEq)]
pub struct RunOutcome {
    pub outputs: Vec<Output>,
    pub status: Status,
}

/// A run's production at the specification level.
pub ghost struct OutcomeV {
    pub outputs: Seq<OutputV>,
    pub status: StatusV,
}

/// The emitted items of `outs`, at the specification level.
pub open spec fn outs_view(outs: Seq<Output>) -> Seq<OutputV> {
    outs.map_values(|o: Output| o@)
}

impl View for RunOutcome {
    type V = OutcomeV;

    open spec fn view(&self) -> OutcomeV {
        OutcomeV { outputs: outs_view(self.outputs@), status: self.status@ }
    }
}

/// The run from position `i` of `s`, with `stmt` the 1-based index of the
/// next statement.
pub open spec fn spec_run(s: Seq<char>, i: int, stmt: int) -> OutcomeV
    decreases s.len() - i when 0 <= i <= s.len() via spec_run_decreases
{
    match spec_next_token(s, i) {
        Scan::Fail(f) => OutcomeV { outputs: Seq::empty(), status: StatusV::Aborted(f) },
        Scan::Found(t, j) => match t {
            Tok::EndOfInput => OutcomeV { outputs: Seq::empty(), status: StatusV::Finished },
            Tok::Print => match spec_next_token(s, j) {
                Scan::Fail(f) => OutcomeV {
                    outputs: Seq::empty(),
                    status: StatusV::Aborted(f),
                },
                Scan::Found(t2, k) => match t2 {
                    Tok::Text(txt) => {
                        let rest = spec_run(s, k, stmt + 1);
                        OutcomeV {
                            outputs: seq![OutputV::Text(txt)] + rest.outputs,
                            status: rest.status,
                        }
                    },
                    _ => OutcomeV {
                        outputs: Seq::empty(),
                        status: StatusV::Diagnostic(DiagCode::PrintNeedsText, stmt),
                    },
                },
            },
            Tok::PrintCal => match spec_next_token(s, j) {
                Scan::Fail(f) => OutcomeV {
                    outputs: Seq::empty(),
                    status: StatusV::Aborted(f),
                },
                Scan::Found(t2, k) => match t2 {
                    Tok::Number(b) => match spec_eval(s, k, b) {
                        Eval::Fail(f) => OutcomeV {
                            outputs: Seq::empty(),
                            status: StatusV::Aborted(f),
                        },
                        Eval::Val(v, m) => {
                            let rest = spec_run(s, m, stmt + 1);
                            OutcomeV {
                                outputs: seq![OutputV::Number(v)] + rest.outputs,
                                status: rest.status,
                            }
                        },
                    },
                    _ => OutcomeV {
                        outputs: Seq::empty(),
                        status: StatusV::Diagnostic(DiagCode::PrintcalNeedsNumber, stmt),
                    },
                },
            },
            _ => OutcomeV {
                outputs: Seq::empty(),
                status: StatusV::Diagnostic(DiagCode::BadLeadingToken, stmt),
            },
        },
    }
}

#[via_fn]
proof fn spec_run_decreases(s: Seq<char>, i: int, stmt: int) {
    lemma_next_token_bounds(s, i);
    if let Scan::Found(t, j) = spec_next_token(s, i) {
        if i <= j <= s.len() {
            lemma_next_token_bounds(s, j);
            if let Scan::Found(t2, k) = spec_next_token(s, j) {
                if i < k <= s.len() {
                    if let Tok::Number(b) = t2 {
                        lemma_spec_eval_bounds(s, k, b);
                    }
                }
            }
        }
    }
}

/// Interprets a whole program: statements in order until the input ends, a
/// diagnostic stops the run, or a fatal fault aborts it. The outcome is
/// exactly `spec_run` over the program's characters.
pub fn interpret(code: &str) -> (r: RunOutcome)
    ensures
        r@ == spec_run(code@, 0, 1),
{
    let ghost s = code@;
    let mut lexer = Lexer::new(code);
    let mut outputs: Vec<Output> = Vec::new();
    loop
        invariant
            lexer.inv(),
            lexer.input@ == s,
            s == code@,
            2 * outs_view(outputs@).len() <= lexer.pos as int,
            spec_run(s, 0, 1).outputs == outs_view(outputs@) + spec_run(
                s,
                lexer.pos as int,
                outs_view(outputs@).len() as int + 1,
            ).outputs,
            spec_run(s, 0, 1).status == spec_run(
                s,
                lexer.pos as int,
                outs_view(outputs@).len() as int + 1,
            ).status,
        decreases s.len() - lexer.pos,
    {
        let ghost pos0 = lexer.pos as int;
        let ghost stmt = outs_view(outputs@).len() as int + 1;
        let ghost outs0 = outputs@;
        proof {
            lemma_next_token_bounds(s, pos0);
        }
        let t = match lexer.next_token() {
            Ok(t) => t,
            Err(f) => {
                return RunOutcome { outputs, status: Status::Aborted(f) };
            },
        };
        match t {
            Token::EndOfInput => {
                proof {
                    assert(spec_run(s, 0, 1).outputs =~= outs_view(outputs@));
                }
                return RunOutcome { outputs, status: Status::Finished };
            },
            Token::Print => {
                proof {
                    lemma_next_token_bounds(s, lexer.pos as int);
                }
                let t2 = match lexer.next_token() {
                    Ok(t2) => t2,
                    Err(f) => {
                        return RunOutcome { outputs, status: Status::Aborted(f) };
                    },
                };
                match t2 {
                    Token::Text(txt) => {
                        let ghost txtv = txt@;
                        outputs.push(Output::Text(txt));
                        proof {
                            let rest = spec_run(s, lexer.pos as int, stmt + 1);
                            assert(outs_view(outputs@) =~= outs_view(outs0) + seq![
                                OutputV::Text(txtv),
                            ]);
                            assert(outs_view(outs0) + (seq![OutputV::Text(txtv)] + rest.outputs)
                                =~= outs_view(outputs@) + rest.outputs);
                        }
                    },
                    _ => {
                        let line = outputs.len() as u64 + 1;
                        return RunOutcome {
                            outputs,
                            status: Status::Diagnostic(DiagCode::PrintNeedsText, line),
                        };
                    },
                }
            },
            Token::PrintCal => {
                proof {
                    lemma_next_token_bounds(s, lexer.pos as int);
                }
                let t2 = match lexer.next_token() {
                    Ok(t2) => t2,
                    Err(f) => {
                        return RunOutcome { outputs, status: Status::Aborted(f) };
                    },
                };
                match t2 {
                    Token::Number(b) => {
                        proof {
                            lemma_spec_eval_bounds(s, lexer.pos as int, b@);
                        }
                        match eval_chain(&mut lexer, b) {
                            Ok(v) => {
                                let ghost vv = v@;
                                outputs.push(Output::Number(v));
                                proof {
                                    let rest = spec_run(s, lexer.pos as int, stmt + 1);
                                    assert(outs_view(outputs@) =~= outs_view(outs0) + seq![
                                        OutputV::Number(vv),
                                    ]);
                                    assert(outs_view(outs0) + (seq![OutputV::Number(vv)]
                                        + rest.outputs) =~= outs_view(outputs@) + rest.outputs);
                                }
                            },
                            Err(f) => {
                                return RunOutcome { outputs, status: Status::Aborted(f) };
                            },
                        }
                    },
                    _ => {
                        let line = outputs.len() as u64 + 1;
                        return RunOutcome {
                            outputs,
                            status: Status::Diagnostic(DiagCode::PrintcalNeedsNumber, line),
                        };
                    },
                }
            },
            _ => {
                let line = outputs.len() as u64 + 1;
                return RunOutcome {
                    outputs,
                    status: Status::Diagnostic(DiagCode::BadLeadingToken, line),
                };
            },
        }
    }
}

} // verus!
