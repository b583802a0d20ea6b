pub mod common_tokens;
pub mod error;
pub mod grammar;
pub mod laws;
pub mod machine;
pub mod semantics;
pub mod token;
pub mod value;

use vstd::prelude::*;
use crate::token::{Token, toks_model, lemma_toks_model};
use crate::value::Value;
use crate::error::{terminal_res_model, ParseError, TerminalError};
use crate::grammar::{Grammar, SmResult, res_model};
use crate::machine::{drive, init, terminate, Step};
use crate::semantics::{exact_m, fed_of, parse_m, run_exact_m, run_parse_m, wf};
use crate::laws::{lemma_drive_ok, lemma_init_wf};

verus! {

/// Drive a recognizer for `g` over the whole token sequence, left to
/// right: stop with the first broken result, else terminate at the end.
/// The result is exactly the model's `parse_m`, a function of the grammar
/// and tokens alone.
pub fn parse(g: &Grammar, toks: &Vec<Token>) -> (r: SmResult<Value, ParseError>)
    ensures
        res_model(r) == parse_m(g.model(), toks_model(toks@)),
    decreases *g, 5nat, 0nat, 1nat,
{
    let ghost gm = g.model();
    let ghost tm = toks_model(toks@);
    proof {
        lemma_init_wf(gm);
        lemma_toks_model(toks@);
    }
    let mut m = init(g);
    let n: usize = toks.len();
    let mut i: usize = 0;
    while i < n
        invariant
            n == toks@.len(),
            i <= n,
            gm == g.model(),
            tm == toks_model(toks@),
            tm.len() == n,
            forall|j: int| 0 <= j < n ==> tm[j] == toks@[j].model(),
            wf(gm, m.model()),
            fed_of(m.model()) == i,
            run_parse_m(gm, m.model(), tm, i as nat) == parse_m(gm, tm),
        decreases n - i,
    {
        let ghost mm = m.model();
        let step = drive(g, m, &toks[i]);
        proof {
            lemma_drive_ok(gm, mm, toks@[i as int].model());
        }
        match step {
            Step::Continue(c) => {
                m = c;
            },
            Step::Break(r) => {
                return r;
            },
        }
        i = i + 1;
    }
    terminate(g, m)
}

/// Drive a recognizer for `g` over the whole token sequence, requiring a
/// success recorded exactly at stream end with no backtrack: a stricter
/// parse used to force full consumption of a bounded region.  Anything
/// else is a non-terminal failure, distinct from a content mismatch.
pub fn parse_terminal(g: &Grammar, toks: &Vec<Token>) -> (r: Result<Value, TerminalError>)
    ensures
        terminal_res_model(r) == exact_m(g.model(), toks_model(toks@)),
    decreases *g, 5nat, 0nat, 0nat,
{
    let ghost gm = g.model();
    let ghost tm = toks_model(toks@);
    proof {
        lemma_init_wf(gm);
        lemma_toks_model(toks@);
    }
    let mut m = init(g);
    let n: usize = toks.len();
    let mut i: usize = 0;
    while i < n
        invariant
            n == toks@.len(),
            i <= n,
            gm == g.model(),
            tm == toks_model(toks@),
            tm.len() == n,
            forall|j: int| 0 <= j < n ==> tm[j] == toks@[j].model(),
            wf(gm, m.model()),
            fed_of(m.model()) == i,
            run_exact_m(gm, m.model(), tm, i as nat) == exact_m(gm, tm),
        decreases n - i,
    {
        let ghost mm = m.model();
        let step = drive(g, m, &toks[i]);
        proof {
            lemma_drive_ok(gm, mm, toks@[i as int].model());
        }
        match step {
            Step::Continue(c) => {
                m = c;
            },
            Step::Break(Result::Err(e)) => {
                return Result::Err(TerminalError::Inner(Box::new(e)));
            },
            Step::Break(Result::Ok((v, k))) => {
                if i + 1 == n && k == 0 {
                    return Result::Ok(v);
                } else {
                    return Result::Err(TerminalError::NonTerminal);
                }
            },
        }
        i = i + 1;
    }
    match terminate(g, m) {
        Result::Ok((v, k)) => {
            if k == 0 {
                Result::Ok(v)
            } else {
                Result::Err(TerminalError::NonTerminal)
            }
        },
        Result::Err(e) => Result::Err(TerminalError::Inner(Box::new(e))),
    }
}

} // verus!
