use vstd::prelude::*;
use crate::token::{Token, toks_model, lemma_toks_model};
use crate::value::{Value, vals_model, lemma_vals_model, lemma_vals_model_push, lemma_toks_model_push};
use crate::error::{AndNotError, GroupError, LengthError, ParseError, TupleError, errs_model};
use crate::grammar::{Grammar, GrammarM, ResM, SmResult, res_model, grams_model, lemma_grams_model};
use crate::token::Delimiter;
use crate::semantics::{
    alt_step_all, alt_term_all, branch_errs, branch_step, branch_term, branch_wf, branches_wf,
    drive_m, fed_of, init_branches, init_m, inter_stepup_m, inter_term_rounds, rep_stepup_m,
    rep_term_rounds, resolve_scan, seq_replay_m, term_m, wf, BranchM, MachineM, ResolveM,
    StepM,
};
use crate::laws::{
    lemma_branches_wf_elim, lemma_drive_ok, lemma_init_wf, lemma_rep_stepup_ok,
    lemma_seq_replay_ok,
};

verus! {

/// The state of one alternation branch.
pub enum Branch {
    Running(Machine),
    DoneOk(Value, usize),
    DoneErr(ParseError),
}

/// The state of a recognizer between two `drive` calls.  A machine is a
/// value: `drive` consumes the old state and returns a new one or a final
/// result, so state is threaded by move and never aliased.
pub enum Machine {
    Ready,
    SeqA { buf: Vec<Token>, a: Box<Machine> },
    SeqB { a_val: Box<Value>, fed: usize, b: Box<Machine> },
    Alt { fed: usize, branches: Vec<Branch> },
    Rep { items: Vec<Value>, cur: Box<Machine>, cur_fed: usize, hist: Vec<Token> },
    Inter {
        items: Vec<Value>,
        seps: Vec<Value>,
        parked: Option<Box<Value>>,
        on_item: bool,
        cur: Box<Machine>,
        cur_fed: usize,
        checkpoint: usize,
        hist: Vec<Token>,
    },
    Opt { inner: Box<Machine>, fed: usize },
    AndNot { val: Box<Branch>, not: Box<Branch>, fed: usize },
    Wrap { inner: Box<Machine> },
}

/// One step of the recognizer protocol: continue with a successor state,
/// or break with a final result.
pub enum Step {
    Continue(Machine),
    Break(SmResult<Value, ParseError>),
}

impl Branch {
    pub open spec fn model(self) -> BranchM
        decreases self, 1nat,
    {
        match self {
            Branch::Running(m) => BranchM::Running(Box::new(m.model())),
            Branch::DoneOk(v, k) => BranchM::DoneOk(Box::new(v.model()), k as nat),
            Branch::DoneErr(e) => BranchM::DoneErr(Box::new(e.model())),
        }
    }
}

impl Machine {
    pub open spec fn model(self) -> MachineM
        decreases self, 0nat,
    {
        match self {
            Machine::Ready => MachineM::Ready,
            Machine::SeqA { buf, a } => MachineM::SeqA {
                buf: toks_model(buf@),
                a: Box::new(a.model()),
            },
            Machine::SeqB { a_val, fed, b } => MachineM::SeqB {
                a_val: Box::new(a_val.model()),
                fed: fed as nat,
                b: Box::new(b.model()),
            },
            Machine::Alt { fed, branches } => MachineM::Alt {
                fed: fed as nat,
                branches: branches_model(branches@),
            },
            Machine::Rep { items, cur, cur_fed, hist } => MachineM::Rep {
                items: vals_model(items@),
                cur: Box::new(cur.model()),
                cur_fed: cur_fed as nat,
                hist: toks_model(hist@),
            },
            Machine::Inter { items, seps, parked, on_item, cur, cur_fed, checkpoint, hist } =>
                MachineM::Inter {
                    items: vals_model(items@),
                    seps: vals_model(seps@),
                    parked: match parked {
                        Option::Some(v) => Option::Some(Box::new(v.model())),
                        Option::None => Option::None,
                    },
                    on_item,
                    cur: Box::new(cur.model()),
                    cur_fed: cur_fed as nat,
                    checkpoint: checkpoint as nat,
                    hist: toks_model(hist@),
                },
            Machine::Opt { inner, fed } => MachineM::Opt {
                inner: Box::new(inner.model()),
                fed: fed as nat,
            },
            Machine::AndNot { val, not, fed } => MachineM::AndNot {
                val: Box::new(val.model()),
                not: Box::new(not.model()),
                fed: fed as nat,
            },
            Machine::Wrap { inner } => MachineM::Wrap { inner: Box::new(inner.model()) },
        }
    }
}

/// Model of a branch vector, element by element.
pub open spec fn branches_model(bs: Seq<Branch>) -> Seq<BranchM>
    decreases bs,
{
    if bs.len() == 0 {
        Seq::empty()
    } else {
        branches_model(bs.drop_last()).push(bs.last().model())
    }
}

/// `branches_model` maps the sequence pointwise.
pub proof fn lemma_branches_model(bs: Seq<Branch>)
    ensures
        branches_model(bs).len() == bs.len(),
        forall|i: int| 0 <= i < bs.len() ==> branches_model(bs)[i] == bs[i].model(),
    decreases bs,
{
    if bs.len() > 0 {
        lemma_branches_model(bs.drop_last());
    }
}

impl Step {
    pub open spec fn model(self) -> StepM {
        match self {
            Step::Continue(m) => StepM::Continue(m.model()),
            Step::Break(r) => StepM::Break(res_model(r)),
        }
    }
}

/// Create the initial recognizer state for a grammar.  A freshly created
/// machine that is terminated at once behaves as one driven zero times.
pub fn init(g: &Grammar) -> (m: Machine)
    ensures
        m.model() == init_m(g.model()),
    decreases *g, 0nat, 0nat, 0nat,
{
    match g {
        Grammar::Sequence(ga, _) => {
            let r = Machine::SeqA { buf: Vec::new(), a: Box::new(init(ga)) };
            proof { assert(r.model() == init_m(g.model())); }
            r
        },
        Grammar::Alternation(gs) => {
            let brs = init_branch_vec(gs);
            proof {
                let gsm = grams_model(gs@);
                lemma_grams_model(gs@);
                lemma_init_branches_index(gsm);
                lemma_branches_model(brs@);
                assert(branches_model(brs@) =~= init_branches(gsm));
            }
            Machine::Alt { fed: 0, branches: brs }
        },
        Grammar::Repetition(p) => {
            let r = Machine::Rep {
                items: Vec::new(),
                cur: Box::new(init(p)),
                cur_fed: 0,
                hist: Vec::new(),
            };
            proof { assert(r.model() == init_m(g.model())); }
            r
        },
        Grammar::Interleave(gi, _) => {
            let r = Machine::Inter {
                items: Vec::new(),
                seps: Vec::new(),
                parked: Option::None,
                on_item: true,
                cur: Box::new(init(gi)),
                cur_fed: 0,
                checkpoint: 0,
                hist: Vec::new(),
            };
            proof { assert(r.model() == init_m(g.model())); }
            r
        },
        Grammar::Optional(p) => {
            let r = Machine::Opt { inner: Box::new(init(p)), fed: 0 };
            proof { assert(r.model() == init_m(g.model())); }
            r
        },
        Grammar::AndNot(ga, gb) => {
            let ma = init(ga);
            let mb = init(gb);
            proof {
                assert(ma.model() == init_m(ga.model()));
                assert(Branch::Running(ma).model() == BranchM::Running(Box::new(init_m(ga.model()))));
                assert(g.model() matches GrammarM::AndNot(x, y) && *x == ga.model() && *y == gb.model());
                assert(init_m(g.model()) == MachineM::AndNot {
                    val: Box::new(BranchM::Running(Box::new(init_m(ga.model())))),
                    not: Box::new(BranchM::Running(Box::new(init_m(gb.model())))),
                    fed: 0,
                });
                assert(Machine::AndNot {
                    val: Box::new(Branch::Running(ma)),
                    not: Box::new(Branch::Running(mb)),
                    fed: 0,
                }.model() == MachineM::AndNot {
                    val: Box::new(Branch::Running(ma).model()),
                    not: Box::new(Branch::Running(mb).model()),
                    fed: 0,
                });
            }
            let r = Machine::AndNot {
                val: Box::new(Branch::Running(ma)),
                not: Box::new(Branch::Running(mb)),
                fed: 0,
            };
            proof { assert(r.model() == init_m(g.model())); }
            r
        },
        Grammar::Tagged(_, p) => {
            let r = Machine::Wrap { inner: Box::new(init(p)) };
            proof { assert(r.model() == init_m(g.model())); }
            r
        },
        Grammar::MinLength(_, p) => {
            let r = Machine::Wrap { inner: Box::new(init(p)) };
            proof { assert(r.model() == init_m(g.model())); }
            r
        },
        _ => {
            let r = Machine::Ready;
            proof { assert(r.model() == init_m(g.model())); }
            r
        },
    }
}

/// Create one fresh running branch per alternation branch grammar.
fn init_branch_vec(gs: &Vec<Grammar>) -> (brs: Vec<Branch>)
    ensures
        brs@.len() == gs@.len(),
        forall|j: int| 0 <= j < gs@.len() ==> (#[trigger] brs@[j]).model()
            == BranchM::Running(Box::new(init_m(gs@[j].model()))),
    decreases gs@, 1nat, 0nat, 0nat,
{
    let mut brs: Vec<Branch> = Vec::new();
    let n: usize = gs.len();
    let mut i: usize = 0;
    while i < n
        invariant
            n == gs@.len(),
            i <= n,
            brs@.len() == i,
            forall|j: int| 0 <= j < i ==> (#[trigger] brs@[j]).model()
                == BranchM::Running(Box::new(init_m(gs@[j].model()))),
        decreases n - i,
    {
        let b = Branch::Running(init(&gs[i]));
        brs.push(b);
        i = i + 1;
    }
    brs
}

/// `init_branches` yields a running fresh machine at every index.
pub proof fn lemma_init_branches_index(gs: Seq<GrammarM>)
    ensures
        init_branches(gs).len() == gs.len(),
        forall|i: int| 0 <= i < gs.len() ==> #[trigger] init_branches(gs)[i]
            == BranchM::Running(Box::new(init_m(gs[i]))),
    decreases gs,
{
    if gs.len() > 0 {
        lemma_init_branches_index(gs.drop_last());
        assert forall|i: int| 0 <= i < gs.len() implies #[trigger] init_branches(gs)[i]
            == BranchM::Running(Box::new(init_m(gs[i]))) by {
            if i < gs.len() - 1 {
                assert(gs.drop_last()[i] == gs[i]);
                assert(init_branches(gs)[i] == init_branches(gs.drop_last())[i]);
            }
        }
    }
}

} // verus!

verus! {

/// Outcome of scanning an alternation's branches for a decision.
enum Resolve {
    Pending,
    Winner(usize),
    AllFailed,
}

/// Scan the branches for the first that has not failed.
fn resolve(brs: &Vec<Branch>) -> (r: Resolve)
    ensures
        r matches Resolve::Pending ==> resolve_scan(branches_model(brs@), 0)
            == ResolveM::Pending,
        r matches Resolve::Winner(i) ==> resolve_scan(branches_model(brs@), 0)
            == ResolveM::Winner(i as nat) && i < brs@.len(),
        r matches Resolve::AllFailed ==> resolve_scan(branches_model(brs@), 0)
            == ResolveM::AllFailed,
{
    let ghost bm = branches_model(brs@);
    proof {
        lemma_branches_model(brs@);
    }
    let n: usize = brs.len();
    let mut i: usize = 0;
    while i < n
        invariant
            n == brs@.len(),
            i <= n,
            bm == branches_model(brs@),
            bm.len() == n,
            forall|j: int| 0 <= j < brs@.len() ==> bm[j] == brs@[j].model(),
            resolve_scan(bm, i as nat) == resolve_scan(bm, 0),
        decreases n - i,
    {
        match &brs[i] {
            Branch::DoneErr(_) => {
                i = i + 1;
            },
            Branch::DoneOk(_, _) => {
                return Resolve::Winner(i);
            },
            Branch::Running(_) => {
                return Resolve::Pending;
            },
        }
    }
    Resolve::AllFailed
}

/// Apply the bounded-length postcondition to a broken result.
fn min_len_check_exec(n: usize, r: SmResult<Value, ParseError>) -> (r2: SmResult<
    Value,
    ParseError,
>)
    ensures
        res_model(r2) == crate::semantics::min_len_check(n as nat, res_model(r)),
{
    match r {
        Result::Ok((v, k)) => {
            let too_short: bool = match &v {
                Value::List(l) => {
                    proof { lemma_vals_model(l@); }
                    l.len() < n
                },
                Value::Interlaced(il) => {
                    proof { lemma_vals_model(il.0@); }
                    il.0.len() < n
                },
                _ => false,
            };
            if too_short {
                let actual: usize = match &v {
                    Value::List(l) => l.len(),
                    Value::Interlaced(il) => il.0.len(),
                    _ => 0,
                };
                Result::Err(ParseError::Length(LengthError::InvalidLength(n, actual)))
            } else {
                Result::Ok((v, k))
            }
        },
        Result::Err(e) => Result::Err(ParseError::Length(LengthError::Inner(Box::new(e)))),
    }
}

/// Drive one branch of an alternation or lookahead with a token.
fn branch_step_exec(g: &Grammar, b: Branch, t: &Token, Ghost(fed): Ghost<nat>) -> (nb: Branch)
    requires
        branch_wf(g.model(), b.model(), fed),
        fed < usize::MAX,
    ensures
        nb.model() == branch_step(g.model(), b.model(), t.model()),
    decreases *g, 2nat, 0nat, 0nat,
{
    match b {
        Branch::Running(m) => {
            let step = drive(g, m, t);
            match step {
                Step::Continue(m2) => Branch::Running(m2),
                Step::Break(Result::Ok((v, k))) => Branch::DoneOk(v, k),
                Step::Break(Result::Err(e)) => Branch::DoneErr(e),
            }
        },
        Branch::DoneOk(v, k) => {
            proof {
                assert(k <= fed);
            }
            Branch::DoneOk(v, k + 1)
        },
        Branch::DoneErr(e) => Branch::DoneErr(e),
    }
}

/// Drive every branch with the same token: the alternation's logical
/// fan-out within one step.
fn alt_drive_vec(gs: &Vec<Grammar>, brs: Vec<Branch>, t: &Token, Ghost(fed): Ghost<nat>) -> (out: Vec<Branch>)
    requires
        brs@.len() == gs@.len(),
        branches_wf(grams_model(gs@), branches_model(brs@), fed),
        fed < usize::MAX,
    ensures
        branches_model(out@) == alt_step_all(grams_model(gs@), branches_model(brs@), t.model(), 0),
    decreases gs@, 2nat, 0nat, 0nat,
{
    let ghost gsm = grams_model(gs@);
    let ghost orig = brs@;
    let ghost bm = branches_model(brs@);
    proof {
        lemma_grams_model(gs@);
        lemma_branches_model(brs@);
        lemma_branches_wf_elim(gsm, bm, fed);
        crate::laws::lemma_alt_step_all_index(gsm, bm, t.model(), 0);
    }
    let mut rest = brs;
    let mut out: Vec<Branch> = Vec::new();
    let n: usize = gs.len();
    let mut i: usize = 0;
    while i < n
        invariant
            n == gs@.len(),
            i <= n,
            out@.len() == i,
            rest@ == orig.subrange(i as int, n as int),
            orig.len() == n,
            gsm == grams_model(gs@),
            gsm.len() == n,
            forall|j: int| 0 <= j < n ==> gsm[j] == gs@[j].model(),
            bm == branches_model(orig),
            bm.len() == n,
            forall|j: int| 0 <= j < n ==> bm[j] == (#[trigger] orig[j]).model(),
            forall|j: int| 0 <= j < i ==> (#[trigger] out@[j]).model()
                == branch_step(gsm[j], bm[j], t.model()),
            forall|j: int| 0 <= j < n ==> #[trigger] branch_wf(gsm[j], bm[j], fed),
            fed < usize::MAX,
        decreases n - i,
    {
        let ghost pre = rest@;
        let b = rest.remove(0);
        proof {
            assert(b == pre[0]);
            assert(pre[0] == orig.subrange(i as int, n as int)[0]);
            assert(b == orig[i as int]);
            assert(rest@ == pre.remove(0));
            assert(rest@ =~= orig.subrange(i + 1, n as int));
            assert(bm[i as int] == orig[i as int].model());
            assert(b.model() == bm[i as int]);
            assert(gsm[i as int] == gs@[i as int].model());
            assert(branch_wf(gsm[i as int], bm[i as int], fed));
            assert(branch_wf(gs@[i as int].model(), b.model(), fed));
        }
        let nb = branch_step_exec(&gs[i], b, t, Ghost(fed));
        out.push(nb);
        i = i + 1;
    }
    proof {
        lemma_branches_model(out@);
        assert(branches_model(out@) =~= alt_step_all(gsm, bm, t.model(), 0));
    }
    out
}

/// Replay the last `rl` buffered tokens into the sequence's second part.
fn seq_replay(
    g: &Grammar,
    a_val: Value,
    buf: Vec<Token>,
    b: Machine,
    fed_b: usize,
    rl: usize,
) -> (r: Step)
    requires
        g.model() matches GrammarM::Sequence(ga, gb) && wf(*gb, b.model()),
        fed_of(b.model()) == fed_b,
        rl <= buf@.len() ==> fed_b + rl <= buf@.len(),
    ensures
        r.model() == seq_replay_m(
            g.model(),
            a_val.model(),
            toks_model(buf@),
            b.model(),
            fed_b as nat,
            rl as nat,
        ),
    decreases *g, 0nat, rl, 0nat,
{
    match g {
        Grammar::Sequence(_, gb) => {
            proof {
                lemma_toks_model(buf@);
            }
            if rl > buf.len() {
                Step::Break(
                    Result::Err(ParseError::Sequence(TupleError::InvalidLength(rl, buf.len()))),
                )
            } else if rl == 0 {
                let fed: usize = buf.len();
                Step::Continue(Machine::SeqB { a_val: Box::new(a_val), fed, b: Box::new(b) })
            } else {
                let idx: usize = buf.len() - rl;
                let ghost bm = b.model();
                let step = drive(gb, b, &buf[idx]);
                proof {
                    lemma_drive_ok(gb.model(), bm, buf@[idx as int].model());
                }
                match step {
                    Step::Continue(b2) => seq_replay(g, a_val, buf, b2, fed_b + 1, rl - 1),
                    Step::Break(Result::Ok((vb, inc))) => {
                        proof {
                            assert(inc <= fed_b + 1);
                        }
                        Step::Break(
                            Result::Ok(
                                (Value::Pair(Box::new(a_val), Box::new(vb)), inc + (rl - 1)),
                            ),
                        )
                    },
                    Step::Break(Result::Err(e)) => Step::Break(
                        Result::Err(
                            ParseError::Sequence(
                                TupleError::Second(Box::new(a_val), Box::new(e)),
                            ),
                        ),
                    ),
                }
            }
        },
        _ => {
            proof {
                assert(false);
            }
            unreached()
        },
    }
}

/// Replay the last `rl` history tokens into fresh repetition attempts.
fn rep_stepup(
    g: &Grammar,
    items: Vec<Value>,
    cur: Machine,
    fed_c: usize,
    hist: Vec<Token>,
    checkpoint: usize,
    rl: usize,
) -> (r: Step)
    requires
        g.model() matches GrammarM::Repetition(p) && wf(*p, cur.model()),
        fed_of(cur.model()) == fed_c,
        fed_c + rl <= hist@.len(),
        checkpoint <= hist@.len(),
    ensures
        r.model() == rep_stepup_m(
            g.model(),
            vals_model(items@),
            cur.model(),
            fed_c as nat,
            toks_model(hist@),
            checkpoint as nat,
            rl as nat,
        ),
    decreases *g, 0nat, rl + fed_c, rl,
{
    match g {
        Grammar::Repetition(p) => {
            proof {
                lemma_toks_model(hist@);
            }
            if rl == 0 {
                Step::Continue(
                    Machine::Rep { items, cur: Box::new(cur), cur_fed: fed_c, hist },
                )
            } else {
                let idx: usize = hist.len() - rl;
                let ghost cm = cur.model();
                let step = drive(p, cur, &hist[idx]);
                proof {
                    lemma_drive_ok(p.model(), cm, hist@[idx as int].model());
                }
                match step {
                    Step::Continue(c) => rep_stepup(
                        g,
                        items,
                        c,
                        fed_c + 1,
                        hist,
                        checkpoint,
                        rl - 1,
                    ),
                    Step::Break(Result::Err(_)) => Step::Break(
                        Result::Ok((Value::List(items), checkpoint)),
                    ),
                    Step::Break(Result::Ok((v, bt))) => {
                        if bt > fed_c {
                            Step::Break(Result::Ok((Value::List(items), checkpoint)))
                        } else {
                            let mut items2 = items;
                            proof {
                                lemma_vals_model_push(items2@, v);
                            }
                            items2.push(v);
                            let c0 = init(p);
                            proof {
                                lemma_init_wf(p.model());
                            }
                            let nrl: usize = (rl - 1) + bt;
                            rep_stepup(g, items2, c0, 0, hist, nrl, nrl)
                        }
                    },
                }
            }
        },
        _ => {
            proof {
                assert(false);
            }
            unreached()
        },
    }
}

/// Replay the last `rl` history tokens into the interleave's alternating
/// attempts.
fn inter_stepup(
    g: &Grammar,
    items: Vec<Value>,
    seps: Vec<Value>,
    parked: Option<Box<Value>>,
    on_item: bool,
    cur: Machine,
    fed_c: usize,
    hist: Vec<Token>,
    checkpoint: usize,
    rl: usize,
) -> (r: Step)
    requires
        g.model() matches GrammarM::Interleave(gi, gs) && wf(
            if on_item { *gi } else { *gs },
            cur.model(),
        ),
        fed_of(cur.model()) == fed_c,
        fed_c + rl <= checkpoint,
        checkpoint <= hist@.len(),
        on_item || parked is None,
    ensures
        r.model() == inter_stepup_m(
            g.model(),
            vals_model(items@),
            vals_model(seps@),
            match parked {
                Option::Some(v) => Option::Some(Box::new(v.model())),
                Option::None => Option::None,
            },
            on_item,
            cur.model(),
            fed_c as nat,
            toks_model(hist@),
            checkpoint as nat,
            rl as nat,
        ),
    decreases *g, 0nat, 2 * (rl + fed_c) + (if on_item { 0int } else { 1int }), rl,
{
    match g {
        Grammar::Interleave(gi, gs) => {
            proof {
                lemma_toks_model(hist@);
            }
            if rl == 0 {
                Step::Continue(
                    Machine::Inter {
                        items,
                        seps,
                        parked,
                        on_item,
                        cur: Box::new(cur),
                        cur_fed: fed_c,
                        checkpoint,
                        hist,
                    },
                )
            } else {
                let idx: usize = hist.len() - rl;
                let ghost cm = cur.model();
                let side: &Box<Grammar> = if on_item { gi } else { gs };
                let step = drive(side, cur, &hist[idx]);
                proof {
                    lemma_drive_ok(side.model(), cm, hist@[idx as int].model());
                }
                match step {
                    Step::Continue(c) => inter_stepup(
                        g,
                        items,
                        seps,
                        parked,
                        on_item,
                        c,
                        fed_c + 1,
                        hist,
                        checkpoint,
                        rl - 1,
                    ),
                    Step::Break(Result::Err(_)) => Step::Break(
                        Result::Ok(
                            (Value::Interlaced(crate::value::Interlace(items, seps)), checkpoint),
                        ),
                    ),
                    Step::Break(Result::Ok((v, bt))) => {
                        if (on_item && bt > fed_c) || (bt > fed_c && bt - fed_c > 1) {
                            Step::Break(
                                Result::Ok(
                                    (
                                        Value::Interlaced(crate::value::Interlace(items, seps)),
                                        checkpoint,
                                    ),
                                ),
                            )
                        } else if on_item {
                            let mut items2 = items;
                            proof {
                                lemma_vals_model_push(items2@, v);
                            }
                            items2.push(v);
                            let mut seps2 = seps;
                            match parked {
                                Option::Some(p0) => {
                                    proof {
                                        lemma_vals_model_push(seps2@, *p0);
                                    }
                                    seps2.push(*p0);
                                },
                                Option::None => {},
                            }
                            let c0 = init(gs);
                            proof {
                                lemma_init_wf(gs.model());
                            }
                            let nrl: usize = (rl - 1) + bt;
                            inter_stepup(
                                g,
                                items2,
                                seps2,
                                Option::None,
                                false,
                                c0,
                                0,
                                hist,
                                nrl,
                                nrl,
                            )
                        } else {
                            let c0 = init(gi);
                            proof {
                                lemma_init_wf(gi.model());
                            }
                            let nrl: usize = (rl - 1) + bt;
                            inter_stepup(
                                g,
                                items,
                                seps,
                                Option::Some(Box::new(v)),
                                true,
                                c0,
                                0,
                                hist,
                                checkpoint,
                                nrl,
                            )
                        }
                    },
                }
            }
        },
        _ => {
            proof {
                assert(false);
            }
            unreached()
        },
    }
}

/// Feed one token into the recognizer: consume the current state and
/// either continue with the successor state or break with a final result.
/// The result is exactly the transition function of the model semantics.
pub fn drive(g: &Grammar, m: Machine, t: &Token) -> (r: Step)
    requires
        wf(g.model(), m.model()),
        fed_of(m.model()) < usize::MAX,
    ensures
        r.model() == drive_m(g.model(), m.model(), t.model()),
    decreases *g, 1nat, 0nat, 0nat,
{
    let ghost mm = m.model();
    match g {
        Grammar::Ident(im) => Step::Break(im.drive(t)),
        Grammar::FixedIdent(fm) => Step::Break(fm.drive(t)),
        Grammar::Punct(pm) => Step::Break(pm.drive(t)),
        Grammar::FixedPunct(fm) => Step::Break(fm.drive(t)),
        Grammar::Lit(lm) => Step::Break(lm.drive(t)),
        Grammar::End(em) => Step::Break(em.drive(t)),
        Grammar::Group(dreq, inner) => match t {
            Token::Group(d, toks) => {
                let mismatch: bool = match dreq {
                    Option::Some(dr) => *dr != *d,
                    Option::None => false,
                };
                if mismatch {
                    let dr: Delimiter = match dreq {
                        Option::Some(dr) => *dr,
                        Option::None => unreached(),
                    };
                    Step::Break(
                        Result::Err(ParseError::Group(GroupError::InvalidDelimiter(dr, *d))),
                    )
                } else {
                    match crate::parse_terminal(inner, toks) {
                        Result::Ok(v) => Step::Break(
                            Result::Ok((Value::Group(*d, Box::new(v)), 0)),
                        ),
                        Result::Err(te) => Step::Break(
                            Result::Err(ParseError::Group(GroupError::Nested(Box::new(te)))),
                        ),
                    }
                }
            },
            _ => Step::Break(
                Result::Err(ParseError::Group(GroupError::InvalidToken(t.duplicate()))),
            ),
        },
        Grammar::Sequence(ga, gb) => match m {
            Machine::SeqA { buf, a } => {
                let ghost am = a.model();
                let step = drive(ga, *a, t);
                proof {
                    lemma_drive_ok(ga.model(), am, t.model());
                    lemma_toks_model_push(buf@, *t);
                }
                let mut buf2 = buf;
                buf2.push(t.duplicate());
                proof {
                    lemma_toks_model(buf2@);
                    lemma_toks_model(buf@);
                    assert(toks_model(buf2@) =~= toks_model(buf@).push(t.model()));
                }
                match step {
                    Step::Continue(a2) => Step::Continue(
                        Machine::SeqA { buf: buf2, a: Box::new(a2) },
                    ),
                    Step::Break(Result::Err(e)) => Step::Break(
                        Result::Err(ParseError::Sequence(TupleError::First(Box::new(e)))),
                    ),
                    Step::Break(Result::Ok((va, k))) => {
                        let b0 = init(gb);
                        proof {
                            lemma_init_wf(gb.model());
                        }
                        seq_replay(g, va, buf2, b0, 0, k)
                    },
                }
            },
            Machine::SeqB { a_val, fed, b } => {
                let ghost bm = b.model();
                let step = drive(gb, *b, t);
                proof {
                    lemma_drive_ok(gb.model(), bm, t.model());
                }
                match step {
                    Step::Continue(b2) => Step::Continue(
                        Machine::SeqB { a_val, fed: fed + 1, b: Box::new(b2) },
                    ),
                    Step::Break(Result::Ok((vb, j))) => Step::Break(
                        Result::Ok((Value::Pair(a_val, Box::new(vb)), j)),
                    ),
                    Step::Break(Result::Err(e)) => Step::Break(
                        Result::Err(ParseError::Sequence(TupleError::Second(a_val, Box::new(e)))),
                    ),
                }
            },
            _ => {
                proof {
                    assert(false);
                }
                unreached()
            },
        },
        Grammar::Alternation(gs) => match m {
            Machine::Alt { fed, branches } => {
                let ghost gsm = grams_model(gs@);
                let ghost bm = branches_model(branches@);
                proof {
                    lemma_grams_model(gs@);
                    lemma_branches_model(branches@);
                    lemma_branches_wf_elim(gsm, bm, fed as nat);
                }
                let brs2 = alt_drive_vec(gs, branches, t, Ghost(fed as nat));
                proof {
                    crate::laws::lemma_resolve_scan(branches_model(brs2@), 0);
                    lemma_branches_model(brs2@);
                    crate::laws::lemma_alt_step_all_ok(gsm, bm, t.model(), 0, fed as nat);
                }
                match resolve(&brs2) {
                    Resolve::Pending => Step::Continue(
                        Machine::Alt { fed: fed + 1, branches: brs2 },
                    ),
                    Resolve::Winner(i) => {
                        let mut brs3 = brs2;
                        let b = brs3.remove(i);
                        match b {
                            Branch::DoneOk(v, k) => Step::Break(
                                Result::Ok((Value::Branch(i, Box::new(v)), k)),
                            ),
                            _ => {
                                proof {
                                    assert(false);
                                }
                                unreached()
                            },
                        }
                    },
                    Resolve::AllFailed => {
                        let errs = collect_errs(brs2);
                        Step::Break(Result::Err(ParseError::Alternation(errs)))
                    },
                }
            },
            _ => {
                proof {
                    assert(false);
                }
                unreached()
            },
        },
        Grammar::Repetition(p) => match m {
            Machine::Rep { items, cur, cur_fed, hist } => {
                let ghost cm = cur.model();
                let step = drive(p, *cur, t);
                proof {
                    lemma_drive_ok(p.model(), cm, t.model());
                    lemma_toks_model_push(hist@, *t);
                }
                let mut hist2 = hist;
                hist2.push(t.duplicate());
                proof {
                    lemma_toks_model(hist2@);
                    lemma_toks_model(hist@);
                    assert(toks_model(hist2@) =~= toks_model(hist@).push(t.model()));
                }
                match step {
                    Step::Continue(c) => Step::Continue(
                        Machine::Rep {
                            items,
                            cur: Box::new(c),
                            cur_fed: cur_fed + 1,
                            hist: hist2,
                        },
                    ),
                    Step::Break(Result::Err(_)) => Step::Break(
                        Result::Ok((Value::List(items), cur_fed + 1)),
                    ),
                    Step::Break(Result::Ok((v, bt))) => {
                        if bt > cur_fed {
                            Step::Break(Result::Ok((Value::List(items), cur_fed + 1)))
                        } else {
                            let mut items2 = items;
                            proof {
                                lemma_vals_model_push(items2@, v);
                            }
                            items2.push(v);
                            let c0 = init(p);
                            proof {
                                lemma_init_wf(p.model());
                            }
                            rep_stepup(g, items2, c0, 0, hist2, bt, bt)
                        }
                    },
                }
            },
            _ => {
                proof {
                    assert(false);
                }
                unreached()
            },
        },
        Grammar::Interleave(gi, gs) => match m {
            Machine::Inter { items, seps, parked, on_item, cur, cur_fed, checkpoint, hist } => {
                let ghost cm = cur.model();
                let side: &Box<Grammar> = if on_item { gi } else { gs };
                let step = drive(side, *cur, t);
                proof {
                    lemma_drive_ok(side.model(), cm, t.model());
                    lemma_toks_model_push(hist@, *t);
                }
                let mut hist2 = hist;
                hist2.push(t.duplicate());
                proof {
                    lemma_toks_model(hist2@);
                    lemma_toks_model(hist@);
                    assert(toks_model(hist2@) =~= toks_model(hist@).push(t.model()));
                }
                match step {
                    Step::Continue(c) => Step::Continue(
                        Machine::Inter {
                            items,
                            seps,
                            parked,
                            on_item,
                            cur: Box::new(c),
                            cur_fed: cur_fed + 1,
                            checkpoint: checkpoint + 1,
                            hist: hist2,
                        },
                    ),
                    Step::Break(Result::Err(_)) => Step::Break(
                        Result::Ok(
                            (
                                Value::Interlaced(crate::value::Interlace(items, seps)),
                                checkpoint + 1,
                            ),
                        ),
                    ),
                    Step::Break(Result::Ok((v, bt))) => {
                        if (on_item && bt > cur_fed) || (bt > cur_fed && bt - cur_fed > 1) {
                            Step::Break(
                                Result::Ok(
                                    (
                                        Value::Interlaced(crate::value::Interlace(items, seps)),
                                        checkpoint + 1,
                                    ),
                                ),
                            )
                        } else if on_item {
                            let mut items2 = items;
                            proof {
                                lemma_vals_model_push(items2@, v);
                            }
                            items2.push(v);
                            let mut seps2 = seps;
                            match parked {
                                Option::Some(p0) => {
                                    proof {
                                        lemma_vals_model_push(seps2@, *p0);
                                    }
                                    seps2.push(*p0);
                                },
                                Option::None => {},
                            }
                            let c0 = init(gs);
                            proof {
                                lemma_init_wf(gs.model());
                            }
                            inter_stepup(
                                g,
                                items2,
                                seps2,
                                Option::None,
                                false,
                                c0,
                                0,
                                hist2,
                                bt,
                                bt,
                            )
                        } else {
                            let c0 = init(gi);
                            proof {
                                lemma_init_wf(gi.model());
                            }
                            inter_stepup(
                                g,
                                items,
                                seps,
                                Option::Some(Box::new(v)),
                                true,
                                c0,
                                0,
                                hist2,
                                checkpoint + 1,
                                bt,
                            )
                        }
                    },
                }
            },
            _ => {
                proof {
                    assert(false);
                }
                unreached()
            },
        },
        Grammar::Optional(p) => match m {
            Machine::Opt { inner, fed } => {
                let ghost im = inner.model();
                let step = drive(p, *inner, t);
                proof {
                    lemma_drive_ok(p.model(), im, t.model());
                }
                match step {
                    Step::Continue(c) => Step::Continue(
                        Machine::Opt { inner: Box::new(c), fed: fed + 1 },
                    ),
                    Step::Break(Result::Ok((v, k))) => Step::Break(
                        Result::Ok((Value::Maybe(Option::Some(Box::new(v))), k)),
                    ),
                    Step::Break(Result::Err(_)) => Step::Break(
                        Result::Ok((Value::Maybe(Option::None), fed + 1)),
                    ),
                }
            },
            _ => {
                proof {
                    assert(false);
                }
                unreached()
            },
        },
        Grammar::AndNot(ga, gb) => match m {
            Machine::AndNot { val, not, fed } => {
                let v2 = branch_step_exec(ga, *val, t, Ghost(fed as nat));
                let n2 = branch_step_exec(gb, *not, t, Ghost(fed as nat));
                match v2 {
                    Branch::Running(m2) => Step::Continue(
                        Machine::AndNot {
                            val: Box::new(Branch::Running(m2)),
                            not: Box::new(n2),
                            fed: fed + 1,
                        },
                    ),
                    Branch::DoneOk(v, vk) => match n2 {
                        Branch::Running(nm) => Step::Continue(
                            Machine::AndNot {
                                val: Box::new(Branch::DoneOk(v, vk)),
                                not: Box::new(Branch::Running(nm)),
                                fed: fed + 1,
                            },
                        ),
                        Branch::DoneErr(_) => Step::Break(Result::Ok((v, vk))),
                        Branch::DoneOk(n, nk) => Step::Break(
                            Result::Err(
                                ParseError::AndNot(
                                    AndNotError::FailedCondition(
                                        Box::new(v),
                                        vk,
                                        Box::new(n),
                                        nk,
                                    ),
                                ),
                            ),
                        ),
                    },
                    Branch::DoneErr(e) => match n2 {
                        Branch::Running(nm) => Step::Continue(
                            Machine::AndNot {
                                val: Box::new(Branch::DoneErr(e)),
                                not: Box::new(Branch::Running(nm)),
                                fed: fed + 1,
                            },
                        ),
                        Branch::DoneOk(n, nk) => Step::Break(
                            Result::Err(ParseError::AndNot(AndNotError::ValidFailed(Box::new(e)))),
                        ),
                        Branch::DoneErr(_) => Step::Break(
                            Result::Err(ParseError::AndNot(AndNotError::ValidFailed(Box::new(e)))),
                        ),
                    },
                }
            },
            _ => {
                proof {
                    assert(false);
                }
                unreached()
            },
        },
        Grammar::Tagged(tag, p) => match m {
            Machine::Wrap { inner } => {
                let ghost im = inner.model();
                let step = drive(p, *inner, t);
                match step {
                    Step::Continue(c) => Step::Continue(Machine::Wrap { inner: Box::new(c) }),
                    Step::Break(Result::Ok((v, k))) => Step::Break(
                        Result::Ok((Value::Tagged(*tag, Box::new(v)), k)),
                    ),
                    Step::Break(Result::Err(e)) => Step::Break(Result::Err(e)),
                }
            },
            _ => {
                proof {
                    assert(false);
                }
                unreached()
            },
        },
        Grammar::MinLength(n, p) => match m {
            Machine::Wrap { inner } => {
                let ghost im = inner.model();
                let step = drive(p, *inner, t);
                match step {
                    Step::Continue(c) => Step::Continue(Machine::Wrap { inner: Box::new(c) }),
                    Step::Break(r0) => Step::Break(min_len_check_exec(*n, r0)),
                }
            },
            _ => {
                proof {
                    assert(false);
                }
                unreached()
            },
        },
    }
}

} // verus!

verus! {

/// Terminate one branch: a running branch terminates its machine; a
/// parked result stands, re-wrapped as a settled branch.
fn branch_term_exec(g: &Grammar, b: Branch) -> (nb: Branch)
    requires
        b.model() matches BranchM::Running(mm) ==> wf(g.model(), *mm),
    ensures
        nb.model() == (match branch_term(g.model(), b.model()) {
            ResM::Success(v, k) => BranchM::DoneOk(Box::new(v), k),
            ResM::Failure(e) => BranchM::DoneErr(Box::new(e)),
        }),
    decreases *g, 4nat, 0nat, 0nat,
{
    match b {
        Branch::Running(m) => {
            match terminate(g, m) {
                Result::Ok((v, k)) => Branch::DoneOk(v, k),
                Result::Err(e) => Branch::DoneErr(e),
            }
        },
        Branch::DoneOk(v, k) => Branch::DoneOk(v, k),
        Branch::DoneErr(e) => Branch::DoneErr(e),
    }
}

/// Terminate every branch of an alternation.
fn alt_term_vec(gs: &Vec<Grammar>, brs: Vec<Branch>, Ghost(fed): Ghost<nat>) -> (out: Vec<
    Branch,
>)
    requires
        brs@.len() == gs@.len(),
        branches_wf(grams_model(gs@), branches_model(brs@), fed),
    ensures
        branches_model(out@) == alt_term_all(grams_model(gs@), branches_model(brs@), 0),
    decreases gs@, 2nat, 1nat, 0nat,
{
    let ghost gsm = grams_model(gs@);
    let ghost orig = brs@;
    let ghost bm = branches_model(brs@);
    proof {
        lemma_grams_model(gs@);
        lemma_branches_model(brs@);
        lemma_branches_wf_elim(gsm, bm, fed);
        crate::laws::lemma_alt_term_all_index(gsm, bm, 0);
    }
    let mut rest = brs;
    let mut out: Vec<Branch> = Vec::new();
    let n: usize = gs.len();
    let mut i: usize = 0;
    while i < n
        invariant
            n == gs@.len(),
            i <= n,
            out@.len() == i,
            rest@ == orig.subrange(i as int, n as int),
            orig.len() == n,
            gsm == grams_model(gs@),
            gsm.len() == n,
            forall|j: int| 0 <= j < n ==> gsm[j] == gs@[j].model(),
            bm == branches_model(orig),
            bm.len() == n,
            forall|j: int| 0 <= j < n ==> bm[j] == (#[trigger] orig[j]).model(),
            forall|j: int| 0 <= j < i ==> (#[trigger] out@[j]).model() == (
            match branch_term(gsm[j], bm[j]) {
                ResM::Success(v, k) => BranchM::DoneOk(Box::new(v), k),
                ResM::Failure(e) => BranchM::DoneErr(Box::new(e)),
            }),
            forall|j: int| 0 <= j < n ==> #[trigger] branch_wf(gsm[j], bm[j], fed),
        decreases n - i,
    {
        let ghost pre = rest@;
        let b = rest.remove(0);
        proof {
            assert(b == pre[0]);
            assert(pre[0] == orig.subrange(i as int, n as int)[0]);
            assert(b == orig[i as int]);
            assert(rest@ == pre.remove(0));
            assert(rest@ =~= orig.subrange(i + 1, n as int));
            assert(bm[i as int] == orig[i as int].model());
            assert(b.model() == bm[i as int]);
            assert(gsm[i as int] == gs@[i as int].model());
            assert(branch_wf(gsm[i as int], bm[i as int], fed));
            assert(branch_wf(gs@[i as int].model(), b.model(), fed));
        }
        let nb = branch_term_exec(&gs[i], b);
        out.push(nb);
        i = i + 1;
    }
    proof {
        lemma_branches_model(out@);
        assert(branches_model(out@) =~= alt_term_all(gsm, bm, 0));
    }
    out
}

/// Collect the error of every failed branch, in declaration order: the
/// alternation's linear error accumulation.
fn collect_errs(brs: Vec<Branch>) -> (errs: Vec<ParseError>)
    requires
        forall|j: int| 0 <= j < brs@.len() ==> (#[trigger] branches_model(brs@)[j]) matches BranchM::DoneErr(_),
    ensures
        errs_model(errs@) == branch_errs(branches_model(brs@)),
{
    let ghost orig = brs@;
    let ghost bm = branches_model(brs@);
    proof {
        lemma_branches_model(brs@);
        crate::laws::lemma_branch_errs_index(bm);
    }
    let mut rest = brs;
    let mut errs: Vec<ParseError> = Vec::new();
    let n: usize = rest.len();
    let mut i: usize = 0;
    while i < n
        invariant
            n == orig.len(),
            i <= n,
            errs@.len() == i,
            rest@ == orig.subrange(i as int, n as int),
            bm == branches_model(orig),
            bm.len() == n,
            forall|j: int| 0 <= j < n ==> bm[j] == (#[trigger] orig[j]).model(),
            forall|j: int| 0 <= j < n ==> (#[trigger] bm[j]) matches BranchM::DoneErr(_),
            branch_errs(bm).len() == n,
            forall|j: int| 0 <= j < i ==> (#[trigger] errs@[j]).model() == branch_errs(bm)[j],
        decreases n - i,
    {
        let ghost pre = rest@;
        let b = rest.remove(0);
        proof {
            assert(b == pre[0]);
            assert(pre[0] == orig.subrange(i as int, n as int)[0]);
            assert(b == orig[i as int]);
            assert(rest@ == pre.remove(0));
            assert(rest@ =~= orig.subrange(i + 1, n as int));
            assert(bm[i as int] matches BranchM::DoneErr(_));
        }
        match b {
            Branch::DoneErr(e) => {
                proof {
                    crate::laws::lemma_branch_errs_index(bm);
                    assert(bm[i as int] == orig[i as int].model());
                    assert(b.model() == bm[i as int]);
                    assert(branch_errs(bm)[i as int] == e.model());
                }
                errs.push(e);
            },
            _ => {
                proof {
                    assert(false);
                }
                unreached()
            },
        }
        i = i + 1;
    }
    proof {
        crate::error::lemma_errs_model(errs@);
        assert(errs_model(errs@) =~= branch_errs(bm));
    }
    errs
}

/// The repetition's termination rounds: terminate the current attempt,
/// commit a consuming completion, replay its backtracked tokens, and try
/// again; the budget bounds the committed rounds.
fn rep_rounds(
    g: &Grammar,
    items: Vec<Value>,
    cur: Machine,
    cur_fed: usize,
    hist: Vec<Token>,
    budget: usize,
) -> (r: SmResult<Value, ParseError>)
    requires
        g.model() matches GrammarM::Repetition(p) && wf(*p, cur.model()),
        fed_of(cur.model()) == cur_fed,
        cur_fed <= hist@.len(),
    ensures
        res_model(r) == rep_term_rounds(
            g.model(),
            vals_model(items@),
            cur.model(),
            cur_fed as nat,
            toks_model(hist@),
            budget as nat,
        ),
    decreases *g, 2nat, 0nat, budget,
{
    match g {
        Grammar::Repetition(p) => {
            proof {
                lemma_toks_model(hist@);
            }
            let ghost cm = cur.model();
            let rt = terminate(p, cur);
            match rt {
                Result::Err(_) => Result::Ok((Value::List(items), cur_fed)),
                Result::Ok((v, bt)) => {
                    if bt >= cur_fed || budget == 0 {
                        Result::Ok((Value::List(items), cur_fed))
                    } else {
                        let mut items2 = items;
                        proof {
                            lemma_vals_model_push(items2@, v);
                        }
                        items2.push(v);
                        let c0 = init(p);
                        proof {
                            lemma_init_wf(p.model());
                        }
                        let ghost i2m = vals_model(items2@);
                        proof {
                            lemma_rep_stepup_ok(
                                g.model(),
                                i2m,
                                init_m(p.model()),
                                0,
                                toks_model(hist@),
                                bt as nat,
                                bt as nat,
                            );
                        }
                        let stepped = rep_stepup(g, items2, c0, 0, hist, bt, bt);
                        match stepped {
                            Step::Break(r0) => r0,
                            Step::Continue(m2) => match m2 {
                                Machine::Rep { items: i3, cur: c3, cur_fed: f3, hist: h3 } => {
                                    proof {
                                        lemma_toks_model(h3@);
                                    }
                                    rep_rounds(g, i3, *c3, f3, h3, budget - 1)
                                },
                                _ => {
                                    proof {
                                        assert(false);
                                    }
                                    unreached()
                                },
                            },
                        }
                    }
                },
            }
        },
        _ => {
            proof {
                assert(false);
            }
            unreached()
        },
    }
}

/// The interleave's termination rounds, alternating between item and
/// separator attempts in the same way.
fn inter_rounds(
    g: &Grammar,
    items: Vec<Value>,
    seps: Vec<Value>,
    parked: Option<Box<Value>>,
    on_item: bool,
    cur: Machine,
    cur_fed: usize,
    checkpoint: usize,
    hist: Vec<Token>,
    budget: usize,
) -> (r: SmResult<Value, ParseError>)
    requires
        g.model() matches GrammarM::Interleave(gi, gs) && wf(
            if on_item { *gi } else { *gs },
            cur.model(),
        ),
        fed_of(cur.model()) == cur_fed,
        cur_fed <= checkpoint,
        checkpoint <= hist@.len(),
        on_item || parked is None,
    ensures
        res_model(r) == inter_term_rounds(
            g.model(),
            vals_model(items@),
            vals_model(seps@),
            match parked {
                Option::Some(v) => Option::Some(Box::new(v.model())),
                Option::None => Option::None,
            },
            on_item,
            cur.model(),
            cur_fed as nat,
            checkpoint as nat,
            toks_model(hist@),
            budget as nat,
        ),
    decreases *g, 2nat, 0nat, budget,
{
    match g {
        Grammar::Interleave(gi, gs) => {
            proof {
                lemma_toks_model(hist@);
            }
            let ghost cm = cur.model();
            let side: &Box<Grammar> = if on_item { gi } else { gs };
            let rt = terminate(side, cur);
            match rt {
                Result::Err(_) => Result::Ok(
                    (Value::Interlaced(crate::value::Interlace(items, seps)), checkpoint),
                ),
                Result::Ok((v, bt)) => {
                    if bt >= cur_fed || budget == 0 {
                        Result::Ok(
                            (Value::Interlaced(crate::value::Interlace(items, seps)), checkpoint),
                        )
                    } else {
                        let stepped = if on_item {
                            let mut items2 = items;
                            proof {
                                lemma_vals_model_push(items2@, v);
                            }
                            items2.push(v);
                            let mut seps2 = seps;
                            match parked {
                                Option::Some(p0) => {
                                    proof {
                                        lemma_vals_model_push(seps2@, *p0);
                                    }
                                    seps2.push(*p0);
                                },
                                Option::None => {},
                            }
                            let c0 = init(gs);
                            proof {
                                lemma_init_wf(gs.model());
                                crate::laws::lemma_inter_stepup_ok(
                                    g.model(),
                                    vals_model(items2@),
                                    vals_model(seps2@),
                                    Option::None,
                                    false,
                                    init_m(gs.model()),
                                    0,
                                    toks_model(hist@),
                                    bt as nat,
                                    bt as nat,
                                );
                            }
                            inter_stepup(
                                g,
                                items2,
                                seps2,
                                Option::None,
                                false,
                                c0,
                                0,
                                hist,
                                bt,
                                bt,
                            )
                        } else {
                            let c0 = init(gi);
                            proof {
                                lemma_init_wf(gi.model());
                                crate::laws::lemma_inter_stepup_ok(
                                    g.model(),
                                    vals_model(items@),
                                    vals_model(seps@),
                                    Option::Some(Box::new(v.model())),
                                    true,
                                    init_m(gi.model()),
                                    0,
                                    toks_model(hist@),
                                    checkpoint as nat,
                                    bt as nat,
                                );
                            }
                            inter_stepup(
                                g,
                                items,
                                seps,
                                Option::Some(Box::new(v)),
                                true,
                                c0,
                                0,
                                hist,
                                checkpoint,
                                bt,
                            )
                        };
                        match stepped {
                            Step::Break(r0) => r0,
                            Step::Continue(m2) => match m2 {
                                Machine::Inter {
                                    items: i3,
                                    seps: s3,
                                    parked: p3,
                                    on_item: o3,
                                    cur: c3,
                                    cur_fed: f3,
                                    checkpoint: k3,
                                    hist: h3,
                                } => {
                                    proof {
                                        lemma_toks_model(h3@);
                                    }
                                    inter_rounds(
                                        g,
                                        i3,
                                        s3,
                                        p3,
                                        o3,
                                        *c3,
                                        f3,
                                        k3,
                                        h3,
                                        budget - 1,
                                    )
                                },
                                _ => {
                                    proof {
                                        assert(false);
                                    }
                                    unreached()
                                },
                            },
                        }
                    }
                },
            }
        },
        _ => {
            proof {
                assert(false);
            }
            unreached()
        },
    }
}

/// Terminate the recognizer at the end of the stream: consume the state
/// and produce the final result.  A machine driven zero times behaves
/// exactly like a freshly created one.
pub fn terminate(g: &Grammar, m: Machine) -> (r: SmResult<Value, ParseError>)
    requires
        wf(g.model(), m.model()),
    ensures
        res_model(r) == term_m(g.model(), m.model()),
    decreases *g, 3nat, 0nat, 0nat,
{
    let ghost mm = m.model();
    match g {
        Grammar::Ident(im) => im.terminate(),
        Grammar::FixedIdent(fm) => fm.terminate(),
        Grammar::Punct(pm) => pm.terminate(),
        Grammar::FixedPunct(fm) => fm.terminate(),
        Grammar::Lit(lm) => lm.terminate(),
        Grammar::End(em) => em.terminate(),
        Grammar::Group(_, _) => Result::Err(
            ParseError::Group(crate::error::GroupError::Termination),
        ),
        Grammar::Sequence(ga, gb) => match m {
            Machine::SeqA { buf, a } => {
                let ghost am = a.model();
                let ra = terminate(ga, *a);
                proof {
                    crate::laws::lemma_term_ok(ga.model(), am);
                }
                match ra {
                    Result::Err(e) => Result::Err(
                        ParseError::Sequence(TupleError::First(Box::new(e))),
                    ),
                    Result::Ok((va, k)) => {
                        let b0 = init(gb);
                        proof {
                            lemma_init_wf(gb.model());
                            lemma_seq_replay_ok(
                                g.model(),
                                va.model(),
                                toks_model(buf@),
                                init_m(gb.model()),
                                0,
                                k as nat,
                            );
                        }
                        let stepped = seq_replay(g, va, buf, b0, 0, k);
                        match stepped {
                            Step::Break(r0) => r0,
                            Step::Continue(m2) => match m2 {
                                Machine::SeqB { a_val, b, .. } => {
                                    let ghost bm = b.model();
                                    let rb = terminate(gb, *b);
                                    match rb {
                                        Result::Ok((vb, j)) => Result::Ok(
                                            (Value::Pair(a_val, Box::new(vb)), j),
                                        ),
                                        Result::Err(e) => Result::Err(
                                            ParseError::Sequence(
                                                TupleError::Second(a_val, Box::new(e)),
                                            ),
                                        ),
                                    }
                                },
                                _ => {
                                    proof {
                                        assert(false);
                                    }
                                    unreached()
                                },
                            },
                        }
                    },
                }
            },
            Machine::SeqB { a_val, b, .. } => {
                let ghost bm = b.model();
                let rb = terminate(gb, *b);
                match rb {
                    Result::Ok((vb, j)) => Result::Ok((Value::Pair(a_val, Box::new(vb)), j)),
                    Result::Err(e) => Result::Err(
                        ParseError::Sequence(TupleError::Second(a_val, Box::new(e))),
                    ),
                }
            },
            _ => {
                proof {
                    assert(false);
                }
                unreached()
            },
        },
        Grammar::Alternation(gs) => match m {
            Machine::Alt { fed, branches } => {
                let ghost gsm = grams_model(gs@);
                let ghost bm = branches_model(branches@);
                proof {
                    lemma_grams_model(gs@);
                    lemma_branches_model(branches@);
                    lemma_branches_wf_elim(gsm, bm, fed as nat);
                }
                let brs2 = alt_term_vec(gs, branches, Ghost(fed as nat));
                proof {
                    crate::laws::lemma_resolve_scan(branches_model(brs2@), 0);
                    lemma_branches_model(brs2@);
                    crate::laws::lemma_alt_term_all_ok(gsm, bm, 0, fed as nat);
                }
                match resolve(&brs2) {
                    Resolve::Winner(i) => {
                        let mut brs3 = brs2;
                        let b = brs3.remove(i);
                        match b {
                            Branch::DoneOk(v, k) => Result::Ok(
                                (Value::Branch(i, Box::new(v)), k),
                            ),
                            _ => {
                                proof {
                                    assert(false);
                                }
                                unreached()
                            },
                        }
                    },
                    Resolve::Pending => {
                        proof {
                            assert(false);
                        }
                        unreached()
                    },
                    Resolve::AllFailed => {
                        let errs = collect_errs(brs2);
                        Result::Err(ParseError::Alternation(errs))
                    },
                }
            },
            _ => {
                proof {
                    assert(false);
                }
                unreached()
            },
        },
        Grammar::Repetition(_) => match m {
            Machine::Rep { items, cur, cur_fed, hist } => {
                proof {
                    lemma_toks_model(hist@);
                }
                rep_rounds(g, items, *cur, cur_fed, hist, cur_fed)
            },
            _ => {
                proof {
                    assert(false);
                }
                unreached()
            },
        },
        Grammar::Interleave(_, _) => match m {
            Machine::Inter { items, seps, parked, on_item, cur, cur_fed, checkpoint, hist } => {
                proof {
                    lemma_toks_model(hist@);
                }
                inter_rounds(
                    g,
                    items,
                    seps,
                    parked,
                    on_item,
                    *cur,
                    cur_fed,
                    checkpoint,
                    hist,
                    cur_fed,
                )
            },
            _ => {
                proof {
                    assert(false);
                }
                unreached()
            },
        },
        Grammar::Optional(p) => match m {
            Machine::Opt { inner, fed } => {
                let ghost im = inner.model();
                let ri = terminate(p, *inner);
                match ri {
                    Result::Ok((v, k)) => Result::Ok(
                        (Value::Maybe(Option::Some(Box::new(v))), k),
                    ),
                    Result::Err(_) => Result::Ok((Value::Maybe(Option::None), fed)),
                }
            },
            _ => {
                proof {
                    assert(false);
                }
                unreached()
            },
        },
        Grammar::AndNot(ga, gb) => match m {
            Machine::AndNot { val, not, fed } => {
                proof {
                    assert(branch_wf(ga.model(), val.model(), fed as nat));
                    assert(branch_wf(gb.model(), not.model(), fed as nat));
                }
                let rv = branch_term_res(ga, *val);
                let rn = branch_term_res(gb, *not);
                match rv {
                    Result::Ok((vv, vk)) => match rn {
                        Result::Err(_) => Result::Ok((vv, vk)),
                        Result::Ok((nv, nk)) => Result::Err(
                            ParseError::AndNot(
                                AndNotError::FailedCondition(
                                    Box::new(vv),
                                    vk,
                                    Box::new(nv),
                                    nk,
                                ),
                            ),
                        ),
                    },
                    Result::Err(e) => Result::Err(
                        ParseError::AndNot(AndNotError::ValidFailed(Box::new(e))),
                    ),
                }
            },
            _ => {
                proof {
                    assert(false);
                }
                unreached()
            },
        },
        Grammar::Tagged(tag, p) => match m {
            Machine::Wrap { inner } => {
                let ghost im = inner.model();
                let ri = terminate(p, *inner);
                match ri {
                    Result::Ok((v, k)) => Result::Ok((Value::Tagged(*tag, Box::new(v)), k)),
                    Result::Err(e) => Result::Err(e),
                }
            },
            _ => {
                proof {
                    assert(false);
                }
                unreached()
            },
        },
        Grammar::MinLength(n, p) => match m {
            Machine::Wrap { inner } => {
                let ghost im = inner.model();
                let ri = terminate(p, *inner);
                min_len_check_exec(*n, ri)
            },
            _ => {
                proof {
                    assert(false);
                }
                unreached()
            },
        },
    }
}

/// Terminate one lookahead side, as a plain result.
fn branch_term_res(g: &Grammar, b: Branch) -> (r: SmResult<Value, ParseError>)
    requires
        b.model() matches BranchM::Running(mm) ==> wf(g.model(), *mm),
    ensures
        res_model(r) == branch_term(g.model(), b.model()),
    decreases *g, 4nat, 0nat, 1nat,
{
    match b {
        Branch::Running(m) => terminate(g, m),
        Branch::DoneOk(v, k) => Result::Ok((v, k)),
        Branch::DoneErr(e) => Result::Err(e),
    }
}

} // verus!
