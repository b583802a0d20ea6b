use vstd::prelude::*;
use crate::token::TokenM;
use crate::value::ValueM;
use crate::error::{
    FixedIdentErrorM, FixedPunctErrorM, GroupErrorM, IdentErrorM, ParseErrorM, PunctErrorM,
    TerminalErrorM, TerminateErrorM, TupleErrorM, TypedLitM, AndNotErrorM, LengthErrorM,
};
use crate::grammar::{
    fixed_ident_step, fixed_punct_step, ident_step, lit_step, punct_step, GrammarM, ResM,
};

verus! {

/// Model state of one alternation branch: still running, parked on a
/// success whose count ages as further tokens arrive, or settled on a
/// failure.
pub ghost enum BranchM {
    Running(Box<MachineM>),
    DoneOk(Box<ValueM>, nat),
    DoneErr(Box<ParseErrorM>),
}

/// Model state of a recognizer between two `drive` calls.
pub ghost enum MachineM {
    /// Primitive matchers, groups and the end recognizer break on their
    /// first step and keep no state.
    Ready,
    /// A sequence still working on its first part; every fed token is
    /// buffered for replay.
    SeqA { buf: Seq<TokenM>, a: Box<MachineM> },
    /// A sequence working on its second part, retaining the first part's
    /// output and the total number of tokens fed to the composite.
    SeqB { a_val: Box<ValueM>, fed: nat, b: Box<MachineM> },
    /// An alternation: all branches run against the same tokens.
    Alt { fed: nat, branches: Seq<BranchM> },
    /// A repetition: collected items, the current attempt, the number of
    /// tokens fed to it, and the full history for replay.  The tokens not
    /// consumed by committed items are exactly the current attempt's.
    Rep { items: Seq<ValueM>, cur: Box<MachineM>, cur_fed: nat, hist: Seq<TokenM> },
    /// An interleave: item and separator lists, a completed separator
    /// parked until the next item commits, the side being recognized, the
    /// current attempt, and the tokens not committed since the last item.
    Inter {
        items: Seq<ValueM>,
        seps: Seq<ValueM>,
        parked: Option<Box<ValueM>>,
        on_item: bool,
        cur: Box<MachineM>,
        cur_fed: nat,
        checkpoint: nat,
        hist: Seq<TokenM>,
    },
    /// An optional recognizer, counting the tokens fed so far.
    Opt { inner: Box<MachineM>, fed: nat },
    /// A negative lookahead: both sides run against the same tokens.
    AndNot { val: Box<BranchM>, not: Box<BranchM>, fed: nat },
    /// A tagging or bounded-length wrapper around its inner state.
    Wrap { inner: Box<MachineM> },
}

/// One step's outcome: carry on with a successor state, or break with a
/// final result.
pub ghost enum StepM {
    Continue(MachineM),
    Break(ResM),
}

/// How an alternation's branches currently stand, scanning from the
/// lowest index: the first branch that has not failed decides.
pub ghost enum ResolveM {
    /// A branch with lower priority than every success is still running.
    Pending,
    /// The branch at this index won: every lower branch has failed.
    Winner(nat),
    /// Every branch has failed.
    AllFailed,
}

/// The number of tokens fed to a machine since it was created.
pub open spec fn fed_of(m: MachineM) -> nat
    decreases m,
{
    match m {
        MachineM::Ready => 0,
        MachineM::SeqA { buf, .. } => buf.len(),
        MachineM::SeqB { fed, .. } => fed,
        MachineM::Alt { fed, .. } => fed,
        MachineM::Rep { hist, .. } => hist.len(),
        MachineM::Inter { hist, .. } => hist.len(),
        MachineM::Opt { fed, .. } => fed,
        MachineM::AndNot { fed, .. } => fed,
        MachineM::Wrap { inner } => fed_of(*inner),
    }
}

/// Grammars whose recognizers break on the very first token.
pub open spec fn is_leaf(g: GrammarM) -> bool {
    match g {
        GrammarM::Ident => true,
        GrammarM::FixedIdent(_) => true,
        GrammarM::Punct(_) => true,
        GrammarM::FixedPunct(_, _) => true,
        GrammarM::Lit(_) => true,
        GrammarM::End => true,
        GrammarM::Group(_, _) => true,
        _ => false,
    }
}

/// Well-formedness of a machine state for a grammar: the state's shape
/// matches the grammar, sub-states are well formed, and every stored
/// count is consistent with the number of tokens fed.
pub open spec fn wf(g: GrammarM, m: MachineM) -> bool
    decreases m, 0nat,
{
    match m {
        MachineM::Ready => is_leaf(g),
        MachineM::SeqA { buf, a } => match g {
            GrammarM::Sequence(ga, _) => wf(*ga, *a) && fed_of(*a) == buf.len(),
            _ => false,
        },
        MachineM::SeqB { fed, b, .. } => match g {
            GrammarM::Sequence(_, gb) => wf(*gb, *b) && fed_of(*b) <= fed,
            _ => false,
        },
        MachineM::Alt { fed, branches } => match g {
            GrammarM::Alternation(gs) => branches_wf(gs, branches, fed),
            _ => false,
        },
        MachineM::Rep { cur, cur_fed, hist, .. } => match g {
            GrammarM::Repetition(p) => {
                &&& wf(*p, *cur)
                &&& fed_of(*cur) == cur_fed
                &&& cur_fed <= hist.len()
            },
            _ => false,
        },
        MachineM::Inter { parked, on_item, cur, cur_fed, checkpoint, hist, .. } => match g {
            GrammarM::Interleave(gi, gs) => {
                &&& wf(if on_item { *gi } else { *gs }, *cur)
                &&& fed_of(*cur) == cur_fed
                &&& cur_fed <= checkpoint
                &&& checkpoint <= hist.len()
                &&& (on_item || parked is None)
            },
            _ => false,
        },
        MachineM::Opt { inner, fed } => match g {
            GrammarM::Optional(p) => wf(*p, *inner) && fed_of(*inner) == fed,
            _ => false,
        },
        MachineM::AndNot { val, not, fed } => match g {
            GrammarM::AndNot(ga, gb) => branch_wf(*ga, *val, fed) && branch_wf(*gb, *not, fed),
            _ => false,
        },
        MachineM::Wrap { inner } => match g {
            GrammarM::Tagged(_, p) => wf(*p, *inner),
            GrammarM::MinLength(_, p) => wf(*p, *inner),
            _ => false,
        },
    }
}

/// Well-formedness of one alternation branch at a composite feed count.
pub open spec fn branch_wf(g: GrammarM, b: BranchM, fed: nat) -> bool
    decreases b, 1nat,
{
    match b {
        BranchM::Running(m) => wf(g, *m) && fed_of(*m) == fed,
        BranchM::DoneOk(_, k) => k <= fed,
        BranchM::DoneErr(_) => true,
    }
}

/// Well-formedness of a whole branch list, one branch per grammar.
pub open spec fn branches_wf(gs: Seq<GrammarM>, brs: Seq<BranchM>, fed: nat) -> bool
    decreases brs, 0nat,
{
    &&& brs.len() == gs.len()
    &&& (brs.len() == 0 || {
        &&& branches_wf(gs.drop_last(), brs.drop_last(), fed)
        &&& branch_wf(gs.last(), brs.last(), fed)
    })
}

/// The initial (freshly defaulted) state for a grammar.
pub open spec fn init_m(g: GrammarM) -> MachineM
    decreases g, 0nat, 0nat, 0nat,
{
    match g {
        GrammarM::Sequence(ga, _) => MachineM::SeqA { buf: Seq::empty(), a: Box::new(init_m(*ga)) },
        GrammarM::Alternation(gs) => MachineM::Alt { fed: 0, branches: init_branches(gs) },
        GrammarM::Repetition(p) => MachineM::Rep {
            items: Seq::empty(),
            cur: Box::new(init_m(*p)),
            cur_fed: 0,
            hist: Seq::empty(),
        },
        GrammarM::Interleave(gi, _) => MachineM::Inter {
            items: Seq::empty(),
            seps: Seq::empty(),
            parked: Option::None,
            on_item: true,
            cur: Box::new(init_m(*gi)),
            cur_fed: 0,
            checkpoint: 0,
            hist: Seq::empty(),
        },
        GrammarM::Optional(p) => MachineM::Opt { inner: Box::new(init_m(*p)), fed: 0 },
        GrammarM::AndNot(ga, gb) => MachineM::AndNot {
            val: Box::new(BranchM::Running(Box::new(init_m(*ga)))),
            not: Box::new(BranchM::Running(Box::new(init_m(*gb)))),
            fed: 0,
        },
        GrammarM::Tagged(_, p) => MachineM::Wrap { inner: Box::new(init_m(*p)) },
        GrammarM::MinLength(_, p) => MachineM::Wrap { inner: Box::new(init_m(*p)) },
        _ => MachineM::Ready,
    }
}

/// Fresh running branches, one per alternation branch grammar.
pub open spec fn init_branches(gs: Seq<GrammarM>) -> Seq<BranchM>
    decreases gs, 0nat, 0nat, 0nat,
{
    if gs.len() == 0 {
        Seq::empty()
    } else {
        init_branches(gs.drop_last()).push(
            BranchM::Running(Box::new(init_m(gs.last()))),
        )
    }
}

/// Scan the branches from index `i` for the first that has not failed.
pub open spec fn resolve_scan(brs: Seq<BranchM>, i: nat) -> ResolveM
    decreases brs.len() - i,
{
    if i >= brs.len() {
        ResolveM::AllFailed
    } else {
        match brs[i as int] {
            BranchM::DoneErr(_) => resolve_scan(brs, i + 1),
            BranchM::DoneOk(_, _) => ResolveM::Winner(i),
            BranchM::Running(_) => ResolveM::Pending,
        }
    }
}

/// The errors of branches that have all failed, in declaration order.
pub open spec fn branch_errs(brs: Seq<BranchM>) -> Seq<ParseErrorM>
    decreases brs,
{
    if brs.len() == 0 {
        Seq::empty()
    } else {
        branch_errs(brs.drop_last()).push(
            match brs.last() {
                BranchM::DoneErr(e) => *e,
                _ => arbitrary(),
            },
        )
    }
}

/// The length a bounded-length wrapper measures: the number of collected
/// items of a repetition or interleave result.
pub open spec fn len_measure(v: ValueM) -> Option<nat> {
    match v {
        ValueM::List(vs) => Option::Some(vs.len()),
        ValueM::Interlaced(items, _) => Option::Some(items.len()),
        _ => Option::None,
    }
}

/// One step of a recognizer: drive the state for grammar `g` with token
/// `t`.  This is the engine's transition function; the executable `drive`
/// is proved to compute exactly this.
pub open spec fn drive_m(g: GrammarM, m: MachineM, t: TokenM) -> StepM
    decreases g, 1nat, 0nat, 0nat,
{
    match g {
        GrammarM::Ident => StepM::Break(ident_step(t)),
        GrammarM::FixedIdent(w) => StepM::Break(fixed_ident_step(w, t)),
        GrammarM::Punct(req) => StepM::Break(punct_step(req, t)),
        GrammarM::FixedPunct(c, req) => StepM::Break(fixed_punct_step(c, req, t)),
        GrammarM::Lit(k) => StepM::Break(lit_step(k, t)),
        GrammarM::End => StepM::Break(
            ResM::Failure(ParseErrorM::End(TerminateErrorM(t))),
        ),
        GrammarM::Group(dreq, inner) => match t {
            TokenM::Group(d, toks) => {
                if dreq matches Option::Some(dr) && dr != d {
                    StepM::Break(
                        ResM::Failure(
                            ParseErrorM::Group(GroupErrorM::InvalidDelimiter(dreq->0, d)),
                        ),
                    )
                } else {
                    match exact_m(*inner, toks) {
                        Result::Ok(v) => StepM::Break(
                            ResM::Success(ValueM::Group(d, Box::new(v)), 0),
                        ),
                        Result::Err(te) => StepM::Break(
                            ResM::Failure(ParseErrorM::Group(GroupErrorM::Nested(Box::new(te)))),
                        ),
                    }
                }
            },
            _ => StepM::Break(
                ResM::Failure(ParseErrorM::Group(GroupErrorM::InvalidToken(t))),
            ),
        },
        GrammarM::Sequence(ga, gb) => match m {
            MachineM::SeqA { buf, a } => {
                let buf1 = buf.push(t);
                match drive_m(*ga, *a, t) {
                    StepM::Continue(a2) => StepM::Continue(
                        MachineM::SeqA { buf: buf1, a: Box::new(a2) },
                    ),
                    StepM::Break(ResM::Failure(e)) => StepM::Break(
                        ResM::Failure(ParseErrorM::Sequence(TupleErrorM::First(Box::new(e)))),
                    ),
                    StepM::Break(ResM::Success(va, k)) => seq_replay_m(
                        g,
                        va,
                        buf1,
                        init_m(*gb),
                        0,
                        k,
                    ),
                }
            },
            MachineM::SeqB { a_val, fed, b } => match drive_m(*gb, *b, t) {
                StepM::Continue(b2) => StepM::Continue(
                    MachineM::SeqB { a_val, fed: fed + 1, b: Box::new(b2) },
                ),
                StepM::Break(ResM::Success(vb, j)) => StepM::Break(
                    ResM::Success(ValueM::Pair(a_val, Box::new(vb)), j),
                ),
                StepM::Break(ResM::Failure(e)) => StepM::Break(
                    ResM::Failure(
                        ParseErrorM::Sequence(TupleErrorM::Second(a_val, Box::new(e))),
                    ),
                ),
            },
            _ => arbitrary(),
        },
        GrammarM::Alternation(gs) => match m {
            MachineM::Alt { fed, branches } => {
                let brs2 = alt_step_all(gs, branches, t, 0);
                match resolve_scan(brs2, 0) {
                    ResolveM::Pending => StepM::Continue(
                        MachineM::Alt { fed: fed + 1, branches: brs2 },
                    ),
                    ResolveM::Winner(i) => StepM::Break(
                        ResM::Success(
                            ValueM::Branch(i, brs2[i as int]->DoneOk_0),
                            brs2[i as int]->DoneOk_1,
                        ),
                    ),
                    ResolveM::AllFailed => StepM::Break(
                        ResM::Failure(ParseErrorM::Alternation(branch_errs(brs2))),
                    ),
                }
            },
            _ => arbitrary(),
        },
        GrammarM::Repetition(p) => match m {
            MachineM::Rep { items, cur, cur_fed, hist } => {
                let hist1 = hist.push(t);
                match drive_m(*p, *cur, t) {
                    StepM::Continue(c) => StepM::Continue(
                        MachineM::Rep {
                            items,
                            cur: Box::new(c),
                            cur_fed: cur_fed + 1,
                            hist: hist1,
                        },
                    ),
                    StepM::Break(ResM::Failure(_)) => StepM::Break(
                        ResM::Success(ValueM::List(items), cur_fed + 1),
                    ),
                    StepM::Break(ResM::Success(v, bt)) => {
                        if bt > cur_fed {
                            // The attempt completed without consuming anything:
                            // stop, or the replay would never make progress.
                            StepM::Break(ResM::Success(ValueM::List(items), cur_fed + 1))
                        } else {
                            rep_stepup_m(g, items.push(v), init_m(*p), 0, hist1, bt, bt)
                        }
                    },
                }
            },
            _ => arbitrary(),
        },
        GrammarM::Interleave(gi, gs) => match m {
            MachineM::Inter { items, seps, parked, on_item, cur, cur_fed, checkpoint, hist } => {
                let hist1 = hist.push(t);
                match drive_m(if on_item { *gi } else { *gs }, *cur, t) {
                    StepM::Continue(c) => StepM::Continue(
                        MachineM::Inter {
                            items,
                            seps,
                            parked,
                            on_item,
                            cur: Box::new(c),
                            cur_fed: cur_fed + 1,
                            checkpoint: checkpoint + 1,
                            hist: hist1,
                        },
                    ),
                    StepM::Break(ResM::Failure(_)) => StepM::Break(
                        ResM::Success(
                            ValueM::Interlaced(items, seps),
                            checkpoint + 1,
                        ),
                    ),
                    StepM::Break(ResM::Success(v, bt)) => {
                        if (on_item && bt > cur_fed) || bt > cur_fed + 1 {
                            // An item that consumed nothing would replay for
                            // ever; a separator may consume nothing once, the
                            // next item attempt then has to make progress.
                            StepM::Break(
                                ResM::Success(ValueM::Interlaced(items, seps), checkpoint + 1),
                            )
                        } else if on_item {
                            inter_stepup_m(
                                g,
                                items.push(v),
                                match parked {
                                    Option::Some(p0) => seps.push(*p0),
                                    Option::None => seps,
                                },
                                Option::None,
                                false,
                                init_m(*gs),
                                0,
                                hist1,
                                bt,
                                bt,
                            )
                        } else {
                            inter_stepup_m(
                                g,
                                items,
                                seps,
                                Option::Some(Box::new(v)),
                                true,
                                init_m(*gi),
                                0,
                                hist1,
                                checkpoint + 1,
                                bt,
                            )
                        }
                    },
                }
            },
            _ => arbitrary(),
        },
        GrammarM::Optional(p) => match m {
            MachineM::Opt { inner, fed } => match drive_m(*p, *inner, t) {
                StepM::Continue(c) => StepM::Continue(
                    MachineM::Opt { inner: Box::new(c), fed: fed + 1 },
                ),
                StepM::Break(ResM::Success(v, k)) => StepM::Break(
                    ResM::Success(ValueM::Maybe(Option::Some(Box::new(v))), k),
                ),
                StepM::Break(ResM::Failure(_)) => StepM::Break(
                    ResM::Success(ValueM::Maybe(Option::None), fed + 1),
                ),
            },
            _ => arbitrary(),
        },
        GrammarM::AndNot(ga, gb) => match m {
            MachineM::AndNot { val, not, fed } => {
                let v2 = branch_step(*ga, *val, t);
                let n2 = branch_step(*gb, *not, t);
                match v2 {
                    BranchM::Running(_) => StepM::Continue(
                        MachineM::AndNot {
                            val: Box::new(v2),
                            not: Box::new(n2),
                            fed: fed + 1,
                        },
                    ),
                    BranchM::DoneOk(v, vk) => match n2 {
                        BranchM::Running(_) => StepM::Continue(
                            MachineM::AndNot {
                                val: Box::new(BranchM::DoneOk(v, vk)),
                                not: Box::new(n2),
                                fed: fed + 1,
                            },
                        ),
                        BranchM::DoneErr(_) => StepM::Break(ResM::Success(*v, vk)),
                        BranchM::DoneOk(n, nk) => StepM::Break(
                            ResM::Failure(
                                ParseErrorM::AndNot(AndNotErrorM::FailedCondition(v, vk, n, nk)),
                            ),
                        ),
                    },
                    BranchM::DoneErr(e) => match n2 {
                        BranchM::Running(_) => StepM::Continue(
                            MachineM::AndNot {
                                val: Box::new(BranchM::DoneErr(e)),
                                not: Box::new(n2),
                                fed: fed + 1,
                            },
                        ),
                        _ => StepM::Break(
                            ResM::Failure(ParseErrorM::AndNot(AndNotErrorM::ValidFailed(e))),
                        ),
                    },
                }
            },
            _ => arbitrary(),
        },
        GrammarM::Tagged(tag, p) => match m {
            MachineM::Wrap { inner } => match drive_m(*p, *inner, t) {
                StepM::Continue(c) => StepM::Continue(MachineM::Wrap { inner: Box::new(c) }),
                StepM::Break(ResM::Success(v, k)) => StepM::Break(
                    ResM::Success(ValueM::Tagged(tag, Box::new(v)), k),
                ),
                StepM::Break(ResM::Failure(e)) => StepM::Break(ResM::Failure(e)),
            },
            _ => arbitrary(),
        },
        GrammarM::MinLength(n, p) => match m {
            MachineM::Wrap { inner } => match drive_m(*p, *inner, t) {
                StepM::Continue(c) => StepM::Continue(MachineM::Wrap { inner: Box::new(c) }),
                StepM::Break(r) => StepM::Break(min_len_check(n, r)),
            },
            _ => arbitrary(),
        },
    }
}

/// The bounded-length postcondition: a too-short item list becomes a
/// failure; everything else passes through.
pub open spec fn min_len_check(n: nat, r: ResM) -> ResM {
    match r {
        ResM::Success(v, k) => match len_measure(v) {
            Option::Some(l) => if l >= n {
                ResM::Success(v, k)
            } else {
                ResM::Failure(
                    ParseErrorM::Length(LengthErrorM::InvalidLength(n, l)),
                )
            },
            Option::None => ResM::Success(v, k),
        },
        ResM::Failure(e) => ResM::Failure(
            ParseErrorM::Length(LengthErrorM::Inner(Box::new(e))),
        ),
    }
}

/// Drive one alternation branch with a token: a running branch steps its
/// machine; a parked success ages by one token; a failure stays.
pub open spec fn branch_step(g: GrammarM, b: BranchM, t: TokenM) -> BranchM
    decreases g, 2nat, 0nat, 0nat,
{
    match b {
        BranchM::Running(m) => match drive_m(g, *m, t) {
            StepM::Continue(m2) => BranchM::Running(Box::new(m2)),
            StepM::Break(ResM::Success(v, k)) => BranchM::DoneOk(Box::new(v), k),
            StepM::Break(ResM::Failure(e)) => BranchM::DoneErr(Box::new(e)),
        },
        BranchM::DoneOk(v, k) => BranchM::DoneOk(v, k + 1),
        BranchM::DoneErr(e) => BranchM::DoneErr(e),
    }
}

/// Drive every branch from index `i` on with the same token.
pub open spec fn alt_step_all(gs: Seq<GrammarM>, brs: Seq<BranchM>, t: TokenM, i: nat) -> Seq<
    BranchM,
>
    decreases gs, 2nat, gs.len() - i, 0nat,
{
    if i >= gs.len() || i >= brs.len() {
        brs
    } else {
        alt_step_all(gs, brs.update(i as int, branch_step(gs[i as int], brs[i as int], t)), t, i + 1)
    }
}

/// Replay the last `rl` buffered tokens into the sequence's second part.
pub open spec fn seq_replay_m(
    g: GrammarM,
    a_val: ValueM,
    buf: Seq<TokenM>,
    b: MachineM,
    fed_b: nat,
    rl: nat,
) -> StepM
    decreases g, 0nat, rl, 0nat,
{
    match g {
        GrammarM::Sequence(_, gb) => {
            if rl > buf.len() {
                StepM::Break(
                    ResM::Failure(
                        ParseErrorM::Sequence(TupleErrorM::InvalidLength(rl, buf.len())),
                    ),
                )
            } else if rl == 0 {
                StepM::Continue(
                    MachineM::SeqB { a_val: Box::new(a_val), fed: buf.len(), b: Box::new(b) },
                )
            } else {
                match drive_m(*gb, b, buf[buf.len() - rl]) {
                    StepM::Continue(b2) => seq_replay_m(g, a_val, buf, b2, fed_b + 1, (rl - 1) as nat),
                    StepM::Break(ResM::Success(vb, inc)) => StepM::Break(
                        ResM::Success(
                            ValueM::Pair(Box::new(a_val), Box::new(vb)),
                            (inc + rl - 1) as nat,
                        ),
                    ),
                    StepM::Break(ResM::Failure(e)) => StepM::Break(
                        ResM::Failure(
                            ParseErrorM::Sequence(
                                TupleErrorM::Second(Box::new(a_val), Box::new(e)),
                            ),
                        ),
                    ),
                }
            }
        },
        _ => arbitrary(),
    }
}

/// Replay the last `rl` history tokens into fresh repetition attempts,
/// committing each completed item.  `checkpoint` is the number of tokens
/// not consumed by committed items.
pub open spec fn rep_stepup_m(
    g: GrammarM,
    items: Seq<ValueM>,
    cur: MachineM,
    fed_c: nat,
    hist: Seq<TokenM>,
    checkpoint: nat,
    rl: nat,
) -> StepM
    decreases g, 0nat, rl + fed_c, rl,
{
    match g {
        GrammarM::Repetition(p) => {
            if rl > hist.len() {
                StepM::Break(ResM::Success(ValueM::List(items), checkpoint))
            } else if rl == 0 {
                StepM::Continue(
                    MachineM::Rep { items, cur: Box::new(cur), cur_fed: fed_c, hist },
                )
            } else {
                match drive_m(*p, cur, hist[hist.len() - rl]) {
                    StepM::Continue(c) => rep_stepup_m(
                        g,
                        items,
                        c,
                        fed_c + 1,
                        hist,
                        checkpoint,
                        (rl - 1) as nat,
                    ),
                    StepM::Break(ResM::Failure(_)) => StepM::Break(
                        ResM::Success(ValueM::List(items), checkpoint),
                    ),
                    StepM::Break(ResM::Success(v, bt)) => {
                        if bt > fed_c {
                            StepM::Break(ResM::Success(ValueM::List(items), checkpoint))
                        } else {
                            rep_stepup_m(
                                g,
                                items.push(v),
                                init_m(*p),
                                0,
                                hist,
                                (rl - 1 + bt) as nat,
                                (rl - 1 + bt) as nat,
                            )
                        }
                    },
                }
            }
        },
        _ => arbitrary(),
    }
}

/// Replay the last `rl` history tokens into the interleave's alternating
/// attempts, committing items and parking separators.
pub open spec fn inter_stepup_m(
    g: GrammarM,
    items: Seq<ValueM>,
    seps: Seq<ValueM>,
    parked: Option<Box<ValueM>>,
    on_item: bool,
    cur: MachineM,
    fed_c: nat,
    hist: Seq<TokenM>,
    checkpoint: nat,
    rl: nat,
) -> StepM
    decreases g, 0nat, 2 * (rl + fed_c) + (if on_item { 0int } else { 1int }), rl,
{
    match g {
        GrammarM::Interleave(gi, gs) => {
            if rl > hist.len() {
                StepM::Break(ResM::Success(ValueM::Interlaced(items, seps), checkpoint))
            } else if rl == 0 {
                StepM::Continue(
                    MachineM::Inter {
                        items,
                        seps,
                        parked,
                        on_item,
                        cur: Box::new(cur),
                        cur_fed: fed_c,
                        checkpoint,
                        hist,
                    },
                )
            } else {
                match drive_m(if on_item { *gi } else { *gs }, cur, hist[hist.len() - rl]) {
                    StepM::Continue(c) => inter_stepup_m(
                        g,
                        items,
                        seps,
                        parked,
                        on_item,
                        c,
                        fed_c + 1,
                        hist,
                        checkpoint,
                        (rl - 1) as nat,
                    ),
                    StepM::Break(ResM::Failure(_)) => StepM::Break(
                        ResM::Success(ValueM::Interlaced(items, seps), checkpoint),
                    ),
                    StepM::Break(ResM::Success(v, bt)) => {
                        if (on_item && bt > fed_c) || bt > fed_c + 1 {
                            StepM::Break(
                                ResM::Success(ValueM::Interlaced(items, seps), checkpoint),
                            )
                        } else if on_item {
                            inter_stepup_m(
                                g,
                                items.push(v),
                                match parked {
                                    Option::Some(p0) => seps.push(*p0),
                                    Option::None => seps,
                                },
                                Option::None,
                                false,
                                init_m(*gs),
                                0,
                                hist,
                                (rl - 1 + bt) as nat,
                                (rl - 1 + bt) as nat,
                            )
                        } else {
                            inter_stepup_m(
                                g,
                                items,
                                seps,
                                Option::Some(Box::new(v)),
                                true,
                                init_m(*gi),
                                0,
                                hist,
                                checkpoint,
                                (rl - 1 + bt) as nat,
                            )
                        }
                    },
                }
            }
        },
        _ => arbitrary(),
    }
}

/// Terminate a recognizer at the end of the stream.
pub open spec fn term_m(g: GrammarM, m: MachineM) -> ResM
    decreases g, 3nat, 0nat, 0nat,
{
    match g {
        GrammarM::Ident => ResM::Failure(ParseErrorM::Ident(IdentErrorM::Termination)),
        GrammarM::FixedIdent(w) => ResM::Failure(
            ParseErrorM::FixedIdent(FixedIdentErrorM::Termination(w)),
        ),
        GrammarM::Punct(_) => ResM::Failure(ParseErrorM::Punct(PunctErrorM::Termination)),
        GrammarM::FixedPunct(c, _) => ResM::Failure(
            ParseErrorM::FixedPunct(FixedPunctErrorM::Termination(c)),
        ),
        GrammarM::Lit(k) => ResM::Failure(ParseErrorM::Lit(TypedLitM::Termination(k))),
        GrammarM::End => ResM::Success(ValueM::Fin, 0),
        GrammarM::Group(_, _) => ResM::Failure(ParseErrorM::Group(GroupErrorM::Termination)),
        GrammarM::Sequence(ga, gb) => match m {
            MachineM::SeqA { buf, a } => match term_m(*ga, *a) {
                ResM::Failure(e) => ResM::Failure(
                    ParseErrorM::Sequence(TupleErrorM::First(Box::new(e))),
                ),
                ResM::Success(va, k) => match seq_replay_m(g, va, buf, init_m(*gb), 0, k) {
                    StepM::Break(r) => r,
                    StepM::Continue(m2) => match m2 {
                        MachineM::SeqB { a_val, b, .. } => match term_m(*gb, *b) {
                            ResM::Success(vb, j) => ResM::Success(
                                ValueM::Pair(a_val, Box::new(vb)),
                                j,
                            ),
                            ResM::Failure(e) => ResM::Failure(
                                ParseErrorM::Sequence(TupleErrorM::Second(a_val, Box::new(e))),
                            ),
                        },
                        _ => arbitrary(),
                    },
                },
            },
            MachineM::SeqB { a_val, b, .. } => match term_m(*gb, *b) {
                ResM::Success(vb, j) => ResM::Success(ValueM::Pair(a_val, Box::new(vb)), j),
                ResM::Failure(e) => ResM::Failure(
                    ParseErrorM::Sequence(TupleErrorM::Second(a_val, Box::new(e))),
                ),
            },
            _ => arbitrary(),
        },
        GrammarM::Alternation(gs) => match m {
            MachineM::Alt { branches, .. } => {
                let brs2 = alt_term_all(gs, branches, 0);
                match resolve_scan(brs2, 0) {
                    ResolveM::Winner(i) => ResM::Success(
                        ValueM::Branch(i, brs2[i as int]->DoneOk_0),
                        brs2[i as int]->DoneOk_1,
                    ),
                    _ => ResM::Failure(ParseErrorM::Alternation(branch_errs(brs2))),
                }
            },
            _ => arbitrary(),
        },
        GrammarM::Repetition(_) => match m {
            MachineM::Rep { items, cur, cur_fed, hist } => rep_term_rounds(
                g,
                items,
                *cur,
                cur_fed,
                hist,
                cur_fed,
            ),
            _ => arbitrary(),
        },
        GrammarM::Interleave(_, _) => match m {
            MachineM::Inter { items, seps, parked, on_item, cur, cur_fed, checkpoint, hist } =>
                inter_term_rounds(
                    g,
                    items,
                    seps,
                    parked,
                    on_item,
                    *cur,
                    cur_fed,
                    checkpoint,
                    hist,
                    cur_fed,
                ),
            _ => arbitrary(),
        },
        GrammarM::Optional(p) => match m {
            MachineM::Opt { inner, fed } => match term_m(*p, *inner) {
                ResM::Success(v, k) => ResM::Success(
                    ValueM::Maybe(Option::Some(Box::new(v))),
                    k,
                ),
                ResM::Failure(_) => ResM::Success(ValueM::Maybe(Option::None), fed),
            },
            _ => arbitrary(),
        },
        GrammarM::AndNot(ga, gb) => match m {
            MachineM::AndNot { val, not, .. } => {
                let v = branch_term(*ga, *val);
                let n = branch_term(*gb, *not);
                match v {
                    ResM::Success(vv, vk) => match n {
                        ResM::Failure(_) => ResM::Success(vv, vk),
                        ResM::Success(nv, nk) => ResM::Failure(
                            ParseErrorM::AndNot(
                                AndNotErrorM::FailedCondition(
                                    Box::new(vv),
                                    vk,
                                    Box::new(nv),
                                    nk,
                                ),
                            ),
                        ),
                    },
                    ResM::Failure(e) => ResM::Failure(
                        ParseErrorM::AndNot(AndNotErrorM::ValidFailed(Box::new(e))),
                    ),
                }
            },
            _ => arbitrary(),
        },
        GrammarM::Tagged(tag, p) => match m {
            MachineM::Wrap { inner } => match term_m(*p, *inner) {
                ResM::Success(v, k) => ResM::Success(ValueM::Tagged(tag, Box::new(v)), k),
                ResM::Failure(e) => ResM::Failure(e),
            },
            _ => arbitrary(),
        },
        GrammarM::MinLength(n, p) => match m {
            MachineM::Wrap { inner } => min_len_check(n, term_m(*p, *inner)),
            _ => arbitrary(),
        },
    }
}

/// Terminate one alternation branch: a running branch terminates its
/// machine; a parked result stands.
pub open spec fn branch_term(g: GrammarM, b: BranchM) -> ResM
    decreases g, 4nat, 0nat, 0nat,
{
    match b {
        BranchM::Running(m) => term_m(g, *m),
        BranchM::DoneOk(v, k) => ResM::Success(*v, k),
        BranchM::DoneErr(e) => ResM::Failure(*e),
    }
}

/// Terminate every branch from index `i` on.
pub open spec fn alt_term_all(gs: Seq<GrammarM>, brs: Seq<BranchM>, i: nat) -> Seq<BranchM>
    decreases gs, 2nat, 1nat, gs.len() - i,
{
    if i >= gs.len() || i >= brs.len() {
        brs
    } else {
        alt_term_all(
            gs,
            brs.update(
                i as int,
                match branch_term(gs[i as int], brs[i as int]) {
                    ResM::Success(v, k) => BranchM::DoneOk(Box::new(v), k),
                    ResM::Failure(e) => BranchM::DoneErr(Box::new(e)),
                },
            ),
            i + 1,
        )
    }
}

/// Termination rounds of a repetition: terminate the current attempt; a
/// completed item that consumed tokens is committed and its backtracked
/// tokens are replayed into a fresh attempt, which is then terminated in
/// turn.  Each committed round strictly shrinks the current attempt's
/// feed, so the budget, set to that feed, never runs out.
pub open spec fn rep_term_rounds(
    g: GrammarM,
    items: Seq<ValueM>,
    cur: MachineM,
    cur_fed: nat,
    hist: Seq<TokenM>,
    budget: nat,
) -> ResM
    decreases g, 2nat, 0nat, budget,
{
    match g {
        GrammarM::Repetition(p) => match term_m(*p, cur) {
            ResM::Failure(_) => ResM::Success(ValueM::List(items), cur_fed),
            ResM::Success(v, bt) => {
                if bt >= cur_fed || budget == 0 {
                    ResM::Success(ValueM::List(items), cur_fed)
                } else {
                    match rep_stepup_m(g, items.push(v), init_m(*p), 0, hist, bt, bt) {
                        StepM::Break(ResM::Success(v2, k2)) => ResM::Success(v2, k2),
                        StepM::Break(r) => r,
                        StepM::Continue(m2) => match m2 {
                            MachineM::Rep { items: i2, cur: c2, cur_fed: f2, hist: h2 } =>
                                rep_term_rounds(g, i2, *c2, f2, h2, (budget - 1) as nat),
                            _ => arbitrary(),
                        },
                    }
                }
            },
        },
        _ => arbitrary(),
    }
}

/// Termination rounds of an interleave, alternating between item and
/// separator attempts in the same way.
pub open spec fn inter_term_rounds(
    g: GrammarM,
    items: Seq<ValueM>,
    seps: Seq<ValueM>,
    parked: Option<Box<ValueM>>,
    on_item: bool,
    cur: MachineM,
    cur_fed: nat,
    checkpoint: nat,
    hist: Seq<TokenM>,
    budget: nat,
) -> ResM
    decreases g, 2nat, 0nat, budget,
{
    match g {
        GrammarM::Interleave(gi, gs) => match term_m(if on_item { *gi } else { *gs }, cur) {
            ResM::Failure(_) => ResM::Success(ValueM::Interlaced(items, seps), checkpoint),
            ResM::Success(v, bt) => {
                if bt >= cur_fed || budget == 0 {
                    ResM::Success(ValueM::Interlaced(items, seps), checkpoint)
                } else {
                    let stepped = if on_item {
                        inter_stepup_m(
                            g,
                            items.push(v),
                            match parked {
                                Option::Some(p0) => seps.push(*p0),
                                Option::None => seps,
                            },
                            Option::None,
                            false,
                            init_m(*gs),
                            0,
                            hist,
                            bt,
                            bt,
                        )
                    } else {
                        inter_stepup_m(
                            g,
                            items,
                            seps,
                            Option::Some(Box::new(v)),
                            true,
                            init_m(*gi),
                            0,
                            hist,
                            checkpoint,
                            bt,
                        )
                    };
                    match stepped {
                        StepM::Break(r) => r,
                        StepM::Continue(m2) => match m2 {
                            MachineM::Inter {
                                items: i2,
                                seps: s2,
                                parked: p2,
                                on_item: o2,
                                cur: c2,
                                cur_fed: f2,
                                checkpoint: k2,
                                hist: h2,
                            } => inter_term_rounds(
                                g,
                                i2,
                                s2,
                                p2,
                                o2,
                                *c2,
                                f2,
                                k2,
                                h2,
                                (budget - 1) as nat,
                            ),
                            _ => arbitrary(),
                        },
                    }
                }
            },
        },
        _ => arbitrary(),
    }
}

/// Run a recognizer over the tokens from index `i`, stopping on the first
/// break, else terminating at the end: the plain driver's semantics.
pub open spec fn run_parse_m(g: GrammarM, m: MachineM, toks: Seq<TokenM>, i: nat) -> ResM
    decreases g, 5nat, toks.len() - i, 1nat,
{
    if i >= toks.len() {
        term_m(g, m)
    } else {
        match drive_m(g, m, toks[i as int]) {
            StepM::Continue(m2) => run_parse_m(g, m2, toks, i + 1),
            StepM::Break(r) => r,
        }
    }
}

/// Run a recognizer over the tokens from index `i`, requiring a success
/// recorded exactly at stream end with no backtrack: the exact driver's
/// semantics.
pub open spec fn run_exact_m(g: GrammarM, m: MachineM, toks: Seq<TokenM>, i: nat) -> Result<
    ValueM,
    TerminalErrorM,
>
    decreases g, 5nat, toks.len() - i, 0nat,
{
    if i >= toks.len() {
        match term_m(g, m) {
            ResM::Success(v, k) => if k == 0 {
                Result::Ok(v)
            } else {
                Result::Err(TerminalErrorM::NonTerminal)
            },
            ResM::Failure(e) => Result::Err(TerminalErrorM::Inner(Box::new(e))),
        }
    } else {
        match drive_m(g, m, toks[i as int]) {
            StepM::Continue(m2) => run_exact_m(g, m2, toks, i + 1),
            StepM::Break(ResM::Failure(e)) => Result::Err(TerminalErrorM::Inner(Box::new(e))),
            StepM::Break(ResM::Success(v, k)) => if i + 1 == toks.len() && k == 0 {
                Result::Ok(v)
            } else {
                Result::Err(TerminalErrorM::NonTerminal)
            },
        }
    }
}

/// What a full parse of the token sequence yields.
pub open spec fn parse_m(g: GrammarM, toks: Seq<TokenM>) -> ResM
    decreases g, 6nat, 0nat, 1nat,
{
    run_parse_m(g, init_m(g), toks, 0)
}

/// What an exact parse of the token sequence yields.
pub open spec fn exact_m(g: GrammarM, toks: Seq<TokenM>) -> Result<ValueM, TerminalErrorM>
    decreases g, 6nat, 0nat, 0nat,
{
    run_exact_m(g, init_m(g), toks, 0)
}

} // verus!
