use vstd::prelude::*;
use crate::token::TokenM;
use crate::value::ValueM;
use crate::error::ParseErrorM;
use crate::grammar::{GrammarM, ResM};
use crate::semantics::{
    alt_step_all, alt_term_all, branch_errs, branch_step, branch_term, branch_wf, branches_wf,
    drive_m, fed_of, init_branches, init_m, inter_stepup_m, inter_term_rounds, parse_m,
    rep_stepup_m, rep_term_rounds, resolve_scan, run_parse_m, seq_replay_m, term_m, wf, BranchM,
    MachineM, ResolveM, StepM,
};

verus! {

/// A well-formed branch list is well formed branch by branch.
pub proof fn lemma_branches_wf_elim(gs: Seq<GrammarM>, brs: Seq<BranchM>, fed: nat)
    requires
        branches_wf(gs, brs, fed),
    ensures
        brs.len() == gs.len(),
        forall|j: int| 0 <= j < gs.len() ==> #[trigger] branch_wf(gs[j], brs[j], fed),
    decreases brs,
{
    if brs.len() > 0 {
        lemma_branches_wf_elim(gs.drop_last(), brs.drop_last(), fed);
        assert forall|j: int| 0 <= j < gs.len() implies #[trigger] branch_wf(
            gs[j],
            brs[j],
            fed,
        ) by {
            if j < gs.len() - 1 {
                assert(gs.drop_last()[j] == gs[j]);
                assert(brs.drop_last()[j] == brs[j]);
            }
        }
    }
}

/// Branch-by-branch well-formedness makes the list well formed.
pub proof fn lemma_branches_wf_intro(gs: Seq<GrammarM>, brs: Seq<BranchM>, fed: nat)
    requires
        brs.len() == gs.len(),
        forall|j: int| 0 <= j < gs.len() ==> #[trigger] branch_wf(gs[j], brs[j], fed),
    ensures
        branches_wf(gs, brs, fed),
    decreases brs,
{
    if brs.len() > 0 {
        assert forall|j: int| 0 <= j < gs.len() - 1 implies #[trigger] branch_wf(
            gs.drop_last()[j],
            brs.drop_last()[j],
            fed,
        ) by {
            assert(gs.drop_last()[j] == gs[j]);
            assert(brs.drop_last()[j] == brs[j]);
            assert(branch_wf(gs[j], brs[j], fed));
        }
        lemma_branches_wf_intro(gs.drop_last(), brs.drop_last(), fed);
        assert(branch_wf(gs.last(), brs.last(), fed));
    }
}

} // verus!

verus! {

/// A freshly created state is well formed and has been fed nothing.
pub proof fn lemma_init_wf(g: GrammarM)
    ensures
        wf(g, init_m(g)),
        fed_of(init_m(g)) == 0,
    decreases g, 0nat, 0nat, 0nat,
{
    match g {
        GrammarM::Sequence(ga, _) => {
            lemma_init_wf(*ga);
        },
        GrammarM::Alternation(gs) => {
            lemma_init_branches(gs);
            lemma_branches_wf_intro(gs, init_branches(gs), 0);
        },
        GrammarM::Repetition(p) => {
            lemma_init_wf(*p);
        },
        GrammarM::Interleave(gi, _) => {
            lemma_init_wf(*gi);
        },
        GrammarM::Optional(p) => {
            lemma_init_wf(*p);
        },
        GrammarM::AndNot(ga, gb) => {
            lemma_init_wf(*ga);
            lemma_init_wf(*gb);
            assert(branch_wf(*ga, BranchM::Running(Box::new(init_m(*ga))), 0));
            assert(branch_wf(*gb, BranchM::Running(Box::new(init_m(*gb))), 0));
        },
        GrammarM::Tagged(_, p) => {
            lemma_init_wf(*p);
        },
        GrammarM::MinLength(_, p) => {
            lemma_init_wf(*p);
        },
        _ => {},
    }
}

/// Freshly created alternation branches are well formed at feed zero.
pub proof fn lemma_init_branches(gs: Seq<GrammarM>)
    ensures
        init_branches(gs).len() == gs.len(),
        forall|i: int| 0 <= i < gs.len() ==> branch_wf(
            gs[i],
            #[trigger] init_branches(gs)[i],
            0,
        ),
    decreases gs, 0nat, 0nat, 0nat,
{
    if gs.len() > 0 {
        lemma_init_branches(gs.drop_last());
        lemma_init_wf(gs.last());
        let brs = init_branches(gs);
        assert forall|i: int| 0 <= i < gs.len() implies branch_wf(
            gs[i],
            #[trigger] brs[i],
            0,
        ) by {
            if i < gs.len() - 1 {
                assert(gs.drop_last()[i] == gs[i]);
                assert(brs[i] == init_branches(gs.drop_last())[i]);
            }
        }
    }
}

/// Driving a well-formed state yields a well-formed successor that has
/// been fed one more token; a break's backtrack count never exceeds the
/// tokens fed, counting the token just driven.  This is the engine's
/// backtrack-soundness invariant.
pub proof fn lemma_drive_ok(g: GrammarM, m: MachineM, t: TokenM)
    requires
        wf(g, m),
    ensures
        drive_m(g, m, t) matches StepM::Continue(m2) ==> wf(g, m2) && fed_of(m2) == fed_of(m)
            + 1,
        drive_m(g, m, t) matches StepM::Break(ResM::Success(v, k)) ==> k <= fed_of(m) + 1,
    decreases g, 1nat, 0nat, 0nat,
{
    match g {
        GrammarM::Sequence(ga, gb) => match m {
            MachineM::SeqA { buf, a } => {
                lemma_drive_ok(*ga, *a, t);
                let buf1 = buf.push(t);
                match drive_m(*ga, *a, t) {
                    StepM::Break(ResM::Success(va, k)) => {
                        lemma_init_wf(*gb);
                        lemma_seq_replay_ok(g, va, buf1, init_m(*gb), 0, k);
                    },
                    _ => {},
                }
            },
            MachineM::SeqB { a_val, fed, b } => {
                lemma_drive_ok(*gb, *b, t);
            },
            _ => {},
        },
        GrammarM::Alternation(gs) => match m {
            MachineM::Alt { fed, branches } => {
                lemma_branches_wf_elim(gs, branches, fed);
                lemma_alt_step_all_ok(gs, branches, t, 0, fed);
                let brs2 = alt_step_all(gs, branches, t, 0);
                lemma_branches_wf_intro(gs, brs2, fed + 1);
                lemma_resolve_scan(brs2, 0);
                match resolve_scan(brs2, 0) {
                    ResolveM::Winner(i) => {
                        assert(branch_wf(gs[i as int], brs2[i as int], fed + 1));
                    },
                    _ => {},
                }
            },
            _ => {},
        },
        GrammarM::Repetition(p) => match m {
            MachineM::Rep { items, cur, cur_fed, hist } => {
                lemma_drive_ok(*p, *cur, t);
                let hist1 = hist.push(t);
                match drive_m(*p, *cur, t) {
                    StepM::Break(ResM::Success(v, bt)) => {
                        if bt <= cur_fed {
                            lemma_init_wf(*p);
                            lemma_rep_stepup_ok(g, items.push(v), init_m(*p), 0, hist1, bt, bt);
                        }
                    },
                    _ => {},
                }
            },
            _ => {},
        },
        GrammarM::Interleave(gi, gs) => match m {
            MachineM::Inter { items, seps, parked, on_item, cur, cur_fed, checkpoint, hist } => {
                lemma_drive_ok(if on_item { *gi } else { *gs }, *cur, t);
                let hist1 = hist.push(t);
                match drive_m(if on_item { *gi } else { *gs }, *cur, t) {
                    StepM::Break(ResM::Success(v, bt)) => {
                        if !((on_item && bt > cur_fed) || bt > cur_fed + 1) {
                            if on_item {
                                lemma_init_wf(*gs);
                                lemma_inter_stepup_ok(
                                    g,
                                    items.push(v),
                                    match parked {
                                        Option::Some(p0) => seps.push(*p0),
                                        Option::None => seps,
                                    },
                                    Option::None,
                                    false,
                                    init_m(*gs),
                                    0,
                                    hist1,
                                    bt,
                                    bt,
                                );
                            } else {
                                lemma_init_wf(*gi);
                                lemma_inter_stepup_ok(
                                    g,
                                    items,
                                    seps,
                                    Option::Some(Box::new(v)),
                                    true,
                                    init_m(*gi),
                                    0,
                                    hist1,
                                    checkpoint + 1,
                                    bt,
                                );
                            }
                        }
                    },
                    _ => {},
                }
            },
            _ => {},
        },
        GrammarM::Optional(p) => match m {
            MachineM::Opt { inner, fed } => {
                lemma_drive_ok(*p, *inner, t);
            },
            _ => {},
        },
        GrammarM::AndNot(ga, gb) => match m {
            MachineM::AndNot { val, not, fed } => {
                lemma_branch_step_ok(*ga, *val, t, fed);
                lemma_branch_step_ok(*gb, *not, t, fed);
            },
            _ => {},
        },
        GrammarM::Tagged(_, p) => match m {
            MachineM::Wrap { inner } => {
                lemma_drive_ok(*p, *inner, t);
            },
            _ => {},
        },
        GrammarM::MinLength(_, p) => match m {
            MachineM::Wrap { inner } => {
                lemma_drive_ok(*p, *inner, t);
            },
            _ => {},
        },
        _ => {},
    }
}

/// Stepping one branch preserves branch well-formedness at the next feed
/// count.
pub proof fn lemma_branch_step_ok(g: GrammarM, b: BranchM, t: TokenM, fed: nat)
    requires
        branch_wf(g, b, fed),
    ensures
        branch_wf(g, branch_step(g, b, t), fed + 1),
    decreases g, 2nat, 0nat, 0nat,
{
    match b {
        BranchM::Running(m) => {
            lemma_drive_ok(g, *m, t);
        },
        _ => {},
    }
}

/// Stepping all branches from index `i` preserves branch well-formedness
/// at the next feed count.
pub proof fn lemma_alt_step_all_ok(
    gs: Seq<GrammarM>,
    brs: Seq<BranchM>,
    t: TokenM,
    i: nat,
    fed: nat,
)
    requires
        brs.len() == gs.len(),
        forall|j: int| i <= j < gs.len() ==> #[trigger] branch_wf(gs[j], brs[j], fed),
        forall|j: int| 0 <= j < i ==> #[trigger] branch_wf(gs[j], brs[j], fed + 1),
    ensures
        alt_step_all(gs, brs, t, i).len() == gs.len(),
        forall|j: int| 0 <= j < gs.len() ==> #[trigger] branch_wf(
            gs[j],
            alt_step_all(gs, brs, t, i)[j],
            fed + 1,
        ),
    decreases gs, 2nat, gs.len() - i, 0nat,
{
    if i < gs.len() {
        lemma_branch_step_ok(gs[i as int], brs[i as int], t, fed);
        let brs1 = brs.update(i as int, branch_step(gs[i as int], brs[i as int], t));
        lemma_alt_step_all_ok(gs, brs1, t, i + 1, fed);
    }
}

/// What the branch scan reports: a winner is a success whose every lower
/// branch has failed; all-failed means exactly that; pending means some
/// branch below every success is still running.
pub proof fn lemma_resolve_scan(brs: Seq<BranchM>, i: nat)
    requires
        i <= brs.len(),
    ensures
        resolve_scan(brs, i) matches ResolveM::Winner(w) ==> {
            &&& i <= w < brs.len()
            &&& brs[w as int] matches BranchM::DoneOk(_, _)
            &&& forall|l: int| i <= l < w ==> (#[trigger] brs[l]) matches BranchM::DoneErr(_)
        },
        resolve_scan(brs, i) matches ResolveM::AllFailed ==> forall|l: int|
            i <= l < brs.len() ==> (#[trigger] brs[l]) matches BranchM::DoneErr(_),
        resolve_scan(brs, i) matches ResolveM::Pending ==> exists|l: int|
            {
                &&& i <= l < brs.len()
                &&& (#[trigger] brs[l]) matches BranchM::Running(_)
                &&& forall|j: int| i <= j < l ==> (#[trigger] brs[j]) matches BranchM::DoneErr(_)
            },
    decreases brs.len() - i,
{
    if i < brs.len() {
        match brs[i as int] {
            BranchM::DoneErr(_) => {
                lemma_resolve_scan(brs, i + 1);
            },
            BranchM::Running(_) => {
                let w = i as int;
                assert({
                    &&& i <= w < brs.len()
                    &&& brs[w] matches BranchM::Running(_)
                    &&& forall|j: int| i <= j < w ==> (#[trigger] brs[j]) matches BranchM::DoneErr(_)
                });
            },
            _ => {},
        }
    }
}

/// Replaying into the sequence's second part keeps the state well formed;
/// a break's backtrack count stays within the buffered tokens.
pub proof fn lemma_seq_replay_ok(
    g: GrammarM,
    a_val: ValueM,
    buf: Seq<TokenM>,
    b: MachineM,
    fed_b: nat,
    rl: nat,
)
    requires
        g matches GrammarM::Sequence(ga, gb) && wf(*gb, b),
        fed_of(b) == fed_b,
        rl <= buf.len() ==> fed_b + rl <= buf.len(),
    ensures
        seq_replay_m(g, a_val, buf, b, fed_b, rl) matches StepM::Continue(m2) ==> {
            &&& wf(g, m2)
            &&& fed_of(m2) == buf.len()
            &&& m2 matches MachineM::SeqB { .. }
        },
        seq_replay_m(g, a_val, buf, b, fed_b, rl) matches StepM::Break(ResM::Success(v, k))
            ==> k <= buf.len(),
    decreases g, 0nat, rl, 0nat,
{
    let gb = g->Sequence_1;
    if rl > buf.len() {
    } else if rl == 0 {
    } else {
        let tok = buf[buf.len() - rl];
        lemma_drive_ok(*gb, b, tok);
        match drive_m(*gb, b, tok) {
            StepM::Continue(b2) => {
                lemma_seq_replay_ok(g, a_val, buf, b2, fed_b + 1, (rl - 1) as nat);
            },
            StepM::Break(ResM::Success(vb, inc)) => {
                assert(inc <= fed_b + 1);
            },
            _ => {},
        }
    }
}

/// Replaying repetition attempts keeps the state well formed; the yielded
/// backtrack count stays within the history, and the replay never fails.
pub proof fn lemma_rep_stepup_ok(
    g: GrammarM,
    items: Seq<ValueM>,
    cur: MachineM,
    fed_c: nat,
    hist: Seq<TokenM>,
    checkpoint: nat,
    rl: nat,
)
    requires
        g matches GrammarM::Repetition(p) && wf(*p, cur),
        fed_of(cur) == fed_c,
        fed_c + rl <= hist.len(),
        checkpoint <= hist.len(),
    ensures
        rep_stepup_m(g, items, cur, fed_c, hist, checkpoint, rl) matches StepM::Continue(m2)
            ==> wf(g, m2) && fed_of(m2) == hist.len(),
        rep_stepup_m(g, items, cur, fed_c, hist, checkpoint, rl) matches StepM::Break(
            ResM::Success(v, k),
        ) ==> k <= hist.len(),
        !(rep_stepup_m(g, items, cur, fed_c, hist, checkpoint, rl) matches StepM::Break(
            ResM::Failure(_),
        )),
    decreases g, 0nat, rl + fed_c, rl,
{
    let p = g->Repetition_0;
    if rl > hist.len() {
    } else if rl == 0 {
    } else {
        let tok = hist[hist.len() - rl];
        lemma_drive_ok(*p, cur, tok);
        match drive_m(*p, cur, tok) {
            StepM::Continue(c) => {
                lemma_rep_stepup_ok(g, items, c, fed_c + 1, hist, checkpoint, (rl - 1) as nat);
            },
            StepM::Break(ResM::Success(v, bt)) => {
                if bt <= fed_c {
                    lemma_init_wf(*p);
                    lemma_rep_stepup_ok(
                        g,
                        items.push(v),
                        init_m(*p),
                        0,
                        hist,
                        (rl - 1 + bt) as nat,
                        (rl - 1 + bt) as nat,
                    );
                }
            },
            _ => {},
        }
    }
}

/// Replaying interleave attempts keeps the state well formed; the yielded
/// backtrack count stays within the history, and the replay never fails.
pub proof fn lemma_inter_stepup_ok(
    g: GrammarM,
    items: Seq<ValueM>,
    seps: Seq<ValueM>,
    parked: Option<Box<ValueM>>,
    on_item: bool,
    cur: MachineM,
    fed_c: nat,
    hist: Seq<TokenM>,
    checkpoint: nat,
    rl: nat,
)
    requires
        g matches GrammarM::Interleave(gi, gs) && wf(if on_item { *gi } else { *gs }, cur),
        fed_of(cur) == fed_c,
        fed_c + rl <= checkpoint,
        checkpoint <= hist.len(),
        on_item || parked is None,
    ensures
        inter_stepup_m(g, items, seps, parked, on_item, cur, fed_c, hist, checkpoint, rl)
            matches StepM::Continue(m2) ==> wf(g, m2) && fed_of(m2) == hist.len(),
        inter_stepup_m(g, items, seps, parked, on_item, cur, fed_c, hist, checkpoint, rl)
            matches StepM::Break(ResM::Success(v, k)) ==> k <= hist.len(),
        !(inter_stepup_m(g, items, seps, parked, on_item, cur, fed_c, hist, checkpoint, rl)
            matches StepM::Break(ResM::Failure(_))),
    decreases g, 0nat, 2 * (rl + fed_c) + (if on_item { 0int } else { 1int }), rl,
{
    let gi = g->Interleave_0;
    let gs = g->Interleave_1;
    if rl > hist.len() {
    } else if rl == 0 {
    } else {
        let tok = hist[hist.len() - rl];
        lemma_drive_ok(if on_item { *gi } else { *gs }, cur, tok);
        match drive_m(if on_item { *gi } else { *gs }, cur, tok) {
            StepM::Continue(c) => {
                lemma_inter_stepup_ok(
                    g,
                    items,
                    seps,
                    parked,
                    on_item,
                    c,
                    fed_c + 1,
                    hist,
                    checkpoint,
                    (rl - 1) as nat,
                );
            },
            StepM::Break(ResM::Success(v, bt)) => {
                if !((on_item && bt > fed_c) || bt > fed_c + 1) {
                    if on_item {
                        lemma_init_wf(*gs);
                        lemma_inter_stepup_ok(
                            g,
                            items.push(v),
                            match parked {
                                Option::Some(p0) => seps.push(*p0),
                                Option::None => seps,
                            },
                            Option::None,
                            false,
                            init_m(*gs),
                            0,
                            hist,
                            (rl - 1 + bt) as nat,
                            (rl - 1 + bt) as nat,
                        );
                    } else {
                        lemma_init_wf(*gi);
                        lemma_inter_stepup_ok(
                            g,
                            items,
                            seps,
                            Option::Some(Box::new(v)),
                            true,
                            init_m(*gi),
                            0,
                            hist,
                            checkpoint,
                            (rl - 1 + bt) as nat,
                        );
                    }
                }
            },
            _ => {},
        }
    }
}

} // verus!

verus! {

/// A branch that is no longer running, with any parked success within the
/// feed bound.
pub open spec fn branch_resolved(b: BranchM, fed: nat) -> bool {
    match b {
        BranchM::Running(_) => false,
        BranchM::DoneOk(_, k) => k <= fed,
        BranchM::DoneErr(_) => true,
    }
}

/// Terminating a well-formed state yields a backtrack count within the
/// tokens fed: backtrack soundness at stream end.
pub proof fn lemma_term_ok(g: GrammarM, m: MachineM)
    requires
        wf(g, m),
    ensures
        term_m(g, m) matches ResM::Success(v, k) ==> k <= fed_of(m),
    decreases g, 3nat, 0nat, 0nat,
{
    match g {
        GrammarM::Sequence(ga, gb) => match m {
            MachineM::SeqA { buf, a } => {
                lemma_term_ok(*ga, *a);
                match term_m(*ga, *a) {
                    ResM::Success(va, k) => {
                        lemma_init_wf(*gb);
                        lemma_seq_replay_ok(g, va, buf, init_m(*gb), 0, k);
                        match seq_replay_m(g, va, buf, init_m(*gb), 0, k) {
                            StepM::Continue(m2) => match m2 {
                                MachineM::SeqB { b, .. } => {
                                    lemma_term_ok(*gb, *b);
                                },
                                _ => {},
                            },
                            _ => {},
                        }
                    },
                    _ => {},
                }
            },
            MachineM::SeqB { b, .. } => {
                lemma_term_ok(*gb, *b);
            },
            _ => {},
        },
        GrammarM::Alternation(gs) => match m {
            MachineM::Alt { fed, branches } => {
                lemma_branches_wf_elim(gs, branches, fed);
                lemma_alt_term_all_ok(gs, branches, 0, fed);
                let brs2 = alt_term_all(gs, branches, 0);
                lemma_resolve_scan(brs2, 0);
                match resolve_scan(brs2, 0) {
                    ResolveM::Winner(i) => {
                        assert(branch_resolved(brs2[i as int], fed));
                    },
                    _ => {},
                }
            },
            _ => {},
        },
        GrammarM::Repetition(_) => match m {
            MachineM::Rep { items, cur, cur_fed, hist } => {
                lemma_rep_term_rounds_ok(g, items, *cur, cur_fed, hist, cur_fed);
                assert(fed_of(m) == hist.len());
            },
            _ => {},
        },
        GrammarM::Interleave(_, _) => match m {
            MachineM::Inter { items, seps, parked, on_item, cur, cur_fed, checkpoint, hist } => {
                lemma_inter_term_rounds_ok(
                    g,
                    items,
                    seps,
                    parked,
                    on_item,
                    *cur,
                    cur_fed,
                    checkpoint,
                    hist,
                    cur_fed,
                );
            },
            _ => {},
        },
        GrammarM::Optional(p) => match m {
            MachineM::Opt { inner, .. } => {
                lemma_term_ok(*p, *inner);
            },
            _ => {},
        },
        GrammarM::AndNot(ga, gb) => match m {
            MachineM::AndNot { val, not, fed } => {
                lemma_branch_term_ok(*ga, *val, fed);
                lemma_branch_term_ok(*gb, *not, fed);
            },
            _ => {},
        },
        GrammarM::Tagged(_, p) => match m {
            MachineM::Wrap { inner } => {
                lemma_term_ok(*p, *inner);
            },
            _ => {},
        },
        GrammarM::MinLength(_, p) => match m {
            MachineM::Wrap { inner } => {
                lemma_term_ok(*p, *inner);
            },
            _ => {},
        },
        _ => {},
    }
}

/// Terminating one branch yields a count within the feed bound.
pub proof fn lemma_branch_term_ok(g: GrammarM, b: BranchM, fed: nat)
    requires
        branch_wf(g, b, fed),
    ensures
        branch_term(g, b) matches ResM::Success(v, k) ==> k <= fed,
    decreases g, 4nat, 0nat, 0nat,
{
    match b {
        BranchM::Running(m) => {
            lemma_term_ok(g, *m);
        },
        _ => {},
    }
}

/// Terminating all branches from index `i` resolves every branch, keeping
/// parked counts within the feed bound.
pub proof fn lemma_alt_term_all_ok(gs: Seq<GrammarM>, brs: Seq<BranchM>, i: nat, fed: nat)
    requires
        brs.len() == gs.len(),
        forall|j: int| i <= j < gs.len() ==> #[trigger] branch_wf(gs[j], brs[j], fed),
        forall|j: int| 0 <= j < i ==> branch_resolved(#[trigger] brs[j], fed),
    ensures
        alt_term_all(gs, brs, i).len() == gs.len(),
        forall|j: int| 0 <= j < gs.len() ==> branch_resolved(
            #[trigger] alt_term_all(gs, brs, i)[j],
            fed,
        ),
    decreases gs, 2nat, 1nat, gs.len() - i,
{
    if i < gs.len() {
        lemma_branch_term_ok(gs[i as int], brs[i as int], fed);
        let nb = match branch_term(gs[i as int], brs[i as int]) {
            ResM::Success(v, k) => BranchM::DoneOk(Box::new(v), k),
            ResM::Failure(e) => BranchM::DoneErr(Box::new(e)),
        };
        let brs1 = brs.update(i as int, nb);
        lemma_alt_term_all_ok(gs, brs1, i + 1, fed);
    }
}

/// The repetition's termination rounds yield a count within the history
/// and never fail.
pub proof fn lemma_rep_term_rounds_ok(
    g: GrammarM,
    items: Seq<ValueM>,
    cur: MachineM,
    fed_c: nat,
    hist: Seq<TokenM>,
    budget: nat,
)
    requires
        g matches GrammarM::Repetition(p) && wf(*p, cur),
        fed_of(cur) == fed_c,
        fed_c <= hist.len(),
    ensures
        rep_term_rounds(g, items, cur, fed_c, hist, budget) matches ResM::Success(v, k) ==> k
            <= hist.len(),
        !(rep_term_rounds(g, items, cur, fed_c, hist, budget) matches ResM::Failure(_)),
    decreases g, 2nat, 0nat, budget,
{
    let p = g->Repetition_0;
    lemma_term_ok(*p, cur);
    match term_m(*p, cur) {
        ResM::Success(v, bt) => {
            if bt < fed_c && budget > 0 {
                lemma_init_wf(*p);
                lemma_rep_stepup_ok(g, items.push(v), init_m(*p), 0, hist, bt, bt);
                match rep_stepup_m(g, items.push(v), init_m(*p), 0, hist, bt, bt) {
                    StepM::Continue(m2) => match m2 {
                        MachineM::Rep { items: i2, cur: c2, cur_fed: f2, hist: h2 } => {
                            lemma_rep_term_rounds_ok(g, i2, *c2, f2, h2, (budget - 1) as nat);
                        },
                        _ => {},
                    },
                    _ => {},
                }
            }
        },
        _ => {},
    }
}

/// The interleave's termination rounds yield a count within the history
/// and never fail.
pub proof fn lemma_inter_term_rounds_ok(
    g: GrammarM,
    items: Seq<ValueM>,
    seps: Seq<ValueM>,
    parked: Option<Box<ValueM>>,
    on_item: bool,
    cur: MachineM,
    fed_c: nat,
    checkpoint: nat,
    hist: Seq<TokenM>,
    budget: nat,
)
    requires
        g matches GrammarM::Interleave(gi, gs) && wf(if on_item { *gi } else { *gs }, cur),
        fed_of(cur) == fed_c,
        fed_c <= checkpoint,
        checkpoint <= hist.len(),
        on_item || parked is None,
    ensures
        inter_term_rounds(g, items, seps, parked, on_item, cur, fed_c, checkpoint, hist, budget)
            matches ResM::Success(v, k) ==> k <= hist.len(),
        !(inter_term_rounds(g, items, seps, parked, on_item, cur, fed_c, checkpoint, hist, budget)
            matches ResM::Failure(_)),
    decreases g, 2nat, 0nat, budget,
{
    let gi = g->Interleave_0;
    let gs = g->Interleave_1;
    lemma_term_ok(if on_item { *gi } else { *gs }, cur);
    match term_m(if on_item { *gi } else { *gs }, cur) {
        ResM::Success(v, bt) => {
            if bt < fed_c && budget > 0 {
                let stepped = if on_item {
                    lemma_init_wf(*gs);
                    lemma_inter_stepup_ok(
                        g,
                        items.push(v),
                        match parked {
                            Option::Some(p0) => seps.push(*p0),
                            Option::None => seps,
                        },
                        Option::None,
                        false,
                        init_m(*gs),
                        0,
                        hist,
                        bt,
                        bt,
                    );
                    inter_stepup_m(
                        g,
                        items.push(v),
                        match parked {
                            Option::Some(p0) => seps.push(*p0),
                            Option::None => seps,
                        },
                        Option::None,
                        false,
                        init_m(*gs),
                        0,
                        hist,
                        bt,
                        bt,
                    )
                } else {
                    lemma_init_wf(*gi);
                    lemma_inter_stepup_ok(
                        g,
                        items,
                        seps,
                        Option::Some(Box::new(v)),
                        true,
                        init_m(*gi),
                        0,
                        hist,
                        checkpoint,
                        bt,
                    );
                    inter_stepup_m(
                        g,
                        items,
                        seps,
                        Option::Some(Box::new(v)),
                        true,
                        init_m(*gi),
                        0,
                        hist,
                        checkpoint,
                        bt,
                    )
                };
                match stepped {
                    StepM::Continue(m2) => match m2 {
                        MachineM::Inter {
                            items: i2,
                            seps: s2,
                            parked: p2,
                            on_item: o2,
                            cur: c2,
                            cur_fed: f2,
                            checkpoint: k2,
                            hist: h2,
                        } => {
                            lemma_inter_term_rounds_ok(
                                g,
                                i2,
                                s2,
                                p2,
                                o2,
                                *c2,
                                f2,
                                k2,
                                h2,
                                (budget - 1) as nat,
                            );
                        },
                        _ => {},
                    },
                    _ => {},
                }
            }
        },
        _ => {},
    }
}

} // verus!

verus! {

/// `alt_step_all` steps exactly the branches from index `i` on, pointwise.
pub proof fn lemma_alt_step_all_index(gs: Seq<GrammarM>, brs: Seq<BranchM>, t: TokenM, i: nat)
    requires
        brs.len() == gs.len(),
        i <= gs.len(),
    ensures
        alt_step_all(gs, brs, t, i).len() == gs.len(),
        forall|j: int| 0 <= j < i ==> #[trigger] alt_step_all(gs, brs, t, i)[j] == brs[j],
        forall|j: int| i <= j < gs.len() ==> #[trigger] alt_step_all(gs, brs, t, i)[j]
            == branch_step(gs[j], brs[j], t),
    decreases gs.len() - i,
{
    if i < gs.len() {
        let brs1 = brs.update(i as int, branch_step(gs[i as int], brs[i as int], t));
        lemma_alt_step_all_index(gs, brs1, t, i + 1);
    }
}

/// `alt_term_all` terminates exactly the branches from index `i` on,
/// pointwise.
pub proof fn lemma_alt_term_all_index(gs: Seq<GrammarM>, brs: Seq<BranchM>, i: nat)
    requires
        brs.len() == gs.len(),
        i <= gs.len(),
    ensures
        alt_term_all(gs, brs, i).len() == gs.len(),
        forall|j: int| 0 <= j < i ==> #[trigger] alt_term_all(gs, brs, i)[j] == brs[j],
        forall|j: int| i <= j < gs.len() ==> #[trigger] alt_term_all(gs, brs, i)[j] == (
        match branch_term(gs[j], brs[j]) {
            ResM::Success(v, k) => BranchM::DoneOk(Box::new(v), k),
            ResM::Failure(e) => BranchM::DoneErr(Box::new(e)),
        }),
    decreases gs.len() - i,
{
    if i < gs.len() {
        let nb = match branch_term(gs[i as int], brs[i as int]) {
            ResM::Success(v, k) => BranchM::DoneOk(Box::new(v), k),
            ResM::Failure(e) => BranchM::DoneErr(Box::new(e)),
        };
        let brs1 = brs.update(i as int, nb);
        lemma_alt_term_all_index(gs, brs1, i + 1);
    }
}

/// `branch_errs` collects the error of each failed branch, pointwise.
pub proof fn lemma_branch_errs_index(brs: Seq<BranchM>)
    ensures
        branch_errs(brs).len() == brs.len(),
        forall|j: int| 0 <= j < brs.len() ==> (brs[j] matches BranchM::DoneErr(e) ==>
            #[trigger] branch_errs(brs)[j] == *e),
    decreases brs,
{
    if brs.len() > 0 {
        lemma_branch_errs_index(brs.drop_last());
    }
}

} // verus!

verus! {

/// Determinism: the result of a parse is a function of the grammar and
/// the token sequence alone, so identical input and grammar always yield
/// an identical output or error.  The executable `parse` ensures its
/// result equals `parse_m`, so two runs on equal inputs agree.
pub proof fn lemma_parse_deterministic(g: GrammarM, toks: Seq<TokenM>, r1: ResM, r2: ResM)
    requires
        r1 == parse_m(g, toks),
        r2 == parse_m(g, toks),
    ensures
        r1 == r2,
{
}

/// Backtrack soundness along a whole run: continuing a well-formed state
/// that has been fed `i` tokens never yields a backtrack count beyond the
/// stream's length.
pub proof fn lemma_run_parse_backtrack(g: GrammarM, m: MachineM, toks: Seq<TokenM>, i: nat)
    requires
        wf(g, m),
        fed_of(m) == i,
        i <= toks.len(),
    ensures
        run_parse_m(g, m, toks, i) matches ResM::Success(v, k) ==> k <= toks.len(),
    decreases toks.len() - i,
{
    if i >= toks.len() {
        lemma_term_ok(g, m);
    } else {
        lemma_drive_ok(g, m, toks[i as int]);
        match drive_m(g, m, toks[i as int]) {
            StepM::Continue(m2) => {
                lemma_run_parse_backtrack(g, m2, toks, i + 1);
            },
            _ => {},
        }
    }
}

/// Backtrack soundness at the top level: a successful parse never reports
/// more unconsumed tokens than the stream holds.
pub proof fn lemma_parse_backtrack(g: GrammarM, toks: Seq<TokenM>)
    ensures
        parse_m(g, toks) matches ResM::Success(v, k) ==> k <= toks.len(),
{
    lemma_init_wf(g);
    lemma_run_parse_backtrack(g, init_m(g), toks, 0);
}

/// Alternation priority: when driving an alternation breaks with a
/// success, the winner is the branch of that index among the stepped
/// branches, and every lower-indexed branch has already failed; at stream
/// end, terminating the alternation applies the identical rule to the
/// terminated branches.
pub proof fn lemma_alternation_priority(gs: Seq<GrammarM>, m: MachineM, t: TokenM)
    requires
        wf(GrammarM::Alternation(gs), m),
    ensures
        drive_m(GrammarM::Alternation(gs), m, t) matches StepM::Break(ResM::Success(v, k))
            ==> {
            let brs2 = alt_step_all(gs, m->Alt_branches, t, 0);
            &&& v matches ValueM::Branch(i, _)
            &&& v->Branch_0 < gs.len()
            &&& brs2[v->Branch_0 as int] matches BranchM::DoneOk(_, _)
            &&& forall|j: int|
                0 <= j < v->Branch_0 ==> (#[trigger] brs2[j]) matches BranchM::DoneErr(_)
        },
        term_m(GrammarM::Alternation(gs), m) matches ResM::Success(v, k) ==> {
            let brs2 = alt_term_all(gs, m->Alt_branches, 0);
            &&& v matches ValueM::Branch(i, _)
            &&& v->Branch_0 < gs.len()
            &&& brs2[v->Branch_0 as int] matches BranchM::DoneOk(_, _)
            &&& forall|j: int|
                0 <= j < v->Branch_0 ==> (#[trigger] brs2[j]) matches BranchM::DoneErr(_)
        },
    decreases gs.len(),
{
    match m {
        MachineM::Alt { fed, branches } => {
            lemma_branches_wf_elim(gs, branches, fed);
            lemma_alt_step_all_ok(gs, branches, t, 0, fed);
            let brs2 = alt_step_all(gs, branches, t, 0);
            lemma_resolve_scan(brs2, 0);
            lemma_alt_term_all_ok(gs, branches, 0, fed);
            let brs3 = alt_term_all(gs, branches, 0);
            lemma_resolve_scan(brs3, 0);
        },
        _ => {},
    }
}

/// Alternation error-size linearity at one step: when driving an
/// alternation fails, the aggregated error holds exactly one entry per
/// branch, in declaration order.
pub proof fn lemma_alternation_error_linear(gs: Seq<GrammarM>, m: MachineM, t: TokenM)
    requires
        wf(GrammarM::Alternation(gs), m),
    ensures
        drive_m(GrammarM::Alternation(gs), m, t) matches StepM::Break(ResM::Failure(e)) ==> {
            &&& e matches ParseErrorM::Alternation(es)
            &&& e->Alternation_0.len() == gs.len()
        },
        term_m(GrammarM::Alternation(gs), m) matches ResM::Failure(e) ==> {
            &&& e matches ParseErrorM::Alternation(es)
            &&& e->Alternation_0.len() == gs.len()
        },
{
    match m {
        MachineM::Alt { fed, branches } => {
            lemma_branches_wf_elim(gs, branches, fed);
            let brs2 = alt_step_all(gs, branches, t, 0);
            lemma_alt_step_all_index(gs, branches, t, 0);
            lemma_branch_errs_index(brs2);
            let brs3 = alt_term_all(gs, branches, 0);
            lemma_alt_term_all_index(gs, branches, 0);
            lemma_branch_errs_index(brs3);
        },
        _ => {},
    }
}

/// Repetition totality at one step: driving or terminating a well-formed
/// repetition never fails.
pub proof fn lemma_repetition_step_total(p: GrammarM, m: MachineM, t: TokenM)
    requires
        wf(GrammarM::Repetition(Box::new(p)), m),
    ensures
        !(drive_m(GrammarM::Repetition(Box::new(p)), m, t) matches StepM::Break(ResM::Failure(
            _,
        ))),
        !(term_m(GrammarM::Repetition(Box::new(p)), m) matches ResM::Failure(_)),
{
    let g = GrammarM::Repetition(Box::new(p));
    match m {
        MachineM::Rep { items, cur, cur_fed, hist } => {
            lemma_drive_ok(p, *cur, t);
            let hist1 = hist.push(t);
            match drive_m(p, *cur, t) {
                StepM::Break(ResM::Success(v, bt)) => {
                    if bt <= cur_fed {
                        lemma_init_wf(p);
                        lemma_rep_stepup_ok(g, items.push(v), init_m(p), 0, hist1, bt, bt);
                    }
                },
                _ => {},
            }
            lemma_rep_term_rounds_ok(g, items, *cur, cur_fed, hist, cur_fed);
        },
        _ => {},
    }
}

/// Repetition totality along a whole run: continuing a well-formed
/// repetition state succeeds on every remaining input.
pub proof fn lemma_run_repetition_total(p: GrammarM, m: MachineM, toks: Seq<TokenM>, i: nat)
    requires
        wf(GrammarM::Repetition(Box::new(p)), m),
        i <= toks.len(),
    ensures
        run_parse_m(GrammarM::Repetition(Box::new(p)), m, toks, i) matches ResM::Success(_, _),
    decreases toks.len() - i,
{
    let g = GrammarM::Repetition(Box::new(p));
    lemma_repetition_step_total(p, m, toks[i as int]);
    if i >= toks.len() {
    } else {
        lemma_drive_ok(g, m, toks[i as int]);
        match drive_m(g, m, toks[i as int]) {
            StepM::Continue(m2) => {
                lemma_run_repetition_total(p, m2, toks, i + 1);
            },
            _ => {},
        }
    }
}

/// Repetition totality: a repetition parses every token sequence, the
/// empty one included, possibly with zero collected items.
pub proof fn lemma_repetition_total(p: GrammarM, toks: Seq<TokenM>)
    ensures
        parse_m(GrammarM::Repetition(Box::new(p)), toks) matches ResM::Success(_, _),
{
    let g = GrammarM::Repetition(Box::new(p));
    lemma_init_wf(g);
    lemma_run_repetition_total(p, init_m(g), toks, 0);
}

/// The optional round trip, first half: where the wrapped recognizer's
/// own parse succeeds, the optional parse yields its value wrapped in
/// `Some`, with the same backtrack count.
pub proof fn lemma_run_optional_some(p: GrammarM, m: MachineM, fed: nat, toks: Seq<TokenM>, i: nat)
    requires
        wf(p, m),
        fed_of(m) == fed,
        i <= toks.len(),
    ensures
        run_parse_m(p, m, toks, i) matches ResM::Success(v, k) ==> run_parse_m(
            GrammarM::Optional(Box::new(p)),
            MachineM::Opt { inner: Box::new(m), fed },
            toks,
            i,
        ) == ResM::Success(ValueM::Maybe(Option::Some(Box::new(v))), k),
    decreases toks.len() - i,
{
    if i >= toks.len() {
    } else {
        lemma_drive_ok(p, m, toks[i as int]);
        match drive_m(p, m, toks[i as int]) {
            StepM::Continue(m2) => {
                lemma_run_optional_some(p, m2, fed + 1, toks, i + 1);
            },
            _ => {},
        }
    }
}

/// The optional round trip over matching input: if `p` parses the tokens
/// with result `(v, k)`, the optional recognizer parses them with result
/// `(Some(v), k)`.
pub proof fn lemma_optional_some(p: GrammarM, toks: Seq<TokenM>)
    ensures
        parse_m(p, toks) matches ResM::Success(v, k) ==> parse_m(
            GrammarM::Optional(Box::new(p)),
            toks,
        ) == ResM::Success(ValueM::Maybe(Option::Some(Box::new(v))), k),
{
    lemma_init_wf(p);
    lemma_run_optional_some(p, init_m(p), 0, toks, 0);
}

/// The optional recognizer never fails: on non-matching input it yields
/// `None` with every token fed to it as the backtrack count.
pub proof fn lemma_run_optional_total(p: GrammarM, m: MachineM, fed: nat, toks: Seq<TokenM>, i: nat)
    requires
        wf(p, m),
        fed_of(m) == fed,
        i <= toks.len(),
    ensures
        run_parse_m(
            GrammarM::Optional(Box::new(p)),
            MachineM::Opt { inner: Box::new(m), fed },
            toks,
            i,
        ) matches ResM::Success(_, _),
    decreases toks.len() - i,
{
    if i >= toks.len() {
    } else {
        lemma_drive_ok(p, m, toks[i as int]);
        match drive_m(p, m, toks[i as int]) {
            StepM::Continue(m2) => {
                lemma_run_optional_total(p, m2, fed + 1, toks, i + 1);
            },
            _ => {},
        }
    }
}

/// Optional totality: an optional recognizer parses every token sequence;
/// in particular the empty one yields `(None, 0)` where `p` itself does
/// not match emptiness.
pub proof fn lemma_optional_total(p: GrammarM, toks: Seq<TokenM>)
    ensures
        parse_m(GrammarM::Optional(Box::new(p)), toks) matches ResM::Success(_, _),
        (toks.len() == 0 && term_m(p, init_m(p)) matches ResM::Failure(_)) ==> parse_m(
            GrammarM::Optional(Box::new(p)),
            toks,
        ) == ResM::Success(ValueM::Maybe(Option::None), 0),
{
    lemma_init_wf(p);
    lemma_run_optional_total(p, init_m(p), 0, toks, 0);
}

/// Mapping transparency: a tagged wrapper transforms the output after its
/// inner recognizer breaks, without altering timing or backtrack counts,
/// and passes errors through unchanged.
pub proof fn lemma_mapping_transparent(tag: u64, p: GrammarM, m: MachineM, t: TokenM)
    ensures
        drive_m(p, m, t) matches StepM::Continue(m2) ==> drive_m(
            GrammarM::Tagged(tag, Box::new(p)),
            MachineM::Wrap { inner: Box::new(m) },
            t,
        ) == StepM::Continue(MachineM::Wrap { inner: Box::new(m2) }),
        drive_m(p, m, t) matches StepM::Break(ResM::Success(v, k)) ==> drive_m(
            GrammarM::Tagged(tag, Box::new(p)),
            MachineM::Wrap { inner: Box::new(m) },
            t,
        ) == StepM::Break(ResM::Success(ValueM::Tagged(tag, Box::new(v)), k)),
        drive_m(p, m, t) matches StepM::Break(ResM::Failure(e)) ==> drive_m(
            GrammarM::Tagged(tag, Box::new(p)),
            MachineM::Wrap { inner: Box::new(m) },
            t,
        ) == StepM::Break(ResM::Failure(e)),
{
}

} // verus!
