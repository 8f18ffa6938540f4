//! How frames and nodes run one after another and side by side.
use crate::branch::{both, no_output, BranchView, FrameView, OutputView};
use crate::context::ContextView;
use crate::execute::{frame_run, frames_run, node_run, parallel_run, with_rest, EnvView, RanView};
use crate::run_laws::{law_run_keeps_context, lemma_frame};
use vstd::prelude::*;

verus! {

/// An output without anything in it.
pub open spec fn is_nothing(o: OutputView) -> bool {
    &&& o.branches.len() == 0
    &&& o.intents.len() == 0
    &&& o.signals.len() == 0
    &&& o.effect_requests.len() == 0
    &&& o.effect_resolved.len() == 0
    &&& o.effects.len() == 0
}

/// What an output hands to the game is that of a first one and then that of a second one.
pub open spec fn hands_out_both(o: OutputView, first: OutputView, second: OutputView) -> bool {
    &&& o.intents == first.intents + second.intents
    &&& o.signals == first.signals + second.signals
    &&& o.effect_requests == first.effect_requests + second.effect_requests
    &&& o.effect_resolved == first.effect_resolved + second.effect_resolved
    &&& o.effects == first.effects + second.effects
}

/// A branch waits as another does, in the same context, with more frames behind its own.
pub open spec fn has_more_to_do(b: BranchView, before: BranchView, more: Seq<FrameView>) -> bool {
    &&& b.wait == before.wait
    &&& b.ctx == before.ctx
    &&& b.continuation == before.continuation + more
}

/// Frames run from nothing.
pub open spec fn run_of(frames: Seq<FrameView>, ctx: ContextView, env: EnvView) -> RanView {
    frames_run(frames, 0, no_output(), ctx, env)
}

proof fn lemma_both(a: OutputView, b: OutputView, c: OutputView)
    ensures
        both(both(a, b), c) == both(a, both(b, c)),
        both(no_output(), b) == b,
        both(a, no_output()) == a,
{
    assert(both(both(a, b), c) =~= both(a, both(b, c)));
    assert(both(no_output(), b) =~= b);
    assert(both(a, no_output()) =~= a);
}

#[verifier::spinoff_prover]
#[verifier::rlimit(80)]
proof fn lemma_gathered(
    frames: Seq<FrameView>,
    k: int,
    so_far: OutputView,
    ctx: ContextView,
    env: EnvView,
)
    ensures
        ({
            let x = frames_run(frames, k, so_far, ctx, env);
            let y = frames_run(frames, k, no_output(), ctx, env);
            x.ctx == y.ctx && match y.out {
                Ok(o) => x.out == Ok::<OutputView, crate::error::ErrorView>(both(so_far, o)),
                Err(e) => x.out == Err::<OutputView, crate::error::ErrorView>(e),
            }
        }),
    decreases ctx.step_budget_remaining, (frames.len() - k + 2) as nat,
{
    lemma_both(so_far, no_output(), no_output());
    if 0 <= k < frames.len() {
        let ran = frame_run(frames[k], ctx, env);
        lemma_frame(frames[k], ctx, env);
        match ran.out {
            Ok(o) => {
                lemma_both(so_far, o, no_output());
                if o.branches.len() == 0 {
                    lemma_gathered(frames, k + 1, both(so_far, o), ran.ctx, env);
                    lemma_gathered(frames, k + 1, both(no_output(), o), ran.ctx, env);
                    match frames_run(frames, k + 1, no_output(), ran.ctx, env).out {
                        Ok(r) => {
                            lemma_both(so_far, o, r);
                        },
                        Err(_) => {},
                    }
                } else {
                    let rest = frames.subrange(k + 1, frames.len() as int);
                    lemma_both(so_far, with_rest(o, rest), no_output());
                }
            },
            Err(_) => {},
        }
    }
}

#[verifier::spinoff_prover]
#[verifier::rlimit(80)]
proof fn lemma_behind(a: Seq<FrameView>, b: Seq<FrameView>, k: int, ctx: ContextView, env: EnvView)
    requires
        0 <= k,
    ensures
        frames_run(a + b, a.len() + k, no_output(), ctx, env) == frames_run(
            b,
            k,
            no_output(),
            ctx,
            env,
        ),
    decreases ctx.step_budget_remaining, (b.len() - k + 2) as nat,
{
    let w = a + b;
    if k < b.len() {
        assert(w[a.len() + k] == b[k]);
        let ran = frame_run(b[k], ctx, env);
        lemma_frame(b[k], ctx, env);
        match ran.out {
            Ok(o) => {
                if o.branches.len() == 0 {
                    lemma_behind(a, b, k + 1, ran.ctx, env);
                    lemma_gathered(w, a.len() + k + 1, both(no_output(), o), ran.ctx, env);
                    lemma_gathered(b, k + 1, both(no_output(), o), ran.ctx, env);
                } else {
                    assert(w.subrange(a.len() + k + 1, w.len() as int) =~= b.subrange(
                        k + 1,
                        b.len() as int,
                    ));
                }
            },
            Err(_) => {},
        }
    }
}

/// Frames `a`, from the `k`-th on, and then frames `b`.
spec fn composed(
    w: RanView,
    x: RanView,
    b: Seq<FrameView>,
    env: EnvView,
) -> bool {
    match x.out {
        Err(e) => w == x,
        Ok(o) => if o.branches.len() > 0 {
            &&& w.ctx == x.ctx
            &&& w.out == Ok::<OutputView, crate::error::ErrorView>(with_rest(o, b))
        } else {
            let y = run_of(b, x.ctx, env);
            &&& w.ctx == y.ctx
            &&& match y.out {
                Ok(p) => w.out == Ok::<OutputView, crate::error::ErrorView>(both(o, p)),
                Err(e) => w.out == Err::<OutputView, crate::error::ErrorView>(e),
            }
        },
    }
}

#[verifier::spinoff_prover]
#[verifier::rlimit(80)]
proof fn lemma_composed(
    a: Seq<FrameView>,
    b: Seq<FrameView>,
    k: int,
    ctx: ContextView,
    env: EnvView,
)
    requires
        0 <= k <= a.len(),
    ensures
        composed(
            frames_run(a + b, k, no_output(), ctx, env),
            frames_run(a, k, no_output(), ctx, env),
            b,
            env,
        ),
    decreases ctx.step_budget_remaining, (a.len() - k + 2) as nat,
{
    let w = a + b;
    if k < a.len() {
        assert(w[k] == a[k]);
        let ran = frame_run(a[k], ctx, env);
        lemma_frame(a[k], ctx, env);
        match ran.out {
            Ok(o) => {
                lemma_both(no_output(), o, no_output());
                if o.branches.len() == 0 {
                    lemma_composed(a, b, k + 1, ran.ctx, env);
                    lemma_gathered(w, k + 1, both(no_output(), o), ran.ctx, env);
                    lemma_gathered(a, k + 1, both(no_output(), o), ran.ctx, env);
                    let x = frames_run(a, k + 1, no_output(), ran.ctx, env);
                    match x.out {
                        Ok(p) => {
                            if p.branches.len() > 0 {
                                assert(both(o, with_rest(p, b)) =~= with_rest(both(o, p), b));
                            } else {
                                match run_of(b, x.ctx, env).out {
                                    Ok(r) => {
                                        lemma_both(o, p, r);
                                    },
                                    Err(_) => {},
                                }
                            }
                        },
                        Err(_) => {},
                    }
                } else {
                    let own = a.subrange(k + 1, a.len() as int);
                    let rest = w.subrange(k + 1, w.len() as int);
                    assert(rest =~= own + b);
                    lemma_both(no_output(), with_rest(o, own), no_output());
                    lemma_both(no_output(), with_rest(o, rest), no_output());
                    assert forall|i: int| 0 <= i < o.branches.len() implies (
                    #[trigger] o.branches[i]).continuation + rest == (o.branches[i].continuation
                        + own) + b by {
                        assert(o.branches[i].continuation + rest =~= (o.branches[i].continuation
                            + own) + b);
                    }
                    assert(with_rest(o, rest) =~= with_rest(with_rest(o, own), b));
                }
            },
            Err(_) => {},
        }
    } else {
        lemma_behind(a, b, 0, ctx, env);
        match run_of(b, ctx, env).out {
            Ok(p) => {
                lemma_both(no_output(), p, no_output());
            },
            Err(_) => {},
        }
    }
}

/// The law of order: to run some frames and then others is to run the first; if they fail, that is
/// all; if they come to their end, the others run in the context that they leave, and what is handed
/// out comes behind; and if they are suspended, each of their branches has all the others still to do
/// behind its own frames.
pub proof fn law_frames_run_in_order(
    a: Seq<FrameView>,
    b: Seq<FrameView>,
    ctx: ContextView,
    env: EnvView,
)
    ensures
        ({
            let x = run_of(a, ctx, env);
            let y = run_of(b, x.ctx, env);
            let w = run_of(a + b, ctx, env);
            match x.out {
                Err(_) => w == x,
                Ok(o) => if o.branches.len() > 0 {
                    &&& w.ctx == x.ctx
                    &&& w.out matches Ok(q)
                    &&& q.branches.len() == o.branches.len()
                    &&& forall|i: int|
                        0 <= i < o.branches.len() ==> has_more_to_do(
                            #[trigger] q.branches[i],
                            o.branches[i],
                            b,
                        )
                    &&& q.intents == o.intents && q.signals == o.signals && q.effect_requests
                        == o.effect_requests && q.effect_resolved == o.effect_resolved && q.effects
                        == o.effects
                } else {
                    &&& w.ctx == y.ctx
                    &&& match y.out {
                        Err(e) => w.out == Err::<OutputView, crate::error::ErrorView>(e),
                        Ok(p) => w.out matches Ok(q) && q.branches == p.branches
                            && hands_out_both(q, o, p),
                    }
                },
            }
        }),
{
    lemma_composed(a, b, 0, ctx, env);
    let x = run_of(a, ctx, env);
    match x.out {
        Ok(o) => {
            if o.branches.len() == 0 {
                match run_of(b, x.ctx, env).out {
                    Ok(p) => {
                        assert(o.branches + p.branches =~= p.branches);
                    },
                    Err(_) => {},
                }
            }
        },
        Err(_) => {},
    }
}

/// The law of order: no frames do nothing.
pub proof fn law_no_frames_do_nothing(ctx: ContextView, env: EnvView)
    ensures
        run_of(Seq::empty(), ctx, env).ctx == ctx,
        run_of(Seq::empty(), ctx, env).out matches Ok(o) && is_nothing(o),
{
}

/// The law of order: a frame of a node runs the node, once.
#[verifier::spinoff_prover]
#[verifier::rlimit(80)]
pub proof fn law_one_frame_runs_its_node(node: u64, ctx: ContextView, env: EnvView)
    ensures
        run_of(seq![FrameView::Node(node)], ctx, env) == node_run(node, ctx, env),
{
    let f = seq![FrameView::Node(node)];
    let ran = node_run(node, ctx, env);
    law_run_keeps_context(node, ctx, env);
    assert(f[0] == FrameView::Node(node));
    assert(frame_run(f[0], ctx, env) == ran);
    let rest = f.subrange(0int + 1, f.len() as int);
    assert(rest =~= Seq::empty());
    match ran.out {
        Ok(o) => {
            lemma_both(no_output(), o, no_output());
            if o.branches.len() == 0 {
                assert(frames_run(f, 1, both(no_output(), o), ran.ctx, env)
                    == crate::execute::done(both(no_output(), o), ran.ctx));
                assert(frames_run(f, 0, no_output(), ctx, env) == frames_run(
                    f,
                    1,
                    both(no_output(), o),
                    ran.ctx,
                    env,
                ));
            } else {
                assert forall|i: int| 0 <= i < o.branches.len() implies (
                #[trigger] o.branches[i]).continuation + rest == o.branches[i].continuation by {
                    assert(o.branches[i].continuation + rest =~= o.branches[i].continuation);
                }
                assert(with_rest(o, rest).branches =~= o.branches);
                assert(with_rest(o, rest) == o);
                assert(frames_run(f, 0, no_output(), ctx, env) == crate::execute::done(
                    both(no_output(), with_rest(o, rest)),
                    ran.ctx,
                ));
            }
        },
        Err(_) => {
            assert(frames_run(f, 0, no_output(), ctx, env) == crate::execute::stopped(
                ran.out->Err_0,
                ran.ctx,
            ));
        },
    }
}

/// Nodes run side by side from nothing.
pub open spec fn side_by_side(l: Seq<u64>, ctx: ContextView, env: EnvView) -> RanView {
    parallel_run(l, 0, no_output(), ctx, env)
}

#[verifier::spinoff_prover]
#[verifier::rlimit(80)]
proof fn lemma_parallel_gathered(
    l: Seq<u64>,
    k: int,
    so_far: OutputView,
    ctx: ContextView,
    env: EnvView,
)
    ensures
        ({
            let x = parallel_run(l, k, so_far, ctx, env);
            let y = parallel_run(l, k, no_output(), ctx, env);
            x.ctx == y.ctx && match y.out {
                Ok(o) => x.out == Ok::<OutputView, crate::error::ErrorView>(both(so_far, o)),
                Err(e) => x.out == Err::<OutputView, crate::error::ErrorView>(e),
            }
        }),
    decreases l.len() - k,
{
    lemma_both(so_far, no_output(), no_output());
    if 0 <= k < l.len() {
        let ran = node_run(l[k], ctx, env);
        law_run_keeps_context(l[k], ctx, env);
        match ran.out {
            Ok(o) => {
                lemma_parallel_gathered(l, k + 1, both(so_far, o), ran.ctx, env);
                lemma_parallel_gathered(l, k + 1, both(no_output(), o), ran.ctx, env);
                lemma_both(no_output(), o, no_output());
                match parallel_run(l, k + 1, no_output(), ran.ctx, env).out {
                    Ok(r) => {
                        lemma_both(so_far, o, r);
                    },
                    Err(_) => {},
                }
            },
            Err(_) => {},
        }
    }
}

#[verifier::spinoff_prover]
#[verifier::rlimit(80)]
proof fn lemma_parallel_behind(a: Seq<u64>, b: Seq<u64>, k: int, ctx: ContextView, env: EnvView)
    requires
        0 <= k,
    ensures
        parallel_run(a + b, a.len() + k, no_output(), ctx, env) == parallel_run(
            b,
            k,
            no_output(),
            ctx,
            env,
        ),
    decreases b.len() - k,
{
    if k < b.len() {
        assert((a + b)[a.len() + k] == b[k]);
        let ran = node_run(b[k], ctx, env);
        law_run_keeps_context(b[k], ctx, env);
        match ran.out {
            Ok(o) => {
                lemma_parallel_behind(a, b, k + 1, ran.ctx, env);
                lemma_parallel_gathered(a + b, a.len() + k + 1, both(no_output(), o), ran.ctx, env);
                lemma_parallel_gathered(b, k + 1, both(no_output(), o), ran.ctx, env);
            },
            Err(_) => {},
        }
    }
}

spec fn parallel_composed(w: RanView, x: RanView, y: RanView) -> bool {
    match x.out {
        Err(e) => w == x,
        Ok(o) => w.ctx == y.ctx && match y.out {
            Ok(p) => w.out == Ok::<OutputView, crate::error::ErrorView>(both(o, p)),
            Err(e) => w.out == Err::<OutputView, crate::error::ErrorView>(e),
        },
    }
}

#[verifier::spinoff_prover]
#[verifier::rlimit(80)]
proof fn lemma_parallel_composed(a: Seq<u64>, b: Seq<u64>, k: int, ctx: ContextView, env: EnvView)
    requires
        0 <= k <= a.len(),
    ensures
        ({
            let x = parallel_run(a, k, no_output(), ctx, env);
            parallel_composed(
                parallel_run(a + b, k, no_output(), ctx, env),
                x,
                side_by_side(b, x.ctx, env),
            )
        }),
    decreases a.len() - k,
{
    if k < a.len() {
        assert((a + b)[k] == a[k]);
        let ran = node_run(a[k], ctx, env);
        law_run_keeps_context(a[k], ctx, env);
        match ran.out {
            Ok(o) => {
                lemma_parallel_composed(a, b, k + 1, ran.ctx, env);
                lemma_parallel_gathered(a + b, k + 1, both(no_output(), o), ran.ctx, env);
                lemma_parallel_gathered(a, k + 1, both(no_output(), o), ran.ctx, env);
                lemma_both(no_output(), o, no_output());
                let x = parallel_run(a, k + 1, no_output(), ran.ctx, env);
                match (x.out, side_by_side(b, x.ctx, env).out) {
                    (Ok(p), Ok(r)) => {
                        lemma_both(o, p, r);
                    },
                    _ => {},
                }
            },
            Err(_) => {},
        }
    } else {
        lemma_parallel_behind(a, b, 0, ctx, env);
        match side_by_side(b, ctx, env).out {
            Ok(p) => {
                lemma_both(no_output(), p, no_output());
            },
            Err(_) => {},
        }
    }
}

/// The law of side by side: all nodes run, whether or not those before them are suspended, each in
/// the context that those before it leave; all their branches wait, and all that they hand out is
/// handed out, in order. The first failure ends it.
pub proof fn law_all_run_side_by_side(a: Seq<u64>, b: Seq<u64>, ctx: ContextView, env: EnvView)
    ensures
        ({
            let x = side_by_side(a, ctx, env);
            let y = side_by_side(b, x.ctx, env);
            let w = side_by_side(a + b, ctx, env);
            match (x.out, y.out) {
                (Err(_), _) => w == x,
                (Ok(_), Err(_)) => w.out == y.out && w.ctx == y.ctx,
                (Ok(o), Ok(p)) => {
                    &&& w.ctx == y.ctx
                    &&& w.out matches Ok(q)
                    &&& q.branches == o.branches + p.branches
                    &&& hands_out_both(q, o, p)
                },
            }
        }),
{
    lemma_parallel_composed(a, b, 0, ctx, env);
}

/// The law of side by side: one node alone runs by itself, and no nodes do nothing.
pub proof fn law_one_alone(node: u64, ctx: ContextView, env: EnvView)
    ensures
        side_by_side(seq![node], ctx, env) == node_run(node, ctx, env),
        side_by_side(Seq::empty(), ctx, env).ctx == ctx,
        side_by_side(Seq::empty(), ctx, env).out matches Ok(o) && is_nothing(o),
{
    law_run_keeps_context(node, ctx, env);
    assert(seq![node][0] == node);
    match node_run(node, ctx, env).out {
        Ok(o) => {
            lemma_both(no_output(), o, no_output());
            let after = node_run(node, ctx, env).ctx;
            assert(parallel_run(seq![node], 1, both(no_output(), o), after, env)
                == crate::execute::done(both(no_output(), o), after));
        },
        Err(_) => {},
    }
}

} // verus!
