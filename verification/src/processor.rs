//! Processors and components: the units of work a frame context passes
//! through, and the ordered chains they form.
//!
//! A processor consumes an owned context and yields an outcome: continue
//! down the chain, divert to a named sibling pipeline (the error switch),
//! suspend until a pool buffer is redeemed (backpressure), or a fatal
//! accounting fault. A component executes its processors strictly in
//! order for one context at a time, so contexts leave a component in the
//! order they entered it.

use vstd::prelude::*;

use crate::frame::{frame_views, FrameData, FrameView};
use crate::pool::{apply_op, can_redeem, PoolError, PoolOp, PoolRegistry, PoolView};
use crate::types::{BufferType, PipelineName, Stat};

verus! {

/// One transformation step of a component's chain.
#[derive(Clone, Copy, Debug, PartialEq, Eq, Structural)]
pub enum Processor {
    /// Borrow a buffer under this key from its pool and attach it to the
    /// context; suspends when the pool is exhausted.
    BorrowBuffer(BufferType),
    /// Pull the buffer under this key out of the context and return it to
    /// its pool, strictly: a missing buffer or a foreign one is fatal.
    RedeemBuffer(BufferType),
    /// As `RedeemBuffer`, but a context without the buffer passes through
    /// untouched (the error path's lenient return).
    SoftRedeemBuffer(BufferType),
    /// Record the current time under this statistic key.
    StampTime(Stat),
    /// Record under `result` how long ago the `start` statistic was
    /// stamped; a context without `start` passes through untouched.
    DiffTime { start: Stat, result: Stat },
    /// Divert the context to the named pipeline when its error slot is
    /// set; pass it through unchanged when it is healthy.
    OnErrorSwitch(PipelineName),
}

/// What a processor did with a context.
pub enum StepOutcome {
    /// The context continues down the chain.
    Continue(FrameData),
    /// The context was captured for the named pipeline; it leaves this
    /// component's chain.
    Diverted(PipelineName, FrameData),
    /// A pool was exhausted; the context is handed back so the stage can
    /// be retried once a buffer is redeemed.
    Suspended(FrameData),
    /// A fatal pool accounting fault; the caller must abort loudly.
    Fault(PoolError),
}

/// Ghost counterpart of `StepOutcome`, over frame views.
pub enum StepView {
    Continue(FrameView),
    Diverted(PipelineName, FrameView),
    Suspended(FrameView),
    Fault(PoolError),
}

impl View for StepOutcome {
    type V = StepView;

    open spec fn view(&self) -> StepView {
        match self {
            StepOutcome::Continue(c) => StepView::Continue(c@),
            StepOutcome::Diverted(n, c) => StepView::Diverted(*n, c@),
            StepOutcome::Suspended(c) => StepView::Suspended(c@),
            StepOutcome::Fault(e) => StepView::Fault(*e),
        }
    }
}

impl StepOutcome {
    /// Any context the outcome carries is well-formed.
    pub open spec fn wf(&self) -> bool {
        match self {
            StepOutcome::Continue(c) => c.wf(),
            StepOutcome::Diverted(_, c) => c.wf(),
            StepOutcome::Suspended(c) => c.wf(),
            StepOutcome::Fault(_) => true,
        }
    }
}

/// The duration from `start` to `now`, clamped at zero when the recorded
/// start lies in the future.
pub open spec fn elapsed(now: u128, start: u128) -> u128 {
    if now >= start {
        (now - start) as u128
    } else {
        0
    }
}

/// What one processor does, as a function of the pools, the context and
/// the current time: the pools afterwards, and the outcome.
pub open spec fn step_spec(
    p: Processor,
    pools: Map<BufferType, PoolView>,
    ctx: FrameView,
    now: u128,
) -> (Map<BufferType, PoolView>, StepView) {
    match p {
        Processor::BorrowBuffer(k) => if !pools.contains_key(k) {
            (pools, StepView::Fault(PoolError::UnknownKey))
        } else if pools[k].free.len() == 0 {
            (pools, StepView::Suspended(ctx))
        } else {
            (
                pools.insert(k, apply_op(pools[k], PoolOp::Borrow)),
                StepView::Continue(
                    FrameView { buffers: ctx.buffers.insert(k, pools[k].free.last()), ..ctx },
                ),
            )
        },
        Processor::RedeemBuffer(k) => if !ctx.buffers.contains_key(k) {
            (pools, StepView::Fault(PoolError::MissingBuffer))
        } else {
            redeem_step(k, pools, ctx)
        },
        Processor::SoftRedeemBuffer(k) => if !ctx.buffers.contains_key(k) {
            (pools, StepView::Continue(ctx))
        } else {
            redeem_step(k, pools, ctx)
        },
        Processor::StampTime(s) => (
            pools,
            StepView::Continue(FrameView { stats: ctx.stats.insert(s, now), ..ctx }),
        ),
        Processor::DiffTime { start, result } => if !ctx.stats.contains_key(start) {
            (pools, StepView::Continue(ctx))
        } else {
            (
                pools,
                StepView::Continue(
                    FrameView {
                        stats: ctx.stats.insert(result, elapsed(now, ctx.stats[start])),
                        ..ctx
                    },
                ),
            )
        },
        Processor::OnErrorSwitch(target) => match ctx.error {
            Some(_) => (pools, StepView::Diverted(target, ctx)),
            None => (pools, StepView::Continue(ctx)),
        },
    }
}

/// The shared strict-redeem step: the context holds the buffer under `k`.
pub open spec fn redeem_step(
    k: BufferType,
    pools: Map<BufferType, PoolView>,
    ctx: FrameView,
) -> (Map<BufferType, PoolView>, StepView) {
    if !pools.contains_key(k) {
        (pools, StepView::Fault(PoolError::UnknownKey))
    } else if !can_redeem(pools[k], ctx.buffers[k]) {
        (pools, StepView::Fault(PoolError::ForeignBuffer))
    } else {
        (
            pools.insert(k, apply_op(pools[k], PoolOp::Redeem(ctx.buffers[k]))),
            StepView::Continue(FrameView { buffers: ctx.buffers.remove(k), ..ctx }),
        )
    }
}

/// Soft-redeem tolerance law: a lenient redeem on a context that does not
/// hold the buffer is a no-op — it neither faults nor alters the context
/// or the pools.
pub proof fn lemma_soft_redeem_missing_is_no_op(
    k: BufferType,
    pools: Map<BufferType, PoolView>,
    ctx: FrameView,
    now: u128,
)
    requires
        !ctx.buffers.contains_key(k),
    ensures
        step_spec(Processor::SoftRedeemBuffer(k), pools, ctx, now) == (
            pools,
            StepView::Continue(ctx),
        ),
{
}

/// Error-switch pass-through law: a healthy context (no error outstanding)
/// leaves an error switch exactly as it entered — same statistics, same
/// buffers byte for byte — and the pools are untouched.
pub proof fn lemma_error_switch_healthy(
    target: PipelineName,
    pools: Map<BufferType, PoolView>,
    ctx: FrameView,
    now: u128,
)
    requires
        ctx.error is None,
    ensures
        step_spec(Processor::OnErrorSwitch(target), pools, ctx, now) == (
            pools,
            StepView::Continue(ctx),
        ),
{
}

/// Error-switch diversion law: a context with an outstanding error is
/// handed, unchanged, to the configured pipeline, and never continues
/// down this chain.
pub proof fn lemma_error_switch_divert(
    target: PipelineName,
    pools: Map<BufferType, PoolView>,
    ctx: FrameView,
    now: u128,
)
    requires
        ctx.error is Some,
    ensures
        step_spec(Processor::OnErrorSwitch(target), pools, ctx, now) == (
            pools,
            StepView::Diverted(target, ctx),
        ),
{
}

/// Run one processor on an owned context. The pools and the outcome are
/// exactly what `step_spec` says for the old pools and the context.
pub fn apply(p: Processor, pools: &mut PoolRegistry, ctx: FrameData, now: u128) -> (out:
    StepOutcome)
    requires
        old(pools).wf(),
        ctx.wf(),
    ensures
        final(pools).wf(),
        out.wf(),
        (final(pools)@, out@) == step_spec(p, old(pools)@, ctx@, now),
{
    match p {
        Processor::BorrowBuffer(k) => {
            let mut ctx = ctx;
            match pools.borrow(k) {
                Err(e) => StepOutcome::Fault(e),
                Ok(None) => StepOutcome::Suspended(ctx),
                Ok(Some(b)) => {
                    ctx.push(k, b);
                    StepOutcome::Continue(ctx)
                },
            }
        },
        Processor::RedeemBuffer(k) => {
            let mut ctx = ctx;
            match ctx.pull(&k) {
                None => StepOutcome::Fault(PoolError::MissingBuffer),
                Some(b) => match pools.redeem(k, b) {
                    Ok(()) => StepOutcome::Continue(ctx),
                    Err(e) => StepOutcome::Fault(e),
                },
            }
        },
        Processor::SoftRedeemBuffer(k) => {
            let mut ctx = ctx;
            match ctx.pull(&k) {
                None => StepOutcome::Continue(ctx),
                Some(b) => match pools.redeem(k, b) {
                    Ok(()) => StepOutcome::Continue(ctx),
                    Err(e) => StepOutcome::Fault(e),
                },
            }
        },
        Processor::StampTime(s) => {
            let mut ctx = ctx;
            ctx.set(s, now);
            StepOutcome::Continue(ctx)
        },
        Processor::DiffTime { start, result } => {
            let mut ctx = ctx;
            match ctx.get(&start) {
                None => StepOutcome::Continue(ctx),
                Some(st) => {
                    let d = if now >= st {
                        now - st
                    } else {
                        0
                    };
                    ctx.set(result, d);
                    StepOutcome::Continue(ctx)
                },
            }
        },
        Processor::OnErrorSwitch(target) => match ctx.get_error() {
            Some(_) => StepOutcome::Diverted(target, ctx),
            None => StepOutcome::Continue(ctx),
        },
    }
}

/// What a whole chain does with one context: processors run in order until
/// one of them does not continue.
pub open spec fn chain_step(
    ps: Seq<Processor>,
    pools: Map<BufferType, PoolView>,
    ctx: FrameView,
    now: u128,
) -> (Map<BufferType, PoolView>, StepView)
    decreases ps.len(),
{
    if ps.len() == 0 {
        (pools, StepView::Continue(ctx))
    } else {
        let (pools2, out) = step_spec(ps[0], pools, ctx, now);
        match out {
            StepView::Continue(c2) => chain_step(ps.skip(1), pools2, c2, now),
            _ => (pools2, out),
        }
    }
}

/// What a chain does with a queue of contexts, fed through one after the
/// other: the pools afterwards, and the contexts that reached the outbound
/// side, in order. A context whose chain ends early (diverted, suspended
/// or faulted) contributes no output.
pub open spec fn batch_step(
    ps: Seq<Processor>,
    pools: Map<BufferType, PoolView>,
    inputs: Seq<FrameView>,
    now: u128,
) -> (Map<BufferType, PoolView>, Seq<FrameView>)
    decreases inputs.len(),
{
    if inputs.len() == 0 {
        (pools, Seq::empty())
    } else {
        let (pools2, out) = chain_step(ps, pools, inputs[0], now);
        let (pools3, rest) = batch_step(ps, pools2, inputs.skip(1), now);
        match out {
            StepView::Continue(c) => (pools3, seq![c] + rest),
            _ => (pools3, rest),
        }
    }
}

/// Ordering law: a component never reorders contexts. Whatever queue is
/// split as `xs` followed by `ys`, the outbound contexts are exactly those
/// of `xs` followed by those of `ys` — every context either leaves in
/// arrival order or is dropped, never overtaken.
pub proof fn lemma_component_ordering(
    ps: Seq<Processor>,
    pools: Map<BufferType, PoolView>,
    xs: Seq<FrameView>,
    ys: Seq<FrameView>,
    now: u128,
)
    ensures
        batch_step(ps, pools, xs + ys, now).1 == batch_step(ps, pools, xs, now).1 + batch_step(
            ps,
            batch_step(ps, pools, xs, now).0,
            ys,
            now,
        ).1,
        batch_step(ps, pools, xs + ys, now).0 == batch_step(
            ps,
            batch_step(ps, pools, xs, now).0,
            ys,
            now,
        ).0,
    decreases xs.len(),
{
    if xs.len() == 0 {
        assert(xs + ys =~= ys);
        assert(Seq::<FrameView>::empty() + batch_step(ps, pools, ys, now).1 =~= batch_step(
            ps,
            pools,
            ys,
            now,
        ).1);
    } else {
        let (pools2, out) = chain_step(ps, pools, xs[0], now);
        assert((xs + ys)[0] == xs[0]);
        assert((xs + ys).skip(1) =~= xs.skip(1) + ys);
        lemma_component_ordering(ps, pools2, xs.skip(1), ys, now);
        let tail_outs = batch_step(ps, pools2, xs.skip(1), now).1;
        let pools3 = batch_step(ps, pools2, xs.skip(1), now).0;
        let ys_outs = batch_step(ps, pools3, ys, now).1;
        match out {
            StepView::Continue(c) => {
                assert(seq![c] + (tail_outs + ys_outs) =~= (seq![c] + tail_outs) + ys_outs);
            },
            _ => {},
        }
    }
}

/// An ordered chain of processors executed as one sequential task.
#[derive(Debug)]
pub struct Component {
    processors: Vec<Processor>,
}

impl View for Component {
    type V = Seq<Processor>;

    closed spec fn view(&self) -> Seq<Processor> {
        self.processors@
    }
}

impl Component {
    /// A component running the given processors in order.
    pub fn new(processors: Vec<Processor>) -> (r: Component)
        ensures
            r@ == processors@,
    {
        Component { processors }
    }

    /// Feed one context through every processor in order, stopping at the
    /// first that does not continue. The result is exactly `chain_step`
    /// of this component's processor sequence.
    pub fn process(&self, pools: &mut PoolRegistry, ctx: FrameData, now: u128) -> (out: StepOutcome)
        requires
            old(pools).wf(),
            ctx.wf(),
        ensures
            final(pools).wf(),
            out.wf(),
            (final(pools)@, out@) == chain_step(self@, old(pools)@, ctx@, now),
    {
        let ghost pools0 = pools@;
        let ghost ctx0 = ctx@;
        proof {
            assert(self@.skip(0) =~= self@);
        }
        let mut cur = ctx;
        let mut i: usize = 0;
        while i < self.processors.len()
            invariant
                i <= self.processors@.len(),
                pools.wf(),
                cur.wf(),
                pools0 == old(pools)@,
                ctx0 == ctx@,
                chain_step(self@, pools0, ctx0, now) == chain_step(
                    self@.skip(i as int),
                    pools@,
                    cur@,
                    now,
                ),
            decreases self.processors@.len() - i,
        {
            let ghost pre_pools = pools@;
            let ghost pre_cur = cur@;
            let p = self.processors[i];
            let out = apply(p, pools, cur, now);
            proof {
                assert(self@.skip(i as int)[0] == p);
                assert(self@.skip(i as int).skip(1) =~= self@.skip(i as int + 1));
            }
            match out {
                StepOutcome::Continue(c2) => {
                    cur = c2;
                },
                other => {
                    proof {
                        assert(chain_step(self@.skip(i as int), pre_pools, pre_cur, now) == (
                            pools@,
                            other@,
                        ));
                    }
                    return other;
                },
            }
            i = i + 1;
        }
        proof {
            assert(self@.skip(self@.len() as int) =~= Seq::<Processor>::empty());
        }
        StepOutcome::Continue(cur)
    }

    /// Pull the queued contexts through the chain one after the other, in
    /// arrival order, and collect those that reach the outbound side — the
    /// component's pull-process-push loop for one batch. The outputs are
    /// exactly `batch_step` of the inputs, so they keep arrival order.
    pub fn process_batch(&self, pools: &mut PoolRegistry, inputs: Vec<FrameData>, now: u128) -> (
        outs: Vec<FrameData>)
        requires
            old(pools).wf(),
            forall|i: int| 0 <= i < inputs@.len() ==> (#[trigger] inputs@[i]).wf(),
        ensures
            final(pools).wf(),
            forall|i: int| 0 <= i < outs@.len() ==> (#[trigger] outs@[i]).wf(),
            (final(pools)@, frame_views(outs@)) == batch_step(
                self@,
                old(pools)@,
                frame_views(inputs@),
                now,
            ),
    {
        let ghost pools0 = pools@;
        let ghost all = frame_views(inputs@);
        let mut queue = inputs;
        let mut outs: Vec<FrameData> = Vec::new();
        while queue.len() > 0
            invariant
                pools.wf(),
                forall|i: int| 0 <= i < queue@.len() ==> (#[trigger] queue@[i]).wf(),
                forall|i: int| 0 <= i < outs@.len() ==> (#[trigger] outs@[i]).wf(),
                batch_step(self@, pools0, all, now).0 == batch_step(
                    self@,
                    pools@,
                    frame_views(queue@),
                    now,
                ).0,
                batch_step(self@, pools0, all, now).1 == frame_views(outs@) + batch_step(
                    self@,
                    pools@,
                    frame_views(queue@),
                    now,
                ).1,
            decreases queue@.len(),
        {
            let ghost rem = frame_views(queue@);
            let ctx = queue.remove(0);
            proof {
                assert(rem[0] == ctx@);
                assert(frame_views(queue@) =~= rem.skip(1));
            }
            let out = self.process(pools, ctx, now);
            match out {
                StepOutcome::Continue(c) => {
                    proof {
                        assert(frame_views(outs@.push(c)) =~= frame_views(outs@) + seq![c@]);
                        assert(frame_views(outs@) + (seq![c@] + batch_step(
                            self@,
                            pools@,
                            frame_views(queue@),
                            now,
                        ).1) =~= (frame_views(outs@) + seq![c@]) + batch_step(
                            self@,
                            pools@,
                            frame_views(queue@),
                            now,
                        ).1);
                    }
                    outs.push(c);
                },
                _ => {},
            }
        }
        proof {
            assert(frame_views(queue@).len() == 0);
            assert(frame_views(outs@) + Seq::<FrameView>::empty() =~= frame_views(outs@));
        }
        outs
    }
}

} // verus!
