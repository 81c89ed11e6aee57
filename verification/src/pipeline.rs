//! Pipelines and the registry that names them.
//!
//! A pipeline bundles the components of one logical flow and, when it is
//! feedable, exposes an inbound queue that sibling pipelines push into —
//! the error pipeline is fed this way by every error switch. The registry
//! maps each name to its pipeline; a name, once registered, is never
//! replaced, so a handle resolved against the registry stays valid for
//! the registry's whole lifetime. Running the components concurrently,
//! with the waiting that suspension and an empty inbound queue imply, is
//! the embedding program's loop; everything it decides per context is the
//! verified `Component::process` and `route` below.

use vstd::prelude::*;

use crate::frame::{frame_views, FrameData, FrameView};
use crate::kvmap;
use crate::processor::{Component, Processor, StepOutcome, StepView};
use crate::types::PipelineName;

verus! {

/// Why a context could not be pushed into a pipeline.
#[derive(Clone, Copy, Debug, PartialEq, Eq, Structural)]
pub enum FeedError {
    /// No pipeline is registered under the name.
    UnknownPipeline,
    /// The named pipeline does not accept pushed contexts.
    NotFeedable,
}

/// Mathematical view of a pipeline: whether it accepts pushed contexts,
/// its queued inbound contexts in arrival order, and its components'
/// processor chains in order.
pub struct PipelineView {
    pub feedable: bool,
    pub inbound: Seq<FrameView>,
    pub components: Seq<Seq<Processor>>,
}

/// One logical flow: an ordered list of components and, when feedable, an
/// inbound queue for contexts pushed from sibling pipelines.
#[derive(Debug)]
pub struct Pipeline {
    feedable: bool,
    inbound: Vec<FrameData>,
    components: Vec<Component>,
}

impl View for Pipeline {
    type V = PipelineView;

    closed spec fn view(&self) -> PipelineView {
        PipelineView {
            feedable: self.feedable,
            inbound: frame_views(self.inbound@),
            components: self.components@.map_values(|c: Component| c@),
        }
    }
}

impl Pipeline {
    /// Every queued context is well-formed.
    pub closed spec fn wf(&self) -> bool {
        forall|i: int| 0 <= i < self.inbound@.len() ==> (#[trigger] self.inbound@[i]).wf()
    }

    /// An empty pipeline; `feedable` fixes whether siblings may push into
    /// it.
    pub fn new(feedable: bool) -> (r: Pipeline)
        ensures
            r.wf(),
            r@.feedable == feedable,
            r@.inbound == Seq::<FrameView>::empty(),
            r@.components == Seq::<Seq<Processor>>::empty(),
    {
        let r = Pipeline { feedable, inbound: Vec::new(), components: Vec::new() };
        proof {
            assert(r@.inbound =~= Seq::<FrameView>::empty());
            assert(r@.components =~= Seq::<Seq<Processor>>::empty());
        }
        r
    }

    /// Append a component to the flow.
    pub fn add_component(&mut self, c: Component)
        requires
            old(self).wf(),
        ensures
            final(self).wf(),
            final(self)@.components == old(self)@.components.push(c@),
            final(self)@.inbound == old(self)@.inbound,
            final(self)@.feedable == old(self)@.feedable,
    {
        proof {
            assert(self.components@.push(c).map_values(|x: Component| x@) =~= self@.components.push(
                c@,
            ));
            assert(frame_views(self.inbound@) == self@.inbound);
        }
        self.components.push(c);
    }

    /// Push a context onto the inbound queue (FIFO). `Err` hands the
    /// context back exactly when the pipeline is not feedable.
    pub fn feed(&mut self, ctx: FrameData) -> (r: Result<(), FrameData>)
        requires
            old(self).wf(),
            ctx.wf(),
        ensures
            final(self).wf(),
            final(self)@.feedable == old(self)@.feedable,
            final(self)@.components == old(self)@.components,
            old(self)@.feedable ==> r is Ok && final(self)@.inbound == old(self)@.inbound.push(
                ctx@,
            ),
            !old(self)@.feedable ==> r == Result::<(), FrameData>::Err(ctx) && final(self)@
                == old(self)@,
    {
        if !self.feedable {
            return Err(ctx);
        }
        proof {
            assert(frame_views(self.inbound@.push(ctx)) =~= frame_views(self.inbound@).push(ctx@));
        }
        self.inbound.push(ctx);
        Ok(())
    }

    /// Pop the context that arrived first, if any (FIFO).
    pub fn next_inbound(&mut self) -> (r: Option<FrameData>)
        requires
            old(self).wf(),
        ensures
            final(self).wf(),
            final(self)@.feedable == old(self)@.feedable,
            final(self)@.components == old(self)@.components,
            match r {
                Some(c) => {
                    &&& old(self)@.inbound.len() > 0
                    &&& c.wf()
                    &&& c@ == old(self)@.inbound[0]
                    &&& final(self)@.inbound == old(self)@.inbound.skip(1)
                },
                None => {
                    &&& old(self)@.inbound.len() == 0
                    &&& final(self)@ == old(self)@
                },
            },
    {
        if self.inbound.len() == 0 {
            proof {
                assert(frame_views(self.inbound@).len() == 0);
            }
            return None;
        }
        let c = self.inbound.remove(0);
        proof {
            assert(frame_views(self.inbound@) =~= frame_views(old(self).inbound@).skip(1));
        }
        Some(c)
    }
}

/// The fixed-rate gate of a self-driving pipeline: whether enough time has
/// passed since the last emitted context for the next one to be due.
pub open spec fn tick_due(period: u128, last: Option<u128>, now: u128) -> bool {
    match last {
        None => true,
        Some(l) => now >= l && now - l >= period,
    }
}

/// The fixed-interval ticker gating a self-driving pipeline's source
/// component: it decides when the next context is due; the waiting between
/// polls is the embedding program's.
#[derive(Clone, Copy, Debug)]
pub struct Ticker {
    period: u128,
    last: Option<u128>,
}

impl Ticker {
    /// The fixed frame period.
    pub closed spec fn period(&self) -> u128 {
        self.period
    }

    /// When the last context was emitted, if any.
    pub closed spec fn last(&self) -> Option<u128> {
        self.last
    }

    /// A ticker that fires immediately on its first poll, then once per
    /// `period`.
    pub fn new(period: u128) -> (r: Ticker)
        ensures
            r.period() == period,
            r.last() is None,
    {
        Ticker { period, last: None }
    }

    /// Poll at time `now`: `true` exactly when the next context is due,
    /// and then the emission is recorded; otherwise nothing changes.
    pub fn poll(&mut self, now: u128) -> (r: bool)
        ensures
            final(self).period() == old(self).period(),
            r == tick_due(old(self).period(), old(self).last(), now),
            r ==> final(self).last() == Some(now),
            !r ==> final(self).last() == old(self).last(),
    {
        let due = match self.last {
            None => true,
            Some(l) => now >= l && now - l >= self.period,
        };
        if due {
            self.last = Some(now);
        }
        due
    }
}

/// The pipeline pair list with each pipeline replaced by its view.
pub open spec fn pipeline_pairs(s: Seq<(PipelineName, Pipeline)>) -> Seq<
    (PipelineName, PipelineView),
> {
    s.map_values(|p: (PipelineName, Pipeline)| (p.0, p.1@))
}

/// The named pipelines of one run. Error-target pipelines are registered
/// before the pipelines whose switches divert into them, and no name is
/// ever replaced.
#[derive(Debug)]
pub struct PipelineRegistry {
    entries: Vec<(PipelineName, Pipeline)>,
}

impl View for PipelineRegistry {
    type V = Map<PipelineName, PipelineView>;

    closed spec fn view(&self) -> Map<PipelineName, PipelineView> {
        kvmap::as_map(pipeline_pairs(self.entries@))
    }
}

impl PipelineRegistry {
    /// Names are unique and every pipeline is well-formed.
    pub closed spec fn wf(&self) -> bool {
        &&& kvmap::keys_unique(pipeline_pairs(self.entries@))
        &&& forall|i: int| 0 <= i < self.entries@.len() ==> (#[trigger] self.entries@[i]).1.wf()
    }

    /// An empty registry.
    pub fn new() -> (r: PipelineRegistry)
        ensures
            r.wf(),
            r@ == Map::<PipelineName, PipelineView>::empty(),
    {
        let r = PipelineRegistry { entries: Vec::new() };
        proof {
            kvmap::lemma_empty_map::<PipelineName, PipelineView>(pipeline_pairs(r.entries@));
        }
        r
    }

    fn find_pipeline(&self, name: PipelineName) -> (r: Option<usize>)
        ensures
            match r {
                Some(i) => i < self.entries@.len() && self.entries@[i as int].0 == name,
                None => forall|i: int| 0 <= i < self.entries@.len() ==> self.entries@[i].0 != name,
            },
    {
        let mut i: usize = 0;
        while i < self.entries.len()
            invariant
                i <= self.entries@.len(),
                forall|j: int| 0 <= j < i ==> self.entries@[j].0 != name,
            decreases self.entries@.len() - i,
        {
            if self.entries[i].0 == name {
                return Some(i);
            }
            i = i + 1;
        }
        None
    }

    /// Register a pipeline under a name. `Err` hands the pipeline back
    /// exactly when the name is taken: a registered pipeline is never
    /// replaced.
    pub fn register(&mut self, name: PipelineName, p: Pipeline) -> (r: Result<(), Pipeline>)
        requires
            old(self).wf(),
            p.wf(),
        ensures
            final(self).wf(),
            !old(self)@.contains_key(name) ==> r is Ok && final(self)@ == old(self)@.insert(
                name,
                p@,
            ),
            old(self)@.contains_key(name) ==> r == Result::<(), Pipeline>::Err(p) && final(self)@
                == old(self)@,
    {
        let ghost pairs = pipeline_pairs(self.entries@);
        match self.find_pipeline(name) {
            Some(i) => {
                proof {
                    assert(pairs[i as int].0 == name);
                    kvmap::lemma_unique_witness(pairs, i as int);
                }
                Err(p)
            },
            None => {
                proof {
                    assert(forall|j: int| 0 <= j < pairs.len() ==> pairs[j].0 != name);
                    kvmap::lemma_absent(pairs, name);
                    kvmap::lemma_push_new(pairs, name, p@);
                    assert(pipeline_pairs(self.entries@.push((name, p))) =~= pairs.push(
                        (name, p@),
                    ));
                }
                self.entries.push((name, p));
                Ok(())
            },
        }
    }

    /// Push a context into the pipeline registered under `name`. `Err`
    /// hands the context back, with the reason, exactly when the name is
    /// unknown or the pipeline is not feedable; otherwise the context is
    /// appended to that pipeline's inbound queue (FIFO) and nothing else
    /// changes.
    pub fn feed_to(&mut self, name: PipelineName, ctx: FrameData) -> (r: Result<
        (),
        (FeedError, FrameData),
    >)
        requires
            old(self).wf(),
            ctx.wf(),
        ensures
            final(self).wf(),
            match r {
                Ok(()) => {
                    &&& old(self)@.contains_key(name)
                    &&& old(self)@[name].feedable
                    &&& final(self)@ == old(self)@.insert(
                        name,
                        PipelineView {
                            inbound: old(self)@[name].inbound.push(ctx@),
                            ..old(self)@[name]
                        },
                    )
                },
                Err((e, c)) => {
                    &&& final(self)@ == old(self)@
                    &&& c == ctx
                    &&& e == FeedError::UnknownPipeline ==> !old(self)@.contains_key(name)
                    &&& e == FeedError::NotFeedable ==> old(self)@.contains_key(name) && !old(
                        self,
                    )@[name].feedable
                    &&& (e == FeedError::UnknownPipeline || e == FeedError::NotFeedable)
                },
            },
    {
        let ghost pairs = pipeline_pairs(self.entries@);
        match self.find_pipeline(name) {
            Some(i) => {
                proof {
                    assert(pairs[i as int].0 == name);
                    kvmap::lemma_unique_witness(pairs, i as int);
                }
                let entry = &mut self.entries[i];
                match entry.1.feed(ctx) {
                    Ok(()) => {
                        proof {
                            kvmap::lemma_update_val(pairs, i as int, self.entries@[i as int].1@);
                            assert(pipeline_pairs(self.entries@) =~= pairs.update(
                                i as int,
                                (name, self.entries@[i as int].1@),
                            ));
                        }
                        Ok(())
                    },
                    Err(c) => {
                        proof {
                            kvmap::lemma_update_val(pairs, i as int, self.entries@[i as int].1@);
                            assert(pipeline_pairs(self.entries@) =~= pairs.update(
                                i as int,
                                (name, self.entries@[i as int].1@),
                            ));
                            assert(final(self)@ =~= old(self)@);
                        }
                        Err((FeedError::NotFeedable, c))
                    },
                }
            },
            None => {
                proof {
                    assert(forall|j: int| 0 <= j < pairs.len() ==> pairs[j].0 != name);
                    kvmap::lemma_absent(pairs, name);
                }
                Err((FeedError::UnknownPipeline, ctx))
            },
        }
    }

    /// Pop the context that arrived first on the named pipeline's inbound
    /// queue, if any. `Err` exactly when no pipeline carries the name.
    pub fn take_next(&mut self, name: PipelineName) -> (r: Result<Option<FrameData>, FeedError>)
        requires
            old(self).wf(),
        ensures
            final(self).wf(),
            match r {
                Ok(oc) => {
                    &&& old(self)@.contains_key(name)
                    &&& match oc {
                        Some(c) => {
                            &&& old(self)@[name].inbound.len() > 0
                            &&& c.wf()
                            &&& c@ == old(self)@[name].inbound[0]
                            &&& final(self)@ == old(self)@.insert(
                                name,
                                PipelineView {
                                    inbound: old(self)@[name].inbound.skip(1),
                                    ..old(self)@[name]
                                },
                            )
                        },
                        None => {
                            &&& old(self)@[name].inbound.len() == 0
                            &&& final(self)@ == old(self)@
                        },
                    }
                },
                Err(e) => {
                    &&& e == FeedError::UnknownPipeline
                    &&& !old(self)@.contains_key(name)
                    &&& final(self)@ == old(self)@
                },
            },
    {
        let ghost pairs = pipeline_pairs(self.entries@);
        match self.find_pipeline(name) {
            Some(i) => {
                proof {
                    assert(pairs[i as int].0 == name);
                    kvmap::lemma_unique_witness(pairs, i as int);
                }
                let entry = &mut self.entries[i];
                let r = entry.1.next_inbound();
                proof {
                    kvmap::lemma_update_val(pairs, i as int, self.entries@[i as int].1@);
                    assert(pipeline_pairs(self.entries@) =~= pairs.update(
                        i as int,
                        (name, self.entries@[i as int].1@),
                    ));
                    if r is None {
                        assert(final(self)@ =~= old(self)@);
                    }
                }
                Ok(r)
            },
            None => {
                proof {
                    assert(forall|j: int| 0 <= j < pairs.len() ==> pairs[j].0 != name);
                    kvmap::lemma_absent(pairs, name);
                }
                Err(FeedError::UnknownPipeline)
            },
        }
    }

    /// Deliver a component's outcome: a continuing context goes onto this
    /// component's outbound queue, a diverted one into the pipeline its
    /// error switch named — and never onto the outbound queue.
    pub fn route(&mut self, out: StepOutcome, outbound: &mut Vec<FrameData>) -> (r: Result<
        (),
        (FeedError, FrameData),
    >)
        requires
            old(self).wf(),
            out.wf(),
            out is Continue || out is Diverted,
        ensures
            final(self).wf(),
            match out {
                StepOutcome::Continue(c) => {
                    &&& r is Ok
                    &&& final(outbound)@ == old(outbound)@.push(c)
                    &&& final(self)@ == old(self)@
                },
                StepOutcome::Diverted(name, c) => {
                    &&& final(outbound)@ == old(outbound)@
                    &&& (r is Ok <==> old(self)@.contains_key(name) && old(self)@[name].feedable)
                    &&& match r {
                        Ok(()) => final(self)@ == old(self)@.insert(
                            name,
                            PipelineView {
                                inbound: old(self)@[name].inbound.push(c@),
                                ..old(self)@[name]
                            },
                        ),
                        Err((e, cc)) => {
                            &&& cc == c
                            &&& final(self)@ == old(self)@
                            &&& e == FeedError::UnknownPipeline ==> !old(self)@.contains_key(name)
                            &&& e == FeedError::NotFeedable ==> old(self)@.contains_key(name)
                                && !old(self)@[name].feedable
                            &&& (e == FeedError::UnknownPipeline || e == FeedError::NotFeedable)
                        },
                    }
                },
                _ => false,
            },
    {
        match out {
            StepOutcome::Continue(c) => {
                outbound.push(c);
                Ok(())
            },
            StepOutcome::Diverted(name, c) => self.feed_to(name, c),
            _ => {
                proof {
                    assert(false);
                }
                Ok(())
            },
        }
    }
}

} // verus!
