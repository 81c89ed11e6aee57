use frame_pipeline::frame::FrameData;
use frame_pipeline::pipeline::{FeedError, Pipeline, PipelineRegistry, Ticker};
use frame_pipeline::pool::PoolRegistry;
use frame_pipeline::processor::{Component, Processor, StepOutcome};
use frame_pipeline::types::{Error, PipelineName, Stat};

#[test]
fn registry_never_replaces_a_name() {
    let mut reg = PipelineRegistry::new();
    assert!(reg.register(PipelineName::Error, Pipeline::new(true)).is_ok());
    assert!(
        reg.register(PipelineName::Error, Pipeline::new(false)).is_err(),
        "a registered pipeline is never replaced"
    );
    assert!(reg.register(PipelineName::Main, Pipeline::new(false)).is_ok());
}

#[test]
fn feed_is_fifo() {
    let mut reg = PipelineRegistry::new();
    reg.register(PipelineName::Error, Pipeline::new(true)).unwrap();
    for v in [1u128, 2, 3] {
        let mut ctx = FrameData::new();
        ctx.set(Stat::CaptureTime, v);
        reg.feed_to(PipelineName::Error, ctx).unwrap();
    }
    let mut seen = Vec::new();
    while let Some(ctx) = reg.take_next(PipelineName::Error).unwrap() {
        seen.push(ctx.get(&Stat::CaptureTime));
    }
    assert_eq!(seen, vec![Some(1), Some(2), Some(3)]);
}

#[test]
fn feeding_an_unfeedable_pipeline_is_refused() {
    let mut reg = PipelineRegistry::new();
    reg.register(PipelineName::Main, Pipeline::new(false)).unwrap();
    let err = reg.feed_to(PipelineName::Main, FrameData::new()).unwrap_err();
    assert_eq!(err.0, FeedError::NotFeedable);
    let err = reg.feed_to(PipelineName::Error, FrameData::new()).unwrap_err();
    assert_eq!(err.0, FeedError::UnknownPipeline);
}

#[test]
fn pipeline_feed_respects_feedable_flag() {
    let mut p = Pipeline::new(false);
    assert!(p.feed(FrameData::new()).is_err());
    assert!(p.next_inbound().is_none());
    let mut q = Pipeline::new(true);
    assert!(q.feed(FrameData::new()).is_ok());
    assert!(q.next_inbound().is_some());
    assert!(q.next_inbound().is_none());
}

#[test]
fn errored_context_lands_on_error_pipeline_not_outbound() {
    // an error switch configured with the error pipeline's name sends the
    // failing context there and never onto this component's outbound queue
    let mut pools = PoolRegistry::new();
    let mut reg = PipelineRegistry::new();
    reg.register(PipelineName::Error, Pipeline::new(true)).unwrap();
    let c = Component::new(vec![Processor::OnErrorSwitch(PipelineName::Error)]);

    let mut ctx = FrameData::new();
    ctx.set(Stat::CaptureTime, 9);
    ctx.report_error(Error::CodecError);

    let out = c.process(&mut pools, ctx, 0);
    assert!(matches!(out, StepOutcome::Diverted(PipelineName::Error, _)));

    let mut outbound: Vec<FrameData> = Vec::new();
    reg.route(out, &mut outbound).unwrap();
    assert!(outbound.is_empty(), "the errored context never reaches outbound");
    let diverted = reg
        .take_next(PipelineName::Error)
        .unwrap()
        .expect("the context appears on the error pipeline's inbound queue");
    assert_eq!(diverted.get(&Stat::CaptureTime), Some(9));
    assert_eq!(diverted.get_error(), Some(Error::CodecError));
    assert!(reg.take_next(PipelineName::Error).unwrap().is_none());
}

#[test]
fn healthy_context_goes_to_outbound() {
    let mut pools = PoolRegistry::new();
    let mut reg = PipelineRegistry::new();
    reg.register(PipelineName::Error, Pipeline::new(true)).unwrap();
    let c = Component::new(vec![Processor::OnErrorSwitch(PipelineName::Error)]);
    let mut ctx = FrameData::new();
    ctx.set(Stat::CaptureTime, 4);
    let out = c.process(&mut pools, ctx, 0);
    let mut outbound: Vec<FrameData> = Vec::new();
    reg.route(out, &mut outbound).unwrap();
    assert_eq!(outbound.len(), 1);
    assert_eq!(outbound[0].get(&Stat::CaptureTime), Some(4));
    assert!(reg.take_next(PipelineName::Error).unwrap().is_none());
}

#[test]
fn ticker_fires_once_per_period() {
    let mut t = Ticker::new(100);
    assert!(t.poll(5), "the first poll fires immediately");
    assert!(!t.poll(50));
    assert!(!t.poll(104), "99 of 100 ticks elapsed");
    assert!(t.poll(105));
    assert!(!t.poll(204));
    assert!(t.poll(205));
}

#[test]
fn components_accumulate_on_pipeline() {
    let mut p = Pipeline::new(true);
    p.add_component(Component::new(vec![Processor::StampTime(Stat::CaptureTime)]));
    p.add_component(Component::new(vec![Processor::StampTime(Stat::DecodePushTime)]));
    // the pipeline is still feedable and empty of contexts
    assert!(p.feed(FrameData::new()).is_ok());
    assert!(p.next_inbound().is_some());
}
