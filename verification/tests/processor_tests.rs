use frame_pipeline::frame::FrameData;
use frame_pipeline::pool::{PoolError, PoolRegistry};
use frame_pipeline::processor::{apply, Component, Processor, StepOutcome};
use frame_pipeline::types::{BufferType, Error, PipelineName, Stat};

#[test]
fn diff_processor_computes_elapsed_time() {
    // a context with CaptureTime 1000 and no encoded buffer gains
    // EncodeTime = now - CaptureTime, with CaptureTime untouched
    let mut pools = PoolRegistry::new();
    let mut ctx = FrameData::new();
    ctx.set(Stat::CaptureTime, 1000);
    assert!(ctx.get_ref(&BufferType::EncodedFrameBuffer).is_none());
    let p = Processor::DiffTime { start: Stat::CaptureTime, result: Stat::EncodeTime };
    match apply(p, &mut pools, ctx, 1500) {
        StepOutcome::Continue(out) => {
            assert_eq!(out.get(&Stat::CaptureTime), Some(1000));
            assert_eq!(out.get(&Stat::EncodeTime), Some(500));
        }
        _ => panic!("a diff processor always continues"),
    }
}

#[test]
fn diff_processor_skips_missing_start() {
    let mut pools = PoolRegistry::new();
    let ctx = FrameData::new();
    let p = Processor::DiffTime { start: Stat::CaptureTime, result: Stat::EncodeTime };
    match apply(p, &mut pools, ctx, 1500) {
        StepOutcome::Continue(out) => {
            assert_eq!(out.get(&Stat::EncodeTime), None);
        }
        _ => panic!("a diff processor always continues"),
    }
}

#[test]
fn stamp_processor_records_now() {
    let mut pools = PoolRegistry::new();
    let ctx = FrameData::new();
    match apply(Processor::StampTime(Stat::CaptureTime), &mut pools, ctx, 424242) {
        StepOutcome::Continue(out) => assert_eq!(out.get(&Stat::CaptureTime), Some(424242)),
        _ => panic!("a stamp processor always continues"),
    }
}

#[test]
fn error_switch_passes_healthy_context_unchanged() {
    let mut pools = PoolRegistry::new();
    let mut ctx = FrameData::new();
    ctx.set(Stat::CaptureTime, 5);
    ctx.push(BufferType::YUVFrameBuffer, vec![1, 2]);
    match apply(Processor::OnErrorSwitch(PipelineName::Error), &mut pools, ctx, 0) {
        StepOutcome::Continue(out) => {
            assert_eq!(out.get(&Stat::CaptureTime), Some(5));
            assert_eq!(
                out.get_ref(&BufferType::YUVFrameBuffer).map(|b| b.clone()),
                Some(vec![1, 2])
            );
            assert_eq!(out.get_error(), None);
        }
        _ => panic!("a healthy context passes through"),
    }
}

#[test]
fn error_switch_diverts_errored_context() {
    let mut pools = PoolRegistry::new();
    let mut ctx = FrameData::new();
    ctx.report_error(Error::CodecError);
    match apply(Processor::OnErrorSwitch(PipelineName::Error), &mut pools, ctx, 0) {
        StepOutcome::Diverted(name, out) => {
            assert_eq!(name, PipelineName::Error);
            // diversion reads the error slot without clearing it
            assert_eq!(out.get_error(), Some(Error::CodecError));
        }
        _ => panic!("an errored context is diverted"),
    }
}

#[test]
fn component_runs_processors_in_order() {
    let mut pools = PoolRegistry::new();
    let c = Component::new(vec![
        Processor::StampTime(Stat::CaptureTime),
        Processor::DiffTime { start: Stat::CaptureTime, result: Stat::EncodeTime },
    ]);
    match c.process(&mut pools, FrameData::new(), 100) {
        StepOutcome::Continue(out) => {
            assert_eq!(out.get(&Stat::CaptureTime), Some(100));
            // the stamp ran before the diff, so the diff saw it
            assert_eq!(out.get(&Stat::EncodeTime), Some(0));
        }
        _ => panic!("this chain always continues"),
    }
}

#[test]
fn component_preserves_context_order() {
    // contexts leave a component in arrival order, none overtakes another
    let mut pools = PoolRegistry::new();
    let c = Component::new(vec![Processor::DiffTime {
        start: Stat::CaptureTime,
        result: Stat::EncodeTime,
    }]);
    let mut outputs = Vec::new();
    for seq_no in [10u128, 20, 30] {
        let mut ctx = FrameData::new();
        ctx.set(Stat::CaptureTime, seq_no);
        match c.process(&mut pools, ctx, 100) {
            StepOutcome::Continue(out) => outputs.push(out),
            _ => panic!("this chain always continues"),
        }
    }
    let seen: Vec<Option<u128>> = outputs.iter().map(|o| o.get(&Stat::CaptureTime)).collect();
    assert_eq!(seen, vec![Some(10), Some(20), Some(30)]);
}

#[test]
fn batch_keeps_order_and_drops_diverted() {
    // a queue of healthy and errored contexts: the healthy ones come out
    // in arrival order, the errored one is diverted and never reappears
    let mut pools = PoolRegistry::new();
    let c = Component::new(vec![Processor::OnErrorSwitch(PipelineName::Error)]);
    let mut queue = Vec::new();
    for v in [1u128, 2, 3] {
        let mut ctx = FrameData::new();
        ctx.set(Stat::CaptureTime, v);
        if v == 2 {
            ctx.report_error(Error::NoFrame);
        }
        queue.push(ctx);
    }
    let outs = c.process_batch(&mut pools, queue, 0);
    let seen: Vec<Option<u128>> = outs.iter().map(|o| o.get(&Stat::CaptureTime)).collect();
    assert_eq!(seen, vec![Some(1), Some(3)]);
}

#[test]
fn component_borrow_and_redeem_through_pools() {
    let mut pools = PoolRegistry::new();
    pools.register(BufferType::YUVFrameBuffer, 1, 8).unwrap();
    let c = Component::new(vec![
        Processor::BorrowBuffer(BufferType::YUVFrameBuffer),
        Processor::RedeemBuffer(BufferType::YUVFrameBuffer),
    ]);
    match c.process(&mut pools, FrameData::new(), 0) {
        StepOutcome::Continue(out) => {
            assert!(out.get_ref(&BufferType::YUVFrameBuffer).is_none());
        }
        _ => panic!("borrow then redeem continues"),
    }
    // the buffer went back: it can be borrowed again
    assert!(pools.borrow(BufferType::YUVFrameBuffer).unwrap().is_some());
}

#[test]
fn component_suspends_on_exhausted_pool() {
    let mut pools = PoolRegistry::new();
    pools.register(BufferType::YUVFrameBuffer, 1, 8).unwrap();
    let held = pools.borrow(BufferType::YUVFrameBuffer).unwrap().unwrap();
    let c = Component::new(vec![Processor::BorrowBuffer(BufferType::YUVFrameBuffer)]);
    match c.process(&mut pools, FrameData::new(), 0) {
        StepOutcome::Suspended(_) => {}
        _ => panic!("an exhausted pool suspends the stage"),
    }
    pools.redeem(BufferType::YUVFrameBuffer, held).unwrap();
    match c.process(&mut pools, FrameData::new(), 0) {
        StepOutcome::Continue(out) => {
            assert!(out.get_ref(&BufferType::YUVFrameBuffer).is_some());
        }
        _ => panic!("after the redeem the borrow succeeds"),
    }
}

#[test]
fn strict_redeem_without_buffer_faults() {
    let mut pools = PoolRegistry::new();
    pools.register(BufferType::YUVFrameBuffer, 1, 8).unwrap();
    let c = Component::new(vec![Processor::RedeemBuffer(BufferType::YUVFrameBuffer)]);
    match c.process(&mut pools, FrameData::new(), 0) {
        StepOutcome::Fault(e) => assert_eq!(e, PoolError::MissingBuffer),
        _ => panic!("a strict redeem on a bare context is fatal"),
    }
}

#[test]
fn soft_redeem_without_buffer_continues() {
    let mut pools = PoolRegistry::new();
    pools.register(BufferType::YUVFrameBuffer, 1, 8).unwrap();
    let c = Component::new(vec![Processor::SoftRedeemBuffer(BufferType::YUVFrameBuffer)]);
    match c.process(&mut pools, FrameData::new(), 0) {
        StepOutcome::Continue(out) => {
            assert!(out.get_ref(&BufferType::YUVFrameBuffer).is_none());
        }
        _ => panic!("the lenient redeem tolerates the missing buffer"),
    }
}
