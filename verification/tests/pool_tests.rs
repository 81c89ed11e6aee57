use frame_pipeline::frame::FrameData;
use frame_pipeline::pool::{BufferPool, PoolError, PoolRegistry};
use frame_pipeline::types::{BufferType, Error, Stat};

#[test]
fn borrow_suspends_at_capacity_and_resumes_after_redeem() {
    // capacity 1, 16-byte buffers: the first borrow succeeds, the second
    // must wait, and after a redeem the same 16-byte slot comes back
    let mut pool = BufferPool::new(1, 16);
    let mut first = pool.borrow().expect("one buffer is free");
    assert_eq!(first.len(), 16);
    assert!(pool.borrow().is_none(), "an exhausted pool suspends the borrower");
    first[0] = 0xAB;
    pool.redeem(first).expect("the borrowed buffer belongs to the pool");
    let again = pool.borrow().expect("the redeem made a buffer free again");
    assert_eq!(again.len(), 16);
    assert_eq!(again[0], 0xAB, "the same slot is reused, not reallocated");
}

#[test]
fn borrowed_buffers_never_exceed_capacity() {
    let mut pool = BufferPool::new(3, 4);
    let mut held = Vec::new();
    for _ in 0..3 {
        held.push(pool.borrow().expect("capacity not yet reached"));
    }
    for _ in 0..5 {
        assert!(pool.borrow().is_none());
    }
    pool.redeem(held.pop().unwrap()).unwrap();
    assert!(pool.borrow().is_some());
}

#[test]
fn redeem_of_foreign_buffer_is_fatal() {
    let mut pool = BufferPool::new(1, 16);
    // wrong size: cannot belong to this pool
    assert_eq!(pool.redeem(vec![0; 8]), Err(PoolError::ForeignBuffer));
    // pool already full: a second buffer of the right size is foreign too
    assert_eq!(pool.redeem(vec![0; 16]), Err(PoolError::ForeignBuffer));
    let b = pool.borrow().unwrap();
    assert_eq!(pool.redeem(b), Ok(()));
}

#[test]
fn registry_rejects_duplicate_registration() {
    let mut pools = PoolRegistry::new();
    assert_eq!(pools.register(BufferType::YUVFrameBuffer, 2, 8), Ok(()));
    assert_eq!(
        pools.register(BufferType::YUVFrameBuffer, 5, 32),
        Err(PoolError::DuplicateKey)
    );
    assert_eq!(pools.register(BufferType::EncodedFrameBuffer, 1, 8), Ok(()));
}

#[test]
fn registry_borrow_and_redeem_by_key() {
    let mut pools = PoolRegistry::new();
    pools.register(BufferType::YUVFrameBuffer, 1, 8).unwrap();
    assert_eq!(
        pools.borrow(BufferType::EncodedFrameBuffer),
        Err(PoolError::UnknownKey)
    );
    let b = pools
        .borrow(BufferType::YUVFrameBuffer)
        .unwrap()
        .expect("one buffer free");
    assert_eq!(b.len(), 8);
    assert!(pools.borrow(BufferType::YUVFrameBuffer).unwrap().is_none());
    pools.redeem(BufferType::YUVFrameBuffer, b).unwrap();
    assert!(pools.borrow(BufferType::YUVFrameBuffer).unwrap().is_some());
}

#[test]
fn redeem_soft_without_buffer_is_a_no_op() {
    let mut pools = PoolRegistry::new();
    pools.register(BufferType::EncodedFrameBuffer, 1, 4).unwrap();
    let mut ctx = FrameData::new();
    ctx.set(Stat::CaptureTime, 77);
    ctx.report_error(Error::NoFrame);
    // the context never reached the buffer-producing stage: nothing happens
    assert_eq!(pools.redeem_soft(BufferType::EncodedFrameBuffer, &mut ctx), Ok(()));
    assert_eq!(ctx.get(&Stat::CaptureTime), Some(77));
    assert_eq!(ctx.get_error(), Some(Error::NoFrame));
    assert!(ctx.get_ref(&BufferType::EncodedFrameBuffer).is_none());
    // the pool still hands out its one buffer afterwards
    assert!(pools.borrow(BufferType::EncodedFrameBuffer).unwrap().is_some());
}

#[test]
fn redeem_soft_with_buffer_returns_it() {
    let mut pools = PoolRegistry::new();
    pools.register(BufferType::EncodedFrameBuffer, 1, 4).unwrap();
    let b = pools.borrow(BufferType::EncodedFrameBuffer).unwrap().unwrap();
    let mut ctx = FrameData::new();
    ctx.push(BufferType::EncodedFrameBuffer, b);
    assert!(pools.borrow(BufferType::EncodedFrameBuffer).unwrap().is_none());
    assert_eq!(pools.redeem_soft(BufferType::EncodedFrameBuffer, &mut ctx), Ok(()));
    assert!(ctx.get_ref(&BufferType::EncodedFrameBuffer).is_none());
    assert!(pools.borrow(BufferType::EncodedFrameBuffer).unwrap().is_some());
}
