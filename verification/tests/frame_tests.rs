use frame_pipeline::frame::FrameData;
use frame_pipeline::types::{BufferType, Error, Stat};

#[test]
fn fresh_context_is_empty() {
    let ctx = FrameData::new();
    assert_eq!(ctx.get(&Stat::CaptureTime), None);
    assert_eq!(ctx.get_error(), None);
    assert!(ctx.get_ref(&BufferType::YUVFrameBuffer).is_none());
}

#[test]
fn default_matches_new() {
    let ctx = FrameData::default();
    assert_eq!(ctx.get(&Stat::EncodeTime), None);
    assert_eq!(ctx.get_error(), None);
}

#[test]
fn set_and_get_statistics() {
    let mut ctx = FrameData::new();
    ctx.set(Stat::CaptureTime, 1000);
    ctx.set(Stat::EncodeTime, 42);
    assert_eq!(ctx.get(&Stat::CaptureTime), Some(1000));
    assert_eq!(ctx.get(&Stat::EncodeTime), Some(42));
    assert_eq!(ctx.get(&Stat::DecodeTime), None);
    ctx.set(Stat::CaptureTime, 2000);
    assert_eq!(ctx.get(&Stat::CaptureTime), Some(2000));
}

#[test]
fn push_pull_buffers() {
    let mut ctx = FrameData::new();
    ctx.push(BufferType::YUVFrameBuffer, vec![1, 2, 3]);
    assert_eq!(
        ctx.get_ref(&BufferType::YUVFrameBuffer).map(|b| b.as_slice()),
        Some([1u8, 2, 3].as_slice())
    );
    let pulled = ctx.pull(&BufferType::YUVFrameBuffer);
    assert_eq!(pulled, Some(vec![1, 2, 3]));
    assert!(ctx.pull(&BufferType::YUVFrameBuffer).is_none());
    assert!(ctx.get_ref(&BufferType::YUVFrameBuffer).is_none());
}

#[test]
fn push_replaces_same_key() {
    let mut ctx = FrameData::new();
    ctx.push(BufferType::EncodedFrameBuffer, vec![9]);
    ctx.push(BufferType::EncodedFrameBuffer, vec![7, 8]);
    assert_eq!(ctx.pull(&BufferType::EncodedFrameBuffer), Some(vec![7, 8]));
}

#[test]
fn get_mut_ref_overwrites_in_place() {
    let mut ctx = FrameData::new();
    ctx.push(BufferType::SerializedFrameData, vec![5, 5]);
    let old = ctx.get_mut_ref(&BufferType::SerializedFrameData, vec![6, 6, 6]);
    assert_eq!(old, Ok(vec![5, 5]));
    assert_eq!(ctx.pull(&BufferType::SerializedFrameData), Some(vec![6, 6, 6]));
    let refused = ctx.get_mut_ref(&BufferType::SerializedFrameData, vec![1]);
    assert_eq!(refused, Err(vec![1]));
}

#[test]
fn report_and_read_error() {
    let mut ctx = FrameData::new();
    assert_eq!(ctx.get_error(), None);
    ctx.report_error(Error::NoFrame);
    assert_eq!(ctx.get_error(), Some(Error::NoFrame));
    // reading does not clear it
    assert_eq!(ctx.get_error(), Some(Error::NoFrame));
    ctx.report_error(Error::CodecError);
    assert_eq!(ctx.get_error(), Some(Error::CodecError));
}
