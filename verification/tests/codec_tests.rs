use frame_pipeline::frame::FrameData;
use frame_pipeline::types::{BufferType, Error, Stat};

fn rich_context() -> FrameData {
    let mut ctx = FrameData::new();
    ctx.set(Stat::CaptureTime, 1000);
    ctx.set(Stat::EncodeTime, u128::MAX - 7);
    ctx.set(Stat::FrameDelay, 0);
    ctx.push(BufferType::YUVFrameBuffer, vec![0, 1, 2, 3, 255]);
    ctx.push(BufferType::EncodedFrameBuffer, Vec::new());
    ctx.report_error(Error::CodecError);
    ctx
}

#[test]
fn round_trip_preserves_everything() {
    let ctx = rich_context();
    let bytes = ctx.encode();
    let back = FrameData::decode(&bytes).expect("round trip must decode");
    assert_eq!(back.get(&Stat::CaptureTime), Some(1000));
    assert_eq!(back.get(&Stat::EncodeTime), Some(u128::MAX - 7));
    assert_eq!(back.get(&Stat::FrameDelay), Some(0));
    assert_eq!(back.get(&Stat::DecodeTime), None);
    assert_eq!(
        back.get_ref(&BufferType::YUVFrameBuffer).map(|b| b.clone()),
        Some(vec![0, 1, 2, 3, 255])
    );
    assert_eq!(
        back.get_ref(&BufferType::EncodedFrameBuffer).map(|b| b.clone()),
        Some(Vec::new())
    );
    assert!(back.get_ref(&BufferType::SerializedFrameData).is_none());
    assert_eq!(back.get_error(), Some(Error::CodecError));
}

#[test]
fn round_trip_of_empty_context() {
    let ctx = FrameData::new();
    let bytes = ctx.encode();
    let back = FrameData::decode(&bytes).expect("empty context must decode");
    assert_eq!(back.get(&Stat::CaptureTime), None);
    assert_eq!(back.get_error(), None);
    assert!(back.get_ref(&BufferType::YUVFrameBuffer).is_none());
}

#[test]
fn round_trip_of_error_only_context() {
    let mut ctx = FrameData::new();
    ctx.report_error(Error::NoFrame);
    let bytes = ctx.encode();
    let back = FrameData::decode(&bytes).expect("must decode");
    assert_eq!(back.get_error(), Some(Error::NoFrame));
    assert_eq!(back.get(&Stat::CaptureTime), None);
}

#[test]
fn decode_rejects_truncated_input() {
    assert!(FrameData::decode(&[]).is_err());
    assert!(FrameData::decode(&[0, 0, 0]).is_err());
    let bytes = rich_context().encode();
    assert!(FrameData::decode(&bytes[..bytes.len() - 1]).is_err());
}

#[test]
fn decode_rejects_trailing_bytes() {
    let mut bytes = rich_context().encode();
    bytes.push(0);
    assert!(FrameData::decode(&bytes).is_err());
}

#[test]
fn decode_rejects_unknown_tag() {
    // one statistic entry announced, with an out-of-range key tag
    let mut bytes = vec![1, 0, 0, 0, 0, 0, 0, 0];
    bytes.push(200);
    bytes.extend_from_slice(&[0; 16]);
    bytes.push(0); // healthy
    bytes.extend_from_slice(&[0; 8]); // no buffers
    assert!(FrameData::decode(&bytes).is_err());
}

#[test]
fn decode_rejects_repeated_key() {
    // two statistic entries announced, both the capture-time tag
    let mut bytes = vec![2, 0, 0, 0, 0, 0, 0, 0];
    for _ in 0..2 {
        bytes.push(0);
        bytes.extend_from_slice(&[0; 16]);
    }
    bytes.push(0);
    bytes.extend_from_slice(&[0; 8]);
    assert!(FrameData::decode(&bytes).is_err());
}

#[test]
fn decode_rejects_bad_error_code() {
    let mut bytes = vec![0, 0, 0, 0, 0, 0, 0, 0];
    bytes.push(9); // no such error code
    bytes.extend_from_slice(&[0; 8]);
    assert!(FrameData::decode(&bytes).is_err());
}

#[test]
fn encoding_is_deterministic() {
    let a = rich_context().encode();
    let b = rich_context().encode();
    assert_eq!(a, b);
}

#[test]
fn encoding_ignores_insertion_order() {
    // equal statistics, buffers and error give byte-identical encodings,
    // whatever order the context was built in
    let mut a = FrameData::new();
    a.set(Stat::CaptureTime, 1000);
    a.set(Stat::EncodeTime, 42);
    a.push(BufferType::YUVFrameBuffer, vec![1, 2, 3]);
    a.push(BufferType::EncodedFrameBuffer, vec![9]);

    let mut b = FrameData::new();
    b.push(BufferType::EncodedFrameBuffer, vec![9]);
    b.set(Stat::EncodeTime, 42);
    b.push(BufferType::YUVFrameBuffer, vec![1, 2, 3]);
    b.set(Stat::CaptureTime, 1000);

    assert_eq!(a.encode(), b.encode());
}

#[test]
fn encoding_ignores_overwritten_history() {
    // overwriting a statistic or a buffer leaves no trace in the encoding
    let mut a = FrameData::new();
    a.set(Stat::CaptureTime, 5);
    a.set(Stat::CaptureTime, 1000);
    a.push(BufferType::YUVFrameBuffer, vec![7; 64]);
    a.push(BufferType::YUVFrameBuffer, vec![1, 2]);

    let mut b = FrameData::new();
    b.set(Stat::CaptureTime, 1000);
    b.push(BufferType::YUVFrameBuffer, vec![1, 2]);

    assert_eq!(a.encode(), b.encode());
}
