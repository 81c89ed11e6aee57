//! The enumerated keys and error kinds that flow through the pipeline:
//! buffer keys, statistic keys, per-context error kinds and pipeline names.

use vstd::prelude::*;

verus! {

/// Key tagging one of the owned byte buffers a frame context may carry.
#[derive(Clone, Copy, Debug, PartialEq, Eq, Structural, Hash)]
pub enum BufferType {
    YUVFrameBuffer,
    EncodedFrameBuffer,
    SerializedFrameData,
    DecodedRGBAFrameBuffer,
}

/// Key tagging one timestamp or duration statistic of a frame context.
#[derive(Clone, Copy, Debug, PartialEq, Eq, Structural, Hash)]
pub enum Stat {
    CaptureTime,
    EncodePushTime,
    TransmissionStartTime,
    DecodePushTime,
    EncodeTime,
    TransmissionTime,
    DecodeTime,
    FrameDelay,
    ReceptionDelay,
}

/// The soft, per-context error kinds a processor may report; at most one is
/// outstanding on a context at a time.
#[derive(Clone, Copy, Debug, PartialEq, Eq, Structural, Hash)]
pub enum Error {
    NoFrame,
    CodecError,
}

/// Name under which a pipeline is registered; an error switch diverts
/// failed contexts to the pipeline registered under its configured name.
#[derive(Clone, Copy, Debug, PartialEq, Eq, Structural, Hash)]
pub enum PipelineName {
    Main,
    Error,
}

} // verus!
