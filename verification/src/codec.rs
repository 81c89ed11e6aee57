//! The on-wire encoding of a frame context and its parser.
//!
//! The format is deterministic and symmetric with its decoder: a 64-bit
//! little-endian count of statistic entries, each entry a one-byte key tag
//! followed by a 128-bit little-endian value; one byte for the error slot;
//! a 64-bit count of buffer entries, each a one-byte key tag, a 64-bit
//! length and that many raw bytes. `parse_frame` is the specification the
//! encoder and decoder are verified against: whatever `FrameData::encode`
//! produces parses back to the very maps that were encoded.

use vstd::bytes::{
    lemma_auto_spec_u128_to_from_le_bytes, lemma_auto_spec_u64_to_from_le_bytes,
    spec_u128_from_le_bytes, spec_u128_to_le_bytes, spec_u64_from_le_bytes, spec_u64_to_le_bytes,
    u128_from_le_bytes, u128_to_le_bytes, u64_from_le_bytes, u64_to_le_bytes,
};
use vstd::prelude::*;
use vstd::slice::{slice_index_get, slice_subrange, slice_to_vec};

use crate::kvmap;
use crate::types::{BufferType, Error, Stat};

verus! {

/// Why a decode failed: the input is not a well-formed encoded frame
/// context (truncated, an unknown tag, a repeated key, or trailing bytes).
#[derive(Clone, Copy, Debug, PartialEq, Eq, Structural)]
pub enum DecodeError {
    Malformed,
}

/// The wire tag of a statistic key.
pub open spec fn stat_tag(s: Stat) -> u8 {
    match s {
        Stat::CaptureTime => 0u8,
        Stat::EncodePushTime => 1u8,
        Stat::TransmissionStartTime => 2u8,
        Stat::DecodePushTime => 3u8,
        Stat::EncodeTime => 4u8,
        Stat::TransmissionTime => 5u8,
        Stat::DecodeTime => 6u8,
        Stat::FrameDelay => 7u8,
        Stat::ReceptionDelay => 8u8,
    }
}

/// The statistic key a wire tag denotes, if any.
pub open spec fn stat_of_tag(t: u8) -> Option<Stat> {
    if t == 0 {
        Some(Stat::CaptureTime)
    } else if t == 1 {
        Some(Stat::EncodePushTime)
    } else if t == 2 {
        Some(Stat::TransmissionStartTime)
    } else if t == 3 {
        Some(Stat::DecodePushTime)
    } else if t == 4 {
        Some(Stat::EncodeTime)
    } else if t == 5 {
        Some(Stat::TransmissionTime)
    } else if t == 6 {
        Some(Stat::DecodeTime)
    } else if t == 7 {
        Some(Stat::FrameDelay)
    } else if t == 8 {
        Some(Stat::ReceptionDelay)
    } else {
        None
    }
}

/// The wire tag of a buffer key.
pub open spec fn buffer_tag(b: BufferType) -> u8 {
    match b {
        BufferType::YUVFrameBuffer => 0u8,
        BufferType::EncodedFrameBuffer => 1u8,
        BufferType::SerializedFrameData => 2u8,
        BufferType::DecodedRGBAFrameBuffer => 3u8,
    }
}

/// The buffer key a wire tag denotes, if any.
pub open spec fn buffer_of_tag(t: u8) -> Option<BufferType> {
    if t == 0 {
        Some(BufferType::YUVFrameBuffer)
    } else if t == 1 {
        Some(BufferType::EncodedFrameBuffer)
    } else if t == 2 {
        Some(BufferType::SerializedFrameData)
    } else if t == 3 {
        Some(BufferType::DecodedRGBAFrameBuffer)
    } else {
        None
    }
}

/// The wire byte of the error slot.
pub open spec fn error_code(e: Option<Error>) -> u8 {
    match e {
        None => 0u8,
        Some(Error::NoFrame) => 1u8,
        Some(Error::CodecError) => 2u8,
    }
}

/// The error slot a wire byte denotes, if any.
pub open spec fn error_of_code(t: u8) -> Option<Option<Error>> {
    if t == 0 {
        Some(None)
    } else if t == 1 {
        Some(Some(Error::NoFrame))
    } else if t == 2 {
        Some(Some(Error::CodecError))
    } else {
        None
    }
}

/// Parse `n` statistic entries from the front of `bytes`; on success the
/// entries and the unconsumed rest.
pub open spec fn parse_stats(bytes: Seq<u8>, n: nat) -> Option<(Seq<(Stat, u128)>, Seq<u8>)>
    decreases n,
{
    if n == 0 {
        Some((Seq::empty(), bytes))
    } else if bytes.len() < 17 {
        None
    } else {
        match stat_of_tag(bytes[0]) {
            None => None,
            Some(k) => {
                let v = spec_u128_from_le_bytes(bytes.subrange(1, 17));
                match parse_stats(bytes.skip(17), (n - 1) as nat) {
                    None => None,
                    Some((rest, tail)) => Some((seq![(k, v)] + rest, tail)),
                }
            },
        }
    }
}

/// Parse `n` buffer entries from the front of `bytes`.
pub open spec fn parse_bufs(bytes: Seq<u8>, n: nat) -> Option<(Seq<(BufferType, Seq<u8>)>, Seq<u8>)>
    decreases n,
{
    if n == 0 {
        Some((Seq::empty(), bytes))
    } else if bytes.len() < 9 {
        None
    } else {
        match buffer_of_tag(bytes[0]) {
            None => None,
            Some(k) => {
                let len = spec_u64_from_le_bytes(bytes.subrange(1, 9)) as int;
                if bytes.len() < 9 + len {
                    None
                } else {
                    let content = bytes.subrange(9, 9 + len);
                    match parse_bufs(bytes.skip(9 + len), (n - 1) as nat) {
                        None => None,
                        Some((rest, tail)) => Some((seq![(k, content)] + rest, tail)),
                    }
                }
            },
        }
    }
}

/// Parse a whole encoded frame context: the statistics map, the buffers map
/// and the error slot. `None` on any malformed input: truncated data, an
/// unknown tag, a repeated key, or trailing bytes.
pub open spec fn parse_frame(bytes: Seq<u8>) -> Option<
    (Map<Stat, u128>, Map<BufferType, Seq<u8>>, Option<Error>),
> {
    if bytes.len() < 8 {
        None
    } else {
        let ns = spec_u64_from_le_bytes(bytes.subrange(0, 8));
        match parse_stats(bytes.skip(8), ns as nat) {
            None => None,
            Some((stats, rest1)) => if !kvmap::keys_unique(stats) || rest1.len() < 1 {
                None
            } else {
                match error_of_code(rest1[0]) {
                    None => None,
                    Some(err) => {
                        let rest2 = rest1.skip(1);
                        if rest2.len() < 8 {
                            None
                        } else {
                            let nb = spec_u64_from_le_bytes(rest2.subrange(0, 8));
                            match parse_bufs(rest2.skip(8), nb as nat) {
                                None => None,
                                Some((bufs, tail)) => if !kvmap::keys_unique(bufs)
                                    || tail.len() != 0 {
                                    None
                                } else {
                                    Some((kvmap::as_map(stats), kvmap::as_map(bufs), err))
                                },
                            }
                        }
                    },
                }
            },
        }
    }
}

/// The serialized form of a statistic entry list.
pub open spec fn ser_stats(s: Seq<(Stat, u128)>) -> Seq<u8>
    decreases s.len(),
{
    if s.len() == 0 {
        Seq::empty()
    } else {
        seq![stat_tag(s[0].0)] + spec_u128_to_le_bytes(s[0].1) + ser_stats(s.skip(1))
    }
}

/// Every buffer in the list is short enough for its 64-bit length field.
pub open spec fn bufs_fit(s: Seq<(BufferType, Seq<u8>)>) -> bool {
    forall|i: int| 0 <= i < s.len() ==> s[i].1.len() <= u64::MAX
}

/// The serialized form of a buffer entry list.
pub open spec fn ser_bufs(s: Seq<(BufferType, Seq<u8>)>) -> Seq<u8>
    decreases s.len(),
{
    if s.len() == 0 {
        Seq::empty()
    } else {
        seq![buffer_tag(s[0].0)] + spec_u64_to_le_bytes(s[0].1.len() as u64) + s[0].1 + ser_bufs(
            s.skip(1),
        )
    }
}

/// Round trip of the wire tags.
proof fn lemma_tag_roundtrip()
    ensures
        forall|s: Stat| #![trigger stat_tag(s)] stat_of_tag(stat_tag(s)) == Some(s),
        forall|b: BufferType| #![trigger buffer_tag(b)] buffer_of_tag(buffer_tag(b)) == Some(b),
        forall|e: Option<Error>| #![trigger error_code(e)] error_of_code(error_code(e)) == Some(e),
{
}

/// Parsing the serialized statistic list out of any longer stream consumes
/// exactly that list and leaves the suffix.
pub proof fn lemma_parse_ser_stats(s: Seq<(Stat, u128)>, suffix: Seq<u8>)
    ensures
        parse_stats(ser_stats(s) + suffix, s.len()) == Some((s, suffix)),
    decreases s.len(),
{
    lemma_tag_roundtrip();
    lemma_auto_spec_u128_to_from_le_bytes();
    if s.len() == 0 {
        assert(ser_stats(s) + suffix =~= suffix);
    } else {
        let bytes = ser_stats(s) + suffix;
        let vb = spec_u128_to_le_bytes(s[0].1);
        assert(bytes =~= seq![stat_tag(s[0].0)] + vb + (ser_stats(s.skip(1)) + suffix));
        assert(bytes[0] == stat_tag(s[0].0));
        assert(bytes.subrange(1, 17) =~= vb);
        assert(bytes.skip(17) =~= ser_stats(s.skip(1)) + suffix);
        lemma_parse_ser_stats(s.skip(1), suffix);
        assert(seq![(s[0].0, s[0].1)] + s.skip(1) =~= s);
    }
}

/// Parsing the serialized buffer list out of any longer stream consumes
/// exactly that list and leaves the suffix.
pub proof fn lemma_parse_ser_bufs(s: Seq<(BufferType, Seq<u8>)>, suffix: Seq<u8>)
    requires
        bufs_fit(s),
    ensures
        parse_bufs(ser_bufs(s) + suffix, s.len()) == Some((s, suffix)),
    decreases s.len(),
{
    lemma_tag_roundtrip();
    lemma_auto_spec_u64_to_from_le_bytes();
    if s.len() == 0 {
        assert(ser_bufs(s) + suffix =~= suffix);
    } else {
        let bytes = ser_bufs(s) + suffix;
        let content = s[0].1;
        let lb = spec_u64_to_le_bytes(content.len() as u64);
        assert(bytes =~= seq![buffer_tag(s[0].0)] + lb + content + (ser_bufs(s.skip(1)) + suffix));
        assert(bytes[0] == buffer_tag(s[0].0));
        assert(bytes.subrange(1, 9) =~= lb);
        assert(spec_u64_from_le_bytes(lb) == content.len() as u64);
        assert(bytes.subrange(9, 9 + content.len() as int) =~= content);
        assert(bytes.skip(9 + content.len() as int) =~= ser_bufs(s.skip(1)) + suffix);
        assert(bufs_fit(s.skip(1)));
        lemma_parse_ser_bufs(s.skip(1), suffix);
        assert(seq![(s[0].0, content)] + s.skip(1) =~= s);
    }
}

/// The serialized form of a whole frame context, given its two entry lists
/// and its error slot.
pub open spec fn ser_frame(
    stats: Seq<(Stat, u128)>,
    bufs: Seq<(BufferType, Seq<u8>)>,
    err: Option<Error>,
) -> Seq<u8> {
    spec_u64_to_le_bytes(stats.len() as u64) + ser_stats(stats) + seq![error_code(err)]
        + spec_u64_to_le_bytes(bufs.len() as u64) + ser_bufs(bufs)
}

/// Every statistic key, in wire-tag order.
pub open spec fn all_stats() -> Seq<Stat> {
    seq![
        Stat::CaptureTime,
        Stat::EncodePushTime,
        Stat::TransmissionStartTime,
        Stat::DecodePushTime,
        Stat::EncodeTime,
        Stat::TransmissionTime,
        Stat::DecodeTime,
        Stat::FrameDelay,
        Stat::ReceptionDelay,
    ]
}

/// Every buffer key, in wire-tag order.
pub open spec fn all_buffer_types() -> Seq<BufferType> {
    seq![
        BufferType::YUVFrameBuffer,
        BufferType::EncodedFrameBuffer,
        BufferType::SerializedFrameData,
        BufferType::DecodedRGBAFrameBuffer,
    ]
}

/// The statistics map read off in wire-tag order: the canonical entry list
/// of the map, a function of the map alone.
pub open spec fn canonical_stat_entries(m: Map<Stat, u128>) -> Seq<(Stat, u128)> {
    kvmap::entries_of(all_stats(), m)
}

/// The buffers map read off in wire-tag order.
pub open spec fn canonical_buf_entries(m: Map<BufferType, Seq<u8>>) -> Seq<(BufferType, Seq<u8>)> {
    kvmap::entries_of(all_buffer_types(), m)
}

/// The canonical encoding of a frame context: entries serialized in
/// wire-tag order, so the bytes are a function of the statistics map, the
/// buffers map and the error slot alone — equal content gives
/// byte-identical encodings, whatever order it was built in.
pub open spec fn canonical_frame_bytes(
    stats: Map<Stat, u128>,
    bufs: Map<BufferType, Seq<u8>>,
    err: Option<Error>,
) -> Seq<u8> {
    ser_frame(canonical_stat_entries(stats), canonical_buf_entries(bufs), err)
}

/// The wire-tag key orders list every key exactly once.
proof fn lemma_key_orders()
    ensures
        kvmap::distinct(all_stats()),
        forall|k: Stat| all_stats().contains(k),
        kvmap::distinct(all_buffer_types()),
        forall|k: BufferType| all_buffer_types().contains(k),
{
    assert forall|k: Stat| all_stats().contains(k) by {
        match k {
            Stat::CaptureTime => assert(all_stats()[0] == k),
            Stat::EncodePushTime => assert(all_stats()[1] == k),
            Stat::TransmissionStartTime => assert(all_stats()[2] == k),
            Stat::DecodePushTime => assert(all_stats()[3] == k),
            Stat::EncodeTime => assert(all_stats()[4] == k),
            Stat::TransmissionTime => assert(all_stats()[5] == k),
            Stat::DecodeTime => assert(all_stats()[6] == k),
            Stat::FrameDelay => assert(all_stats()[7] == k),
            Stat::ReceptionDelay => assert(all_stats()[8] == k),
        }
    }
    assert forall|k: BufferType| all_buffer_types().contains(k) by {
        match k {
            BufferType::YUVFrameBuffer => assert(all_buffer_types()[0] == k),
            BufferType::EncodedFrameBuffer => assert(all_buffer_types()[1] == k),
            BufferType::SerializedFrameData => assert(all_buffer_types()[2] == k),
            BufferType::DecodedRGBAFrameBuffer => assert(all_buffer_types()[3] == k),
        }
    }
}

/// The canonical entry list of a statistics map has unique keys, at most
/// one entry per key of the map, and denotes the map itself.
pub proof fn lemma_canonical_stats(m: Map<Stat, u128>)
    ensures
        kvmap::keys_unique(canonical_stat_entries(m)),
        kvmap::as_map(canonical_stat_entries(m)) == m,
        canonical_stat_entries(m).len() <= 9,
{
    lemma_key_orders();
    kvmap::lemma_entries_of(all_stats(), m);
    assert(kvmap::as_map(canonical_stat_entries(m)) =~= m);
    lemma_entries_len(all_stats(), m);
}

/// The canonical entry list of a buffers map has unique keys and denotes
/// the map itself.
pub proof fn lemma_canonical_bufs(m: Map<BufferType, Seq<u8>>)
    ensures
        kvmap::keys_unique(canonical_buf_entries(m)),
        kvmap::as_map(canonical_buf_entries(m)) == m,
        canonical_buf_entries(m).len() <= 4,
{
    lemma_key_orders();
    kvmap::lemma_entries_of(all_buffer_types(), m);
    assert(kvmap::as_map(canonical_buf_entries(m)) =~= m);
    lemma_entries_len(all_buffer_types(), m);
}

/// Reading a map off along `keys` yields at most one entry per key.
proof fn lemma_entries_len<K, V>(keys: Seq<K>, m: Map<K, V>)
    ensures
        kvmap::entries_of(keys, m).len() <= keys.len(),
    decreases keys.len(),
{
    if keys.len() > 0 {
        lemma_entries_len(keys.drop_last(), m);
    }
}

/// Round-trip law: decoding an encoded frame context reproduces the
/// statistics map, the buffers map (byte for byte) and the error slot
/// exactly, for every well-formed context.
pub proof fn lemma_frame_round_trip(
    stats: Seq<(Stat, u128)>,
    bufs: Seq<(BufferType, Seq<u8>)>,
    err: Option<Error>,
)
    requires
        kvmap::keys_unique(stats),
        kvmap::keys_unique(bufs),
        stats.len() <= u64::MAX,
        bufs.len() <= u64::MAX,
        bufs_fit(bufs),
    ensures
        parse_frame(ser_frame(stats, bufs, err)) == Some(
            (kvmap::as_map(stats), kvmap::as_map(bufs), err),
        ),
{
    lemma_auto_spec_u64_to_from_le_bytes();
    let ns = stats.len() as u64;
    let nb = bufs.len() as u64;
    let c_ns = spec_u64_to_le_bytes(ns);
    let c_nb = spec_u64_to_le_bytes(nb);
    let ss = ser_stats(stats);
    let bs = ser_bufs(bufs);
    let e = error_code(err);
    let out = ser_frame(stats, bufs, err);
    assert(out =~= c_ns + ss + seq![e] + c_nb + bs);
    assert(out.subrange(0, 8) =~= c_ns);
    let suffix = seq![e] + c_nb + bs;
    assert(out.skip(8) =~= ss + suffix);
    lemma_parse_ser_stats(stats, suffix);
    assert(suffix[0] == e);
    assert(error_of_code(e) == Some(err));
    let rest2 = suffix.skip(1);
    assert(rest2 =~= c_nb + bs);
    assert(rest2.subrange(0, 8) =~= c_nb);
    lemma_parse_ser_bufs(bufs, Seq::empty());
    assert(rest2.skip(8) =~= bs + Seq::<u8>::empty());
}

/// Serialization distributes over concatenation of entry lists.
proof fn lemma_ser_stats_append(a: Seq<(Stat, u128)>, b: Seq<(Stat, u128)>)
    ensures
        ser_stats(a + b) == ser_stats(a) + ser_stats(b),
    decreases a.len(),
{
    if a.len() == 0 {
        assert(a + b =~= b);
        assert(ser_stats(a) + ser_stats(b) =~= ser_stats(b));
    } else {
        assert((a + b).skip(1) =~= a.skip(1) + b);
        lemma_ser_stats_append(a.skip(1), b);
        assert(ser_stats(a + b) =~= ser_stats(a) + ser_stats(b));
    }
}

/// Serialization distributes over concatenation of entry lists.
proof fn lemma_ser_bufs_append(a: Seq<(BufferType, Seq<u8>)>, b: Seq<(BufferType, Seq<u8>)>)
    ensures
        ser_bufs(a + b) == ser_bufs(a) + ser_bufs(b),
    decreases a.len(),
{
    if a.len() == 0 {
        assert(a + b =~= b);
        assert(ser_bufs(a) + ser_bufs(b) =~= ser_bufs(b));
    } else {
        assert((a + b).skip(1) =~= a.skip(1) + b);
        lemma_ser_bufs_append(a.skip(1), b);
        assert(ser_bufs(a + b) =~= ser_bufs(a) + ser_bufs(b));
    }
}

fn stat_tag_exec(s: Stat) -> (t: u8)
    ensures
        t == stat_tag(s),
{
    match s {
        Stat::CaptureTime => 0u8,
        Stat::EncodePushTime => 1u8,
        Stat::TransmissionStartTime => 2u8,
        Stat::DecodePushTime => 3u8,
        Stat::EncodeTime => 4u8,
        Stat::TransmissionTime => 5u8,
        Stat::DecodeTime => 6u8,
        Stat::FrameDelay => 7u8,
        Stat::ReceptionDelay => 8u8,
    }
}

fn stat_of_tag_exec(t: u8) -> (r: Option<Stat>)
    ensures
        r == stat_of_tag(t),
{
    if t == 0 {
        Some(Stat::CaptureTime)
    } else if t == 1 {
        Some(Stat::EncodePushTime)
    } else if t == 2 {
        Some(Stat::TransmissionStartTime)
    } else if t == 3 {
        Some(Stat::DecodePushTime)
    } else if t == 4 {
        Some(Stat::EncodeTime)
    } else if t == 5 {
        Some(Stat::TransmissionTime)
    } else if t == 6 {
        Some(Stat::DecodeTime)
    } else if t == 7 {
        Some(Stat::FrameDelay)
    } else if t == 8 {
        Some(Stat::ReceptionDelay)
    } else {
        None
    }
}

fn buffer_tag_exec(b: BufferType) -> (t: u8)
    ensures
        t == buffer_tag(b),
{
    match b {
        BufferType::YUVFrameBuffer => 0u8,
        BufferType::EncodedFrameBuffer => 1u8,
        BufferType::SerializedFrameData => 2u8,
        BufferType::DecodedRGBAFrameBuffer => 3u8,
    }
}

fn buffer_of_tag_exec(t: u8) -> (r: Option<BufferType>)
    ensures
        r == buffer_of_tag(t),
{
    if t == 0 {
        Some(BufferType::YUVFrameBuffer)
    } else if t == 1 {
        Some(BufferType::EncodedFrameBuffer)
    } else if t == 2 {
        Some(BufferType::SerializedFrameData)
    } else if t == 3 {
        Some(BufferType::DecodedRGBAFrameBuffer)
    } else {
        None
    }
}

pub(crate) fn error_code_exec(e: Option<Error>) -> (t: u8)
    ensures
        t == error_code(e),
{
    match e {
        None => 0u8,
        Some(Error::NoFrame) => 1u8,
        Some(Error::CodecError) => 2u8,
    }
}

pub(crate) fn error_of_code_exec(t: u8) -> (r: Option<Option<Error>>)
    ensures
        r == error_of_code(t),
{
    if t == 0 {
        Some(None)
    } else if t == 1 {
        Some(Some(Error::NoFrame))
    } else if t == 2 {
        Some(Some(Error::CodecError))
    } else {
        None
    }
}

/// Serialize a statistic entry list.
pub(crate) fn encode_stats(entries: &Vec<(Stat, u128)>) -> (out: Vec<u8>)
    ensures
        out@ == ser_stats(entries@),
{
    let mut out: Vec<u8> = Vec::new();
    let mut i: usize = 0;
    while i < entries.len()
        invariant
            i <= entries@.len(),
            out@ == ser_stats(entries@.take(i as int)),
        decreases entries@.len() - i,
    {
        let (k, v) = entries[i];
        let ghost pre = out@;
        out.push(stat_tag_exec(k));
        let mut vb = u128_to_le_bytes(v);
        out.append(&mut vb);
        proof {
            let head = entries@.take(i as int);
            assert(entries@.take(i as int + 1) =~= head + seq![(k, v)]);
            lemma_ser_stats_append(head, seq![(k, v)]);
            assert(seq![(k, v)].skip(1) =~= Seq::<(Stat, u128)>::empty());
            assert(ser_stats(seq![(k, v)].skip(1)) == Seq::<u8>::empty());
            assert(ser_stats(seq![(k, v)]) =~= seq![stat_tag(k)] + spec_u128_to_le_bytes(v));
            assert(out@ =~= ser_stats(head) + ser_stats(seq![(k, v)]));
        }
        i = i + 1;
    }
    proof {
        assert(entries@.take(entries@.len() as int) =~= entries@);
    }
    out
}

/// Serialize a buffer entry list.
pub(crate) fn encode_bufs(entries: &Vec<(BufferType, Vec<u8>)>) -> (out: Vec<u8>)
    ensures
        out@ == ser_bufs(crate::frame::buf_pairs(entries@)),
{
    let ghost all = crate::frame::buf_pairs(entries@);
    let mut out: Vec<u8> = Vec::new();
    let mut i: usize = 0;
    while i < entries.len()
        invariant
            i <= entries@.len(),
            all == crate::frame::buf_pairs(entries@),
            out@ == ser_bufs(all.take(i as int)),
        decreases entries@.len() - i,
    {
        let k = entries[i].0;
        let ghost content = entries@[i as int].1@;
        out.push(buffer_tag_exec(k));
        let mut lb = u64_to_le_bytes(entries[i].1.len() as u64);
        out.append(&mut lb);
        out.extend_from_slice(entries[i].1.as_slice());
        proof {
            let head = all.take(i as int);
            assert(all[i as int] == (k, content));
            assert(all.take(i as int + 1) =~= head + seq![(k, content)]);
            lemma_ser_bufs_append(head, seq![(k, content)]);
            assert(seq![(k, content)].skip(1) =~= Seq::<(BufferType, Seq<u8>)>::empty());
            assert(ser_bufs(seq![(k, content)].skip(1)) == Seq::<u8>::empty());
            assert(ser_bufs(seq![(k, content)]) =~= seq![buffer_tag(k)] + spec_u64_to_le_bytes(
                content.len() as u64,
            ) + content);
            assert(out@ =~= ser_bufs(head) + ser_bufs(seq![(k, content)]));
        }
        i = i + 1;
    }
    proof {
        assert(all.take(all.len() as int) =~= all);
    }
    out
}

fn find_key_stat(v: &Vec<(Stat, u128)>, k: Stat) -> (r: bool)
    ensures
        r == kvmap::has_key(v@, k),
{
    let mut i: usize = 0;
    while i < v.len()
        invariant
            i <= v@.len(),
            forall|j: int| 0 <= j < i ==> v@[j].0 != k,
        decreases v@.len() - i,
    {
        if v[i].0 == k {
            assert(kvmap::has_key(v@, k));
            return true;
        }
        i = i + 1;
    }
    assert(!kvmap::has_key(v@, k));
    false
}

fn find_key_buf(v: &Vec<(BufferType, Vec<u8>)>, k: BufferType) -> (r: bool)
    ensures
        r == kvmap::has_key(crate::frame::buf_pairs(v@), k),
{
    let ghost pairs = crate::frame::buf_pairs(v@);
    let mut i: usize = 0;
    while i < v.len()
        invariant
            i <= v@.len(),
            pairs == crate::frame::buf_pairs(v@),
            forall|j: int| 0 <= j < i ==> pairs[j].0 != k,
        decreases v@.len() - i,
    {
        if v[i].0 == k {
            assert(pairs[i as int].0 == k);
            assert(kvmap::has_key(pairs, k));
            return true;
        }
        i = i + 1;
    }
    assert(!kvmap::has_key(pairs, k));
    false
}

/// Parse `n` statistic entries of `data` starting at `start`. `Ok` gives the
/// entries (with pairwise distinct keys) and the position after them; `Err`
/// means the stream is structurally malformed there or repeats a key.
pub(crate) fn parse_stats_exec(data: &[u8], start: usize, n: u64) -> (r: Result<
    (Vec<(Stat, u128)>, usize),
    (),
>)
    requires
        start <= data@.len(),
    ensures
        match r {
            Ok((list, end)) => {
                &&& start <= end <= data@.len()
                &&& kvmap::keys_unique(list@)
                &&& parse_stats(data@.skip(start as int), n as nat) == Some(
                    (list@, data@.skip(end as int)),
                )
            },
            Err(()) => match parse_stats(data@.skip(start as int), n as nat) {
                None => true,
                Some((l, _)) => !kvmap::keys_unique(l),
            },
        },
{
    let mut acc: Vec<(Stat, u128)> = Vec::new();
    let mut pos: usize = start;
    let mut i: u64 = 0;
    while i < n
        invariant
            start <= pos <= data@.len(),
            i <= n,
            kvmap::keys_unique(acc@),
            forall|l: Seq<(Stat, u128)>, t: Seq<u8>|
                parse_stats(data@.skip(pos as int), (n - i) as nat) == Some::<
                    (Seq<(Stat, u128)>, Seq<u8>),
                >((l, t)) ==> parse_stats(data@.skip(start as int), n as nat) == Some::<
                    (Seq<(Stat, u128)>, Seq<u8>),
                >((acc@ + l, t)),
            parse_stats(data@.skip(pos as int), (n - i) as nat) is None ==> parse_stats(
                data@.skip(start as int),
                n as nat,
            ) is None,
        decreases n - i,
    {
        let ghost rem = data@.skip(pos as int);
        if data.len() - pos < 17 {
            return Err(());
        }
        let tag = *slice_index_get(data, pos);
        proof {
            assert(rem[0] == data@[pos as int]);
        }
        let k = match stat_of_tag_exec(tag) {
            Some(k) => k,
            None => {
                return Err(());
            },
        };
        let v = u128_from_le_bytes(slice_subrange(data, pos + 1, pos + 17));
        proof {
            assert(data@.subrange(pos + 1, pos + 17) =~= rem.subrange(1, 17));
            assert(data@.skip(pos + 17) =~= rem.skip(17));
        }
        if find_key_stat(&acc, k) {
            proof {
                match parse_stats(rem.skip(17), (n - i - 1) as nat) {
                    None => {},
                    Some((l2, t2)) => {
                        assert(parse_stats(rem, (n - i) as nat) == Some::<
                            (Seq<(Stat, u128)>, Seq<u8>),
                        >((seq![(k, v)] + l2, t2)));
                        assert(parse_stats(data@.skip(start as int), n as nat) == Some::<
                            (Seq<(Stat, u128)>, Seq<u8>),
                        >((acc@ + (seq![(k, v)] + l2), t2)));
                        let full = acc@ + (seq![(k, v)] + l2);
                        let j = kvmap::index_of(acc@, k);
                        assert(full[j] == acc@[j]);
                        assert(full[acc@.len() as int] == (k, v));
                        assert(!kvmap::keys_unique(full));
                    },
                }
            }
            return Err(());
        }
        proof {
            kvmap::lemma_push_new(acc@, k, v);
            let acc2 = acc@.push((k, v));
            assert(acc2 =~= acc@ + seq![(k, v)]);
            match parse_stats(data@.skip(pos + 17), (n - i - 1) as nat) {
                None => {},
                Some((l2, t2)) => {
                    assert(parse_stats(rem, (n - i) as nat) == Some::<
                        (Seq<(Stat, u128)>, Seq<u8>),
                    >((seq![(k, v)] + l2, t2)));
                    assert(acc@ + (seq![(k, v)] + l2) =~= acc2 + l2);
                },
            }
        }
        acc.push((k, v));
        pos = pos + 17;
        i = i + 1;
    }
    proof {
        assert(parse_stats(data@.skip(pos as int), 0) == Some::<(Seq<(Stat, u128)>, Seq<u8>)>(
            (Seq::empty(), data@.skip(pos as int)),
        ));
        assert(acc@ + Seq::<(Stat, u128)>::empty() =~= acc@);
    }
    Ok((acc, pos))
}

/// Parse `n` buffer entries of `data` starting at `start`, as
/// `parse_stats_exec` does for statistics.
pub(crate) fn parse_bufs_exec(data: &[u8], start: usize, n: u64) -> (r: Result<
    (Vec<(BufferType, Vec<u8>)>, usize),
    (),
>)
    requires
        start <= data@.len(),
    ensures
        match r {
            Ok((list, end)) => {
                &&& start <= end <= data@.len()
                &&& kvmap::keys_unique(crate::frame::buf_pairs(list@))
                &&& parse_bufs(data@.skip(start as int), n as nat) == Some(
                    (crate::frame::buf_pairs(list@), data@.skip(end as int)),
                )
            },
            Err(()) => match parse_bufs(data@.skip(start as int), n as nat) {
                None => true,
                Some((l, _)) => !kvmap::keys_unique(l),
            },
        },
{
    let mut acc: Vec<(BufferType, Vec<u8>)> = Vec::new();
    let mut pos: usize = start;
    let mut i: u64 = 0;
    while i < n
        invariant
            start <= pos <= data@.len(),
            i <= n,
            kvmap::keys_unique(crate::frame::buf_pairs(acc@)),
            forall|l: Seq<(BufferType, Seq<u8>)>, t: Seq<u8>|
                parse_bufs(data@.skip(pos as int), (n - i) as nat) == Some::<
                    (Seq<(BufferType, Seq<u8>)>, Seq<u8>),
                >((l, t)) ==> parse_bufs(data@.skip(start as int), n as nat) == Some::<
                    (Seq<(BufferType, Seq<u8>)>, Seq<u8>),
                >((crate::frame::buf_pairs(acc@) + l, t)),
            parse_bufs(data@.skip(pos as int), (n - i) as nat) is None ==> parse_bufs(
                data@.skip(start as int),
                n as nat,
            ) is None,
        decreases n - i,
    {
        let ghost apairs = crate::frame::buf_pairs(acc@);
        let ghost rem = data@.skip(pos as int);
        if data.len() - pos < 9 {
            return Err(());
        }
        let tag = *slice_index_get(data, pos);
        proof {
            assert(rem[0] == data@[pos as int]);
        }
        let k = match buffer_of_tag_exec(tag) {
            Some(k) => k,
            None => {
                return Err(());
            },
        };
        let blen64 = u64_from_le_bytes(slice_subrange(data, pos + 1, pos + 9));
        proof {
            assert(data@.subrange(pos + 1, pos + 9) =~= rem.subrange(1, 9));
        }
        if ((data.len() - pos - 9) as u64) < blen64 {
            proof {
                assert(rem.len() < 9 + blen64 as int);
            }
            return Err(());
        }
        let blen = blen64 as usize;
        let content = slice_to_vec(slice_subrange(data, pos + 9, pos + 9 + blen));
        let ghost cseq = data@.subrange(pos + 9, pos + 9 + blen as int);
        proof {
            assert(cseq =~= rem.subrange(9, 9 + blen as int));
            assert(data@.skip(pos + 9 + blen as int) =~= rem.skip(9 + blen as int));
        }
        if find_key_buf(&acc, k) {
            proof {
                match parse_bufs(rem.skip(9 + blen as int), (n - i - 1) as nat) {
                    None => {},
                    Some((l2, t2)) => {
                        assert(parse_bufs(rem, (n - i) as nat) == Some::<
                            (Seq<(BufferType, Seq<u8>)>, Seq<u8>),
                        >((seq![(k, cseq)] + l2, t2)));
                        let full = apairs + (seq![(k, cseq)] + l2);
                        let j = kvmap::index_of(apairs, k);
                        assert(full[j] == apairs[j]);
                        assert(full[apairs.len() as int] == (k, cseq));
                        assert(!kvmap::keys_unique(full));
                        assert(parse_bufs(data@.skip(start as int), n as nat) == Some::<
                            (Seq<(BufferType, Seq<u8>)>, Seq<u8>),
                        >((full, t2)));
                    },
                }
            }
            return Err(());
        }
        proof {
            kvmap::lemma_push_new(apairs, k, cseq);
            let acc2 = acc@.push((k, content));
            assert(crate::frame::buf_pairs(acc2) =~= apairs.push((k, cseq)));
            assert(apairs.push((k, cseq)) =~= apairs + seq![(k, cseq)]);
            match parse_bufs(data@.skip(pos + 9 + blen as int), (n - i - 1) as nat) {
                None => {},
                Some((l2, t2)) => {
                    assert(parse_bufs(rem, (n - i) as nat) == Some::<
                        (Seq<(BufferType, Seq<u8>)>, Seq<u8>),
                    >((seq![(k, cseq)] + l2, t2)));
                    assert(apairs + (seq![(k, cseq)] + l2) =~= apairs.push((k, cseq)) + l2);
                },
            }
        }
        acc.push((k, content));
        pos = pos + 9 + blen;
        i = i + 1;
    }
    proof {
        assert(parse_bufs(data@.skip(pos as int), 0) == Some::<
            (Seq<(BufferType, Seq<u8>)>, Seq<u8>),
        >((Seq::empty(), data@.skip(pos as int))));
        assert(crate::frame::buf_pairs(acc@) + Seq::<(BufferType, Seq<u8>)>::empty()
            =~= crate::frame::buf_pairs(acc@));
    }
    Ok((acc, pos))
}

} // verus!
