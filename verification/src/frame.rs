//! The per-unit-of-work frame context: keyed byte buffers, keyed timestamp
//! statistics and an error slot, all exclusively owned by whichever stage
//! currently holds the context.

use vstd::bytes::{u64_from_le_bytes, u64_to_le_bytes};
use vstd::prelude::*;
use vstd::slice::{slice_index_get, slice_subrange};

use crate::codec;
use crate::kvmap;
use crate::types::{BufferType, Error, Stat};

verus! {

/// The buffer pair list with each owned buffer replaced by its byte sequence.
pub open spec fn buf_pairs(s: Seq<(BufferType, Vec<u8>)>) -> Seq<(BufferType, Seq<u8>)> {
    s.map_values(|p: (BufferType, Vec<u8>)| (p.0, p.1@))
}

/// The views of a list of contexts.
pub open spec fn frame_views(s: Seq<FrameData>) -> Seq<FrameView> {
    s.map_values(|f: FrameData| f@)
}

/// Mathematical view of a frame context: the two maps it carries and the
/// outstanding error, if any.
pub struct FrameView {
    pub stats: Map<Stat, u128>,
    pub buffers: Map<BufferType, Seq<u8>>,
    pub error: Option<Error>,
}

/// The mutable record that flows through the pipeline. A buffer key present
/// in `buffers` means this context exclusively owns that buffer.
#[derive(Debug)]
pub struct FrameData {
    statistics: Vec<(Stat, u128)>,
    buffers: Vec<(BufferType, Vec<u8>)>,
    error: Option<Error>,
}

impl View for FrameData {
    type V = FrameView;

    closed spec fn view(&self) -> FrameView {
        FrameView {
            stats: kvmap::as_map(self.statistics@),
            buffers: kvmap::as_map(buf_pairs(self.buffers@)),
            error: self.error,
        }
    }
}

impl FrameData {
    /// Both key/value lists carry pairwise distinct keys.
    pub closed spec fn wf(&self) -> bool {
        &&& kvmap::keys_unique(self.statistics@)
        &&& kvmap::keys_unique(buf_pairs(self.buffers@))
    }

    /// A fresh context: empty maps, no error.
    pub fn new() -> (r: FrameData)
        ensures
            r.wf(),
            r@.stats == Map::<Stat, u128>::empty(),
            r@.buffers == Map::<BufferType, Seq<u8>>::empty(),
            r@.error is None,
    {
        let r = FrameData { statistics: Vec::new(), buffers: Vec::new(), error: None };
        proof {
            kvmap::lemma_empty_map::<Stat, u128>(r.statistics@);
            kvmap::lemma_empty_map::<BufferType, Seq<u8>>(
                buf_pairs(r.buffers@),
            );
        }
        r
    }

    fn find_stat(&self, key: Stat) -> (r: Option<usize>)
        ensures
            match r {
                Some(i) => i < self.statistics@.len() && self.statistics@[i as int].0 == key,
                None => forall|i: int|
                    0 <= i < self.statistics@.len() ==> self.statistics@[i].0 != key,
            },
    {
        let mut i: usize = 0;
        while i < self.statistics.len()
            invariant
                i <= self.statistics@.len(),
                forall|j: int| 0 <= j < i ==> self.statistics@[j].0 != key,
            decreases self.statistics@.len() - i,
        {
            if self.statistics[i].0 == key {
                return Some(i);
            }
            i = i + 1;
        }
        None
    }

    fn find_buffer(&self, key: BufferType) -> (r: Option<usize>)
        ensures
            match r {
                Some(i) => i < self.buffers@.len() && self.buffers@[i as int].0 == key,
                None => forall|i: int| 0 <= i < self.buffers@.len() ==> self.buffers@[i].0 != key,
            },
    {
        let mut i: usize = 0;
        while i < self.buffers.len()
            invariant
                i <= self.buffers@.len(),
                forall|j: int| 0 <= j < i ==> self.buffers@[j].0 != key,
            decreases self.buffers@.len() - i,
        {
            if self.buffers[i].0 == key {
                return Some(i);
            }
            i = i + 1;
        }
        None
    }

    /// Record statistic `key = value`, overwriting any earlier value.
    pub fn set(&mut self, key: Stat, value: u128)
        requires
            old(self).wf(),
        ensures
            final(self).wf(),
            final(self)@.stats == old(self)@.stats.insert(key, value),
            final(self)@.buffers == old(self)@.buffers,
            final(self)@.error == old(self)@.error,
    {
        match self.find_stat(key) {
            Some(i) => {
                proof {
                    kvmap::lemma_update_val(self.statistics@, i as int, value);
                }
                self.statistics[i] = (key, value);
            },
            None => {
                proof {
                    kvmap::lemma_absent(self.statistics@, key);
                    kvmap::lemma_push_new(self.statistics@, key, value);
                }
                self.statistics.push((key, value));
            },
        }
    }

    /// Read the statistic recorded under `key`, if any.
    pub fn get(&self, key: &Stat) -> (r: Option<u128>)
        requires
            self.wf(),
        ensures
            r == if self@.stats.contains_key(*key) {
                Some(self@.stats[*key])
            } else {
                Option::<u128>::None
            },
    {
        match self.find_stat(*key) {
            Some(i) => {
                proof {
                    kvmap::lemma_unique_witness(self.statistics@, i as int);
                }
                Some(self.statistics[i].1)
            },
            None => {
                proof {
                    kvmap::lemma_absent(self.statistics@, *key);
                }
                None
            },
        }
    }

    /// Move a buffer into the context under `key`; the context now owns it.
    /// An earlier buffer under the same key is replaced.
    pub fn push(&mut self, key: BufferType, value: Vec<u8>)
        requires
            old(self).wf(),
        ensures
            final(self).wf(),
            final(self)@.buffers == old(self)@.buffers.insert(key, value@),
            final(self)@.stats == old(self)@.stats,
            final(self)@.error == old(self)@.error,
    {
        let ghost pairs = buf_pairs(self.buffers@);
        match self.find_buffer(key) {
            Some(i) => {
                proof {
                    assert(pairs[i as int].0 == key);
                    kvmap::lemma_update_val(pairs, i as int, value@);
                    assert(buf_pairs(self.buffers@.update(i as int, (key, value))) =~= pairs.update(i as int, (key, value@)));
                }
                self.buffers[i] = (key, value);
            },
            None => {
                proof {
                    assert(forall|j: int| 0 <= j < pairs.len() ==> pairs[j].0 != key);
                    kvmap::lemma_absent(pairs, key);
                    kvmap::lemma_push_new(pairs, key, value@);
                    assert(buf_pairs(self.buffers@.push((key, value))) =~= pairs.push((key, value@)));
                }
                self.buffers.push((key, value));
            },
        }
    }

    /// Move the buffer stored under `key` out of the context, if present;
    /// ownership passes to the caller and the key leaves the map.
    pub fn pull(&mut self, key: &BufferType) -> (r: Option<Vec<u8>>)
        requires
            old(self).wf(),
        ensures
            final(self).wf(),
            final(self)@.stats == old(self)@.stats,
            final(self)@.error == old(self)@.error,
            old(self)@.buffers.contains_key(*key) ==> {
                &&& r is Some
                &&& r->Some_0@ == old(self)@.buffers[*key]
                &&& final(self)@.buffers == old(self)@.buffers.remove(*key)
            },
            !old(self)@.buffers.contains_key(*key) ==> {
                &&& r is None
                &&& final(self)@.buffers == old(self)@.buffers
            },
    {
        let ghost pairs = buf_pairs(self.buffers@);
        match self.find_buffer(*key) {
            Some(i) => {
                proof {
                    assert(pairs[i as int].0 == *key);
                    kvmap::lemma_unique_witness(pairs, i as int);
                    kvmap::lemma_remove_at(pairs, i as int);
                    assert(buf_pairs(self.buffers@.remove(i as int)) =~= pairs.remove(i as int));
                }
                let entry = self.buffers.remove(i);
                Some(entry.1)
            },
            None => {
                proof {
                    assert(forall|j: int| 0 <= j < pairs.len() ==> pairs[j].0 != *key);
                    kvmap::lemma_absent(pairs, *key);
                }
                None
            },
        }
    }

    /// Borrow the buffer stored under `key` without moving it.
    pub fn get_ref(&self, key: &BufferType) -> (r: Option<&Vec<u8>>)
        requires
            self.wf(),
        ensures
            match r {
                Some(b) => self@.buffers.contains_key(*key) && b@ == self@.buffers[*key],
                None => !self@.buffers.contains_key(*key),
            },
    {
        let ghost pairs = buf_pairs(self.buffers@);
        match self.find_buffer(*key) {
            Some(i) => {
                proof {
                    assert(pairs[i as int].0 == *key);
                    kvmap::lemma_unique_witness(pairs, i as int);
                }
                Some(&self.buffers[i].1)
            },
            None => {
                proof {
                    assert(forall|j: int| 0 <= j < pairs.len() ==> pairs[j].0 != *key);
                    kvmap::lemma_absent(pairs, *key);
                }
                None
            },
        }
    }

    /// Overwrite the buffer stored under `key` in place. Returns the old
    /// buffer when `key` was present; leaves the context unchanged (and
    /// hands `value` back) when it was not.
    pub fn get_mut_ref(&mut self, key: &BufferType, value: Vec<u8>) -> (r: Result<Vec<u8>, Vec<u8>>)
        requires
            old(self).wf(),
        ensures
            final(self).wf(),
            final(self)@.stats == old(self)@.stats,
            final(self)@.error == old(self)@.error,
            old(self)@.buffers.contains_key(*key) ==> {
                &&& r is Ok
                &&& r->Ok_0@ == old(self)@.buffers[*key]
                &&& final(self)@.buffers == old(self)@.buffers.insert(*key, value@)
            },
            !old(self)@.buffers.contains_key(*key) ==> {
                &&& r is Err
                &&& r->Err_0 == value
                &&& final(self)@.buffers == old(self)@.buffers
            },
    {
        let ghost pairs = buf_pairs(self.buffers@);
        match self.find_buffer(*key) {
            Some(i) => {
                proof {
                    assert(pairs[i as int].0 == *key);
                    kvmap::lemma_unique_witness(pairs, i as int);
                    kvmap::lemma_update_val(pairs, i as int, value@);
                    assert(buf_pairs(self.buffers@.update(i as int, (*key, value))) =~= pairs.update(i as int, (*key, value@)));
                }
                let mut entry = (*key, value);
                std::mem::swap(&mut self.buffers[i], &mut entry);
                Ok(entry.1)
            },
            None => {
                proof {
                    assert(forall|j: int| 0 <= j < pairs.len() ==> pairs[j].0 != *key);
                    kvmap::lemma_absent(pairs, *key);
                }
                Err(value)
            },
        }
    }

    /// The statistic entries in wire-tag order, read off the context.
    fn canonical_stats_vec(&self) -> (v: Vec<(Stat, u128)>)
        requires
            self.wf(),
        ensures
            v@ == codec::canonical_stat_entries(self@.stats),
    {
        let mut keys: Vec<Stat> = Vec::new();
        keys.push(Stat::CaptureTime);
        keys.push(Stat::EncodePushTime);
        keys.push(Stat::TransmissionStartTime);
        keys.push(Stat::DecodePushTime);
        keys.push(Stat::EncodeTime);
        keys.push(Stat::TransmissionTime);
        keys.push(Stat::DecodeTime);
        keys.push(Stat::FrameDelay);
        keys.push(Stat::ReceptionDelay);
        proof {
            assert(keys@ =~= codec::all_stats());
        }
        let mut v: Vec<(Stat, u128)> = Vec::new();
        let mut i: usize = 0;
        while i < keys.len()
            invariant
                i <= keys@.len(),
                keys@ == codec::all_stats(),
                self.wf(),
                v@ == kvmap::entries_of(keys@.take(i as int), self@.stats),
            decreases keys@.len() - i,
        {
            let k = keys[i];
            proof {
                assert(keys@.take(i as int + 1).drop_last() =~= keys@.take(i as int));
                assert(keys@.take(i as int + 1).last() == k);
            }
            match self.get(&k) {
                Some(val) => {
                    v.push((k, val));
                },
                None => {},
            }
            i = i + 1;
        }
        proof {
            assert(keys@.take(keys@.len() as int) =~= keys@);
        }
        v
    }

    /// The buffer entries in wire-tag order, read off the context.
    fn canonical_bufs_vec(&self) -> (v: Vec<(BufferType, Vec<u8>)>)
        requires
            self.wf(),
        ensures
            buf_pairs(v@) == codec::canonical_buf_entries(self@.buffers),
    {
        let mut keys: Vec<BufferType> = Vec::new();
        keys.push(BufferType::YUVFrameBuffer);
        keys.push(BufferType::EncodedFrameBuffer);
        keys.push(BufferType::SerializedFrameData);
        keys.push(BufferType::DecodedRGBAFrameBuffer);
        proof {
            assert(keys@ =~= codec::all_buffer_types());
        }
        let mut v: Vec<(BufferType, Vec<u8>)> = Vec::new();
        let mut i: usize = 0;
        while i < keys.len()
            invariant
                i <= keys@.len(),
                keys@ == codec::all_buffer_types(),
                self.wf(),
                buf_pairs(v@) == kvmap::entries_of(keys@.take(i as int), self@.buffers),
            decreases keys@.len() - i,
        {
            let k = keys[i];
            proof {
                assert(keys@.take(i as int + 1).drop_last() =~= keys@.take(i as int));
                assert(keys@.take(i as int + 1).last() == k);
            }
            match self.get_ref(&k) {
                Some(b) => {
                    let copy = vstd::slice::slice_to_vec(b.as_slice());
                    proof {
                        assert(buf_pairs(v@.push((k, copy))) =~= buf_pairs(v@).push((k, copy@)));
                    }
                    v.push((k, copy));
                },
                None => {},
            }
            i = i + 1;
        }
        proof {
            assert(keys@.take(keys@.len() as int) =~= keys@);
        }
        v
    }

    /// Serialize the context, canonically: entries are written in wire-tag
    /// order, so the bytes are a function of the context's statistics,
    /// buffers and error alone — equal content encodes to byte-identical
    /// output, whatever order it was built in — and they parse back, under
    /// `codec::parse_frame`, to exactly that content.
    pub fn encode(&self) -> (out: Vec<u8>)
        requires
            self.wf(),
        ensures
            out@ == codec::canonical_frame_bytes(self@.stats, self@.buffers, self@.error),
            codec::parse_frame(out@) == Some((self@.stats, self@.buffers, self@.error)),
    {
        let ghost cs = codec::canonical_stat_entries(self@.stats);
        let ghost cbufs = codec::canonical_buf_entries(self@.buffers);
        let stat_entries = self.canonical_stats_vec();
        let buf_entries = self.canonical_bufs_vec();
        let mut out = u64_to_le_bytes(stat_entries.len() as u64);
        let mut sb = codec::encode_stats(&stat_entries);
        out.append(&mut sb);
        out.push(codec::error_code_exec(self.error));
        let mut cb = u64_to_le_bytes(buf_entries.len() as u64);
        out.append(&mut cb);
        let mut bb = codec::encode_bufs(&buf_entries);
        out.append(&mut bb);
        proof {
            let bp = buf_pairs(buf_entries@);
            assert forall|i: int| 0 <= i < bp.len() implies bp[i].1.len() <= u64::MAX by {
                let v = buf_entries@[i].1;
                assert(v.len() == v@.len());
            }
            assert(cs.len() == stat_entries.len());
            assert(cbufs.len() == buf_entries.len());
            codec::lemma_canonical_stats(self@.stats);
            codec::lemma_canonical_bufs(self@.buffers);
            codec::lemma_frame_round_trip(cs, cbufs, self.error);
            assert(out@ =~= codec::ser_frame(cs, cbufs, self.error));
        }
        out
    }

    /// Deserialize a context from `data`. Succeeds exactly on the inputs
    /// `codec::parse_frame` accepts, and then returns a well-formed context
    /// carrying the parsed statistics, buffers and error.
    pub fn decode(data: &[u8]) -> (r: Result<FrameData, codec::DecodeError>)
        ensures
            match r {
                Ok(fd) => {
                    &&& fd.wf()
                    &&& codec::parse_frame(data@) == Some((fd@.stats, fd@.buffers, fd@.error))
                },
                Err(_) => codec::parse_frame(data@) is None,
            },
    {
        if data.len() < 8 {
            return Err(codec::DecodeError::Malformed);
        }
        let ns = u64_from_le_bytes(slice_subrange(data, 0, 8));
        let (stats, pos1) = match codec::parse_stats_exec(data, 8, ns) {
            Ok(x) => x,
            Err(()) => {
                return Err(codec::DecodeError::Malformed);
            },
        };
        let ghost rest1 = data@.skip(pos1 as int);
        if data.len() - pos1 < 1 {
            return Err(codec::DecodeError::Malformed);
        }
        let ecode = *slice_index_get(data, pos1);
        proof {
            assert(rest1[0] == data@[pos1 as int]);
        }
        let err = match codec::error_of_code_exec(ecode) {
            Some(e) => e,
            None => {
                return Err(codec::DecodeError::Malformed);
            },
        };
        let pos2 = pos1 + 1;
        proof {
            assert(rest1.skip(1) =~= data@.skip(pos2 as int));
        }
        if data.len() - pos2 < 8 {
            return Err(codec::DecodeError::Malformed);
        }
        let nb = u64_from_le_bytes(slice_subrange(data, pos2, pos2 + 8));
        proof {
            assert(data@.subrange(pos2 as int, pos2 + 8) =~= rest1.skip(1).subrange(0, 8));
            assert(rest1.skip(1).skip(8) =~= data@.skip(pos2 + 8));
        }
        let (bufs, pos3) = match codec::parse_bufs_exec(data, pos2 + 8, nb) {
            Ok(x) => x,
            Err(()) => {
                return Err(codec::DecodeError::Malformed);
            },
        };
        if pos3 != data.len() {
            proof {
                assert(data@.skip(pos3 as int).len() == data@.len() - pos3);
            }
            return Err(codec::DecodeError::Malformed);
        }
        proof {
            assert(data@.skip(pos3 as int).len() == 0);
        }
        Ok(FrameData { statistics: stats, buffers: bufs, error: err })
    }

    /// Record `error` as the context's outstanding error.
    pub fn report_error(&mut self, error: Error)
        requires
            old(self).wf(),
        ensures
            final(self).wf(),
            final(self)@.error == Some(error),
            final(self)@.stats == old(self)@.stats,
            final(self)@.buffers == old(self)@.buffers,
    {
        self.error = Some(error);
    }

    /// Read the outstanding error, if any, without clearing it.
    pub fn get_error(&self) -> (r: Option<Error>)
        ensures
            r == self@.error,
    {
        self.error
    }
}

impl Default for FrameData {
    /// A fresh context, as `new` builds it.
    fn default() -> (r: FrameData)
        ensures
            r.wf(),
            r@.stats == Map::<Stat, u128>::empty(),
            r@.buffers == Map::<BufferType, Seq<u8>>::empty(),
            r@.error is None,
    {
        FrameData::new()
    }
}

} // verus!
