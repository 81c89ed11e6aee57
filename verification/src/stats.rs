//! The terminal statistics stage: running averages of tracked statistic
//! keys across every context it consumes.
//!
//! The logger is configured with the keys it tracks. Consuming a context
//! adds each tracked statistic the context carries to that key's running
//! count and sum; a context without a given key simply does not advance
//! that key's average — never an error. Emitting the averages is the
//! embedding program's concern; the logger exposes them as values.

use vstd::prelude::*;

use crate::frame::FrameData;
use crate::kvmap;
use crate::types::Stat;

verus! {

/// A running accumulation: how many samples, and their saturating sum.
#[derive(Clone, Copy, Debug, PartialEq, Eq, Structural)]
pub struct StatCell {
    pub count: u64,
    pub sum: u128,
}

/// A cell advanced by one sample; both fields saturate at their maxima.
pub open spec fn cell_add(c: StatCell, v: u128) -> StatCell {
    StatCell {
        count: if c.count < u64::MAX {
            (c.count + 1) as u64
        } else {
            c.count
        },
        sum: if c.sum <= u128::MAX - v {
            (c.sum + v) as u128
        } else {
            u128::MAX
        },
    }
}

/// The accumulator map after consuming one context's statistics for the
/// given tracked keys, in order: each tracked key the context carries
/// advances its cell; the others are skipped.
pub open spec fn consume_spec(
    cells: Map<Stat, StatCell>,
    tracked_keys: Seq<Stat>,
    stats: Map<Stat, u128>,
) -> Map<Stat, StatCell>
    decreases tracked_keys.len(),
{
    if tracked_keys.len() == 0 {
        cells
    } else {
        let k = tracked_keys[0];
        let cells2 = if stats.contains_key(k) {
            let c = if cells.contains_key(k) {
                cells[k]
            } else {
                StatCell { count: 0, sum: 0 }
            };
            cells.insert(k, cell_add(c, stats[k]))
        } else {
            cells
        };
        consume_spec(cells2, tracked_keys.skip(1), stats)
    }
}

/// Accumulates a running average per tracked statistic key; never fails.
#[derive(Debug)]
pub struct StatsLogger {
    tracked_keys: Vec<Stat>,
    cells: Vec<(Stat, StatCell)>,
}

impl StatsLogger {
    /// The keys this logger tracks.
    pub closed spec fn tracked_stats(&self) -> Seq<Stat> {
        self.tracked_keys@
    }

    /// The running accumulation per key.
    pub closed spec fn cells_map(&self) -> Map<Stat, StatCell> {
        kvmap::as_map(self.cells@)
    }

    /// Cell keys are unique.
    pub closed spec fn wf(&self) -> bool {
        kvmap::keys_unique(self.cells@)
    }

    /// A logger tracking the given keys, with nothing accumulated yet.
    pub fn new(tracked_keys: Vec<Stat>) -> (r: StatsLogger)
        ensures
            r.wf(),
            r.tracked_stats() == tracked_keys@,
            r.cells_map() == Map::<Stat, StatCell>::empty(),
    {
        let r = StatsLogger { tracked_keys, cells: Vec::new() };
        proof {
            kvmap::lemma_empty_map::<Stat, StatCell>(r.cells@);
        }
        r
    }

    fn find_cell(&self, key: Stat) -> (r: Option<usize>)
        ensures
            match r {
                Some(i) => i < self.cells@.len() && self.cells@[i as int].0 == key,
                None => forall|i: int| 0 <= i < self.cells@.len() ==> self.cells@[i].0 != key,
            },
    {
        let mut i: usize = 0;
        while i < self.cells.len()
            invariant
                i <= self.cells@.len(),
                forall|j: int| 0 <= j < i ==> self.cells@[j].0 != key,
            decreases self.cells@.len() - i,
        {
            if self.cells[i].0 == key {
                return Some(i);
            }
            i = i + 1;
        }
        None
    }

    fn add_sample(&mut self, key: Stat, value: u128)
        requires
            old(self).wf(),
        ensures
            final(self).wf(),
            final(self).tracked_stats() == old(self).tracked_stats(),
            final(self).cells_map() == old(self).cells_map().insert(
                key,
                cell_add(
                    if old(self).cells_map().contains_key(key) {
                        old(self).cells_map()[key]
                    } else {
                        StatCell { count: 0, sum: 0 }
                    },
                    value,
                ),
            ),
    {
        match self.find_cell(key) {
            Some(i) => {
                proof {
                    kvmap::lemma_unique_witness(self.cells@, i as int);
                }
                let c = self.cells[i].1;
                let count = if c.count < u64::MAX {
                    c.count + 1
                } else {
                    c.count
                };
                let sum = if c.sum <= u128::MAX - value {
                    c.sum + value
                } else {
                    u128::MAX
                };
                proof {
                    kvmap::lemma_update_val(self.cells@, i as int, StatCell { count, sum });
                }
                self.cells[i] = (key, StatCell { count, sum });
            },
            None => {
                proof {
                    kvmap::lemma_absent(self.cells@, key);
                    kvmap::lemma_push_new(
                        self.cells@,
                        key,
                        cell_add(StatCell { count: 0, sum: 0 }, value),
                    );
                }
                let count: u64 = 1;
                let sum: u128 = value;
                self.cells.push((key, StatCell { count, sum }));
            },
        }
    }

    /// Fold one context's statistics into the running accumulation: each
    /// tracked key the context carries contributes one sample; missing
    /// keys are skipped, and the context itself is only read.
    pub fn consume(&mut self, ctx: &FrameData)
        requires
            old(self).wf(),
            ctx.wf(),
        ensures
            final(self).wf(),
            final(self).tracked_stats() == old(self).tracked_stats(),
            final(self).cells_map() == consume_spec(
                old(self).cells_map(),
                old(self).tracked_stats(),
                ctx@.stats,
            ),
    {
        let ghost cells0 = self.cells_map();
        let ghost keys = self.tracked_keys@;
        proof {
            assert(keys.skip(0) =~= keys);
        }
        let n = self.tracked_keys.len();
        let mut i: usize = 0;
        while i < n
            invariant
                i <= n,
                self.wf(),
                n == keys.len(),
                self.tracked_stats() == keys,
                ctx.wf(),
                consume_spec(cells0, keys, ctx@.stats) == consume_spec(
                    self.cells_map(),
                    keys.skip(i as int),
                    ctx@.stats,
                ),
            decreases n - i,
        {
            let key = self.tracked_keys[i];
            let ghost pre = self.cells_map();
            proof {
                assert(keys.skip(i as int)[0] == key);
                assert(keys.skip(i as int).skip(1) =~= keys.skip(i as int + 1));
            }
            match ctx.get(&key) {
                Some(v) => {
                    self.add_sample(key, v);
                },
                None => {},
            }
            i = i + 1;
        }
        proof {
            assert(keys.skip(n as int) =~= Seq::<Stat>::empty());
        }
    }

    /// The running average for `key`: the saturating sum of its samples
    /// divided by their number, or `None` before the first sample.
    pub fn average(&self, key: Stat) -> (r: Option<u128>)
        requires
            self.wf(),
        ensures
            r == if self.cells_map().contains_key(key) && self.cells_map()[key].count > 0 {
                Some(self.cells_map()[key].sum / self.cells_map()[key].count as u128)
            } else {
                Option::<u128>::None
            },
    {
        match self.find_cell(key) {
            Some(i) => {
                proof {
                    kvmap::lemma_unique_witness(self.cells@, i as int);
                }
                let c = self.cells[i].1;
                if c.count > 0 {
                    Some(c.sum / c.count as u128)
                } else {
                    None
                }
            },
            None => {
                proof {
                    kvmap::lemma_absent(self.cells@, key);
                }
                None
            },
        }
    }
}

} // verus!
