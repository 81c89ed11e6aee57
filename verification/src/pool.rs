//! Fixed-capacity pools of reusable byte buffers, and the registry that
//! holds one pool per buffer key.
//!
//! A pool is created with a fixed capacity and a fixed buffer size; every
//! buffer is allocated at registration and merely moves between the pool
//! and the contexts that borrow it. Borrowing from an exhausted pool does
//! not allocate: it reports that the caller must wait (the pipeline's
//! backpressure), and a redeem makes the buffer available again.

use vstd::prelude::*;

use crate::frame::FrameData;
use crate::kvmap;
use crate::types::BufferType;

verus! {

/// Faults of pool management. `DuplicateKey` and `UnknownKey` are fatal
/// setup errors; `ForeignBuffer` (a buffer returned to a pool it cannot
/// belong to) and `MissingBuffer` (a strict redeem on a context that does
/// not hold the buffer) are programming invariant violations and must
/// abort loudly.
#[derive(Clone, Copy, Debug, PartialEq, Eq, Structural)]
pub enum PoolError {
    DuplicateKey,
    UnknownKey,
    ForeignBuffer,
    MissingBuffer,
}

/// Mathematical view of a pool: its fixed geometry and the free buffers.
pub struct PoolView {
    pub buffer_size: nat,
    pub capacity: nat,
    pub free: Seq<Seq<u8>>,
}

impl PoolView {
    /// At most `capacity` slots, every free buffer exactly `buffer_size`
    /// bytes long.
    pub open spec fn wf(self) -> bool {
        &&& self.free.len() <= self.capacity
        &&& forall|i: int| 0 <= i < self.free.len() ==> self.free[i].len() == self.buffer_size
    }

    /// How many buffers are currently borrowed.
    pub open spec fn borrowed(self) -> int {
        self.capacity - self.free.len()
    }
}

/// One ghost borrow or redeem step against a pool.
pub enum PoolOp {
    Borrow,
    Redeem(Seq<u8>),
}

/// Whether a redeemed buffer can belong to the pool: it has the pool's
/// buffer size and the pool is not already full.
pub open spec fn can_redeem(p: PoolView, b: Seq<u8>) -> bool {
    b.len() == p.buffer_size && p.free.len() < p.capacity
}

/// The pool after one step. A borrow from an exhausted pool and a redeem
/// of a foreign buffer leave it unchanged (the caller suspends or aborts).
pub open spec fn apply_op(p: PoolView, op: PoolOp) -> PoolView {
    match op {
        PoolOp::Borrow => if p.free.len() > 0 {
            PoolView { free: p.free.drop_last(), ..p }
        } else {
            p
        },
        PoolOp::Redeem(b) => if can_redeem(p, b) {
            PoolView { free: p.free.push(b), ..p }
        } else {
            p
        },
    }
}

/// The pool after a whole sequence of steps, applied in order.
pub open spec fn apply_ops(p: PoolView, ops: Seq<PoolOp>) -> PoolView
    decreases ops.len(),
{
    if ops.len() == 0 {
        p
    } else {
        apply_op(apply_ops(p, ops.drop_last()), ops.last())
    }
}

/// Bounded-borrow law: under every sequence of borrow and redeem steps a
/// well-formed pool stays well-formed, keeps its geometry, and the number
/// of simultaneously borrowed buffers stays between zero and the capacity.
pub proof fn lemma_pool_borrow_bound(p: PoolView, ops: Seq<PoolOp>)
    requires
        p.wf(),
    ensures
        apply_ops(p, ops).wf(),
        apply_ops(p, ops).capacity == p.capacity,
        apply_ops(p, ops).buffer_size == p.buffer_size,
        0 <= apply_ops(p, ops).borrowed() <= p.capacity,
    decreases ops.len(),
{
    if ops.len() > 0 {
        lemma_pool_borrow_bound(p, ops.drop_last());
    }
}

/// Backpressure law: when all buffers of a pool are borrowed, a borrow
/// obtains nothing and changes nothing (the caller suspends); once a buffer
/// of the pool's size is redeemed, the next borrow succeeds and hands that
/// very buffer back.
pub proof fn lemma_pool_backpressure(p: PoolView, b: Seq<u8>)
    requires
        p.wf(),
        p.borrowed() == p.capacity,
    ensures
        apply_op(p, PoolOp::Borrow) == p,
        p.free.len() == 0,
        b.len() == p.buffer_size && p.capacity > 0 ==> {
            let redeemed = apply_op(p, PoolOp::Redeem(b));
            &&& redeemed.free.len() == 1
            &&& redeemed.free.last() == b
            &&& apply_op(redeemed, PoolOp::Borrow).free.len() == 0
        },
{
}

/// A pool of `capacity` zero-filled buffers of `buffer_size` bytes each.
pub open spec fn fresh_pool(capacity: nat, buffer_size: nat) -> PoolView {
    PoolView {
        buffer_size,
        capacity,
        free: Seq::new(capacity, |i: int| Seq::new(buffer_size, |j: int| 0u8)),
    }
}

/// A fixed-capacity pool of pre-allocated, reusable byte buffers.
#[derive(Debug)]
pub struct BufferPool {
    buffer_size: usize,
    capacity: usize,
    free: Vec<Vec<u8>>,
}

impl View for BufferPool {
    type V = PoolView;

    closed spec fn view(&self) -> PoolView {
        PoolView {
            buffer_size: self.buffer_size as nat,
            capacity: self.capacity as nat,
            free: self.free@.map_values(|b: Vec<u8>| b@),
        }
    }
}

impl BufferPool {
    /// Allocate all `capacity` buffers up front, zero-filled.
    pub fn new(capacity: usize, buffer_size: usize) -> (r: BufferPool)
        ensures
            r@.wf(),
            r@ == fresh_pool(capacity as nat, buffer_size as nat),
            r@.borrowed() == 0,
    {
        let mut free: Vec<Vec<u8>> = Vec::new();
        let mut i: usize = 0;
        while i < capacity
            invariant
                i <= capacity,
                free@.len() == i,
                forall|j: int|
                    0 <= j < i ==> free@[j]@ == Seq::new(buffer_size as nat, |m: int| 0u8),
            decreases capacity - i,
        {
            let mut b: Vec<u8> = Vec::new();
            let mut k: usize = 0;
            while k < buffer_size
                invariant
                    k <= buffer_size,
                    b@.len() == k,
                    forall|m: int| 0 <= m < k ==> b@[m] == 0u8,
                decreases buffer_size - k,
            {
                b.push(0u8);
                k = k + 1;
            }
            proof {
                assert(b@ =~= Seq::new(buffer_size as nat, |m: int| 0u8));
            }
            free.push(b);
            i = i + 1;
        }
        let r = BufferPool { buffer_size, capacity, free };
        proof {
            assert(r@.free =~= fresh_pool(capacity as nat, buffer_size as nat).free);
            assert(r@ =~= fresh_pool(capacity as nat, buffer_size as nat));
        }
        r
    }

    /// Take a free buffer, if one exists; `None` means the pool is
    /// exhausted and the caller must wait for a redeem. Never allocates.
    pub fn borrow(&mut self) -> (r: Option<Vec<u8>>)
        requires
            old(self)@.wf(),
        ensures
            final(self)@.wf(),
            final(self)@ == apply_op(old(self)@, PoolOp::Borrow),
            match r {
                Some(b) => {
                    &&& old(self)@.free.len() > 0
                    &&& b@ == old(self)@.free.last()
                    &&& b@.len() == old(self)@.buffer_size
                    &&& final(self)@.borrowed() == old(self)@.borrowed() + 1
                },
                None => {
                    &&& old(self)@.free.len() == 0
                    &&& final(self)@ == old(self)@
                },
            },
    {
        let r = self.free.pop();
        proof {
            if r is Some {
                assert(self.free@.map_values(|b: Vec<u8>| b@) =~= old(self)@.free.drop_last());
            } else {
                assert(self.free@.map_values(|b: Vec<u8>| b@) =~= old(self)@.free);
            }
        }
        r
    }

    /// Return a borrowed buffer to a free slot. `Err(ForeignBuffer)` exactly
    /// when the buffer cannot belong to this pool: wrong size, or the pool
    /// already holds all its buffers; the pool is then left unchanged and
    /// the caller must treat the fault as fatal.
    pub fn redeem(&mut self, buffer: Vec<u8>) -> (r: Result<(), PoolError>)
        requires
            old(self)@.wf(),
        ensures
            final(self)@.wf(),
            final(self)@ == apply_op(old(self)@, PoolOp::Redeem(buffer@)),
            r is Ok <==> can_redeem(old(self)@, buffer@),
            r is Err ==> r == Result::<(), PoolError>::Err(PoolError::ForeignBuffer)
                && final(self)@ == old(self)@,
    {
        if buffer.len() != self.buffer_size || self.free.len() >= self.capacity {
            return Err(PoolError::ForeignBuffer);
        }
        let ghost pre = self.free@.map_values(|b: Vec<u8>| b@);
        self.free.push(buffer);
        proof {
            assert(self.free@.map_values(|b: Vec<u8>| b@) =~= pre.push(buffer@));
        }
        Ok(())
    }
}

/// The pool pair list with each pool replaced by its view.
pub open spec fn pool_pairs(s: Seq<(BufferType, BufferPool)>) -> Seq<(BufferType, PoolView)> {
    s.map_values(|p: (BufferType, BufferPool)| (p.0, p.1@))
}

/// One pool per registered buffer key. Registration is the only way a key
/// appears, and a key, once registered, is never replaced.
#[derive(Debug)]
pub struct PoolRegistry {
    pools: Vec<(BufferType, BufferPool)>,
}

impl View for PoolRegistry {
    type V = Map<BufferType, PoolView>;

    closed spec fn view(&self) -> Map<BufferType, PoolView> {
        kvmap::as_map(pool_pairs(self.pools@))
    }
}

impl PoolRegistry {
    /// Every registered pool is well-formed (keys are unique by
    /// construction).
    pub closed spec fn wf(&self) -> bool {
        &&& kvmap::keys_unique(pool_pairs(self.pools@))
        &&& forall|i: int| 0 <= i < self.pools@.len() ==> (#[trigger] self.pools@[i]).1@.wf()
    }

    /// An empty registry.
    pub fn new() -> (r: PoolRegistry)
        ensures
            r.wf(),
            r@ == Map::<BufferType, PoolView>::empty(),
    {
        let r = PoolRegistry { pools: Vec::new() };
        proof {
            kvmap::lemma_empty_map::<BufferType, PoolView>(pool_pairs(r.pools@));
        }
        r
    }

    fn find_pool(&self, key: BufferType) -> (r: Option<usize>)
        ensures
            match r {
                Some(i) => i < self.pools@.len() && self.pools@[i as int].0 == key,
                None => forall|i: int| 0 <= i < self.pools@.len() ==> self.pools@[i].0 != key,
            },
    {
        let mut i: usize = 0;
        while i < self.pools.len()
            invariant
                i <= self.pools@.len(),
                forall|j: int| 0 <= j < i ==> self.pools@[j].0 != key,
            decreases self.pools@.len() - i,
        {
            if self.pools[i].0 == key {
                return Some(i);
            }
            i = i + 1;
        }
        None
    }

    /// Pre-allocate `capacity` buffers of `buffer_size` bytes under `key`.
    /// `Err(DuplicateKey)` exactly when `key` is already registered (a
    /// fatal setup error); the registry is then unchanged.
    pub fn register(&mut self, key: BufferType, capacity: usize, buffer_size: usize) -> (r: Result<
        (),
        PoolError,
    >)
        requires
            old(self).wf(),
        ensures
            final(self).wf(),
            match r {
                Ok(()) => {
                    &&& !old(self)@.contains_key(key)
                    &&& final(self)@ == old(self)@.insert(
                        key,
                        fresh_pool(capacity as nat, buffer_size as nat),
                    )
                },
                Err(e) => {
                    &&& e == PoolError::DuplicateKey
                    &&& old(self)@.contains_key(key)
                    &&& final(self)@ == old(self)@
                },
            },
    {
        let ghost pairs = pool_pairs(self.pools@);
        match self.find_pool(key) {
            Some(i) => {
                proof {
                    assert(pairs[i as int].0 == key);
                    kvmap::lemma_unique_witness(pairs, i as int);
                }
                Err(PoolError::DuplicateKey)
            },
            None => {
                let pool = BufferPool::new(capacity, buffer_size);
                proof {
                    assert(forall|j: int| 0 <= j < pairs.len() ==> pairs[j].0 != key);
                    kvmap::lemma_absent(pairs, key);
                    kvmap::lemma_push_new(pairs, key, pool@);
                    assert(pool_pairs(self.pools@.push((key, pool))) =~= pairs.push((key, pool@)));
                }
                self.pools.push((key, pool));
                Ok(())
            },
        }
    }

    /// Borrow a buffer from the pool registered under `key`.
    /// `Err(UnknownKey)` exactly when no pool carries `key` (a fatal setup
    /// error). `Ok(None)` exactly when the pool is exhausted: the caller
    /// must wait for a redeem. `Ok(Some(b))` hands the last free buffer
    /// out and records it as borrowed.
    pub fn borrow(&mut self, key: BufferType) -> (r: Result<Option<Vec<u8>>, PoolError>)
        requires
            old(self).wf(),
        ensures
            final(self).wf(),
            match r {
                Ok(ob) => {
                    &&& old(self)@.contains_key(key)
                    &&& final(self)@ == old(self)@.insert(
                        key,
                        apply_op(old(self)@[key], PoolOp::Borrow),
                    )
                    &&& match ob {
                        Some(b) => {
                            &&& old(self)@[key].free.len() > 0
                            &&& b@ == old(self)@[key].free.last()
                            &&& b@.len() == old(self)@[key].buffer_size
                        },
                        None => old(self)@[key].free.len() == 0,
                    }
                },
                Err(e) => {
                    &&& e == PoolError::UnknownKey
                    &&& !old(self)@.contains_key(key)
                    &&& final(self)@ == old(self)@
                },
            },
    {
        let ghost pairs = pool_pairs(self.pools@);
        match self.find_pool(key) {
            Some(i) => {
                proof {
                    assert(pairs[i as int].0 == key);
                    kvmap::lemma_unique_witness(pairs, i as int);
                }
                let entry = &mut self.pools[i];
                let r = entry.1.borrow();
                proof {
                    kvmap::lemma_update_val(pairs, i as int, self.pools@[i as int].1@);
                    assert(pool_pairs(self.pools@) =~= pairs.update(
                        i as int,
                        (key, self.pools@[i as int].1@),
                    ));
                }
                Ok(r)
            },
            None => {
                proof {
                    assert(forall|j: int| 0 <= j < pairs.len() ==> pairs[j].0 != key);
                    kvmap::lemma_absent(pairs, key);
                }
                Err(PoolError::UnknownKey)
            },
        }
    }

    /// Return `buffer` to the pool registered under `key`, strictly:
    /// `Err(UnknownKey)` when no pool carries `key`, `Err(ForeignBuffer)`
    /// when the buffer cannot belong to that pool; both leave the registry
    /// unchanged and are fatal to the caller.
    pub fn redeem(&mut self, key: BufferType, buffer: Vec<u8>) -> (r: Result<(), PoolError>)
        requires
            old(self).wf(),
        ensures
            final(self).wf(),
            match r {
                Ok(()) => {
                    &&& old(self)@.contains_key(key)
                    &&& can_redeem(old(self)@[key], buffer@)
                    &&& final(self)@ == old(self)@.insert(
                        key,
                        apply_op(old(self)@[key], PoolOp::Redeem(buffer@)),
                    )
                },
                Err(e) => {
                    &&& final(self)@ == old(self)@
                    &&& e == PoolError::UnknownKey ==> !old(self)@.contains_key(key)
                    &&& e == PoolError::ForeignBuffer ==> old(self)@.contains_key(key)
                        && !can_redeem(old(self)@[key], buffer@)
                    &&& (e == PoolError::UnknownKey || e == PoolError::ForeignBuffer)
                },
            },
    {
        let ghost pairs = pool_pairs(self.pools@);
        match self.find_pool(key) {
            Some(i) => {
                proof {
                    assert(pairs[i as int].0 == key);
                    kvmap::lemma_unique_witness(pairs, i as int);
                }
                let entry = &mut self.pools[i];
                let r = entry.1.redeem(buffer);
                proof {
                    kvmap::lemma_update_val(pairs, i as int, self.pools@[i as int].1@);
                    assert(pool_pairs(self.pools@) =~= pairs.update(
                        i as int,
                        (key, self.pools@[i as int].1@),
                    ));
                }
                match r {
                    Ok(()) => Ok(()),
                    Err(e) => {
                        proof {
                            assert(final(self)@ =~= old(self)@);
                        }
                        Err(e)
                    },
                }
            },
            None => {
                proof {
                    assert(forall|j: int| 0 <= j < pairs.len() ==> pairs[j].0 != key);
                    kvmap::lemma_absent(pairs, key);
                }
                Err(PoolError::UnknownKey)
            },
        }
    }

    /// Lenient buffer return for the error-diversion path. When `ctx`
    /// holds a buffer under `key`, it is pulled out and redeemed strictly;
    /// when it does not — a failing context may not have reached the stage
    /// that would have produced it — the call is a no-op: the context and
    /// the registry stay exactly as they were, and no fault is reported.
    pub fn redeem_soft(&mut self, key: BufferType, ctx: &mut FrameData) -> (r: Result<
        (),
        PoolError,
    >)
        requires
            old(self).wf(),
            old(ctx).wf(),
        ensures
            final(self).wf(),
            final(ctx).wf(),
            final(ctx)@.stats == old(ctx)@.stats,
            final(ctx)@.error == old(ctx)@.error,
            !old(ctx)@.buffers.contains_key(key) ==> {
                &&& r is Ok
                &&& final(ctx)@ == old(ctx)@
                &&& final(self)@ == old(self)@
            },
            old(ctx)@.buffers.contains_key(key) ==> {
                &&& final(ctx)@.buffers == old(ctx)@.buffers.remove(key)
                &&& (r is Ok <==> old(self)@.contains_key(key) && can_redeem(
                    old(self)@[key],
                    old(ctx)@.buffers[key],
                ))
                &&& match r {
                    Ok(()) => final(self)@ == old(self)@.insert(
                        key,
                        apply_op(old(self)@[key], PoolOp::Redeem(old(ctx)@.buffers[key])),
                    ),
                    Err(e) => {
                        &&& final(self)@ == old(self)@
                        &&& e == PoolError::UnknownKey ==> !old(self)@.contains_key(key)
                        &&& e == PoolError::ForeignBuffer ==> old(self)@.contains_key(key)
                            && !can_redeem(old(self)@[key], old(ctx)@.buffers[key])
                        &&& (e == PoolError::UnknownKey || e == PoolError::ForeignBuffer)
                    },
                }
            },
    {
        match ctx.pull(&key) {
            Some(buffer) => self.redeem(key, buffer),
            None => Ok(()),
        }
    }
}

} // verus!
