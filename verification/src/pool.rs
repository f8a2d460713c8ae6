//! Arena-allocator pool: fixed-size bump allocators handed out under
//! exclusive checkouts.
//!
//! Each backing block is a very large, highly aligned reservation, so the
//! pool creates allocators lazily and reuses them indefinitely.  The model
//! keeps the layout arithmetic of the real allocator (over-allocate at half
//! the alignment and keep whichever half lands on the alignment boundary,
//! metadata carved off the end of the block) and the dual-ownership release
//! protocol, while the memory itself is represented by a capacity and a
//! cursor.

use vstd::prelude::*;

verus! {

/// Half the required block alignment; the granularity the system allocator
/// can actually provide.
pub const TWO_GIB: u64 = 0x8000_0000;

/// The alignment every block must land on.
pub const FOUR_GIB: u64 = 0x1_0000_0000;

/// Usable size of one fixed-size block.
pub const BLOCK_SIZE: u64 = TWO_GIB;

/// Size of one raw reservation: the block plus slack that guarantees one
/// aligned half.
pub const ALLOC_SIZE: u64 = BLOCK_SIZE + TWO_GIB;

/// Space reserved at the end of the block for the raw-transfer metadata.
pub const RAW_METADATA_SIZE: u64 = 16;

/// Space reserved after that for [`FixedSizeAllocatorMetadata`], rounded to
/// the bump allocator's minimum alignment.
pub const FIXED_METADATA_SIZE: u64 = 16;

/// Offset of the fixed-size metadata within the block.
pub const FIXED_METADATA_OFFSET: u64 = BLOCK_SIZE - FIXED_METADATA_SIZE;

/// Bytes of the block that the bump allocator may hand out.
pub const CHUNK_SIZE: u64 = FIXED_METADATA_OFFSET - RAW_METADATA_SIZE;

/// Minimum alignment the bump allocator promises for its chunk.
pub const RAW_MIN_ALIGN: u64 = 16;

/// The regions carved out of one block fit together exactly and keep the
/// chunk end aligned.
pub proof fn lemma_block_layout()
    ensures
        CHUNK_SIZE + RAW_METADATA_SIZE + FIXED_METADATA_SIZE == BLOCK_SIZE,
        CHUNK_SIZE % RAW_MIN_ALIGN == 0,
        FIXED_METADATA_OFFSET % RAW_MIN_ALIGN == 0,
        BLOCK_SIZE % RAW_MIN_ALIGN == 0,
{
}

/// One bump-pointer arena: a fixed capacity and a cursor that only moves
/// forward until the arena is reset.  All data handed out lives below the
/// cursor; a reset invalidates all of it at once.
pub struct Allocator {
    /// Total bytes this arena can hand out.
    pub capacity: u64,
    /// Bytes handed out so far.
    pub cursor: u64,
}

impl Allocator {
    pub open spec fn wf(&self) -> bool {
        self.cursor <= self.capacity
    }

    /// An arena in its initial state: nothing handed out.
    pub open spec fn is_reset(&self) -> bool {
        self.cursor == 0
    }

    /// Builds an arena over a chunk of the given size.
    pub fn from_raw_parts(capacity: u64) -> (a: Allocator)
        ensures
            a.capacity == capacity,
            a.cursor == 0,
            a.wf(),
    {
        Allocator { capacity, cursor: 0 }
    }

    /// Bump allocation: returns the offset of the new region, or `None`
    /// when the chunk cannot hold `len` more bytes.
    pub fn allocate(&mut self, len: u64) -> (r: Option<u64>)
        requires
            old(self).wf(),
        ensures
            final(self).wf(),
            final(self).capacity == old(self).capacity,
            r is Some <==> old(self).cursor + len <= old(self).capacity,
            r is Some ==> r->Some_0 == old(self).cursor
                && final(self).cursor == old(self).cursor + len,
            r is None ==> final(self).cursor == old(self).cursor,
    {
        if len <= self.capacity - self.cursor {
            let offset = self.cursor;
            self.cursor = self.cursor + len;
            Some(offset)
        } else {
            None
        }
    }

    /// Moves the cursor back to the start of the chunk without releasing
    /// the block; every previously issued region becomes invalid.
    pub fn reset(&mut self)
        ensures
            final(self).capacity == old(self).capacity,
            final(self).is_reset(),
            final(self).wf(),
    {
        self.cursor = 0;
    }
}

/// Metadata of one fixed-size allocator, stored at the end of its block in
/// the real layout: the identity, the address of the raw reservation, and
/// the dual-ownership flag.
pub struct FixedSizeAllocatorMetadata {
    /// Unique identity of the allocator.
    pub id: u32,
    /// Address of the start of the raw reservation.
    pub alloc_addr: u64,
    /// True while a second owner outside this crate also holds the block.
    pub is_double_owned: bool,
}

/// Picks the half of the raw reservation that lands on the full alignment.
///
/// The system allocator only grants `TWO_GIB` alignment, so the reservation
/// is `ALLOC_SIZE` bytes and exactly one of its two halves starts on a
/// `FOUR_GIB` boundary; that half becomes the block.
pub fn aligned_chunk_addr(alloc_addr: u64) -> (chunk: u64)
    requires
        alloc_addr % TWO_GIB == 0,
        alloc_addr + ALLOC_SIZE <= u64::MAX,
    ensures
        chunk % FOUR_GIB == 0,
        chunk == alloc_addr || chunk == alloc_addr + TWO_GIB,
        chunk + BLOCK_SIZE <= alloc_addr + ALLOC_SIZE,
{
    let offset = alloc_addr % FOUR_GIB;
    proof {
        assert(alloc_addr % 0x1_0000_0000u64 == 0 || alloc_addr % 0x1_0000_0000u64
            == 0x8000_0000u64) by (bit_vector)
            requires
                alloc_addr % 0x8000_0000u64 == 0,
        ;
        assert((alloc_addr as int + (alloc_addr % 0x1_0000_0000u64) as int)
            % 0x1_0000_0000int == 0) by (bit_vector)
            requires
                alloc_addr % 0x8000_0000u64 == 0,
        ;
    }
    alloc_addr + offset
}

/// A fixed-size arena: the bump allocator over one aligned block, together
/// with the block's metadata.  Capacity is fixed at construction and never
/// changes; reset only restores the cursor.
pub struct FixedSizeAllocator {
    /// The bump allocator over the usable chunk of the block.
    pub allocator: Allocator,
    /// Identity, raw address and ownership flag of the block.
    pub meta: FixedSizeAllocatorMetadata,
}

impl FixedSizeAllocator {
    pub open spec fn wf(&self) -> bool {
        &&& self.allocator.wf()
        &&& self.allocator.capacity == CHUNK_SIZE
    }

    /// Reserves a block for a new allocator.  The model stands in for the
    /// operating-system reservation by assigning each identity its own
    /// aligned address range; a failed reservation has no recoverable form
    /// and does not reach this constructor.
    pub fn new(id: u32) -> (fsa: FixedSizeAllocator)
        requires
            id < u32::MAX,
        ensures
            fsa.wf(),
            fsa.meta.id == id,
            fsa.allocator.is_reset(),
            !fsa.meta.is_double_owned,
            fsa.meta.alloc_addr % TWO_GIB == 0,
    {
        let id64 = id as u64;
        let high = id64 << 32u64;
        proof {
            assert(high <= 0xFFFF_FFFE_0000_0000u64 && (high as int + 0x8000_0000int)
                % 0x8000_0000int == 0) by (bit_vector)
                requires
                    high == id64 << 32u64 && id64 <= 0xFFFF_FFFEu64,
            ;
        }
        let alloc_addr = high + TWO_GIB;
        let chunk_addr = aligned_chunk_addr(alloc_addr);
        let allocator = Allocator::from_raw_parts(CHUNK_SIZE);
        let meta = FixedSizeAllocatorMetadata { id, alloc_addr, is_double_owned: false };
        FixedSizeAllocator { allocator, meta }
    }

    /// Restores the arena to its initial state: cursor back to the start of
    /// the chunk, capacity untouched.
    pub fn reset(&mut self)
        ensures
            final(self).allocator.capacity == old(self).allocator.capacity,
            final(self).allocator.is_reset(),
            final(self).allocator.wf(),
            final(self).meta == old(self).meta,
    {
        self.allocator.reset();
    }
}

/// One release step of the dual-ownership protocol.
///
/// Either owner of the block calls this when it lets go.  The block's memory
/// may be freed only once both owners have released: the call frees exactly
/// when the flag was already clear, and otherwise clears the flag so that
/// the other owner's release frees.
pub fn free_fixed_size_allocator(meta: &mut FixedSizeAllocatorMetadata) -> (freed: bool)
    ensures
        freed == !old(meta).is_double_owned,
        !final(meta).is_double_owned,
        final(meta).id == old(meta).id,
        final(meta).alloc_addr == old(meta).alloc_addr,
{
    let was_double_owned = meta.is_double_owned;
    meta.is_double_owned = false;
    !was_double_owned
}

/// Dual-ownership release is idempotent in effect: of two successive
/// release calls on the same metadata, exactly one frees the memory, from
/// whichever state the flag started in.
pub proof fn lemma_release_frees_exactly_once(
    m0: FixedSizeAllocatorMetadata,
    m1: FixedSizeAllocatorMetadata,
    m2: FixedSizeAllocatorMetadata,
    freed1: bool,
    freed2: bool,
)
    requires
        freed1 == !m0.is_double_owned,
        !m1.is_double_owned,
        freed2 == !m1.is_double_owned,
        !m2.is_double_owned,
    ensures
        freed1 || freed2,
        m0.is_double_owned ==> !(freed1 && freed2),
{
}

/// Exclusive, scoped checkout of one [`FixedSizeAllocator`] from a pool.
/// Exactly one guard exists per checked-out arena; returning it through
/// [`AllocatorPool::add`] resets the arena and makes it idle again.
pub struct AllocatorGuard {
    /// The arena this guard owns exclusively.
    pub allocator: FixedSizeAllocator,
}

impl AllocatorGuard {
    /// Identity of the arena this guard holds.
    pub open spec fn id(&self) -> u32 {
        self.allocator.meta.id
    }
}

/// Thread-safe bag of idle fixed-size allocators.  Every arena ever created
/// is either idle in the bag or held by exactly one guard; arenas are
/// created lazily, on the first checkout that finds the bag empty.
pub struct AllocatorPool {
    /// The idle allocators, each reset and ready for reuse.
    pub allocators: Vec<FixedSizeAllocator>,
    /// Identity the next created allocator will receive; also the number of
    /// allocators created so far.
    pub next_id: u32,
    /// Identities currently held by guards.
    pub outstanding: Ghost<Set<u32>>,
    /// High-water mark of simultaneously outstanding checkouts.
    pub peak: Ghost<nat>,
}

impl AllocatorPool {
    /// Number of backing allocations ever created.
    pub open spec fn created(&self) -> nat {
        self.next_id as nat
    }

    pub open spec fn wf(&self) -> bool {
        &&& self.outstanding@.finite()
        &&& forall|x: u32| self.outstanding@.contains(x) ==> x < self.next_id
        &&& forall|i: int|
            0 <= i < self.allocators@.len() ==> (#[trigger] self.allocators@[i]).meta.id
                < self.next_id
        &&& forall|i: int|
            0 <= i < self.allocators@.len() ==> !self.outstanding@.contains(
                (#[trigger] self.allocators@[i]).meta.id,
            )
        &&& forall|i: int, j: int|
            0 <= i < j < self.allocators@.len() ==> (#[trigger] self.allocators@[i]).meta.id
                != (#[trigger] self.allocators@[j]).meta.id
        &&& forall|i: int|
            0 <= i < self.allocators@.len() ==> (#[trigger] self.allocators@[i]).wf()
                && self.allocators@[i].allocator.is_reset()
        &&& self.next_id as nat == self.outstanding@.len() + self.allocators@.len()
        &&& self.outstanding@.len() <= self.peak@
        &&& self.next_id as nat <= self.peak@
    }

    /// What one checkout did: the guard holds a reset arena whose identity
    /// was not outstanding before and is outstanding after, and a backing
    /// allocation was created only if the bag was empty.
    pub open spec fn get_post(pre: AllocatorPool, post: AllocatorPool, guard: AllocatorGuard) -> bool {
        &&& !pre.outstanding@.contains(guard.id())
        &&& post.outstanding@ == pre.outstanding@.insert(guard.id())
        &&& guard.allocator.wf()
        &&& guard.allocator.allocator.is_reset()
        &&& guard.id() < post.next_id
        &&& post.created() == if pre.allocators@.len() == 0 {
            pre.created() + 1
        } else {
            pre.created()
        }
        &&& post.allocators@.len() == if pre.allocators@.len() == 0 {
            0
        } else {
            pre.allocators@.len() - 1
        }
    }

    /// Creates a pool for the given number of worker threads.  Capacity is
    /// reserved but no allocator is created yet: each backing block is very
    /// large, so idle worker slots must cost nothing.
    pub fn new(thread_count: usize) -> (pool: AllocatorPool)
        ensures
            pool.wf(),
            pool.created() == 0,
            pool.outstanding@ == Set::<u32>::empty(),
            pool.allocators@.len() == 0,
            pool.peak@ == 0,
    {
        let allocators: Vec<FixedSizeAllocator> = Vec::with_capacity(thread_count);
        AllocatorPool {
            allocators,
            next_id: 0,
            outstanding: Ghost(Set::empty()),
            peak: Ghost(0),
        }
    }

    /// Checks an arena out of the pool, creating one only when no idle
    /// arena is available.  The returned guard has exclusive use of its
    /// arena, and the arena's cursor is in its initial state.
    pub fn get(&mut self) -> (guard: AllocatorGuard)
        requires
            old(self).wf(),
            old(self).allocators@.len() > 0 || old(self).next_id < u32::MAX,
        ensures
            final(self).wf(),
            Self::get_post(*old(self), *final(self), guard),
            final(self).peak@ >= old(self).peak@,
    {
        let popped = self.allocators.pop();
        let fsa = match popped {
            Some(a) => a,
            None => {
                let id = self.next_id;
                self.next_id = self.next_id + 1;
                FixedSizeAllocator::new(id)
            },
        };
        proof {
            let id = fsa.meta.id;
            self.outstanding@ = self.outstanding@.insert(id);
            if self.outstanding@.len() > self.peak@ {
                self.peak@ = self.outstanding@.len();
            }
        }
        AllocatorGuard { allocator: fsa }
    }

    /// Returns an arena to the pool: the arena is reset, then becomes idle
    /// again.  The guard must hold an arena that is actually checked out of
    /// this pool.
    pub fn add(&mut self, guard: AllocatorGuard)
        requires
            old(self).wf(),
            old(self).outstanding@.contains(guard.id()),
            guard.allocator.wf(),
        ensures
            final(self).wf(),
            final(self).outstanding@ == old(self).outstanding@.remove(guard.id()),
            final(self).created() == old(self).created(),
            final(self).allocators@.len() == old(self).allocators@.len() + 1,
            final(self).peak@ == old(self).peak@,
    {
        let mut fsa = guard.allocator;
        fsa.reset();
        proof {
            self.outstanding@ = self.outstanding@.remove(fsa.meta.id);
        }
        self.allocators.push(fsa);
    }

    /// How many backing allocations this pool has created so far.
    pub fn created_count(&self) -> (n: u32)
        ensures
            n as nat == self.created(),
    {
        self.next_id
    }

    /// How many arenas are idle in the pool right now.
    pub fn idle_count(&self) -> (n: usize)
        ensures
            n == self.allocators@.len(),
    {
        self.allocators.len()
    }
}

/// Pool bound: however checkouts and returns interleave, the number of
/// backing allocations ever created never exceeds the high-water mark of
/// simultaneously outstanding checkouts.  With N concurrent non-overlapping
/// checkouts, at most N allocations are created.
pub proof fn lemma_pool_allocation_bound(pool: AllocatorPool)
    requires
        pool.wf(),
    ensures
        pool.created() <= pool.peak@,
{
}

/// No double issue: a checkout never hands out an arena identity that some
/// other guard still holds, so no two guards ever reference the same arena
/// at the same time.
pub proof fn lemma_no_double_issue(
    pre: AllocatorPool,
    post: AllocatorPool,
    guard: AllocatorGuard,
    other_id: u32,
)
    requires
        pre.wf(),
        AllocatorPool::get_post(pre, post, guard),
        pre.outstanding@.contains(other_id),
    ensures
        guard.id() != other_id,
{
}

} // verus!
