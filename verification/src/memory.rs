use vstd::prelude::*;

verus! {

pub const FLASH_START: usize = 0x0800_0000;
pub const FLASH_SIZE: usize = 524288;
pub const RAM_START: usize = 0x2000_0000;
pub const RAM_SIZE: usize = 131072;

/// Address ranges of flash and RAM, and where the initial stack starts.
#[derive(Clone, Copy, Debug, PartialEq, Eq)]
pub struct MemLayout {
    pub flash_start: usize,
    pub flash_size: usize,
    pub ram_start: usize,
    pub ram_size: usize,
    pub stack_start: usize,
}

impl MemLayout {
    pub fn new(
        flash_start: usize,
        flash_size: usize,
        ram_start: usize,
        ram_size: usize,
        stack_start: usize,
    ) -> (l: Self)
        ensures
            l == (MemLayout { flash_start, flash_size, ram_start, ram_size, stack_start }),
    {
        MemLayout { flash_start, flash_size, ram_start, ram_size, stack_start }
    }

    /// One past the last flash address.
    pub fn flash_end(&self) -> (e: usize)
        requires
            self.flash_start + self.flash_size <= usize::MAX,
        ensures
            e == self.flash_start + self.flash_size,
    {
        self.flash_start + self.flash_size
    }

    /// One past the last RAM address.
    pub fn ram_end(&self) -> (e: usize)
        requires
            self.ram_start + self.ram_size <= usize::MAX,
        ensures
            e == self.ram_start + self.ram_size,
    {
        self.ram_start + self.ram_size
    }
}

/// The board's memory map with the given initial stack address.
pub fn layout(stack_start: usize) -> (l: MemLayout)
    ensures
        l == (MemLayout {
            flash_start: FLASH_START,
            flash_size: FLASH_SIZE,
            ram_start: RAM_START,
            ram_size: RAM_SIZE,
            stack_start,
        }),
{
    MemLayout::new(FLASH_START, FLASH_SIZE, RAM_START, RAM_SIZE, stack_start)
}

#[derive(Clone, Copy, Debug, PartialEq, Eq, Structural)]
pub enum PoolError {
    OutOfMemory,
    InvalidLayout,
}

/// Alignment every block of a pool satisfies.
pub const POOL_ALIGN: usize = 8;

/// Distance between consecutive blocks: the block size rounded up to the
/// pool alignment.
pub open spec fn spec_stride(block_size: usize) -> int {
    (block_size as int + 7) / 8 * 8
}

/// Number of free entries among the first `n`.
pub open spec fn count_free(free: Seq<bool>, n: int) -> nat
    decreases n,
{
    if n <= 0 {
        0
    } else {
        count_free(free, n - 1) + if free[n - 1] { 1nat } else { 0nat }
    }
}

/// `allocate` on a pool whose blocks' free flags are `free`, laid out from
/// `base`: the pool's free flags afterwards and the result.
pub open spec fn pool_alloc(free: Seq<bool>, base: int, block_size: usize, size: usize, align: usize) -> (
    Seq<bool>,
    Result<usize, PoolError>,
) {
    if size == 0 || size > block_size {
        (free, Err(PoolError::OutOfMemory))
    } else if align == 0 || align > POOL_ALIGN {
        (free, Err(PoolError::InvalidLayout))
    } else {
        match first_free_block(free, 0) {
            Some(i) => (free.update(i as int, false), Ok((base + spec_stride(block_size) * i) as usize)),
            None => (free, Err(PoolError::OutOfMemory)),
        }
    }
}

/// `free_ptr` on such a pool: the start of a block inside the pool marks it
/// free; any other address (null among them) is an invalid layout.
pub open spec fn pool_free(free: Seq<bool>, base: int, block_size: usize, ptr: usize) -> (
    Seq<bool>,
    Result<(), PoolError>,
) {
    let stride = spec_stride(block_size);
    let ok = ptr != 0 && base <= ptr < base + stride * free.len() && (ptr - base) % stride == 0;
    if ok {
        (free.update((ptr - base) / stride, true), Ok(()))
    } else {
        (free, Err(PoolError::InvalidLayout))
    }
}

/// Lowest free block at or above `i`.
pub open spec fn first_free_block(free: Seq<bool>, i: int) -> Option<usize>
    decreases free.len() - i,
{
    if i < 0 || i >= free.len() {
        None
    } else if free[i] {
        Some(i as usize)
    } else {
        first_free_block(free, i + 1)
    }
}

proof fn lemma_first_free_block(free: Seq<bool>, i: int)
    requires
        0 <= i <= free.len(),
        free.len() <= usize::MAX,
    ensures
        match first_free_block(free, i) {
            Some(k) => i <= k < free.len() && free[k as int] && forall|j: int| i <= j < k ==> !free[j],
            None => forall|j: int| i <= j < free.len() ==> !free[j],
        },
    decreases free.len() - i,
{
    if i < free.len() {
        lemma_first_free_block(free, i + 1);
    }
}

proof fn lemma_count_free_bound(free: Seq<bool>, n: int)
    requires
        0 <= n,
    ensures
        count_free(free, n) <= n,
    decreases n,
{
    if n > 0 {
        lemma_count_free_bound(free, n - 1);
    }
}

/// Fixed-block allocator over `BLOCK_COUNT` blocks of `BLOCK_SIZE` bytes
/// laid out from address `base`, each aligned to `POOL_ALIGN`; blocks are
/// handed out by address.
pub struct StaticPool<const BLOCK_SIZE: usize, const BLOCK_COUNT: usize> {
    pub base: usize,
    pub free: [bool; BLOCK_COUNT],
}

impl<const BLOCK_SIZE: usize, const BLOCK_COUNT: usize> StaticPool<BLOCK_SIZE, BLOCK_COUNT> {
    /// The blocks fit in the address space above a non-null, aligned base.
    pub open spec fn wf(&self) -> bool {
        &&& self.base > 0
        &&& self.base % 8 == 0
        &&& spec_stride(BLOCK_SIZE) <= usize::MAX
        &&& self.base + spec_stride(BLOCK_SIZE) * BLOCK_COUNT <= usize::MAX
    }

    /// Address of block `i`.
    pub open spec fn block_addr(&self, i: int) -> int {
        self.base + spec_stride(BLOCK_SIZE) * i
    }

    /// Every block free.
    pub fn new(base: usize) -> (p: Self)
        requires
            base > 0,
            base % 8 == 0,
            spec_stride(BLOCK_SIZE) <= usize::MAX,
            base + spec_stride(BLOCK_SIZE) * BLOCK_COUNT <= usize::MAX,
        ensures
            p.wf(),
            p.base == base,
            p.free@ == Seq::new(BLOCK_COUNT as nat, |i: int| true),
    {
        let free: [bool; BLOCK_COUNT] = vstd::array::array_fill_for_copy_types(true);
        proof {
            assert(free@ =~= Seq::new(BLOCK_COUNT as nat, |i: int| true));
        }
        StaticPool { base, free }
    }

    fn block_stride() -> (s: usize)
        requires
            spec_stride(BLOCK_SIZE) <= usize::MAX,
        ensures
            s == spec_stride(BLOCK_SIZE),
    {
        let rounded: u128 = (BLOCK_SIZE as u128 + 7) / 8 * 8;
        rounded as usize
    }

    pub fn block_size(&self) -> (n: usize)
        ensures
            n == BLOCK_SIZE,
    {
        BLOCK_SIZE
    }

    pub fn block_count(&self) -> (n: usize)
        ensures
            n == BLOCK_COUNT,
    {
        BLOCK_COUNT
    }

    /// Number of free blocks.
    pub fn available(&self) -> (n: usize)
        ensures
            n == count_free(self.free@, BLOCK_COUNT as int),
    {
        proof {
            vstd::array::array_len_matches_n(&self.free);
        }
        let mut n: usize = 0;
        let mut i: usize = 0;
        while i < BLOCK_COUNT
            invariant
                i <= BLOCK_COUNT,
                self.free@.len() == BLOCK_COUNT,
                n == count_free(self.free@, i as int),
            decreases BLOCK_COUNT - i,
        {
            proof {
                lemma_count_free_bound(self.free@, i as int);
            }
            if self.free[i] {
                n = n + 1;
            }
            i = i + 1;
        }
        n
    }

    /// Allocate the lowest free block for `size` bytes aligned to `align`:
    /// an empty or oversized request is out of memory, an alignment of 0 or
    /// above the pool's is an invalid layout.
    pub fn allocate(&mut self, size: usize, align: usize) -> (r: Result<usize, PoolError>)
        requires
            old(self).wf(),
        ensures
            final(self).wf(),
            final(self).base == old(self).base,
            (size == 0 || size > BLOCK_SIZE) ==> r == Err::<usize, PoolError>(PoolError::OutOfMemory)
                && final(self).free@ == old(self).free@,
            !(size == 0 || size > BLOCK_SIZE) && (align == 0 || align > POOL_ALIGN) ==> r == Err::<
                usize,
                PoolError,
            >(PoolError::InvalidLayout) && final(self).free@ == old(self).free@,
            !(size == 0 || size > BLOCK_SIZE) && !(align == 0 || align > POOL_ALIGN) ==> match first_free_block(
                old(self).free@,
                0,
            ) {
                Some(i) => r == Ok::<usize, PoolError>(old(self).block_addr(i as int) as usize)
                    && final(self).free@ == old(self).free@.update(i as int, false),
                None => r == Err::<usize, PoolError>(PoolError::OutOfMemory) && final(self).free@ == old(self).free@,
            },
            (final(self).free@, r) == pool_alloc(old(self).free@, old(self).base as int, BLOCK_SIZE, size, align),
    {
        proof {
            vstd::array::array_len_matches_n(&self.free);
        }
        if size == 0 || size > BLOCK_SIZE {
            return Err(PoolError::OutOfMemory);
        }
        if align == 0 || align > POOL_ALIGN {
            return Err(PoolError::InvalidLayout);
        }
        proof {
            vstd::array::array_len_matches_n(&self.free);
            lemma_first_free_block(self.free@, 0);
        }
        let stride = Self::block_stride();
        let mut i: usize = 0;
        while i < BLOCK_COUNT
            invariant
                i <= BLOCK_COUNT,
                self.free@.len() == BLOCK_COUNT,
                *self == *old(self),
                self.wf(),
                stride == spec_stride(BLOCK_SIZE),
                !(size == 0 || size > BLOCK_SIZE),
                !(align == 0 || align > POOL_ALIGN),
                forall|j: int| 0 <= j < i ==> !self.free@[j],
                first_free_block(self.free@, 0) == first_free_block(self.free@, i as int),
            decreases BLOCK_COUNT - i,
        {
            if self.free[i] {
                proof {
                    assert(stride as int * i as int <= stride as int * BLOCK_COUNT as int) by (nonlinear_arith)
                        requires
                            i < BLOCK_COUNT,
                            stride >= 0,
                    ;
                }
                let addr = self.base + stride * i;
                self.free[i] = false;
                return Ok(addr);
            }
            i = i + 1;
        }
        Err(PoolError::OutOfMemory)
    }

    /// Allocate a block for a value of type `T`.
    pub fn alloc_for<T>(&mut self) -> (r: Result<usize, PoolError>)
        requires
            old(self).wf(),
        ensures
            final(self).wf(),
            final(self).base == old(self).base,
            vstd::layout::size_of::<T>() > BLOCK_SIZE ==> r == Err::<usize, PoolError>(
                PoolError::OutOfMemory,
            ) && final(self).free@ == old(self).free@,
            vstd::layout::size_of::<T>() <= BLOCK_SIZE && vstd::layout::align_of::<T>() > POOL_ALIGN
                ==> r == Err::<usize, PoolError>(PoolError::InvalidLayout) && final(self).free@ == old(self).free@,
            vstd::layout::size_of::<T>() <= BLOCK_SIZE && vstd::layout::align_of::<T>() <= POOL_ALIGN
                ==> ({
                let size = vstd::layout::size_of::<T>();
                let align = vstd::layout::align_of::<T>();
                &&& size == 0 ==> r == Err::<usize, PoolError>(PoolError::OutOfMemory) && final(self).free@ == old(self).free@
                &&& size != 0 && align == 0 ==> r == Err::<usize, PoolError>(PoolError::InvalidLayout)
                    && final(self).free@ == old(self).free@
                &&& size != 0 && align != 0 ==> match first_free_block(old(self).free@, 0) {
                    Some(i) => r == Ok::<usize, PoolError>(old(self).block_addr(i as int) as usize)
                        && final(self).free@ == old(self).free@.update(i as int, false),
                    None => r == Err::<usize, PoolError>(PoolError::OutOfMemory) && final(self).free@
                        == old(self).free@,
                }
            }),
    {
        let size = core::mem::size_of::<T>();
        let align = core::mem::align_of::<T>();
        if size > BLOCK_SIZE {
            return Err(PoolError::OutOfMemory);
        }
        if align > POOL_ALIGN {
            return Err(PoolError::InvalidLayout);
        }
        self.allocate(size, align)
    }

    /// Return the block at address `ptr` to the pool: the null address, an
    /// address outside the pool, or one that is not the start of a block is
    /// an invalid layout.
    pub fn free_ptr(&mut self, ptr: usize) -> (r: Result<(), PoolError>)
        requires
            old(self).wf(),
        ensures
            final(self).wf(),
            final(self).base == old(self).base,
            ({
                let stride = spec_stride(BLOCK_SIZE);
                let end = old(self).base + stride * BLOCK_COUNT;
                let ok = ptr != 0 && old(self).base <= ptr < end && (ptr - old(self).base) % stride == 0;
                &&& ok ==> r == Ok::<(), PoolError>(()) && final(self).free@ == old(self).free@.update(
                    (ptr - old(self).base) / stride,
                    true,
                )
                &&& !ok ==> r == Err::<(), PoolError>(PoolError::InvalidLayout) && final(self).free@
                    == old(self).free@
            }),
            (final(self).free@, r) == pool_free(old(self).free@, old(self).base as int, BLOCK_SIZE, ptr),
    {
        proof {
            vstd::array::array_len_matches_n(&self.free);
        }
        if ptr == 0 {
            return Err(PoolError::InvalidLayout);
        }
        let stride = Self::block_stride();
        proof {
            vstd::array::array_len_matches_n(&self.free);
        }
        let end = self.base + stride * BLOCK_COUNT;
        if ptr < self.base || ptr >= end {
            return Err(PoolError::InvalidLayout);
        }
        let offset = ptr - self.base;
        proof {
            assert(stride > 0) by (nonlinear_arith)
                requires
                    stride as int * BLOCK_COUNT as int > 0,
                    stride >= 0,
            ;
        }
        if offset % stride != 0 {
            return Err(PoolError::InvalidLayout);
        }
        let index = offset / stride;
        proof {
            assert(index < BLOCK_COUNT) by (nonlinear_arith)
                requires
                    offset < stride as int * BLOCK_COUNT as int,
                    stride > 0,
                    index == offset / stride,
            ;
        }
        self.free[index] = true;
        Ok(())
    }
}

} // verus!
