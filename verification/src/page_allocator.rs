//! Physical page-frame allocator.
//!
//! The allocator owns the pool of free frames as an explicit free list of
//! frame addresses.  The head of the list is the most recently freed frame,
//! so reuse is in LIFO order, and a freshly constructed allocator hands out
//! the frames of its range from the highest address down.  The bookkeeping
//! that a hardware allocator would store inside the free frames themselves
//! is held in the list; the byte contents of the frames are outside this
//! model.

use vstd::prelude::*;

verus! {

/// Size in bytes of one physical page frame.
pub const PAGE_SIZE: u64 = 4096;

/// Exclusive upper bound on frame addresses.  A page-table entry stores a
/// 44-bit physical page number next to a 12-bit page offset, so every frame
/// address this core manages must fit in 56 bits.
pub const MAX_FRAME_ADDRESS: u64 = 0x100_0000_0000_0000;

/// A physical, page-aligned frame address.
#[derive(Clone, Copy, Debug, PartialEq, Eq, PartialOrd, Ord, Structural)]
pub struct PageAddr {
    pub address: u64,
}

/// A frame address the allocator may manage: page-aligned, and low enough
/// that its page number fits the 44-bit field of a page-table entry.
pub open spec fn frame_addr_wf(address: u64) -> bool {
    &&& address % PAGE_SIZE == 0
    &&& address < MAX_FRAME_ADDRESS
}

/// The frame addresses `start, start + PAGE_SIZE, ...` up to and including
/// the last one that is `<= end`, in ascending order.  Only ranges below
/// `MAX_FRAME_ADDRESS` hold any frames.
pub open spec fn frame_seq(start: u64, end: u64) -> Seq<u64>
    decreases (if start > end { 0int } else { end - start + 1 })
{
    if start > end || end >= MAX_FRAME_ADDRESS {
        Seq::empty()
    } else {
        seq![start] + frame_seq((start + PAGE_SIZE) as u64, end)
    }
}

/// An ascending iterator over the frame addresses of `[start, end]`.
pub struct PageRange {
    next_page: u64,
    last_page: u64,
}

impl PageRange {
    /// The next address the range will yield, if any is left.
    pub closed spec fn next_page_spec(&self) -> u64 {
        self.next_page
    }

    /// The last address of the range (inclusive bound).
    pub closed spec fn last_page_spec(&self) -> u64 {
        self.last_page
    }

    pub fn new(start: PageAddr, end: PageAddr) -> (range: Self)
        ensures
            range.next_page_spec() == start.address,
            range.last_page_spec() == end.address,
    {
        Self { next_page: start.address, last_page: end.address }
    }

    /// Yields the frames of the range in ascending order, one per call.
    pub fn next(&mut self) -> (item: Option<PageAddr>)
        requires
            old(self).last_page_spec() <= u64::MAX - PAGE_SIZE,
        ensures
            final(self).last_page_spec() == old(self).last_page_spec(),
            old(self).next_page_spec() > old(self).last_page_spec() ==> {
                &&& item is None
                &&& final(self).next_page_spec() == old(self).next_page_spec()
            },
            old(self).next_page_spec() <= old(self).last_page_spec() ==> {
                &&& item == Some(PageAddr { address: old(self).next_page_spec() })
                &&& final(self).next_page_spec() == old(self).next_page_spec() + PAGE_SIZE
            },
    {
        if self.next_page > self.last_page {
            return None;
        }

        let address = self.next_page;
        self.next_page = self.next_page + PAGE_SIZE;

        Some(PageAddr { address })
    }
}

#[derive(Clone, Copy, Debug, PartialEq, Eq, Structural)]
pub enum PageAllocationError {
    NoPagesAvailable,
}

/// Owns the set of free frames.  The view is the free list, oldest entry
/// first: the last element of the sequence is the head of the list, i.e. the
/// frame the next allocation returns.
pub struct PageAllocator {
    free_list: Vec<u64>,
}

impl View for PageAllocator {
    type V = Seq<u64>;

    closed spec fn view(&self) -> Seq<u64> {
        self.free_list@
    }
}

impl PageAllocator {
    /// Every frame on the free list is page-aligned and within the
    /// manageable address range.
    pub open spec fn wf(&self) -> bool {
        forall|i: int| 0 <= i < self@.len() ==> frame_addr_wf(#[trigger] self@[i])
    }

    /// Builds an allocator over the frames of `[heap_start, heap_end]`,
    /// freeing each frame of the range in ascending order, so the highest
    /// frame ends up at the head of the free list.
    pub fn new(heap_start: PageAddr, heap_end: PageAddr) -> (allocator: Self)
        requires
            heap_start.address % PAGE_SIZE == 0,
            heap_end.address < MAX_FRAME_ADDRESS,
        ensures
            allocator.wf(),
            allocator@ == frame_seq(heap_start.address, heap_end.address),
    {
        let mut allocator = Self { free_list: Vec::new() };
        let mut range = PageRange::new(heap_start, heap_end);

        loop
            invariant
                allocator.wf(),
                range.last_page_spec() == heap_end.address,
                heap_end.address < MAX_FRAME_ADDRESS,
                range.next_page_spec() % PAGE_SIZE == 0,
                frame_seq(heap_start.address, heap_end.address) == allocator@ + frame_seq(
                    range.next_page_spec(),
                    range.last_page_spec(),
                ),
            ensures
                range.next_page_spec() > range.last_page_spec(),
            decreases
                    if range.next_page_spec() > range.last_page_spec() {
                        0
                    } else {
                        range.last_page_spec() - range.next_page_spec() + 1
                    },
        {
            let ghost prev = allocator@;
            let ghost next = range.next_page_spec();
            match range.next() {
                None => {
                    break;
                },
                Some(page) => {
                    allocator.dealloc(page);
                    proof {
                        assert(frame_seq(next, heap_end.address) == seq![next] + frame_seq(
                            (next + PAGE_SIZE) as u64,
                            heap_end.address,
                        ));
                        assert(prev + frame_seq(next, heap_end.address) == allocator@ + frame_seq(
                            range.next_page_spec(),
                            heap_end.address,
                        ));
                    }
                },
            }
        }

        proof {
            assert(frame_seq(range.next_page_spec(), heap_end.address) == Seq::<u64>::empty());
            assert(allocator@ + Seq::<u64>::empty() == allocator@);
        }
        allocator
    }

    /// Pops the head of the free list, or fails with `NoPagesAvailable` when
    /// the list is empty.  Succeeds exactly when a free frame is left, and a
    /// success removes exactly one frame: the most recently freed one.
    pub fn allocate(&mut self) -> (result: Result<PageAddr, PageAllocationError>)
        requires
            old(self).wf(),
        ensures
            final(self).wf(),
            old(self)@.len() == 0 ==> {
                &&& result == Err::<PageAddr, PageAllocationError>(
                    PageAllocationError::NoPagesAvailable,
                )
                &&& final(self)@ == old(self)@
            },
            old(self)@.len() > 0 ==> {
                &&& result == Ok::<PageAddr, PageAllocationError>(
                    PageAddr { address: old(self)@.last() },
                )
                &&& frame_addr_wf(old(self)@.last())
                &&& final(self)@ == old(self)@.drop_last()
            },
    {
        match self.free_list.pop() {
            None => Err(PageAllocationError::NoPagesAvailable),
            Some(address) => Ok(PageAddr { address }),
        }
    }

    /// Links a frame in front of the current head of the free list, so the
    /// frame freed last is the one reused first.  Whether the frame was ever
    /// handed out by this allocator is not checked: a double free goes
    /// undetected by design.
    pub fn dealloc(&mut self, page: PageAddr)
        requires
            old(self).wf(),
            frame_addr_wf(page.address),
        ensures
            final(self).wf(),
            final(self)@ == old(self)@.push(page.address),
    {
        self.free_list.push(page.address);
    }

    /// Walks the free list and reports the number of free frames.
    pub fn free_pages(&self) -> (count: u64)
        ensures
            count == self@.len(),
    {
        let mut count: u64 = 0;
        let mut i: usize = 0;
        while i < self.free_list.len()
            invariant
                i <= self@.len(),
                count == i,
            decreases self@.len() - i,
        {
            i = i + 1;
            count = count + 1;
        }
        count
    }
}

/// Last freed, first reused: freeing a frame puts it at the head of the free
/// list, so it is the frame the next allocation returns, and that allocation
/// leaves the rest of the list exactly as it was before the free.
pub proof fn lemma_lifo_reuse(free_list: Seq<u64>, frame: u64)
    ensures
        free_list.push(frame).last() == frame,
        free_list.push(frame).drop_last() == free_list,
{
    assert(free_list.push(frame).drop_last() =~= free_list);
}


/// The free list after `k` successful allocations: each success removes
/// exactly the last entry, the head of the list.
pub open spec fn free_list_after(free_list: Seq<u64>, k: nat) -> Seq<u64>
    decreases k,
{
    if k == 0 {
        free_list
    } else {
        free_list_after(free_list, (k - 1) as nat).drop_last()
    }
}

/// An allocator serves exactly as many allocations as its free list holds
/// frames: each success shortens the list by one, so after as many
/// successes as there are entries the list is empty, and the allocation
/// after that fails with `NoPagesAvailable`.
pub proof fn lemma_allocation_exhaustion(free_list: Seq<u64>, k: nat)
    requires
        k <= free_list.len(),
    ensures
        free_list_after(free_list, k).len() == free_list.len() - k,
    decreases k,
{
    if k > 0 {
        lemma_allocation_exhaustion(free_list, (k - 1) as nat);
    }
}


} // verus!
