//! Memory bring-up: physical frames from the boot memory map, and the pages
//! of the kernel heap with the frames they are mapped to.
//!
//! Writing page-table entries is the caller's part: it maps each page to the
//! frame that `KernelHeap::init_heap` pairs it with.
use vstd::prelude::*;

verus! {

/// Size of a page and of a physical frame.
pub const PAGE_SIZE: u64 = 4096;

/// Virtual address at which the kernel heap starts.
pub const HEAP_START: u64 = 0x_4444_4444_0000;

/// Size of the kernel heap: 256 KiB.
pub const HEAP_SIZE: u64 = 256 * 1024;

/// Number of pages of the heap.
pub const HEAP_PAGES: u64 = 64;

/// A region of the boot memory map: physical addresses `start..end`.
#[derive(Clone, Copy, PartialEq, Eq, Structural, Debug)]
pub struct MemoryRegion {
    pub start: u64,
    pub end: u64,
    pub usable: bool,
}

/// Start of the 4 KiB frame that contains `addr`.
pub open spec fn align_down(addr: u64) -> u64 {
    (addr - addr % PAGE_SIZE) as u64
}

/// Number of frame addresses the region yields: one per 4 KiB step from its
/// start while below its end; none if it is not usable.
pub open spec fn region_frame_count(r: MemoryRegion) -> nat {
    if r.usable && r.start < r.end {
        ((r.end - r.start + PAGE_SIZE - 1) / (PAGE_SIZE as int)) as nat
    } else {
        0
    }
}

/// The frames a region yields, in order.
pub open spec fn region_frames(r: MemoryRegion) -> Seq<u64> {
    Seq::new(region_frame_count(r), |i: int| align_down((r.start + i * PAGE_SIZE) as u64))
}

/// All usable frames of the memory map, region by region.
pub open spec fn usable_frames(regions: Seq<MemoryRegion>) -> Seq<u64>
    decreases regions.len(),
{
    if regions.len() == 0 {
        Seq::empty()
    } else {
        usable_frames(regions.drop_last()) + region_frames(regions.last())
    }
}

/// Hands out the usable frames of the boot memory map one after the other,
/// never the same one twice.
pub struct BootInfoFrameAllocator {
    regions: Vec<MemoryRegion>,
    next: usize,
}

impl BootInfoFrameAllocator {
    /// The frames this allocator hands out, in order.
    pub closed spec fn frames(&self) -> Seq<u64> {
        usable_frames(self.regions@)
    }

    /// How many frames it has handed out (or tried to).
    pub closed spec fn handed_out(&self) -> nat {
        self.next as nat
    }

    /// How many frames it has handed out (or tried to).
    pub fn handed_out_count(&self) -> (r: usize)
        ensures
            r == self.handed_out(),
    {
        self.next
    }

    pub fn init(regions: Vec<MemoryRegion>) -> (r: BootInfoFrameAllocator)
        ensures
            r.frames() == usable_frames(regions@),
            r.handed_out() == 0,
    {
        BootInfoFrameAllocator { regions, next: 0 }
    }

    fn frame_count(r: &MemoryRegion) -> (c: u64)
        ensures
            c == region_frame_count(*r),
    {
        if r.usable && r.start < r.end {
            let span = r.end - r.start;
            span / PAGE_SIZE + if span % PAGE_SIZE != 0 { 1u64 } else { 0u64 }
        } else {
            0
        }
    }

    /// The next usable frame, if the map has one left.
    pub fn allocate_frame(&mut self) -> (r: Option<u64>)
        requires
            old(self).handed_out() < usize::MAX,
        ensures
            final(self).frames() == old(self).frames(),
            final(self).handed_out() == old(self).handed_out() + 1,
            r == (if old(self).handed_out() < old(self).frames().len() {
                Some(old(self).frames()[old(self).handed_out() as int])
            } else {
                None
            }),
    {
        let n = self.next as u64;
        self.next = self.next + 1;
        let mut seen: u64 = 0;
        let mut i: usize = 0;
        while i < self.regions.len()
            invariant
                0 <= i <= self.regions@.len(),
                self.regions == old(self).regions,
                n == old(self).next,
                self.next == old(self).next + 1,
                seen == usable_frames(self.regions@.subrange(0, i as int)).len(),
                seen <= n,
            decreases self.regions@.len() - i,
        {
            let r = self.regions[i];
            let c = Self::frame_count(&r);
            proof {
                let pre = self.regions@.subrange(0, i as int);
                let pre1 = self.regions@.subrange(0, i + 1);
                assert(pre1.drop_last() =~= pre);
                assert(usable_frames(pre1) == usable_frames(pre) + region_frames(r));
            }
            if n - seen < c {
                let k = n - seen;
                let addr = r.start + k * PAGE_SIZE;
                proof {
                    assert(k * PAGE_SIZE < r.end - r.start) by (nonlinear_arith)
                        requires k < c, c == (r.end - r.start + PAGE_SIZE - 1) / (PAGE_SIZE as int), PAGE_SIZE == 4096, r.start < r.end;
                    lemma_prefix_frames(self.regions@, i as int + 1);
                    let pre = self.regions@.subrange(0, i as int);
                    let pre1 = self.regions@.subrange(0, i + 1);
                    assert(region_frames(r)[k as int] == align_down(addr));
                    assert(usable_frames(pre1)[n as int] == region_frames(r)[k as int]);
                    assert(usable_frames(self.regions@)[n as int] == usable_frames(pre1)[n as int]);
                }
                return Some(addr - addr % PAGE_SIZE);
            }
            seen = seen + c;
            i = i + 1;
        }
        proof {
            assert(self.regions@.subrange(0, i as int) =~= self.regions@);
        }
        None
    }
}

proof fn lemma_prefix_frames(regions: Seq<MemoryRegion>, k: int)
    requires
        0 <= k <= regions.len(),
    ensures
        usable_frames(regions.subrange(0, k)).len() <= usable_frames(regions).len(),
        forall|i: int| 0 <= i < usable_frames(regions.subrange(0, k)).len()
            ==> #[trigger] usable_frames(regions.subrange(0, k))[i] == usable_frames(regions)[i],
    decreases regions.len() - k,
{
    if k < regions.len() {
        lemma_prefix_frames(regions, k + 1);
        let pre = regions.subrange(0, k);
        let pre1 = regions.subrange(0, k + 1);
        assert(pre1.drop_last() =~= pre);
        assert(usable_frames(pre1) == usable_frames(pre) + region_frames(pre1.last()));
        assert forall|i: int| 0 <= i < usable_frames(pre).len()
            implies #[trigger] usable_frames(pre)[i] == usable_frames(regions)[i] by {
            assert(usable_frames(pre1)[i] == usable_frames(pre)[i]);
        }
    } else {
        assert(regions.subrange(0, k) =~= regions);
    }
}

/// Why the heap could not be mapped.
#[derive(Clone, Copy, PartialEq, Eq, Structural, Debug)]
pub enum MapError {
    /// The memory map ran out of usable frames.
    FrameAllocationFailed,
    /// The heap's pages are mapped already: the heap was initialized before.
    PageAlreadyMapped,
}

/// Address of the `i`-th page of the heap.
pub open spec fn heap_page(i: int) -> u64 {
    (HEAP_START + i * PAGE_SIZE) as u64
}

/// What `init_heap` does, from heap `h0` and allocator `f0` to `h1` and
/// `f1`, with result `r`.
pub open spec fn init_heap_post(
    h0: KernelHeap, f0: BootInfoFrameAllocator, h1: KernelHeap, f1: BootInfoFrameAllocator,
    r: Result<Vec<(u64, u64)>, MapError>,
) -> bool {
    &&& f1.frames() == f0.frames()
    &&& h0.is_mapped() ==> r == Err::<Vec<(u64, u64)>, MapError>(MapError::PageAlreadyMapped) && f1 == f0 && h1.is_mapped()
    &&& !h0.is_mapped() ==> {
        let first = f0.handed_out();
        if first + HEAP_PAGES <= f0.frames().len() {
            &&& r matches Ok(v) && v@.len() == HEAP_PAGES && forall|i: int| 0 <= i < HEAP_PAGES
                ==> (#[trigger] v@[i]) == (heap_page(i), f0.frames()[first + i])
            &&& f1.handed_out() == first + HEAP_PAGES
            &&& h1.is_mapped()
        } else {
            &&& r == Err::<Vec<(u64, u64)>, MapError>(MapError::FrameAllocationFailed)
            &&& !h1.is_mapped()
        }
    }
}

/// The kernel heap's mapping state.
pub struct KernelHeap {
    mapped: bool,
}

impl KernelHeap {
    pub closed spec fn is_mapped(&self) -> bool {
        self.mapped
    }

    /// A heap not yet mapped.
    pub fn new() -> (r: KernelHeap)
        ensures
            !r.is_mapped(),
    {
        KernelHeap { mapped: false }
    }

    /// Pairs each page of the heap, in order, with the next frame of
    /// `frames`. The heap is mapped once: a second attempt fails with
    /// `PageAlreadyMapped` and takes no frame. When the frames run out the
    /// attempt fails with `FrameAllocationFailed`.
    pub fn init_heap(&mut self, frames: &mut BootInfoFrameAllocator) -> (r: Result<Vec<(u64, u64)>, MapError>)
        requires
            old(frames).handed_out() + HEAP_PAGES < usize::MAX,
        ensures
            init_heap_post(*old(self), *old(frames), *final(self), *final(frames), r),
    {
        if self.mapped {
            return Err(MapError::PageAlreadyMapped);
        }
        let ghost first = frames.handed_out();
        let mut pairs: Vec<(u64, u64)> = Vec::new();
        let mut i: u64 = 0;
        while i < HEAP_PAGES
            invariant
                0 <= i <= HEAP_PAGES,
                !self.mapped,
                frames.frames() == old(frames).frames(),
                frames.handed_out() == first + i,
                first == old(frames).handed_out(),
                first + HEAP_PAGES < usize::MAX,
                i > 0 ==> first + i <= frames.frames().len(),
                pairs@.len() == i,
                forall|k: int| 0 <= k < i ==> (#[trigger] pairs@[k]) == (heap_page(k), old(frames).frames()[first + k]),
            decreases HEAP_PAGES - i,
        {
            match frames.allocate_frame() {
                Some(frame) => {
                    pairs.push((HEAP_START + i * PAGE_SIZE, frame));
                },
                None => {
                    return Err(MapError::FrameAllocationFailed);
                },
            }
            i = i + 1;
        }
        self.mapped = true;
        Ok(pairs)
    }
}

/// Initializing the heap twice is refused: after a successful first
/// attempt, a second one fails with `PageAlreadyMapped` and takes no frame.
pub proof fn lemma_heap_init_once(
    h0: KernelHeap, f0: BootInfoFrameAllocator, h1: KernelHeap, f1: BootInfoFrameAllocator,
    r1: Result<Vec<(u64, u64)>, MapError>,
    f1b: BootInfoFrameAllocator, h2: KernelHeap, f2: BootInfoFrameAllocator,
    r2: Result<Vec<(u64, u64)>, MapError>,
)
    requires
        init_heap_post(h0, f0, h1, f1, r1),
        r1 is Ok,
        init_heap_post(h1, f1b, h2, f2, r2),
    ensures
        r2 == Err::<Vec<(u64, u64)>, MapError>(MapError::PageAlreadyMapped),
        f2 == f1b,
{
}

} // verus!
