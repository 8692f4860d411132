//! A minimal bootstrap ("early") memory allocator for the window before a
//! kernel's full byte and page allocators are up.
//!
//! One contiguous range `[start, end)` serves two disciplines at once:
//! small byte allocations are bump-allocated forward from the low end, page
//! allocations are bump-allocated backward from the high end.  Two cursors
//! (`b_pos` growing up, `p_pos` growing down) share the capacity in the
//! middle; `[b_pos, p_pos)` is all that is ever free.
//!
//! The byte area uses region-level reference counting, not per-object
//! freeing: `dealloc_bytes` only decrements a live count, and when the count
//! returns to zero the whole byte area is reclaimed in one step by resetting
//! `b_pos` to `start`.  Pages are permanent: `dealloc_pages` is unsupported,
//! as is growing the region with `add_memory`.

use vstd::prelude::*;
use vstd::arithmetic::div_mod::{
    lemma_fundamental_div_mod, lemma_mod_division_less_than_divisor, lemma_mod_multiples_basic,
};
use vstd::arithmetic::mul::lemma_mul_is_commutative;

verus! {

/// The ways an allocation request can fail.
#[derive(Clone, Copy, Debug, PartialEq, Eq, Structural)]
pub enum AllocError {
    /// The requested span does not fit in the free interval `[b_pos, p_pos)`.
    NoMemory,
    /// A page alignment that is not a power of two, or smaller than `PAGE_SIZE`.
    InvalidParam,
    /// The operation is not provided by this allocator at all.
    Unsupported,
}

pub type AllocResult<T> = Result<T, AllocError>;

/// `n` is a power of two.
pub open spec fn is_pow2(n: nat) -> bool
    decreases n,
{
    if n == 0 {
        false
    } else if n == 1 {
        true
    } else {
        n % 2 == 0 && is_pow2(n / 2)
    }
}

/// `size` rounded up to the nearest multiple of `align` (pad-to-align).
pub open spec fn pad_up(size: int, align: int) -> int {
    ((size + align - 1) / align) * align
}

/// `x` rounded down to the nearest multiple of `align`.
pub open spec fn align_down(x: int, align: int) -> int {
    (x / align) * align
}

/// The double-ended bootstrap allocator over `[start, end)`.
///
/// `PAGE_SIZE` must be a power of two; every function that constructs an
/// allocator requires it.
pub struct EarlyAllocator<const PAGE_SIZE: usize> {
    /// Lower bound of the managed range, fixed at initialization.
    pub start: usize,
    /// Upper bound of the managed range, fixed at initialization.
    pub end: usize,
    /// Next free byte-allocation cursor; grows upward from `start`.
    pub b_pos: usize,
    /// Next free page-allocation boundary; shrinks downward from `end`.
    pub p_pos: usize,
    /// Number of currently live byte allocations.
    pub count: usize,
}

impl<const PAGE_SIZE: usize> EarlyAllocator<PAGE_SIZE> {
    /// Well-formedness: the cursors never cross and stay inside the range.
    pub open spec fn wf(self) -> bool {
        &&& is_pow2(PAGE_SIZE as nat)
        &&& self.start <= self.b_pos
        &&& self.b_pos <= self.p_pos
        &&& self.p_pos <= self.end
    }

    /// Capacity of the byte area: it shrinks as the page area grows.
    pub open spec fn spec_total_bytes(self) -> int {
        self.p_pos - self.start
    }

    /// Bytes consumed so far by the byte area.
    pub open spec fn spec_used_bytes(self) -> int {
        self.b_pos - self.start
    }

    /// Free bytes between the two cursors.
    pub open spec fn spec_available_bytes(self) -> int {
        self.p_pos - self.b_pos
    }

    /// Page capacity, measured from `b_pos` (byte usage reduces it).
    pub open spec fn spec_total_pages(self) -> int {
        (self.end - self.b_pos) / (PAGE_SIZE as int)
    }

    /// Pages handed out so far.
    pub open spec fn spec_used_pages(self) -> int {
        (self.end - self.p_pos) / (PAGE_SIZE as int)
    }

    /// Whole free pages between the two cursors.
    pub open spec fn spec_available_pages(self) -> int {
        (self.p_pos - self.b_pos) / (PAGE_SIZE as int)
    }

    /// A fresh, zero-capacity allocator.  Until `init` is called every
    /// sized allocation fails with `NoMemory`, since nothing is available.
    pub fn new() -> (r: Self)
        requires
            is_pow2(PAGE_SIZE as nat),
        ensures
            r.wf(),
            r.start == 0,
            r.end == 0,
            r.b_pos == 0,
            r.p_pos == 0,
            r.count == 0,
    {
        Self { start: 0, end: 0, b_pos: 0, p_pos: 0, count: 0 }
    }

    /// Adopt the range `[start, start + size)`.  To be called exactly once,
    /// before any allocation: re-initializing while byte allocations are
    /// live is a caller error and is excluded by the precondition.
    pub fn init(&mut self, start: usize, size: usize)
        requires
            old(self).wf(),
            old(self).count == 0,
            start + size <= usize::MAX,
        ensures
            final(self).wf(),
            final(self).start == start,
            final(self).end == start + size,
            final(self).b_pos == start,
            final(self).p_pos == start + size,
            final(self).count == 0,
            final(self).spec_total_bytes() == size,
            final(self).spec_available_bytes() == size,
            final(self).spec_used_bytes() == 0,
    {
        self.start = start;
        self.end = start + size;
        self.b_pos = self.start;
        self.p_pos = self.end;
    }

    /// Growing the managed range is not supported: fail loudly so callers
    /// relying on growable backing storage notice immediately.
    pub fn add_memory(&mut self, start: usize, size: usize) -> (r: AllocResult<()>)
        ensures
            *final(self) == *old(self),
            r == AllocResult::<()>::Err(AllocError::Unsupported),
    {
        let _ = start;
        let _ = size;
        Err(AllocError::Unsupported)
    }

    /// The padded size fits in the free interval, so a byte allocation of
    /// `(size, align)` succeeds.
    pub open spec fn bytes_alloc_fits(self, size: int, align: int) -> bool {
        pad_up(size, align) <= self.spec_available_bytes()
    }

    /// The state after a successful byte allocation of `(size, align)`:
    /// the byte cursor advances by the padded size and one more allocation
    /// is live.
    pub open spec fn after_alloc_bytes(self, size: int, align: int) -> Self {
        Self {
            b_pos: (self.b_pos + pad_up(size, align)) as usize,
            count: (self.count + 1) as usize,
            ..self
        }
    }

    /// Allocate `size` bytes from the low end of the free interval.
    ///
    /// The returned address is the byte cursor itself: only the cursor
    /// advance is padded to `align`, the address is not re-aligned.  The
    /// capacity check is against the padded size, so that committing the
    /// advance can never push the byte cursor past the page cursor.  On
    /// failure nothing changes.
    pub fn alloc_bytes(&mut self, size: usize, align: usize) -> (r: AllocResult<usize>)
        requires
            old(self).wf(),
            is_pow2(align as nat),
            old(self).count < usize::MAX,
            size + align <= usize::MAX,
        ensures
            final(self).wf(),
            !old(self).bytes_alloc_fits(size as int, align as int) ==> {
                &&& r == AllocResult::<usize>::Err(AllocError::NoMemory)
                &&& *final(self) == *old(self)
            },
            old(self).bytes_alloc_fits(size as int, align as int) ==> {
                &&& r == AllocResult::<usize>::Ok(old(self).b_pos)
                &&& *final(self) == old(self).after_alloc_bytes(size as int, align as int)
                &&& final(self).spec_used_bytes() == old(self).spec_used_bytes() + pad_up(
                    size as int,
                    align as int,
                )
            },
    {
        proof {
            lemma_pow2_pos(align as nat);
            lemma_pad_up_bounds(size as int, align as int);
        }
        let padded = (size + align - 1) / align * align;
        if self.p_pos - self.b_pos < padded {
            return Err(AllocError::NoMemory);
        }
        let addr = self.b_pos;
        self.b_pos = self.b_pos + padded;
        self.count = self.count + 1;
        Ok(addr)
    }

    /// The state after a byte deallocation: one fewer live allocation, and
    /// when none is left the whole byte area is reclaimed at once.
    pub open spec fn after_dealloc_bytes(self) -> Self {
        Self {
            b_pos: if self.count == 1 {
                self.start
            } else {
                self.b_pos
            },
            count: (self.count - 1) as usize,
            ..self
        }
    }

    /// Return one byte allocation.
    ///
    /// Region-level reference counting, not per-object freeing: `pos`,
    /// `size` and `align` are accepted for interface compatibility only and
    /// drive no bookkeeping.  The live count drops by one; when it reaches
    /// zero the entire byte area is reclaimed in one step.
    pub fn dealloc_bytes(&mut self, pos: usize, size: usize, align: usize)
        requires
            old(self).wf(),
            old(self).count > 0,
        ensures
            final(self).wf(),
            *final(self) == old(self).after_dealloc_bytes(),
            final(self).count == old(self).count - 1,
            old(self).count > 1 ==> final(self).b_pos == old(self).b_pos,
            old(self).count == 1 ==> final(self).b_pos == final(self).start
                && final(self).spec_used_bytes() == 0,
    {
        let _ = pos;
        let _ = size;
        let _ = align;
        self.count = self.count - 1;
        if self.count == 0 {
            self.b_pos = self.start;
        }
    }

    /// The candidate start address for a page allocation: subtract the
    /// nominal size from the page cursor, then round down to `align`.
    pub open spec fn page_alloc_candidate(self, num_pages: int, align: int) -> int {
        align_down(self.p_pos - num_pages * (PAGE_SIZE as int), align)
    }

    /// The page allocation fits: the nominal span and the extra taken by
    /// rounding down both stay inside the free interval `[b_pos, p_pos)`.
    pub open spec fn pages_alloc_fits(self, num_pages: int, align: int) -> bool {
        &&& num_pages * (PAGE_SIZE as int) <= self.p_pos
        &&& self.b_pos <= self.page_alloc_candidate(num_pages, align)
    }

    /// The state after a successful page allocation: the page cursor drops
    /// to the candidate start address.
    pub open spec fn after_alloc_pages(self, num_pages: int, align: int) -> Self {
        Self { p_pos: self.page_alloc_candidate(num_pages, align) as usize, ..self }
    }

    /// Allocate `num_pages` pages, aligned to `align_pow2`, from the high
    /// end of the free interval.
    ///
    /// `align_pow2` must be a power of two no smaller than `PAGE_SIZE`,
    /// else `InvalidParam`.  Because the candidate address is rounded
    /// down, the reserved span can exceed the nominal size by up to
    /// `align_pow2 - 1` bytes; a request whose span (excess included)
    /// would cross into `[start, b_pos)` fails with `NoMemory`.  On
    /// failure nothing changes.
    pub fn alloc_pages(&mut self, num_pages: usize, align_pow2: usize) -> (r: AllocResult<usize>)
        requires
            old(self).wf(),
        ensures
            final(self).wf(),
            !(is_pow2(align_pow2 as nat) && align_pow2 >= PAGE_SIZE) ==> {
                &&& r == AllocResult::<usize>::Err(AllocError::InvalidParam)
                &&& *final(self) == *old(self)
            },
            is_pow2(align_pow2 as nat) && align_pow2 >= PAGE_SIZE
                && !old(self).pages_alloc_fits(num_pages as int, align_pow2 as int) ==> {
                &&& r == AllocResult::<usize>::Err(AllocError::NoMemory)
                &&& *final(self) == *old(self)
            },
            is_pow2(align_pow2 as nat) && align_pow2 >= PAGE_SIZE
                && old(self).pages_alloc_fits(num_pages as int, align_pow2 as int) ==> {
                &&& r == AllocResult::<usize>::Ok(
                    old(self).page_alloc_candidate(num_pages as int, align_pow2 as int) as usize,
                )
                &&& *final(self) == old(self).after_alloc_pages(num_pages as int, align_pow2 as int)
                &&& (final(self).p_pos as int) % (align_pow2 as int) == 0
                &&& old(self).b_pos <= final(self).p_pos
                &&& final(self).p_pos + num_pages * (PAGE_SIZE as int) <= old(self).p_pos
            },
    {
        if !is_power_of_two(align_pow2) || align_pow2 < PAGE_SIZE {
            return Err(AllocError::InvalidParam);
        }
        let alloc_size = match num_pages.checked_mul(PAGE_SIZE) {
            Some(s) => s,
            None => {
                // the nominal span alone is larger than the address space
                return Err(AllocError::NoMemory);
            },
        };
        if alloc_size > self.p_pos {
            return Err(AllocError::NoMemory);
        }
        proof {
            lemma_pow2_pos(align_pow2 as nat);
            lemma_align_down_bounds(self.p_pos - alloc_size, align_pow2 as int);
        }
        let candidate = (self.p_pos - alloc_size) / align_pow2 * align_pow2;
        if candidate < self.b_pos {
            return Err(AllocError::NoMemory);
        }
        self.p_pos = candidate;
        Ok(candidate)
    }

    /// Pages are permanent for this allocator's lifetime: always fails.
    pub fn dealloc_pages(&mut self, pos: usize, num_pages: usize) -> (r: AllocResult<()>)
        ensures
            *final(self) == *old(self),
            r == AllocResult::<()>::Err(AllocError::Unsupported),
    {
        let _ = pos;
        let _ = num_pages;
        Err(AllocError::Unsupported)
    }

    /// Byte capacity: `p_pos - start`.
    pub fn total_bytes(&self) -> (r: usize)
        requires
            self.wf(),
        ensures
            r == self.spec_total_bytes(),
    {
        self.p_pos - self.start
    }

    /// Bytes consumed: `b_pos - start`.
    pub fn used_bytes(&self) -> (r: usize)
        requires
            self.wf(),
        ensures
            r == self.spec_used_bytes(),
    {
        self.b_pos - self.start
    }

    /// Free bytes: `p_pos - b_pos`.
    pub fn available_bytes(&self) -> (r: usize)
        requires
            self.wf(),
        ensures
            r == self.spec_available_bytes(),
    {
        self.p_pos - self.b_pos
    }

    /// Page capacity, measured from `b_pos`: byte usage visibly shrinks it.
    pub fn total_pages(&self) -> (r: usize)
        requires
            self.wf(),
        ensures
            r == self.spec_total_pages(),
    {
        proof {
            lemma_pow2_pos(PAGE_SIZE as nat);
        }
        (self.end - self.b_pos) / PAGE_SIZE
    }

    /// Pages handed out: `(end - p_pos) / PAGE_SIZE`.
    pub fn used_pages(&self) -> (r: usize)
        requires
            self.wf(),
        ensures
            r == self.spec_used_pages(),
    {
        proof {
            lemma_pow2_pos(PAGE_SIZE as nat);
        }
        (self.end - self.p_pos) / PAGE_SIZE
    }

    /// Whole free pages: `(p_pos - b_pos) / PAGE_SIZE`.
    pub fn available_pages(&self) -> (r: usize)
        requires
            self.wf(),
        ensures
            r == self.spec_available_pages(),
    {
        proof {
            lemma_pow2_pos(PAGE_SIZE as nat);
        }
        (self.p_pos - self.b_pos) / PAGE_SIZE
    }

    /// Every byte request in `reqs` (as `(size, align)` pairs) fits in
    /// turn, each against the state the previous one left.
    pub open spec fn all_bytes_allocs_fit(self, reqs: Seq<(int, int)>) -> bool
        decreases reqs.len(),
    {
        reqs.len() == 0 || {
            &&& self.bytes_alloc_fits(reqs[0].0, reqs[0].1)
            &&& self.after_alloc_bytes(reqs[0].0, reqs[0].1).all_bytes_allocs_fit(reqs.skip(1))
        }
    }

    /// The state after serving the whole byte-request sequence.
    pub open spec fn after_alloc_bytes_seq(self, reqs: Seq<(int, int)>) -> Self
        decreases reqs.len(),
    {
        if reqs.len() == 0 {
            self
        } else {
            self.after_alloc_bytes(reqs[0].0, reqs[0].1).after_alloc_bytes_seq(reqs.skip(1))
        }
    }

    /// Used bytes equal the sum of the padded sizes: after any sequence of
    /// successful byte allocations, `used_bytes` has grown by exactly the
    /// sum of the pad-to-align sizes, the other bounds are untouched, and
    /// the byte cursor still has not passed the page cursor.
    pub proof fn lemma_used_bytes_sums_padded_sizes(a: Self, reqs: Seq<(int, int)>)
        requires
            a.wf(),
            forall|i: int| 0 <= i < reqs.len() ==> #[trigger] reqs[i].0 >= 0 && reqs[i].1 >= 1,
            a.all_bytes_allocs_fit(reqs),
        ensures
            a.after_alloc_bytes_seq(reqs).wf(),
            a.after_alloc_bytes_seq(reqs).spec_used_bytes() == a.spec_used_bytes() + sum_padded(
                reqs,
            ),
            a.after_alloc_bytes_seq(reqs).b_pos <= a.after_alloc_bytes_seq(reqs).p_pos,
            a.after_alloc_bytes_seq(reqs).start == a.start,
            a.after_alloc_bytes_seq(reqs).end == a.end,
            a.after_alloc_bytes_seq(reqs).p_pos == a.p_pos,
        decreases reqs.len(),
    {
        if reqs.len() > 0 {
            lemma_pad_up_bounds(reqs[0].0, reqs[0].1);
            let b = a.after_alloc_bytes(reqs[0].0, reqs[0].1);
            assert(b.wf());
            assert(forall|i: int|
                0 <= i < reqs.skip(1).len() ==> reqs.skip(1)[i] == reqs[i + 1]);
            Self::lemma_used_bytes_sums_padded_sizes(b, reqs.skip(1));
        }
    }

    /// Bulk free: returning the last live byte allocation reclaims the
    /// whole byte area at once — whatever addresses were freed, in
    /// whatever order, `used_bytes` drops to zero and the byte cursor is
    /// back at `start`, so the next successful byte allocation is served
    /// at the original `start` address again.
    pub proof fn lemma_bulk_free_resets_byte_area(a: Self)
        requires
            a.wf(),
            a.count == 1,
        ensures
            a.after_dealloc_bytes().wf(),
            a.after_dealloc_bytes().count == 0,
            a.after_dealloc_bytes().spec_used_bytes() == 0,
            a.after_dealloc_bytes().b_pos == a.start,
            a.after_dealloc_bytes().spec_available_bytes()
                == a.after_dealloc_bytes().spec_total_bytes(),
    {
    }

    /// Partial free: returning fewer than all live byte allocations does
    /// not reset the byte cursor — the count stays positive and nothing
    /// is reclaimed.
    pub proof fn lemma_partial_free_keeps_byte_area(a: Self)
        requires
            a.wf(),
            a.count > 1,
        ensures
            a.after_dealloc_bytes().wf(),
            a.after_dealloc_bytes().count > 0,
            a.after_dealloc_bytes().b_pos == a.b_pos,
            a.after_dealloc_bytes().spec_used_bytes() == a.spec_used_bytes(),
    {
    }
}

/// The sum of the pad-to-align sizes of the byte requests in `reqs`.
pub open spec fn sum_padded(reqs: Seq<(int, int)>) -> int
    decreases reqs.len(),
{
    if reqs.len() == 0 {
        0
    } else {
        pad_up(reqs[0].0, reqs[0].1) + sum_padded(reqs.skip(1))
    }
}

/// Padding to an alignment never shrinks the size and adds less than one
/// whole alignment unit; the result is a multiple of the alignment.
pub proof fn lemma_pad_up_bounds(size: int, align: int)
    requires
        size >= 0,
        align >= 1,
    ensures
        size <= pad_up(size, align) <= size + align - 1,
        pad_up(size, align) % align == 0,
{
    let x = size + align - 1;
    lemma_fundamental_div_mod(x, align);
    lemma_mod_division_less_than_divisor(x, align);
    lemma_mul_is_commutative(align, x / align);
    lemma_mod_multiples_basic(x / align, align);
}

/// Rounding down to an alignment never grows the value and stays
/// nonnegative; the result is a multiple of the alignment.
pub proof fn lemma_align_down_bounds(x: int, align: int)
    requires
        x >= 0,
        align >= 1,
    ensures
        0 <= align_down(x, align) <= x,
        x - align_down(x, align) < align,
        align_down(x, align) % align == 0,
{
    lemma_fundamental_div_mod(x, align);
    lemma_mod_division_less_than_divisor(x, align);
    lemma_mul_is_commutative(align, x / align);
    lemma_mod_multiples_basic(x / align, align);
}

/// A power of two is positive.
pub proof fn lemma_pow2_pos(n: nat)
    requires
        is_pow2(n),
    ensures
        n >= 1,
{
}

/// `n` is a power of two exactly when it is positive and, stripped of its
/// factors of two, ends at one.
fn is_power_of_two(x: usize) -> (r: bool)
    ensures
        r == is_pow2(x as nat),
{
    if x == 0 {
        return false;
    }
    let mut n = x;
    while n % 2 == 0
        invariant
            n >= 1,
            is_pow2(x as nat) == is_pow2(n as nat),
        decreases n,
    {
        n = n / 2;
    }
    n == 1
}

} // verus!

