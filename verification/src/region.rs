//! Shared memory regions: the header that every region starts with, the
//! count of its holders, and which part of a region is mapped.
//!
//! ```text
//! [count of holders: u32][size of the buffer: u64][the buffer]
//! ```
//!
//! Mapping memory and counting atomically are the caller's part. What is
//! mapped where, and when a mapping can be used again, is decided here.

use crate::errors::Error;
use crate::util::{
    range_is_sound, range_offset, range_size, range_sound, range_to_offset_size, trunc_page,
};
use core::ops::Bound;
use vstd::prelude::*;

verus! {

/// The bytes of the count of holders, at the start of a region.
pub const HEADER_REFERENCE_COUNT: usize = 4;

/// The bytes of the buffer's size, which follow the count.
pub const HEADER_BUFFER_SIZE: usize = 8;

/// The length of the header of a region.
pub fn header_length() -> (len: usize)
    ensures
        len == HEADER_REFERENCE_COUNT + HEADER_BUFFER_SIZE,
{
    HEADER_REFERENCE_COUNT + HEADER_BUFFER_SIZE
}

/// The size of the memory object behind a region with a buffer of `size`
/// bytes; `None` where that is more than can be addressed.
pub fn object_size(size: usize) -> (total: Option<usize>)
    ensures
        match total {
            Some(t) => t == size + HEADER_REFERENCE_COUNT + HEADER_BUFFER_SIZE,
            None => size + HEADER_REFERENCE_COUNT + HEADER_BUFFER_SIZE > usize::MAX,
        },
{
    size.checked_add(header_length())
}

/// What is done to the count of holders.
#[derive(Debug, Copy, Clone, PartialEq, Eq, Structural)]
pub enum CountOp {
    /// Read it.
    Load,
    /// Add to it.
    Add(u32),
    /// Take from it.
    Sub(u32),
}

/// What changing the count by `val` means: nothing but reading it for zero,
/// adding for a positive number and taking away for a negative one.
pub fn count_op(val: i32) -> (op: CountOp)
    ensures
        op == if val == 0 {
            CountOp::Load
        } else if val > 0 {
            CountOp::Add(val as u32)
        } else {
            CountOp::Sub((-val) as u32)
        },
{
    if val == 0 {
        CountOp::Load
    } else if val > 0 {
        CountOp::Add(val as u32)
    } else if val == i32::MIN {
        CountOp::Sub(0x8000_0000)
    } else {
        CountOp::Sub((-val) as u32)
    }
}

/// The count after `op`. It is kept in thirty-two bits and wraps.
pub open spec fn count_after(count: u32, op: CountOp) -> u32 {
    match op {
        CountOp::Load => count,
        CountOp::Add(n) => ((count + n) % 0x1_0000_0000) as u32,
        CountOp::Sub(n) => ((count - n) % 0x1_0000_0000) as u32,
    }
}

/// The count after `op`.
pub fn apply_count(count: u32, op: CountOp) -> (after: u32)
    ensures
        after == count_after(count, op),
{
    match op {
        CountOp::Load => count,
        CountOp::Add(n) => count.wrapping_add(n),
        CountOp::Sub(n) => count.wrapping_sub(n),
    }
}

/// The count of a region that was created and then cloned `n` times.
pub open spec fn count_of_clones(n: nat) -> u32
    decreases n,
{
    if n == 0 {
        1
    } else {
        count_after(count_of_clones((n - 1) as nat), CountOp::Add(1))
    }
}

/// The count `count` after `n` holders have let go.
pub open spec fn count_after_drops(count: u32, n: nat) -> u32
    decreases n,
{
    if n == 0 {
        count
    } else {
        count_after(count_after_drops(count, (n - 1) as nat), CountOp::Sub(1))
    }
}

/// A region that was created and cloned `n` times counts `1 + n` holders,
/// and when all of them have let go it counts none: then the memory is the
/// system's to take back.
pub proof fn lemma_count_of_holders(n: nat)
    requires
        n < u32::MAX,
    ensures
        count_of_clones(n) == 1 + n,
        count_after_drops(count_of_clones(n), n + 1) == 0,
{
    lemma_count_of_clones(n);
    lemma_count_after_drops((1 + n) as u32, n + 1);
}

proof fn lemma_count_of_clones(n: nat)
    requires
        n < u32::MAX,
    ensures
        count_of_clones(n) == 1 + n,
    decreases n,
{
    if n > 0 {
        lemma_count_of_clones((n - 1) as nat);
    }
}

proof fn lemma_count_after_drops(count: u32, n: nat)
    requires
        n <= count,
    ensures
        count_after_drops(count, n) == count - n,
    decreases n,
{
    if n > 0 {
        lemma_count_after_drops(count, (n - 1) as nat);
    }
}

/// A message in transit keeps its regions alive, and hands one holder over.
/// The sender counts itself once more before it sends; the receiver counts
/// itself when it takes the region and then takes the sender's extra count
/// away. Together that is one holder more, the receiver. Where sending
/// fails, the sender takes its extra count back and nothing has changed.
pub proof fn lemma_transit(count: u32)
    requires
        0 < count < u32::MAX - 1,
    ensures
        count_after(
            count_after(count_after(count, CountOp::Add(1)), CountOp::Add(1)),
            CountOp::Sub(1),
        ) == count + 1,
        count_after(count_after(count, CountOp::Add(1)), CountOp::Sub(1)) == count,
        count_after(count, CountOp::Add(1)) >= 1,
{
}

/// A part of a region's buffer that is mapped: `len` bytes from `offset`
/// on. `M` is the mapping itself, which gives the memory back when it is
/// dropped.
pub struct MappedRegion<M> {
    pub offset: usize,
    pub len: usize,
    pub mapping: M,
}

/// Where in the memory object a part of the buffer lies, and what must be
/// mapped to reach it: a mapping starts at a page.
#[derive(Debug, Copy, Clone, PartialEq, Eq, Structural)]
pub struct Window {
    /// The first byte of the part, counted from the start of the buffer.
    pub offset: usize,
    /// The length of the part.
    pub size: usize,
    /// The start of the mapping in the memory object, at a page.
    pub aligned_offset: usize,
    /// The place of the part in the mapping.
    pub adjustment: usize,
    /// The length of the mapping.
    pub map_len: usize,
}

/// The window for `size` bytes from `offset` of the buffer, where a page
/// has `page_mask + 1` bytes.
pub open spec fn window_of(offset: int, size: int, page_mask: usize) -> Window {
    let start = (offset + HEADER_REFERENCE_COUNT + HEADER_BUFFER_SIZE) as usize;
    Window {
        offset: offset as usize,
        size: size as usize,
        aligned_offset: start & !page_mask,
        adjustment: (start - (start & !page_mask)) as usize,
        map_len: (start - (start & !page_mask) + size) as usize,
    }
}

/// Whether the window for `size` bytes from `offset` can be told in
/// `usize`.
pub open spec fn window_fits(offset: int, size: int) -> bool {
    offset + HEADER_REFERENCE_COUNT + HEADER_BUFFER_SIZE + size <= usize::MAX
}

/// The window for `size` bytes from `offset` of the buffer; `None` where it
/// reaches beyond what can be addressed.
pub fn window(offset: usize, size: usize, page_mask: usize) -> (w: Option<Window>)
    ensures
        w is Some <==> window_fits(offset as int, size as int),
        w matches Some(found) ==> found == window_of(offset as int, size as int, page_mask)
            && found.aligned_offset + found.adjustment == offset + HEADER_REFERENCE_COUNT
            + HEADER_BUFFER_SIZE && found.aligned_offset & page_mask == 0 && found.adjustment
            <= page_mask && found.map_len == found.adjustment + size,
{
    let start = match offset.checked_add(header_length()) {
        Some(start) => start,
        None => {
            return None;
        },
    };
    if size > usize::MAX - start {
        return None;
    }
    let aligned_offset = trunc_page(start, page_mask);
    let adjustment = start - aligned_offset;
    Some(Window { offset, size, aligned_offset, adjustment, map_len: adjustment + size })
}

/// What `map` does for a range of the buffer.
#[derive(Debug, Copy, Clone, PartialEq, Eq, Structural)]
pub enum MapPlan {
    /// The part that is mapped is the part asked for.
    Reuse,
    /// Map this window, and give up what was mapped before.
    Remap(Window),
}

/// The size of a range without an end: what is left of the buffer from
/// `offset` on, or as much of it as a `usize` can tell.
pub open spec fn open_size(buffer_size: u64, offset: int) -> int {
    if buffer_size - offset > usize::MAX {
        usize::MAX as int
    } else {
        buffer_size - offset
    }
}

/// The offset and the size that a range of a buffer of `buffer_size` bytes
/// asks for. A range with no end reaches to the end of the buffer, and
/// cannot start behind it.
pub open spec fn requested(buffer_size: u64, start: Bound<usize>, end: Bound<usize>) -> Option<
    (int, int),
> {
    if !range_is_sound(start, end) {
        None
    } else {
        match range_size(range_offset(start), end) {
            Some(size) => Some((range_offset(start), size)),
            None => if range_offset(start) > buffer_size {
                None
            } else {
                Some((range_offset(start), open_size(buffer_size, range_offset(start))))
            },
        }
    }
}

/// The plan for mapping a range, for a region of which `current` tells the
/// offset and length of the part that is mapped now.
pub open spec fn plan_of(
    current: Option<(usize, usize)>,
    buffer_size: u64,
    start: Bound<usize>,
    end: Bound<usize>,
    page_mask: usize,
) -> Result<MapPlan, Error> {
    match requested(buffer_size, start, end) {
        None => Err(Error::MemoryRegionMapping),
        Some((offset, size)) => if current == Some((offset as usize, size as usize)) {
            Ok(MapPlan::Reuse)
        } else if window_fits(offset, size) {
            Ok(MapPlan::Remap(window_of(offset, size, page_mask)))
        } else {
            Err(Error::MemoryRegionMapping)
        },
    }
}

/// A region of shared memory. `O` is the memory object behind it and `M` a
/// mapping of a part of that object.
pub struct MemoryRegion<O, M> {
    header: M,
    buffer_size: u64,
    buffer: Option<MappedRegion<M>>,
    obj: O,
}

impl<O, M> MemoryRegion<O, M> {
    /// The size of the buffer.
    pub closed spec fn size_view(&self) -> u64 {
        self.buffer_size
    }

    /// The part of the buffer that is mapped, if any.
    pub closed spec fn buffer_view(&self) -> Option<MappedRegion<M>> {
        self.buffer
    }

    /// The memory object behind the region.
    pub closed spec fn object_view(&self) -> O {
        self.obj
    }

    /// The mapping of the header.
    pub closed spec fn header_view(&self) -> M {
        self.header
    }

    /// The offset and the length of the part that is mapped, if any.
    pub open spec fn mapped_part(&self) -> Option<(usize, usize)> {
        match self.buffer_view() {
            Some(b) => Some((b.offset, b.len)),
            None => None,
        }
    }

    /// A region over the object `obj` whose header is mapped by `header`
    /// and tells a buffer of `buffer_size` bytes. Nothing of the buffer is
    /// mapped yet.
    pub fn from_parts(header: M, buffer_size: u64, obj: O) -> (region: Self)
        ensures
            region.header_view() == header,
            region.size_view() == buffer_size,
            region.buffer_view() is None,
            region.object_view() == obj,
    {
        MemoryRegion { header, buffer_size, buffer: None, obj }
    }

    /// The memory object behind the region.
    pub fn object(&self) -> (obj: &O)
        ensures
            *obj == self.object_view(),
    {
        &self.obj
    }

    /// The mapping of the header, in which the count of holders lives.
    pub fn header(&self) -> (header: &M)
        ensures
            *header == self.header_view(),
    {
        &self.header
    }

    /// The size of the buffer.
    pub fn buffer_size(&self) -> (size: u64)
        ensures
            size == self.size_view(),
    {
        self.buffer_size
    }

    /// The offset and size that a range asks for; `None` for a range that
    /// ends before it starts, that has no first index, or that has no end
    /// and starts behind the buffer.
    fn request(&self, start: Bound<usize>, end: Bound<usize>) -> (r: Option<(usize, usize)>)
        ensures
            match requested(self.size_view(), start, end) {
                Some((offset, size)) => r == Some((offset as usize, size as usize)) && 0 <= offset
                    <= usize::MAX && 0 <= size <= usize::MAX,
                None => r is None,
            },
    {
        if !range_sound(start, end) {
            return None;
        }
        let (offset, size) = range_to_offset_size(start, end);
        match size {
            Some(size) => Some((offset, size)),
            None => {
                if offset as u64 > self.buffer_size {
                    None
                } else {
                    let rest = self.buffer_size - offset as u64;
                    if rest > usize::MAX as u64 {
                        Some((offset, usize::MAX))
                    } else {
                        Some((offset, rest as usize))
                    }
                }
            },
        }
    }

    /// What is to be done so that the range from `start` to `end` of the
    /// buffer is mapped: nothing where just that part is mapped already,
    /// else a new mapping that starts at a page. A range that cannot be
    /// told or addressed fails with `MemoryRegionMapping`.
    pub fn map_plan(&self, start: Bound<usize>, end: Bound<usize>, page_mask: usize) -> (plan:
        Result<MapPlan, Error>)
        ensures
            plan == plan_of(self.mapped_part(), self.size_view(), start, end, page_mask),
    {
        let (offset, size) = match self.request(start, end) {
            Some(r) => r,
            None => {
                return Err(Error::MemoryRegionMapping);
            },
        };
        if let Some(buffer) = &self.buffer {
            if buffer.offset == offset && buffer.len == size {
                return Ok(MapPlan::Reuse);
            }
        }
        match window(offset, size, page_mask) {
            Some(w) => Ok(MapPlan::Remap(w)),
            None => Err(Error::MemoryRegionMapping),
        }
    }

    /// Takes `mapping` as the mapping of the part that `window` tells, and
    /// gives up what was mapped before.
    pub fn install(&mut self, window: Window, mapping: M)
        ensures
            final(self).buffer_view() == Some(
                (MappedRegion { offset: window.offset, len: window.size, mapping }),
            ),
            final(self).header_view() == old(self).header_view(),
            final(self).size_view() == old(self).size_view(),
            final(self).object_view() == old(self).object_view(),
    {
        self.buffer = Some(MappedRegion { offset: window.offset, len: window.size, mapping });
    }

    /// Sees to it that the range from `start` to `end` of the buffer is
    /// mapped. Where just that part is mapped already, nothing is done; else
    /// `map_window` maps the window that the range needs, and what was
    /// mapped before is given up. Where the range cannot be told or the
    /// window cannot be mapped, the region stays as it is and the error is
    /// `MemoryRegionMapping`.
    pub fn map<F: Fn(&O, Window) -> Option<M>>(
        &mut self,
        start: Bound<usize>,
        end: Bound<usize>,
        page_mask: usize,
        map_window: F,
    ) -> (done: Result<(), Error>)
        requires
            forall|o: &O, w: Window| call_requires(map_window, (o, w)),
        ensures
            match plan_of(old(self).mapped_part(), old(self).size_view(), start, end, page_mask) {
                Err(e) => done == Err::<(), Error>(e) && final(self).buffer_view() == old(
                    self).buffer_view(),
                Ok(MapPlan::Reuse) => done is Ok && final(self).buffer_view() == old(
                    self).buffer_view(),
                Ok(MapPlan::Remap(w)) => match done {
                    Ok(_) => exists|m: M| #[trigger]
                        call_ensures(map_window, (&old(self).object_view(), w), Some(m)) && final(
                            self).buffer_view() == Some(
                            MappedRegion { offset: w.offset, len: w.size, mapping: m },
                        ),
                    Err(e) => e == Error::MemoryRegionMapping && call_ensures(
                        map_window,
                        (&old(self).object_view(), w),
                        None::<M>,
                    ) && final(self).buffer_view() == old(self).buffer_view(),
                },
            },
            final(self).header_view() == old(self).header_view(),
            final(self).size_view() == old(self).size_view(),
            final(self).object_view() == old(self).object_view(),
    {
        match self.map_plan(start, end, page_mask) {
            Err(e) => Err(e),
            Ok(MapPlan::Reuse) => Ok(()),
            Ok(MapPlan::Remap(w)) => {
                match map_window(&self.obj, w) {
                    Some(mapping) => {
                        self.install(w, mapping);
                        Ok(())
                    },
                    None => Err(Error::MemoryRegionMapping),
                }
            },
        }
    }

    /// The part of the buffer that is mapped.
    pub fn mapped(&self) -> (buffer: Option<&MappedRegion<M>>)
        ensures
            match self.buffer_view() {
                Some(b) => buffer matches Some(found) && *found == b,
                None => buffer is None,
            },
    {
        self.buffer.as_ref()
    }

    /// The mapping of the range from `start` to `end`, where just that part
    /// is mapped now; `None` where it would have to be mapped first.
    pub fn try_map_read(&self, start: Bound<usize>, end: Bound<usize>) -> (mapping: Option<&M>)
        ensures
            match (requested(self.size_view(), start, end), self.buffer_view()) {
                (Some((offset, size)), Some(b)) => if b.offset == offset && b.len == size {
                    mapping matches Some(m) && *m == b.mapping
                } else {
                    mapping is None
                },
                _ => mapping is None,
            },
    {
        let (offset, size) = match self.request(start, end) {
            Some(r) => r,
            None => {
                return None;
            },
        };
        match &self.buffer {
            Some(buffer) => {
                if buffer.offset == offset && buffer.len == size {
                    Some(&buffer.mapping)
                } else {
                    None
                }
            },
            None => None,
        }
    }
}

} // verus!
