//! Small helpers: alignment, ranges, identifiers.

use core::ops::Bound;
use rand::distributions::{Alphanumeric, DistString};
use vstd::prelude::*;

verus! {

/// `core::ops::Bound`, an end of a range: included, excluded, or none.
#[verifier::external_type_specification]
#[verifier::reject_recursive_types(T)]
pub struct ExBound<T>(Bound<T>);

/// The least multiple of four that is not below `n`.
pub open spec fn align4_up(n: int) -> int {
    if n % 4 == 0 {
        n
    } else {
        n - n % 4 + 4
    }
}

/// Rounding up to the next multiple of four, the unit in which the parts of
/// a frame are laid out.
pub trait Align4: Sized {
    /// The number as a mathematical integer.
    spec fn as_int(self) -> int;

    /// The largest number of the type.
    spec fn max_int() -> int;

    /// Rounds `self` up to a multiple of four: the result is a multiple of
    /// four, not below `self` and less than four above it. It must fit the
    /// type.
    fn align4(self) -> (aligned: Self)
        requires
            align4_up(self.as_int()) <= Self::max_int(),
        ensures
            aligned.as_int() == align4_up(self.as_int()),
            aligned.as_int() % 4 == 0,
            self.as_int() <= aligned.as_int() < self.as_int() + 4,
    ;
}

impl Align4 for usize {
    open spec fn as_int(self) -> int {
        self as int
    }

    open spec fn max_int() -> int {
        usize::MAX as int
    }

    #[inline]
    fn align4(self) -> (aligned: usize) {
        if (self & 0x3) != 0 {
            assert(self & 0x3 == self % 4 && (self & !0x3) == self - self % 4) by (bit_vector);
            (self & !0x3) + 4
        } else {
            assert(self & 0x3 == self % 4) by (bit_vector);
            self
        }
    }
}

impl Align4 for u32 {
    open spec fn as_int(self) -> int {
        self as int
    }

    open spec fn max_int() -> int {
        u32::MAX as int
    }

    #[inline]
    fn align4(self) -> (aligned: u32) {
        if (self & 0x3) != 0 {
            assert(self & 0x3 == self % 4 && (self & !0x3) == self - self % 4) by (bit_vector);
            (self & !0x3) + 4
        } else {
            assert(self & 0x3 == self % 4) by (bit_vector);
            self
        }
    }
}

impl Align4 for u64 {
    open spec fn as_int(self) -> int {
        self as int
    }

    open spec fn max_int() -> int {
        u64::MAX as int
    }

    #[inline]
    fn align4(self) -> (aligned: u64) {
        if (self & 0x3) != 0 {
            assert(self & 0x3 == self % 4 && (self & !0x3) == self - self % 4) by (bit_vector);
            (self & !0x3) + 4
        } else {
            assert(self & 0x3 == self % 4) by (bit_vector);
            self
        }
    }
}

/// Rounding up to a multiple of four gives a multiple of four, not below the
/// number and less than four above it.
pub proof fn lemma_align4(n: int)
    requires
        0 <= n,
    ensures
        align4_up(n) % 4 == 0,
        n <= align4_up(n) < n + 4,
{
}

/// A number that is a multiple of four already is left as it is, so rounding
/// twice is rounding once.
pub proof fn lemma_align4_idempotent(n: int)
    requires
        0 <= n,
    ensures
        align4_up(align4_up(n)) == align4_up(n),
{
}

/// `size` with the bits of `page_mask` cleared. For a page of
/// `page_mask + 1` bytes, a power of two, that is the start of the page in
/// which `size` lies, and what was cut off is the place within the page.
pub fn trunc_page(size: usize, page_mask: usize) -> (start: usize)
    ensures
        start == size & !page_mask,
        start & page_mask == 0,
        start <= size,
        size - start == size & page_mask,
        size - start <= page_mask,
{
    assert((size & !page_mask) & page_mask == 0) by (bit_vector);
    assert(size - (size & !page_mask) == size & page_mask) by (bit_vector);
    assert(size & page_mask <= page_mask) by (bit_vector);
    size & !page_mask
}

/// The first index of a range that starts at `start`.
pub open spec fn range_offset(start: Bound<usize>) -> int {
    match start {
        Bound::Included(bound) => bound as int,
        Bound::Excluded(bound) => bound + 1,
        Bound::Unbounded => 0,
    }
}

/// The number of indices from `offset` to the end `end` of a range; `None`
/// where the range has no end.
pub open spec fn range_size(offset: int, end: Bound<usize>) -> Option<int> {
    match end {
        Bound::Included(bound) => Some(bound + 1 - offset),
        Bound::Excluded(bound) => Some(bound - offset),
        Bound::Unbounded => None,
    }
}

/// Whether the range from `start` to `end` can be told by an offset and a
/// size: its first index exists, and its end does not lie before it.
pub open spec fn range_is_sound(start: Bound<usize>, end: Bound<usize>) -> bool {
    &&& range_offset(start) <= usize::MAX
    &&& match range_size(range_offset(start), end) {
        Some(size) => 0 <= size && range_offset(start) + size <= usize::MAX,
        None => true,
    }
}

/// Tells whether `range_to_offset_size` can be called on the two bounds.
pub fn range_sound(start: Bound<usize>, end: Bound<usize>) -> (sound: bool)
    ensures
        sound == range_is_sound(start, end),
{
    let offset = match start {
        Bound::Included(bound) => bound,
        Bound::Excluded(bound) => {
            if bound == usize::MAX {
                return false;
            }
            bound + 1
        },
        Bound::Unbounded => 0,
    };
    match end {
        Bound::Included(bound) => bound < usize::MAX && bound + 1 >= offset,
        Bound::Excluded(bound) => bound >= offset,
        Bound::Unbounded => true,
    }
}

/// The offset and the size of the range from `start` to `end`; no size where
/// the range has no end.
pub fn range_to_offset_size(start: Bound<usize>, end: Bound<usize>) -> (r: (usize, Option<usize>))
    requires
        range_is_sound(start, end),
    ensures
        r.0 == range_offset(start),
        match range_size(range_offset(start), end) {
            Some(size) => r.1 == Some(size as usize),
            None => r.1 is None,
        },
{
    let offset = match start {
        Bound::Included(bound) => bound,
        Bound::Excluded(bound) => bound + 1,
        Bound::Unbounded => 0,
    };
    let size = match end {
        Bound::Included(bound) => Some(bound + 1 - offset),
        Bound::Excluded(bound) => Some(bound - offset),
        Bound::Unbounded => None,
    };
    (offset, size)
}

/// How many units of `unit` bytes a buffer of at least `size` bytes takes:
/// the least number of them that holds `size` bytes.
pub fn alloc_units(size: usize, unit: usize) -> (count: usize)
    requires
        unit > 0,
    ensures
        count * unit >= size,
        count > 0 ==> (count - 1) * unit < size,
        count == if size % unit == 0 {
            size as int / unit as int
        } else {
            size as int / unit as int + 1
        },
{
    let whole = size / unit;
    let rest = size % unit;
    assert(whole * unit + rest == size && (rest != 0 ==> whole < size)) by (nonlinear_arith)
        requires
            whole == size / unit,
            rest == size % unit,
            unit > 0,
    ;
    if rest != 0 {
        assert((whole + 1) * unit >= size && whole * unit < size) by (nonlinear_arith)
            requires
                whole * unit + rest == size,
                0 < rest < unit,
        ;
        whole + 1
    } else {
        assert(whole > 0 ==> (whole - 1) * unit < whole * unit) by (nonlinear_arith)
            requires
                unit > 0,
        ;
        whole
    }
}

/// What `Vec::swap_remove` leaves of `items`: the last item in the place of
/// the one at `i`.
pub open spec fn swap_removed<T>(items: Seq<T>, i: int) -> Seq<T> {
    items.update(i, items.last()).drop_last()
}

/// Where `vec_take` ends when it stands at position `i` of `source`: an item
/// that `pick` accepts moves to the end of `receiver`, and the last item of
/// `source` takes its place and is looked at next.
pub open spec fn taken<T>(
    source: Seq<T>,
    receiver: Seq<T>,
    i: int,
    pick: spec_fn(T) -> bool,
) -> (Seq<T>, Seq<T>)
    decreases source.len() - i,
{
    if i < 0 || i >= source.len() {
        (source, receiver)
    } else if pick(source[i]) {
        taken(swap_removed(source, i), receiver.push(source[i]), i, pick)
    } else {
        taken(source, receiver, i + 1, pick)
    }
}

/// Taking an item out by `Vec::swap_remove` takes just that item out: with
/// it put back, the items are those that were there, each as often as before.
pub proof fn lemma_swap_removed_multiset<T>(items: Seq<T>, i: int)
    requires
        0 <= i < items.len(),
    ensures
        swap_removed(items, i).to_multiset().insert(items[i]) == items.to_multiset(),
{
    broadcast use vstd::seq_lib::group_to_multiset_ensures;
    broadcast use vstd::multiset::group_multiset_axioms;

    let moved = items.update(i, items.last());
    assert(moved.drop_last() =~= moved.remove(moved.len() - 1));
    assert(moved.to_multiset() == items.to_multiset().insert(items.last()).remove(items[i]));
    assert(moved[moved.len() - 1] == items.last());
    assert(swap_removed(items, i).to_multiset().insert(items[i]) =~= items.to_multiset());
}

/// The items that `f` may accept.
pub open spec fn accepted_by<T, F: Fn(&T) -> bool>(f: F) -> spec_fn(T) -> bool {
    |item: T| call_ensures(f, (&item,), true)
}

/// Whether `f` gives one answer for each item.
pub open spec fn decides<T, F: Fn(&T) -> bool>(f: F) -> bool {
    forall|item: T| !(call_ensures(f, (&item,), true) && call_ensures(f, (&item,), false))
}

/// Moves the items of `source` that `f` accepts to the end of `receiver`.
/// An item that leaves is replaced by the last item of `source`, so the items
/// that stay may change their order. Nothing is lost and nothing is there
/// twice: what the two hold together is what they held before.
pub fn vec_take<T, F: Fn(&T) -> bool>(source: &mut Vec<T>, receiver: &mut Vec<T>, f: F)
    requires
        forall|item: T| call_requires(f, (&item,)),
    ensures
        decides(f) ==> (final(source)@, final(receiver)@) == taken(
            old(source)@,
            old(receiver)@,
            0,
            accepted_by(f),
        ),
        final(source)@.to_multiset().add(final(receiver)@.to_multiset()) == old(
            source)@.to_multiset().add(old(receiver)@.to_multiset()),
        final(source)@.len() + final(receiver)@.len() == old(source)@.len() + old(receiver)@.len(),
        old(receiver)@.is_prefix_of(final(receiver)@),
        forall|i: int|
            0 <= i < final(source)@.len() ==> call_ensures(
                f,
                (&#[trigger] final(source)@[i],),
                false,
            )
                && old(source)@.contains(final(source)@[i]),
        forall|i: int|
            old(receiver)@.len() <= i < final(receiver)@.len() ==> call_ensures(
                f,
                (&#[trigger] final(receiver)@[i],),
                true,
            ) && old(source)@.contains(final(receiver)@[i]),
{
    let mut i: usize = 0;
    while i < source.len()
        invariant
            forall|item: T| call_requires(f, (&item,)),
            i <= source@.len(),
            decides(f) ==> taken(source@, receiver@, i as int, accepted_by(f)) == taken(
                old(source)@,
                old(receiver)@,
                0,
                accepted_by(f),
            ),
            source@.to_multiset().add(receiver@.to_multiset()) == old(
                source)@.to_multiset().add(old(receiver)@.to_multiset()),
            source@.len() + receiver@.len() == old(source)@.len() + old(receiver)@.len(),
            old(receiver)@.is_prefix_of(receiver@),
            forall|j: int|
                0 <= j < i ==> call_ensures(f, (&#[trigger] source@[j],), false),
            forall|j: int| 0 <= j < source@.len() ==> old(source)@.contains(#[trigger] source@[j]),
            forall|j: int|
                old(receiver)@.len() <= j < receiver@.len() ==> call_ensures(
                    f,
                    (&#[trigger] receiver@[j],),
                    true,
                ) && old(source)@.contains(receiver@[j]),
        decreases source@.len() - i,
    {
        if f(&source[i]) {
            let ghost stayed = source@;
            let ghost taken_so_far = receiver@;
            let val = source.swap_remove(i);
            receiver.push(val);
            proof {
                broadcast use vstd::seq_lib::group_to_multiset_ensures;
                broadcast use vstd::multiset::group_multiset_axioms;

                lemma_swap_removed_multiset(stayed, i as int);
                assert(receiver@.to_multiset() == taken_so_far.to_multiset().insert(val));
                assert(source@.to_multiset().add(receiver@.to_multiset()) =~= stayed.to_multiset().add(
                    taken_so_far.to_multiset(),
                ));
            }
        } else {
            i += 1;
        }
    }
}

/// The identifier that a bus controller gives to an endpoint it admits.
#[derive(Debug, Copy, Clone, PartialEq, Eq)]
pub struct EndpointID {
    bytes: [u8; 16],
}

impl View for EndpointID {
    type V = Seq<u8>;

    closed spec fn view(&self) -> Seq<u8> {
        self.bytes@
    }
}

/// Whether sixteen bytes are marked as a random identifier: the high half of
/// the seventh byte says version four, the two top bits of the ninth say the
/// standard variant.
pub open spec fn is_random_id(bytes: Seq<u8>) -> bool {
    &&& bytes.len() == 16
    &&& bytes[6] & 0xf0 == 0x40
    &&& bytes[8] & 0xc0 == 0x80
}

/// `Uuid::new_v4` followed by `Uuid::into_bytes`: sixteen bytes from the
/// system's random source, of which only the version and variant bits are
/// fixed.
#[verifier::external_body]
fn random_id_bytes() -> (bytes: [u8; 16])
    ensures
        is_random_id(bytes@),
{
    uuid::Uuid::new_v4().into_bytes()
}

impl EndpointID {
    /// A new random identifier.
    pub fn new() -> (id: EndpointID)
        ensures
            is_random_id(id@),
    {
        EndpointID { bytes: random_id_bytes() }
    }

    /// The identifier with the given bytes.
    pub fn from_bytes(bytes: [u8; 16]) -> (id: EndpointID)
        ensures
            id@ == bytes@,
    {
        EndpointID { bytes }
    }

    /// The sixteen bytes of the identifier.
    pub fn into_bytes(self) -> (bytes: [u8; 16])
        ensures
            bytes@ == self@,
    {
        self.bytes
    }
}

/// Whether `c` is one of the sixty-two ASCII letters and digits.
pub open spec fn is_alphanumeric(c: char) -> bool {
    ('0' <= c && c <= '9') || ('A' <= c && c <= 'Z') || ('a' <= c && c <= 'z')
}

/// `DistString::sample_string` of the `Alphanumeric` distribution, on the
/// thread's generator: a string of `length` characters, each an ASCII letter
/// or digit drawn at random.
#[verifier::external_body]
pub fn rand_string(length: usize) -> (s: String)
    ensures
        s@.len() == length,
        forall|i: int| 0 <= i < s@.len() ==> is_alphanumeric(#[trigger] s@[i]),
{
    Alphanumeric.sample_string(&mut rand::thread_rng(), length)
}

} // verus!
