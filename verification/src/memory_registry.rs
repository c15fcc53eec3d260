//! A registry that keeps shared regions warm: a region that nobody but the
//! registry holds any more is handed out again in place of a new one.
//!
//! Creating and cloning regions and reading their counts of holders are the
//! caller's part. Which region is used again, and which is let go, is
//! decided here.

use crate::bus_controller::same_text;
use crate::time::TimeSpan;
use vstd::prelude::*;

verus! {

/// For how long a region that is not used stays in the registry: five
/// seconds.
pub const KEEP_SECS: u64 = 5;

/// A region in the registry. `Rg` is the region and `G` a guard that runs
/// the user's notice, that the region is free again, when it is dropped.
pub struct MemoryRegionEntry<Rg, G> {
    pub region: Rg,
    /// The size that was asked for when the region was made.
    pub size: usize,
    /// When the region was last handed out.
    pub last_alloc: TimeSpan,
    pub tag: Option<String>,
    pub guard: Option<G>,
}

/// Performs memory region allocation by reusing system memory.
pub struct MemoryRegistry<Rg, G> {
    inner: Vec<MemoryRegionEntry<Rg, G>>,
}

/// The text of a tag, if there is one.
pub open spec fn tag_text(tag: Option<String>) -> Option<Seq<char>> {
    match tag {
        Some(t) => Some(t@),
        None => None,
    }
}

/// The text of a tag that is asked for, if one is.
pub open spec fn asked_text(tag: Option<&str>) -> Option<Seq<char>> {
    match tag {
        Some(t) => Some(t@),
        None => None,
    }
}

/// Whether a region made for `size` bytes serves a request for `min_size`:
/// it is large enough, and less than twice as large.
pub open spec fn in_bucket(size: usize, min_size: usize) -> bool {
    min_size <= size < 2 * min_size
}

/// Whether the entry at place `i` can be handed out for a request: its size
/// fits, its tag is the one asked for, and `counts` tells that nobody but
/// the registry holds the region.
pub open spec fn reusable<Rg, G>(
    entries: Seq<MemoryRegionEntry<Rg, G>>,
    counts: Seq<u32>,
    min_size: usize,
    tag: Option<Seq<char>>,
    i: int,
) -> bool {
    &&& 0 <= i < entries.len()
    &&& i < counts.len()
    &&& in_bucket(entries[i].size, min_size)
    &&& counts[i] == 1
    &&& tag_text(entries[i].tag) == tag
}

/// Whether an entry that was last handed out at `last` is kept at `now`.
pub open spec fn is_kept(last: nat, now: nat) -> bool {
    now - last < KEEP_SECS as nat * 1_000_000_000
}

/// An entry after maintenance: where only the registry holds the region,
/// the guard is let go, which tells the user that the region is free.
pub open spec fn settled<Rg, G>(entry: MemoryRegionEntry<Rg, G>, count: Option<u32>)
    -> MemoryRegionEntry<Rg, G> {
    if count == Some(1u32) {
        MemoryRegionEntry { guard: None, ..entry }
    } else {
        entry
    }
}

/// The count for the place `i`, if `counts` has one.
pub open spec fn count_at(counts: Seq<u32>, i: int) -> Option<u32> {
    if 0 <= i < counts.len() {
        Some(counts[i])
    } else {
        None
    }
}

/// The entries after maintenance at `now`: those that were handed out
/// within the last five seconds, in their order and settled.
pub open spec fn maintained<Rg, G>(
    entries: Seq<MemoryRegionEntry<Rg, G>>,
    now: nat,
    counts: Seq<u32>,
) -> Seq<MemoryRegionEntry<Rg, G>>
    decreases entries.len(),
{
    if entries.len() == 0 {
        entries
    } else {
        let init = maintained(entries.drop_last(), now, counts);
        if is_kept(entries.last().last_alloc@, now) {
            init.push(settled(entries.last(), count_at(counts, entries.len() - 1)))
        } else {
            init
        }
    }
}

/// Whether the entries stand in the order of their sizes.
pub open spec fn sorted_by_size<Rg, G>(entries: Seq<MemoryRegionEntry<Rg, G>>) -> bool {
    forall|i: int, j: int|
        0 <= i <= j < entries.len() ==> (#[trigger] entries[i]).size <= (#[trigger] entries[j]).size
}

/// The place at which an entry of `size` bytes goes in: behind the entries
/// that are no larger.
pub open spec fn place_for<Rg, G>(entries: Seq<MemoryRegionEntry<Rg, G>>, size: usize) -> int
    decreases entries.len(),
{
    if entries.len() == 0 {
        0
    } else if entries.last().size <= size {
        entries.len() as int
    } else {
        place_for(entries.drop_last(), size)
    }
}

impl<Rg, G> MemoryRegistry<Rg, G> {
    /// The entries, smaller regions first, and among regions of one size
    /// the older first.
    pub closed spec fn entries_view(&self) -> Seq<MemoryRegionEntry<Rg, G>> {
        self.inner@
    }

    /// Whether the entries stand in the order of their sizes.
    pub open spec fn wf(&self) -> bool {
        sorted_by_size(self.entries_view())
    }

    /// An empty registry.
    pub fn new() -> (registry: Self)
        ensures
            registry.entries_view().len() == 0,
            registry.wf(),
    {
        MemoryRegistry { inner: Vec::new() }
    }

    /// The entries of the registry.
    pub fn entries(&self) -> (entries: &Vec<MemoryRegionEntry<Rg, G>>)
        ensures
            entries@ == self.entries_view(),
    {
        &self.inner
    }

    /// The place of the first entry that can be handed out for a request of
    /// `min_size` bytes with the tag `tag`, where `counts` tells the count
    /// of holders of each entry's region.
    pub fn find(&self, min_size: usize, tag: Option<&str>, counts: &Vec<u32>) -> (found: Option<
        usize,
    >)
        ensures
            match found {
                Some(at) => reusable(
                    self.entries_view(),
                    counts@,
                    min_size,
                    asked_text(tag),
                    at as int,
                ) && forall|j: int|
                    0 <= j < at ==> !reusable(
                        self.entries_view(),
                        counts@,
                        min_size,
                        asked_text(tag),
                        j,
                    ),
                None => forall|j: int|
                    !reusable(self.entries_view(), counts@, min_size, asked_text(tag), j),
            },
    {
        let mut i: usize = 0;
        while i < self.inner.len() && i < counts.len()
            invariant
                i <= self.inner@.len(),
                i <= counts@.len(),
                forall|j: int|
                    0 <= j < i ==> !reusable(self.inner@, counts@, min_size, asked_text(tag), j),
            decreases self.inner@.len() - i,
        {
            let entry = &self.inner[i];
            let fits = entry.size >= min_size && entry.size - min_size < min_size;
            if fits && counts[i] == 1 && same_tag(&entry.tag, tag) {
                return Some(i);
            }
            i += 1;
        }
        None
    }

    /// Marks the entry at `at` as handed out at `now`. Beyond the entries
    /// nothing changes.
    pub fn touch(&mut self, at: usize, now: TimeSpan)
        ensures
            at < old(self).entries_view().len() ==> final(self).entries_view() == old(
                self).entries_view().update(
                at as int,
                (MemoryRegionEntry { last_alloc: now, ..old(self).entries_view()[at as int] }),
            ),
            at >= old(self).entries_view().len() ==> final(self).entries_view() == old(
                self).entries_view(),
            old(self).wf() ==> final(self).wf(),
    {
        if at < self.inner.len() {
            let mut entry = self.inner.remove(at);
            entry.last_alloc = now;
            self.inner.insert(at, entry);
        }
    }

    /// Gives the entry at `at` the guard `guard` and lets its old guard go.
    /// Beyond the entries nothing changes, and `guard` is let go.
    pub fn attach(&mut self, at: usize, guard: Option<G>)
        ensures
            at < old(self).entries_view().len() ==> final(self).entries_view() == old(
                self).entries_view().update(
                at as int,
                (MemoryRegionEntry { guard, ..old(self).entries_view()[at as int] }),
            ),
            at >= old(self).entries_view().len() ==> final(self).entries_view() == old(
                self).entries_view(),
            old(self).wf() ==> final(self).wf(),
    {
        if at < self.inner.len() {
            let mut entry = self.inner.remove(at);
            entry.guard = guard;
            self.inner.insert(at, entry);
        }
    }

    /// Puts a region that was made for `size` bytes at `now` into the
    /// registry, behind the regions that are no larger.
    pub fn insert(&mut self, region: Rg, size: usize, now: TimeSpan, tag: Option<String>, guard:
        Option<G>)
        ensures
            final(self).entries_view() == old(self).entries_view().insert(
                place_for(old(self).entries_view(), size),
                (MemoryRegionEntry { region, size, last_alloc: now, tag, guard }),
            ),
            old(self).wf() ==> final(self).wf(),
    {
        let mut at: usize = self.inner.len();
        assert(self.inner@.take(at as int) =~= self.inner@);
        while at > 0 && self.inner[at - 1].size > size
            invariant
                at <= self.inner@.len(),
                self.inner@ == old(self).inner@,
                place_for(self.inner@, size) == place_for(self.inner@.take(at as int), size),
                forall|j: int| at <= j < self.inner@.len() ==> self.inner@[j].size > size,
            decreases at,
        {
            proof {
                assert(self.inner@.take(at as int).drop_last() =~= self.inner@.take(at - 1));
            }
            at -= 1;
        }
        self.inner.insert(at, MemoryRegionEntry { region, size, last_alloc: now, tag, guard });
    }

    /// Lets go of the regions that were not handed out within the last five
    /// seconds, and tells the users of regions that only the registry holds
    /// any more that these are free: `counts` tells the count of holders of
    /// each entry's region.
    pub fn maintain(&mut self, now: TimeSpan, counts: &Vec<u32>)
        ensures
            final(self).entries_view() == maintained(old(self).entries_view(), now@, counts@),
            old(self).wf() ==> final(self).wf(),
    {
        let ghost before = self.inner@;
        let now_nanos = now.as_nanos();
        let keep: u128 = (KEEP_SECS as u128) * 1_000_000_000;
        let mut i: usize = 0;
        let mut k: usize = 0;
        proof {
            assert(before.len() == self.inner.len());
        }
        while i < self.inner.len()
            invariant
                before.len() <= usize::MAX,
                i <= self.inner@.len(),
                k == i + (before.len() - self.inner@.len()),
                k <= before.len(),
                now_nanos == now@,
                keep == KEEP_SECS as nat * 1_000_000_000,
                self.inner@.take(i as int) == maintained(before.take(k as int), now@, counts@),
                self.inner@.skip(i as int) == before.skip(k as int),
            decreases self.inner@.len() - i,
        {
            let ghost current = self.inner@;
            proof {
                assert(current[i as int] == current.skip(i as int)[0]);
                assert(before.take(k + 1).drop_last() =~= before.take(k as int));
                assert(before.skip(k + 1) =~= before.skip(k as int).skip(1));
            }
            let last = self.inner[i].last_alloc.as_nanos();
            let mut entry = self.inner.remove(i);
            if now_nanos < last || now_nanos - last < keep {
                if k < counts.len() && counts[k] == 1 {
                    entry.guard = None;
                }
                self.inner.insert(i, entry);
                i += 1;
            }
            k += 1;
        }
        proof {
            assert(self.inner@.take(i as int) =~= self.inner@);
            assert(before.take(k as int) =~= before);
            if sorted_by_size(before) {
                lemma_maintained_sorted(before, now@, counts@);
            }
        }
    }
}

/// Whether `counts` tells for each entry a count of holders that `count_of`
/// may give for its region.
pub open spec fn counts_fit<Rg, G, C: Fn(&Rg) -> u32>(
    entries: Seq<MemoryRegionEntry<Rg, G>>,
    counts: Seq<u32>,
    count_of: C,
) -> bool {
    &&& counts.len() == entries.len()
    &&& forall|i: int|
        0 <= i < entries.len() ==> call_ensures(
            count_of,
            (&entries[i].region,),
            #[trigger] counts[i],
        )
}

/// Whether `at` is the place of the first entry that can be handed out, or
/// `None` where there is no such entry.
pub open spec fn found_at<Rg, G>(
    entries: Seq<MemoryRegionEntry<Rg, G>>,
    counts: Seq<u32>,
    min_size: usize,
    tag: Option<Seq<char>>,
    at: Option<usize>,
) -> bool {
    match at {
        Some(at) => reusable(entries, counts, min_size, tag, at as int) && forall|j: int|
            0 <= j < at ==> !reusable(entries, counts, min_size, tag, j),
        None => forall|j: int| !reusable(entries, counts, min_size, tag, j),
    }
}

/// The entry at `at` handed out at `now`.
pub open spec fn touched<Rg, G>(entries: Seq<MemoryRegionEntry<Rg, G>>, at: int, now: TimeSpan)
    -> Seq<MemoryRegionEntry<Rg, G>> {
    entries.update(at, MemoryRegionEntry { last_alloc: now, ..entries[at] })
}

/// The entry at `at` with the guard `guard`.
pub open spec fn guarded<Rg, G>(entries: Seq<MemoryRegionEntry<Rg, G>>, at: int, guard: Option<G>)
    -> Seq<MemoryRegionEntry<Rg, G>> {
    entries.update(at, MemoryRegionEntry { guard, ..entries[at] })
}

/// The entries with one more, behind those that are no larger.
pub open spec fn inserted<Rg, G>(
    entries: Seq<MemoryRegionEntry<Rg, G>>,
    entry: MemoryRegionEntry<Rg, G>,
) -> Seq<MemoryRegionEntry<Rg, G>> {
    entries.insert(place_for(entries, entry.size), entry)
}

/// What an allocation may do to the entries `before`, where the first entry
/// that can be handed out, by the counts `counts`, stands at `at`.
///
/// Where there is such an entry, it is marked as handed out now, its region
/// is duplicated for the caller, it gets the caller's guard, and the
/// registry is maintained, by the counts `later`. Where the region cannot be
/// duplicated, the caller gets nothing and the guard is let go. Where there
/// is no such entry, the registry is maintained first; then a region of
/// `min_size` bytes is created and handed out, and a duplicate of it goes
/// into the registry with the caller's tag and guard. Where the region
/// cannot be created or duplicated, the caller gets nothing.
pub open spec fn is_alloc<
    Rg,
    G,
    C: Fn(&Rg) -> u32,
    New: Fn(usize) -> Option<Rg>,
    Dup: Fn(&Rg) -> Option<Rg>,
>(
    before: Seq<MemoryRegionEntry<Rg, G>>,
    min_size: usize,
    tag: Option<Seq<char>>,
    guard: Option<G>,
    now: TimeSpan,
    count_of: C,
    create: New,
    duplicate: Dup,
    counts: Seq<u32>,
    later: Seq<u32>,
    at: Option<usize>,
    after: Seq<MemoryRegionEntry<Rg, G>>,
    region: Option<Rg>,
) -> bool {
    &&& counts_fit(before, counts, count_of)
    &&& found_at(before, counts, min_size, tag, at)
    &&& match at {
        Some(at) => {
            let marked = touched(before, at as int, now);
            match region {
                Some(r) => {
                    &&& call_ensures(duplicate, (&before[at as int].region,), Some(r))
                    &&& counts_fit(guarded(marked, at as int, guard), later, count_of)
                    &&& after == maintained(guarded(marked, at as int, guard), now@, later)
                },
                None => {
                    &&& call_ensures(duplicate, (&before[at as int].region,), None::<Rg>)
                    &&& after == marked
                },
            }
        },
        None => {
            let kept = maintained(before, now@, counts);
            match region {
                Some(r) => {
                    &&& call_ensures(create, (min_size,), Some(r))
                    &&& exists|copy: Rg, owned: Option<String>|
                        {
                            &&& call_ensures(duplicate, (&r,), Some(copy))
                            &&& tag_text(owned) == tag
                            &&& after == #[trigger] inserted(
                                kept,
                                MemoryRegionEntry {
                                    region: copy,
                                    size: min_size,
                                    last_alloc: now,
                                    tag: owned,
                                    guard,
                                },
                            )
                        }
                },
                None => {
                    &&& after == kept
                    &&& call_ensures(create, (min_size,), None::<Rg>) || exists|r: Rg|
                        call_ensures(create, (min_size,), Some(r)) && #[trigger] call_ensures(
                            duplicate,
                            (&r,),
                            None::<Rg>,
                        )
                },
            }
        },
    }
}

impl<Rg, G> MemoryRegistry<Rg, G> {
    /// The count of holders of each entry's region, as `count_of` tells it.
    pub fn counts<C: Fn(&Rg) -> u32>(&self, count_of: &C) -> (counts: Vec<u32>)
        requires
            forall|r: &Rg| call_requires(*count_of, (r,)),
        ensures
            counts_fit(self.entries_view(), counts@, *count_of),
    {
        let mut counts: Vec<u32> = Vec::new();
        let mut i: usize = 0;
        while i < self.inner.len()
            invariant
                forall|r: &Rg| call_requires(*count_of, (r,)),
                i <= self.inner@.len(),
                counts@.len() == i,
                forall|j: int|
                    0 <= j < i ==> call_ensures(
                        *count_of,
                        (&self.inner@[j].region,),
                        #[trigger] counts@[j],
                    ),
            decreases self.inner@.len() - i,
        {
            let count = count_of(&self.inner[i].region);
            counts.push(count);
            i += 1;
        }
        counts
    }

    /// Maintains the registry at `now`: lets go of the regions that were
    /// not handed out within the last five seconds, and of the guards of
    /// the regions that, as `count_of` tells, only the registry holds.
    pub fn maintain_inner<C: Fn(&Rg) -> u32>(&mut self, now: TimeSpan, count_of: C)
        requires
            forall|r: &Rg| call_requires(count_of, (r,)),
        ensures
            exists|counts: Seq<u32>| #[trigger]
                counts_fit(old(self).entries_view(), counts, count_of) && final(
                    self).entries_view() == maintained(old(self).entries_view(), now@, counts),
            old(self).wf() ==> final(self).wf(),
    {
        let counts = self.counts(&count_of);
        self.maintain(now, &counts);
    }

    /// Allocates a region of at least `min_size` bytes with the tag `tag`,
    /// at the time `now`: a region of the registry that nobody else holds
    /// any more where there is one of a fitting size, else a new one. The
    /// region handed out may be larger than asked for. `guard` is kept with
    /// the region and let go when the region is free again.
    ///
    /// `count_of` tells the count of holders of a region, `create` makes a
    /// region of a size and `duplicate` another holder of a region.
    pub fn alloc_inner<C: Fn(&Rg) -> u32, New: Fn(usize) -> Option<Rg>, Dup: Fn(&Rg) -> Option<Rg>>(
        &mut self,
        min_size: usize,
        tag: Option<&str>,
        guard: Option<G>,
        now: TimeSpan,
        count_of: C,
        create: New,
        duplicate: Dup,
    ) -> (region: Option<Rg>)
        requires
            forall|r: &Rg| call_requires(count_of, (r,)),
            forall|size: usize| call_requires(create, (size,)),
            forall|r: &Rg| call_requires(duplicate, (r,)),
        ensures
            exists|counts: Seq<u32>, later: Seq<u32>, at: Option<usize>| #[trigger]
                is_alloc(
                    old(self).entries_view(),
                    min_size,
                    asked_text(tag),
                    guard,
                    now,
                    count_of,
                    create,
                    duplicate,
                    counts,
                    later,
                    at,
                    final(self).entries_view(),
                    region,
                ),
            old(self).wf() ==> final(self).wf(),
    {
        let ghost before = self.inner@;
        let counts = self.counts(&count_of);
        let found = self.find(min_size, tag, &counts);
        match found {
            Some(at) => {
                self.touch(at, now);
                let region = match duplicate(&self.inner[at].region) {
                    Some(region) => region,
                    None => {
                        proof {
                            assert(is_alloc(
                                before,
                                min_size,
                                asked_text(tag),
                                guard,
                                now,
                                count_of,
                                create,
                                duplicate,
                                counts@,
                                counts@,
                                found,
                                self.inner@,
                                None,
                            ));
                        }
                        return None;
                    },
                };
                self.attach(at, guard);
                let later = self.counts(&count_of);
                self.maintain(now, &later);
                proof {
                    assert(is_alloc(
                        before,
                        min_size,
                        asked_text(tag),
                        guard,
                        now,
                        count_of,
                        create,
                        duplicate,
                        counts@,
                        later@,
                        found,
                        self.inner@,
                        Some(region),
                    ));
                }
                Some(region)
            },
            None => {
                self.maintain(now, &counts);
                let ghost kept = self.inner@;
                let region = match create(min_size) {
                    Some(region) => region,
                    None => {
                        proof {
                            assert(is_alloc(
                                before,
                                min_size,
                                asked_text(tag),
                                guard,
                                now,
                                count_of,
                                create,
                                duplicate,
                                counts@,
                                counts@,
                                found,
                                self.inner@,
                                None,
                            ));
                        }
                        return None;
                    },
                };
                let copy = match duplicate(&region) {
                    Some(copy) => copy,
                    None => {
                        proof {
                            assert(is_alloc(
                                before,
                                min_size,
                                asked_text(tag),
                                guard,
                                now,
                                count_of,
                                create,
                                duplicate,
                                counts@,
                                counts@,
                                found,
                                self.inner@,
                                None,
                            ));
                        }
                        return None;
                    },
                };
                let owned = match tag {
                    Some(t) => Some(t.to_owned()),
                    None => None,
                };
                self.insert(copy, min_size, now, owned, guard);
                proof {
                    assert(self.inner@ == inserted(
                        kept,
                        MemoryRegionEntry {
                            region: copy,
                            size: min_size,
                            last_alloc: now,
                            tag: owned,
                            guard,
                        },
                    ));
                    assert(is_alloc(
                        before,
                        min_size,
                        asked_text(tag),
                        guard,
                        now,
                        count_of,
                        create,
                        duplicate,
                        counts@,
                        counts@,
                        found,
                        self.inner@,
                        Some(region),
                    ));
                }
                Some(region)
            },
        }
    }
}

/// Whether the tag of an entry is the tag that is asked for.
fn same_tag(have: &Option<String>, asked: Option<&str>) -> (same: bool)
    ensures
        same == (tag_text(*have) == asked_text(asked)),
{
    match (have, asked) {
        (Some(a), Some(b)) => same_text(a.as_str(), b),
        (None, None) => true,
        _ => false,
    }
}

/// Every entry that maintenance leaves was there before, and entries that
/// are left keep their order and their sizes.
proof fn lemma_maintained_places<Rg, G>(
    entries: Seq<MemoryRegionEntry<Rg, G>>,
    now: nat,
    counts: Seq<u32>,
) -> (places: Seq<int>)
    ensures
        places.len() == maintained(entries, now, counts).len(),
        forall|k: int|
            0 <= k < places.len() ==> 0 <= #[trigger] places[k] < entries.len() && maintained(
                entries,
                now,
                counts,
            )[k].size == entries[places[k]].size,
        forall|k: int, l: int| 0 <= k < l < places.len() ==> places[k] < places[l],
    decreases entries.len(),
{
    if entries.len() == 0 {
        Seq::empty()
    } else {
        let init = lemma_maintained_places(entries.drop_last(), now, counts);
        if is_kept(entries.last().last_alloc@, now) {
            init.push(entries.len() - 1)
        } else {
            init
        }
    }
}

/// Maintenance keeps the entries in the order of their sizes.
pub proof fn lemma_maintained_sorted<Rg, G>(
    entries: Seq<MemoryRegionEntry<Rg, G>>,
    now: nat,
    counts: Seq<u32>,
)
    requires
        sorted_by_size(entries),
    ensures
        sorted_by_size(maintained(entries, now, counts)),
{
    let places = lemma_maintained_places(entries, now, counts);
    let left = maintained(entries, now, counts);
    assert forall|i: int, j: int| 0 <= i <= j < left.len() implies (#[trigger] left[i]).size <= (
    #[trigger] left[j]).size by {
        if i < j {
            assert(places[i] < places[j]);
        }
    }
}

} // verus!
