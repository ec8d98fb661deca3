//! A small-integer id allocator with a monotonic counter and a LIFO recycle
//! list, together with an owning handle type. Ids are handed out as `0, 1,
//! 2, ...` while no id has been released; a released id is reused before the
//! counter is extended, most recently released first.

use vstd::prelude::*;
use vstd::assert_seqs_equal;

verus! {

/// The two fatal usage errors a release can report. Both signal a corrupted
/// ownership invariant elsewhere in the system, not a recoverable failure:
/// the caller must treat them as unrecoverable.
#[derive(Clone, Copy, Debug, PartialEq, Eq)]
pub enum PidError {
    /// The id was never issued: it is at or above the allocator's counter.
    NeverIssued,
    /// The id is already on the recycle list: it was released twice.
    DoubleFree,
}

/// The view of a list of ids as a sequence of mathematical integers.
pub open spec fn ids_view(ids: Seq<usize>) -> Seq<int> {
    ids.map_values(|p: usize| p as int)
}

/// The id a single allocation returns in the state `(current, recycled)`:
/// the most recently released id if any release is pending, and the counter
/// itself otherwise.
pub open spec fn alloc_id(current: int, recycled: Seq<int>) -> int {
    if recycled.len() > 0 {
        recycled.last()
    } else {
        current
    }
}

/// The counter after a single allocation in the state `(current, recycled)`.
pub open spec fn alloc_next_current(current: int, recycled: Seq<int>) -> int {
    if recycled.len() > 0 {
        current
    } else {
        current + 1
    }
}

/// The recycle list after a single allocation in the state
/// `(current, recycled)`.
pub open spec fn alloc_next_recycled(current: int, recycled: Seq<int>) -> Seq<int> {
    if recycled.len() > 0 {
        recycled.drop_last()
    } else {
        recycled
    }
}

/// The recycle list after `id` is released into the state whose recycle list
/// is `recycled`.
pub open spec fn release_next_recycled(recycled: Seq<int>, id: int) -> Seq<int> {
    recycled.push(id)
}

/// The allocator invariant: the counter is non-negative, every recycled id
/// was issued (it lies strictly below the counter), and no id is recycled
/// twice. Together these make the three states of an id — unissued, free,
/// active — a partition.
pub open spec fn valid_state(current: int, recycled: Seq<int>) -> bool {
    &&& 0 <= current
    &&& forall|i: int| 0 <= i < recycled.len() ==> 0 <= #[trigger] recycled[i] < current
    &&& forall|i: int, j: int|
        0 <= i < j < recycled.len() ==> recycled[i] != recycled[j]
}

/// An allocator of process/task ids: a monotonic counter `current` for ids
/// never issued yet, and a stack `recycled` of released ids awaiting reuse.
pub struct PidAllocator {
    current: usize,
    recycled: Vec<usize>,
}

/// An owning handle for one allocated id. It is created only by a successful
/// allocation, is never cloned or copied (so at most one handle owns a given
/// id), and is surrendered to the allocator exactly once, by
/// [`PidAllocator::release`].
pub struct PidHandle(pub usize);

impl PidHandle {
    /// Read the numeric id without giving up ownership.
    pub fn id(&self) -> (id: usize)
        ensures
            id == self.0,
    {
        self.0
    }
}

impl PidAllocator {
    /// The counter: every id at or above it has never been issued.
    pub closed spec fn next_unused(self) -> int {
        self.current as int
    }

    /// The recycle list, oldest release first.
    pub closed spec fn recycled_ids(self) -> Seq<int> {
        ids_view(self.recycled@)
    }

    /// The allocator's invariant; see [`valid_state`].
    pub open spec fn wf(self) -> bool {
        valid_state(self.next_unused(), self.recycled_ids())
    }

    /// `id` has never been issued.
    pub open spec fn is_unissued(self, id: int) -> bool {
        id >= self.next_unused()
    }

    /// `id` has been issued and released, and awaits reuse.
    pub open spec fn is_free(self, id: int) -> bool {
        self.recycled_ids().contains(id)
    }

    /// `id` has been issued and not released: some handle owns it.
    pub open spec fn is_active(self, id: int) -> bool {
        0 <= id < self.next_unused() && !self.is_free(id)
    }

    /// A fresh allocator: nothing issued, nothing recycled.
    pub fn new() -> (allocator: Self)
        ensures
            allocator.wf(),
            allocator.next_unused() == 0,
            allocator.recycled_ids() == Seq::<int>::empty(),
    {
        let allocator = PidAllocator { current: 0, recycled: Vec::new() };
        proof {
            assert(allocator.recycled_ids() =~= Seq::<int>::empty());
        }
        allocator
    }

    /// Read the counter: the smallest id never issued so far. Unverified
    /// callers use it to rule out counter exhaustion before allocating.
    pub fn next_unused_id(&self) -> (id: usize)
        ensures
            id as int == self.next_unused(),
    {
        self.current
    }

    /// Read how many released ids await reuse.
    pub fn recycled_count(&self) -> (count: usize)
        ensures
            count == self.recycled_ids().len(),
    {
        self.recycled.len()
    }

    /// Allocate one id: pop the most recently released id if any release is
    /// pending, and extend the counter otherwise. The id returned was not
    /// active before the call and is active after it, so no two live handles
    /// ever own the same id. The counter never decreases.
    ///
    /// Counter exhaustion is ruled out by precondition rather than handled:
    /// a caller that may have issued `usize::MAX` ids must check before
    /// calling.
    pub fn allocate(&mut self) -> (handle: PidHandle)
        requires
            old(self).wf(),
            old(self).recycled_ids().len() > 0 || old(self).next_unused() < usize::MAX as int,
        ensures
            final(self).wf(),
            handle.0 as int == alloc_id(old(self).next_unused(), old(self).recycled_ids()),
            final(self).next_unused() == alloc_next_current(
                old(self).next_unused(),
                old(self).recycled_ids(),
            ),
            final(self).recycled_ids() == alloc_next_recycled(
                old(self).next_unused(),
                old(self).recycled_ids(),
            ),
            old(self).next_unused() <= final(self).next_unused(),
            !old(self).is_active(handle.0 as int),
            final(self).is_active(handle.0 as int),
    {
        match self.recycled.pop() {
            Some(pid) => {
                proof {
                    let prev = old(self).recycled_ids();
                    assert_seqs_equal!(self.recycled_ids() == prev.drop_last());
                    assert(prev[prev.len() - 1] == pid as int);
                    assert(old(self).is_free(pid as int));
                    assert(!self.recycled_ids().contains(pid as int)) by {
                        if self.recycled_ids().contains(pid as int) {
                            let i = choose|i: int|
                                0 <= i < self.recycled_ids().len()
                                    && self.recycled_ids()[i] == pid as int;
                            assert(prev[i] == prev[prev.len() - 1]);
                        }
                    }
                }
                PidHandle(pid)
            },
            None => {
                let pid = self.current;
                self.current = pid + 1;
                PidHandle(pid)
            },
        }
    }

    /// Return `pid` to the recycle list. Releasing an id that was never
    /// issued, or one that is already free, is a fatal usage error: the
    /// matching [`PidError`] is reported and the allocator is left unchanged,
    /// and the caller must not continue normally. A release succeeds exactly
    /// when `pid` is active, and never moves the counter.
    pub fn dealloc(&mut self, pid: usize) -> (result: Result<(), PidError>)
        requires
            old(self).wf(),
        ensures
            final(self).wf(),
            final(self).next_unused() == old(self).next_unused(),
            result is Ok <==> old(self).is_active(pid as int),
            result is Ok ==> final(self).recycled_ids() == release_next_recycled(
                old(self).recycled_ids(),
                pid as int,
            ),
            result is Err ==> final(self).recycled_ids() == old(self).recycled_ids(),
            result == Err::<(), PidError>(PidError::NeverIssued) <==> old(self).is_unissued(
                pid as int,
            ),
            result == Err::<(), PidError>(PidError::DoubleFree) <==> (!old(self).is_unissued(
                pid as int,
            ) && old(self).is_free(pid as int)),
    {
        if pid >= self.current {
            return Err(PidError::NeverIssued);
        }
        let already_free = contains_id(&self.recycled, pid);
        proof {
            lemma_ids_view_contains(self.recycled@, pid);
        }
        if already_free {
            return Err(PidError::DoubleFree);
        }
        self.recycled.push(pid);
        proof {
            let prev = old(self).recycled_ids();
            assert_seqs_equal!(self.recycled_ids() == prev.push(pid as int));
            assert(valid_state(self.next_unused(), self.recycled_ids())) by {
                assert forall|i: int, j: int|
                    0 <= i < j < self.recycled_ids().len() implies self.recycled_ids()[i]
                    != self.recycled_ids()[j] by {
                    if j == self.recycled_ids().len() - 1 {
                        assert(prev[i] != pid as int);
                    }
                }
            }
        }
        Ok(())
    }

    /// Surrender `handle`, returning its id to the recycle list. This is the
    /// sole way a handle ends: it is consumed here, so each handle is
    /// released at most once. The outcome is that of [`Self::dealloc`] on the
    /// handle's id.
    pub fn release(&mut self, handle: PidHandle) -> (result: Result<(), PidError>)
        requires
            old(self).wf(),
        ensures
            final(self).wf(),
            final(self).next_unused() == old(self).next_unused(),
            result is Ok <==> old(self).is_active(handle.0 as int),
            result is Ok ==> final(self).recycled_ids() == release_next_recycled(
                old(self).recycled_ids(),
                handle.0 as int,
            ),
            result is Err ==> final(self).recycled_ids() == old(self).recycled_ids(),
            result == Err::<(), PidError>(PidError::NeverIssued) <==> old(self).is_unissued(
                handle.0 as int,
            ),
            result == Err::<(), PidError>(PidError::DoubleFree) <==> (!old(self).is_unissued(
                handle.0 as int,
            ) && old(self).is_free(handle.0 as int)),
    {
        self.dealloc(handle.0)
    }
}

/// Whether `pid` occurs in `ids`.
fn contains_id(ids: &Vec<usize>, pid: usize) -> (found: bool)
    ensures
        found <==> ids@.contains(pid),
{
    let mut i: usize = 0;
    while i < ids.len()
        invariant
            i <= ids@.len(),
            forall|j: int| 0 <= j < i ==> ids@[j] != pid,
        decreases ids@.len() - i,
    {
        if ids[i] == pid {
            assert(ids@[i as int] == pid);
            return true;
        }
        i = i + 1;
    }
    false
}

/// An id occurs in a list of `usize` ids exactly when its integer image
/// occurs in the list's integer view.
proof fn lemma_ids_view_contains(ids: Seq<usize>, pid: usize)
    ensures
        ids.contains(pid) <==> ids_view(ids).contains(pid as int),
{
    if ids.contains(pid) {
        let i = choose|i: int| 0 <= i < ids.len() && ids[i] == pid;
        assert(ids_view(ids)[i] == pid as int);
    }
    if ids_view(ids).contains(pid as int) {
        let i = choose|i: int| 0 <= i < ids_view(ids).len() && ids_view(ids)[i] == pid as int;
        assert(ids[i] == pid);
    }
}

/// The ids that `n` successive allocations return, in order, starting from
/// the state `(current, recycled)`, with no release in between. Each step is
/// the single-allocation transition that [`PidAllocator::allocate`]'s
/// contract states.
pub open spec fn alloc_run_ids(current: int, recycled: Seq<int>, n: nat) -> Seq<int>
    decreases n,
{
    if n == 0 {
        Seq::empty()
    } else {
        seq![alloc_id(current, recycled)] + alloc_run_ids(
            alloc_next_current(current, recycled),
            alloc_next_recycled(current, recycled),
            (n - 1) as nat,
        )
    }
}

/// Law: while the recycle list is empty and stays empty (no release is ever
/// pending), allocations return consecutive ids `current, current + 1, ...`.
pub proof fn lemma_alloc_run_is_consecutive(current: int, n: nat)
    ensures
        alloc_run_ids(current, Seq::empty(), n) == Seq::new(n, |i: int| current + i),
    decreases n,
{
    let ids = alloc_run_ids(current, Seq::empty(), n);
    let expected = Seq::new(n, |i: int| current + i);
    if n == 0 {
        assert(ids =~= expected);
    } else {
        lemma_alloc_run_is_consecutive(current + 1, (n - 1) as nat);
        let rest = Seq::new((n - 1) as nat, |i: int| current + 1 + i);
        assert forall|i: int| 0 <= i < n implies ids[i] == expected[i] by {
            if i > 0 {
                assert(ids[i] == rest[i - 1]);
            }
        }
        assert(ids =~= expected);
    }
}

/// Law: starting from a fresh allocator, a run of allocations with no
/// release returns exactly the ids `0, 1, 2, ...` in order.
pub proof fn lemma_fresh_run_ids_are_zero_upward(n: nat)
    ensures
        alloc_run_ids(0, Seq::empty(), n) == Seq::new(n, |i: int| i),
{
    lemma_alloc_run_is_consecutive(0, n);
    assert(Seq::new(n, |i: int| 0 + i) =~= Seq::new(n, |i: int| i));
}

/// Law: under the allocator invariant, every id is in exactly one of the
/// three states — never issued, free (released and awaiting reuse), or
/// active (owned by a handle).
pub proof fn lemma_id_states_partition(allocator: PidAllocator, id: int)
    requires
        allocator.wf(),
        0 <= id,
    ensures
        allocator.is_unissued(id) || allocator.is_free(id) || allocator.is_active(id),
        !(allocator.is_unissued(id) && allocator.is_free(id)),
        !(allocator.is_unissued(id) && allocator.is_active(id)),
        !(allocator.is_free(id) && allocator.is_active(id)),
{
    if allocator.is_free(id) {
        let i = choose|i: int|
            0 <= i < allocator.recycled_ids().len() && allocator.recycled_ids()[i] == id;
        assert(allocator.recycled_ids()[i] < allocator.next_unused());
    }
}

/// Law: releasing `id` and then allocating, with no release in between,
/// returns `id` itself (LIFO reuse) and restores both the counter and the
/// recycle list to what they were before the release.
pub proof fn lemma_release_then_alloc_round_trip(current: int, recycled: Seq<int>, id: int)
    ensures
        alloc_id(current, release_next_recycled(recycled, id)) == id,
        alloc_next_current(current, release_next_recycled(recycled, id)) == current,
        alloc_next_recycled(current, release_next_recycled(recycled, id)) == recycled,
{
    assert(recycled.push(id).drop_last() =~= recycled);
}

} // verus!
