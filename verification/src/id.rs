//! Request ids: the numbers that tell the requests of one connection
//! apart.

use crate::error::{ClientError, ClientResult};
use std::collections::VecDeque;
use vstd::prelude::*;

verus! {

/// The request id of a connection that carries one request at a time.
pub const REQUEST_ID: u16 = 1;

/// The number of request ids that a connection has: every 16-bit number
/// but zero, which the protocol keeps for records that belong to no
/// request.
pub const ID_COUNT: usize = 0xffff;

/// A policy that hands out request ids and takes them back.
pub trait AllocRequestId {
    /// The allocator is in a consistent state.
    spec fn wf(&self) -> bool;

    /// Whether `id` is kept from being handed out, because a request has
    /// it.
    spec fn in_use(&self, id: u16) -> bool;

    /// Hands out an id for a new request.
    fn allocate(&mut self) -> (res: ClientResult<u16>)
        requires
            old(self).wf(),
        ensures
            final(self).wf(),
    ;

    /// Takes back the id of a request that has ended.
    fn release(&mut self, id: u16)
        requires
            old(self).wf(),
        ensures
            final(self).wf(),
    ;
}

/// The allocator of a connection that carries one request at a time: it
/// hands out the same id every time.
#[derive(Debug, Clone, Copy, PartialEq, Eq, Structural)]
pub struct FixRequestIdAllocator;

impl AllocRequestId for FixRequestIdAllocator {
    open spec fn wf(&self) -> bool {
        true
    }

    /// The one id is never kept back.
    open spec fn in_use(&self, id: u16) -> bool {
        false
    }

    /// Always succeeds, with `REQUEST_ID`.
    fn allocate(&mut self) -> (res: ClientResult<u16>)
        ensures
            res == Ok::<u16, ClientError>(REQUEST_ID),
    {
        Ok(REQUEST_ID)
    }

    /// Does nothing.
    fn release(&mut self, id: u16)
        ensures
            *final(self) == *old(self),
    {
    }
}

/// The free ids after the first of them is handed out.
pub open spec fn after_alloc(free: Seq<u16>) -> Seq<u16> {
    free.drop_first()
}

/// The free ids after `id` is given back: it queues up behind the others,
/// unless it is zero or free already.
pub open spec fn after_release(free: Seq<u16>, id: u16) -> Seq<u16> {
    if id != 0 && !free.contains(id) {
        free.push(id)
    } else {
        free
    }
}

/// The queue of free ids and the table of ids in use agree: the table
/// marks exactly the ids other than zero that are not in the queue, and the
/// queue holds no id twice.
spec fn pool_wf(queue: Seq<u16>, used: Seq<bool>) -> bool {
    &&& used.len() == 0x1_0000
    &&& !used[0]
    &&& queue.no_duplicates()
    &&& forall|i: int| 0 <= i < queue.len() ==> queue[i] != 0 && !used[#[trigger] queue[i] as int]
    &&& forall|id: u16| id != 0 && !#[trigger] used[id as int] ==> queue.contains(id)
}

/// Handing out the id at the front keeps the queue and the table in
/// agreement.
proof fn lemma_pool_alloc(queue: Seq<u16>, used: Seq<bool>)
    requires
        pool_wf(queue, used),
        queue.len() > 0,
    ensures
        pool_wf(queue.drop_first(), used.update(queue[0] as int, true)),
        !queue.drop_first().contains(queue[0]),
{
    let id = queue[0];
    let rest = queue.drop_first();
    let marked = used.update(id as int, true);
    assert forall|i: int| 0 <= i < rest.len() implies rest[i] != 0 && !marked[
    #[trigger] rest[i] as int] by {
        assert(rest[i] == queue[i + 1]);
        assert(queue[i + 1] != queue[0]);
    }
    assert forall|other: u16| other != 0 && !#[trigger] marked[other as int] implies rest.contains(
        other,
    ) by {
        assert(other != id);
        assert(!used[other as int]);
        assert(queue.contains(other));
        let i = choose|i: int| 0 <= i < queue.len() && queue[i] == other;
        assert(rest[i - 1] == other);
    }
    if rest.contains(id) {
        let i = choose|i: int| 0 <= i < rest.len() && rest[i] == id;
        assert(queue[i + 1] == id);
    }
}

/// Giving back an id that is in use keeps the queue and the table in
/// agreement.
proof fn lemma_pool_release(queue: Seq<u16>, used: Seq<bool>, id: u16)
    requires
        pool_wf(queue, used),
        used[id as int],
    ensures
        pool_wf(queue.push(id), used.update(id as int, false)),
        id != 0,
        !queue.contains(id),
{
    let more = queue.push(id);
    let cleared = used.update(id as int, false);
    if queue.contains(id) {
        let i = choose|i: int| 0 <= i < queue.len() && queue[i] == id;
        assert(!used[queue[i] as int]);
    }
    assert forall|i: int| 0 <= i < more.len() implies more[i] != 0 && !cleared[
    #[trigger] more[i] as int] by {
        if i < queue.len() {
            assert(more[i] == queue[i]);
            assert(!used[queue[i] as int]);
        }
    }
    assert forall|other: u16| other != 0 && !#[trigger] cleared[other as int] implies more.contains(
        other,
    ) by {
        if other == id {
            assert(more[queue.len() as int] == id);
        } else {
            assert(!used[other as int]);
            let i = choose|i: int| 0 <= i < queue.len() && queue[i] == other;
            assert(more[i] == other);
        }
    }
}

/// An id is in a queue without its first id exactly if it is in the queue
/// and is not the first, where the queue holds no id twice.
proof fn lemma_contains_after_alloc(queue: Seq<u16>, id: u16)
    requires
        queue.len() > 0,
        queue.no_duplicates(),
    ensures
        queue.drop_first().contains(id) <==> queue.contains(id) && id != queue[0],
{
    let rest = queue.drop_first();
    if rest.contains(id) {
        let i = choose|i: int| 0 <= i < rest.len() && rest[i] == id;
        assert(queue[i + 1] == id);
    }
    if queue.contains(id) && id != queue[0] {
        let i = choose|i: int| 0 <= i < queue.len() && queue[i] == id;
        assert(rest[i - 1] == id);
    }
}

/// An id is in a queue with one more id exactly if it is in the queue or
/// is the one more.
proof fn lemma_contains_after_push(queue: Seq<u16>, last: u16, id: u16)
    ensures
        queue.push(last).contains(id) <==> queue.contains(id) || id == last,
{
    let more = queue.push(last);
    if more.contains(id) {
        let i = choose|i: int| 0 <= i < more.len() && more[i] == id;
        if i < queue.len() {
            assert(queue[i] == id);
        }
    }
    if queue.contains(id) {
        let i = choose|i: int| 0 <= i < queue.len() && queue[i] == id;
        assert(more[i] == id);
    }
    if id == last {
        assert(more[queue.len() as int] == id);
    }
}

/// The allocator of a connection that carries several requests at once. It
/// keeps the ids that are free in a queue: an id is handed out from the
/// front and given back to the end, so that it is reused as late as
/// possible.
pub struct PooledRequestIdAllocator {
    queue: VecDeque<u16>,
    used: Vec<bool>,
}

impl PooledRequestIdAllocator {
    /// The ids that are free, in the order in which they will be handed
    /// out.
    pub closed spec fn free(&self) -> Seq<u16> {
        self.queue@
    }

    /// The free ids of a new allocator: the ids from 1 to 65535, in rising
    /// order.
    pub open spec fn all_ids() -> Seq<u16> {
        Seq::new(ID_COUNT as nat, |i: int| (i + 1) as u16)
    }

    /// Facts that hold of every allocator: no id is free twice, and zero is
    /// never free.
    pub proof fn lemma_free_ids(&self)
        requires
            self.wf(),
        ensures
            self.free().no_duplicates(),
            !self.free().contains(0),
    {
        if self.queue@.contains(0) {
            let i = choose|i: int| 0 <= i < self.queue@.len() && self.queue@[i] == 0;
            assert(self.queue@[i] != 0);
        }
    }

    /// With every id free: the ids from 1 to 65535, in rising order.
    pub fn new() -> (ids: Self)
        ensures
            ids.wf(),
            ids.free() == Self::all_ids(),
    {
        let mut queue: VecDeque<u16> = VecDeque::new();
        let mut used: Vec<bool> = Vec::new();
        used.push(false);
        let mut id: u16 = 0;
        while id < 0xffff
            invariant
                queue@ == Seq::new(id as nat, |i: int| (i + 1) as u16),
                used@ == Seq::new((id + 1) as nat, |i: int| false),
            decreases 0xffff - id,
        {
            id = id + 1;
            queue.push_back(id);
            used.push(false);
            assert(queue@ =~= Seq::new(id as nat, |i: int| (i + 1) as u16));
            assert(used@ =~= Seq::new((id + 1) as nat, |i: int| false));
        }
        proof {
            assert forall|other: u16|
                other != 0 && !#[trigger] used@[other as int] implies queue@.contains(other) by {
                assert(queue@[other - 1] == other);
            }
        }
        PooledRequestIdAllocator { queue, used }
    }
}

impl AllocRequestId for PooledRequestIdAllocator {
    closed spec fn wf(&self) -> bool {
        pool_wf(self.queue@, self.used@)
    }

    /// Whether `id` has been handed out and not been given back.
    open spec fn in_use(&self, id: u16) -> bool {
        id != 0 && !self.free().contains(id)
    }

    /// Hands out the id at the front of the queue. Fails with
    /// `RequestIdExhausted` exactly where no id is free, and then changes
    /// nothing. An id that is in use is never handed out.
    fn allocate(&mut self) -> (res: ClientResult<u16>)
        ensures
            match res {
                Ok(id) => {
                    &&& old(self).free().len() > 0
                    &&& id == old(self).free()[0]
                    &&& final(self).free() == after_alloc(old(self).free())
                    &&& id != 0
                    &&& !old(self).in_use(id)
                    &&& forall|other: u16|
                        #[trigger] final(self).in_use(other) == (old(self).in_use(other) || other
                            == id)
                },
                Err(e) => {
                    &&& old(self).free().len() == 0
                    &&& e == ClientError::RequestIdExhausted
                    &&& final(self).free() == old(self).free()
                },
            },
    {
        proof {
            if self.queue@.len() > 0 {
                lemma_pool_alloc(self.queue@, self.used@);
            }
        }
        match self.queue.pop_front() {
            Some(id) => {
                assert(old(self).queue@[0] != 0);
                self.used[id as usize] = true;
                assert(self.queue@ =~= old(self).queue@.drop_first());
                assert forall|other: u16| #[trigger]
                    self.in_use(other) == (old(self).in_use(other) || other == id) by {
                    lemma_contains_after_alloc(old(self).queue@, other);
                }
                Ok(id)
            },
            None => Err(ClientError::RequestIdExhausted),
        }
    }

    /// Gives `id` back: it becomes free again, last in the queue. An id
    /// that is not in use, and zero, are ignored.
    fn release(&mut self, id: u16)
        ensures
            final(self).free() == after_release(old(self).free(), id),
            forall|other: u16|
                #[trigger] final(self).in_use(other) == (old(self).in_use(other) && other != id),
    {
        if self.used[id as usize] {
            proof {
                lemma_pool_release(self.queue@, self.used@, id);
            }
            self.used[id as usize] = false;
            self.queue.push_back(id);
            assert(self.queue@[self.queue@.len() - 1] == id);
            assert forall|other: u16| #[trigger]
                self.in_use(other) == (old(self).in_use(other) && other != id) by {
                lemma_contains_after_push(old(self).queue@, id, other);
            }
        } else {
            assert(id == 0 || self.queue@.contains(id));
        }
    }
}

impl Default for PooledRequestIdAllocator {
    /// With every id free, as `new` gives it.
    fn default() -> (ids: Self)
        ensures
            ids.wf(),
            ids.free() == Self::all_ids(),
    {
        Self::new()
    }
}

/// The free ids after `n` requests in a row, each of which takes an id and
/// gives it back before the next one starts.
pub open spec fn after_requests(free: Seq<u16>, n: nat) -> Seq<u16>
    decreases n,
{
    if n == 0 {
        free
    } else {
        let before = after_requests(free, (n - 1) as nat);
        after_release(after_alloc(before), before[0])
    }
}

/// Requests in a row walk through the queue: after `n` of them, with `n` no
/// more than the number of free ids, the first `n` ids have moved to the
/// end, so request number `n` (counted from zero) gets the id at place `n`.
pub proof fn lemma_after_requests(free: Seq<u16>, n: nat)
    requires
        free.no_duplicates(),
        !free.contains(0),
        n <= free.len(),
    ensures
        after_requests(free, n) == free.skip(n as int) + free.take(n as int),
        n < free.len() ==> after_requests(free, n)[0] == free[n as int],
    decreases n,
{
    if n == 0 {
        assert(free.skip(0) + free.take(0) =~= free);
    } else {
        lemma_after_requests(free, (n - 1) as nat);
        let before = after_requests(free, (n - 1) as nat);
        let id = free[n - 1];
        assert(before[0] == id);
        let rest = after_alloc(before);
        assert(rest =~= free.skip(n as int) + free.take(n - 1));
        assert(free.contains(id));
        assert(id != 0);
        if rest.contains(id) {
            let i = choose|i: int| 0 <= i < rest.len() && rest[i] == id;
            if i < free.len() - n {
                assert(free[i + n] == id);
            } else {
                assert(free[i - (free.len() - n)] == id);
            }
        }
        assert(rest.push(id) =~= free.skip(n as int) + free.take(n as int));
    }
}

impl PooledRequestIdAllocator {
    /// No id is in use twice: `allocate` fails exactly where every id is in
    /// use, and otherwise hands out an id that is not.
    pub proof fn lemma_exhausted(&self)
        requires
            self.wf(),
        ensures
            self.free().len() == 0 <==> forall|id: u16| id != 0 ==> self.in_use(id),
            self.free().len() > 0 ==> !self.in_use(self.free()[0]),
    {
        self.lemma_free_ids();
        if self.free().len() > 0 {
            assert(self.free().contains(self.free()[0]));
            assert(!self.in_use(self.free()[0]));
        }
    }

    /// Requests in a row, each of which takes an id and gives it back before
    /// the next one starts, all get different ids, as long as there are no
    /// more of them than ids free at the start: 65535 on a new allocator.
    pub proof fn lemma_sequential_ids_distinct(&self, n: nat)
        requires
            self.wf(),
            n <= self.free().len(),
        ensures
            forall|i: nat, j: nat|
                i < j < n ==> #[trigger] after_requests(self.free(), i)[0]
                    != #[trigger] after_requests(self.free(), j)[0],
    {
        self.lemma_free_ids();
        let free = self.free();
        assert forall|i: nat, j: nat| i < j < n implies #[trigger] after_requests(free, i)[0]
            != #[trigger] after_requests(free, j)[0] by {
            lemma_after_requests(free, i);
            lemma_after_requests(free, j);
            assert(free[i as int] != free[j as int]);
        }
    }
}

} // verus!
