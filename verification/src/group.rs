//! Grouping of a stream of sample chunks into fixed-size groups, with a time
//! window that flushes whatever has accumulated.

use vstd::prelude::*;

verus! {

/// What receiving `chunk` does when `pending` items wait for groups of
/// `size`: the group that leaves, if any, and the items that keep waiting.
pub open spec fn push_outcome<I>(pending: Seq<I>, chunk: Seq<I>, size: nat) -> (Option<Seq<I>>, Seq<I>) {
    let all = pending + chunk;
    if all.len() > size {
        (Some(all.subrange(0, size as int)), all.subrange(size as int, all.len() as int))
    } else {
        (None, all)
    }
}

/// Something that happens to a grouping window: a chunk arrives, or the
/// time window closes.
pub ghost enum WindowEvent<I> {
    Chunk(Seq<I>),
    Close,
}

/// The items that the chunks of a run of events carry, in order.
pub open spec fn items_in<I>(events: Seq<WindowEvent<I>>) -> Seq<I>
    decreases events.len(),
{
    if events.len() == 0 {
        Seq::empty()
    } else {
        let rest = items_in(events.drop_first());
        match events[0] {
            WindowEvent::Chunk(c) => c + rest,
            WindowEvent::Close => rest,
        }
    }
}

/// The groups that leave, in order, and the items left waiting, after a run
/// of events: a chunk is received as `push_outcome` says, and a closing
/// window lets every waiting item leave as one group.
pub open spec fn groups_after<I>(pending: Seq<I>, events: Seq<WindowEvent<I>>, size: nat) -> (Seq<Seq<I>>, Seq<I>)
    decreases events.len(),
{
    if events.len() == 0 {
        (Seq::empty(), pending)
    } else {
        match events[0] {
            WindowEvent::Chunk(c) => {
                let step = push_outcome(pending, c, size);
                let rest = groups_after(step.1, events.drop_first(), size);
                match step.0 {
                    Some(g) => (seq![g] + rest.0, rest.1),
                    None => rest,
                }
            },
            WindowEvent::Close => {
                let rest = groups_after(Seq::empty(), events.drop_first(), size);
                (seq![pending] + rest.0, rest.1)
            },
        }
    }
}

proof fn lemma_flatten_cons<I>(g: Seq<I>, gs: Seq<Seq<I>>)
    ensures
        (seq![g] + gs).flatten() == g + gs.flatten(),
{
    let all = seq![g] + gs;
    assert(all.first() == g);
    assert(all.drop_first() =~= gs);
}

/// Over any run of arriving chunks and closing windows nothing is lost,
/// duplicated, invented or reordered: the groups that left, end to end,
/// followed by what still waits, are the items that waited followed by every
/// chunk's items in order. So the groups that left, end to end, are always
/// a prefix of what waited followed by what arrived.
pub proof fn law_groups_keep_every_item<I>(pending: Seq<I>, events: Seq<WindowEvent<I>>, size: nat)
    ensures
        groups_after(pending, events, size).0.flatten() + groups_after(pending, events, size).1
            == pending + items_in(events),
    decreases events.len(),
{
    if events.len() == 0 {
        assert(Seq::<Seq<I>>::empty().flatten() + pending =~= pending + Seq::<I>::empty());
    } else {
        let tail = events.drop_first();
        match events[0] {
            WindowEvent::Chunk(c) => {
                let step = push_outcome(pending, c, size);
                let rest = groups_after(step.1, tail, size);
                law_groups_keep_every_item(step.1, tail, size);
                let all = pending + c;
                match step.0 {
                    Some(g) => {
                        lemma_flatten_cons(g, rest.0);
                        assert(g + step.1 =~= all);
                        assert((seq![g] + rest.0).flatten() + rest.1 =~= g + (rest.0.flatten()
                            + rest.1));
                        assert(pending + items_in(events) =~= all + items_in(tail));
                        assert(g + (step.1 + items_in(tail)) =~= all + items_in(tail));
                    },
                    None => {
                        assert(pending + items_in(events) =~= all + items_in(tail));
                    },
                }
            },
            WindowEvent::Close => {
                let rest = groups_after(Seq::empty(), tail, size);
                law_groups_keep_every_item(Seq::<I>::empty(), tail, size);
                lemma_flatten_cons(pending, rest.0);
                assert(Seq::<I>::empty() + items_in(tail) =~= items_in(tail));
                assert((seq![pending] + rest.0).flatten() + rest.1 =~= pending + (rest.0.flatten()
                    + rest.1));
            },
        }
    }
}

/// Every group that leaves on an arriving chunk is full.
pub proof fn law_chunk_groups_full<I>(pending: Seq<I>, chunk: Seq<I>, size: nat)
    ensures
        push_outcome(pending, chunk, size).0 matches Some(g) ==> g.len() == size,
{
}

/// A group leaves as soon as more than a group's worth of items waits, and
/// only then: it is the oldest `size` of the waiting items followed by the
/// chunk, and the others keep waiting in order; while no more than `size`
/// items wait, nothing leaves and the chunk joins the waiting items.
pub proof fn law_group_leaves_when_over_full<I>(pending: Seq<I>, chunk: Seq<I>, size: nat)
    ensures
        push_outcome(pending, chunk, size).0 is Some <==> pending.len() + chunk.len() > size,
        pending.len() + chunk.len() > size ==> push_outcome(pending, chunk, size).0 == Some(
            (pending + chunk).take(size as int),
        ) && push_outcome(pending, chunk, size).1 == (pending + chunk).skip(size as int),
        pending.len() + chunk.len() <= size ==> push_outcome(pending, chunk, size).1 == pending
            + chunk,
{
    let all = pending + chunk;
    assert(all.take(size as int) =~= all.subrange(0, size as int));
    assert(all.skip(size as int) =~= all.subrange(size as int, all.len() as int));
}

/// The grouping state: items received and not yet emitted, waiting for the
/// group to fill or for the time window to close.
pub struct GroupWindow<I> {
    group_size: usize,
    window: Vec<I>,
}

impl<I> GroupWindow<I> {
    /// The items waiting to be emitted, oldest first.
    pub closed spec fn pending(&self) -> Seq<I> {
        self.window@
    }

    /// The number of items in a full group.
    pub closed spec fn spec_group_size(&self) -> nat {
        self.group_size as nat
    }

    /// An empty window that emits groups of `group_size` items.
    pub fn new(group_size: usize) -> (w: Self)
        ensures
            w.pending() == Seq::<I>::empty(),
            w.spec_group_size() == group_size,
    {
        GroupWindow { group_size, window: Vec::with_capacity(group_size) }
    }

    /// The number of items in a full group.
    pub fn group_size(&self) -> (n: usize)
        ensures
            n == self.spec_group_size(),
    {
        self.group_size
    }

    /// The number of items waiting.
    pub fn pending_len(&self) -> (n: usize)
        ensures
            n == self.pending().len(),
    {
        self.window.len()
    }

    /// Receives a chunk of items. When the waiting items then number more than
    /// a group, the oldest `group_size` of them leave as one group; the rest
    /// keep waiting.
    pub fn push_chunk(&mut self, chunk: Vec<I>) -> (group: Option<Vec<I>>)
        requires
            old(self).pending().len() + chunk@.len() <= usize::MAX,
        ensures
            final(self).spec_group_size() == old(self).spec_group_size(),
            (match group {
                Some(g) => Some(g@),
                None => None,
            }, final(self).pending()) == push_outcome(
                old(self).pending(),
                chunk@,
                old(self).spec_group_size(),
            ),
    {
        let mut incoming = chunk;
        self.window.append(&mut incoming);
        if self.window.len() > self.group_size {
            let mut group = self.window.split_off(self.group_size);
            std::mem::swap(&mut self.window, &mut group);
            assert(group@ + self.window@ =~= old(self).pending() + chunk@);
            Some(group)
        } else {
            None
        }
    }

    /// Closes the time window: every waiting item leaves as one group (which
    /// may be empty) and the window starts over empty.
    pub fn flush(&mut self) -> (group: Vec<I>)
        ensures
            group@ == old(self).pending(),
            final(self).pending() == Seq::<I>::empty(),
            final(self).spec_group_size() == old(self).spec_group_size(),
    {
        let mut group: Vec<I> = Vec::new();
        std::mem::swap(&mut self.window, &mut group);
        group
    }
}

} // verus!
