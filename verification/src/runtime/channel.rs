//! A first-in, first-out channel between tasks.
use vstd::prelude::*;
use std::collections::VecDeque;

verus! {

/// A queue of values: `send` adds at the back, `recv` takes from the front.
pub struct Channel<T> {
    queue: VecDeque<T>,
}

impl<T> Channel<T> {
    /// The values waiting, oldest first.
    pub closed spec fn spec_queue(&self) -> Seq<T> {
        self.queue@
    }

    /// An empty channel.
    pub fn new() -> (r: Self)
        ensures
            r.spec_queue() == Seq::<T>::empty(),
    {
        Channel { queue: VecDeque::new() }
    }

    /// Sends a value: it waits behind those sent before it.
    pub fn send(&mut self, value: T)
        ensures
            final(self).spec_queue() == old(self).spec_queue().push(value),
    {
        self.queue.push_back(value);
    }

    /// Takes the oldest value waiting; `None` when nothing waits (the caller
    /// waits and tries again).
    pub fn recv(&mut self) -> (r: Option<T>)
        ensures
            old(self).spec_queue().len() == 0 ==> r.is_none() && final(self).spec_queue() == old(self).spec_queue(),
            old(self).spec_queue().len() > 0 ==> r == Some(old(self).spec_queue()[0])
                && final(self).spec_queue() == old(self).spec_queue().drop_first(),
    {
        let r = self.queue.pop_front();
        proof {
            if old(self).queue@.len() > 0 {
                assert(old(self).queue@.subrange(1, old(self).queue@.len() as int) =~= old(self).queue@.drop_first());
            }
        }
        r
    }

    /// How many values wait.
    pub fn len(&self) -> (r: usize)
        ensures
            r == self.spec_queue().len(),
    {
        self.queue.len()
    }
}

/// Values come out of a channel in the order they were sent: after sending
/// `a` then `b` into an empty channel, the first `recv` gives `a` and the
/// second gives `b`.
pub proof fn lemma_fifo<T>(q0: Seq<T>, a: T, b: T)
    requires
        q0.len() == 0,
    ensures
        q0.push(a).push(b)[0] == a,
        q0.push(a).push(b).drop_first()[0] == b,
        q0.push(a).push(b).drop_first().drop_first().len() == 0,
{
}

} // verus!
