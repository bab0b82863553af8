//! The key queue: key names pushed by an input backend and polled by the
//! application, first in, first out.
use vstd::prelude::*;
use std::collections::VecDeque;

verus! {

/// A FIFO queue of key names.
pub struct KeyQueue {
    keys: VecDeque<String>,
}

impl View for KeyQueue {
    type V = Seq<Seq<char>>;

    /// The queued key names, oldest first.
    closed spec fn view(&self) -> Seq<Seq<char>> {
        self.keys@.map_values(|k: String| k@)
    }
}

impl KeyQueue {
    /// An empty queue.
    pub fn new() -> (q: Self)
        ensures
            q@ == Seq::<Seq<char>>::empty(),
    {
        let q = KeyQueue { keys: VecDeque::new() };
        assert(q@ =~= Seq::<Seq<char>>::empty());
        q
    }
}

/// Appends the key name `k` to the back of the queue.
pub fn push_key(queue: &mut KeyQueue, k: &str)
    ensures
        final(queue)@ == old(queue)@.push(k@),
{
    let ghost before = queue.keys@;
    queue.keys.push_back(k.to_owned());
    assert(queue@ =~= old(queue)@.push(k@));
}

/// Removes and returns the oldest queued key name, or `None` when the queue is empty.
pub fn poll_key(queue: &mut KeyQueue) -> (k: Option<String>)
    ensures
        old(queue)@.len() == 0 ==> k is None && final(queue)@ == old(queue)@,
        old(queue)@.len() > 0 ==> k is Some && k->0@ == old(queue)@[0] && final(queue)@
            == old(queue)@.drop_first(),
{
    let k = queue.keys.pop_front();
    assert(queue@ =~= if old(queue)@.len() == 0 {
        old(queue)@
    } else {
        old(queue)@.drop_first()
    });
    k
}

/// Keys come out of the queue in the order they went in: after pushing `a`
/// then `b` onto an empty queue, polling gives `a`, then `b`, then nothing.
pub proof fn lemma_fifo(a: Seq<char>, b: Seq<char>)
    ensures
        ({
            let q = Seq::<Seq<char>>::empty().push(a).push(b);
            &&& q[0] == a
            &&& q.drop_first()[0] == b
            &&& q.drop_first().drop_first().len() == 0
        }),
{
}

} // verus!
