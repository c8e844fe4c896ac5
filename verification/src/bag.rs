use vstd::prelude::*;

use queues::{IsQueue, Queue};
use rand::seq::SliceRandom;

use crate::pieces::{kind_from_code, kind_of_code, PieceKind};

verus! {

#[verifier::external_type_specification]
#[verifier::external_body]
#[verifier::reject_recursive_types(T)]
pub struct ExQueue<T: Clone>(Queue<T>);

/// The kind codes a queue holds, oldest first.
pub uninterp spec fn queue_kinds(q: Queue<u8>) -> Seq<u8>;

/// Relies on queues::Queue::new: the new queue is empty.
#[verifier::external_body]
fn queue_new() -> (q: Queue<u8>)
    ensures
        queue_kinds(q) == Seq::<u8>::empty(),
{
    Queue::new()
}

/// Relies on queues::Queue::add: appends the value at the back of the
/// queue's vector; the unbounded queue always reports success.
#[verifier::external_body]
fn queue_push(q: &mut Queue<u8>, v: u8)
    ensures
        queue_kinds(*final(q)) == queue_kinds(*old(q)).push(v),
{
    let _ = q.add(v);
}

/// Relies on queues::Queue::remove: on a non-empty queue it removes and
/// returns the oldest element.
#[verifier::external_body]
fn queue_pop(q: &mut Queue<u8>) -> (v: u8)
    requires
        queue_kinds(*old(q)).len() >= 1,
    ensures
        v == queue_kinds(*old(q))[0],
        queue_kinds(*final(q)) == queue_kinds(*old(q)).drop_first(),
{
    q.remove().unwrap_or(0)
}

/// Relies on queues::Queue::peek: on a non-empty queue it returns a clone
/// of the oldest element.
#[verifier::external_body]
fn queue_front(q: &Queue<u8>) -> (v: u8)
    requires
        queue_kinds(*q).len() >= 1,
    ensures
        v == queue_kinds(*q)[0],
{
    q.peek().unwrap_or(0)
}

/// Relies on queues::Queue::size: the number of elements the queue holds.
#[verifier::external_body]
fn queue_size(q: &Queue<u8>) -> (n: usize)
    ensures
        n == queue_kinds(*q).len(),
{
    q.size()
}

/// Relies on rand::seq::SliceRandom::shuffle, seeded from rand::thread_rng:
/// Fisher-Yates swaps reorder the vector in place, so whatever order comes
/// out, the result holds the same elements with the same multiplicities.
#[verifier::external_body]
fn shuffle_codes(v: &mut Vec<u8>)
    ensures
        final(v)@.len() == old(v)@.len(),
        final(v)@.to_multiset() == old(v)@.to_multiset(),
{
    v.shuffle(&mut rand::thread_rng());
}

/// A complete bag: seven codes, one of each of the seven kinds.
pub open spec fn bag_complete(s: Seq<u8>) -> bool {
    &&& s.len() == 7
    &&& forall|c: u8| c < 7 ==> #[trigger] s.to_multiset().count(c) == 1
    &&& forall|c: u8| c >= 7 ==> #[trigger] s.to_multiset().count(c) == 0
}

/// The upcoming pieces, dealt by the shuffled-bag scheme: all seven kinds
/// are shuffled into a bag, drawn one by one, and a fresh bag is shuffled
/// in whenever the queue is about to run out.
pub struct TetQueue {
    q: Queue<u8>,
}

impl View for TetQueue {
    type V = Seq<u8>;

    closed spec fn view(&self) -> Seq<u8> {
        queue_kinds(self.q)
    }
}

impl TetQueue {
    /// Between calls the queue holds the undrawn remainder of one bag:
    /// at least one code, at most seven, all of them kind codes, none of
    /// them twice.
    pub open spec fn wf(&self) -> bool {
        &&& 1 <= self@.len() <= 7
        &&& self@.no_duplicates()
        &&& forall|i: int| 0 <= i < self@.len() ==> #[trigger] self@[i] < 7
    }

    /// Append one freshly shuffled bag of all seven kinds.
    fn refill(&mut self)
        ensures
            final(self)@.len() == old(self)@.len() + 7,
            final(self)@.subrange(0, old(self)@.len() as int) == old(self)@,
            bag_complete(
                final(self)@.subrange(old(self)@.len() as int, final(self)@.len() as int),
            ),
    {
        broadcast use vstd::seq_lib::group_to_multiset_ensures;
        broadcast use vstd::multiset::group_multiset_axioms;

        let mut bag: Vec<u8> = Vec::new();
        bag.push(0);
        bag.push(1);
        bag.push(2);
        bag.push(3);
        bag.push(4);
        bag.push(5);
        bag.push(6);
        proof {
            assert(bag@ =~= Seq::<u8>::empty().push(0).push(1).push(2).push(3).push(4).push(5)
                .push(6));
            assert(Seq::<u8>::empty().to_multiset().len() == 0);
            vstd::multiset::lemma_multiset_empty_len(Seq::<u8>::empty().to_multiset());
            assert(bag_complete(bag@));
        }
        shuffle_codes(&mut bag);
        let ghost q0 = self@;
        let mut i: usize = 0;
        while i < 7
            invariant
                i <= 7,
                bag@.len() == 7,
                bag_complete(bag@),
                self@ == q0 + bag@.subrange(0, i as int),
            decreases 7 - i,
        {
            queue_push(&mut self.q, bag[i]);
            proof {
                assert(self@ =~= q0 + bag@.subrange(0, i + 1));
            }
            i = i + 1;
        }
        proof {
            assert(bag@.subrange(0, 7) =~= bag@);
            assert(self@.subrange(0, q0.len() as int) =~= q0);
            assert(self@.subrange(q0.len() as int, self@.len() as int) =~= bag@);
        }
    }

    /// A new queue seeded with one freshly shuffled bag.
    pub fn new() -> (tq: TetQueue)
        ensures
            tq.wf(),
            tq@.len() == 7,
            bag_complete(tq@),
    {
        let q = queue_new();
        let mut tq = TetQueue { q };
        tq.refill();
        proof {
            assert(tq@.subrange(0, 7) =~= tq@);
            lemma_complete_bag_wf(tq@);
        }
        tq
    }

    /// Draw the next kind. When only one code is left, a fresh bag is
    /// shuffled in first, so the queue never runs dry.
    pub fn next(&mut self) -> (k: PieceKind)
        requires
            old(self).wf(),
        ensures
            final(self).wf(),
            k == kind_of_code(old(self)@[0]),
            old(self)@.len() > 1 ==> final(self)@ == old(self)@.drop_first(),
            old(self)@.len() == 1 ==> bag_complete(final(self)@),
    {
        let n = queue_size(&self.q);
        if n <= 1 {
            self.refill();
            let ghost q1 = self@;
            let c = queue_pop(&mut self.q);
            proof {
                assert(q1[0] == old(self)@[0]);
                assert(self@ =~= q1.subrange(1, q1.len() as int));
                assert(self@ =~= q1.subrange(1, 8).subrange(0, 7));
                assert(q1.subrange(1, 8) =~= self@);
                lemma_complete_bag_wf(self@);
            }
            kind_from_code(c)
        } else {
            let c = queue_pop(&mut self.q);
            proof {
                lemma_drop_first_wf(old(self)@);
            }
            kind_from_code(c)
        }
    }

    /// The kind that the next call to `next` will return, left in place.
    pub fn peek(&self) -> (k: PieceKind)
        requires
            self.wf(),
        ensures
            k == kind_of_code(self@[0]),
    {
        let c = queue_front(&self.q);
        kind_from_code(c)
    }
}

/// A complete bag satisfies the queue invariant on its own.
proof fn lemma_complete_bag_wf(s: Seq<u8>)
    requires
        bag_complete(s),
    ensures
        s.no_duplicates(),
        forall|i: int| 0 <= i < s.len() ==> #[trigger] s[i] < 7,
{
    broadcast use vstd::seq_lib::group_to_multiset_ensures;

    assert forall|i: int| 0 <= i < s.len() implies #[trigger] s[i] < 7 by {
        assert(s.contains(s[i]));
        assert(s.to_multiset().count(s[i]) > 0);
    }
    s.lemma_multiset_has_no_duplicates_conv();
}

/// Dropping the head of a duplicate-free sequence of kind codes keeps the
/// remainder duplicate-free and in range.
proof fn lemma_drop_first_wf(s: Seq<u8>)
    requires
        s.len() >= 1,
        s.no_duplicates(),
        forall|i: int| 0 <= i < s.len() ==> #[trigger] s[i] < 7,
    ensures
        s.drop_first().no_duplicates(),
        forall|i: int| 0 <= i < s.drop_first().len() ==> #[trigger] s.drop_first()[i] < 7,
{
    assert forall|i: int| 0 <= i < s.drop_first().len() implies #[trigger] s.drop_first()[i]
        < 7 by {
        assert(s.drop_first()[i] == s[i + 1]);
    }
}

/// Bag fairness: at a bag boundary the queue holds a full bag, and a full
/// bag holds each of the seven kind codes exactly once, so any seven draws
/// aligned to bag boundaries produce each kind exactly once.
pub proof fn lemma_bag_fairness(q: &TetQueue)
    requires
        q.wf(),
        q@.len() == 7,
    ensures
        bag_complete(q@),
        forall|k: PieceKind| q@.to_multiset().count(crate::pieces::code_of_kind(k)) == 1,
{
    broadcast use vstd::seq_lib::group_to_multiset_ensures;
    broadcast use vstd::set::group_set_axioms;

    let s = q@;
    let codes = Set::new(|c: u8| c < 7);
    assert(codes =~= Set::<u8>::empty().insert(0).insert(1).insert(2).insert(3).insert(4).insert(
        5,
    ).insert(6));
    assert(codes.finite() && codes.len() == 7);
    s.unique_seq_to_set();
    assert(s.to_set().len() == 7);
    assert forall|c: u8| s.to_set().contains(c) implies codes.contains(c) by {}
    assert(s.to_set() <= codes);
    vstd::set_lib::lemma_subset_equality(s.to_set(), codes);
    assert(s.to_set() =~= codes);
    assert forall|c: u8| c < 7 implies #[trigger] s.to_multiset().count(c) == 1 by {
        assert(s.to_set().contains(c));
        assert(s.contains(c));
        assert(s.to_multiset().count(c) > 0);
        s.lemma_multiset_has_no_duplicates();
    }
    assert forall|c: u8| c >= 7 implies #[trigger] s.to_multiset().count(c) == 0 by {
        if s.to_multiset().count(c) > 0 {
            assert(s.contains(c));
        }
    }
}

} // verus!
