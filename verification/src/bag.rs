//! The seven-bag randomizer: pieces leave a queue at the front, and a freshly
//! shuffled set of all seven joins it at the back whenever it runs short.
use crate::piece::{Piece, ALL_PIECES};
use rand::rngs::ThreadRng;
use rand::RngCore;
use std::collections::VecDeque;
use vstd::prelude::*;

verus! {

/// `rand::rngs::ThreadRng`, a handle to the generator of the current thread. Nothing is said
/// of what is inside.
#[verifier::external_type_specification]
#[verifier::external_body]
pub struct ExThreadRng(ThreadRng);

/// `rand::thread_rng` hands out the generator of the current thread. Nothing is claimed of
/// its state: the system seeds it. It panics only where the system cannot.
pub assume_specification[ rand::thread_rng ]() -> (rng: ThreadRng);

/// `rand::RngCore::next_u32` of `rand::rngs::ThreadRng`, the next random number. Nothing is
/// claimed of it: any `u32` may come. It panics only where the generator is due fresh
/// randomness and the system has none to give.
#[verifier::external_body]
fn next_u32(rng: &mut ThreadRng) -> (drawn: u32) {
    rng.next_u32()
}

/// The queue length below which a new bag is added: one piece to spawn, one to preview.
pub const MIN_QUEUE: usize = 2;

/// `s` with the elements at `i` and `j` exchanged.
pub open spec fn exchanged(s: Seq<Piece>, i: int, j: int) -> Seq<Piece> {
    s.update(i, s[j]).update(j, s[i])
}

/// `s` after a Fisher-Yates shuffle of its first `last + 1` places: the place `last` is
/// exchanged with the one that the first draw picks among `0..=last`, and so on downwards,
/// one draw for each place but the first.
pub open spec fn shuffled(s: Seq<Piece>, last: nat, draws: Seq<u32>) -> Seq<Piece>
    decreases last,
{
    if last == 0 {
        s
    } else {
        shuffled(
            exchanged(s, last as int, (draws[0] as nat % (last + 1)) as int),
            (last - 1) as nat,
            draws.skip(1),
        )
    }
}

/// A bag: seven pieces, no two the same, so each of the seven exactly once.
pub open spec fn is_bag(s: Seq<Piece>) -> bool {
    s.len() == 7 && s.no_duplicates()
}

/// The queue after a top-up from `bag`: the bag joins at the back if the queue was short.
pub open spec fn topped_up(queue: Seq<Piece>, bag: Seq<Piece>) -> Seq<Piece> {
    if queue.len() < MIN_QUEUE {
        queue + bag
    } else {
        queue
    }
}

/// Shuffling keeps the length, and keeps distinct elements distinct.
pub proof fn lemma_shuffled(s: Seq<Piece>, last: nat, draws: Seq<u32>)
    requires
        last < s.len(),
        draws.len() == last,
        s.no_duplicates(),
    ensures
        shuffled(s, last, draws).len() == s.len(),
        shuffled(s, last, draws).no_duplicates(),
    decreases last,
{
    if last > 0 {
        let j: int = (draws[0] as nat % (last + 1)) as int;
        lemma_shuffled(exchanged(s, last as int, j), (last - 1) as nat, draws.skip(1));
    }
}

/// The bag that six random numbers shuffle.
pub fn shuffled_bag(draws: [u32; 6]) -> (bag: [Piece; 7])
    ensures
        bag@ == shuffled(ALL_PIECES@, 6, draws@),
        is_bag(bag@),
{
    let mut bag: [Piece; 7] = ALL_PIECES;
    let mut i: usize = 6;
    assert(draws@.skip(0) =~= draws@);
    while i > 0
        invariant
            i <= 6,
            shuffled(bag@, i as nat, draws@.skip(6 - i)) == shuffled(ALL_PIECES@, 6, draws@),
        decreases i,
    {
        let j: usize = (draws[6 - i] as usize) % (i + 1);
        let ghost before = bag@;
        let taken = bag[i];
        bag[i] = bag[j];
        bag[j] = taken;
        proof {
            assert(bag@ =~= exchanged(before, i as int, j as int));
            assert(draws@.skip(6 - i).skip(1) =~= draws@.skip(6 - (i - 1)));
        }
        i = i - 1;
    }
    proof {
        lemma_shuffled(ALL_PIECES@, 6, draws@);
    }
    bag
}

/// Appends the bag that six random numbers shuffle.
pub fn append_bag(queue: &mut VecDeque<Piece>, draws: [u32; 6])
    ensures
        final(queue)@ == old(queue)@ + shuffled(ALL_PIECES@, 6, draws@),
        is_bag(shuffled(ALL_PIECES@, 6, draws@)),
{
    let bag = shuffled_bag(draws);
    let mut i: usize = 0;
    while i < 7
        invariant
            i <= 7,
            queue@ == old(queue)@ + bag@.take(i as int),
        decreases 7 - i,
    {
        queue.push_back(bag[i]);
        assert(bag@.take(i + 1) =~= bag@.take(i as int).push(bag@[i as int]));
        i = i + 1;
    }
    assert(bag@.take(7) =~= bag@);
}

/// Six random numbers, as a shuffle takes them. Nothing is promised of them.
fn random_draws() -> (draws: [u32; 6]) {
    let mut rng = rand::thread_rng();
    let mut draws: [u32; 6] = [0, 0, 0, 0, 0, 0];
    let mut i: usize = 0;
    while i < 6
        invariant
            i <= 6,
        decreases 6 - i,
    {
        draws[i] = next_u32(&mut rng);
        i = i + 1;
    }
    draws
}

/// Tops the queue up with a random bag if it is short.
pub fn ensure_queue(queue: &mut VecDeque<Piece>)
    ensures
        exists|bag: Seq<Piece>|
            #[trigger] is_bag(bag) && final(queue)@ == topped_up(old(queue)@, bag),
        final(queue)@.len() >= MIN_QUEUE,
{
    let ghost mut bag = shuffled(ALL_PIECES@, 6, seq![0u32, 0, 0, 0, 0, 0]);
    proof {
        lemma_shuffled(ALL_PIECES@, 6, seq![0u32, 0, 0, 0, 0, 0]);
    }
    while queue.len() < MIN_QUEUE
        invariant
            is_bag(bag),
            queue@ == old(queue)@ || (queue@ == topped_up(old(queue)@, bag) && queue@.len()
                >= MIN_QUEUE),
        decreases (if queue@.len() < MIN_QUEUE { 1int } else { 0int }),
    {
        let draws = random_draws();
        append_bag(queue, draws);
        proof {
            bag = shuffled(ALL_PIECES@, 6, draws@);
        }
    }
    assert(queue@ == topped_up(old(queue)@, bag));
}

} // verus!
