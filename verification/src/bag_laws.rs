//! What the randomizer promises of the pieces that come.
use crate::bag::{exchanged, is_bag, lemma_shuffled, shuffled, topped_up, MIN_QUEUE};
use crate::game_steps::{dealt, is_game, is_step, law_queue_moves_by_spawns};
use crate::model::{blank_game, spawn_leads, GameView};
use crate::piece::{Piece, ALL_PIECES};
use vstd::prelude::*;

verus! {

/// A bag holds each of the seven pieces exactly once.
pub proof fn law_bag_holds_each_piece(bag: Seq<Piece>, piece: Piece)
    requires
        is_bag(bag),
    ensures
        exists|i: int| 0 <= i < 7 && #[trigger] bag[i] == piece,
        forall|i: int, j: int|
            0 <= i < 7 && 0 <= j < 7 && #[trigger] bag[i] == piece && #[trigger] bag[j] == piece
                ==> i == j,
{
    if forall|i: int| 0 <= i < 7 ==> #[trigger] bag[i] != piece {
        assert(bag[0] != piece && bag[1] != piece && bag[2] != piece && bag[3] != piece && bag[4]
            != piece && bag[5] != piece && bag[6] != piece);
        assert(false);
    }
}

/// Six random numbers shuffle a bag whatever they are.
pub proof fn law_shuffle_deals_a_bag(draws: Seq<u32>)
    requires
        draws.len() == 6,
    ensures
        is_bag(shuffled(ALL_PIECES@, 6, draws)),
{
    lemma_shuffled(ALL_PIECES@, 6, draws);
}

/// Draws that lead from one bag to another that agrees with it past the place `last`.
proof fn lemma_draws_between(from: Seq<Piece>, to: Seq<Piece>, last: nat) -> (draws: Seq<u32>)
    requires
        is_bag(from),
        is_bag(to),
        last < 7,
        forall|i: int| last < i < 7 ==> #[trigger] from[i] == to[i],
    ensures
        draws.len() == last,
        shuffled(from, last, draws) == to,
    decreases last,
{
    if last == 0 {
        law_bag_holds_each_piece(from, to[0]);
        let i: int = choose|i: int| 0 <= i < 7 && #[trigger] from[i] == to[0];
        assert(i > 0 ==> from[i] == to[i]);
        assert(from =~= to);
        Seq::empty()
    } else {
        law_bag_holds_each_piece(from, to[last as int]);
        let j: int = choose|i: int| 0 <= i < 7 && #[trigger] from[i] == to[last as int];
        assert(j > last ==> from[j] == to[j]);
        assert(j <= last);
        let next = exchanged(from, last as int, j);
        assert(next[last as int] == to[last as int]);
        let rest = lemma_draws_between(next, to, (last - 1) as nat);
        let draws = seq![j as u32] + rest;
        assert(draws.skip(1) =~= rest);
        vstd::arithmetic::div_mod::lemma_small_mod(j as nat, last + 1);
        draws
    }
}

/// Every bag can come: some six random numbers shuffle it.
pub proof fn law_every_bag_can_come(bag: Seq<Piece>)
    requires
        is_bag(bag),
    ensures
        exists|draws: Seq<u32>| draws.len() == 6 && #[trigger] shuffled(ALL_PIECES@, 6, draws) == bag,
{
    let draws = lemma_draws_between(ALL_PIECES@, bag, 6);
}

/// A shuffle leaves the places past `last` as they are.
proof fn lemma_shuffled_above(s: Seq<Piece>, last: nat, draws: Seq<u32>, k: int)
    requires
        last < k < s.len(),
        draws.len() == last,
    ensures
        shuffled(s, last, draws)[k] == s[k],
    decreases last,
{
    if last > 0 {
        let j: int = (draws[0] as nat % (last + 1)) as int;
        lemma_shuffled_above(exchanged(s, last as int, j), (last - 1) as nat, draws.skip(1), k);
    }
}

/// Draws that lead from one bag to the same bag pick the same places.
proof fn lemma_same_bag_same_places(s: Seq<Piece>, last: nat, a: Seq<u32>, b: Seq<u32>, i: int)
    requires
        is_bag(s),
        last < 7,
        a.len() == last,
        b.len() == last,
        shuffled(s, last, a) == shuffled(s, last, b),
        0 <= i < last,
    ensures
        a[i] as int % (last + 1 - i) == b[i] as int % (last + 1 - i),
    decreases last,
{
    let ja: int = (a[0] as nat % (last + 1)) as int;
    let jb: int = (b[0] as nat % (last + 1)) as int;
    let below = (last - 1) as nat;
    lemma_shuffled_above(exchanged(s, last as int, ja), below, a.skip(1), last as int);
    lemma_shuffled_above(exchanged(s, last as int, jb), below, b.skip(1), last as int);
    assert(s[ja] == s[jb]);
    assert(ja == jb);
    if i > 0 {
        lemma_same_bag_same_places(
            exchanged(s, last as int, ja),
            below,
            a.skip(1),
            b.skip(1),
            i - 1,
        );
        assert(a.skip(1)[i - 1] == a[i]);
        assert(b.skip(1)[i - 1] == b[i]);
    }
}

/// No bag comes in two ways: draws that shuffle the same bag pick the same place each time,
/// the draw `i` being one among `7 - i` places.
pub proof fn law_bag_decides_places(a: Seq<u32>, b: Seq<u32>, i: int)
    requires
        a.len() == 6,
        b.len() == 6,
        shuffled(ALL_PIECES@, 6, a) == shuffled(ALL_PIECES@, 6, b),
        0 <= i < 6,
    ensures
        a[i] as int % (7 - i) == b[i] as int % (7 - i),
{
    lemma_same_bag_same_places(ALL_PIECES@, 6, a, b, i);
}

/// Bags emptied one after the other into a line.
pub open spec fn poured(bags: Seq<Seq<Piece>>) -> Seq<Piece>
    decreases bags.len(),
{
    if bags.len() == 0 {
        Seq::empty()
    } else {
        poured(bags.drop_last()) + bags.last()
    }
}

/// Whether all of them are bags.
pub open spec fn all_bags(bags: Seq<Seq<Piece>>) -> bool {
    forall|k: int| 0 <= k < bags.len() ==> is_bag(#[trigger] bags[k])
}

/// Where the pieces of each bag stand in the line.
pub proof fn lemma_poured(bags: Seq<Seq<Piece>>)
    requires
        all_bags(bags),
    ensures
        poured(bags).len() == 7 * bags.len(),
        forall|k: int, r: int|
            0 <= k < bags.len() && 0 <= r < 7 ==> poured(bags)[7 * k + r] == #[trigger] bags[k][r],
    decreases bags.len(),
{
    if bags.len() > 0 {
        let before = bags.drop_last();
        lemma_poured(before);
        assert(is_bag(bags[bags.len() - 1]));
        assert forall|k: int, r: int| 0 <= k < bags.len() && 0 <= r < 7 implies poured(bags)[7 * k
            + r] == #[trigger] bags[k][r] by {
            if k < before.len() {
                assert(before[k][r] == bags[k][r]);
            }
        }
    }
}

/// One more bag in the line.
proof fn lemma_pour_one(bags: Seq<Seq<Piece>>, bag: Seq<Piece>)
    requires
        all_bags(bags),
        is_bag(bag),
    ensures
        all_bags(bags.push(bag)),
        poured(bags.push(bag)) == poured(bags) + bag,
{
    assert(bags.push(bag).drop_last() =~= bags);
}

/// A top-up leaves the line as it is or adds a bag to it.
proof fn lemma_top_up_pours(
    line: Seq<Piece>,
    queue: Seq<Piece>,
    bag: Seq<Piece>,
    bags: Seq<Seq<Piece>>,
) -> (more: Seq<Seq<Piece>>)
    requires
        all_bags(bags),
        is_bag(bag),
        line + queue == poured(bags),
    ensures
        all_bags(more),
        line + topped_up(queue, bag) == poured(more),
{
    if queue.len() < MIN_QUEUE {
        lemma_pour_one(bags, bag);
        assert(line + (queue + bag) =~= (line + queue) + bag);
        bags.push(bag)
    } else {
        bags
    }
}

/// A spawn takes the next piece of the line.
proof fn lemma_spawn_pours(
    line: Seq<Piece>,
    before: GameView,
    after: GameView,
    bags: Seq<Seq<Piece>>,
) -> (more: Seq<Seq<Piece>>)
    requires
        all_bags(bags),
        line + before.queue == poured(bags),
        spawn_leads(before, after),
    ensures
        all_bags(more),
        line.push(after.piece) + after.queue == poured(more),
        after.queue != before.queue,
{
    let (first, second): (Seq<Piece>, Seq<Piece>) = choose|first: Seq<Piece>, second: Seq<Piece>|
        #[trigger] is_bag(first) && #[trigger] is_bag(second) && after == before.spawned(
            first,
            second,
        );
    let topped = topped_up(before.queue, first);
    let some = lemma_top_up_pours(line, before.queue, first, bags);
    assert(line + topped =~= line.push(topped[0]) + topped.skip(1));
    let more = lemma_top_up_pours(line.push(topped[0]), topped.skip(1), second, some);
    assert(after.queue.len() != before.queue.len());
    more
}

/// A step of the game takes the next piece of the line, or none.
proof fn lemma_step_pours(
    line: Seq<Piece>,
    before: GameView,
    after: GameView,
    bags: Seq<Seq<Piece>>,
) -> (more: Seq<Seq<Piece>>)
    requires
        all_bags(bags),
        line + before.queue == poured(bags),
        is_step(before, after),
    ensures
        all_bags(more),
        (if after.queue != before.queue {
            line.push(after.piece)
        } else {
            line
        }) + after.queue == poured(more),
{
    if after.queue == before.queue {
        bags
    } else {
        let awaiting = law_queue_moves_by_spawns(before, after);
        lemma_spawn_pours(line, awaiting, after, bags)
    }
}

/// The pieces of a game, those that came and those in the queue, are bags poured one after
/// the other.
pub proof fn law_pieces_come_from_bags(states: Seq<GameView>)
    requires
        is_game(states),
    ensures
        exists|bags: Seq<Seq<Piece>>| #[trigger]
            all_bags(bags) && dealt(states) + states.last().queue == poured(bags),
    decreases states.len(),
{
    if states.len() == 1 {
        let blank = blank_game(states[0].layout, Seq::empty());
        let none = Seq::<Seq<Piece>>::empty();
        assert(Seq::<Piece>::empty() + blank.queue =~= poured(none));
        let bags = lemma_spawn_pours(Seq::empty(), blank, states[0], none);
        assert(all_bags(bags));
        assert(Seq::<Piece>::empty().push(states[0].piece) =~= dealt(states));
    } else {
        let before = states.drop_last();
        assert(is_game(before)) by {
            assert forall|i: int| 0 <= i < before.len() - 1 implies #[trigger] is_step(
                before[i],
                before[i + 1],
            ) by {
                assert(is_step(states[i], states[i + 1]));
            }
        }
        law_pieces_come_from_bags(before);
        let bags = choose|bags: Seq<Seq<Piece>>| #[trigger]
            all_bags(bags) && dealt(before) + before.last().queue == poured(bags);
        let n: int = states.len() - 2;
        assert(is_step(states[n], states[n + 1]));
        let more = lemma_step_pours(dealt(before), before.last(), states.last(), bags);
        assert(all_bags(more));
    }
}

/// Of the pieces that come in a game, the first seven are a bag, the next seven too, and so
/// on: in each of these runs every piece comes exactly once.
pub proof fn law_runs_of_seven_are_bags(states: Seq<GameView>, k: int)
    requires
        is_game(states),
        0 <= k,
        7 * k + 7 <= dealt(states).len(),
    ensures
        is_bag(dealt(states).subrange(7 * k, 7 * k + 7)),
{
    law_pieces_come_from_bags(states);
    let bags = choose|bags: Seq<Seq<Piece>>| #[trigger]
        all_bags(bags) && dealt(states) + states.last().queue == poured(bags);
    lemma_poured(bags);
    let line = poured(bags);
    assert(k < bags.len());
    let run = dealt(states).subrange(7 * k, 7 * k + 7);
    assert forall|r: int| 0 <= r < 7 implies #[trigger] run[r] == bags[k][r] by {
        assert(line[7 * k + r] == bags[k][r]);
        assert((dealt(states) + states.last().queue)[7 * k + r] == dealt(states)[7 * k + r]);
    }
    assert(run =~= bags[k]);
}

/// Among any seven pieces that come in a row, none comes three times: no piece repeats more
/// than once.
pub proof fn law_no_piece_thrice_in_seven(states: Seq<GameView>, i: int, j: int, k: int)
    requires
        is_game(states),
        0 <= i < j < k < i + 7,
        k < dealt(states).len(),
    ensures
        !(dealt(states)[i] == dealt(states)[j] && dealt(states)[j] == dealt(states)[k]),
{
    law_pieces_come_from_bags(states);
    let bags = choose|bags: Seq<Seq<Piece>>| #[trigger]
        all_bags(bags) && dealt(states) + states.last().queue == poured(bags);
    lemma_poured(bags);
    let line = poured(bags);
    assert(line[i] == dealt(states)[i] && line[j] == dealt(states)[j] && line[k]
        == dealt(states)[k]) by {
        let all = dealt(states) + states.last().queue;
        assert(all[i] == dealt(states)[i] && all[j] == dealt(states)[j] && all[k]
            == dealt(states)[k]);
    }
    assert(line[7 * (i / 7) + i % 7] == bags[i / 7][i % 7]);
    assert(line[7 * (j / 7) + j % 7] == bags[j / 7][j % 7]);
    assert(line[7 * (k / 7) + k % 7] == bags[k / 7][k % 7]);
    assert(is_bag(bags[i / 7]) && is_bag(bags[k / 7]));
}

/// Among any thirteen pieces that come in a row, every piece comes.
pub proof fn law_every_piece_in_thirteen(states: Seq<GameView>, i: int, piece: Piece)
    requires
        is_game(states),
        0 <= i,
        i + 13 <= dealt(states).len(),
    ensures
        exists|k: int| i <= k < i + 13 && #[trigger] dealt(states)[k] == piece,
{
    let m: int = (i + 6) / 7;
    law_runs_of_seven_are_bags(states, m);
    let run = dealt(states).subrange(7 * m, 7 * m + 7);
    law_bag_holds_each_piece(run, piece);
    let r: int = choose|r: int| 0 <= r < 7 && #[trigger] run[r] == piece;
    assert(dealt(states)[7 * m + r] == piece);
}

/// Between a piece and the next of its kind come at most twelve others.
pub proof fn law_at_most_twelve_between(states: Seq<GameView>, i: int, j: int)
    requires
        is_game(states),
        0 <= i < j < dealt(states).len(),
        forall|k: int| i < k < j ==> #[trigger] dealt(states)[k] != dealt(states)[i],
    ensures
        j - i - 1 <= 12,
{
    if j - i - 1 > 12 {
        law_every_piece_in_thirteen(states, i + 1, dealt(states)[i]);
    }
}

} // verus!
