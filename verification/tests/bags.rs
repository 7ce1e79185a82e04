use std::collections::VecDeque;
use tetris::bag::{append_bag, ensure_queue, shuffled_bag};
use tetris::piece::{Piece, ALL_PIECES};

fn holds_each_piece_once(bag: &[Piece]) -> bool {
    bag.len() == 7 && ALL_PIECES.iter().all(|p| bag.iter().filter(|&q| q == p).count() == 1)
}

#[test]
fn zero_draws_rotate_the_bag() {
    // Each place from the last down is exchanged with the first.
    assert_eq!(
        shuffled_bag([0, 0, 0, 0, 0, 0]),
        [Piece::I, Piece::S, Piece::Z, Piece::T, Piece::L, Piece::J, Piece::O]
    );
}

#[test]
fn draws_that_pick_the_same_place_leave_the_bag() {
    assert_eq!(shuffled_bag([6, 5, 4, 3, 2, 1]), ALL_PIECES);
    assert_eq!(shuffled_bag([13, 11, 9, 7, 5, 3]), ALL_PIECES);
}

#[test]
fn draws_count_modulo_the_places_left() {
    // Place 6 gets place 4_294_967_295 % 7 = 3, the others keep theirs.
    assert_eq!(
        shuffled_bag([u32::MAX, 5, 4, 3, 2, 1]),
        [Piece::O, Piece::I, Piece::S, Piece::J, Piece::T, Piece::L, Piece::Z]
    );
}

#[test]
fn every_bag_holds_each_piece_once() {
    for seed in 0..500u32 {
        let draws = [seed, seed * 3, seed * 7 + 1, seed / 2, seed * seed, 1000 - seed];
        assert!(holds_each_piece_once(&shuffled_bag(draws)));
    }
}

#[test]
fn a_bag_joins_at_the_back() {
    let mut queue = VecDeque::from(vec![Piece::T, Piece::T]);
    append_bag(&mut queue, [6, 5, 4, 3, 2, 1]);
    let mut expected = vec![Piece::T, Piece::T];
    expected.extend(ALL_PIECES);
    assert_eq!(Vec::from(queue), expected);
}

#[test]
fn a_short_queue_is_topped_up_by_one_bag() {
    let mut queue = VecDeque::new();
    ensure_queue(&mut queue);
    assert!(holds_each_piece_once(&Vec::from(queue)));

    let mut queue = VecDeque::from(vec![Piece::S]);
    ensure_queue(&mut queue);
    let queue = Vec::from(queue);
    assert_eq!(queue.len(), 8);
    assert_eq!(queue[0], Piece::S);
    assert!(holds_each_piece_once(&queue[1..]));
}

#[test]
fn a_long_queue_is_left_alone() {
    let mut queue = VecDeque::from(vec![Piece::S, Piece::S]);
    ensure_queue(&mut queue);
    assert_eq!(Vec::from(queue), vec![Piece::S, Piece::S]);
}

#[test]
fn bags_come_in_different_orders() {
    let mut first = VecDeque::new();
    ensure_queue(&mut first);
    let mut differs = false;
    for _ in 0..200 {
        let mut other = VecDeque::new();
        ensure_queue(&mut other);
        differs = differs || other != first;
    }
    assert!(differs);
}

#[test]
fn runs_of_seven_hold_each_piece_once() {
    let mut queue = VecDeque::new();
    let mut dealt = Vec::new();
    for _ in 0..70 {
        ensure_queue(&mut queue);
        dealt.push(queue.pop_front().unwrap());
    }
    for run in dealt.chunks(7) {
        assert!(holds_each_piece_once(run));
    }
    for window in dealt.windows(7) {
        for piece in ALL_PIECES {
            assert!(window.iter().filter(|&&p| p == piece).count() <= 2);
        }
    }
}

#[test]
fn queues_stay_between_two_and_eight_and_every_piece_comes_in_thirteen() {
    let mut queue = VecDeque::new();
    let mut dealt = Vec::new();
    for _ in 0..100 {
        ensure_queue(&mut queue);
        dealt.push(queue.pop_front().unwrap());
        ensure_queue(&mut queue);
        assert!((2..=8).contains(&queue.len()));
    }
    for window in dealt.windows(13) {
        assert!(ALL_PIECES.iter().all(|p| window.contains(p)));
    }
}

#[test]
fn every_order_of_the_last_three_can_come() {
    // With the upper places fixed, the lower draws reach all orders of three pieces.
    let mut seen: Vec<[Piece; 3]> = Vec::new();
    for a in 0..3u32 {
        for b in 0..2u32 {
            let bag = shuffled_bag([6, 5, 4, 3, a, b]);
            let low = [bag[0], bag[1], bag[2]];
            assert!(!seen.contains(&low));
            seen.push(low);
        }
    }
    assert_eq!(seen.len(), 6);
}
