use std::collections::HashSet;

use wallpaper_core::compositor::order::{seed, shuffled, straight, Rng};
use wallpaper_core::compositor::playback::Playback;

fn is_permutation(order: &[usize], len: usize) -> bool {
    let mut seen = vec![false; len];
    for index in order {
        if *index >= len || seen[*index] {
            return false;
        }
        seen[*index] = true;
    }
    order.len() == len
}

#[test]
fn a_straight_order_is_the_list_as_written() {
    assert_eq!(straight(4), vec![0, 1, 2, 3]);
    assert!(straight(0).is_empty());
}

#[test]
fn every_item_appears_exactly_once() {
    for len in 1..24usize {
        for seed in 1..40u64 {
            let order = shuffled(len, None, seed * 7919);
            assert!(
                is_permutation(&order, len),
                "len {len} seed {seed} gave {order:?}"
            );
        }
    }
}

#[test]
fn the_item_that_just_played_never_starts_the_next_pass() {
    for len in 2..24usize {
        for avoid in 0..len {
            for seed in 1..40u64 {
                let order = shuffled(len, Some(avoid), seed * 104_729);
                assert_ne!(order[0], avoid, "len {len} avoid {avoid} seed {seed}");
                assert!(is_permutation(&order, len));
            }
        }
    }
}

#[test]
fn a_single_item_is_left_alone() {
    assert_eq!(shuffled(1, None, 12345), vec![0]);
    assert_eq!(shuffled(1, Some(0), 12345), vec![0]);
    assert!(shuffled(0, None, 12345).is_empty());
}

#[test]
fn different_seeds_give_different_orders() {
    let orders: HashSet<Vec<usize>> = (1..60u64)
        .map(|seed| shuffled(8, None, seed * 2_654_435_761))
        .collect();
    assert!(orders.len() > 20, "only {} distinct orders", orders.len());
    assert!(orders.iter().any(|order| *order != straight(8)));
}

#[test]
fn a_zero_seed_still_shuffles() {
    assert!(is_permutation(&shuffled(8, None, 0), 8));
}

#[test]
fn xorshift_steps_as_written() {
    let mut rng = Rng(1);
    // 1 ^ 1<<13 = 8193; ^ >>7 (64) = 8257; ^ <<17 = 8257 ^ 1082261504.
    assert_eq!(rng.next(), 1082269761);
    assert_eq!(rng.0, 1082269761);
}

#[test]
fn two_seeds_drawn_together_differ() {
    // Same instant, different counts: the count moves the seed even when
    // the clock does not.
    let a = seed(0);
    let b = seed(1);
    let c = seed(2);
    assert!(a != b || b != c);
}

// ---------------------------------------------------------------------------
// A monitor's playlist.
// ---------------------------------------------------------------------------

fn list(count: usize) -> Vec<String> {
    (0..count).map(|i| format!("{i}.mp4")).collect()
}

/// Everything the list holds, in the order this playback would show it,
/// over `steps` advances, each drawing from its own seed.
fn played(state: &mut Playback, shuffle: bool, steps: usize, first_seed: u64) -> Vec<String> {
    let mut seen = vec![state.current().cloned().unwrap()];
    for i in 0..steps {
        state.step(shuffle, seed(first_seed + i as u64));
        seen.push(state.current().cloned().unwrap());
    }
    seen
}

#[test]
fn a_list_plays_in_the_order_it_was_written() {
    let mut state = Playback::blank();
    state.play(list(3), false, seed(0));
    let mut wanted = list(3);
    wanted.push("0.mp4".to_string());
    assert_eq!(played(&mut state, false, 3, 1), wanted);
}

#[test]
fn a_shuffled_pass_shows_every_wallpaper_once() {
    for round in 0..40u64 {
        let mut state = Playback::blank();
        state.play(list(5), true, seed(round * 10));
        let mut seen: Vec<String> = played(&mut state, true, 4, round * 10 + 1);
        seen.sort();
        assert_eq!(seen, list(5));
    }
}

#[test]
fn a_wallpaper_never_follows_itself_across_a_pass() {
    for round in 0..60u64 {
        let mut state = Playback::blank();
        state.play(list(4), true, seed(round * 20));
        let seen = played(&mut state, true, 12, round * 20 + 1);
        for pair in seen.windows(2) {
            assert_ne!(pair[0], pair[1], "in {seen:?}");
        }
    }
}

#[test]
fn changing_the_setting_leaves_the_wallpaper_on_screen_alone() {
    for shuffle in [true, false] {
        let mut state = Playback::blank();
        state.play(list(6), !shuffle, seed(0));
        state.step(!shuffle, seed(1));
        state.step(!shuffle, seed(2));

        let showing = state.current().cloned();
        state.reorder(shuffle, seed(3));
        assert_eq!(state.current().cloned(), showing);
    }
}

#[test]
fn a_short_list_survives_being_shuffled() {
    let mut state = Playback::blank();
    state.play(list(1), true, seed(0));
    state.step(true, seed(1));
    assert_eq!(state.current(), Some(&"0.mp4".to_string()));

    let mut empty = Playback::blank();
    empty.play(Vec::new(), true, seed(2));
    empty.step(true, seed(3));
    assert_eq!(empty.current(), None);
}

#[test]
fn a_fixed_seed_gives_a_fixed_order() {
    let mut state = Playback::blank();
    state.play(list(5), true, 99);
    assert_eq!(state.order, shuffled(5, None, 99));
    assert_eq!(state.index, 0);
    assert_eq!(state.current_index(), state.order[0]);
}

#[test]
fn the_end_of_a_pass_draws_an_order_that_avoids_what_just_played() {
    let mut state = Playback::blank();
    state.play(list(3), true, 7);
    state.step(true, 8);
    state.step(true, 9);
    let last = state.current_index();
    state.step(true, 10);
    assert_eq!(state.index, 0);
    assert_eq!(state.order, shuffled(3, Some(last), 10));
    assert_ne!(state.current_index(), last);
}

#[test]
fn an_empty_monitor_stays_put() {
    let mut state = Playback::blank();
    assert!(state.enabled);
    assert_eq!(state.current_index(), 0);
    state.step(true, 1);
    assert_eq!(state.index, 0);
    assert!(state.order.is_empty());
    state.reorder(true, 2);
    assert!(state.current().is_none());
}
