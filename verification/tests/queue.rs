use phonoscule::queue::{random, seed_from, shuffle, Grouping, Scope};

/// Two albums: slots 0-2 are one, slots 3-4 the other.
const ALBUMS: [u64; 5] = [1, 1, 1, 2, 2];

/// Whatever the shuffle, every slot is present exactly once -- it is a permutation, and a queue
/// that lost or duplicated a track would be a bug the caller could not detect.
#[test]
fn every_shuffle_is_a_permutation() {
    for grouping in [Grouping::Tracks, Grouping::Albums] {
        for scope in [Scope::All, Scope::Others] {
            for seed in 0..32 {
                let mut order = shuffle(&ALBUMS, 1, grouping, scope, seed);
                order.sort_unstable();
                assert_eq!(order, [0, 1, 2, 3, 4], "{grouping:?} {scope:?} seed {seed}");
            }
        }
    }
}

/// Grouping by album keeps each album's tracks together and in their queue order; only the albums
/// move.
#[test]
fn shuffling_albums_keeps_their_tracks_together() {
    for seed in 0..32 {
        let order = shuffle(&ALBUMS, 0, Grouping::Albums, Scope::All, seed);
        let keys: Vec<u64> = order.iter().map(|&ix| ALBUMS[ix]).collect();
        let first = keys[0];
        let split = keys.iter().position(|&k| k != first).expect("both albums are present");
        assert!(keys[split..].iter().all(|&k| k != first), "an album's tracks are contiguous: {keys:?}");
        let slots: Vec<usize> = order.iter().copied().filter(|&ix| ALBUMS[ix] == 1).collect();
        assert_eq!(slots, [0, 1, 2], "and stay in their queue order");
    }
}

/// Shuffling the others leaves the playing slot at the front, so playback carries on and nothing
/// ends up behind the cursor.
#[test]
fn shuffling_the_others_leaves_the_playing_track_in_front() {
    for seed in 0..32 {
        let order = shuffle(&ALBUMS, 3, Grouping::Tracks, Scope::Others, seed);
        assert_eq!(order[0], 3, "the playing slot leads");
    }
    // Grouped by album, the playing album leads whole, in its own order.
    for seed in 0..32 {
        let order = shuffle(&ALBUMS, 4, Grouping::Albums, Scope::Others, seed);
        assert_eq!(&order[..2], [3, 4], "the playing album leads, its tracks in order");
    }
}

/// The same seed shuffles the same way, which is what makes the above worth asserting.
#[test]
fn a_seed_settles_the_order() {
    let once = shuffle(&ALBUMS, 0, Grouping::Tracks, Scope::All, 12345);
    let again = shuffle(&ALBUMS, 0, Grouping::Tracks, Scope::All, 12345);
    assert_eq!(once, again);
    assert_ne!(once, shuffle(&ALBUMS, 0, Grouping::Tracks, Scope::All, 54321), "a different seed differs");
}

#[test]
fn an_empty_queue_shuffles_to_nothing() {
    assert!(shuffle(&[], 0, Grouping::Albums, Scope::All, 1).is_empty());
}

/// The generator's first draws from seed 0, as published for it.
#[test]
fn the_generator_draws_its_known_sequence() {
    let mut rng = random(0);
    assert_eq!(rng.next(), 0xe220_a839_7b1d_cdaf);
    assert_eq!(rng.next(), 0x6e78_9e6a_a1b9_65f4);
}

#[test]
fn a_clock_before_the_epoch_still_seeds() {
    assert_eq!(seed_from(Some(7)), 7);
    let none = seed_from(None);
    assert_eq!(none, seed_from(None));
}
