use phonoscule::hires::{HiResCache, Pixels, HIRES_CAP};
use std::sync::Arc;

fn pixels(byte: u8) -> Pixels {
    Arc::new(vec![byte])
}

/// The oldest entry is evicted when the cache overflows -- but a `touch` (as every on-screen
/// query does) makes an entry the freshest, so the window survives while colder covers go.
#[test]
fn evicts_the_least_recently_used() {
    let mut cache = HiResCache::new();
    for id in 0..HIRES_CAP as u64 {
        cache.complete(id, Some(pixels(0)));
    }
    // Refresh the oldest entry, then overflow by one.
    assert!(cache.touch(0));
    cache.complete(HIRES_CAP as u64, Some(pixels(1)));

    assert_eq!(cache.entries.len(), HIRES_CAP);
    assert!(cache.peek(0).is_some(), "the touched entry must survive");
    assert!(cache.peek(1).is_none(), "the now-oldest entry must be evicted");
    assert!(cache.peek(HIRES_CAP as u64).is_some(), "the newcomer must be resident");
}

/// `peek` is a probe, not a use: hammering it must not protect an entry from eviction (only
/// `query`, via `touch`, promotes -- once per album move, not once per frame).
#[test]
fn peek_does_not_promote() {
    let mut cache = HiResCache::new();
    for id in 0..HIRES_CAP as u64 {
        cache.complete(id, Some(pixels(0)));
    }
    for _ in 0..5 {
        assert!(cache.peek(0).is_some());
    }
    cache.complete(HIRES_CAP as u64, Some(pixels(1)));
    assert!(cache.peek(0).is_none(), "peek must not have promoted the oldest entry");
}

/// A failed decode clears the in-flight mark but stores nothing, leaving the cover on its
/// thumbnail -- and lets a later query retry it rather than being deduplicated forever.
#[test]
fn failed_decode_stores_nothing_and_reopens_the_query() {
    let mut cache = HiResCache::new();
    cache.pending.push(9);
    cache.complete(9, None);
    assert!(cache.peek(9).is_none());
    assert!(!cache.pending.contains(&9), "a failed decode must clear the pending mark");
}

/// A cover is decoded once however often it is asked for, and its pixels are those of the decode.
#[test]
fn a_cover_in_flight_is_not_demanded_again() {
    let mut cache = HiResCache::new();
    assert!(cache.query(3), "the first query demands a decode");
    assert!(!cache.query(3), "it is in flight");
    cache.complete(3, Some(pixels(7)));
    assert!(!cache.query(3), "it is resident");
    assert_eq!(**cache.peek(3).unwrap(), vec![7]);
}
