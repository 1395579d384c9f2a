use phonoscule::console::{prepare, reaches, settle, Handle, Output};
use phonoscule::micro::{rest, EncoderSt, Gesture, KeySt, Led};
use phonoscule::sink::{room, Chunk, Endpoint, Fed, Out, Silence, Sink};
use phonoscule::volume::{last, rescan_due, Mixer, Stream};
use phonoscule::watcher::{counts, Change, Debounce, Wake};

const MILLI: u64 = 1_000_000;

#[test]
fn silence_paces_off_the_wall_clock() {
    let start: u64 = 7_000 * MILLI;
    let mut now = start;
    let mut silence = Silence::new(48000, now);
    for _ in 0..10 {
        if let Some(wait) = silence.write(4800, now) {
            now += wait as u64;
        }
    }
    let elapsed = now - start;
    assert!(elapsed >= 950 * MILLI, "a second of frames took only {elapsed:?}");
    assert!(elapsed < 2000 * MILLI, "a second of frames took {elapsed:?}");
    assert_eq!(elapsed, 1000 * MILLI);
}

#[test]
fn silence_does_not_accumulate_drift() {
    let mut silence = Silence::new(48000, 0);
    let late = 300 * MILLI;
    assert_eq!(silence.write(4800, late), None, "an overdue chunk still waited");
    assert_eq!(silence.write(4800, late), None);
    assert_eq!(silence.write(4800, late), Some(0));
    assert_eq!(silence.write(4800, late), Some(100 * MILLI as u128));
}

#[test]
fn a_stream_notices_when_it_is_no_longer_on_the_default_device() {
    let default = Some("{the-default}".to_string());
    let mut endpoint = Endpoint { id: "{the-default}".into(), checked: 0 };
    assert!(!endpoint.is_stale(&default), "just opened on the default endpoint, yet reported stale");
    endpoint.id = "{not-the-endpoint-we-are-on}".into();
    assert!(endpoint.is_stale(&default), "the default endpoint moved and the stream did not notice");
    assert!(!endpoint.is_stale(&None), "with no default there is nothing to follow");
    assert!(!endpoint.is_due(499 * MILLI));
    assert!(endpoint.is_due(500 * MILLI));
    assert!(!endpoint.is_due(501 * MILLI), "the check was just made");
}

#[test]
fn a_stale_stream_is_reopened_on_the_current_default() {
    assert!(Sink::reopens(Fed::Stale));
    assert!(Sink::reopens(Fed::Failed));
    assert!(!Sink::reopens(Fed::Taken));
    let reopened = Sink::new(48000, true, 0);
    assert_eq!(reopened.out, Out::Device, "reopening left no device");
}

#[test]
fn a_sink_without_a_device_takes_its_time() {
    let mut sink = Sink::new(48000, false, 0);
    assert_eq!(sink.write(0, 0), Chunk::Drop);
    assert_eq!(sink.write(48, 0), Chunk::Pass(Some(MILLI as u128)));
    assert!(sink.ensure_rate(44100) && !sink.ensure_rate(48000));
    let mut sink = Sink::new(48000, true, 0);
    assert_eq!(sink.write(48, 0), Chunk::Feed);
    assert_eq!((room(100, 40, 10), room(100, 95, 10), room(100, 100, 10)), (Some(10), Some(5), None));
}

#[test]
fn bursts_are_debounced_into_single_events() {
    let mut debounce = Debounce::Quiet;
    assert!(!debounce.step(Wake::Settled), "nothing happened yet");
    for _ in 0..3 {
        assert!(counts(Change::Other));
        assert!(!debounce.step(Wake::Event));
    }
    assert!(debounce.step(Wake::Settled), "the burst is reported once it is over");
    assert!(!debounce.step(Wake::Settled), "and only once");
    assert!(!counts(Change::Access), "reading a file changes nothing");
    debounce.step(Wake::Event);
    assert!(debounce.step(Wake::Settled), "the next burst is reported again");
    debounce.refused(true);
    debounce.step(Wake::Event);
    assert!(!debounce.step(Wake::Settled), "nobody listens any more");
    assert_eq!(debounce, Debounce::Over);
    let mut debounce = Debounce::Busy;
    debounce.refused(false);
    assert!(!debounce.step(Wake::Gone));
    assert_eq!(debounce, Debounce::Over);
}

#[test]
fn the_mixer_reports_our_own_streams_once() {
    let own = "42";
    let pid = |s: &str| Some(s.to_string());
    let mut mixer = Mixer::new();
    let stream = Stream { index: 3, channels: 2 };
    assert_eq!(mixer.digest(&pid("41"), own, stream, 50), None, "someone else's stream");
    assert_eq!(mixer.digest(&None, own, stream, 50), None);
    assert!(mixer.ours.is_empty());
    assert_eq!(mixer.digest(&pid("42"), own, stream, 50), Some(50));
    assert_eq!(mixer.digest(&pid("42"), own, stream, 50), None, "nothing new");
    assert_eq!(mixer.read(70), Some(70));
    assert_eq!(mixer.read(70), None);
    assert_eq!(mixer.ours, [stream]);
    mixer.remove(3);
    assert!(mixer.ours.is_empty());
    mixer.remove(3);
    assert_eq!((last(&vec![1, 2, 3]), last(&vec![])), (Some(3), None));
    assert!(rescan_due(None, 1, 0));
    assert!(!rescan_due(Some(0), 1, MILLI));
}

#[test]
fn the_button_taps_and_holds() {
    let mut key = KeySt::Free;
    key.press(0);
    assert_eq!(key.look(false, 100 * MILLI), Gesture::Idle);
    assert_eq!(key.look(true, 200 * MILLI), Gesture::Tapped);
    key.press(210 * MILLI);
    assert_eq!(key, KeySt::Released(200 * MILLI), "bouncing is not a press");
    assert_eq!(key.look(true, 241 * MILLI), Gesture::Idle);
    assert_eq!(key, KeySt::Free);
    key.press(300 * MILLI);
    assert_eq!(key.look(false, 541 * MILLI), Gesture::Held);
    assert_eq!(key.look(true, 600 * MILLI), Gesture::Idle, "too long for a tap");
    let mut led = Led { on: false };
    assert!(!led.take(Gesture::Tapped) && led.on);
    assert!(led.take(Gesture::Held) && led.on);
    assert_eq!((rest(3 * MILLI), rest(40 * MILLI)), (30 * MILLI, 0));
}

#[test]
fn the_encoder_counts_detents() {
    let mut encoder = EncoderSt::new();
    encoder.edge_a(false);
    encoder.edge_b(false);
    encoder.edge_a(true);
    encoder.edge_b(true);
    assert_eq!(encoder.take(), 1);
    assert_eq!(encoder.take(), 0);
    for _ in 0..2 {
        encoder.edge_b(false);
        encoder.edge_a(false);
        encoder.edge_b(true);
        encoder.edge_a(true);
    }
    assert_eq!(encoder.take(), -2);
    encoder.edge_a(false);
    encoder.edge_a(true);
    encoder.edge_a(false);
    assert_eq!(encoder.take(), 0, "bouncing turns nothing");
}

#[test]
fn output_goes_where_it_is_seen() {
    assert_eq!(prepare(), Output::Live);
    assert_eq!(settle(true, false), Handle::Restore);
    assert_eq!(settle(false, true), Handle::Keep);
    assert_eq!(settle(false, false), Handle::Discard);
    assert_eq!(reaches(false, false), Output::Discarded);
    assert_eq!(reaches(true, false), Output::Live);
}
