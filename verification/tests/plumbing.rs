use phonoscule::plumbing::{ConnectSink, ConnectSource, Sink, SinkInput, Source, SourceOutput};

/// Counts up, to a limit.
struct Counter {
    next: u32,
    limit: u32,
}

impl Source<u32> for Counter {
    fn read_samples(&mut self, buf: &mut [u32]) -> Option<usize> {
        let n = buf.len().min((self.limit - self.next) as usize);
        for slot in &mut buf[..n] {
            *slot = self.next;
            self.next += 1;
        }
        Some(n)
    }
}

/// Keeps what it takes, four samples at a time.
struct Tape {
    kept: Vec<u32>,
}

impl SourceOutput<u32> for Tape {
    fn read_samples_from<S: Source<u32>>(&mut self, source: &mut S) -> Option<u64> {
        let mut buf = [0; 4];
        let n = source.read_samples(&mut buf)?;
        self.kept.extend_from_slice(&buf[..n]);
        Some(n as u64)
    }
}

impl Sink<u32> for Tape {
    fn write_samples(&mut self, buf: &[u32]) -> Option<usize> {
        let n = buf.len().min(4);
        self.kept.extend_from_slice(&buf[..n]);
        Some(n)
    }
}

/// Hands out what it has left.
struct Queued {
    left: Vec<u32>,
}

impl SinkInput<u32> for Queued {
    fn write_samples_to<S: Sink<u32>>(&mut self, sink: &mut S) -> Option<u64> {
        let n = sink.write_samples(&self.left)?;
        self.left.drain(..n);
        Some(n as u64)
    }
}

#[test]
fn a_source_is_pulled_into_its_output() {
    let mut connected = ConnectSource::to_output(Counter { next: 0, limit: 10 }, Tape { kept: vec![] });
    assert_eq!(connected.pull(), Some(4));
    connected.source_mut().next = 7;
    assert_eq!(connected.pull(), Some(3));
    assert_eq!(connected.pull(), Some(0));
    assert_eq!(connected.out.kept, [0, 1, 2, 3, 7, 8, 9]);
}

#[test]
fn an_input_is_pushed_into_its_sink() {
    let mut connected = ConnectSink::from_input(Queued { left: vec![1, 2, 3, 4, 5] }, Tape { kept: vec![] });
    assert_eq!(connected.push(), Some(4));
    assert_eq!(connected.push(), Some(1));
    assert_eq!(connected.push(), Some(0));
    assert_eq!(connected.sink.kept, [1, 2, 3, 4, 5]);
}
