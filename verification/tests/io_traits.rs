use ring_buffer::{Read, ReadExact, RingBuffer, Write, WriteAll};

/// A toy source that hands out consecutive bytes, occasionally only a few at
/// a time, so `read_exact` has to retry across partial transfers.
struct Counter {
    next: u8,
    burst: usize,
}

impl Read<u8> for Counter {
    type Error = ();

    fn read(&mut self, buf: &mut [u8]) -> Result<usize, ()> {
        let n = self.burst.min(buf.len());
        for slot in buf.iter_mut().take(n) {
            *slot = self.next;
            self.next = self.next.wrapping_add(1);
        }
        Ok(n)
    }
}

impl ReadExact<u8> for Counter {
    fn read_exact(&mut self, buf: &mut [u8]) -> Result<usize, ()> {
        let mut done = 0;
        while done < buf.len() {
            let n = self.read(&mut buf[done..])?;
            if n == 0 {
                return Err(());
            }
            done += n;
        }
        Ok(done)
    }
}

/// A toy sink that records everything handed to it.
struct Recorder {
    seen: Vec<u8>,
    burst: usize,
}

impl Write<u8> for Recorder {
    type Error = ();

    fn write(&mut self, buf: &[u8]) -> Result<usize, ()> {
        let n = self.burst.min(buf.len());
        self.seen.extend_from_slice(&buf[..n]);
        Ok(n)
    }
}

impl WriteAll<u8> for Recorder {
    fn write_all(&mut self, buf: &[u8]) -> Result<usize, ()> {
        let mut done = 0;
        while done < buf.len() {
            let n = self.write(&buf[done..])?;
            if n == 0 {
                return Err(());
            }
            done += n;
        }
        Ok(done)
    }
}

#[test]
fn read_may_fill_a_prefix() {
    let mut src = Counter { next: 0, burst: 3 };
    let mut buf = [0u8; 8];
    assert_eq!(src.read(&mut buf), Ok(3));
    assert_eq!(&buf[..3], &[0, 1, 2]);
}

#[test]
fn read_exact_fills_completely() {
    let mut src = Counter { next: 10, burst: 3 };
    let mut buf = [0u8; 8];
    assert_eq!(src.read_exact(&mut buf), Ok(8));
    assert_eq!(buf, [10, 11, 12, 13, 14, 15, 16, 17]);
}

#[test]
fn write_all_drains_completely() {
    let mut sink = Recorder { seen: Vec::new(), burst: 2 };
    assert_eq!(sink.write(&[1, 2, 3, 4]), Ok(2));
    assert_eq!(sink.seen, vec![1, 2]);
    assert_eq!(sink.write_all(&[5, 6, 7]), Ok(3));
    assert_eq!(sink.seen, vec![1, 2, 5, 6, 7]);
}

#[test]
fn buffer_bridges_a_source_to_a_sink() {
    let mut src = Counter { next: 1, burst: 4 };
    let mut sink = Recorder { seen: Vec::new(), burst: 4 };
    let mut storage = [0u8; 4];
    let mut rb = RingBuffer::new(&mut storage).unwrap();

    let mut chunk = [0u8; 4];
    src.read_exact(&mut chunk).unwrap();
    for v in chunk {
        rb.push(v).unwrap();
    }
    let mut out = Vec::new();
    while let Ok(v) = rb.pop() {
        out.push(v);
    }
    sink.write_all(&out).unwrap();
    assert_eq!(sink.seen, vec![1, 2, 3, 4]);
}
