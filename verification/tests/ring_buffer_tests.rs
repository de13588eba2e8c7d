use sonnetics_core::ring_buffer::{RingBuffer, FRAME_SAMPLES, HOP_SAMPLES};

fn stream(n: usize) -> Vec<u32> {
    (0..n as u32).collect()
}

fn engine_ring() -> RingBuffer<u32> {
    RingBuffer::new(FRAME_SAMPLES + HOP_SAMPLES)
}

#[test]
fn new_ring_is_empty() {
    let r: RingBuffer<f32> = RingBuffer::new(8);
    assert_eq!(r.available(), 0);
    assert!(r.read_frame(0).is_empty());
}

#[test]
fn push_read_advance_wrap_around() {
    let mut r: RingBuffer<u32> = RingBuffer::new(4);
    for x in 1..=4 {
        r.push_one(x);
    }
    assert_eq!(r.read_frame(4), vec![1, 2, 3, 4]);
    r.advance(3);
    assert_eq!(r.available(), 1);
    r.push_one(5);
    r.push_one(6);
    r.push_one(7);
    assert_eq!(r.read_frame(4), vec![4, 5, 6, 7]);
    assert_eq!(r.read_frame(2), vec![4, 5]);
    r.advance(4);
    assert_eq!(r.available(), 0);
    r.push_one(8);
    assert_eq!(r.read_frame(1), vec![8]);
}

#[test]
fn short_input_gives_no_frame() {
    let mut r = engine_ring();
    let frames = r.push_and_drain(&stream(FRAME_SAMPLES - 1));
    assert!(frames.is_empty());
    assert_eq!(r.available(), FRAME_SAMPLES - 1);
}

#[test]
fn one_frame_then_one_hop_left_behind() {
    let mut r = engine_ring();
    let s = stream(FRAME_SAMPLES);
    let frames = r.push_and_drain(&s);
    assert_eq!(frames.len(), 1);
    assert_eq!(frames[0], s);
    assert_eq!(r.available(), FRAME_SAMPLES - HOP_SAMPLES);
    assert_eq!(r.read_frame(r.available()), s[HOP_SAMPLES..].to_vec());
}

#[test]
fn frames_are_hop_spaced_windows() {
    let n = 20000;
    let s = stream(n);
    let mut r = engine_ring();
    let frames = r.push_and_drain(&s);
    assert_eq!(frames.len(), (n - FRAME_SAMPLES) / HOP_SAMPLES + 1);
    assert_eq!(frames.len(), 5);
    for (k, f) in frames.iter().enumerate() {
        assert_eq!(f.len(), FRAME_SAMPLES);
        assert_eq!(f[..], s[k * HOP_SAMPLES..k * HOP_SAMPLES + FRAME_SAMPLES]);
    }
    assert_eq!(r.available(), n - 5 * HOP_SAMPLES);
    assert_eq!(r.read_frame(r.available()), s[5 * HOP_SAMPLES..].to_vec());
}

#[test]
fn chunked_input_frames_like_whole_input() {
    let s = stream(32000);
    let mut whole = engine_ring();
    let expected = whole.push_and_drain(&s);
    let mut chunked = engine_ring();
    let mut got = Vec::new();
    for chunk in s.chunks(2048) {
        got.extend(chunked.push_and_drain(chunk));
    }
    assert_eq!(got, expected);
    assert_eq!(got.len(), 8);
    assert_eq!(chunked.available(), whole.available());
    assert_eq!(chunked.read_frame(chunked.available()), whole.read_frame(whole.available()));
}

#[test]
fn two_seconds_of_silence_in_chunks() {
    let silence = vec![0.0f32; 16_000 * 2];
    let mut r: RingBuffer<f32> = RingBuffer::new(FRAME_SAMPLES + HOP_SAMPLES);
    let mut n = 0;
    for chunk in silence.chunks(2048) {
        let frames = r.push_and_drain(chunk);
        for f in &frames {
            assert_eq!(f.len(), FRAME_SAMPLES);
            assert!(f.iter().all(|&x| x == 0.0));
        }
        n += frames.len();
    }
    assert_eq!(n, 8);
}

#[test]
fn empty_push_changes_nothing() {
    let mut r = engine_ring();
    r.push_and_drain(&stream(100));
    let frames = r.push_and_drain(&[]);
    assert!(frames.is_empty());
    assert_eq!(r.read_frame(r.available()), stream(100));
}

#[test]
fn full_ring_is_drained_before_the_next_sample() {
    let mut r = engine_ring();
    let cap = FRAME_SAMPLES + HOP_SAMPLES;
    for x in 0..cap as u32 {
        r.push_one(x);
    }
    let frames = r.push_and_drain(&[cap as u32]);
    // whole stream 0..=cap: frames start at 0 and 3200, remainder from 6400
    assert_eq!(frames.len(), 2);
    assert_eq!(frames[0], stream(FRAME_SAMPLES));
    assert_eq!(frames[1], (HOP_SAMPLES as u32..(HOP_SAMPLES + FRAME_SAMPLES) as u32).collect::<Vec<_>>());
    assert_eq!(
        r.read_frame(r.available()),
        ((2 * HOP_SAMPLES) as u32..=cap as u32).collect::<Vec<_>>()
    );
}

#[test]
fn ring_smaller_than_a_frame_keeps_what_fits() {
    let mut r: RingBuffer<u32> = RingBuffer::new(5);
    r.push_one(100);
    let frames = r.push_and_drain(&stream(10));
    assert!(frames.is_empty());
    assert_eq!(r.read_frame(r.available()), vec![100, 0, 1, 2, 3]);
}

#[test]
fn zero_capacity_ring_keeps_nothing() {
    let mut r: RingBuffer<u32> = RingBuffer::new(0);
    let frames = r.push_and_drain(&stream(10));
    assert!(frames.is_empty());
    assert_eq!(r.available(), 0);
}

#[test]
fn ring_of_exactly_one_frame_still_frames_the_stream() {
    let s = stream(10000);
    let mut r: RingBuffer<u32> = RingBuffer::new(FRAME_SAMPLES);
    let frames = r.push_and_drain(&s);
    assert_eq!(frames.len(), 2);
    assert_eq!(frames[1][..], s[HOP_SAMPLES..HOP_SAMPLES + FRAME_SAMPLES]);
    assert_eq!(r.read_frame(r.available()), s[2 * HOP_SAMPLES..].to_vec());
}

#[test]
fn ring_is_first_in_first_out_over_any_calls() {
    let mut r: RingBuffer<u32> = RingBuffer::new(4);
    let mut pushed: Vec<u32> = Vec::new();
    let mut advanced = 0usize;
    let mut next = 0u32;
    // a fixed pattern of pushes (p) and advances (a<n>)
    let pattern: [(bool, usize); 12] = [
        (true, 0), (true, 0), (true, 0), (false, 2), (true, 0), (true, 0),
        (true, 0), (false, 3), (true, 0), (false, 0), (true, 0), (false, 1),
    ];
    for (push, n) in pattern {
        if push {
            r.push_one(next);
            pushed.push(next);
            next += 1;
        } else {
            r.advance(n);
            advanced += n;
        }
        assert!(r.available() <= 4);
        assert_eq!(r.read_frame(r.available()), pushed[advanced..].to_vec());
    }
}
