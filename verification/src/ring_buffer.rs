//! Fixed-size ring buffer of samples and the overlapping frames cut from it.
//!
//! A stream of samples is cut into frames of `FRAME_SAMPLES` samples, each
//! starting `HOP_SAMPLES` after the previous one. The ring holds the samples
//! that no complete frame has used up yet.

use vstd::prelude::*;
use vstd::arithmetic::div_mod::lemma_fundamental_div_mod_converse;

verus! {

/// Samples in one analysis frame (about 0.41 s at 16 kHz, 32 mel frames).
pub const FRAME_SAMPLES: usize = 6600;

/// Samples between the starts of two consecutive frames (0.2 s at 16 kHz).
pub const HOP_SAMPLES: usize = 3200;

/// The frames cut from a stream `s`: `s[0..F]`, `s[H..H+F]`, `s[2H..2H+F]`, ...,
/// as long as a whole frame is available.
pub open spec fn frame_windows<T>(s: Seq<T>) -> Seq<Seq<T>>
    decreases s.len(),
{
    if s.len() < FRAME_SAMPLES {
        Seq::empty()
    } else {
        seq![s.take(FRAME_SAMPLES as int)] + frame_windows(s.skip(HOP_SAMPLES as int))
    }
}

/// What is left of a stream `s` once every complete frame has been cut and
/// the stream advanced past it by one hop each.
pub open spec fn frame_remainder<T>(s: Seq<T>) -> Seq<T>
    decreases s.len(),
{
    if s.len() < FRAME_SAMPLES {
        s
    } else {
        frame_remainder(s.skip(HOP_SAMPLES as int))
    }
}

/// The first `n` elements of `s`, or all of `s` when it is shorter.
pub open spec fn keep_first<T>(s: Seq<T>, n: nat) -> Seq<T> {
    if s.len() <= n {
        s
    } else {
        s.take(n as int)
    }
}

/// The contents of a list of frames.
pub open spec fn frame_seqs<T>(frames: Seq<Vec<T>>) -> Seq<Seq<T>> {
    frames.map_values(|f: Vec<T>| f@)
}

/// For `0 <= x < 2c`, `x % c` is `x` or `x - c`.
proof fn lemma_mod_within_two(x: int, c: int)
    requires
        0 < c,
        0 <= x < 2 * c,
    ensures
        x % c == (if x < c { x } else { x - c }),
{
    if x < c {
        lemma_fundamental_div_mod_converse(x, c, 0, x);
    } else {
        lemma_fundamental_div_mod_converse(x, c, 1, x - c);
    }
}

/// Cutting one frame off a stream that holds at least one frame.
proof fn lemma_windows_step<T>(x: Seq<T>, t: Seq<T>)
    requires
        x.len() >= FRAME_SAMPLES,
    ensures
        frame_windows(x + t) == seq![x.take(FRAME_SAMPLES as int)] + frame_windows(
            x.skip(HOP_SAMPLES as int) + t,
        ),
        frame_remainder(x + t) == frame_remainder(x.skip(HOP_SAMPLES as int) + t),
{
    assert((x + t).take(FRAME_SAMPLES as int) =~= x.take(FRAME_SAMPLES as int));
    assert((x + t).skip(HOP_SAMPLES as int) =~= x.skip(HOP_SAMPLES as int) + t);
}

/// Framing a stream in two pieces gives what framing it at once gives: the
/// frames of `s`, then the frames of what `s` left over followed by `t`; and
/// the same samples are left over at the end.
pub proof fn lemma_windows_concat<T>(s: Seq<T>, t: Seq<T>)
    ensures
        frame_windows(s + t) == frame_windows(s) + frame_windows(frame_remainder(s) + t),
        frame_remainder(s + t) == frame_remainder(frame_remainder(s) + t),
    decreases s.len(),
{
    if s.len() < FRAME_SAMPLES {
        assert(frame_windows(s) + frame_windows(frame_remainder(s) + t) =~= frame_windows(s + t));
    } else {
        lemma_windows_step(s, t);
        lemma_windows_concat(s.skip(HOP_SAMPLES as int), t);
        let head = seq![s.take(FRAME_SAMPLES as int)];
        let w1 = frame_windows(s.skip(HOP_SAMPLES as int));
        let w2 = frame_windows(frame_remainder(s.skip(HOP_SAMPLES as int)) + t);
        assert(head + (w1 + w2) =~= (head + w1) + w2);
    }
}

/// Frame `k` of a stream is its `FRAME_SAMPLES` samples starting `k` hops in.
pub proof fn lemma_window_contents<T>(s: Seq<T>, k: int)
    requires
        0 <= k < frame_windows(s).len(),
    ensures
        frame_windows(s)[k] == s.subrange(
            k * HOP_SAMPLES as int,
            k * HOP_SAMPLES as int + FRAME_SAMPLES as int,
        ),
        frame_windows(s)[k].len() == FRAME_SAMPLES,
        k * HOP_SAMPLES + FRAME_SAMPLES <= s.len(),
    decreases s.len(),
{
    let h = HOP_SAMPLES as int;
    let f = FRAME_SAMPLES as int;
    if k == 0 {
        assert(s.take(f) =~= s.subrange(0, f));
    } else {
        let t = s.skip(h);
        lemma_window_contents(t, k - 1);
        assert(frame_windows(s)[k] == frame_windows(t)[k - 1]);
        assert(t.subrange((k - 1) * h, (k - 1) * h + f) =~= s.subrange(k * h, k * h + f));
    }
}

/// A stream of `n` samples yields no frame when `n < FRAME_SAMPLES`, and
/// `(n - FRAME_SAMPLES) / HOP_SAMPLES + 1` frames otherwise; what is left over
/// is the stream past the last hop, shorter than one frame.
pub proof fn lemma_window_count<T>(s: Seq<T>)
    ensures
        frame_windows(s).len() == (if s.len() < FRAME_SAMPLES {
            0
        } else {
            (s.len() - FRAME_SAMPLES) / (HOP_SAMPLES as int) + 1
        }),
        frame_remainder(s) == s.skip(frame_windows(s).len() * HOP_SAMPLES as int),
        frame_remainder(s).len() < FRAME_SAMPLES,
    decreases s.len(),
{
    let h = HOP_SAMPLES as int;
    let f = FRAME_SAMPLES as int;
    if s.len() < f {
        assert(s.skip(0) =~= s);
    } else {
        let t = s.skip(h);
        lemma_window_count(t);
        let n = s.len() - f;
        if t.len() < f {
            assert(n < h);
            assert(n / h == 0) by {
                lemma_fundamental_div_mod_converse(n, h, 0, n);
            }
        } else {
            assert(n / h == (n - h) / h + 1) by {
                lemma_fundamental_div_mod_converse(n - h, h, (n - h) / h, (n - h) % h);
                lemma_fundamental_div_mod_converse(n, h, (n - h) / h + 1, (n - h) % h);
            }
        }
        let m = frame_windows(t).len();
        assert(t.skip(m * h) =~= s.skip((m + 1) * h));
    }
}

/// A call that changes what a ring holds: `push_one` of a sample, or
/// `advance` by a number of samples.
pub enum RingOp<T> {
    Push(T),
    Advance(nat),
}

/// What a ring holding `q` holds after `op` (see `push_one` and `advance`).
pub open spec fn ring_step<T>(q: Seq<T>, op: RingOp<T>) -> Seq<T> {
    match op {
        RingOp::Push(x) => q.push(x),
        RingOp::Advance(n) => q.skip(n as int),
    }
}

/// What a new ring holds after `ops`, applied in order.
pub open spec fn replay<T>(ops: Seq<RingOp<T>>) -> Seq<T>
    decreases ops.len(),
{
    if ops.len() == 0 {
        Seq::empty()
    } else {
        ring_step(replay(ops.drop_last()), ops.last())
    }
}

/// Every call of `ops` is one that a ring of capacity `cap` admits: a push
/// while it holds fewer than `cap` samples, an advance by at most what it holds.
pub open spec fn replay_admitted<T>(ops: Seq<RingOp<T>>, cap: nat) -> bool
    decreases ops.len(),
{
    ops.len() == 0 || {
        &&& replay_admitted(ops.drop_last(), cap)
        &&& match ops.last() {
            RingOp::Push(_) => replay(ops.drop_last()).len() < cap,
            RingOp::Advance(n) => n <= replay(ops.drop_last()).len(),
        }
    }
}

/// The samples pushed by `ops`, in order.
pub open spec fn pushed<T>(ops: Seq<RingOp<T>>) -> Seq<T>
    decreases ops.len(),
{
    if ops.len() == 0 {
        Seq::empty()
    } else {
        match ops.last() {
            RingOp::Push(x) => pushed(ops.drop_last()).push(x),
            RingOp::Advance(_) => pushed(ops.drop_last()),
        }
    }
}

/// The number of samples advanced past by `ops`.
pub open spec fn advanced<T>(ops: Seq<RingOp<T>>) -> nat
    decreases ops.len(),
{
    if ops.len() == 0 {
        0
    } else {
        match ops.last() {
            RingOp::Push(_) => advanced(ops.drop_last()),
            RingOp::Advance(n) => advanced(ops.drop_last()) + n,
        }
    }
}

/// First in, first out: after any sequence of admitted calls, a ring of
/// capacity `cap` holds exactly the samples pushed so far, in push order,
/// minus the oldest ones advanced past, and never more than `cap` of them.
pub proof fn lemma_ring_fifo<T>(ops: Seq<RingOp<T>>, cap: nat)
    requires
        replay_admitted(ops, cap),
    ensures
        advanced(ops) <= pushed(ops).len(),
        replay(ops) == pushed(ops).skip(advanced(ops) as int),
        replay(ops).len() <= cap,
    decreases ops.len(),
{
    if ops.len() > 0 {
        let prev = ops.drop_last();
        lemma_ring_fifo(prev, cap);
        let p = pushed(prev);
        let a = advanced(prev) as int;
        match ops.last() {
            RingOp::Push(x) => {
                assert(p.skip(a).push(x) =~= p.push(x).skip(a));
            },
            RingOp::Advance(n) => {
                assert(p.skip(a).skip(n as int) =~= p.skip(a + n));
            },
        }
    }
}

/// The `len` samples of `buf` from slot `start` on, wrapping around its end.
pub open spec fn ring_contents<T>(buf: Seq<T>, capacity: int, start: int, len: nat) -> Seq<T> {
    Seq::new(len, |i: int| buf[(start + i) % capacity])
}

/// A ring of capacity `cap` that holds `q` after `calls` is first in, first
/// out: the calls were all admitted, and `q` is what they leave, namely the
/// samples pushed so far in push order minus the oldest ones advanced past.
pub open spec fn fifo_consistent<T>(q: Seq<T>, calls: Seq<RingOp<T>>, cap: nat) -> bool {
    &&& replay_admitted(calls, cap)
    &&& q == replay(calls)
    &&& q == pushed(calls).skip(advanced(calls) as int)
    &&& q.len() <= cap
}

/// One more call, seen through `replay`, `pushed`, `advanced` and `replay_admitted`.
proof fn lemma_call_step<T>(h: Seq<RingOp<T>>, op: RingOp<T>, cap: nat)
    ensures
        replay(h.push(op)) == ring_step(replay(h), op),
        pushed(h.push(op)) == (match op {
            RingOp::Push(x) => pushed(h).push(x),
            RingOp::Advance(_) => pushed(h),
        }),
        advanced(h.push(op)) == (match op {
            RingOp::Push(_) => advanced(h),
            RingOp::Advance(n) => advanced(h) + n,
        }),
        replay_admitted(h.push(op), cap) == (replay_admitted(h, cap) && match op {
            RingOp::Push(_) => replay(h).len() < cap,
            RingOp::Advance(n) => n <= replay(h).len(),
        }),
{
    assert(h.push(op).drop_last() =~= h);
}

/// Fixed-capacity ring buffer. Its contents (its view) are the `len` samples
/// stored from `start` on, wrapping around the end of `buf`. It keeps the log
/// of the calls that changed it, which its contents always replay.
pub struct RingBuffer<T> {
    buf: Vec<T>,
    capacity: usize,
    start: usize,
    len: usize,
    calls: Ghost<Seq<RingOp<T>>>,
}

impl<T> View for RingBuffer<T> {
    type V = Seq<T>;

    closed spec fn view(&self) -> Seq<T> {
        ring_contents(self.buf@, self.capacity as int, self.start as int, self.len as nat)
    }
}

impl<T> RingBuffer<T> {
    /// The buffer's fields agree with each other (`buf` has `capacity`
    /// slots, at most `capacity` of them are in use, `start` is a slot), and
    /// its contents are the replay of the admitted calls made on it.
    #[verifier::type_invariant]
    closed spec fn wf(&self) -> bool {
        &&& self.buf@.len() == self.capacity
        &&& self.len <= self.capacity
        &&& (self.capacity == 0 ==> self.start == 0)
        &&& (self.capacity > 0 ==> self.start < self.capacity)
        &&& replay_admitted(self.calls@, self.capacity as nat)
        &&& self@ == replay(self.calls@)
    }

    /// The number of samples the buffer can hold.
    pub closed spec fn spec_capacity(&self) -> nat {
        self.capacity as nat
    }

    /// The calls that changed the buffer since it was made, oldest first.
    pub closed spec fn calls(&self) -> Seq<RingOp<T>> {
        self.calls@
    }

    /// What the type invariant gives a caller: the buffer is first in, first out.
    proof fn lemma_fifo(&self)
        requires
            self.wf(),
        ensures
            fifo_consistent(self@, self.calls(), self.spec_capacity()),
    {
        lemma_ring_fifo(self.calls@, self.capacity as nat);
    }
}

impl<T: Copy> RingBuffer<T> {
    /// Position in `buf` of the `i`-th slot after `start`.
    fn slot(&self, i: usize) -> (r: usize)
        requires
            self.wf(),
            i < self.capacity,
        ensures
            r == (self.start + i) % (self.capacity as int),
            r < self.capacity,
    {
        proof {
            lemma_mod_within_two(self.start + i, self.capacity as int);
        }
        let room = self.capacity - self.start;
        if i < room {
            self.start + i
        } else {
            i - room
        }
    }

    /// An empty buffer that can hold `capacity` samples, with no calls made on it.
    pub fn new(capacity: usize) -> (r: Self)
        where
            T: Default,
        ensures
            r@ == Seq::<T>::empty(),
            r.spec_capacity() == capacity,
            r.calls() == Seq::<RingOp<T>>::empty(),
            fifo_consistent(r@, r.calls(), r.spec_capacity()),
    {
        let buf = vec![T::default(); capacity];
        assert(ring_contents(buf@, capacity as int, 0, 0) =~= replay(Seq::<RingOp<T>>::empty()));
        let r = RingBuffer { buf, capacity, start: 0, len: 0, calls: Ghost(Seq::empty()) };
        proof {
            r.lemma_fifo();
        }
        r
    }

    /// The number of samples held.
    pub fn available(&self) -> (r: usize)
        ensures
            r == self@.len(),
            r <= self.spec_capacity(),
            fifo_consistent(self@, self.calls(), self.spec_capacity()),
    {
        proof {
            use_type_invariant(self);
            self.lemma_fifo();
        }
        self.len
    }

    /// The first `n` samples held, oldest first; the buffer is unchanged.
    pub fn read_frame(&self, n: usize) -> (out: Vec<T>)
        requires
            n <= self@.len(),
        ensures
            out@ == self@.take(n as int),
            fifo_consistent(self@, self.calls(), self.spec_capacity()),
    {
        proof {
            use_type_invariant(self);
            self.lemma_fifo();
        }
        let mut out: Vec<T> = Vec::with_capacity(n);
        let mut i: usize = 0;
        while i < n
            invariant
                self.wf(),
                i <= n,
                n <= self.len,
                out@ =~= self@.take(i as int),
            decreases n - i,
        {
            let idx = self.slot(i);
            out.push(self.buf[idx]);
            i += 1;
        }
        out
    }

    /// An empty ring of capacity 0, put in place while a ring is rebuilt.
    fn placeholder() -> (r: Self) {
        assert(ring_contents(Seq::<T>::empty(), 0, 0, 0) =~= replay(Seq::<RingOp<T>>::empty()));
        RingBuffer { buf: Vec::new(), capacity: 0, start: 0, len: 0, calls: Ghost(Seq::empty()) }
    }

    /// Drop the `n` oldest samples.
    pub fn advance(&mut self, n: usize)
        requires
            old(self).spec_capacity() > 0,
            n <= old(self)@.len(),
        ensures
            final(self).spec_capacity() == old(self).spec_capacity(),
            final(self)@ == old(self)@.skip(n as int),
            final(self)@ == ring_step(old(self)@, RingOp::Advance(n as nat)),
            final(self).calls() == old(self).calls().push(RingOp::Advance(n as nat)),
            fifo_consistent(final(self)@, final(self).calls(), final(self).spec_capacity()),
    {
        proof {
            use_type_invariant(&*self);
            lemma_call_step(self.calls@, RingOp::Advance(n as nat), self.capacity as nat);
        }
        let ghost old_view = self@;
        let ghost s = self.start as int;
        let ghost c = self.capacity as int;
        proof {
            lemma_mod_within_two(s + n, c);
        }
        let room = self.capacity - self.start;
        let new_start = if n < room {
            self.start + n
        } else {
            n - room
        };
        let new_len = self.len - n;
        let ghost new_view = ring_contents(self.buf@, c, new_start as int, new_len as nat);
        assert forall|i: int| 0 <= i < new_len implies #[trigger] new_view[i] == old_view[n + i] by {
            lemma_mod_within_two(new_start + i, c);
            lemma_mod_within_two(s + n + i, c);
        }
        assert(new_view =~= old_view.skip(n as int));
        let mut taken = Self::placeholder();
        std::mem::swap(self, &mut taken);
        let RingBuffer { buf, capacity, start: _, len: _, calls } = taken;
        *self = RingBuffer {
            buf,
            capacity,
            start: new_start,
            len: new_len,
            calls: Ghost(calls@.push(RingOp::Advance(n as nat))),
        };
        proof {
            self.lemma_fifo();
        }
    }

    /// Append one sample after the newest.
    pub fn push_one(&mut self, sample: T)
        requires
            old(self)@.len() < old(self).spec_capacity(),
        ensures
            final(self).spec_capacity() == old(self).spec_capacity(),
            final(self)@ == old(self)@.push(sample),
            final(self)@ == ring_step(old(self)@, RingOp::Push(sample)),
            final(self).calls() == old(self).calls().push(RingOp::Push(sample)),
            fifo_consistent(final(self)@, final(self).calls(), final(self).spec_capacity()),
    {
        proof {
            use_type_invariant(&*self);
            lemma_call_step(self.calls@, RingOp::Push(sample), self.capacity as nat);
        }
        let ghost old_view = self@;
        let ghost s = self.start as int;
        let ghost c = self.capacity as int;
        let write_idx = self.slot(self.len);
        let mut taken = Self::placeholder();
        std::mem::swap(self, &mut taken);
        let RingBuffer { mut buf, capacity, start, len, calls } = taken;
        buf.set(write_idx, sample);
        let ghost new_view = ring_contents(buf@, c, s, (len + 1) as nat);
        assert forall|i: int| 0 <= i < len + 1 implies #[trigger] new_view[i] == old_view.push(
            sample,
        )[i] by {
            lemma_mod_within_two(s + i, c);
            lemma_mod_within_two(s + len, c);
        }
        assert(new_view =~= old_view.push(sample));
        *self = RingBuffer {
            buf,
            capacity,
            start,
            len: len + 1,
            calls: Ghost(calls@.push(RingOp::Push(sample))),
        };
        proof {
            self.lemma_fifo();
        }
    }

    /// Cut one frame off the front of the buffer and advance it by one hop.
    fn emit_frame(&mut self, frames: &mut Vec<Vec<T>>, rest: Ghost<Seq<T>>)
        requires
            old(self).spec_capacity() > 0,
            old(self)@.len() >= FRAME_SAMPLES,
        ensures
            final(self).spec_capacity() == old(self).spec_capacity(),
            final(self)@ == old(self)@.skip(HOP_SAMPLES as int),
            final(self).calls() == old(self).calls().push(RingOp::Advance(HOP_SAMPLES as nat)),
            frame_seqs(final(frames)@) + frame_windows(final(self)@ + rest@) == frame_seqs(
                old(frames)@,
            ) + frame_windows(old(self)@ + rest@),
            frame_remainder(final(self)@ + rest@) == frame_remainder(old(self)@ + rest@),
    {
        let ghost x = self@;
        let ghost fs = frame_seqs(frames@);
        proof {
            lemma_windows_step(x, rest@);
        }
        let frame = self.read_frame(FRAME_SAMPLES);
        frames.push(frame);
        self.advance(HOP_SAMPLES);
        let ghost tail = frame_windows(x.skip(HOP_SAMPLES as int) + rest@);
        assert(frame_seqs(frames@) =~= fs.push(x.take(FRAME_SAMPLES as int)));
        assert(fs.push(x.take(FRAME_SAMPLES as int)) + tail =~= fs + (seq![
            x.take(FRAME_SAMPLES as int),
        ] + tail));
    }

    /// Push `audio` sample by sample, cutting every frame that becomes
    /// complete. Returns the frames, oldest first; the buffer keeps what no
    /// frame has used up. A buffer too small to hold a frame never yields
    /// one: it keeps the samples that fit and drops the rest.
    pub fn push_and_drain(&mut self, audio: &[T]) -> (frames: Vec<Vec<T>>)
        ensures
            final(self).spec_capacity() == old(self).spec_capacity(),
            old(self).spec_capacity() >= FRAME_SAMPLES ==> {
                &&& frame_seqs(frames@) + frame_windows(final(self)@) == frame_windows(
                    old(self)@ + audio@,
                )
                &&& frame_remainder(final(self)@) == frame_remainder(old(self)@ + audio@)
            },
            old(self).spec_capacity() >= FRAME_SAMPLES && (audio@.len() > 0 || old(self)@.len()
                < FRAME_SAMPLES) ==> {
                &&& frame_seqs(frames@) == frame_windows(old(self)@ + audio@)
                &&& final(self)@ == frame_remainder(old(self)@ + audio@)
                &&& final(self)@.len() < FRAME_SAMPLES
            },
            old(self).spec_capacity() < FRAME_SAMPLES ==> frames@.len() == 0 && final(self)@
                == keep_first(old(self)@ + audio@, old(self).spec_capacity()),
            audio@.len() == 0 ==> frames@.len() == 0 && final(self)@ == old(self)@,
            old(self).calls().is_prefix_of(final(self).calls()),
            old(self).spec_capacity() >= FRAME_SAMPLES ==> pushed(final(self).calls()) == pushed(
                old(self).calls(),
            ) + audio@,
            fifo_consistent(final(self)@, final(self).calls(), final(self).spec_capacity()),
    {
        proof {
            use_type_invariant(&*self);
        }
        let ghost h0 = self.calls();
        assert(self.calls().take(h0.len() as int) =~= h0);
        assert(pushed(h0) + audio@.take(0) =~= pushed(h0));
        let ghost whole = self@ + audio@;
        let ghost cap = self.spec_capacity();
        let mut frames: Vec<Vec<T>> = Vec::new();
        let mut i: usize = 0;
        assert(self@ + audio@.skip(0) =~= whole);
        assert(frame_seqs(frames@) + frame_windows(whole) =~= frame_windows(whole));
        assert(old(self)@ + audio@.take(0) =~= old(self)@);
        while i < audio.len()
            invariant
                self.spec_capacity() == cap,
                i <= audio@.len(),
                whole == old(self)@ + audio@,
                h0 == old(self).calls(),
                self.calls().len() >= h0.len(),
                self.calls().take(h0.len() as int) == h0,
                cap >= FRAME_SAMPLES ==> pushed(self.calls()) == pushed(h0) + audio@.take(i as int),
                cap >= FRAME_SAMPLES ==> {
                    &&& frame_seqs(frames@) + frame_windows(self@ + audio@.skip(i as int))
                        == frame_windows(whole)
                    &&& frame_remainder(self@ + audio@.skip(i as int)) == frame_remainder(whole)
                    &&& i > 0 ==> self@.len() < FRAME_SAMPLES
                },
                cap < FRAME_SAMPLES ==> frames@.len() == 0 && self@ == keep_first(
                    old(self)@ + audio@.take(i as int),
                    cap,
                ),
                i == 0 ==> frames@.len() == 0 && self@ == old(self)@,
            decreases audio@.len() - i,
        {
            proof {
                use_type_invariant(&*self);
            }
            let sample = audio[i];
            let ghost rest = audio@.skip(i as int);
            let ghost prefix = old(self)@ + audio@.take(i as int);
            while self.len >= self.capacity && self.available() >= FRAME_SAMPLES
                invariant
                    self.spec_capacity() == cap,
                    self.calls().len() >= h0.len(),
                    self.calls().take(h0.len() as int) == h0,
                    cap >= FRAME_SAMPLES ==> pushed(self.calls()) == pushed(h0) + audio@.take(
                        i as int,
                    ),
                    cap >= FRAME_SAMPLES ==> {
                        &&& frame_seqs(frames@) + frame_windows(self@ + rest) == frame_windows(
                            whole,
                        )
                        &&& frame_remainder(self@ + rest) == frame_remainder(whole)
                    },
                    cap < FRAME_SAMPLES ==> frames@.len() == 0 && self@ == keep_first(prefix, cap),
                decreases self@.len(),
            {
                proof {
                    use_type_invariant(&*self);
                    lemma_call_step(self.calls(), RingOp::Advance(HOP_SAMPLES as nat), cap);
                }
                let ghost hc = self.calls();
                self.emit_frame(&mut frames, Ghost(rest));
                assert(self.calls().take(h0.len() as int) =~= hc.take(h0.len() as int));
            }
            proof {
                use_type_invariant(&*self);
            }
            let ghost before = self@;
            let ghost hc = self.calls();
            proof {
                lemma_call_step(hc, RingOp::Push(sample), cap);
            }
            if self.len < self.capacity {
                self.push_one(sample);
                assert(self.calls().take(h0.len() as int) =~= hc.take(h0.len() as int));
            }
            assert(audio@.take(i + 1) =~= audio@.take(i as int).push(sample));
            assert(pushed(h0) + audio@.take(i + 1) =~= (pushed(h0) + audio@.take(i as int)).push(
                sample,
            ));
            proof {
                if cap >= FRAME_SAMPLES {
                    assert(self@ + audio@.skip(i + 1) =~= before + rest);
                } else {
                    let longer = old(self)@ + audio@.take(i + 1);
                    assert(longer =~= prefix.push(sample));
                    if before.len() < cap {
                        assert(self@ =~= keep_first(longer, cap));
                    } else {
                        assert(keep_first(longer, cap) =~= keep_first(prefix, cap));
                    }
                }
            }
            i += 1;
            let ghost rest2 = audio@.skip(i as int);
            while self.available() >= FRAME_SAMPLES
                invariant
                    self.spec_capacity() == cap,
                    i <= audio@.len(),
                    self.calls().len() >= h0.len(),
                    self.calls().take(h0.len() as int) == h0,
                    cap >= FRAME_SAMPLES ==> pushed(self.calls()) == pushed(h0) + audio@.take(
                        i as int,
                    ),
                    cap >= FRAME_SAMPLES ==> {
                        &&& frame_seqs(frames@) + frame_windows(self@ + rest2) == frame_windows(
                            whole,
                        )
                        &&& frame_remainder(self@ + rest2) == frame_remainder(whole)
                    },
                    cap < FRAME_SAMPLES ==> frames@.len() == 0 && self@ == keep_first(
                        old(self)@ + audio@.take(i as int),
                        cap,
                    ),
                decreases self@.len(),
            {
                proof {
                    use_type_invariant(&*self);
                    lemma_call_step(self.calls(), RingOp::Advance(HOP_SAMPLES as nat), cap);
                }
                let ghost hc = self.calls();
                self.emit_frame(&mut frames, Ghost(rest2));
                assert(self.calls().take(h0.len() as int) =~= hc.take(h0.len() as int));
            }
        }
        assert(self@ + audio@.skip(i as int) =~= self@);
        assert(old(self)@ + audio@.take(i as int) =~= whole);
        assert(audio@.take(i as int) =~= audio@);
        proof {
            use_type_invariant(&*self);
            self.lemma_fifo();
        }
        proof {
            if cap >= FRAME_SAMPLES && (audio@.len() > 0 || old(self)@.len() < FRAME_SAMPLES) {
                assert(frame_seqs(frames@) + frame_windows(self@) =~= frame_seqs(frames@));
            }
        }
        frames
    }
}

} // verus!
