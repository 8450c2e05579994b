//! Length-prefixed framing: every frame on a stream is an 8-byte big-endian
//! unsigned length `L` followed by `L` bytes of payload.
use vstd::prelude::*;

verus! {

/// The length of a frame header.
pub const HEADER_LEN: usize = 8;

/// `256` to the power `k`.
pub open spec fn pow256(k: nat) -> nat
    decreases k,
{
    if k == 0 {
        1
    } else {
        256 * pow256((k - 1) as nat)
    }
}

/// The unsigned integer that the bytes `s` hold, most significant first.
pub open spec fn be_value(s: Seq<u8>) -> nat
    decreases s.len(),
{
    if s.len() == 0 {
        0
    } else {
        (be_value(s.drop_last()) * 256 + s.last()) as nat
    }
}

/// The `k` lowest base-256 digits of `n`, most significant first.
pub open spec fn be_bytes(n: nat, k: nat) -> Seq<u8>
    decreases k,
{
    if k == 0 {
        Seq::empty()
    } else {
        be_bytes(n / 256, (k - 1) as nat).push((n % 256) as u8)
    }
}

/// The bytes of one frame that carries the payload `p`.
pub open spec fn frame_of(p: Seq<u8>) -> Seq<u8> {
    be_bytes(p.len(), 8) + p
}

/// The payload length that the header at the front of `s` declares.
pub open spec fn declared_len(s: Seq<u8>) -> nat {
    be_value(s.subrange(0, 8))
}

/// Whether a whole frame, header and payload, stands at the front of `s`.
pub open spec fn has_frame(s: Seq<u8>) -> bool {
    s.len() >= 8 && s.len() - 8 >= declared_len(s)
}

/// The payloads of the whole frames at the front of `s`, in order, and the
/// bytes that are left after them (the start of a frame not yet complete).
pub open spec fn split_frames(s: Seq<u8>) -> (Seq<Seq<u8>>, Seq<u8>)
    decreases s.len(),
{
    if has_frame(s) {
        let end = 8 + declared_len(s);
        let rest = split_frames(s.subrange(end as int, s.len() as int));
        (seq![s.subrange(8, end as int)] + rest.0, rest.1)
    } else {
        (Seq::empty(), s)
    }
}

/// What a reader that holds `buf` hands out when the chunks `chunks` arrive
/// one after another, and what it holds at the end.
pub open spec fn feed_chunks(buf: Seq<u8>, chunks: Seq<Seq<u8>>) -> (Seq<Seq<u8>>, Seq<u8>)
    decreases chunks.len(),
{
    if chunks.len() == 0 {
        (Seq::empty(), buf)
    } else {
        let step = split_frames(buf + chunks[0]);
        let rest = feed_chunks(step.1, chunks.drop_first());
        (step.0 + rest.0, rest.1)
    }
}

/// The contents of a vector of byte vectors.
pub open spec fn payloads(v: Seq<Vec<u8>>) -> Seq<Seq<u8>> {
    v.map_values(|f: Vec<u8>| f@)
}

pub proof fn lemma_be_value_bound(s: Seq<u8>)
    ensures
        be_value(s) < pow256(s.len()),
    decreases s.len(),
{
    if s.len() > 0 {
        lemma_be_value_bound(s.drop_last());
        let v = be_value(s.drop_last());
        let p = pow256((s.len() - 1) as nat);
        let b = s.last() as nat;
        assert(v * 256 + b < 256 * p) by (nonlinear_arith)
            requires
                v < p,
                b < 256,
        ;
    }
}

pub proof fn lemma_be_round_trip(n: nat, k: nat)
    requires
        n < pow256(k),
    ensures
        be_bytes(n, k).len() == k,
        be_value(be_bytes(n, k)) == n,
    decreases k,
{
    if k > 0 {
        let p = pow256((k - 1) as nat);
        assert(n / 256 < p) by (nonlinear_arith)
            requires
                n < 256 * p,
        ;
        lemma_be_round_trip(n / 256, (k - 1) as nat);
        let s = be_bytes(n, k);
        assert(s.drop_last() =~= be_bytes(n / 256, (k - 1) as nat));
    }
}

pub proof fn lemma_pow256_8()
    ensures
        pow256(8) == 0x1_0000_0000_0000_0000,
{
    reveal_with_fuel(pow256, 9);
}

/// A frame decodes to its own payload, and nothing is left over.
pub proof fn lemma_frame_of(p: Seq<u8>)
    requires
        p.len() <= u64::MAX,
    ensures
        frame_of(p).len() == 8 + p.len(),
        has_frame(frame_of(p)),
        declared_len(frame_of(p)) == p.len(),
        split_frames(frame_of(p)) == (seq![p], Seq::<u8>::empty()),
{
    lemma_pow256_8();
    lemma_be_round_trip(p.len(), 8);
    let f = frame_of(p);
    assert(f.subrange(0, 8) =~= be_bytes(p.len(), 8));
    assert(f.subrange(8, 8 + p.len() as int) =~= p);
    let rest = f.subrange(8 + p.len() as int, f.len() as int);
    assert(rest =~= Seq::<u8>::empty());
    assert(!has_frame(rest));
    assert(split_frames(rest) == (Seq::<Seq<u8>>::empty(), rest));
    assert(split_frames(f).0 =~= seq![p]);
    assert(split_frames(f).1 =~= Seq::<u8>::empty());
}

/// Splitting a stream in two places changes nothing: what follows the frames
/// of `x` is split together with the bytes `y` that come after it.
pub proof fn lemma_split_append(x: Seq<u8>, y: Seq<u8>)
    ensures
        split_frames(x + y) == (
            split_frames(x).0 + split_frames(split_frames(x).1 + y).0,
            split_frames(split_frames(x).1 + y).1,
        ),
    decreases x.len(),
{
    if has_frame(x) {
        let end = 8 + declared_len(x);
        let xy = x + y;
        assert(xy.subrange(0, 8) =~= x.subrange(0, 8));
        assert(xy.subrange(8, end as int) =~= x.subrange(8, end as int));
        let xr = x.subrange(end as int, x.len() as int);
        assert(xy.subrange(end as int, xy.len() as int) =~= xr + y);
        lemma_split_append(xr, y);
        let tail = split_frames(split_frames(xr).1 + y);
        assert(split_frames(xy).0 =~= split_frames(x).0 + tail.0);
    } else {
        assert(split_frames(x).0 + split_frames(x + y).0 =~= split_frames(x + y).0);
    }
}

/// Feeding chunks one by one hands out the frames of their concatenation, so a
/// reader's output does not depend on how the stream was cut into reads.
pub proof fn lemma_feed_chunks(buf: Seq<u8>, chunks: Seq<Seq<u8>>)
    requires
        !has_frame(buf),
    ensures
        feed_chunks(buf, chunks) == split_frames(buf + chunks.flatten()),
    decreases chunks.len(),
{
    if chunks.len() == 0 {
        assert(buf + chunks.flatten() =~= buf);
    } else {
        let head = buf + chunks[0];
        let step = split_frames(head);
        lemma_split_rest_has_no_frame(head);
        lemma_feed_chunks(step.1, chunks.drop_first());
        lemma_split_append(head, chunks.drop_first().flatten());
        assert(buf + chunks.flatten() =~= head + chunks.drop_first().flatten());
    }
}

/// What `split_frames` leaves over holds no whole frame.
pub proof fn lemma_split_rest_has_no_frame(s: Seq<u8>)
    ensures
        !has_frame(split_frames(s).1),
        split_frames(split_frames(s).1) == (Seq::<Seq<u8>>::empty(), split_frames(s).1),
    decreases s.len(),
{
    if has_frame(s) {
        let end = 8 + declared_len(s);
        lemma_split_rest_has_no_frame(s.subrange(end as int, s.len() as int));
    }
}

/// A payload framed with its length comes out of the reader exactly once and
/// unchanged, whether the frame arrives in one read or cut into any number of
/// partial reads.
pub proof fn lemma_one_frame_any_split(p: Seq<u8>, chunks: Seq<Seq<u8>>)
    requires
        p.len() <= u64::MAX,
        chunks.flatten() == frame_of(p),
    ensures
        feed_chunks(Seq::empty(), chunks) == (seq![p], Seq::<u8>::empty()),
{
    assert(!has_frame(Seq::<u8>::empty()));
    lemma_feed_chunks(Seq::empty(), chunks);
    assert(Seq::<u8>::empty() + chunks.flatten() =~= frame_of(p));
    lemma_frame_of(p);
}

/// Two frames that arrive in a single read come out as two payloads, in order.
pub proof fn lemma_two_frames_one_read(p: Seq<u8>, q: Seq<u8>)
    requires
        p.len() <= u64::MAX,
        q.len() <= u64::MAX,
    ensures
        split_frames(frame_of(p) + frame_of(q)) == (seq![p, q], Seq::<u8>::empty()),
{
    lemma_frame_of(p);
    lemma_frame_of(q);
    lemma_split_append(frame_of(p), frame_of(q));
    assert(Seq::<u8>::empty() + frame_of(q) =~= frame_of(q));
    assert(seq![p] + seq![q] =~= seq![p, q]);
}

/// A frame whose bytes have not all arrived is not handed out: the reader keeps
/// every byte and waits for the rest.
pub proof fn lemma_incomplete_frame_waits(p: Seq<u8>, k: int)
    requires
        p.len() <= u64::MAX,
        0 <= k < frame_of(p).len(),
    ensures
        split_frames(frame_of(p).subrange(0, k)) == (Seq::<Seq<u8>>::empty(), frame_of(p).subrange(0, k)),
{
    lemma_frame_of(p);
    let s = frame_of(p).subrange(0, k);
    assert(s.len() == k);
    if k >= 8 {
        assert(s.subrange(0, 8) =~= frame_of(p).subrange(0, 8));
        assert(declared_len(s) == p.len());
    }
    assert(!has_frame(s));
}

/// Appends the `k` lowest base-256 digits of `n`, most significant first.
fn push_be(out: &mut Vec<u8>, n: u64, k: usize)
    ensures
        final(out)@ == old(out)@ + be_bytes(n as nat, k as nat),
    decreases k,
{
    if k > 0 {
        push_be(out, n / 256, k - 1);
        out.push((n % 256) as u8);
        assert(final(out)@ =~= old(out)@ + be_bytes(n as nat, k as nat));
    }
}

/// Reads the big-endian length in the eight bytes of `s` from `pos` on.
fn read_len(s: &Vec<u8>, pos: usize) -> (r: u64)
    requires
        pos + 8 <= s@.len(),
    ensures
        r as nat == be_value(s@.subrange(pos as int, pos + 8)),
{
    let n = s.len();
    let mut v: u64 = 0;
    let mut i: usize = 0;
    while i < 8
        invariant
            i <= 8,
            n == s@.len(),
            pos + 8 <= s@.len(),
            v as nat == be_value(s@.subrange(pos as int, pos + i)),
        decreases 8 - i,
    {
        proof {
            let part = s@.subrange(pos as int, pos + i + 1);
            assert(part.drop_last() =~= s@.subrange(pos as int, pos + i));
            lemma_be_value_bound(s@.subrange(pos as int, pos + i));
            lemma_be_value_bound(part);
            reveal_with_fuel(pow256, 9);
        }
        v = v * 256 + s[pos + i] as u64;
        i = i + 1;
    }
    v
}

/// Copies the bytes of `s` from `start` up to `end`.
fn copy_range(s: &Vec<u8>, start: usize, end: usize) -> (r: Vec<u8>)
    requires
        start <= end <= s@.len(),
    ensures
        r@ == s@.subrange(start as int, end as int),
{
    let mut r: Vec<u8> = Vec::with_capacity(end - start);
    let mut i: usize = start;
    while i < end
        invariant
            start <= i <= end <= s@.len(),
            r@ == s@.subrange(start as int, i as int),
        decreases end - i,
    {
        r.push(s[i]);
        i = i + 1;
        assert(r@ =~= s@.subrange(start as int, i as int));
    }
    r
}

/// The bytes of one frame that carries `payload`.
pub fn encode_frame(payload: &[u8]) -> (r: Vec<u8>)
    requires
        payload@.len() <= u64::MAX,
    ensures
        r@ == frame_of(payload@),
{
    let mut r: Vec<u8> = Vec::new();
    push_be(&mut r, payload.len() as u64, HEADER_LEN);
    let mut i: usize = 0;
    while i < payload.len()
        invariant
            i <= payload@.len(),
            r@ == be_bytes(payload@.len(), 8) + payload@.subrange(0, i as int),
        decreases payload@.len() - i,
    {
        r.push(payload[i]);
        i = i + 1;
        assert(r@ =~= be_bytes(payload@.len(), 8) + payload@.subrange(0, i as int));
    }
    assert(payload@.subrange(0, i as int) =~= payload@);
    r
}

/// The per-stream frame reader. It keeps the bytes received so far that do
/// not yet make a whole frame, and hands out each frame's payload as soon as
/// its last byte arrives.
pub struct FrameReader {
    buf: Vec<u8>,
}

impl View for FrameReader {
    type V = Seq<u8>;

    closed spec fn view(&self) -> Seq<u8> {
        self.buf@
    }
}

impl FrameReader {
    /// The bytes held never make a whole frame: each was handed out.
    pub open spec fn wf(&self) -> bool {
        !has_frame(self@)
    }

    /// A reader that holds nothing.
    pub fn new() -> (r: FrameReader)
        ensures
            r@ == Seq::<u8>::empty(),
            r.wf(),
    {
        FrameReader { buf: Vec::new() }
    }

    /// The number of bytes held that wait for the rest of their frame.
    pub fn pending_len(&self) -> (r: usize)
        ensures
            r == self@.len(),
    {
        self.buf.len()
    }

    /// Takes the bytes of one read and hands out, in order, the payloads of
    /// all the frames that are now whole. The bytes of a frame not yet
    /// complete stay held.
    pub fn feed(&mut self, bytes: &[u8]) -> (frames: Vec<Vec<u8>>)
        requires
            old(self).wf(),
        ensures
            payloads(frames@) == split_frames(old(self)@ + bytes@).0,
            final(self)@ == split_frames(old(self)@ + bytes@).1,
            final(self).wf(),
    {
        let ghost all = self@ + bytes@;
        let mut j: usize = 0;
        while j < bytes.len()
            invariant
                j <= bytes@.len(),
                self.buf@ == old(self)@ + bytes@.subrange(0, j as int),
            decreases bytes@.len() - j,
        {
            self.buf.push(bytes[j]);
            j = j + 1;
            assert(self.buf@ =~= old(self)@ + bytes@.subrange(0, j as int));
        }
        assert(bytes@.subrange(0, j as int) =~= bytes@);
        let len = self.buf.len();
        let mut frames: Vec<Vec<u8>> = Vec::new();
        let mut pos: usize = 0;
        let mut waiting = false;
        assert(self.buf@.subrange(0, len as int) =~= all);
        while !waiting && len - pos >= HEADER_LEN
            invariant
                pos <= len == self.buf@.len(),
                waiting ==> !has_frame(all.subrange(pos as int, len as int)),
                self.buf@ == all,
                split_frames(all) == (
                    payloads(frames@) + split_frames(all.subrange(pos as int, len as int)).0,
                    split_frames(all.subrange(pos as int, len as int)).1,
                ),
            decreases len - pos + (if waiting { 0int } else { 1int }),
        {
            let ghost tail = all.subrange(pos as int, len as int);
            let l = read_len(&self.buf, pos);
            assert(tail.subrange(0, 8) =~= all.subrange(pos as int, pos + 8));
            if ((len - pos - HEADER_LEN) as u64) < l {
                waiting = true;
            } else {
            let end = pos + HEADER_LEN + l as usize;
            let payload = copy_range(&self.buf, pos + HEADER_LEN, end);
            assert(payload@ =~= tail.subrange(8, 8 + l as int));
            assert(all.subrange(end as int, len as int) =~= tail.subrange(8 + l as int, tail.len() as int));
            let ghost before = frames@;
            frames.push(payload);
            assert(payloads(frames@) =~= payloads(before) + seq![payload@]);
            assert(split_frames(all).0 =~= payloads(frames@) + split_frames(all.subrange(end as int, len as int)).0);
            pos = end;
            }
        }
        let rest = copy_range(&self.buf, pos, len);
        proof {
            let tail = all.subrange(pos as int, len as int);
            assert(!has_frame(tail));
            assert(payloads(frames@) + Seq::<Seq<u8>>::empty() =~= payloads(frames@));
        }
        self.buf = rest;
        frames
    }
}

} // verus!
