//! The stream dispatcher: one frame reader per open bidirectional stream of a
//! session, each fed only the bytes read from its own stream.
use vstd::prelude::*;
use std::collections::HashMap;

use crate::frame::{feed_chunks, has_frame, lemma_feed_chunks, payloads, split_frames, FrameReader};

verus! {

broadcast use vstd::std_specs::hash::group_hash_axioms;

/// The buffers after the bytes `bytes` of stream `id` arrive, and the payloads
/// handed out for that stream. Bytes of a stream that is not open are dropped.
pub open spec fn route_step(bufs: Map<u64, Seq<u8>>, id: u64, bytes: Seq<u8>) -> (
    Map<u64, Seq<u8>>,
    Seq<Seq<u8>>,
) {
    if bufs.contains_key(id) {
        let r = split_frames(bufs[id] + bytes);
        (bufs.insert(id, r.1), r.0)
    } else {
        (bufs, Seq::empty())
    }
}

/// The payloads handed out for stream `k` when the reads `events`, each tagged
/// with its stream, arrive in that order.
pub open spec fn delivered(bufs: Map<u64, Seq<u8>>, events: Seq<(u64, Seq<u8>)>, k: u64) -> Seq<
    Seq<u8>,
>
    decreases events.len(),
{
    if events.len() == 0 {
        Seq::empty()
    } else {
        let step = route_step(bufs, events[0].0, events[0].1);
        let mine = if events[0].0 == k {
            step.1
        } else {
            Seq::empty()
        };
        mine + delivered(step.0, events.drop_first(), k)
    }
}

/// The reads of `events` that came from stream `k`, in order.
pub open spec fn chunks_for(events: Seq<(u64, Seq<u8>)>, k: u64) -> Seq<Seq<u8>>
    decreases events.len(),
{
    if events.len() == 0 {
        Seq::empty()
    } else {
        let rest = chunks_for(events.drop_first(), k);
        if events[0].0 == k {
            seq![events[0].1] + rest
        } else {
            rest
        }
    }
}

/// However the reads of several streams interleave, the payloads handed out
/// for one stream are exactly the frames of the bytes read from that stream.
pub proof fn lemma_no_cross_stream_mixing(
    bufs: Map<u64, Seq<u8>>,
    events: Seq<(u64, Seq<u8>)>,
    k: u64,
)
    requires
        bufs.contains_key(k),
        !has_frame(bufs[k]),
    ensures
        delivered(bufs, events, k) == split_frames(bufs[k] + chunks_for(events, k).flatten()).0,
{
    lemma_delivered_is_fed(bufs, events, k);
    lemma_feed_chunks(bufs[k], chunks_for(events, k));
}

proof fn lemma_delivered_is_fed(bufs: Map<u64, Seq<u8>>, events: Seq<(u64, Seq<u8>)>, k: u64)
    requires
        bufs.contains_key(k),
    ensures
        delivered(bufs, events, k) == feed_chunks(bufs[k], chunks_for(events, k)).0,
    decreases events.len(),
{
    if events.len() > 0 {
        let step = route_step(bufs, events[0].0, events[0].1);
        lemma_delivered_is_fed(step.0, events.drop_first(), k);
        let rest = chunks_for(events.drop_first(), k);
        if events[0].0 == k {
            let cs = chunks_for(events, k);
            assert(cs[0] == events[0].1);
            assert(cs.drop_first() =~= rest);
        } else {
            assert(step.0[k] == bufs[k]);
            assert(Seq::<Seq<u8>>::empty() + delivered(step.0, events.drop_first(), k) =~= delivered(
                step.0,
                events.drop_first(),
                k,
            ));
        }
    }
}

/// The two kinds of stream that a session accepts.
#[derive(Debug, Clone, Copy, PartialEq, Eq, Structural)]
pub enum StreamKind {
    Bidirectional,
    Unidirectional,
}

/// The open streams of one session and their readers, and which kinds of
/// stream the session still accepts.
pub struct Dispatcher {
    streams: HashMap<u64, FrameReader>,
    bi_accepting: bool,
    uni_accepting: bool,
    closed: bool,
}

impl Dispatcher {
    /// The bytes held for each open stream.
    pub closed spec fn buffers(&self) -> Map<u64, Seq<u8>> {
        self.streams@.map_values(|r: FrameReader| r@)
    }

    /// Whether the session has closed.
    pub closed spec fn is_closed(&self) -> bool {
        self.closed
    }

    /// Whether the session may still hand out streams of kind `kind`.
    pub closed spec fn accepts_kind(&self, kind: StreamKind) -> bool {
        match kind {
            StreamKind::Bidirectional => self.bi_accepting,
            StreamKind::Unidirectional => self.uni_accepting,
        }
    }

    /// Every reader holds no whole frame, and the session has closed exactly
    /// when neither kind of stream can still come.
    pub closed spec fn wf(&self) -> bool {
        &&& forall|k: u64| #[trigger] self.streams@.contains_key(k) ==> self.streams@[k].wf()
        &&& self.closed <==> !self.bi_accepting && !self.uni_accepting
    }

    /// A dispatcher for a session that has just opened.
    pub fn new() -> (d: Dispatcher)
        ensures
            d.wf(),
            !d.is_closed(),
            d.accepts_kind(StreamKind::Bidirectional),
            d.accepts_kind(StreamKind::Unidirectional),
            d.buffers() == Map::<u64, Seq<u8>>::empty(),
    {
        let d = Dispatcher {
            streams: HashMap::new(),
            bi_accepting: true,
            uni_accepting: true,
            closed: false,
        };
        assert(d.buffers() =~= Map::<u64, Seq<u8>>::empty());
        d
    }

    /// Whether no stream is open.
    pub fn is_idle(&self) -> (r: bool)
        ensures
            r == (self.buffers().dom() == Set::<u64>::empty()),
    {
        proof {
            assert(self.buffers().dom() =~= self.streams@.dom());
        }
        let r = self.streams.len() == 0;
        proof {
            if !r {
                assert(self.streams@.dom().len() > 0);
                assert(self.streams@.dom() != Set::<u64>::empty());
            } else {
                assert(self.streams@.dom().len() == 0);
                assert(self.streams@.dom() =~= Set::<u64>::empty());
            }
        }
        r
    }

    /// Registers the bidirectional stream `id`. Refused once the session has
    /// closed, and for a stream already open.
    pub fn open_stream(&mut self, id: u64) -> (r: bool)
        requires
            old(self).wf(),
        ensures
            final(self).wf(),
            final(self).is_closed() == old(self).is_closed(),
            forall|kind: StreamKind| #[trigger] final(self).accepts_kind(kind) == old(self).accepts_kind(kind),
            r == (!old(self).is_closed() && !old(self).buffers().contains_key(id)),
            r ==> final(self).buffers() == old(self).buffers().insert(id, Seq::<u8>::empty()),
            !r ==> final(self).buffers() == old(self).buffers(),
    {
        if self.closed || self.streams.contains_key(&id) {
            false
        } else {
            let ghost before = self.buffers();
            let reader = FrameReader::new();
            self.streams.insert(id, reader);
            assert(self.buffers() =~= before.insert(id, Seq::<u8>::empty()));
            true
        }
    }

    /// Takes the bytes of one read on stream `id` and hands out the payloads
    /// of that stream's frames that are now whole; `None` when the stream is
    /// not open. No other stream is touched.
    pub fn receive(&mut self, id: u64, bytes: &[u8]) -> (r: Option<Vec<Vec<u8>>>)
        requires
            old(self).wf(),
        ensures
            final(self).wf(),
            final(self).is_closed() == old(self).is_closed(),
            forall|kind: StreamKind| #[trigger] final(self).accepts_kind(kind) == old(self).accepts_kind(kind),
            final(self).buffers() == route_step(old(self).buffers(), id, bytes@).0,
            r is Some == old(self).buffers().contains_key(id),
            r matches Some(frames) ==> payloads(frames@) == route_step(
                old(self).buffers(),
                id,
                bytes@,
            ).1,
    {
        let ghost before = self.buffers();
        match self.streams.remove(&id) {
            None => {
                assert(self.buffers() =~= before);
                None
            },
            Some(reader) => {
                let mut reader = reader;
                let frames = reader.feed(bytes);
                self.streams.insert(id, reader);
                assert(self.buffers() =~= before.insert(id, split_frames(before[id] + bytes@).1));
                Some(frames)
            },
        }
    }

    /// Forgets the stream `id`, which has ended; bytes it held are dropped.
    /// Returns whether it was open.
    pub fn end_stream(&mut self, id: u64) -> (r: bool)
        requires
            old(self).wf(),
        ensures
            final(self).wf(),
            final(self).is_closed() == old(self).is_closed(),
            forall|kind: StreamKind| #[trigger] final(self).accepts_kind(kind) == old(self).accepts_kind(kind),
            r == old(self).buffers().contains_key(id),
            final(self).buffers() == old(self).buffers().remove(id),
    {
        let ghost before = self.buffers();
        let r = self.streams.remove(&id);
        assert(self.buffers() =~= before.remove(id));
        r.is_some()
    }

    /// The session can no longer hand out streams of kind `kind`. Once neither
    /// kind can come, the session has closed. Returns whether it has.
    pub fn accept_failed(&mut self, kind: StreamKind) -> (done: bool)
        requires
            old(self).wf(),
        ensures
            final(self).wf(),
            !final(self).accepts_kind(kind),
            forall|other: StreamKind|
                other != kind ==> #[trigger] final(self).accepts_kind(other) == old(self).accepts_kind(other),
            done == final(self).is_closed(),
            done == !old(self).accepts_kind(
                match kind {
                    StreamKind::Bidirectional => StreamKind::Unidirectional,
                    StreamKind::Unidirectional => StreamKind::Bidirectional,
                },
            ),
            done ==> final(self).buffers() == Map::<u64, Seq<u8>>::empty(),
            !done ==> final(self).buffers() == old(self).buffers(),
    {
        match kind {
            StreamKind::Bidirectional => self.bi_accepting = false,
            StreamKind::Unidirectional => self.uni_accepting = false,
        }
        if !self.bi_accepting && !self.uni_accepting {
            self.close();
            true
        } else {
            false
        }
    }

    /// Whether the session may still hand out streams of kind `kind`.
    pub fn accepting(&self, kind: StreamKind) -> (r: bool)
        ensures
            r == self.accepts_kind(kind),
    {
        match kind {
            StreamKind::Bidirectional => self.bi_accepting,
            StreamKind::Unidirectional => self.uni_accepting,
        }
    }

    /// The session has closed: every stream is forgotten and no new one is
    /// accepted.
    pub fn close(&mut self)
        ensures
            final(self).wf(),
            final(self).is_closed(),
            !final(self).accepts_kind(StreamKind::Bidirectional),
            !final(self).accepts_kind(StreamKind::Unidirectional),
            final(self).buffers() == Map::<u64, Seq<u8>>::empty(),
    {
        self.streams.clear();
        self.bi_accepting = false;
        self.uni_accepting = false;
        self.closed = true;
        assert(self.buffers() =~= Map::<u64, Seq<u8>>::empty());
    }

    /// Whether the session has closed.
    pub fn session_closed(&self) -> (r: bool)
        ensures
            r == self.is_closed(),
    {
        self.closed
    }
}

} // verus!
