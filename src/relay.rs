use vstd::prelude::*;

use crate::extractor::{scan_matches, step, Scan, UsageExtractor};
use crate::text::{names_match, same_name};

verus! {

/// The consumer side of the relay: hands each upstream chunk on unchanged, in arrival order,
/// and scans it for a usage fragment on the way.
pub struct Relay {
    extractor: UsageExtractor,
    read: Ghost<Seq<u8>>,
    written: Ghost<Seq<u8>>,
}

impl Relay {
    /// Every byte read from upstream so far, in order.
    pub closed spec fn read(&self) -> Seq<u8> {
        self.read@
    }

    /// Every byte handed downstream so far, in order.
    pub closed spec fn written(&self) -> Seq<u8> {
        self.written@
    }

    /// The relay's scanner is in good order, and what it handed on is what it read.
    pub closed spec fn wf(&self) -> bool {
        &&& self.extractor.wf()
        &&& self.written@ == self.read@
    }

    /// The state of the relay's usage scanner.
    pub closed spec fn scanner(&self) -> (bool, Seq<u8>) {
        self.extractor@
    }

    /// A relay that has seen nothing yet.
    pub fn new() -> (r: Self)
        ensures
            r.wf(),
            r.read() == Seq::<u8>::empty(),
            r.scanner() == (false, Seq::<u8>::empty()),
    {
        Relay {
            extractor: UsageExtractor::new(),
            read: Ghost(Seq::empty()),
            written: Ghost(Seq::empty()),
        }
    }

    /// Whether the start of a usage fragment is held, waiting for its terminator.
    pub fn is_pending(&self) -> (r: bool)
        ensures
            r == self.scanner().0,
    {
        self.extractor.is_pending()
    }

    /// Takes one chunk from upstream and returns the chunk to write downstream, which is the
    /// same chunk, and what the usage scan of it found.
    pub fn forward(&mut self, chunk: Vec<u8>) -> (r: (Vec<u8>, Scan))
        requires
            old(self).wf(),
        ensures
            final(self).wf(),
            r.0@ == chunk@,
            final(self).read() == old(self).read() + chunk@,
            final(self).written() == old(self).written() + r.0@,
            ({
                let (p, b, f) = step(old(self).scanner().0, old(self).scanner().1, chunk@);
                final(self).scanner() == (p, b)
            }),
            scan_matches(r.1, old(self).scanner().0, old(self).scanner().1, chunk@),
    {
        let scan = self.extractor.observe(chunk.as_slice());
        self.read = Ghost(self.read@ + chunk@);
        self.written = Ghost(self.written@ + chunk@);
        (chunk, scan)
    }
}

/// Whatever chunks a relay was handed, and wherever their boundaries fell, the bytes it handed
/// downstream are the bytes it read from upstream, in the same order.
pub proof fn lemma_relay_lossless(relay: &Relay)
    requires
        relay.wf(),
    ensures
        relay.written() == relay.read(),
{
}

/// Where the task that reads the upstream body stands.
#[derive(Debug, Clone, Copy, PartialEq, Eq)]
pub enum ReaderState {
    /// It reads chunks and queues them for the consumer.
    Reading,
    /// Upstream failed; the error is being queued, and then the reader ends.
    Closing,
    /// It has ended and reads no more.
    Stopped,
}

/// What happened since the reader's last action.
#[derive(Debug)]
pub enum ReaderEvent {
    /// Upstream delivered a chunk.
    Chunk(Vec<u8>),
    /// Upstream failed with this message.
    Failed(String),
    /// Upstream has no more bytes.
    Finished,
    /// The consumer took what was queued.
    Delivered,
    /// The consumer is gone: the queue's receiving end was dropped.
    ReceiverGone,
}

/// What the reader does next.
#[derive(Debug)]
pub enum ReaderAction {
    /// Read the next chunk from upstream.
    ReadNext,
    /// Queue this chunk for the consumer, waiting while the queue is full.
    Forward(Vec<u8>),
    /// Queue this upstream error for the consumer, which ends the downstream body with it.
    ForwardError(String),
    /// End the reader and release the upstream connection.
    Exit,
}

/// The reader's next state and action.
pub open spec fn reader_next(state: ReaderState, event: ReaderEvent) -> (ReaderState, ReaderAction) {
    match state {
        ReaderState::Reading => match event {
            ReaderEvent::Chunk(c) => (ReaderState::Reading, ReaderAction::Forward(c)),
            ReaderEvent::Delivered => (ReaderState::Reading, ReaderAction::ReadNext),
            ReaderEvent::Failed(e) => (ReaderState::Closing, ReaderAction::ForwardError(e)),
            ReaderEvent::Finished => (ReaderState::Stopped, ReaderAction::Exit),
            ReaderEvent::ReceiverGone => (ReaderState::Stopped, ReaderAction::Exit),
        },
        _ => (ReaderState::Stopped, ReaderAction::Exit),
    }
}

/// One decision of the upstream reader.
pub fn reader_step(state: ReaderState, event: ReaderEvent) -> (r: (ReaderState, ReaderAction))
    ensures
        r == reader_next(state, event),
{
    match state {
        ReaderState::Reading => match event {
            ReaderEvent::Chunk(c) => (ReaderState::Reading, ReaderAction::Forward(c)),
            ReaderEvent::Delivered => (ReaderState::Reading, ReaderAction::ReadNext),
            ReaderEvent::Failed(e) => (ReaderState::Closing, ReaderAction::ForwardError(e)),
            ReaderEvent::Finished => (ReaderState::Stopped, ReaderAction::Exit),
            ReaderEvent::ReceiverGone => (ReaderState::Stopped, ReaderAction::Exit),
        },
        _ => (ReaderState::Stopped, ReaderAction::Exit),
    }
}

/// Some action of the reader, from `state` through `events`, is a read.
pub open spec fn reads_again(state: ReaderState, events: Seq<ReaderEvent>) -> bool
    decreases events.len(),
{
    if events.len() == 0 {
        false
    } else {
        let (next, action) = reader_next(state, events[0]);
        action is ReadNext || reads_again(next, events.drop_first())
    }
}

/// Once the consumer is gone the reader ends at once, from any state, and whatever happens
/// after that, it never reads from upstream again.
pub proof fn lemma_no_read_after_disconnect(state: ReaderState, events: Seq<ReaderEvent>)
    ensures
        reader_next(state, ReaderEvent::ReceiverGone) == (ReaderState::Stopped, ReaderAction::Exit),
        !reads_again(ReaderState::Stopped, events),
    decreases events.len(),
{
    if events.len() > 0 {
        lemma_no_read_after_disconnect(state, events.drop_first());
    }
}

/// The content type that a streamed response gets where upstream set none.
pub open spec fn event_stream() -> Seq<char> {
    "text/event-stream"@
}

/// One of the headers names a content type.
pub open spec fn has_content_type(h: Seq<(String, String)>) -> bool {
    exists|i: int| 0 <= i < h.len() && same_name(#[trigger] h[i].0@, "content-type"@)
}

/// The upstream headers that the downstream response copies: all but the cross-origin one,
/// which the response sets itself.
pub open spec fn copied_headers(h: Seq<(String, String)>) -> Seq<(String, String)> {
    h.filter(|p: (String, String)| !same_name(p.0@, "access-control-allow-origin"@))
}

/// The headers of a streamed response: those of upstream, with a content type for an event
/// stream where upstream set none, and a cross-origin header that lets any origin read it.
pub fn downstream_headers(upstream: Vec<(String, String)>) -> (r: Vec<(String, String)>)
    ensures
        ({
            let kept = copied_headers(upstream@);
            let extra = if has_content_type(upstream@) { 1int } else { 2int };
            &&& r@.len() == kept.len() + extra
            &&& r@.subrange(0, kept.len() as int) == kept
            &&& !has_content_type(upstream@) ==> r@[kept.len() as int].0@ == "content-type"@
                && r@[kept.len() as int].1@ == event_stream()
            &&& r@[r@.len() - 1].0@ == "Access-Control-Allow-Origin"@
            &&& r@[r@.len() - 1].1@ == "*"@
        }),
{
    let mut out: Vec<(String, String)> = Vec::new();
    let mut found = false;
    let n = upstream.len();
    let mut i: usize = 0;
    while i < n
        invariant
            n == upstream@.len(),
            i <= n,
            out@ == copied_headers(upstream@.subrange(0, i as int)),
            found == has_content_type(upstream@.subrange(0, i as int)),
        decreases n - i,
    {
        let name = &upstream[i].0;
        let value = &upstream[i].1;
        let ghost before = upstream@.subrange(0, i as int);
        let ghost p = upstream@[i as int];
        assert(upstream@.subrange(0, i + 1) =~= before.push(p));
        proof {
            before.lemma_filter_push(p, |p: (String, String)| !same_name(p.0@, "access-control-allow-origin"@));
        }
        if names_match(name.as_str(), "content-type") {
            found = true;
            assert(same_name(upstream@.subrange(0, i + 1)[i as int].0@, "content-type"@));
        } else {
            assert(has_content_type(upstream@.subrange(0, i + 1)) == has_content_type(before)) by {
                if has_content_type(upstream@.subrange(0, i + 1)) {
                    let j = choose|j: int| 0 <= j < i + 1 && same_name(#[trigger] upstream@.subrange(0, i + 1)[j].0@, "content-type"@);
                    assert(j < i);
                    assert(before[j] == upstream@.subrange(0, i + 1)[j]);
                }
                if has_content_type(before) {
                    let j = choose|j: int| 0 <= j < before.len() && same_name(#[trigger] before[j].0@, "content-type"@);
                    assert(before[j] == upstream@.subrange(0, i + 1)[j]);
                }
            }
        }
        if !names_match(name.as_str(), "access-control-allow-origin") {
            out.push((name.clone(), value.clone()));
        }
        i = i + 1;
    }
    assert(upstream@.subrange(0, n as int) =~= upstream@);
    let ghost kept = out@;
    if !found {
        out.push((String::from_str("content-type"), String::from_str("text/event-stream")));
    }
    out.push((String::from_str("Access-Control-Allow-Origin"), String::from_str("*")));
    assert(out@.subrange(0, kept.len() as int) =~= kept);
    out
}

} // verus!
