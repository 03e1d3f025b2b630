use vstd::prelude::*;

use crate::bytes::append_range;

verus! {

/// Length of the marker that opens a usage fragment.
pub const MARKER_LEN: usize = 13;

/// Line feed: the byte that ends a usage fragment.
pub const TERMINATOR: u8 = 10;

/// The most bytes of an unfinished usage fragment that are kept between chunks.
pub const PENDING_LIMIT: usize = 8192;

/// The bytes of `{"choices":[]`, which open a usage fragment.
pub open spec fn marker() -> Seq<u8> {
    seq![123u8, 34u8, 99u8, 104u8, 111u8, 105u8, 99u8, 101u8, 115u8, 34u8, 58u8, 91u8, 93u8]
}

/// The marker starts at position `i` of `s`.
pub open spec fn marker_at(s: Seq<u8>, i: int) -> bool {
    &&& 0 <= i
    &&& i + MARKER_LEN <= s.len()
    &&& s.subrange(i, i + MARKER_LEN as int) == marker()
}

/// `m` is the first position of `s` where the marker starts.
pub open spec fn is_first_marker(s: Seq<u8>, m: int) -> bool {
    &&& marker_at(s, m)
    &&& forall|j: int| 0 <= j < m ==> !#[trigger] marker_at(s, j)
}

/// `s` holds no marker.
pub open spec fn has_no_marker(s: Seq<u8>) -> bool {
    forall|j: int| !#[trigger] marker_at(s, j)
}

/// `t` is the first terminator of `s` at or after position `from`.
pub open spec fn is_first_terminator(s: Seq<u8>, from: int, t: int) -> bool {
    &&& 0 <= from <= t < s.len()
    &&& s[t] == TERMINATOR
    &&& forall|j: int| from <= j < t ==> s[j] != TERMINATOR
}

/// `s` holds no terminator at or after position `from`.
pub open spec fn has_no_terminator(s: Seq<u8>, from: int) -> bool {
    forall|j: int| from <= j < s.len() ==> s[j] != TERMINATOR
}

/// The usage fragment that `s` holds whole: the bytes from its first marker up to, and not
/// including, the first terminator after that marker.
pub open spec fn whole_fragment(s: Seq<u8>) -> Option<Seq<u8>> {
    if exists|m: int| is_first_marker(s, m) {
        let m = choose|m: int| is_first_marker(s, m);
        if exists|t: int| is_first_terminator(s, m, t) {
            let t = choose|t: int| is_first_terminator(s, m, t);
            Some(s.subrange(m, t))
        } else {
            None
        }
    } else {
        None
    }
}

/// The last bytes of `q` that could still begin a marker completed by later bytes.
pub open spec fn carry_of(q: Seq<u8>) -> Seq<u8> {
    if q.len() < MARKER_LEN {
        q
    } else {
        q.subrange(q.len() - (MARKER_LEN - 1), q.len() as int)
    }
}

/// One observation of the scanner, from the state `(pending, buffer)` and a chunk, to the
/// next state and the fragment found, if any.
///
/// While idle, `buffer` holds the carried tail of the bytes seen so far, and the scan runs over
/// that tail followed by the chunk. While pending, `buffer` holds the start of a fragment whose
/// terminator has not come yet; a fragment that would outgrow `PENDING_LIMIT` is dropped.
pub open spec fn step(pending: bool, buffer: Seq<u8>, chunk: Seq<u8>) -> (bool, Seq<u8>, Option<Seq<u8>>) {
    if !pending {
        let s = buffer + chunk;
        if exists|m: int| is_first_marker(s, m) {
            let m = choose|m: int| is_first_marker(s, m);
            if exists|t: int| is_first_terminator(s, m, t) {
                let t = choose|t: int| is_first_terminator(s, m, t);
                (false, carry_of(s.subrange(t + 1, s.len() as int)), Some(s.subrange(m, t)))
            } else if s.len() - m <= PENDING_LIMIT {
                (true, s.subrange(m, s.len() as int), None)
            } else {
                (false, Seq::empty(), None)
            }
        } else {
            (false, carry_of(s), None)
        }
    } else {
        if exists|t: int| is_first_terminator(chunk, 0, t) {
            let t = choose|t: int| is_first_terminator(chunk, 0, t);
            (
                false,
                carry_of(chunk.subrange(t + 1, chunk.len() as int)),
                Some(buffer + chunk.subrange(0, t)),
            )
        } else if buffer.len() + chunk.len() <= PENDING_LIMIT {
            (true, buffer + chunk, None)
        } else {
            (false, Seq::empty(), None)
        }
    }
}

proof fn lemma_first_marker_unique(s: Seq<u8>, m1: int, m2: int)
    requires
        is_first_marker(s, m1),
        is_first_marker(s, m2),
    ensures
        m1 == m2,
{
    if m1 < m2 {
        assert(!marker_at(s, m1));
    } else if m2 < m1 {
        assert(!marker_at(s, m2));
    }
}

proof fn lemma_first_terminator_unique(s: Seq<u8>, from: int, t1: int, t2: int)
    requires
        is_first_terminator(s, from, t1),
        is_first_terminator(s, from, t2),
    ensures
        t1 == t2,
{
}

/// A marker seen through a window that starts at `off` is the marker at `j + off`.
proof fn lemma_marker_shift(s: Seq<u8>, off: int, j: int)
    requires
        0 <= off <= s.len(),
        0 <= j,
    ensures
        marker_at(s.subrange(off, s.len() as int), j) == marker_at(s, j + off),
{
    let w = s.subrange(off, s.len() as int);
    if j + MARKER_LEN <= w.len() {
        assert(w.subrange(j, j + MARKER_LEN as int) =~= s.subrange(j + off, j + off + MARKER_LEN as int));
    }
}

/// A marker that lies inside the first part lies at the same place in the whole.
proof fn lemma_marker_prefix(a: Seq<u8>, b: Seq<u8>, j: int)
    requires
        0 <= j,
        j + MARKER_LEN <= a.len(),
    ensures
        marker_at(a, j) == marker_at(a + b, j),
{
    assert((a + b).subrange(j, j + MARKER_LEN as int) =~= a.subrange(j, j + MARKER_LEN as int));
}

/// A fresh scanner that is handed a whole stream as one chunk reports its whole fragment.
pub proof fn lemma_one_chunk(s: Seq<u8>)
    ensures
        step(false, Seq::empty(), s).2 == whole_fragment(s),
{
    assert(Seq::<u8>::empty() + s =~= s);
}

/// The first fragment reported over two observations.
pub open spec fn first_found(r1: Option<Seq<u8>>, r2: Option<Seq<u8>>) -> Option<Seq<u8>> {
    if r1 is Some {
        r1
    } else {
        r2
    }
}

/// Where `a` holds the first marker of `a + b` but no terminator after it, the part of the
/// fragment in `a` fits the pending buffer.
pub open spec fn split_fits(a: Seq<u8>, b: Seq<u8>) -> bool {
    forall|m: int|
        #![trigger is_first_marker(a + b, m)]
        is_first_marker(a + b, m) && m < a.len() && has_no_terminator(a, m) ==> a.len() - m
            <= PENDING_LIMIT
}

/// The first fragment that a fresh scanner reports when a stream comes as the chunks `a`, `b`.
pub open spec fn found_in_two(a: Seq<u8>, b: Seq<u8>) -> Option<Seq<u8>> {
    let (p1, b1, r1) = step(false, Seq::empty(), a);
    first_found(r1, step(p1, b1, b).2)
}

proof fn lemma_split_no_marker(a: Seq<u8>, b: Seq<u8>)
    requires
        !(exists|m: int| is_first_marker(a + b, m)),
    ensures
        found_in_two(a, b) == whole_fragment(a + b),
{
    let s = a + b;
    let n = s.len();
    assert(Seq::<u8>::empty() + a =~= a);
    let c = carry_of(a);
    let off = a.len() - c.len();
    assert(c + b =~= s.subrange(off, n as int));
    assert forall|j: int| !#[trigger] marker_at(a, j) by {
        if marker_at(a, j) {
            lemma_marker_prefix(a, b, j);
            lemma_least_marker(s, j);
        }
    }
    assert(!(exists|j: int| is_first_marker(a, j)));
    let w = s.subrange(off, n as int);
    assert forall|j: int| !#[trigger] marker_at(w, j) by {
        if marker_at(w, j) {
            lemma_marker_shift(s, off, j);
            lemma_least_marker(s, j + off);
        }
    }
    assert(!(exists|j: int| is_first_marker(w, j)));
}

proof fn lemma_split_marker_in_first(a: Seq<u8>, b: Seq<u8>, m: int)
    requires
        is_first_marker(a + b, m),
        m + MARKER_LEN <= a.len(),
        split_fits(a, b),
    ensures
        found_in_two(a, b) == whole_fragment(a + b),
{
    let s = a + b;
    assert(Seq::<u8>::empty() + a =~= a);
    let (p1, b1, r1) = step(false, Seq::empty(), a);
    let ms = choose|m: int| is_first_marker(s, m);
    lemma_first_marker_unique(s, m, ms);
    assert forall|j: int| 0 <= j < m implies !#[trigger] marker_at(a, j) by {
        lemma_marker_prefix(a, b, j);
    }
    lemma_marker_prefix(a, b, m);
    assert(is_first_marker(a, m));
    let ma = choose|m: int| is_first_marker(a, m);
    lemma_first_marker_unique(a, m, ma);
    if exists|t: int| is_first_terminator(a, m, t) {
        let t = choose|t: int| is_first_terminator(a, m, t);
        assert(is_first_terminator(s, m, t));
        let ts = choose|t: int| is_first_terminator(s, m, t);
        lemma_first_terminator_unique(s, m, t, ts);
        assert(a.subrange(m, t) =~= s.subrange(m, t));
    } else {
        assert forall|j: int| m <= j < a.len() implies a[j] != TERMINATOR by {
            if a[j] == TERMINATOR {
                lemma_least_terminator(a, m, j);
            }
        }
        assert(has_no_terminator(a, m));
        assert(a.len() - m <= PENDING_LIMIT);
        assert(p1 && b1 == a.subrange(m, a.len() as int) && r1 is None);
        if exists|t: int| is_first_terminator(b, 0, t) {
            let t = choose|t: int| is_first_terminator(b, 0, t);
            assert(is_first_terminator(s, m, a.len() + t));
            let ts = choose|t: int| is_first_terminator(s, m, t);
            lemma_first_terminator_unique(s, m, a.len() + t, ts);
            assert(b1 + b.subrange(0, t) =~= s.subrange(m, a.len() + t));
        } else {
            assert forall|t: int| !is_first_terminator(s, m, t) by {
                if is_first_terminator(s, m, t) {
                    if t < a.len() {
                        assert(a[t] == TERMINATOR);
                    } else {
                        lemma_least_terminator(b, 0, t - a.len());
                    }
                }
            }
        }
    }
}

proof fn lemma_split_marker_later(a: Seq<u8>, b: Seq<u8>, m: int)
    requires
        is_first_marker(a + b, m),
        m + MARKER_LEN > a.len(),
    ensures
        found_in_two(a, b) == whole_fragment(a + b),
{
    let s = a + b;
    let n = s.len();
    assert(Seq::<u8>::empty() + a =~= a);
    let c = carry_of(a);
    let off = a.len() - c.len();
    let w = s.subrange(off, n as int);
    assert(c + b =~= w);
    let ms = choose|m: int| is_first_marker(s, m);
    lemma_first_marker_unique(s, m, ms);
    assert forall|j: int| !#[trigger] marker_at(a, j) by {
        if marker_at(a, j) {
            lemma_marker_prefix(a, b, j);
        }
    }
    assert(!(exists|j: int| is_first_marker(a, j)));
    let mw0 = m - off;
    assert(mw0 >= 0);
    assert forall|j: int| 0 <= j < mw0 implies !#[trigger] marker_at(w, j) by {
        lemma_marker_shift(s, off, j);
    }
    lemma_marker_shift(s, off, mw0);
    assert(is_first_marker(w, mw0));
    let mw = choose|m: int| is_first_marker(w, m);
    lemma_first_marker_unique(w, mw0, mw);
    if exists|t: int| is_first_terminator(s, m, t) {
        let t = choose|t: int| is_first_terminator(s, m, t);
        assert(is_first_terminator(w, mw0, t - off));
        let tw = choose|t: int| is_first_terminator(w, mw0, t);
        lemma_first_terminator_unique(w, mw0, t - off, tw);
        assert(w.subrange(mw0, t - off) =~= s.subrange(m, t));
    } else {
        assert forall|t: int| !is_first_terminator(w, mw0, t) by {
            if is_first_terminator(w, mw0, t) {
                assert(s[t + off] == w[t]);
                lemma_least_terminator(s, m, t + off);
            }
        }
    }
}

/// Splitting a stream into two chunks, at any place, does not change the first usage fragment
/// that a fresh scanner reports: it is the one that the stream holds whole, as when the stream
/// comes in one chunk. This holds wherever the part of the fragment in the first chunk fits
/// the pending buffer.
pub proof fn lemma_split_in_two(a: Seq<u8>, b: Seq<u8>)
    requires
        split_fits(a, b),
    ensures
        found_in_two(a, b) == whole_fragment(a + b),
        step(false, Seq::empty(), a + b).2 == whole_fragment(a + b),
{
    lemma_one_chunk(a + b);
    if exists|m: int| is_first_marker(a + b, m) {
        let m = choose|m: int| is_first_marker(a + b, m);
        if m + MARKER_LEN <= a.len() {
            lemma_split_marker_in_first(a, b, m);
        } else {
            lemma_split_marker_later(a, b, m);
        }
    } else {
        lemma_split_no_marker(a, b);
    }
}

/// Where a terminator occurs at `j`, at or after `from`, some terminator is the first there.
proof fn lemma_least_terminator(s: Seq<u8>, from: int, j: int)
    requires
        0 <= from <= j < s.len(),
        s[j] == TERMINATOR,
    ensures
        exists|t: int| is_first_terminator(s, from, t),
    decreases j - from,
{
    if forall|i: int| from <= i < j ==> s[i] != TERMINATOR {
        assert(is_first_terminator(s, from, j));
    } else {
        let i = choose|i: int| from <= i < j && s[i] == TERMINATOR;
        lemma_least_terminator(s, from, i);
    }
}

/// Where the marker occurs at `j`, some occurrence is the first.
proof fn lemma_least_marker(s: Seq<u8>, j: int)
    requires
        marker_at(s, j),
    ensures
        exists|m: int| is_first_marker(s, m),
    decreases j,
{
    if forall|i: int| 0 <= i < j ==> !#[trigger] marker_at(s, i) {
        assert(is_first_marker(s, j));
    } else {
        let i = choose|i: int| 0 <= i < j && #[trigger] marker_at(s, i);
        lemma_least_marker(s, i);
    }
}

/// The observation drops the start of a fragment that would outgrow `PENDING_LIMIT`.
pub open spec fn step_drops(pending: bool, buffer: Seq<u8>, chunk: Seq<u8>) -> bool {
    if !pending {
        let s = buffer + chunk;
        if exists|m: int| is_first_marker(s, m) {
            let m = choose|m: int| is_first_marker(s, m);
            !(exists|t: int| is_first_terminator(s, m, t)) && s.len() - m > PENDING_LIMIT
        } else {
            false
        }
    } else {
        !(exists|t: int| is_first_terminator(chunk, 0, t)) && buffer.len() + chunk.len()
            > PENDING_LIMIT
    }
}

/// What one observation found.
#[derive(Debug, PartialEq, Eq)]
pub enum Scan {
    /// No fragment was completed or lost.
    Nothing,
    /// A fragment was completed: its bytes, from the marker up to the terminator.
    Found(Vec<u8>),
    /// The start of a fragment outgrew `PENDING_LIMIT` and was discarded.
    Dropped,
}

impl Scan {
    /// The bytes of the fragment found, if any.
    pub fn fragment(self) -> (r: Option<Vec<u8>>)
        ensures
            match self {
                Scan::Found(v) => r == Some(v),
                _ => r is None,
            },
    {
        match self {
            Scan::Found(v) => Some(v),
            _ => None,
        }
    }
}

/// The observation's result matches the model: the fragment that `step` reports, or the drop
/// that `step_drops` reports, or neither.
pub open spec fn scan_matches(r: Scan, pending: bool, buffer: Seq<u8>, chunk: Seq<u8>) -> bool {
    match r {
        Scan::Found(v) => step(pending, buffer, chunk).2 == Some(v@),
        Scan::Dropped => step(pending, buffer, chunk).2 is None && step_drops(pending, buffer, chunk),
        Scan::Nothing => step(pending, buffer, chunk).2 is None && !step_drops(pending, buffer, chunk),
    }
}

/// Recognizes usage fragments in a stream that arrives as a sequence of byte chunks.
pub struct UsageExtractor {
    pending: bool,
    buffer: Vec<u8>,
}

impl View for UsageExtractor {
    type V = (bool, Seq<u8>);

    closed spec fn view(&self) -> (bool, Seq<u8>) {
        (self.pending, self.buffer@)
    }
}

fn marker_byte(k: usize) -> (b: u8)
    requires
        k < MARKER_LEN,
    ensures
        b == marker()[k as int],
{
    if k == 0 {
        123
    } else if k == 1 {
        34
    } else if k == 2 {
        99
    } else if k == 3 {
        104
    } else if k == 4 {
        111
    } else if k == 5 {
        105
    } else if k == 6 {
        99
    } else if k == 7 {
        101
    } else if k == 8 {
        115
    } else if k == 9 {
        34
    } else if k == 10 {
        58
    } else if k == 11 {
        91
    } else {
        93
    }
}

/// Whether the marker starts at position `i` of `s`.
fn marker_starts_at(s: &[u8], i: usize) -> (r: bool)
    requires
        i + MARKER_LEN <= s@.len(),
    ensures
        r == marker_at(s@, i as int),
{
    let n = s.len();
    let mut k: usize = 0;
    while k < MARKER_LEN
        invariant
            0 <= k <= MARKER_LEN,
            n == s@.len(),
            i + MARKER_LEN <= s@.len(),
            forall|j: int| 0 <= j < k ==> s@[i + j] == marker()[j],
        decreases MARKER_LEN - k,
    {
        if s[i + k] != marker_byte(k) {
            assert(s@.subrange(i as int, i + MARKER_LEN as int)[k as int] != marker()[k as int]);
            return false;
        }
        k = k + 1;
    }
    assert(s@.subrange(i as int, i + MARKER_LEN as int) =~= marker());
    true
}

/// The first position of `s` where the marker starts.
fn find_marker(s: &[u8]) -> (r: Option<usize>)
    ensures
        match r {
            Some(m) => is_first_marker(s@, m as int),
            None => has_no_marker(s@),
        },
{
    if s.len() < MARKER_LEN {
        return None;
    }
    let last = s.len() - MARKER_LEN;
    let mut i: usize = 0;
    while i <= last
        invariant
            last + MARKER_LEN == s@.len(),
            s@.len() == s.len(),
            forall|j: int| 0 <= j < i ==> !#[trigger] marker_at(s@, j),
        decreases last + 1 - i,
    {
        if marker_starts_at(s, i) {
            return Some(i);
        }
        i = i + 1;
    }
    None
}

/// The first terminator of `s` at or after position `from`.
fn find_terminator(s: &[u8], from: usize) -> (r: Option<usize>)
    requires
        from <= s@.len(),
    ensures
        match r {
            Some(t) => is_first_terminator(s@, from as int, t as int),
            None => has_no_terminator(s@, from as int),
        },
{
    let mut i = from;
    while i < s.len()
        invariant
            from <= i <= s@.len(),
            forall|j: int| from <= j < i ==> s@[j] != TERMINATOR,
        decreases s@.len() - i,
    {
        if s[i] == TERMINATOR {
            return Some(i);
        }
        i = i + 1;
    }
    None
}

/// A new vector holding `carry_of(s[from..])`.
fn carry_from(s: &[u8], from: usize) -> (r: Vec<u8>)
    requires
        from <= s@.len(),
    ensures
        r@ == carry_of(s@.subrange(from as int, s@.len() as int)),
{
    let ghost q = s@.subrange(from as int, s@.len() as int);
    let mut r: Vec<u8> = Vec::new();
    if s.len() - from < MARKER_LEN {
        append_range(&mut r, s, from, s.len());
        assert(r@ =~= q);
    } else {
        let start = s.len() - (MARKER_LEN - 1);
        append_range(&mut r, s, start, s.len());
        assert(r@ =~= q.subrange(q.len() - (MARKER_LEN - 1), q.len() as int));
    }
    r
}

impl UsageExtractor {
    /// The state kept between chunks is within its bounds.
    pub closed spec fn wf(&self) -> bool {
        if self.pending {
            self.buffer@.len() <= PENDING_LIMIT
        } else {
            self.buffer@.len() < MARKER_LEN
        }
    }

    /// A scanner that has seen nothing yet.
    pub fn new() -> (r: Self)
        ensures
            r.wf(),
            r@ == (false, Seq::<u8>::empty()),
    {
        UsageExtractor { pending: false, buffer: Vec::new() }
    }

    /// Whether the start of a fragment is held, waiting for its terminator.
    pub fn is_pending(&self) -> (r: bool)
        ensures
            r == self@.0,
    {
        self.pending
    }

    /// Scans one chunk and returns the bytes of the usage fragment that it completes, if any,
    /// or reports that an unfinished fragment grew too long and was dropped. The chunk itself
    /// is only read.
    pub fn observe(&mut self, chunk: &[u8]) -> (r: Scan)
        requires
            old(self).wf(),
        ensures
            final(self).wf(),
            ({
                let (p, b, f) = step(old(self)@.0, old(self)@.1, chunk@);
                final(self)@ == (p, b)
            }),
            scan_matches(r, old(self)@.0, old(self)@.1, chunk@),
    {
        if !self.pending {
            let mut s: Vec<u8> = Vec::new();
            append_range(&mut s, self.buffer.as_slice(), 0, self.buffer.len());
            append_range(&mut s, chunk, 0, chunk.len());
            assert(s@ =~= self.buffer@ + chunk@);
            match find_marker(s.as_slice()) {
                Some(m) => {
                    let sn = s.len();
                    match find_terminator(s.as_slice(), m) {
                        Some(t) => {
                            assert(t < sn);
                            let mut fragment: Vec<u8> = Vec::new();
                            append_range(&mut fragment, s.as_slice(), m, t);
                            assert(fragment@ =~= s@.subrange(m as int, t as int));
                            self.buffer = carry_from(s.as_slice(), t + 1);
                            Scan::Found(fragment)
                        },
                        None => {
                            if s.len() - m <= PENDING_LIMIT {
                                let mut rest: Vec<u8> = Vec::new();
                                append_range(&mut rest, s.as_slice(), m, s.len());
                                assert(rest@ =~= s@.subrange(m as int, s@.len() as int));
                                self.buffer = rest;
                                self.pending = true;
                                Scan::Nothing
                            } else {
                                self.buffer = Vec::new();
                                Scan::Dropped
                            }
                        },
                    }
                },
                None => {
                    self.buffer = carry_from(s.as_slice(), 0);
                    assert(s@.subrange(0, s@.len() as int) =~= s@);
                    Scan::Nothing
                },
            }
        } else {
            let n = chunk.len();
            match find_terminator(chunk, 0) {
                Some(t) => {
                    assert(t < n);
                    let mut fragment: Vec<u8> = Vec::new();
                    append_range(&mut fragment, self.buffer.as_slice(), 0, self.buffer.len());
                    append_range(&mut fragment, chunk, 0, t);
                    assert(fragment@ =~= self.buffer@ + chunk@.subrange(0, t as int));
                    self.buffer = carry_from(chunk, t + 1);
                    self.pending = false;
                    Scan::Found(fragment)
                },
                None => {
                    if chunk.len() <= PENDING_LIMIT - self.buffer.len() {
                        append_range(&mut self.buffer, chunk, 0, chunk.len());
                        assert(chunk@.subrange(0, chunk@.len() as int) =~= chunk@);
                        Scan::Nothing
                    } else {
                        self.buffer = Vec::new();
                        self.pending = false;
                        Scan::Dropped
                    }
                },
            }
        }
    }
}

} // verus!
