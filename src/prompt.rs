//! The prompt automaton: it drives an interactive, non-line-oriented shell as a
//! request/response channel by accumulating decoded output until one of a set
//! of marker texts appears anywhere in it.
//!
//! The automaton makes the decisions; the caller performs the reads and the
//! pauses and reports what happened as a [`ReadEvent`].
use crate::text::{contains_seq, lemma_occurs_in_prefix, occurs_at, occurs_from};
use crate::utf8_stream::{carried, decoded, lemma_decoded_append, lemma_decoded_valid, text_chars, StreamDecoder};
use vstd::prelude::*;
use vstd::utf8::{decode_utf8, valid_utf8};

verus! {

/// Pause, in milliseconds, between two reads that found no data.
pub const RETRY_PAUSE_MILLIS: u64 = 300;

/// What one read of the channel gave.
pub enum ReadEvent {
    /// Bytes that arrived.
    Data(Vec<u8>),
    /// Nothing has arrived yet; a transient condition.
    NoDataYet,
    /// The channel reported end of stream (a read of zero bytes).
    EndOfStream,
    /// A read failed for another reason.
    Failed(String),
    /// The deadline of the wait has passed.
    DeadlineReached,
}

/// The result of a finished wait.
pub struct WaitOutcome {
    /// The marker that was found; empty when none was.
    pub marker: String,
    /// Everything decoded since the wait began.
    pub transcript: String,
}

/// What the caller does next.
pub enum WaitStep {
    /// Read again at once.
    ReadAgain,
    /// Pause for [`RETRY_PAUSE_MILLIS`], then read again.
    SleepThenRead,
    /// The wait is over.
    Finished(WaitOutcome),
    /// The channel failed.
    Failed(String),
}

/// Marker `i` is the first of `markers`, in order, that occurs in `text`.
pub open spec fn first_hit(markers: Seq<Seq<char>>, text: Seq<char>, i: int) -> bool {
    &&& 0 <= i < markers.len()
    &&& contains_seq(text, markers[i])
    &&& forall|j: int| 0 <= j < i ==> !contains_seq(text, #[trigger] markers[j])
}

/// None of `markers` occurs in `text`.
pub open spec fn no_hit(markers: Seq<Seq<char>>, text: Seq<char>) -> bool {
    forall|j: int| 0 <= j < markers.len() ==> !contains_seq(text, #[trigger] markers[j])
}

/// A finished wait with this transcript reports the first marker it contains, or an empty marker when it contains none.
pub open spec fn outcome_is(o: WaitOutcome, markers: Seq<Seq<char>>, text: Seq<char>) -> bool {
    &&& o.transcript@ == text
    &&& if no_hit(markers, text) {
        o.marker@ == Seq::<char>::empty()
    } else {
        exists|i: int| first_hit(markers, text, i) && o.marker@ == markers[i]
    }
}

/// A wait for one of several markers in the output of a channel.
pub struct PromptWaiter {
    markers: Vec<String>,
    marker_chars: Vec<Vec<char>>,
    decoder: StreamDecoder,
    transcript: String,
    chars: Vec<char>,
    finished: bool,
    matched: String,
}

impl PromptWaiter {
    /// The markers, in the order in which they are tried.
    pub closed spec fn markers(&self) -> Seq<Seq<char>> {
        Seq::new(self.markers@.len(), |i: int| self.markers@[i]@)
    }

    /// Every byte read since the wait began.
    pub closed spec fn received(&self) -> Seq<u8> {
        self.decoder.received()
    }

    /// The text decoded since the wait began.
    pub closed spec fn transcript(&self) -> Seq<char> {
        self.transcript@
    }

    /// Whether the wait is over.
    pub closed spec fn is_finished(&self) -> bool {
        self.finished
    }

    /// The marker found, once the wait is over (empty when none was).
    pub closed spec fn matched(&self) -> Seq<char> {
        self.matched@
    }

    /// The automaton's internal state agrees with what it has read.
    pub closed spec fn wf(&self) -> bool {
        &&& self.decoder.wf()
        &&& self.transcript@ == decoded(self.decoder.received())
        &&& self.chars@ == self.transcript@
        &&& self.marker_chars@.len() == self.markers@.len()
        &&& forall|i: int| 0 <= i < self.markers@.len() ==> #[trigger] self.marker_chars@[i]@ == self.markers@[i]@
        &&& !self.finished ==> no_hit(self.markers(), self.transcript@) || self.decoder.received().len() == 0
        &&& !self.finished ==> self.matched@ == Seq::<char>::empty()
    }

    /// A wait that has read nothing yet.
    pub fn new(markers: Vec<String>) -> (r: Self)
        ensures
            r.wf(),
            r.markers() == Seq::new(markers@.len(), |i: int| markers@[i]@),
            r.received() == Seq::<u8>::empty(),
            r.transcript() == Seq::<char>::empty(),
            !r.is_finished(),
    {
        let mut marker_chars: Vec<Vec<char>> = Vec::new();
        let mut i: usize = 0;
        while i < markers.len()
            invariant
                i <= markers@.len(),
                marker_chars@.len() == i,
                forall|j: int| 0 <= j < i ==> #[trigger] marker_chars@[j]@ == markers@[j]@,
            decreases markers@.len() - i,
        {
            marker_chars.push(text_chars(&markers[i]));
            i = i + 1;
        }
        let r = PromptWaiter {
            markers,
            marker_chars,
            decoder: StreamDecoder::new(),
            transcript: String::new(),
            chars: Vec::new(),
            finished: false,
            matched: String::new(),
        };
        assert(decoded(Seq::<u8>::empty()) =~= Seq::<char>::empty());
        r
    }

    /// The outcome as it stands: the marker found (empty if none) and the transcript.
    fn outcome(&self) -> (r: WaitOutcome)
        ensures
            r.marker@ == self.matched@,
            r.transcript@ == self.transcript@,
    {
        WaitOutcome { marker: self.matched.clone(), transcript: self.transcript.clone() }
    }

    /// Takes what the last read gave and says what to do next.
    ///
    /// New bytes are decoded (an incomplete trailing scalar is kept for the next
    /// read) and the whole transcript is searched for each marker in order; the
    /// first one found ends the wait. The end of the stream or of the deadline
    /// ends it with an empty marker and the transcript so far; no data yet asks
    /// for a pause; a failed read is reported as a failure.
    pub fn step(&mut self, event: ReadEvent) -> (r: WaitStep)
        requires
            old(self).wf(),
        ensures
            final(self).wf(),
            final(self).markers() == old(self).markers(),
            old(self).is_finished() ==> *final(self) == *old(self) && (r matches WaitStep::Finished(o)
                && o.marker@ == old(self).matched() && o.transcript@ == old(self).transcript()),
            !old(self).is_finished() ==> match event {
                ReadEvent::Data(b) => {
                    &&& final(self).received() == old(self).received() + b@
                    &&& final(self).transcript() == decoded(final(self).received())
                    &&& if no_hit(old(self).markers(), final(self).transcript()) {
                        &&& r is ReadAgain
                        &&& !final(self).is_finished()
                    } else {
                        &&& final(self).is_finished()
                        &&& (r matches WaitStep::Finished(o) && outcome_is(
                            o,
                            old(self).markers(),
                            final(self).transcript(),
                        ))
                    }
                },
                ReadEvent::NoDataYet => r is SleepThenRead && *final(self) == *old(self),
                ReadEvent::EndOfStream | ReadEvent::DeadlineReached => {
                    &&& final(self).received() == old(self).received()
                    &&& final(self).transcript() == old(self).transcript()
                    &&& final(self).is_finished()
                    &&& (r matches WaitStep::Finished(o) && o.marker@ == Seq::<char>::empty()
                        && o.transcript@ == old(self).transcript())
                },
                ReadEvent::Failed(msg) => *final(self) == *old(self) && (r matches WaitStep::Failed(m)
                    && m == msg),
            },
    {
        if self.finished {
            return WaitStep::Finished(self.outcome());
        }
        match event {
            ReadEvent::Data(bytes) => {
                let ghost old_text = self.transcript@;
                let ghost old_markers = self.markers();
                let piece = self.decoder.feed(bytes.as_slice());
                let old_len = self.chars.len();
                let mut piece_chars = text_chars(&piece);
                self.chars.append(&mut piece_chars);
                self.transcript.append(piece.as_str());
                assert(self.chars@ =~= self.transcript@);
                assert(self.markers() =~= old_markers);
                let mut i: usize = 0;
                while i < self.marker_chars.len()
                    invariant
                        self.wf_except_search(),
                        !self.finished,
                        self.matched@ == Seq::<char>::empty(),
                        old_len == old_text.len(),
                        self.transcript@.len() >= old_len,
                        self.transcript@.subrange(0, old_len as int) == old_text,
                        no_hit(old_markers, old_text) || old_len == 0,
                        self.markers() == old_markers,
                        old_markers == old(self).markers(),
                        old_text == old(self).transcript(),
                        !old(self).is_finished(),
                        self.received() == old(self).received() + bytes@,
                        event matches ReadEvent::Data(b) && b@ == bytes@,
                        i <= self.marker_chars@.len(),
                        forall|j: int| 0 <= j < i ==> !contains_seq(self.transcript@, #[trigger] self.markers()[j]),
                    decreases self.marker_chars@.len() - i,
                {
                    let m = &self.marker_chars[i];
                    let start: usize = if m.len() == 0 || m.len() > old_len {
                        0
                    } else {
                        old_len - (m.len() - 1)
                    };
                    let hit = occurs_from(&self.chars, m, start);
                    proof {
                        let mk = self.markers()[i as int];
                        assert(m@ == mk);
                        assert forall|p: int| 0 <= p < start implies !occurs_at(self.transcript@, mk, p) by {
                            if occurs_at(self.transcript@, mk, p) {
                                assert(old_len > 0);
                                let tail = self.transcript@.subrange(old_len as int, self.transcript@.len() as int);
                                assert(self.transcript@ =~= old_text + tail);
                                lemma_occurs_in_prefix(old_text, tail, mk, p);
                                assert(contains_seq(old_text, mk));
                            }
                        }
                    }
                    if hit {
                        self.matched = self.markers[i].clone();
                        self.finished = true;
                        let o = self.outcome();
                        proof {
                            assert(self.markers() =~= old_markers);
                            assert(self.matched@ == old_markers[i as int]);
                            assert(first_hit(old_markers, self.transcript@, i as int));
                            assert(o.marker@ == old_markers[i as int]);
                            assert(self.decoder.received() == old(self).received() + bytes@);
                            assert(self.received() == old(self).received() + bytes@);
                            assert(!no_hit(self.markers(), self.transcript@));
                        }
                        return WaitStep::Finished(o);
                    }
                    i = i + 1;
                }
                WaitStep::ReadAgain
            },
            ReadEvent::NoDataYet => WaitStep::SleepThenRead,
            ReadEvent::EndOfStream | ReadEvent::DeadlineReached => {
                self.finished = true;
                WaitStep::Finished(self.outcome())
            },
            ReadEvent::Failed(msg) => WaitStep::Failed(msg),
        }
    }

    /// The parts of well-formedness that do not depend on the marker search.
    closed spec fn wf_except_search(&self) -> bool {
        &&& self.decoder.wf()
        &&& self.transcript@ == decoded(self.decoder.received())
        &&& self.chars@ == self.transcript@
        &&& self.marker_chars@.len() == self.markers@.len()
        &&& forall|i: int| 0 <= i < self.markers@.len() ==> #[trigger] self.marker_chars@[i]@ == self.markers@[i]@
    }

    /// Whether the wait is over.
    pub fn finished(&self) -> (r: bool)
        ensures
            r == self.is_finished(),
    {
        self.finished
    }
}

/// A well-formed stream read in two pieces, split at any byte (inside a
/// multi-byte character or inside the marker), gives once both pieces are in
/// the transcript of the whole stream decoded as UTF-8; a wait for a marker
/// that the whole stream contains then ends with that marker and that transcript.
pub proof fn lemma_split_reads(a: Seq<u8>, b: Seq<u8>, marker: Seq<char>)
    requires
        valid_utf8(a + b),
        contains_seq(decode_utf8(a + b), marker),
    ensures
        decoded(Seq::<u8>::empty() + a + b) == decode_utf8(a + b),
        decoded(a) + decoded(carried(a) + b) == decode_utf8(a + b),
        forall|o: WaitOutcome| #[trigger] outcome_is(o, seq![marker], decode_utf8(a + b)) ==> o.marker@ == marker
            && o.transcript@ == decode_utf8(a + b),
{
    assert(Seq::<u8>::empty() + a + b =~= a + b);
    lemma_decoded_valid(a + b);
    lemma_decoded_append(a, b);
    assert(seq![marker][0] == marker);
    assert(!no_hit(seq![marker], decode_utf8(a + b)));
}

/// The text sent for one input line: the line followed by a carriage return.
pub fn line_text(input: &str) -> (r: String)
    ensures
        r@ == input@ + seq!['\r'],
{
    let mut s = String::from_str(input);
    proof { reveal_strlit("\r"); }
    s.append("\r");
    s
}

} // verus!
