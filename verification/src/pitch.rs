//! Sample windowing for pitch detection, and the naming of detected notes.

use vstd::prelude::*;
use crate::theory::midi_octave;

verus! {

/// How many samples to accumulate before running detection.
/// 2048 @ 44100 Hz ≈ 46ms — good balance of latency vs accuracy for guitar.
pub const DETECTION_WINDOW: usize = 2048;

/// How many new samples before we run detection again (overlap).
/// 1024 means 50% overlap — detection runs roughly every 23ms.
pub const HOP_SIZE: usize = 1024;

/// Pitch class (0-11, C=0) of a MIDI note.
pub fn pitch_class(midi_note: u8) -> (pc: u8)
    ensures
        pc == midi_note % 12,
{
    midi_note % 12
}

/// Octave of a MIDI note in scientific pitch notation (MIDI 60 = C4).
pub fn octave(midi_note: u8) -> (octave: i32)
    ensures
        octave == midi_octave(midi_note as int),
{
    (midi_note as i32 / 12) - 1
}

/// Accumulates incoming audio samples and hands out the analysis window
/// whenever enough new samples have arrived.
pub struct SampleWindow<T> {
    /// Accumulation buffer for incoming samples
    buffer: Vec<T>,
    /// How many new samples we've received since last detection
    samples_since_detect: usize,
}

/// The state of a sample window as mathematical values.
pub struct SampleWindowView<T> {
    pub buffer: Seq<T>,
    pub samples_since_detect: nat,
}

impl<T> View for SampleWindow<T> {
    type V = SampleWindowView<T>;

    closed spec fn view(&self) -> SampleWindowView<T> {
        SampleWindowView { buffer: self.buffer@, samples_since_detect: self.samples_since_detect as nat }
    }
}

/// The buffer holds at least the samples received since the last detection,
/// at most two windows more than those, and never a hop beyond two windows.
pub open spec fn window_state_ok(buffered: nat, since: nat) -> bool {
    &&& since <= buffered
    &&& buffered <= 2 * DETECTION_WINDOW + since
    &&& buffered < 2 * DETECTION_WINDOW + HOP_SIZE
}

/// The last `n` items of `s`.
pub open spec fn last_n<T>(s: Seq<T>, n: int) -> Seq<T> {
    s.subrange(s.len() - n, s.len() as int)
}

/// Feeding `samples`: they are appended; once a full window is buffered and
/// a hop of new samples has arrived, the last `DETECTION_WINDOW` samples are
/// handed out for detection, the hop count restarts, and a buffer longer than
/// two windows is cut back to that last window.
pub open spec fn feed_spec<T>(w: SampleWindowView<T>, samples: Seq<T>) -> (SampleWindowView<T>, Option<Seq<T>>) {
    let buffer = w.buffer + samples;
    let since = w.samples_since_detect + samples.len();
    if buffer.len() < DETECTION_WINDOW || since < HOP_SIZE {
        (SampleWindowView { buffer, samples_since_detect: since }, None)
    } else {
        let window = last_n(buffer, DETECTION_WINDOW as int);
        (
            SampleWindowView {
                buffer: if buffer.len() > 2 * DETECTION_WINDOW { window } else { buffer },
                samples_since_detect: 0,
            },
            Some(window),
        )
    }
}

/// A window that has received nothing.
pub open spec fn empty_window<T>() -> SampleWindowView<T> {
    SampleWindowView { buffer: Seq::empty(), samples_since_detect: 0 }
}

impl<T> SampleWindow<T> {
    #[verifier::type_invariant]
    spec fn consistent(self) -> bool {
        window_state_ok(self.buffer@.len(), self.samples_since_detect as nat)
    }
}

impl<T: Copy> SampleWindow<T> {
    /// A window that has received nothing.
    pub fn new() -> (w: Self)
        ensures
            w@ == empty_window::<T>(),
            window_state_ok(w@.buffer.len(), w@.samples_since_detect),
    {
        SampleWindow { buffer: Vec::with_capacity(DETECTION_WINDOW * 2), samples_since_detect: 0 }
    }

    /// Feed samples from the audio callback. Returns the window to analyse
    /// when it is time to run detection.
    pub fn feed(&mut self, samples: &[T]) -> (window: Option<Vec<T>>)
        requires
            old(self)@.samples_since_detect + samples@.len() <= usize::MAX,
        ensures
            final(self)@ == feed_spec(old(self)@, samples@).0,
            window_state_ok(final(self)@.buffer.len(), final(self)@.samples_since_detect),
            match window {
                Some(w) => feed_spec(old(self)@, samples@).1 == Some(w@),
                None => feed_spec(old(self)@, samples@).1 is None,
            },
    {
        proof {
            use_type_invariant(&*self);
        }
        let mut state = SampleWindow { buffer: Vec::new(), samples_since_detect: 0 };
        std::mem::swap(&mut state, self);
        let SampleWindow { mut buffer, samples_since_detect: since_before } = state;
        let ghost old_buffer = buffer@;

        // Append new samples
        let mut i: usize = 0;
        while i < samples.len()
            invariant
                0 <= i <= samples@.len(),
                buffer@ == old_buffer + samples@.subrange(0, i as int),
            decreases samples@.len() - i,
        {
            buffer.push(samples[i]);
            proof {
                assert(old_buffer + samples@.subrange(0, i + 1)
                    =~= (old_buffer + samples@.subrange(0, i as int)).push(samples@[i as int]));
            }
            i = i + 1;
        }
        proof {
            assert(samples@.subrange(0, samples@.len() as int) =~= samples@);
        }
        let samples_since_detect = since_before + samples.len();

        // Not enough samples yet
        if buffer.len() < DETECTION_WINDOW || samples_since_detect < HOP_SIZE {
            *self = SampleWindow { buffer, samples_since_detect };
            return None;
        }

        // Take the last DETECTION_WINDOW samples for analysis
        let start = buffer.len() - DETECTION_WINDOW;
        let window = vstd::slice::slice_to_vec(vstd::slice::slice_subrange(buffer.as_slice(), start, buffer.len()));

        // Keep buffer from growing forever — retain only what we need for overlap
        if buffer.len() > DETECTION_WINDOW * 2 {
            let kept = vstd::slice::slice_to_vec(vstd::slice::slice_subrange(buffer.as_slice(), start, buffer.len()));
            *self = SampleWindow { buffer: kept, samples_since_detect: 0 };
        } else {
            *self = SampleWindow { buffer, samples_since_detect: 0 };
        }
        Some(window)
    }
}

// ── Laws ──

/// The buffer never grows past two windows and a hop, however the samples
/// arrive.
pub proof fn lemma_feed_stays_bounded<T>(w: SampleWindowView<T>, samples: Seq<T>)
    requires
        window_state_ok(w.buffer.len(), w.samples_since_detect),
    ensures
        window_state_ok(feed_spec(w, samples).0.buffer.len(), feed_spec(w, samples).0.samples_since_detect),
{
}

/// Every sample fed, in order: the concatenation of the chunks.
pub open spec fn stream<T>(chunks: Seq<Seq<T>>) -> Seq<T>
    decreases chunks.len(),
{
    if chunks.len() == 0 {
        Seq::empty()
    } else {
        stream(chunks.drop_last()) + chunks.last()
    }
}

/// The state of a fresh window after feeding it `chunks` in order.
pub open spec fn fed<T>(chunks: Seq<Seq<T>>) -> SampleWindowView<T>
    decreases chunks.len(),
{
    if chunks.len() == 0 {
        empty_window()
    } else {
        feed_spec(fed(chunks.drop_last()), chunks.last()).0
    }
}

/// `a` is a suffix of `b`.
pub open spec fn is_suffix_of<T>(a: Seq<T>, b: Seq<T>) -> bool {
    a.len() <= b.len() && a == last_n(b, a.len() as int)
}

/// The buffer always holds the most recent samples of the stream, in order,
/// at least all those received since the last detection.
pub proof fn lemma_buffer_is_recent_stream<T>(chunks: Seq<Seq<T>>)
    ensures
        is_suffix_of(fed(chunks).buffer, stream(chunks)),
    decreases chunks.len(),
{
    if chunks.len() > 0 {
        let prev = chunks.drop_last();
        let c = chunks.last();
        lemma_buffer_is_recent_stream(prev);
        let b = fed(prev).buffer;
        let st = stream(prev);
        let grown = b + c;
        assert(grown =~= last_n(st + c, grown.len() as int));
        let next = fed(chunks).buffer;
        if next.len() < grown.len() {
            assert(next =~= last_n(stream(chunks), next.len() as int));
        } else {
            assert(next =~= last_n(stream(chunks), next.len() as int));
        }
    } else {
        assert(fed(chunks).buffer =~= last_n(stream(chunks), 0));
    }
}

/// What detection is handed is exactly the latest `DETECTION_WINDOW` samples
/// of everything fed so far.
pub proof fn lemma_window_is_latest_samples<T>(chunks: Seq<Seq<T>>, samples: Seq<T>)
    requires
        feed_spec(fed(chunks), samples).1 is Some,
    ensures
        feed_spec(fed(chunks), samples).1 == Some(last_n(stream(chunks.push(samples)), DETECTION_WINDOW as int)),
{
    lemma_buffer_is_recent_stream(chunks);
    let b = fed(chunks).buffer;
    let all = chunks.push(samples);
    assert(all.drop_last() =~= chunks);
    assert(stream(all) == stream(chunks) + samples);
    let grown = b + samples;
    assert(last_n(grown, DETECTION_WINDOW as int) =~= last_n(stream(all), DETECTION_WINDOW as int));
}

/// Detection runs at most once per hop: right after a window is handed out,
/// fewer than `HOP_SIZE` new samples never give another.
pub proof fn lemma_hop_between_detections<T>(w: SampleWindowView<T>, samples: Seq<T>, more: Seq<T>)
    requires
        feed_spec(w, samples).1 is Some,
        more.len() < HOP_SIZE,
    ensures
        feed_spec(feed_spec(w, samples).0, more).1 is None,
{
}

/// Feeding `samples` after `chunks` hands out a window (runs detection).
pub open spec fn detects<T>(chunks: Seq<Seq<T>>, samples: Seq<T>) -> bool {
    feed_spec(fed(chunks), samples).1 is Some
}

/// Samples fed since the last call that ran detection (all of them if none did).
pub open spec fn fed_since_detection<T>(chunks: Seq<Seq<T>>) -> nat
    decreases chunks.len(),
{
    if chunks.len() == 0 {
        0
    } else if detects(chunks.drop_last(), chunks.last()) {
        0
    } else {
        fed_since_detection(chunks.drop_last()) + chunks.last().len()
    }
}

/// After any sequence of feeds the window is consistent: in particular the
/// buffer holds fewer than two windows and a hop of samples.
pub proof fn lemma_fed_bounded<T>(chunks: Seq<Seq<T>>)
    ensures
        window_state_ok(fed(chunks).buffer.len(), fed(chunks).samples_since_detect),
        fed(chunks).buffer.len() < 2 * DETECTION_WINDOW + HOP_SIZE,
    decreases chunks.len(),
{
    if chunks.len() > 0 {
        lemma_fed_bounded(chunks.drop_last());
        lemma_feed_stays_bounded(fed(chunks.drop_last()), chunks.last());
    }
}

/// The hop count is the number of samples fed since the last detection.
pub proof fn lemma_hop_count_is_fed_since_detection<T>(chunks: Seq<Seq<T>>)
    ensures
        fed(chunks).samples_since_detect == fed_since_detection(chunks),
    decreases chunks.len(),
{
    if chunks.len() > 0 {
        lemma_hop_count_is_fed_since_detection(chunks.drop_last());
    }
}

/// The buffer holds a full window exactly when a full window has been fed in
/// total, and until then it holds everything fed.
pub proof fn lemma_buffer_full_iff_stream_full<T>(chunks: Seq<Seq<T>>)
    ensures
        (fed(chunks).buffer.len() >= DETECTION_WINDOW) == (stream(chunks).len() >= DETECTION_WINDOW),
        fed(chunks).buffer.len() < DETECTION_WINDOW ==> fed(chunks).buffer == stream(chunks),
        fed(chunks).buffer == stream(chunks) || fed(chunks).buffer.len() >= DETECTION_WINDOW,
    decreases chunks.len(),
{
    lemma_buffer_is_recent_stream(chunks);
    if chunks.len() > 0 {
        let prev = chunks.drop_last();
        lemma_buffer_full_iff_stream_full(prev);
        let b = fed(prev).buffer;
        let c = chunks.last();
        if b == stream(prev) {
            assert(b + c == stream(chunks));
        }
    }
}

/// Detection runs exactly when at least `DETECTION_WINDOW` samples have been
/// fed in total and at least `HOP_SIZE` since the previous detection.
pub proof fn lemma_detection_iff<T>(chunks: Seq<Seq<T>>, samples: Seq<T>)
    ensures
        detects(chunks, samples) == (stream(chunks.push(samples)).len() >= DETECTION_WINDOW
            && fed_since_detection(chunks) + samples.len() >= HOP_SIZE),
{
    let all = chunks.push(samples);
    assert(all.drop_last() =~= chunks);
    lemma_buffer_full_iff_stream_full(all);
    lemma_hop_count_is_fed_since_detection(chunks);
    lemma_buffer_full_iff_stream_full(chunks);
    lemma_buffer_is_recent_stream(chunks);
    let b = fed(chunks).buffer;
    let grown = b + samples;
    // the buffer before cutting back has a full window exactly when the stream does
    if b == stream(chunks) {
        assert(grown == stream(all));
    } else {
        assert(b.len() >= DETECTION_WINDOW);
        assert(stream(all).len() >= grown.len());
    }
}

} // verus!
