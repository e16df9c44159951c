//! A bounded log of the notes played, split into phrases.

use vstd::prelude::*;

verus! {

/// Most entries the log keeps; older ones are dropped first.
pub const MAX_LOG_SIZE: usize = 200;

/// A pause longer than this (in nanoseconds) before a new note starts a new phrase.
pub const PHRASE_GAP_NS: u64 = 500_000_000;

/// One logged note.
#[derive(Debug, Clone)]
pub struct LogEntry<E> {
    pub event: E,
    pub is_phrase_start: bool,
}

/// The note log: the last `MAX_LOG_SIZE` distinct notes, each marked when it
/// starts a phrase. Timestamps are in nanoseconds on a monotonic clock.
pub struct NoteLog<E> {
    entries: Vec<LogEntry<E>>,
    /// The MIDI note of each entry
    notes: Ghost<Seq<u8>>,
    last_timestamp: Option<u64>,
    last_midi_note: Option<u8>,
}

/// The state of a note log as mathematical values.
pub struct NoteLogView<E> {
    pub entries: Seq<LogEntry<E>>,
    /// The MIDI note of each entry, as it was pushed.
    pub notes: Seq<u8>,
    pub last_timestamp: Option<u64>,
    pub last_midi_note: Option<u8>,
}

impl<E> View for NoteLog<E> {
    type V = NoteLogView<E>;

    closed spec fn view(&self) -> NoteLogView<E> {
        NoteLogView {
            entries: self.entries@,
            notes: self.notes@,
            last_timestamp: self.last_timestamp,
            last_midi_note: self.last_midi_note,
        }
    }
}

/// A note heard at `timestamp` starts a phrase when no note was heard before,
/// or when more than `PHRASE_GAP_NS` passed since the last one (an earlier
/// timestamp counts as no time passed).
pub open spec fn starts_phrase(last_timestamp: Option<u64>, timestamp: u64) -> bool {
    match last_timestamp {
        Some(last) => timestamp - last > PHRASE_GAP_NS,
        None => true,
    }
}

/// The log after a note is heard. The same note as the last one heard is not
/// logged again, but its time is remembered; any other note is appended,
/// dropping the oldest entry when the log is full.
pub open spec fn push_spec<E>(log: NoteLogView<E>, event: E, midi_note: u8, timestamp: u64) -> NoteLogView<E> {
    if log.last_midi_note == Some(midi_note) {
        NoteLogView { last_timestamp: Some(timestamp), ..log }
    } else {
        let entry = LogEntry { event, is_phrase_start: starts_phrase(log.last_timestamp, timestamp) };
        let grown = log.entries.push(entry);
        let grown_notes = log.notes.push(midi_note);
        NoteLogView {
            entries: if grown.len() > MAX_LOG_SIZE { grown.drop_first() } else { grown },
            notes: if grown.len() > MAX_LOG_SIZE { grown_notes.drop_first() } else { grown_notes },
            last_timestamp: Some(timestamp),
            last_midi_note: Some(midi_note),
        }
    }
}

/// The empty log, with no note heard.
pub open spec fn empty_log<E>() -> NoteLogView<E> {
    NoteLogView { entries: Seq::empty(), notes: Seq::empty(), last_timestamp: None, last_midi_note: None }
}

/// What every reachable log satisfies: at most `MAX_LOG_SIZE` entries, one
/// note per entry, neighbouring entries hold different notes, the newest
/// entry holds the last note heard, and a log without entries has heard no
/// note at all.
pub open spec fn log_wf<E>(log: NoteLogView<E>) -> bool {
    &&& log.entries.len() == log.notes.len()
    &&& log.entries.len() <= MAX_LOG_SIZE
    &&& forall|i: int, j: int| 0 <= i && j == i + 1 && j < log.notes.len()
        ==> #[trigger] log.notes[i] != #[trigger] log.notes[j]
    &&& log.notes.len() > 0 ==> log.last_midi_note == Some(log.notes.last())
    &&& log.notes.len() == 0 ==> log.last_midi_note is None && log.last_timestamp is None
}

impl<E> NoteLog<E> {
    #[verifier::type_invariant]
    spec fn well_formed(self) -> bool {
        log_wf(self@)
    }

    /// An empty log.
    pub fn new() -> (log: Self)
        ensures
            log@ == empty_log::<E>(),
    {
        NoteLog {
            entries: Vec::with_capacity(MAX_LOG_SIZE),
            notes: Ghost(Seq::empty()),
            last_timestamp: None,
            last_midi_note: None,
        }
    }

    /// Record a note (`midi_note`, heard at `timestamp_ns`) carried by `event`.
    pub fn push(&mut self, event: E, midi_note: u8, timestamp_ns: u64)
        ensures
            final(self)@ == push_spec(old(self)@, event, midi_note, timestamp_ns),
            log_wf(final(self)@),
    {
        proof {
            use_type_invariant(&*self);
            lemma_push_keeps_wf(self@, event, midi_note, timestamp_ns);
        }
        // Skip if same note as last logged
        if self.last_midi_note == Some(midi_note) {
            // Still update timestamp so phrase detection works
            self.last_timestamp = Some(timestamp_ns);
            return;
        }

        let is_phrase_start = match self.last_timestamp {
            Some(last) => timestamp_ns > last && timestamp_ns - last > PHRASE_GAP_NS,
            None => true,
        };

        let mut log = NoteLog { entries: Vec::new(), notes: Ghost(Seq::empty()), last_timestamp: None, last_midi_note: None };
        std::mem::swap(&mut log, self);
        let NoteLog { mut entries, notes, .. } = log;
        let ghost before = entries@;
        let ghost mut new_notes = notes@.push(midi_note);
        if entries.len() >= MAX_LOG_SIZE {
            entries.remove(0);
            proof {
                new_notes = new_notes.drop_first();
            }
        }
        entries.push(LogEntry { event, is_phrase_start });
        proof {
            let grown = before.push(LogEntry { event, is_phrase_start });
            if grown.len() > MAX_LOG_SIZE {
                assert(entries@ =~= grown.drop_first());
            } else {
                assert(entries@ =~= grown);
            }
        }
        *self = NoteLog {
            entries,
            notes: Ghost(new_notes),
            last_timestamp: Some(timestamp_ns),
            last_midi_note: Some(midi_note),
        };
    }

    /// The logged notes, oldest first.
    pub fn entries(&self) -> (entries: &[LogEntry<E>])
        ensures
            entries@ == self@.entries,
            entries@.len() <= MAX_LOG_SIZE,
    {
        proof {
            use_type_invariant(self);
        }
        self.entries.as_slice()
    }

    /// Forget every note, as if none had been heard.
    pub fn clear(&mut self)
        ensures
            final(self)@ == empty_log::<E>(),
    {
        *self = NoteLog {
            entries: Vec::new(),
            notes: Ghost(Seq::empty()),
            last_timestamp: None,
            last_midi_note: None,
        };
    }

    /// Number of logged notes.
    pub fn len(&self) -> (n: usize)
        ensures
            n == self@.entries.len(),
            n <= MAX_LOG_SIZE,
    {
        proof {
            use_type_invariant(self);
        }
        self.entries.len()
    }

    /// Whether no note is logged.
    pub fn is_empty(&self) -> (empty: bool)
        ensures
            empty == (self@.entries.len() == 0),
    {
        self.entries.is_empty()
    }
}

// ── Laws ──

/// Hearing a note keeps a log well formed: at most `MAX_LOG_SIZE` entries,
/// and neighbouring entries hold different notes.
pub proof fn lemma_push_keeps_wf<E>(log: NoteLogView<E>, event: E, midi_note: u8, timestamp: u64)
    requires
        log_wf(log),
    ensures
        log_wf(push_spec(log, event, midi_note, timestamp)),
{
    let after = push_spec(log, event, midi_note, timestamp);
    if log.last_midi_note != Some(midi_note) {
        let grown_notes = log.notes.push(midi_note);
        assert forall|i: int, j: int| 0 <= i && j == i + 1 && j < grown_notes.len()
            implies #[trigger] grown_notes[i] != #[trigger] grown_notes[j] by {
            if j == log.notes.len() {
                assert(grown_notes[i] == log.notes.last());
            } else {
                assert(grown_notes[i] == log.notes[i] && grown_notes[j] == log.notes[j]);
            }
        }
        if grown_notes.len() > MAX_LOG_SIZE {
            let dropped = grown_notes.drop_first();
            assert forall|i: int, j: int| 0 <= i && j == i + 1 && j < dropped.len()
                implies #[trigger] dropped[i] != #[trigger] dropped[j] by {
                assert(dropped[i] == grown_notes[i + 1] && dropped[j] == grown_notes[j + 1]);
            }
        }
    }
}

/// One call on a note log.
pub enum LogCall<E> {
    /// `push(event, midi_note, timestamp)`
    Push(E, u8, u64),
    /// `clear()`
    Clear,
}

/// The log after `new()` and then the calls in `calls`, in order.
pub open spec fn run_log<E>(calls: Seq<LogCall<E>>) -> NoteLogView<E>
    decreases calls.len(),
{
    if calls.len() == 0 {
        empty_log()
    } else {
        let before = run_log(calls.drop_last());
        match calls.last() {
            LogCall::Push(event, midi_note, timestamp) => push_spec(before, event, midi_note, timestamp),
            LogCall::Clear => empty_log(),
        }
    }
}

/// Whatever calls a log has seen, it holds at most `MAX_LOG_SIZE` entries,
/// and no two neighbouring entries hold the same note.
pub proof fn lemma_any_history_wf<E>(calls: Seq<LogCall<E>>)
    ensures
        log_wf(run_log(calls)),
        run_log(calls).entries.len() <= MAX_LOG_SIZE,
        forall|i: int| 0 <= i < run_log(calls).notes.len() - 1
            ==> #[trigger] run_log(calls).notes[i] != run_log(calls).notes[i + 1],
    decreases calls.len(),
{
    if calls.len() > 0 {
        lemma_any_history_wf(calls.drop_last());
        match calls.last() {
            LogCall::Push(event, midi_note, timestamp) =>
                lemma_push_keeps_wf(run_log(calls.drop_last()), event, midi_note, timestamp),
            LogCall::Clear => {},
        }
    }
    let log = run_log(calls);
    assert forall|i: int| 0 <= i < log.notes.len() - 1 implies #[trigger] log.notes[i] != log.notes[i + 1] by {
        let j = i + 1;
        assert(log.notes[i] != log.notes[j]);
    }
}

/// A note held or repeated right after itself is logged once.
pub proof fn lemma_repeated_note_logged_once<E>(
    log: NoteLogView<E>,
    first: E,
    again: E,
    midi_note: u8,
    t1: u64,
    t2: u64,
)
    ensures
        push_spec(push_spec(log, first, midi_note, t1), again, midi_note, t2).entries
            == push_spec(log, first, midi_note, t1).entries,
{
}

/// A note other than the last one heard becomes the newest entry, marked as a
/// phrase start by `starts_phrase`; the entries before it are the newest of
/// the old ones, all of them while the log has room.
pub proof fn lemma_new_note_appended<E>(log: NoteLogView<E>, event: E, midi_note: u8, timestamp: u64)
    requires
        log.entries.len() <= MAX_LOG_SIZE,
        log.last_midi_note != Some(midi_note),
    ensures
        ({
            let after = push_spec(log, event, midi_note, timestamp).entries;
            let kept = if log.entries.len() < MAX_LOG_SIZE { log.entries.len() as int } else { MAX_LOG_SIZE - 1 };
            &&& after.len() == kept + 1
            &&& after.last() == LogEntry { event, is_phrase_start: starts_phrase(log.last_timestamp, timestamp) }
            &&& after.drop_last() == log.entries.subrange(log.entries.len() - kept, log.entries.len() as int)
        }),
{
    let after = push_spec(log, event, midi_note, timestamp).entries;
    let kept = if log.entries.len() < MAX_LOG_SIZE { log.entries.len() as int } else { MAX_LOG_SIZE - 1 };
    assert(after.drop_last() =~= log.entries.subrange(log.entries.len() - kept, log.entries.len() as int));
}

/// The first note heard by an empty log starts a phrase.
pub proof fn lemma_first_note_starts_phrase<E>(event: E, midi_note: u8, timestamp: u64)
    ensures
        push_spec(empty_log::<E>(), event, midi_note, timestamp).entries
            == seq![LogEntry { event, is_phrase_start: true }],
{
    assert(push_spec(empty_log::<E>(), event, midi_note, timestamp).entries
        =~= seq![LogEntry { event, is_phrase_start: true }]);
}

/// Repeats of a note keep the phrase clock running: the next different note
/// starts a phrase only if it comes more than `PHRASE_GAP_NS` after the last
/// repeat, not after the first hearing.
pub proof fn lemma_repeat_keeps_phrase_going<E>(
    log: NoteLogView<E>,
    first: E,
    again: E,
    next: E,
    midi_note: u8,
    next_midi_note: u8,
    t1: u64,
    t2: u64,
    t3: u64,
)
    requires
        next_midi_note != midi_note,
    ensures
        ({
            let held = push_spec(push_spec(log, first, midi_note, t1), again, midi_note, t2);
            push_spec(held, next, next_midi_note, t3).entries.last().is_phrase_start
                == (t3 - t2 > PHRASE_GAP_NS)
        }),
{
}

/// A well-formed log without entries logs the next note it hears, as the
/// start of a phrase.
pub proof fn lemma_empty_log_logs_next<E>(log: NoteLogView<E>, event: E, midi_note: u8, timestamp: u64)
    requires
        log_wf(log),
        log.entries.len() == 0,
    ensures
        push_spec(log, event, midi_note, timestamp).entries == seq![LogEntry { event, is_phrase_start: true }],
        push_spec(log, event, midi_note, timestamp).notes == seq![midi_note],
{
    let after = push_spec(log, event, midi_note, timestamp);
    assert(after.entries =~= seq![LogEntry { event, is_phrase_start: true }]);
    assert(after.notes =~= seq![midi_note]);
}

} // verus!
