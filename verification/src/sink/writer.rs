//! Where text goes: which of two writers, which file, and when a new one.

use vstd::prelude::*;

use crate::by_age::{self, matching_by_age};
use crate::text::{self, copy_opt, push_decimal};
use crate::types::Severity;

verus! {

// ---------------------------------------------------------------------------
// Two writers.
// ---------------------------------------------------------------------------
/// The standard output.
#[derive(Debug, Clone, Copy, PartialEq, Eq, Structural, Default)]
pub struct StdoutWriter;

/// The standard error output.
#[derive(Debug, Clone, Copy, PartialEq, Eq, Structural, Default)]
pub struct StderrWriter;

/// Two writers, of which the severity picks one.
#[derive(Debug)]
pub struct LevelSplitWriter<L, H> {
    low: L,
    high: H,
    threshold: Severity,
}

/// Two writers with a threshold.
pub struct SplitView<L, H> {
    pub low: L,
    pub high: H,
    pub threshold: Severity,
}

impl<L, H> View for LevelSplitWriter<L, H> {
    type V = SplitView<L, H>;

    closed spec fn view(&self) -> SplitView<L, H> {
        SplitView { low: self.low, high: self.high, threshold: self.threshold }
    }
}

impl<L: Clone, H: Clone> Clone for LevelSplitWriter<L, H> {
    fn clone(&self) -> (r: Self)
        ensures
            cloned(self@.low, r@.low),
            cloned(self@.high, r@.high),
            r@.threshold == self@.threshold,
    {
        LevelSplitWriter {
            low: self.low.clone(),
            high: self.high.clone(),
            threshold: self.threshold,
        }
    }
}

/// One of two writers.
#[derive(Debug)]
pub enum Branch<'a, L, H> {
    /// That for what is less severe.
    Low(&'a L),
    /// That for what is more severe.
    High(&'a H),
}

impl<L, H> LevelSplitWriter<L, H> {
    /// Splits at `Warn`.
    #[must_use]
    pub fn new(low: L, high: H) -> (r: Self)
        ensures
            r@ == (SplitView { low, high, threshold: Severity::Warn }),
    {
        LevelSplitWriter { low, high, threshold: Severity::Warn }
    }

    /// Sets where to split.
    #[must_use]
    pub fn threshold(self, threshold: Severity) -> (r: Self)
        ensures
            r@ == (SplitView { threshold, ..self@ }),
    {
        LevelSplitWriter { low: self.low, high: self.high, threshold }
    }

    /// The writer of what has no severity.
    pub fn make_writer(&self) -> (r: &L)
        ensures
            *r == self@.low,
    {
        &self.low
    }

    /// The writer of a severity.
    pub fn make_writer_for(&self, sev: Severity) -> (r: Branch<'_, L, H>)
        ensures
            match r {
                Branch::High(w) => sev.rank() >= self@.threshold.rank() && *w == self@.high,
                Branch::Low(w) => sev.rank() < self@.threshold.rank() && *w == self@.low,
            },
    {
        if sev.at_least(self.threshold) {
            Branch::High(&self.high)
        } else {
            Branch::Low(&self.low)
        }
    }
}

/// Two writers that both get everything.
#[derive(Debug)]
pub struct TeeWriter<A, B> {
    pub a: A,
    pub b: B,
}

impl<A: Clone, B: Clone> Clone for TeeWriter<A, B> {
    fn clone(&self) -> (r: Self)
        ensures
            cloned(self.a, r.a),
            cloned(self.b, r.b),
    {
        TeeWriter { a: self.a.clone(), b: self.b.clone() }
    }
}

impl<A, B> TeeWriter<A, B> {
    /// Puts two writers together.
    pub fn new(a: A, b: B) -> (r: Self)
        ensures
            r == (TeeWriter { a, b }),
    {
        TeeWriter { a, b }
    }
}

// ---------------------------------------------------------------------------
// Files that are replaced by new ones.
// ---------------------------------------------------------------------------
/// When a new file is begun.
#[derive(Debug, Clone, Copy, PartialEq, Eq, Structural)]
pub enum RollingPolicy {
    /// Never.
    Never,
    /// When a file has reached a size.
    SizeBased {
        max_bytes: u64,
    },
    /// At midnight UTC.
    Daily,
    /// With every hour UTC.
    Hourly,
    /// When a file has reached a size or an age, in nanoseconds.
    SizeOrAge {
        max_bytes: u64,
        max_age_ns: u128,
    },
}

/// What is known of the file that is written to.
#[derive(Debug, Clone, Copy, PartialEq, Eq, Structural)]
pub struct RollingState {
    /// How many bytes were written to it.
    pub bytes: u64,
    /// When it was opened, in seconds since 1970, where that is known.
    pub opened_secs: Option<u64>,
}

/// What the clock says.
#[derive(Debug, Clone, Copy, PartialEq, Eq, Structural)]
pub struct RollingClock {
    /// The time, in seconds since 1970, where that is known.
    pub now_secs: Option<u64>,
    /// How long the file has been open, in nanoseconds; zero where that is not
    /// known.
    pub age_ns: u128,
}

/// The period of a moment, where that is known.
pub open spec fn period(secs: Option<u64>, len: u64) -> Option<u64> {
    match secs {
        Some(s) => Some((s / len) as u64),
        None => None,
    }
}

/// Whether a new file is due.
pub open spec fn rotation_due(
    policy: RollingPolicy,
    state: RollingState,
    clock: RollingClock,
) -> bool {
    match policy {
        RollingPolicy::Never => false,
        RollingPolicy::SizeBased { max_bytes } => state.bytes >= max_bytes,
        RollingPolicy::Daily => period(state.opened_secs, 86_400) != period(
            clock.now_secs,
            86_400,
        ),
        RollingPolicy::Hourly => period(state.opened_secs, 3_600) != period(clock.now_secs, 3_600),
        RollingPolicy::SizeOrAge { max_bytes, max_age_ns } => state.bytes >= max_bytes
            || clock.age_ns >= max_age_ns,
    }
}

/// The period of a moment, where that is known.
fn period_of(secs: Option<u64>, len: u64) -> (r: Option<u64>)
    requires
        len > 0,
    ensures
        r == period(secs, len),
{
    match secs {
        Some(s) => Some(s / len),
        None => None,
    }
}

/// Whether two periods are the same.
fn same_period(a: Option<u64>, b: Option<u64>) -> (r: bool)
    ensures
        r == (a == b),
{
    match (a, b) {
        (Some(x), Some(y)) => x == y,
        (None, None) => true,
        _ => false,
    }
}

/// Whether a new file is due.
pub fn should_rotate(policy: RollingPolicy, state: RollingState, clock: RollingClock) -> (r: bool)
    ensures
        r == rotation_due(policy, state, clock),
{
    match policy {
        RollingPolicy::Never => false,
        RollingPolicy::SizeBased { max_bytes } => state.bytes >= max_bytes,
        RollingPolicy::Daily => !same_period(
            period_of(state.opened_secs, 86_400),
            period_of(clock.now_secs, 86_400),
        ),
        RollingPolicy::Hourly => !same_period(
            period_of(state.opened_secs, 3_600),
            period_of(clock.now_secs, 3_600),
        ),
        RollingPolicy::SizeOrAge { max_bytes, max_age_ns } => state.bytes >= max_bytes
            || clock.age_ns >= max_age_ns,
    }
}

/// A rolling file in the making.
#[derive(Debug)]
pub struct RollingFileWriterBuilder {
    pub directory: Option<String>,
    pub prefix: Option<String>,
    pub suffix: String,
    pub policy: RollingPolicy,
    pub keep: Option<usize>,
}

impl Default for RollingFileWriterBuilder {
    fn default() -> (r: Self)
        ensures
            r.directory is None,
            r.prefix is None,
            r.suffix@ == ".ndjson"@,
            r.policy == RollingPolicy::Daily,
            r.keep is None,
    {
        RollingFileWriterBuilder {
            directory: None,
            prefix: None,
            suffix: ".ndjson".to_string(),
            policy: RollingPolicy::Daily,
            keep: None,
        }
    }
}

impl Clone for RollingFileWriterBuilder {
    fn clone(&self) -> (r: Self)
        ensures
            r == *self,
    {
        RollingFileWriterBuilder {
            directory: copy_opt(&self.directory),
            prefix: copy_opt(&self.prefix),
            suffix: self.suffix.clone(),
            policy: self.policy,
            keep: self.keep,
        }
    }
}

/// A rolling file that cannot be built.
#[derive(Debug, Clone, Copy, PartialEq, Eq, Structural)]
pub enum RollingError {
    /// No directory was set.
    MissingDirectory,
    /// Nothing was set that the names of the files begin with.
    MissingPrefix,
}

impl RollingError {
    /// The message for a person.
    pub fn message(self) -> (r: &'static str)
        ensures
            r@ == (match self {
                RollingError::MissingDirectory => "directory is required"@,
                RollingError::MissingPrefix => "filename prefix is required"@,
            }),
    {
        match self {
            RollingError::MissingDirectory => "directory is required",
            RollingError::MissingPrefix => "filename prefix is required",
        }
    }
}

impl RollingFileWriterBuilder {
    /// Sets the directory.
    #[must_use]
    pub fn directory(self, dir: String) -> (r: Self)
        ensures
            r == (RollingFileWriterBuilder { directory: Some(dir), ..self }),
    {
        let mut this = self;
        this.directory = Some(dir);
        this
    }

    /// Sets how the names of the files begin. Required.
    #[must_use]
    pub fn filename_prefix(self, p: String) -> (r: Self)
        ensures
            r == (RollingFileWriterBuilder { prefix: Some(p), ..self }),
    {
        let mut this = self;
        this.prefix = Some(p);
        this
    }

    /// Sets how the names of the files end.
    #[must_use]
    pub fn filename_suffix(self, s: String) -> (r: Self)
        ensures
            r == (RollingFileWriterBuilder { suffix: s, ..self }),
    {
        let mut this = self;
        this.suffix = s;
        this
    }

    /// Sets when a new file is begun.
    #[must_use]
    pub fn policy(self, p: RollingPolicy) -> (r: Self)
        ensures
            r == (RollingFileWriterBuilder { policy: p, ..self }),
    {
        let mut this = self;
        this.policy = p;
        this
    }

    /// Sets how many files are kept.
    #[must_use]
    pub fn keep(self, n: usize) -> (r: Self)
        ensures
            r == (RollingFileWriterBuilder { keep: Some(n), ..self }),
    {
        let mut this = self;
        this.keep = Some(n);
        this
    }

    /// Builds the rolling file; no file is open yet.
    ///
    /// # Errors
    ///
    /// A directory must have been set, and what the names of the files begin
    /// with.
    pub fn build(self) -> (r: Result<RollingFileWriter, RollingError>)
        ensures
            match (self.directory, self.prefix) {
                (None, _) => r == Err::<RollingFileWriter, RollingError>(
                    RollingError::MissingDirectory,
                ),
                (Some(_), None) => r == Err::<RollingFileWriter, RollingError>(
                    RollingError::MissingPrefix,
                ),
                (Some(dir), Some(prefix)) => {
                    &&& r matches Ok(w)
                    &&& w.directory == dir
                    &&& w.prefix == prefix
                    &&& w.suffix == self.suffix
                    &&& w.policy == self.policy
                    &&& w.keep == self.keep
                    &&& w.current is None
                },
            },
    {
        let directory = match self.directory {
            Some(dir) => dir,
            None => return Err(RollingError::MissingDirectory),
        };
        let prefix = match self.prefix {
            Some(p) => p,
            None => return Err(RollingError::MissingPrefix),
        };
        Ok(
            RollingFileWriter {
                directory,
                prefix,
                suffix: self.suffix,
                policy: self.policy,
                keep: self.keep,
                current: None,
            },
        )
    }
}

/// A file that is replaced by a new one from time to time.
#[derive(Debug)]
pub struct RollingFileWriter {
    /// Where the files are.
    pub directory: String,
    /// How their names begin.
    pub prefix: String,
    /// How their names end.
    pub suffix: String,
    /// When a new one is begun.
    pub policy: RollingPolicy,
    /// How many are kept; all of them where this is not set.
    pub keep: Option<usize>,
    /// The file that is written to.
    pub current: Option<RollingState>,
}

/// What has to be done before text can be written.
#[derive(Debug, Clone, Copy, PartialEq, Eq, Structural)]
pub enum RollingStep {
    /// Open a first file.
    OpenFirst,
    /// Open another file, and then remove old ones.
    Rotate,
    /// Nothing.
    Write,
}

/// The name of a file.
pub open spec fn rolling_name(
    prefix: Seq<char>,
    suffix: Seq<char>,
    now_secs: Option<u64>,
    counter: u64,
) -> Seq<char> {
    let now = match now_secs {
        Some(s) => s as nat,
        None => 0,
    };
    prefix.push('.') + text::decimal(now).push('-') + text::decimal(counter as nat) + suffix
}

impl RollingFileWriter {
    /// A rolling file in the making.
    #[must_use]
    pub fn builder() -> (r: RollingFileWriterBuilder)
        ensures
            r.directory is None,
            r.prefix is None,
            r.suffix@ == ".ndjson"@,
            r.policy == RollingPolicy::Daily,
            r.keep is None,
    {
        RollingFileWriterBuilder::default()
    }

    /// What has to be done before text can be written. A file that was opened
    /// for this text may be due for replacement at once, but not one that
    /// replaced another.
    pub fn next_step(&self, rotated: bool, clock: RollingClock) -> (r: RollingStep)
        ensures
            r == (match self.current {
                None => RollingStep::OpenFirst,
                Some(state) => if !rotated && rotation_due(self.policy, state, clock) {
                    RollingStep::Rotate
                } else {
                    RollingStep::Write
                },
            }),
    {
        match self.current {
            None => RollingStep::OpenFirst,
            Some(state) => {
                if !rotated && should_rotate(self.policy, state, clock) {
                    RollingStep::Rotate
                } else {
                    RollingStep::Write
                }
            },
        }
    }

    /// The name of the next file. `counter` tells apart those of one second.
    pub fn file_name(&self, now_secs: Option<u64>, counter: u64) -> (r: String)
        ensures
            r@ == rolling_name(self.prefix@, self.suffix@, now_secs, counter),
    {
        let now: u64 = match now_secs {
            Some(s) => s,
            None => 0,
        };
        let mut out = self.prefix.clone();
        out.push('.');
        push_decimal(&mut out, now);
        out.push('-');
        push_decimal(&mut out, counter);
        out.append(self.suffix.as_str());
        assert(out@ =~= rolling_name(self.prefix@, self.suffix@, now_secs, counter));
        out
    }

    /// A new file was opened.
    pub fn opened(&mut self, opened_secs: Option<u64>)
        ensures
            *final(self) == (RollingFileWriter {
                current: Some(RollingState { bytes: 0, opened_secs }),
                ..*old(self)
            }),
    {
        self.current = Some(RollingState { bytes: 0, opened_secs });
    }

    /// So many bytes were written.
    pub fn note_bytes(&mut self, n: u64)
        requires
            old(self).current matches Some(state) ==> state.bytes + n <= u64::MAX,
        ensures
            *final(self) == (RollingFileWriter {
                current: match old(self).current {
                    Some(state) => Some(
                        RollingState { bytes: (state.bytes + n) as u64, ..state },
                    ),
                    None => None,
                },
                ..*old(self)
            }),
    {
        if let Some(state) = self.current {
            self.current = Some(
                RollingState { bytes: state.bytes + n, opened_secs: state.opened_secs },
            );
        }
    }

    /// The files to remove, by their places in `names`: of those that bear the
    /// names of this writer the oldest, so that as many stay as are kept.
    /// `modified` says when each was last changed.
    pub fn evictions(&self, names: &Vec<String>, modified: &Vec<i128>) -> (r: Vec<usize>)
        requires
            names@.len() == modified@.len(),
        ensures
            by_age::places(r@) == by_age::beyond(
                text::texts(names@),
                modified@,
                self.prefix@,
                self.suffix@,
                self.keep,
            ),
    {
        let nothing: Vec<usize> = Vec::new();
        proof {
            assert(by_age::places(nothing@) =~= Seq::<int>::empty());
        }
        let keep: usize = match self.keep {
            Some(n) => n,
            None => return nothing,
        };
        let mut files = matching_by_age(
            names,
            modified,
            self.prefix.as_str(),
            self.suffix.as_str(),
        );
        if files.len() <= keep {
            return nothing;
        }
        let ghost all = files@;
        let extras: usize = files.len() - keep;
        files.truncate(extras);
        proof {
            assert(by_age::places(files@) =~= by_age::places(all).take(extras as int));
        }
        files
    }
}

/// A file of one day is replaced with the first text of another day, whatever
/// was written to it.
pub proof fn law_daily_file_holds_one_day(state: RollingState, clock: RollingClock)
    requires
        state.opened_secs is Some,
        clock.now_secs is Some,
    ensures
        rotation_due(RollingPolicy::Daily, state, clock) <==> state.opened_secs->Some_0 / 86_400
            != clock.now_secs->Some_0 / 86_400,
{
}

// ---------------------------------------------------------------------------
// Text that is written by another thread.
// ---------------------------------------------------------------------------
/// How many texts wait to be written by default.
pub const NON_BLOCKING_DEFAULT_CAPACITY: usize = 8192;

/// What was handed to another thread to be written.
#[derive(Debug)]
pub struct NonBlockingWriter {
    capacity: usize,
    dropped: u64,
}

/// How many texts may wait, and how many bytes were dropped.
pub struct NonBlockingView {
    pub capacity: nat,
    pub dropped: u64,
}

impl View for NonBlockingWriter {
    type V = NonBlockingView;

    closed spec fn view(&self) -> NonBlockingView {
        NonBlockingView { capacity: self.capacity as nat, dropped: self.dropped }
    }
}

/// How many bytes were dropped once a text was handed over, or not.
pub open spec fn dropped_after(dropped: u64, len: nat, taken: bool) -> u64 {
    if taken {
        dropped
    } else {
        ((dropped + len) % 0x1_0000_0000_0000_0000) as u64
    }
}

impl NonBlockingWriter {
    /// A writer that lets so many texts wait; zero stands for the default.
    pub fn new(capacity: usize) -> (r: Self)
        ensures
            r@ == (NonBlockingView {
                capacity: if capacity == 0 {
                    NON_BLOCKING_DEFAULT_CAPACITY as nat
                } else {
                    capacity as nat
                },
                dropped: 0,
            }),
    {
        let capacity: usize = if capacity == 0 {
            NON_BLOCKING_DEFAULT_CAPACITY
        } else {
            capacity
        };
        NonBlockingWriter { capacity, dropped: 0 }
    }

    /// How many texts may wait.
    pub fn capacity(&self) -> (n: usize)
        ensures
            n == self@.capacity,
    {
        self.capacity
    }

    /// How many bytes were dropped for want of room.
    #[must_use]
    pub fn dropped_total(&self) -> (n: u64)
        ensures
            n == self@.dropped,
    {
        self.dropped
    }

    /// A text of `len` bytes was handed over, or there was no room for it. The
    /// count starts over after the largest number.
    pub fn handed_over(&mut self, len: usize, taken: bool)
        ensures
            final(self)@ == (NonBlockingView {
                dropped: if taken {
                    old(self)@.dropped
                } else {
                    ((old(self)@.dropped + len) % 0x1_0000_0000_0000_0000) as u64
                },
                ..old(self)@
            }),
            final(self)@.dropped == dropped_after(old(self)@.dropped, len as nat, taken),
    {
        if !taken {
            self.dropped = self.dropped.wrapping_add(len as u64);
        }
    }
}

/// One text, which is put together before it is handed over.
#[derive(Debug)]
pub struct NonBlockingHandle {
    buf: Vec<u8>,
}

impl View for NonBlockingHandle {
    type V = Seq<u8>;

    closed spec fn view(&self) -> Seq<u8> {
        self.buf@
    }
}

impl NonBlockingHandle {
    /// An empty text.
    pub fn new() -> (r: Self)
        ensures
            r@ == Seq::<u8>::empty(),
    {
        NonBlockingHandle { buf: Vec::new() }
    }

    /// Adds to the text. Says how much: all of it.
    pub fn write(&mut self, b: &[u8]) -> (n: usize)
        ensures
            final(self)@ == old(self)@ + b@,
            n == b@.len(),
    {
        self.buf.extend_from_slice(b);
        proof {
            assert(self.buf@ =~= old(self)@ + b@);
        }
        b.len()
    }

    /// The text that is to be handed over, unless it is empty.
    pub fn flush(&mut self) -> (r: Option<Vec<u8>>)
        ensures
            final(self)@ == Seq::<u8>::empty(),
            match r {
                Some(text) => text@.len() > 0 && text@ == old(self)@,
                None => old(self)@.len() == 0,
            },
    {
        if self.buf.len() == 0 {
            proof {
                assert(self.buf@ =~= Seq::<u8>::empty());
            }
            return None;
        }
        let mut text: Vec<u8> = Vec::new();
        std::mem::swap(&mut text, &mut self.buf);
        Some(text)
    }
}

/// A file is replaced by what its policy goes by, and by nothing else: never, by
/// its size, by the hour, by the day, or by its size or its age.
pub proof fn law_policies_decide_alone(
    state: RollingState,
    clock: RollingClock,
    max_bytes: u64,
    max_age_ns: u128,
    opened: u64,
    now: u64,
)
    ensures
        !rotation_due(RollingPolicy::Never, state, clock),
        rotation_due(RollingPolicy::SizeBased { max_bytes }, state, clock) <==> state.bytes
            >= max_bytes,
        state.opened_secs == Some(opened) && clock.now_secs == Some(now) ==> (rotation_due(
            RollingPolicy::Hourly,
            state,
            clock,
        ) <==> opened / 3_600 != now / 3_600),
        state.opened_secs == Some(opened) && clock.now_secs == Some(now) ==> (rotation_due(
            RollingPolicy::Daily,
            state,
            clock,
        ) <==> opened / 86_400 != now / 86_400),
        state.opened_secs is None && clock.now_secs is None ==> !rotation_due(
            RollingPolicy::Hourly,
            state,
            clock,
        ) && !rotation_due(RollingPolicy::Daily, state, clock),
        state.opened_secs is Some != clock.now_secs is Some ==> rotation_due(
            RollingPolicy::Hourly,
            state,
            clock,
        ) && rotation_due(RollingPolicy::Daily, state, clock),
        rotation_due(RollingPolicy::SizeOrAge { max_bytes, max_age_ns }, state, clock)
            <==> state.bytes >= max_bytes || clock.age_ns >= max_age_ns,
{
}

/// The name of a file begins with the prefix and ends with the suffix. Between
/// them stand the time and a counter, so that two files of one second differ.
pub proof fn law_files_have_different_names(
    prefix: Seq<char>,
    suffix: Seq<char>,
    now: u64,
    a: u64,
    b: u64,
)
    ensures
        rolling_name(prefix, suffix, Some(now), a) == prefix + "."@ + text::decimal(now as nat)
            + "-"@ + text::decimal(a as nat) + suffix,
        rolling_name(prefix, suffix, None, a) == prefix + ".0-"@ + text::decimal(a as nat) + suffix,
        rolling_name(prefix, suffix, Some(now), a) == rolling_name(prefix, suffix, Some(now), b)
            ==> a == b,
{
    reveal_strlit(".");
    reveal_strlit("-");
    reveal_strlit(".0-");
    assert(rolling_name(prefix, suffix, Some(now), a) =~= prefix + "."@ + text::decimal(now as nat)
        + "-"@ + text::decimal(a as nat) + suffix);
    assert(text::decimal(0) =~= seq!['0']);
    assert(rolling_name(prefix, suffix, None, a) =~= prefix + ".0-"@ + text::decimal(a as nat)
        + suffix);
    if rolling_name(prefix, suffix, Some(now), a) == rolling_name(prefix, suffix, Some(now), b) {
        let head = prefix.push('.') + text::decimal(now as nat).push('-');
        let x = rolling_name(prefix, suffix, Some(now), a);
        let y = rolling_name(prefix, suffix, Some(now), b);
        assert(text::decimal(a as nat) =~= x.subrange(
            head.len() as int,
            x.len() - suffix.len(),
        ));
        assert(text::decimal(b as nat) =~= y.subrange(
            head.len() as int,
            y.len() - suffix.len(),
        ));
        text::law_decimal_spells_the_number(a as nat);
        text::law_decimal_spells_the_number(b as nat);
    }
}

/// Before text is written there is a file: a first one is opened where there is
/// none. One that is due is replaced, but not twice for one text.
pub proof fn law_a_file_is_replaced_once(
    w: RollingFileWriter,
    rotated: bool,
    clock: RollingClock,
    r: RollingStep,
)
    requires
        call_ensures(RollingFileWriter::next_step, (&w, rotated, clock), r),
    ensures
        w.current is None <==> r == RollingStep::OpenFirst,
        rotated ==> r != RollingStep::Rotate,
        w.current matches Some(state) ==> (!rotated && rotation_due(w.policy, state, clock) <==> r
            == RollingStep::Rotate),
{
}

/// What is severe enough goes to one writer and the rest to the other.
pub proof fn law_the_severity_picks_the_writer<L, H>(
    w: LevelSplitWriter<L, H>,
    sev: Severity,
    r: Branch<'_, L, H>,
)
    requires
        call_ensures(LevelSplitWriter::<L, H>::make_writer_for, (&w, sev), r),
    ensures
        sev.rank() >= w@.threshold.rank() ==> (r matches Branch::High(high) && *high == w@.high),
        sev.rank() < w@.threshold.rank() ==> (r matches Branch::Low(low) && *low == w@.low),
{
}

/// A text that was taken is not counted; one that was not is counted by its
/// bytes.
pub proof fn law_only_lost_bytes_are_counted(dropped: u64, len: nat)
    ensures
        dropped_after(dropped, len, true) == dropped,
        dropped + len <= u64::MAX ==> dropped_after(dropped, len, false) == dropped + len,
{
}

} // verus!
