//! A bounded in-memory log with a level threshold, and per-name timing
//! statistics. Writing the lines somewhere is left to the caller.

use vstd::prelude::*;

verus! {

/// Severity of a log line, in rising order.
#[derive(Clone, Copy, Debug, PartialEq, Eq, PartialOrd, Ord, Hash, Structural)]
pub enum LogLevel {
    Trace,
    Debug,
    Info,
    Warn,
    Error,
}

/// One line of the log.
#[derive(Debug, PartialEq, Eq)]
pub struct LogEntry {
    /// Milliseconds since the Unix epoch.
    pub timestamp: i64,
    pub level: LogLevel,
    pub module: String,
    pub message: String,
    /// Key and value pairs, the values in JSON text.
    pub context: Vec<(String, String)>,
}

/// What a log line says.
pub struct LogRecord {
    pub timestamp: i64,
    pub level: LogLevel,
    pub module: Seq<char>,
    pub message: Seq<char>,
    pub context: Seq<(Seq<char>, Seq<char>)>,
}

/// Timing statistics of one named operation, durations in nanoseconds.
#[derive(Debug, PartialEq, Eq)]
pub struct PerformanceMetric {
    pub name: String,
    /// Sum of all recorded durations.
    pub duration: u128,
    pub count: u64,
    pub avg_duration: u128,
    pub max_duration: u128,
    pub min_duration: u128,
}

/// Running statistics of one name, durations in nanoseconds.
#[derive(Clone, Copy, Debug, PartialEq, Eq, Structural)]
pub struct MetricStats {
    pub count: u64,
    pub total: u128,
    pub max: u128,
    pub min: u128,
}

/// The log.
pub struct Logger {
    level: LogLevel,
    entries: Vec<LogEntry>,
    max_entries: usize,
    metrics: Vec<(String, MetricStats)>,
}

/// A stopwatch that records its reading under a name.
pub struct Timer {
    name: String,
    start: std::time::Instant,
}

/// `std::time::Instant`: a moment on the monotonic clock. Nothing is known
/// of what a value holds.
#[verifier::external_type_specification]
#[verifier::external_body]
pub struct ExInstant(std::time::Instant);

/// Number of entries that a log keeps.
pub const MAX_LOG_ENTRIES: usize = 10000;

impl LogLevel {
    /// Position in the order of severities, `Trace` being 0.
    pub open spec fn rank(self) -> int {
        match self {
            LogLevel::Trace => 0,
            LogLevel::Debug => 1,
            LogLevel::Info => 2,
            LogLevel::Warn => 3,
            LogLevel::Error => 4,
        }
    }

    fn rank_of(self) -> (r: u8)
        ensures
            r == self.rank(),
    {
        match self {
            LogLevel::Trace => 0,
            LogLevel::Debug => 1,
            LogLevel::Info => 2,
            LogLevel::Warn => 3,
            LogLevel::Error => 4,
        }
    }

    /// The level that a name stands for, whatever its case; a name that
    /// stands for none counts as `Info`.
    pub open spec fn named(lowered: Seq<char>) -> LogLevel {
        if lowered == "trace"@ {
            LogLevel::Trace
        } else if lowered == "debug"@ {
            LogLevel::Debug
        } else if lowered == "warn"@ {
            LogLevel::Warn
        } else if lowered == "error"@ {
            LogLevel::Error
        } else {
            LogLevel::Info
        }
    }

    /// The level that a name stands for, whatever its case.
    pub fn parse(name: &str) -> (r: LogLevel)
        ensures
            r == LogLevel::named(crate::templates::lowercase_of(name@)),
    {
        let lowered = crate::templates::lowercase(name);
        if lowered == "trace".to_string() {
            LogLevel::Trace
        } else if lowered == "debug".to_string() {
            LogLevel::Debug
        } else if lowered == "warn".to_string() {
            LogLevel::Warn
        } else if lowered == "error".to_string() {
            LogLevel::Error
        } else {
            LogLevel::Info
        }
    }

    /// Whether `self` is at least as severe as `other`.
    pub fn at_least(self, other: LogLevel) -> (r: bool)
        ensures
            r == (self.rank() >= other.rank()),
    {
        self.rank_of() >= other.rank_of()
    }
}

/// Keys and values of a context as text.
pub open spec fn pairs(context: Seq<(String, String)>) -> Seq<(Seq<char>, Seq<char>)> {
    Seq::new(context.len(), |i: int| (context[i].0@, context[i].1@))
}

impl View for LogEntry {
    type V = LogRecord;

    open spec fn view(&self) -> LogRecord {
        LogRecord {
            timestamp: self.timestamp,
            level: self.level,
            module: self.module@,
            message: self.message@,
            context: pairs(self.context@),
        }
    }
}

impl LogEntry {
    /// A copy that says the same.
    pub fn duplicate(&self) -> (e: LogEntry)
        ensures
            e@ == self@,
    {
        let mut context: Vec<(String, String)> = Vec::new();
        let mut i: usize = 0;
        while i < self.context.len()
            invariant
                i <= self.context@.len(),
                context@ == self.context@.take(i as int),
            decreases self.context@.len() - i,
        {
            let pair = (self.context[i].0.clone(), self.context[i].1.clone());
            context.push(pair);
            assert(context@ =~= self.context@.take(i as int + 1));
            i += 1;
        }
        assert(context@ =~= self.context@);
        let e = LogEntry {
            timestamp: self.timestamp,
            level: self.level,
            module: self.module.clone(),
            message: self.message.clone(),
            context,
        };
        assert(e@.context =~= self@.context);
        e
    }
}

/// The record with the given parts.
pub open spec fn line(
    timestamp: i64,
    level: LogLevel,
    module: Seq<char>,
    message: Seq<char>,
    context: Seq<(Seq<char>, Seq<char>)>,
) -> LogRecord {
    LogRecord { timestamp, level, module, message, context }
}

/// The records of a list of entries.
pub open spec fn records(entries: Seq<LogEntry>) -> Seq<LogRecord> {
    Seq::new(entries.len(), |i: int| entries[i]@)
}

/// The last `limit` of the records, or all where there are fewer.
pub open spec fn newest(all: Seq<LogRecord>, limit: nat) -> Seq<LogRecord> {
    if all.len() > limit {
        all.subrange(all.len() - limit, all.len() as int)
    } else {
        all
    }
}

/// Whether a record passes a filter: at least as severe as `level`, and of
/// the module asked for, if one is.
pub open spec fn passes(record: LogRecord, level: LogLevel, module: Option<Seq<char>>) -> bool {
    record.level.rank() >= level.rank() && match module {
        Some(m) => record.module == m,
        None => true,
    }
}

/// The records that pass a filter, in their order.
pub open spec fn selected(all: Seq<LogRecord>, level: LogLevel, module: Option<Seq<char>>) -> Seq<
    LogRecord,
>
    decreases all.len(),
{
    if all.len() == 0 {
        Seq::empty()
    } else if passes(all.last(), level, module) {
        selected(all.drop_last(), level, module).push(all.last())
    } else {
        selected(all.drop_last(), level, module)
    }
}

/// Statistics before anything was recorded.
pub open spec fn fresh_stats() -> MetricStats {
    MetricStats { count: 0, total: 0, max: 0, min: u128::MAX }
}

/// Statistics after one more duration; count and total stay at their
/// largest value once they reach it.
pub open spec fn stats_with(stats: MetricStats, nanos: u128) -> MetricStats {
    MetricStats {
        count: if stats.count < u64::MAX {
            (stats.count + 1) as u64
        } else {
            stats.count
        },
        total: if stats.total + nanos <= u128::MAX {
            (stats.total + nanos) as u128
        } else {
            u128::MAX
        },
        max: if stats.max < nanos {
            nanos
        } else {
            stats.max
        },
        min: if nanos < stats.min {
            nanos
        } else {
            stats.min
        },
    }
}

/// The first place at or after `from` where `name` has its statistics.
pub open spec fn metric_index(
    metrics: Seq<(Seq<char>, MetricStats)>,
    name: Seq<char>,
    from: int,
) -> Option<int>
    decreases metrics.len() - from,
{
    if from < 0 || from >= metrics.len() {
        None
    } else if metrics[from].0 == name {
        Some(from)
    } else {
        metric_index(metrics, name, from + 1)
    }
}

/// The statistics after a duration was recorded under `name`: its entry is
/// updated where it has one, and added at the end where it has none.
pub open spec fn metrics_with(
    metrics: Seq<(Seq<char>, MetricStats)>,
    name: Seq<char>,
    nanos: u128,
) -> Seq<(Seq<char>, MetricStats)> {
    match metric_index(metrics, name, 0) {
        Some(i) => metrics.update(i, (name, stats_with(metrics[i].1, nanos))),
        None => metrics.push((name, stats_with(fresh_stats(), nanos))),
    }
}

/// The report on one name: mean by whole-number division, and a minimum of 0
/// where nothing was recorded.
pub open spec fn report_of(name: Seq<char>, stats: MetricStats) -> (
    Seq<char>,
    u128,
    u64,
    u128,
    u128,
    u128,
) {
    (
        name,
        stats.total,
        stats.count,
        if stats.count > 0 {
            stats.total / (stats.count as u128)
        } else {
            0
        },
        stats.max,
        if stats.min == u128::MAX {
            0
        } else {
            stats.min
        },
    )
}

impl View for PerformanceMetric {
    type V = (Seq<char>, u128, u64, u128, u128, u128);

    open spec fn view(&self) -> (Seq<char>, u128, u64, u128, u128, u128) {
        (
            self.name@,
            self.duration,
            self.count,
            self.avg_duration,
            self.max_duration,
            self.min_duration,
        )
    }
}

/// The current time from `chrono::Utc::now`, as `timestamp_millis` gives it:
/// milliseconds since the Unix epoch. Nothing is claimed of the value. The
/// call panics where the system clock stands before the epoch.
#[verifier::external_body]
pub(crate) fn now_millis() -> i64 {
    chrono::Utc::now().timestamp_millis()
}

/// `std::time::Instant::now`: the present moment on the monotonic clock.
#[verifier::external_body]
pub(crate) fn instant_now() -> std::time::Instant {
    std::time::Instant::now()
}

/// `std::time::Instant::elapsed`, in nanoseconds: the time since `start` on
/// the monotonic clock. Nothing is claimed of the value.
#[verifier::external_body]
pub(crate) fn elapsed_nanos(start: &std::time::Instant) -> u128 {
    start.elapsed().as_nanos()
}

impl Logger {
    /// The threshold below which lines are dropped.
    pub closed spec fn threshold(&self) -> LogLevel {
        self.level
    }

    /// The lines kept, oldest first.
    pub closed spec fn lines(&self) -> Seq<LogRecord> {
        records(self.entries@)
    }

    /// How many lines the log keeps at most.
    pub closed spec fn capacity(&self) -> nat {
        self.max_entries as nat
    }

    /// The statistics by name, in the order in which the names first came.
    pub closed spec fn stats(&self) -> Seq<(Seq<char>, MetricStats)> {
        Seq::new(self.metrics@.len(), |i: int| (self.metrics@[i].0@, self.metrics@[i].1))
    }

    /// An empty log with threshold `Info` that keeps 10000 lines.
    pub fn new() -> (l: Logger)
        ensures
            l.threshold() == LogLevel::Info,
            l.lines() == Seq::<LogRecord>::empty(),
            l.capacity() == MAX_LOG_ENTRIES,
            l.stats() == Seq::<(Seq<char>, MetricStats)>::empty(),
    {
        let l = Logger {
            level: LogLevel::Info,
            entries: Vec::new(),
            max_entries: MAX_LOG_ENTRIES,
            metrics: Vec::new(),
        };
        assert(l.lines() =~= Seq::<LogRecord>::empty());
        assert(l.stats() =~= Seq::<(Seq<char>, MetricStats)>::empty());
        l
    }

    /// Sets the threshold.
    pub fn set_level(&mut self, level: LogLevel)
        ensures
            final(self).threshold() == level,
            final(self).lines() == old(self).lines(),
            final(self).capacity() == old(self).capacity(),
            final(self).stats() == old(self).stats(),
    {
        self.level = level;
    }

    /// Appends a line stamped `timestamp` if `level` reaches the threshold,
    /// then drops the oldest lines beyond the capacity. Returns whether the
    /// line was appended.
    pub fn log_at(
        &mut self,
        timestamp: i64,
        level: LogLevel,
        module: &str,
        message: String,
        context: Vec<(String, String)>,
    ) -> (kept: bool)
        ensures
            kept == (level.rank() >= old(self).threshold().rank()),
            kept ==> final(self).lines() == newest(
                old(self).lines().push(
                    line(timestamp, level, module@, message@, pairs(context@)),
                ),
                old(self).capacity(),
            ),
            !kept ==> final(self).lines() == old(self).lines(),
            final(self).threshold() == old(self).threshold(),
            final(self).capacity() == old(self).capacity(),
            final(self).stats() == old(self).stats(),
    {
        if !level.at_least(self.level) {
            return false;
        }
        let entry = LogEntry { timestamp, level, module: module.to_owned(), message, context };
        let ghost record = entry@;
        let ghost before = self.lines();
        self.entries.push(entry);
        assert(records(self.entries@) =~= before.push(record));
        while self.entries.len() > self.max_entries
            invariant
                self.level == old(self).level,
                self.max_entries == old(self).max_entries,
                self.metrics == old(self).metrics,
                self.entries@.len() <= before.len() + 1,
                self.entries@.len() == before.len() + 1 || self.entries@.len() >= self.max_entries,
                records(self.entries@) == before.push(record).subrange(
                    before.len() + 1 - self.entries@.len(),
                    before.len() + 1 as int,
                ),
            decreases self.entries@.len(),
        {
            let ghost prior = self.entries@;
            self.entries.remove(0);
            assert(self.entries@ == prior.remove(0));
            assert forall|k: int| 0 <= k < self.entries@.len() implies records(self.entries@)[k]
                == before.push(record)[before.len() + 1 - self.entries@.len() + k] by {
                assert(self.entries@[k] == prior[k + 1]);
                assert(records(prior)[k + 1] == prior[k + 1]@);
            }
            assert(records(self.entries@) =~= before.push(record).subrange(
                before.len() + 1 - self.entries@.len(),
                before.len() + 1 as int,
            ));
        }
        assert(records(self.entries@) =~= newest(before.push(record), self.max_entries as nat));
        true
    }

    /// Appends a line stamped with the present time; see [`Logger::log_at`].
    pub fn log(
        &mut self,
        level: LogLevel,
        module: &str,
        message: String,
        context: Vec<(String, String)>,
    ) -> (kept: bool)
        ensures
            kept == (level.rank() >= old(self).threshold().rank()),
            kept ==> exists|timestamp: i64|
                final(self).lines() == newest(
                    old(self).lines().push(
                        #[trigger] line(timestamp, level, module@, message@, pairs(context@)),
                    ),
                    old(self).capacity(),
                ),
            !kept ==> final(self).lines() == old(self).lines(),
            final(self).threshold() == old(self).threshold(),
            final(self).capacity() == old(self).capacity(),
            final(self).stats() == old(self).stats(),
    {
        let timestamp = now_millis();
        self.log_at(timestamp, level, module, message, context)
    }

    /// Counts one more run of `name` that took `nanos` nanoseconds.
    pub fn record_metric(&mut self, name: &str, nanos: u128)
        ensures
            final(self).stats() == metrics_with(old(self).stats(), name@, nanos),
            final(self).threshold() == old(self).threshold(),
            final(self).lines() == old(self).lines(),
            final(self).capacity() == old(self).capacity(),
    {
        let key = name.to_owned();
        let ghost before = self.stats();
        let mut i: usize = 0;
        while i < self.metrics.len()
            invariant
                i <= self.metrics@.len(),
                key@ == name@,
                self.stats() == before,
                before == old(self).stats(),
                self.level == old(self).level,
                self.entries == old(self).entries,
                self.max_entries == old(self).max_entries,
                metric_index(before, name@, 0) == metric_index(before, name@, i as int),
            decreases self.metrics@.len() - i,
        {
            if self.metrics[i].0 == key {
                let stats = self.metrics[i].1;
                let updated = MetricStats {
                    count: if stats.count < u64::MAX {
                        stats.count + 1
                    } else {
                        stats.count
                    },
                    total: match stats.total.checked_add(nanos) {
                        Some(t) => t,
                        None => u128::MAX,
                    },
                    max: if stats.max < nanos {
                        nanos
                    } else {
                        stats.max
                    },
                    min: if nanos < stats.min {
                        nanos
                    } else {
                        stats.min
                    },
                };
                assert(before[i as int].0 == name@);
                assert(metric_index(before, name@, i as int) == Some(i as int));
                assert(updated == stats_with(before[i as int].1, nanos));
                self.metrics[i].1 = updated;
                assert(self.stats() =~= before.update(i as int, (name@, updated)));
                return ;
            }
            i += 1;
        }
        let first = MetricStats { count: 1, total: nanos, max: nanos, min: nanos };
        self.metrics.push((key, first));
        assert(self.stats() =~= before.push((name@, first)));
    }

    /// One report per name, in the order in which the names first came.
    pub fn get_metrics(&self) -> (r: Vec<PerformanceMetric>)
        ensures
            r@.len() == self.stats().len(),
            forall|i: int|
                0 <= i < r@.len() ==> (#[trigger] r@[i])@ == report_of(
                    self.stats()[i].0,
                    self.stats()[i].1,
                ),
    {
        let mut out: Vec<PerformanceMetric> = Vec::new();
        let mut i: usize = 0;
        while i < self.metrics.len()
            invariant
                i <= self.metrics@.len(),
                out@.len() == i,
                forall|k: int|
                    0 <= k < i ==> (#[trigger] out@[k])@ == report_of(
                        self.stats()[k].0,
                        self.stats()[k].1,
                    ),
            decreases self.metrics@.len() - i,
        {
            let stats = self.metrics[i].1;
            let avg: u128 = if stats.count > 0 {
                stats.total / (stats.count as u128)
            } else {
                0
            };
            out.push(
                PerformanceMetric {
                    name: self.metrics[i].0.clone(),
                    duration: stats.total,
                    count: stats.count,
                    avg_duration: avg,
                    max_duration: stats.max,
                    min_duration: if stats.min == u128::MAX {
                        0
                    } else {
                        stats.min
                    },
                },
            );
            i += 1;
        }
        out
    }

    /// The newest `n` lines, oldest first.
    pub fn get_recent_logs(&self, n: usize) -> (r: Vec<LogEntry>)
        ensures
            records(r@) == newest(self.lines(), n as nat),
    {
        let start: usize = if self.entries.len() > n {
            self.entries.len() - n
        } else {
            0
        };
        let mut out: Vec<LogEntry> = Vec::new();
        let mut i: usize = start;
        while i < self.entries.len()
            invariant
                start <= i <= self.entries@.len(),
                records(out@) == records(self.entries@).subrange(start as int, i as int),
            decreases self.entries@.len() - i,
        {
            let e = self.entries[i].duplicate();
            let ghost prior = records(out@);
            out.push(e);
            assert(records(out@) =~= prior.push(self.entries@[i as int]@));
            assert(records(out@) =~= records(self.entries@).subrange(start as int, i as int + 1));
            i += 1;
        }
        assert(records(out@) =~= newest(self.lines(), n as nat));
        out
    }

    /// The lines at least as severe as `level`, of module `module` if one is
    /// given, oldest first.
    pub fn filter_logs(&self, level: LogLevel, module: Option<&str>) -> (r: Vec<LogEntry>)
        ensures
            records(r@) == selected(
                self.lines(),
                level,
                match module {
                    Some(m) => Some(m@),
                    None => None,
                },
            ),
    {
        let wanted: Option<String> = match module {
            Some(m) => Some(m.to_owned()),
            None => None,
        };
        let ghost filter: Option<Seq<char>> = match module {
            Some(m) => Some(m@),
            None => None,
        };
        let mut out: Vec<LogEntry> = Vec::new();
        let mut i: usize = 0;
        assert(records(self.entries@).take(0) =~= Seq::<LogRecord>::empty());
        while i < self.entries.len()
            invariant
                i <= self.entries@.len(),
                match wanted {
                    Some(w) => filter == Some(w@),
                    None => filter is None,
                },
                records(out@) == selected(records(self.entries@).take(i as int), level, filter),
            decreases self.entries@.len() - i,
        {
            let entry = &self.entries[i];
            let module_ok = match &wanted {
                Some(w) => entry.module == *w,
                None => true,
            };
            let ghost prefix = records(self.entries@).take(i as int + 1);
            assert(prefix.drop_last() =~= records(self.entries@).take(i as int));
            assert(prefix.last() == entry@);
            if entry.level.at_least(level) && module_ok {
                let e = entry.duplicate();
                let ghost prior = records(out@);
                out.push(e);
                assert(records(out@) =~= prior.push(entry@));
            }
            i += 1;
        }
        assert(records(self.entries@).take(self.entries@.len() as int) =~= records(self.entries@));
        out
    }

    /// Forgets all lines and all statistics.
    pub fn clear(&mut self)
        ensures
            final(self).lines() == Seq::<LogRecord>::empty(),
            final(self).stats() == Seq::<(Seq<char>, MetricStats)>::empty(),
            final(self).threshold() == old(self).threshold(),
            final(self).capacity() == old(self).capacity(),
    {
        self.entries.clear();
        self.metrics.clear();
        assert(self.lines() =~= Seq::<LogRecord>::empty());
        assert(self.stats() =~= Seq::<(Seq<char>, MetricStats)>::empty());
    }
}


/// Sets the threshold of `logger`.
pub fn set_log_level(logger: &mut Logger, level: LogLevel)
    ensures
        final(logger).threshold() == level,
        final(logger).lines() == old(logger).lines(),
        final(logger).capacity() == old(logger).capacity(),
        final(logger).stats() == old(logger).stats(),
{
    logger.set_level(level);
}

/// What [`Logger::log`] leaves behind for a line without context.
pub open spec fn logged(before: &Logger, after: &Logger, level: LogLevel, module: &str, message: String) -> bool {
    &&& after.threshold() == before.threshold()
    &&& after.capacity() == before.capacity()
    &&& after.stats() == before.stats()
    &&& if level.rank() >= before.threshold().rank() {
        exists|timestamp: i64|
            after.lines() == newest(
                before.lines().push(
                    #[trigger] line(
                        timestamp,
                        level,
                        module@,
                        message@,
                        Seq::<(Seq<char>, Seq<char>)>::empty(),
                    ),
                ),
                before.capacity(),
            )
    } else {
        after.lines() == before.lines()
    }
}

/// Logs `message` at level `Trace`; returns whether it was kept.
pub fn trace(logger: &mut Logger, module: &str, message: String) -> (kept: bool)
    ensures
        kept == (LogLevel::Trace.rank() >= old(logger).threshold().rank()),
        logged(old(logger), final(logger), LogLevel::Trace, module, message),
{
    log_plain(logger, LogLevel::Trace, module, message)
}

/// Logs `message` at level `Debug`; returns whether it was kept.
pub fn debug(logger: &mut Logger, module: &str, message: String) -> (kept: bool)
    ensures
        kept == (LogLevel::Debug.rank() >= old(logger).threshold().rank()),
        logged(old(logger), final(logger), LogLevel::Debug, module, message),
{
    log_plain(logger, LogLevel::Debug, module, message)
}

/// Logs `message` at level `Info`; returns whether it was kept.
pub fn info(logger: &mut Logger, module: &str, message: String) -> (kept: bool)
    ensures
        kept == (LogLevel::Info.rank() >= old(logger).threshold().rank()),
        logged(old(logger), final(logger), LogLevel::Info, module, message),
{
    log_plain(logger, LogLevel::Info, module, message)
}

/// Logs `message` at level `Warn`; returns whether it was kept.
pub fn warn(logger: &mut Logger, module: &str, message: String) -> (kept: bool)
    ensures
        kept == (LogLevel::Warn.rank() >= old(logger).threshold().rank()),
        logged(old(logger), final(logger), LogLevel::Warn, module, message),
{
    log_plain(logger, LogLevel::Warn, module, message)
}

/// Logs `message` at level `Error`; returns whether it was kept.
pub fn error(logger: &mut Logger, module: &str, message: String) -> (kept: bool)
    ensures
        kept == (LogLevel::Error.rank() >= old(logger).threshold().rank()),
        logged(old(logger), final(logger), LogLevel::Error, module, message),
{
    log_plain(logger, LogLevel::Error, module, message)
}

fn log_plain(logger: &mut Logger, level: LogLevel, module: &str, message: String) -> (kept: bool)
    ensures
        kept == (level.rank() >= old(logger).threshold().rank()),
        logged(old(logger), final(logger), level, module, message),
{
    let context: Vec<(String, String)> = Vec::new();
    assert(pairs(context@) =~= Seq::<(Seq<char>, Seq<char>)>::empty());
    logger.log(level, module, message, context)
}

/// Logs `message` with a context; returns whether it was kept.
pub fn log_with_context(
    logger: &mut Logger,
    level: LogLevel,
    module: &str,
    message: String,
    context: Vec<(String, String)>,
) -> (kept: bool)
    ensures
        kept == (level.rank() >= old(logger).threshold().rank()),
        kept ==> exists|timestamp: i64|
            final(logger).lines() == newest(
                old(logger).lines().push(
                    #[trigger] line(timestamp, level, module@, message@, pairs(context@)),
                ),
                old(logger).capacity(),
            ),
        !kept ==> final(logger).lines() == old(logger).lines(),
        final(logger).threshold() == old(logger).threshold(),
        final(logger).capacity() == old(logger).capacity(),
        final(logger).stats() == old(logger).stats(),
{
    logger.log(level, module, message, context)
}

/// Counts one more run of `name` that took `nanos` nanoseconds.
pub fn record_metric(logger: &mut Logger, name: &str, nanos: u128)
    ensures
        final(logger).stats() == metrics_with(old(logger).stats(), name@, nanos),
        final(logger).threshold() == old(logger).threshold(),
        final(logger).lines() == old(logger).lines(),
        final(logger).capacity() == old(logger).capacity(),
{
    logger.record_metric(name, nanos);
}

/// One report per name, in the order in which the names first came.
pub fn get_metrics(logger: &Logger) -> (r: Vec<PerformanceMetric>)
    ensures
        r@.len() == logger.stats().len(),
        forall|i: int|
            0 <= i < r@.len() ==> (#[trigger] r@[i])@ == report_of(
                logger.stats()[i].0,
                logger.stats()[i].1,
            ),
{
    logger.get_metrics()
}

/// The newest `n` lines, oldest first.
pub fn get_recent_logs(logger: &Logger, n: usize) -> (r: Vec<LogEntry>)
    ensures
        records(r@) == newest(logger.lines(), n as nat),
{
    logger.get_recent_logs(n)
}

/// The lines that pass a filter, oldest first.
pub fn filter_logs(logger: &Logger, level: LogLevel, module: Option<&str>) -> (r: Vec<LogEntry>)
    ensures
        records(r@) == selected(
            logger.lines(),
            level,
            match module {
                Some(m) => Some(m@),
                None => None,
            },
        ),
{
    logger.filter_logs(level, module)
}

/// Forgets all lines and all statistics.
pub fn clear_logs(logger: &mut Logger)
    ensures
        final(logger).lines() == Seq::<LogRecord>::empty(),
        final(logger).stats() == Seq::<(Seq<char>, MetricStats)>::empty(),
        final(logger).threshold() == old(logger).threshold(),
        final(logger).capacity() == old(logger).capacity(),
{
    logger.clear();
}

impl Timer {
    /// The name under which the reading is recorded.
    pub closed spec fn label(&self) -> Seq<char> {
        self.name@
    }

    /// Starts a stopwatch now.
    pub fn new(name: String) -> (t: Timer)
        ensures
            t.label() == name@,
    {
        Timer { name, start: instant_now() }
    }

    /// Nanoseconds since the stopwatch was started.
    pub fn elapsed(&self) -> u128 {
        elapsed_nanos(&self.start)
    }

    /// Records the present reading in `logger` under the stopwatch's name.
    pub fn record(&self, logger: &mut Logger)
        ensures
            exists|nanos: u128|
                final(logger).stats() == #[trigger] metrics_with(
                    old(logger).stats(),
                    self.label(),
                    nanos,
                ),
            final(logger).threshold() == old(logger).threshold(),
            final(logger).lines() == old(logger).lines(),
            final(logger).capacity() == old(logger).capacity(),
    {
        let nanos = self.elapsed();
        logger.record_metric(self.name.as_str(), nanos);
        assert(logger.stats() == metrics_with(old(logger).stats(), self.label(), nanos));
    }
}

/// The outcome of one health check.
#[derive(Debug, PartialEq, Eq)]
pub struct CheckResult {
    pub passed: bool,
    pub message: String,
    /// In JSON text.
    pub details: String,
}

/// The outcomes of all health checks.
#[derive(Debug, PartialEq, Eq)]
pub struct HealthStatus {
    /// Whether every check passed.
    pub healthy: bool,
    pub checks: Vec<(String, CheckResult)>,
    /// Milliseconds since the Unix epoch.
    pub timestamp: i64,
}

/// Named health checks.
pub struct HealthChecker<F> {
    checks: Vec<(String, F)>,
}

/// The first check at or after `from` with the given name.
pub open spec fn check_at<F>(checks: Seq<(String, F)>, name: Seq<char>, from: int) -> Option<int>
    decreases checks.len() - from,
{
    if from < 0 || from >= checks.len() {
        None
    } else if checks[from].0@ == name {
        Some(from)
    } else {
        check_at(checks, name, from + 1)
    }
}

/// Whether every outcome passed.
pub open spec fn all_passed(outcomes: Seq<(String, CheckResult)>) -> bool {
    forall|i: int| 0 <= i < outcomes.len() ==> (#[trigger] outcomes[i]).1.passed
}

impl<F: Fn() -> CheckResult> HealthChecker<F> {
    /// The checks, in the order their names first came.
    pub closed spec fn registered(&self) -> Seq<(String, F)> {
        self.checks@
    }

    /// Every check can be run.
    pub open spec fn runnable(&self) -> bool {
        forall|i: int|
            0 <= i < self.registered().len() ==> (#[trigger] self.registered()[i]).1.requires(())
    }

    /// A checker without checks.
    pub fn new() -> (c: Self)
        ensures
            c.registered().len() == 0,
    {
        HealthChecker { checks: Vec::new() }
    }

    /// Registers a check under a name; it takes the place of the check of
    /// that name, and comes last where there is none.
    pub fn register_check(&mut self, name: String, check: F)
        ensures
            match check_at(old(self).registered(), name@, 0) {
                Some(p) => final(self).registered() == old(self).registered().update(
                    p,
                    (name, check),
                ),
                None => final(self).registered() == old(self).registered().push((name, check)),
            },
    {
        let mut i: usize = 0;
        while i < self.checks.len()
            invariant
                i <= self.checks@.len(),
                self.checks == old(self).checks,
                check_at(self.checks@, name@, 0) == check_at(self.checks@, name@, i as int),
            decreases self.checks@.len() - i,
        {
            if self.checks[i].0 == name {
                self.checks[i] = (name, check);
                return ;
            }
            i += 1;
        }
        self.checks.push((name, check));
    }

    /// Runs every check, in the order their names first came. The status
    /// is healthy when every check passed.
    pub fn run_checks(&self) -> (status: HealthStatus)
        requires
            self.runnable(),
        ensures
            status.checks@.len() == self.registered().len(),
            forall|i: int|
                0 <= i < status.checks@.len() ==> (#[trigger] status.checks@[i]).0
                    == self.registered()[i].0 && self.registered()[i].1.ensures(
                    (),
                    status.checks@[i].1,
                ),
            status.healthy == all_passed(status.checks@),
    {
        let mut results: Vec<(String, CheckResult)> = Vec::new();
        let mut all_healthy = true;
        let mut i: usize = 0;
        while i < self.checks.len()
            invariant
                i <= self.checks@.len(),
                self.runnable(),
                results@.len() == i,
                forall|k: int|
                    0 <= k < i ==> (#[trigger] results@[k]).0 == self.checks@[k].0
                        && self.checks@[k].1.ensures((), results@[k].1),
                all_healthy == all_passed(results@),
            decreases self.checks@.len() - i,
        {
            assert(self.registered()[i as int].1.requires(()));
            let check = &self.checks[i].1;
            let result = check();
            let ghost before = results@;
            if !result.passed {
                all_healthy = false;
            }
            results.push((self.checks[i].0.clone(), result));
            proof {
                assert forall|k: int| 0 <= k < i implies results@[k] == before[k] by {}
                if all_healthy {
                    assert forall|k: int| 0 <= k < results@.len() implies (
                    #[trigger] results@[k]).1.passed by {
                        if k < i {
                            assert(before[k].1.passed);
                        }
                    }
                } else {
                    if all_passed(results@) {
                        assert(results@[i as int].1.passed);
                        assert forall|k: int| 0 <= k < before.len() implies (
                        #[trigger] before[k]).1.passed by {
                            assert(results@[k].1.passed);
                        }
                    }
                }
            }
            i += 1;
        }
        HealthStatus { healthy: all_healthy, checks: results, timestamp: now_millis() }
    }
}

} // verus!
