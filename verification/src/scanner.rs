//! The collection loop and the work of one cycle.
//!
//! The loop has two states. While idle it waits for its timer; when the timer
//! fires it scans; when the scan is over it is idle again and waits for the
//! scan interval, whatever became of the scan. The first wait, before the very
//! first scan, is the warm-up delay. Cycles never overlap: the next wait starts
//! only when a cycle's work is done.
//!
//! The decisions are made here; waiting, listing the directory, reading the
//! dumps and posting the lines are the caller's part.

use crate::config::{sink_of, Args, SinkConfig};
use crate::counters::{distinct_names, map_of};
use crate::dump::{read_outcome, split_and_parse_fops_json, DumpCounts};
use crate::error::CollectError;
use crate::matcher::{
    match_listing, match_models, names_of, scan_outcome, MatchModel, MatchedFile, StatsFileEntry,
};
use crate::measurement::{build_measurement, measurement_of, no_empty_tag, Measurement};
use crate::text::{chars_of, string_of_range};
use vstd::prelude::*;

verus! {

/// Where the loop stands.
#[derive(Debug, Clone, Copy, PartialEq, Eq, Structural)]
pub enum LoopState {
    /// Waiting for the timer.
    Idle,
    /// Working through one cycle.
    Scanning,
}

/// What the loop is told.
#[derive(Debug, Clone, Copy, PartialEq, Eq, Structural)]
pub enum LoopEvent {
    /// The wait that was asked for last is over.
    TimerFired,
    /// The cycle's work is done. The error, if any, is the one that cut the
    /// cycle short.
    CycleFinished(Option<CollectError>),
}

/// What the loop asks its caller to do next.
#[derive(Debug, Clone, Copy, PartialEq, Eq, Structural)]
pub enum LoopAction {
    /// Wait this many seconds, then report `TimerFired`.
    Wait(u64),
    /// Run one cycle, then report `CycleFinished`.
    Scan,
    /// The event does not belong to the state; nothing changes.
    Ignore,
}

/// The state that follows `state` on `event`, and what to do then.
/// `interval` is the scan interval in seconds.
pub open spec fn transition(state: LoopState, event: LoopEvent, interval: u64) -> (
    LoopState,
    LoopAction,
) {
    match (state, event) {
        (LoopState::Idle, LoopEvent::TimerFired) => (LoopState::Scanning, LoopAction::Scan),
        (LoopState::Scanning, LoopEvent::CycleFinished(_)) => (
            LoopState::Idle,
            LoopAction::Wait(interval),
        ),
        _ => (state, LoopAction::Ignore),
    }
}

/// The collector of one host: its sink, its timing and the state of its loop.
pub struct BrickScanner {
    pub config: SinkConfig,
    /// The name under which this host reports.
    pub hostname: String,
    /// Seconds to wait before the first scan.
    pub warmup_secs: u64,
    /// Seconds to wait between the end of one scan and the start of the next.
    pub interval_secs: u64,
    pub state: LoopState,
}

/// One cycle: the files to collect and the time that all its measurements
/// carry.
pub struct ScanCycle {
    /// Seconds since the epoch at which the cycle began.
    pub timestamp: i64,
    /// The dumps of the known bricks, in the order of the listing.
    pub files: Vec<MatchedFile>,
}

impl ScanCycle {
    /// Every file of the cycle has a name.
    pub open spec fn wf(&self) -> bool {
        forall|i: int|
            0 <= i < self.files.len() ==> {
                &&& (#[trigger] self.files[i]).identity.volume_name@.len() > 0
                &&& self.files[i].identity.brick_name@.len() > 0
            }
    }
}

/// The plain values of the files that a cycle was opened on.
pub open spec fn files_of(opened: Result<ScanCycle, CollectError>) -> Result<
    Seq<MatchModel>,
    CollectError,
> {
    match opened {
        Ok(cycle) => Ok(match_models(cycle.files@)),
        Err(e) => Err(e),
    }
}

/// The counters, as plain values, of the two measurements that a dump gave.
pub open spec fn measured_counts(measured: Result<(Measurement, Measurement), CollectError>) -> Result<
    DumpCounts,
    CollectError,
> {
    match measured {
        Ok((aggr, inter)) => Ok((map_of(aggr@.fields), map_of(inter@.fields))),
        Err(e) => Err(e),
    }
}

/// The wall-clock time in whole seconds since the epoch.
///
/// Trusted: the body reads the clock with `time::get_time` and hands back the
/// seconds of what it got. Nothing is claimed of the value.
#[verifier::external_body]
fn epoch_seconds() -> (r: i64) {
    time::get_time().sec
}

/// `c` is blank: a space, a tab, a line feed, a carriage return, a vertical
/// tab or a form feed.
pub open spec fn is_blank(c: char) -> bool {
    c == ' ' || c == '\t' || c == '\n' || c == '\r' || c == '\u{b}' || c == '\u{c}'
}

/// `s` without the blanks at its start.
pub open spec fn trimmed_start(s: Seq<char>) -> Seq<char>
    decreases s.len(),
{
    if s.len() > 0 && is_blank(s.first()) {
        trimmed_start(s.drop_first())
    } else {
        s
    }
}

/// `s` without the blanks at its end.
pub open spec fn trimmed_end(s: Seq<char>) -> Seq<char>
    decreases s.len(),
{
    if s.len() > 0 && is_blank(s.last()) {
        trimmed_end(s.drop_last())
    } else {
        s
    }
}

/// The host name that a host-identity file with the text `content` gives:
/// the text without the blanks around it.
pub open spec fn host_name_of(content: Seq<char>) -> Seq<char> {
    trimmed_end(trimmed_start(content))
}

/// Where `s` holds blanks only up to index `a`, and none at `a`, its
/// trimmed start is what stands from `a` on.
pub proof fn lemma_trimmed_start(s: Seq<char>, a: int)
    requires
        0 <= a <= s.len(),
        forall|k: int| 0 <= k < a ==> is_blank(#[trigger] s[k]),
        a < s.len() ==> !is_blank(s[a]),
    ensures
        trimmed_start(s) == s.skip(a),
    decreases a,
{
    if a > 0 {
        let rest = s.drop_first();
        assert forall|k: int| 0 <= k < a - 1 implies is_blank(#[trigger] rest[k]) by {
            assert(rest[k] == s[k + 1]);
        }
        lemma_trimmed_start(rest, a - 1);
        assert(rest.skip(a - 1) == s.skip(a));
    } else {
        assert(s.skip(0) == s);
    }
}

/// Where `s` holds blanks only from index `b` on, and none right before `b`,
/// its trimmed end is what stands before `b`.
pub proof fn lemma_trimmed_end(s: Seq<char>, b: int)
    requires
        0 <= b <= s.len(),
        forall|k: int| b <= k < s.len() ==> is_blank(#[trigger] s[k]),
        b > 0 ==> !is_blank(s[b - 1]),
    ensures
        trimmed_end(s) == s.take(b),
    decreases s.len() - b,
{
    if b < s.len() {
        let rest = s.drop_last();
        lemma_trimmed_end(rest, b);
        assert(rest.take(b) == s.take(b));
    } else {
        assert(s.take(b) == s);
    }
}

/// A host name has no blank at its start and none at its end.
pub proof fn lemma_host_name_is_trimmed(content: Seq<char>)
    ensures
        host_name_of(content).len() > 0 ==> !is_blank(host_name_of(content).first()) && !is_blank(
            host_name_of(content).last(),
        ),
{
    lemma_trimmed_start_start(content);
    lemma_trimmed_end_keeps_start(trimmed_start(content));
    lemma_trimmed_end_end(trimmed_start(content));
}

proof fn lemma_trimmed_start_start(s: Seq<char>)
    ensures
        trimmed_start(s).len() > 0 ==> !is_blank(trimmed_start(s).first()),
    decreases s.len(),
{
    if s.len() > 0 && is_blank(s.first()) {
        lemma_trimmed_start_start(s.drop_first());
    }
}

proof fn lemma_trimmed_end_end(s: Seq<char>)
    ensures
        trimmed_end(s).len() > 0 ==> !is_blank(trimmed_end(s).last()),
    decreases s.len(),
{
    if s.len() > 0 && is_blank(s.last()) {
        lemma_trimmed_end_end(s.drop_last());
    }
}

proof fn lemma_trimmed_end_keeps_start(s: Seq<char>)
    ensures
        trimmed_end(s).len() > 0 ==> trimmed_end(s).first() == s.first(),
    decreases s.len(),
{
    if s.len() > 0 && is_blank(s.last()) {
        lemma_trimmed_end_keeps_start(s.drop_last());
    }
}

fn is_blank_char(c: char) -> (r: bool)
    ensures
        r == is_blank(c),
{
    c == ' ' || c == '\t' || c == '\n' || c == '\r' || c == '\u{b}' || c == '\u{c}'
}

/// The host name that a host-identity file with the text `content` gives:
/// the text without the blanks around it, so that the line that ends the
/// file does not end up in a tag.
pub fn host_name(content: &str) -> (r: String)
    ensures
        r@ == host_name_of(content@),
        r@.len() > 0 ==> !is_blank(r@.first()) && !is_blank(r@.last()),
{
    let text = chars_of(content);
    let mut from: usize = 0;
    while from < text.len() && is_blank_char(text[from])
        invariant
            from <= text.len(),
            forall|k: int| 0 <= k < from ==> is_blank(#[trigger] text@[k]),
        decreases text.len() - from,
    {
        from += 1;
    }
    let mut to: usize = text.len();
    while to > from && is_blank_char(text[to - 1])
        invariant
            from <= to <= text.len(),
            forall|k: int| to <= k < text.len() ==> is_blank(#[trigger] text@[k]),
        decreases to,
    {
        to -= 1;
    }
    proof {
        lemma_trimmed_start(text@, from as int);
        let rest = text@.skip(from as int);
        assert forall|k: int| to - from <= k < rest.len() implies is_blank(#[trigger] rest[k]) by {
            assert(rest[k] == text@[k + from]);
        }
        lemma_trimmed_end(rest, to - from);
        assert(rest.take(to - from) == text@.subrange(from as int, to as int));
        lemma_host_name_is_trimmed(content@);
    }
    string_of_range(&text, from, to)
}

/// Sets up the collector of a host from the settings, idle and with
/// `scan_interval` seconds both as warm-up delay and as scan interval.
/// `host_identity` is what the host-identity file holds; the host reports
/// under the name that stands in it between the blanks. There is no collector
/// for a host without a name.
pub fn initialize_brick_scanner(args: Args, scan_interval: u64, host_identity: &str) -> (r: Option<
    BrickScanner,
>)
    ensures
        match r {
            Some(scanner) => {
                &&& scanner.wf()
                &&& scanner.config@ == sink_of(args)
                &&& scanner.hostname@ == host_name_of(host_identity@)
                &&& !is_blank(scanner.hostname@.first())
                &&& !is_blank(scanner.hostname@.last())
                &&& scanner.warmup_secs == scan_interval
                &&& scanner.interval_secs == scan_interval
                &&& scanner.state == LoopState::Idle
            },
            None => host_name_of(host_identity@).len() == 0,
        },
{
    let hostname = host_name(host_identity);
    if hostname.as_str().is_empty() {
        return None;
    }
    Some(
        BrickScanner {
            config: SinkConfig::from_args(args),
            hostname,
            warmup_secs: scan_interval,
            interval_secs: scan_interval,
            state: LoopState::Idle,
        },
    )
}

impl BrickScanner {
    /// The host has a name.
    pub open spec fn wf(&self) -> bool {
        self.hostname@.len() > 0
    }

    /// The same collector with another warm-up delay.
    pub fn with_warmup(self, warmup_secs: u64) -> (r: BrickScanner)
        ensures
            r.warmup_secs == warmup_secs,
            r.config == self.config,
            r.hostname == self.hostname,
            r.interval_secs == self.interval_secs,
            r.state == self.state,
    {
        BrickScanner {
            config: self.config,
            hostname: self.hostname,
            warmup_secs,
            interval_secs: self.interval_secs,
            state: self.state,
        }
    }

    /// What to do first: wait for the warm-up delay.
    pub fn start(&self) -> (action: LoopAction)
        ensures
            action == LoopAction::Wait(self.warmup_secs),
    {
        LoopAction::Wait(self.warmup_secs)
    }

    /// Takes `event` and says what to do next.
    pub fn step(&mut self, event: LoopEvent) -> (action: LoopAction)
        ensures
            (final(self).state, action) == transition(
                old(self).state,
                event,
                old(self).interval_secs,
            ),
            final(self).config == old(self).config,
            final(self).hostname == old(self).hostname,
            final(self).warmup_secs == old(self).warmup_secs,
            final(self).interval_secs == old(self).interval_secs,
    {
        match (self.state, event) {
            (LoopState::Idle, LoopEvent::TimerFired) => {
                self.state = LoopState::Scanning;
                LoopAction::Scan
            },
            (LoopState::Scanning, LoopEvent::CycleFinished(_)) => {
                self.state = LoopState::Idle;
                LoopAction::Wait(self.interval_secs)
            },
            _ => LoopAction::Ignore,
        }
    }

    /// Opens a cycle on what the stats directory lists: `listing` is `None`
    /// where the directory could not be listed, and holds `None` for each
    /// entry that could not be read. The cycle's time is read once, here.
    pub fn begin_cycle(&self, listing: Option<Vec<Option<StatsFileEntry>>>, known: &Vec<String>) -> (r:
        Result<ScanCycle, CollectError>)
        ensures
            files_of(r) == scan_outcome(listing, names_of(known@)),
            r matches Ok(cycle) ==> cycle.wf(),
    {
        let files = match match_listing(&listing, known) {
            Ok(files) => files,
            Err(e) => {
                return Err(e);
            },
        };
        let cycle = ScanCycle { timestamp: epoch_seconds(), files };
        assert(cycle.wf()) by {
            assert forall|i: int| 0 <= i < cycle.files.len() implies {
                &&& (#[trigger] cycle.files[i]).identity.volume_name@.len() > 0
                &&& cycle.files[i].identity.brick_name@.len() > 0
            } by {
                let model = match_models(cycle.files@)[i];
                assert(model.volume_name.len() > 0);
            }
        }
        Ok(cycle)
    }

    /// Turns the dump of the cycle's file `index` into its two measurements,
    /// the aggregate one first. `content` is the text that was read from the
    /// file, or `None` where the file could not be read. Both measurements
    /// carry the cycle's time.
    pub fn collect_file(&self, cycle: &ScanCycle, index: usize, content: Option<&str>) -> (r: Result<
        (Measurement, Measurement),
        CollectError,
    >)
        requires
            self.wf(),
            cycle.wf(),
            index < cycle.files.len(),
        ensures
            measured_counts(r) == read_outcome(
                content,
                cycle.files[index as int].identity.brick_name@,
            ),
            r matches Ok((aggr, inter)) ==> {
                &&& aggr@ == measurement_of(
                    aggr@.fields,
                    self.hostname@,
                    cycle.files[index as int].identity.volume_name@,
                    cycle.files[index as int].identity.brick_name@,
                    cycle.timestamp as int,
                )
                &&& inter@ == measurement_of(
                    inter@.fields,
                    self.hostname@,
                    cycle.files[index as int].identity.volume_name@,
                    cycle.files[index as int].identity.brick_name@,
                    cycle.timestamp as int,
                )
                &&& aggr@.timestamp == inter@.timestamp
                &&& distinct_names(aggr@.fields)
                &&& distinct_names(inter@.fields)
                &&& no_empty_tag(aggr@.tags)
                &&& no_empty_tag(inter@.tags)
            },
    {
        let identity = &cycle.files[index].identity;
        let (aggr, inter) = match split_and_parse_fops_json(content, identity.brick_name.as_str()) {
            Ok(counters) => counters,
            Err(e) => {
                return Err(e);
            },
        };
        let first = build_measurement(
            &aggr,
            self.hostname.as_str(),
            identity.volume_name.as_str(),
            identity.brick_name.as_str(),
            cycle.timestamp,
        );
        let second = build_measurement(
            &inter,
            self.hostname.as_str(),
            identity.volume_name.as_str(),
            identity.brick_name.as_str(),
            cycle.timestamp,
        );
        Ok((first, second))
    }
}

/// The loop outlives a cycle that could not list its directory: it is idle
/// again and waits for the scan interval, and when that wait is over it scans
/// afresh. The same holds of a cycle that ended in any other way.
pub proof fn lemma_failed_cycle_is_followed_by_a_scan(outcome: Option<CollectError>, interval: u64)
    ensures
        transition(LoopState::Scanning, LoopEvent::CycleFinished(outcome), interval) == (
            LoopState::Idle,
            LoopAction::Wait(interval),
        ),
        transition(LoopState::Idle, LoopEvent::TimerFired, interval) == (
            LoopState::Scanning,
            LoopAction::Scan,
        ),
{
}

/// No state is final: in each state one event moves the loop on.
pub proof fn lemma_no_final_state(state: LoopState, interval: u64)
    ensures
        exists|event: LoopEvent| (#[trigger] transition(state, event, interval)).0 != state,
{
    match state {
        LoopState::Idle => {
            assert(transition(state, LoopEvent::TimerFired, interval).0 != state);
        },
        LoopState::Scanning => {
            assert(transition(state, LoopEvent::CycleFinished(None), interval).0 != state);
        },
    }
}

} // verus!
