use crate::milestones::{milestones_of, parse_milestones};
use crate::prompts::{
    build_compress_prompt, build_milestone_prompt, build_summary_prompt, compress_prompt,
    format_transcript, milestone_prompt, string_views, summary_prompt, transcript, MAX_MILESTONES,
};
use crate::retrieval::MessageResult;
use vstd::prelude::*;

verus! {

/// When and how channel summaries are (re)written.
pub struct SummarizationPolicy {
    pub active_channels_lookback_days: i64,
    pub initial_min_messages: usize,
    pub trigger_new_messages: usize,
    pub trigger_age_hours: i64,
    pub trigger_min_new_messages: usize,
    pub max_tokens: usize,
    pub refresh_weeks: i64,
    pub refresh_days_lookback: i64,
}

/// The stored summary of a channel. Times are in the store's
/// `%Y-%m-%d %H:%M:%S` UTC text form; `updated_at` moves on every write,
/// `refreshed_at` only on a full rewrite.
pub struct ChannelSummaryRecord {
    pub summary: String,
    pub updated_at: String,
    pub refreshed_at: String,
}

/// The seconds since the Unix epoch that a time in the store's text form
/// stands for; `None` when the text is not in that form.
pub uninterp spec fn utc_seconds(text: Seq<char>) -> Option<int>;

/// Relies on chrono's `NaiveDateTime::parse_from_str` with `%Y-%m-%d %H:%M:%S`,
/// read as UTC.
#[verifier::external_body]
pub(crate) fn parse_utc(text: &str) -> (r: Option<i64>)
    ensures
        match r {
            Some(t) => utc_seconds(text@) == Some(t as int),
            None => utc_seconds(text@) is None,
        },
{
    match chrono::NaiveDateTime::parse_from_str(text, "%Y-%m-%d %H:%M:%S") {
        Ok(t) => Some(t.and_utc().timestamp()),
        Err(_) => None,
    }
}

pub const SECS_PER_HOUR: i128 = 3600;

pub const SECS_PER_DAY: i128 = 86400;

pub const SECS_PER_WEEK: i128 = 604800;

/// Hours reported as a summary's age when its update time cannot be read.
pub const UNKNOWN_AGE_HOURS: i128 = 999;

/// Whether a full rewrite is due: the last one is known and lies more than
/// `refresh_weeks` weeks before `now`.
pub open spec fn refresh_due_at(p: SummarizationPolicy, now: int, refreshed: Option<int>) -> bool {
    match refreshed {
        Some(t) => now - t > p.refresh_weeks * SECS_PER_WEEK,
        None => false,
    }
}

/// Whole hours from `t` to `now`, rounded toward zero.
pub open spec fn whole_hours(now: int, t: int) -> int {
    if now >= t {
        (now - t) / SECS_PER_HOUR as int
    } else {
        -((t - now) / SECS_PER_HOUR as int)
    }
}

/// A summary's age in hours, or 999 when its update time is unknown.
pub open spec fn age_hours_at(now: int, updated: Option<int>) -> int {
    match updated {
        Some(t) => whole_hours(now, t),
        None => UNKNOWN_AGE_HOURS as int,
    }
}

/// Whether a channel's summary should be (re)computed, given whether it has
/// one, whether a full rewrite is due, the summary's age in hours and the
/// number of messages since it was written.
pub open spec fn should_summarize_spec(
    p: SummarizationPolicy,
    has_record: bool,
    refresh_due: bool,
    age_hours: int,
    new_messages: nat,
) -> bool {
    if !has_record {
        new_messages >= p.initial_min_messages
    } else if refresh_due && new_messages > 0 {
        true
    } else {
        new_messages >= p.trigger_new_messages || (age_hours >= p.trigger_age_hours
            && new_messages >= p.trigger_min_new_messages)
    }
}

/// The times of a stored summary as the decisions read them.
pub struct SummaryClock {
    /// Whether a full rewrite is due.
    pub refresh_due: bool,
    /// The last update, in seconds since the Unix epoch, when readable.
    pub updated_at: Option<i64>,
    /// Whole hours since the last update (999 when unknown).
    pub age_hours: i128,
}

pub open spec fn record_times(r: Option<&ChannelSummaryRecord>) -> (Option<int>, Option<int>) {
    match r {
        Some(rec) => (utc_seconds(rec.updated_at@), utc_seconds(rec.refreshed_at@)),
        None => (None, None),
    }
}

impl SummarizationPolicy {
    /// Reads the times of `record` at `now` (seconds since the Unix epoch).
    pub fn clock(&self, record: Option<&ChannelSummaryRecord>, now: i64) -> (r: SummaryClock)
        ensures
            r.refresh_due == refresh_due_at(*self, now as int, record_times(record).1),
            r.updated_at matches Some(t) ==> record_times(record).0 == Some(t as int),
            r.updated_at is None ==> record_times(record).0 is None,
            r.age_hours == age_hours_at(now as int, record_times(record).0),
    {
        match record {
            None => SummaryClock { refresh_due: false, updated_at: None, age_hours: UNKNOWN_AGE_HOURS },
            Some(rec) => {
                let refreshed = parse_utc(rec.refreshed_at.as_str());
                let updated = parse_utc(rec.updated_at.as_str());
                let refresh_due = match refreshed {
                    Some(t) => (now as i128) - (t as i128) > (self.refresh_weeks as i128) * SECS_PER_WEEK,
                    None => false,
                };
                let age_hours = match updated {
                    Some(t) => if (now as i128) >= (t as i128) {
                        ((now as i128) - (t as i128)) / SECS_PER_HOUR
                    } else {
                        -(((t as i128) - (now as i128)) / SECS_PER_HOUR)
                    },
                    None => UNKNOWN_AGE_HOURS,
                };
                SummaryClock { refresh_due, updated_at: updated, age_hours }
            },
        }
    }

    /// Whether a channel's summary should be (re)computed. Without a summary,
    /// once `initial_min_messages` messages exist; with one, when a full rewrite
    /// is due and any message is new, or when `trigger_new_messages` are new, or
    /// when the summary is `trigger_age_hours` old and `trigger_min_new_messages`
    /// are new.
    pub fn should_summarize(
        &self,
        has_record: bool,
        clock: &SummaryClock,
        new_messages: usize,
    ) -> (r: bool)
        ensures
            r == should_summarize_spec(
                *self,
                has_record,
                clock.refresh_due,
                clock.age_hours as int,
                new_messages as nat,
            ),
    {
        if !has_record {
            return new_messages >= self.initial_min_messages;
        }
        if clock.refresh_due && new_messages > 0 {
            return true;
        }
        new_messages >= self.trigger_new_messages || (clock.age_hours >= self.trigger_age_hours as i128
            && new_messages >= self.trigger_min_new_messages)
    }

    /// The store-form time after which new messages are counted for the
    /// trigger decision: the summary's last update as stored, or 24 hours
    /// before `now` when there is no summary (or no update time). `None` when
    /// that time has no text form (or lies before the earliest `i64` second).
    pub fn count_since(&self, record: Option<&ChannelSummaryRecord>, now: i64) -> (r: Option<String>)
        ensures
            match record {
                Some(rec) if rec.updated_at@.len() > 0 => r matches Some(t) && t@ == rec.updated_at@,
                _ => if now >= i64::MIN + 86400 {
                    match r {
                        Some(t) => crate::retrieval::utc_text(now - 86400) == Some(t@),
                        None => crate::retrieval::utc_text(now - 86400) is None,
                    }
                } else {
                    r is None
                },
            },
    {
        match record {
            Some(rec) => {
                if !rec.updated_at.as_str().is_empty() {
                    return Some(rec.updated_at.clone());
                }
            },
            None => {},
        }
        if now < i64::MIN + 86400 {
            return None;
        }
        crate::retrieval::format_utc(now - 86400)
    }

    /// The start of a summary run's message window in the store's text form;
    /// `None` when it lies outside the `i64` seconds or has no text form.
    pub fn window_start_text(&self, clock: &SummaryClock, now: i64, days: i64) -> (r: Option<String>)
        ensures
            ({
                let w = window_start_at(*self, *clock, now as int, days as int);
                if i64::MIN <= w <= i64::MAX {
                    match r {
                        Some(t) => crate::retrieval::utc_text(w) == Some(t@),
                        None => crate::retrieval::utc_text(w) is None,
                    }
                } else {
                    r is None
                }
            }),
    {
        let w = self.window_start(clock, now, days);
        if w < i64::MIN as i128 || w > i64::MAX as i128 {
            return None;
        }
        crate::retrieval::format_utc(w as i64)
    }

    /// Where the message window of a summary run starts, in seconds since the
    /// Unix epoch: `refresh_days_lookback` days back for a full rewrite, the
    /// last update for an incremental one, and `days` days back otherwise.
    pub fn window_start(&self, clock: &SummaryClock, now: i64, days: i64) -> (r: i128)
        ensures
            r == window_start_at(*self, *clock, now as int, days as int),
    {
        if clock.refresh_due {
            (now as i128) - (self.refresh_days_lookback as i128) * SECS_PER_DAY
        } else {
            match clock.updated_at {
                Some(t) => t as i128,
                None => (now as i128) - (days as i128) * SECS_PER_DAY,
            }
        }
    }
}

/// Where a summary run's message window starts, in seconds since the Unix epoch.
pub open spec fn window_start_at(p: SummarizationPolicy, clock: SummaryClock, now: int, days: int) -> int {
    if clock.refresh_due {
        now - p.refresh_days_lookback * SECS_PER_DAY
    } else {
        match clock.updated_at {
            Some(t) => t as int,
            None => now - days * SECS_PER_DAY,
        }
    }
}

/// Rough token count of a text: a quarter of its characters.
pub open spec fn approx_tokens(s: Seq<char>) -> nat {
    s.len() / 4
}

/// Most compression passes a run asks for.
pub const MAX_COMPRESSIONS: usize = 2;

/// Most stored messages a summary run reads.
pub const SUMMARY_MESSAGE_LIMIT: usize = 200;

/// Most stored milestones a summary run reads.
pub const SUMMARY_MILESTONE_LIMIT: usize = 20;

pub fn within_cap(s: &str, max_tokens: usize) -> (r: bool)
    ensures
        r == (approx_tokens(s@) <= max_tokens),
{
    let n = s.unicode_len();
    n / 4 <= max_tokens
}

/// Where a summary run stands.
pub enum RunPhase {
    /// Waiting for the messages to summarize.
    Gathering,
    /// Waiting for the first draft.
    Drafting,
    /// Waiting for a condensed draft; holds how many passes were asked for.
    Compressing(usize),
    /// Waiting for the summary to be stored.
    Saving,
    /// Waiting for the milestones.
    Extracting,
    /// Nothing more to do.
    Finished,
}

/// What a summary run needs done next.
pub enum SummaryAction {
    /// Ask the model to complete this prompt and pass the answer to `on_completion`.
    Complete(String),
    /// Store this summary (a full rewrite when `refresh`) and call `on_saved`.
    Save { summary: String, refresh: bool },
    /// Replace the channel's milestones with these (none clears them); the
    /// run is over.
    ReplaceMilestones(Vec<String>),
    /// The run is over.
    Finish,
    /// The run failed; the channel is left for the next cycle.
    Abort,
}

/// The decisions of one summary run for one channel. The caller performs each
/// action (model calls, store reads and writes) and reports back.
pub struct SummaryRun {
    pub phase: RunPhase,
    pub record: Option<ChannelSummaryRecord>,
    pub refresh_due: bool,
    pub max_tokens: usize,
    pub summary: String,
}

pub open spec fn prev_view(r: Option<ChannelSummaryRecord>) -> Option<Seq<char>> {
    match r {
        Some(rec) => Some(rec.summary@),
        None => None,
    }
}

impl SummaryRun {
    /// A run for a channel whose stored summary is `record`, read at `clock`.
    pub fn new(policy: &SummarizationPolicy, record: Option<ChannelSummaryRecord>, clock: &SummaryClock) -> (r: SummaryRun)
        ensures
            r.phase == RunPhase::Gathering,
            r.record == record,
            r.refresh_due == (record is Some && clock.refresh_due),
            r.max_tokens == policy.max_tokens,
    {
        let refresh_due = record.is_some() && clock.refresh_due;
        SummaryRun { phase: RunPhase::Gathering, record, refresh_due, max_tokens: policy.max_tokens, summary: String::new() }
    }

    /// The messages of the window (newest first) and the channel's milestones
    /// have been read. Nothing to summarize ends the run; otherwise the model
    /// is asked for a summary in the shape the stored record selects.
    pub fn on_messages(&mut self, rows: &Vec<MessageResult>, milestones: &Vec<String>) -> (a: SummaryAction)
        requires
            old(self).phase == RunPhase::Gathering,
        ensures
            final(self).record == old(self).record,
            final(self).refresh_due == old(self).refresh_due,
            final(self).max_tokens == old(self).max_tokens,
            rows@.len() == 0 ==> a is Finish && final(self).phase == RunPhase::Finished,
            rows@.len() > 0 ==> final(self).phase == RunPhase::Drafting && (a matches SummaryAction::Complete(p)
                && p@ == summary_prompt(
                prev_view(old(self).record),
                old(self).refresh_due,
                string_views(milestones@),
                transcript(rows@),
            )),
    {
        if rows.len() == 0 {
            self.phase = RunPhase::Finished;
            return SummaryAction::Finish;
        }
        let text = format_transcript(rows);
        let prompt = match &self.record {
            Some(rec) => build_summary_prompt(Some(rec), self.refresh_due, milestones, text.as_str()),
            None => build_summary_prompt(None, self.refresh_due, milestones, text.as_str()),
        };
        self.phase = RunPhase::Drafting;
        SummaryAction::Complete(prompt)
    }

    /// The model answered the last prompt. A draft within the token cap is
    /// stored; one over it is sent back for condensing, at most twice, after
    /// which it is stored whatever its size. The milestones parsed from the
    /// model's answer then replace the channel's set, also when there are none
    /// (a `None` answer clears it).
    pub fn on_completion(&mut self, text: String) -> (a: SummaryAction)
        requires
            old(self).phase is Drafting || old(self).phase is Compressing || old(self).phase is Extracting,
            old(self).phase matches RunPhase::Compressing(k) ==> k < MAX_COMPRESSIONS,
        ensures
            final(self).record == old(self).record,
            final(self).refresh_due == old(self).refresh_due,
            final(self).max_tokens == old(self).max_tokens,
            ({
                let done = match old(self).phase {
                    RunPhase::Compressing(k) => k + 1,
                    _ => 0,
                };
                let within = approx_tokens(text@) <= old(self).max_tokens;
                (old(self).phase is Drafting || old(self).phase is Compressing) ==> if within || done
                    >= MAX_COMPRESSIONS {
                    final(self).phase == RunPhase::Saving && final(self).summary@ == text@
                        && (a matches SummaryAction::Save { summary, refresh } && summary@ == text@
                        && refresh == old(self).refresh_due)
                } else {
                    final(self).phase == RunPhase::Compressing(done as usize) && (a matches SummaryAction::Complete(
                        p,
                    ) && p@ == compress_prompt(old(self).max_tokens as nat, text@))
                }
            }),
            old(self).phase is Extracting ==> final(self).phase == RunPhase::Finished && (
            a matches SummaryAction::ReplaceMilestones(m) && string_views(m@) == milestones_of(
                text@,
                MAX_MILESTONES as nat,
            )),
    {
        match self.phase {
            RunPhase::Extracting => {
                let found = parse_milestones(text.as_str(), MAX_MILESTONES);
                self.phase = RunPhase::Finished;
                SummaryAction::ReplaceMilestones(found)
            },
            _ => {
                let done: usize = match self.phase {
                    RunPhase::Compressing(k) => k + 1,
                    _ => 0,
                };
                if within_cap(text.as_str(), self.max_tokens) || done >= MAX_COMPRESSIONS {
                    let prompt_text = text.clone();
                    self.summary = text;
                    self.phase = RunPhase::Saving;
                    SummaryAction::Save { summary: prompt_text, refresh: self.refresh_due }
                } else {
                    let prompt = build_compress_prompt(self.max_tokens, text.as_str());
                    self.phase = RunPhase::Compressing(done);
                    SummaryAction::Complete(prompt)
                }
            },
        }
    }

    /// The summary was stored; the model is asked for its milestones.
    pub fn on_saved(&mut self) -> (a: SummaryAction)
        requires
            old(self).phase == RunPhase::Saving,
        ensures
            final(self).phase == RunPhase::Extracting,
            final(self).summary == old(self).summary,
            final(self).record == old(self).record,
            final(self).refresh_due == old(self).refresh_due,
            final(self).max_tokens == old(self).max_tokens,
            a matches SummaryAction::Complete(p) && p@ == milestone_prompt(old(self).summary@),
    {
        self.phase = RunPhase::Extracting;
        SummaryAction::Complete(build_milestone_prompt(self.summary.as_str()))
    }

    /// An outside call failed. A failed milestone extraction ends the run
    /// normally, leaving the stored summary and milestones as they are; any
    /// other failure aborts the run, leaving the channel for the next cycle.
    pub fn on_failure(&mut self) -> (a: SummaryAction)
        ensures
            final(self).phase == RunPhase::Finished,
            final(self).summary == old(self).summary,
            final(self).record == old(self).record,
            final(self).refresh_due == old(self).refresh_due,
            final(self).max_tokens == old(self).max_tokens,
            old(self).phase is Extracting ==> a is Finish,
            !(old(self).phase is Extracting) ==> a is Abort,
    {
        let extracting = match self.phase {
            RunPhase::Extracting => true,
            _ => false,
        };
        self.phase = RunPhase::Finished;
        if extracting {
            SummaryAction::Finish
        } else {
            SummaryAction::Abort
        }
    }
}

} // verus!
