//! Restart policy of a supervised component: every exit is a failure that
//! is recorded in the health table, followed by a jittered, doubling delay.

use vstd::prelude::*;
use crate::backoff::{jitter_from, jitter_value};
use crate::entropy::random_u32;
use crate::health::{
    lookup, now_rfc3339, upsert, Change, Entries, ExecChange, HealthRegistry,
    lemma_upsert_lookup, mark_component_ok, stamp_of,
};

verus! {

/// The message recorded when a component returns without an error.
pub open spec fn unexpected_exit_text() -> Seq<char> {
    "component exited unexpectedly"@
}

/// The error text recorded for an exit: the component's own error, or the
/// unexpected-exit message for a clean return.
pub open spec fn exit_text(outcome: Result<(), Seq<char>>) -> Seq<char> {
    match outcome {
        Ok(()) => unexpected_exit_text(),
        Err(e) => e,
    }
}

pub open spec fn outcome_view(outcome: Result<(), String>) -> Result<(), Seq<char>> {
    match outcome {
        Ok(()) => Ok(()),
        Err(e) => Err(e@),
    }
}

/// The table after an exit of `name` was recorded at time `now`: marked
/// failed with the exit's text, then one more restart counted.
pub open spec fn after_exit(s: Entries, name: Seq<char>, outcome: Result<(), Seq<char>>, now: Seq<char>) -> Entries {
    upsert(upsert(s, name, Change::MarkError(exit_text(outcome)), now), name, Change::BumpRestart, now)
}

/// The delay state of one supervised component, in seconds.
pub struct Supervisor {
    pub backoff_secs: u64,
    pub max_backoff_secs: u64,
}

impl Supervisor {
    pub open spec fn wf(&self) -> bool {
        1 <= self.backoff_secs <= self.max_backoff_secs
    }

    /// The first delay is `initial` raised to at least one second; the
    /// largest is `max` raised to at least the first.
    pub fn new(initial_backoff_secs: u64, max_backoff_secs: u64) -> (r: Self)
        ensures
            r.wf(),
            r.backoff_secs == if initial_backoff_secs < 1 { 1 } else { initial_backoff_secs },
            r.max_backoff_secs == if max_backoff_secs < r.backoff_secs { r.backoff_secs } else { max_backoff_secs },
    {
        let backoff = if initial_backoff_secs < 1 { 1 } else { initial_backoff_secs };
        let max = if max_backoff_secs < backoff { backoff } else { max_backoff_secs };
        Supervisor { backoff_secs: backoff, max_backoff_secs: max }
    }

    /// Records that `name` is starting a run: it is marked healthy.
    pub fn on_start(&self, reg: &mut HealthRegistry, name: &str)
        requires
            old(reg).wf(),
        ensures
            final(reg).wf(),
            final(reg)@ == upsert(old(reg)@, name@, Change::MarkOk, stamp_of(final(reg)@, name@)),
    {
        mark_component_ok(reg, name);
    }

    /// Records an exit of `name` at time `now` and returns the seconds to
    /// sleep before the next run, scaled by the draw `raw`; the next delay
    /// doubles, up to the largest.
    pub fn on_exit_with(
        &mut self,
        reg: &mut HealthRegistry,
        name: &str,
        outcome: Result<(), String>,
        raw: u32,
        now: String,
    ) -> (sleep_secs: u64)
        requires
            old(self).wf(),
            old(reg).wf(),
        ensures
            final(reg).wf(),
            final(reg)@ == after_exit(old(reg)@, name@, outcome_view(outcome), now@),
            sleep_secs == jitter_value(old(self).backoff_secs, raw),
            final(self).wf(),
            final(self).max_backoff_secs == old(self).max_backoff_secs,
            final(self).backoff_secs == if 2 * old(self).backoff_secs > old(self).max_backoff_secs {
                old(self).max_backoff_secs
            } else {
                (2 * old(self).backoff_secs) as u64
            },
    {
        let msg = match outcome {
            Ok(()) => String::from_str("component exited unexpectedly"),
            Err(e) => e,
        };
        proof {
            reveal_strlit("component exited unexpectedly");
        }
        assert(msg@ == exit_text(outcome_view(outcome)));
        reg.record(name, ExecChange::MarkError(msg), now.clone());
        reg.record(name, ExecChange::BumpRestart, now);
        let sleep_secs = jitter_from(self.backoff_secs, raw);
        self.backoff_secs = if self.backoff_secs > self.max_backoff_secs / 2 {
            self.max_backoff_secs
        } else {
            self.backoff_secs * 2
        };
        sleep_secs
    }

    /// Records an exit of `name`, reading the clock and drawing the jitter.
    pub fn on_exit(&mut self, reg: &mut HealthRegistry, name: &str, outcome: Result<(), String>) -> (sleep_secs: u64)
        requires
            old(self).wf(),
            old(reg).wf(),
        ensures
            final(reg).wf(),
            final(reg)@ == after_exit(old(reg)@, name@, outcome_view(outcome), stamp_of(final(reg)@, name@)),
            sleep_secs >= 1,
            sleep_secs == 1 || (3 * old(self).backoff_secs <= 4 * sleep_secs + 3 && 4 * sleep_secs <= 5 * old(self).backoff_secs),
            final(self).wf(),
            final(self).max_backoff_secs == old(self).max_backoff_secs,
            final(self).backoff_secs == if 2 * old(self).backoff_secs > old(self).max_backoff_secs {
                old(self).max_backoff_secs
            } else {
                (2 * old(self).backoff_secs) as u64
            },
    {
        let raw = random_u32();
        let now = now_rfc3339();
        let ghost t = now@;
        let r = self.on_exit_with(reg, name, outcome, raw, now);
        proof {
            let mid = upsert(old(reg)@, name@, Change::MarkError(exit_text(outcome_view(outcome))), t);
            lemma_upsert_lookup(old(reg)@, name@, Change::MarkError(exit_text(outcome_view(outcome))), t);
            lemma_upsert_lookup(mid, name@, Change::BumpRestart, t);
            crate::backoff::lemma_jitter_range(old(self).backoff_secs, raw);
        }
        r
    }
}

/// After an exit the component is marked failed, with at least one restart
/// counted and the exit's text as its last error; the records of the other
/// components are as they were.
pub proof fn lemma_exit_marks_failure(s: Entries, name: Seq<char>, outcome: Result<(), Seq<char>>, now: Seq<char>)
    requires
        crate::health::sorted_names(s),
    ensures
        lookup(after_exit(s, name, outcome, now), name) matches Some(h) && h.status == "error"@
            && h.restart_count >= 1 && h.last_error == Some(exit_text(outcome)),
        forall|other: Seq<char>| other != name ==> #[trigger] lookup(after_exit(s, name, outcome, now), other) == lookup(s, other),
{
    let mid = upsert(s, name, Change::MarkError(exit_text(outcome)), now);
    lemma_upsert_lookup(s, name, Change::MarkError(exit_text(outcome)), now);
    lemma_upsert_lookup(mid, name, Change::BumpRestart, now);
}

/// A clean return is recorded as a failure whose last error is the
/// unexpected-exit message.
pub proof fn lemma_clean_exit_is_failure(s: Entries, name: Seq<char>, now: Seq<char>)
    requires
        crate::health::sorted_names(s),
    ensures
        lookup(after_exit(s, name, Ok(()), now), name) matches Some(h) && h.status == "error"@
            && h.last_error == Some(unexpected_exit_text()),
{
    lemma_exit_marks_failure(s, name, Ok(()), now);
}

} // verus!
