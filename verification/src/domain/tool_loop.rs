//! Noticing a run that has stopped getting anywhere: the same tool call failing identically,
//! again and again.
use crate::text;
use vstd::prelude::*;

verus! {

/// How many times in a row one call may fail before the run is over.
pub const MAX_IDENTICAL_FAILURES: u8 = 3;

/// How a tool call went.
pub enum CallOutcome {
    Failed,
    Answered,
}

/// The call that failed last, and how many times in a row.
#[derive(Debug)]
pub struct LoopTracker {
    pub signature: Option<String>,
    pub failures: u8,
}

/// What a tracker remembers.
pub struct TrackerView {
    pub signature: Option<Seq<char>>,
    pub failures: int,
}

impl View for LoopTracker {
    type V = TrackerView;

    open spec fn view(&self) -> TrackerView {
        TrackerView { signature: text::opt_text(self.signature), failures: self.failures as int }
    }
}

/// What a tracker remembers once a call got somewhere.
pub open spec fn no_failures() -> TrackerView {
    TrackerView { signature: None, failures: 0 }
}

/// What a tracker remembers once a call failed.
pub open spec fn failed_again(t: TrackerView, signature: Seq<char>) -> TrackerView {
    TrackerView {
        signature: Some(signature),
        failures: if t.signature != Some(signature) {
            1
        } else if t.failures < MAX_IDENTICAL_FAILURES {
            t.failures + 1
        } else {
            t.failures
        },
    }
}

/// Why a run that a tracker has seen fail is over, where it is.
pub open spec fn loop_verdict(t: TrackerView) -> Option<Seq<char>> {
    if t.failures >= MAX_IDENTICAL_FAILURES && t.signature is Some {
        Some("Aborting: 3 identical failed calls in a row: "@ + t.signature->0 + "."@)
    } else {
        None
    }
}

impl Default for LoopTracker {
    fn default() -> (r: LoopTracker)
        ensures
            r@ == no_failures(),
    {
        LoopTracker { signature: None, failures: 0 }
    }
}

impl LoopTracker {
    /// Takes note of how a call went, and says why the run is over where it is.
    pub fn record(&mut self, signature: &str, outcome: CallOutcome) -> (r: Option<String>)
        ensures
            match outcome {
                CallOutcome::Failed => final(self)@ == failed_again(old(self)@, signature@)
                    && text::opt_text(r) == loop_verdict(final(self)@),
                CallOutcome::Answered => final(self)@ == no_failures() && r is None,
            },
    {
        match outcome {
            CallOutcome::Answered => {
                self.record_informative();
                None
            },
            CallOutcome::Failed => {
                let again = match &self.signature {
                    Some(s) => text::same(s.as_str(), signature),
                    None => false,
                };
                if !again {
                    self.failures = 1;
                } else if self.failures < MAX_IDENTICAL_FAILURES {
                    self.failures = self.failures + 1;
                }
                self.signature = Some(signature.to_owned());
                if self.failures >= MAX_IDENTICAL_FAILURES {
                    let mut reason = "Aborting: 3 identical failed calls in a row: ".to_owned();
                    reason.append(signature);
                    reason.append(".");
                    Some(reason)
                } else {
                    None
                }
            },
        }
    }

    /// Takes note that a call got somewhere.
    pub fn record_informative(&mut self)
        ensures
            final(self)@ == no_failures(),
    {
        self.signature = None;
        self.failures = 0;
    }
}

/// The third identical failure in a row ends the run, and neither of the first two does.
pub proof fn law_the_third_identical_failure_ends_the_run(t: TrackerView, signature: Seq<char>)
    requires
        t.signature != Some(signature),
    ensures
        loop_verdict(failed_again(t, signature)) is None,
        loop_verdict(failed_again(failed_again(t, signature), signature)) is None,
        loop_verdict(
            failed_again(failed_again(failed_again(t, signature), signature), signature),
        ) is Some,
{
}

} // verus!
