//! The run of a test-case file as a state machine: the caller performs each action it asks
//! for (send a request, ask the judge, write the results) and hands back what came of it.
use vstd::prelude::*;
use crate::json::Json;
use crate::model::{method_of, parse_method, RunError, ScoredStep, ScoredTestCase, Step, TestCase};
use crate::scoring::{extract_score, judge_payload, payload_text, score_of};
use crate::variables::{captured, substituted, VariableStore};

verus! {

/// Where a run stands.
pub enum Phase {
    /// Between test cases.
    Idle,
    /// Within a test case, before its next step.
    Ready,
    /// The step, with variables substituted, is to be sent.
    Sending { step: Step },
    /// The step was sent at `start_time`; the judge is to score it.
    Judging { step: Step, start_time: u64 },
    /// Every test case was run.
    Finished,
    /// The run stopped on `error`.
    Aborted { error: RunError },
}

/// What the caller is asked to do next.
pub enum Action {
    /// A test case begins (its name is `case_name`).
    StartCase,
    /// Send the step held in `Phase::Sending`, then call `respond`.
    Send,
    /// Ask the judge to score `payload`, then call `judge`.
    Judge { payload: String },
    /// Write `results` out in full: a test case was completed.
    Persist,
    /// The run is complete.
    Finish,
    /// The run stopped on `error`.
    Abort { error: RunError },
}

/// State of one run over a list of test cases.
pub struct Runner {
    /// The test cases the run was given.
    pub input: Ghost<Seq<TestCase>>,
    /// Test cases not yet begun, in order.
    pub remaining: Vec<TestCase>,
    /// Name of the test case under way.
    pub case_name: String,
    /// Steps of the test case under way that have not yet begun, in order.
    pub steps: Vec<Step>,
    /// Scored steps of the test case under way.
    pub scored: Vec<ScoredStep>,
    /// Variables captured in the test case under way.
    pub store: VariableStore,
    /// Scored test cases completed so far.
    pub results: Vec<ScoredTestCase>,
    pub phase: Phase,
}

/// A scored step records the method and expected response of the step it came from.
pub open spec fn step_matches(s: ScoredStep, t: Step) -> bool {
    s.method == t.method && s.expected_response == t.expected_response
}

/// A scored test case has the name of its test case, and one scored step per step, in order.
pub open spec fn case_matches(s: ScoredTestCase, t: TestCase) -> bool {
    &&& s.name == t.name
    &&& s.steps@.len() == t.steps@.len()
    &&& forall|j: int| 0 <= j < t.steps@.len() ==> step_matches(#[trigger] s.steps@[j], t.steps@[j])
}

/// Seconds from `start` to `end`; none when the clock went back.
pub open spec fn elapsed(start: u64, end: u64) -> u64 {
    if end >= start {
        (end - start) as u64
    } else {
        0
    }
}

impl Runner {
    /// Whether a step is between being begun and being scored.
    pub open spec fn in_flight(&self) -> bool {
        self.phase is Sending || self.phase is Judging
    }

    /// The step between being begun and being scored.
    pub open spec fn flight_step(&self) -> Step {
        match self.phase {
            Phase::Sending { step } => step,
            Phase::Judging { step, .. } => step,
            _ => arbitrary(),
        }
    }

    /// The state agrees with the input: completed test cases and steps match theirs, and what
    /// is left is the rest of the input, in order.
    pub open spec fn wf(&self) -> bool {
        let input = self.input@;
        let c = self.results@.len();
        &&& self.store.wf()
        &&& c <= input.len()
        &&& forall|k: int| 0 <= k < c ==> case_matches(#[trigger] self.results@[k], input[k])
        &&& (self.phase is Idle ==> {
            &&& c + self.remaining@.len() == input.len()
            &&& forall|k: int|
                0 <= k < self.remaining@.len() ==> #[trigger] self.remaining@[k] == input[c + k]
        })
        &&& (self.phase is Finished ==> c == input.len())
        &&& (self.phase is Ready || self.in_flight()) ==> {
            let t = input[c as int].steps@;
            let p = self.scored@.len() + if self.in_flight() {
                1int
            } else {
                0int
            };
            &&& c + 1 + self.remaining@.len() == input.len()
            &&& forall|k: int|
                0 <= k < self.remaining@.len() ==> #[trigger] self.remaining@[k] == input[c + 1
                    + k]
            &&& self.case_name == input[c as int].name
            &&& p + self.steps@.len() == t.len()
            &&& forall|j: int|
                0 <= j < self.scored@.len() ==> step_matches(#[trigger] self.scored@[j], t[j])
            &&& forall|j: int| 0 <= j < self.steps@.len() ==> #[trigger] self.steps@[j] == t[p + j]
            &&& self.in_flight() ==> {
                &&& self.flight_step().method == t[self.scored@.len() as int].method
                &&& self.flight_step().expected_response
                    == t[self.scored@.len() as int].expected_response
            }
        }
    }

    /// A run over `cases`, not yet begun.
    pub fn new(cases: Vec<TestCase>) -> (r: Runner)
        ensures
            r.wf(),
            r.input@ == cases@,
            r.remaining@ == cases@,
            r.results@.len() == 0,
            r.phase is Idle,
    {
        let ghost input = cases@;
        Runner {
            input: Ghost(input),
            remaining: cases,
            case_name: String::new(),
            steps: Vec::new(),
            scored: Vec::new(),
            store: VariableStore::new(),
            results: Vec::new(),
            phase: Phase::Idle,
        }
    }

    /// Takes the run one move forward from a test case's boundary or between steps.
    pub fn next(&mut self) -> (a: Action)
        requires
            old(self).wf(),
            !old(self).in_flight(),
        ensures
            final(self).wf(),
            final(self).input == old(self).input,
            old(self).phase is Finished ==> *final(self) == *old(self) && a is Finish,
            old(self).phase is Aborted ==> *final(self) == *old(self) && a == (Action::Abort {
                error: old(self).phase->Aborted_error,
            }),
            old(self).phase is Idle && old(self).remaining@.len() == 0 ==> {
                &&& final(self).phase is Finished
                &&& final(self).results == old(self).results
                &&& a is Finish
            },
            old(self).phase is Idle && old(self).remaining@.len() > 0 ==> {
                &&& final(self).phase is Ready
                &&& final(self).results == old(self).results
                &&& final(self).remaining@ == old(self).remaining@.drop_first()
                &&& final(self).case_name == old(self).remaining@[0].name
                &&& final(self).steps == old(self).remaining@[0].steps
                &&& final(self).scored@.len() == 0
                &&& final(self).store@.len() == 0
                &&& a is StartCase
            },
            old(self).phase is Ready && old(self).steps@.len() == 0 ==> {
                &&& final(self).phase is Idle
                &&& final(self).results@ == old(self).results@.push(
                    (ScoredTestCase { name: old(self).case_name, steps: old(self).scored }),
                )
                &&& final(self).remaining == old(self).remaining
                &&& a is Persist
            },
            old(self).phase is Ready && old(self).steps@.len() > 0 ==> {
                let st = old(self).steps@[0];
                let vars = old(self).store@;
                &&& final(self).results == old(self).results
                &&& final(self).steps@ == old(self).steps@.drop_first()
                &&& final(self).store == old(self).store
                &&& final(self).scored == old(self).scored
                &&& (method_of(st.method@) is None ==> {
                    &&& final(self).phase == (Phase::Aborted { error: RunError::UnsupportedMethod })
                    &&& a == (Action::Abort { error: RunError::UnsupportedMethod })
                })
                &&& (method_of(st.method@) is Some && !(st.request is Object) ==> {
                    &&& final(self).phase == (Phase::Aborted { error: RunError::MalformedRequest })
                    &&& a == (Action::Abort { error: RunError::MalformedRequest })
                })
                &&& (method_of(st.method@) is Some && vars.len() == 0 && st.request is Object ==> {
                    &&& final(self).phase == (Phase::Sending { step: st })
                    &&& a is Send
                })
                &&& (method_of(st.method@) is Some && vars.len() > 0 && st.request is Object ==> {
                    &&& final(self).phase is Sending
                    &&& substituted(st, final(self).phase->Sending_step, vars)
                    &&& a is Send
                })
            },
    {
        match self.phase {
            Phase::Finished => {
                return Action::Finish;
            },
            Phase::Aborted { error } => {
                return Action::Abort { error };
            },
            _ => {},
        }
        if let Phase::Idle = self.phase {
            if self.remaining.len() == 0 {
                self.phase = Phase::Finished;
                return Action::Finish;
            }
            let ghost rem = self.remaining@;
            let TestCase { name, steps } = self.remaining.remove(0);
            self.case_name = name;
            self.steps = steps;
            self.scored = Vec::new();
            self.store = VariableStore::new();
            self.phase = Phase::Ready;
            assert forall|k: int| 0 <= k < self.remaining@.len() implies #[trigger] self.remaining@[k]
                == self.input@[self.results@.len() + 1 + k] by {
                assert(self.remaining@[k] == rem[k + 1]);
            }
            return Action::StartCase;
        }
        // Within a test case, before its next step.
        if self.steps.len() == 0 {
            let mut name = String::new();
            let mut scored = Vec::new();
            std::mem::swap(&mut name, &mut self.case_name);
            std::mem::swap(&mut scored, &mut self.scored);
            let ghost c = self.results@.len();
            self.results.push(ScoredTestCase { name, steps: scored });
            self.phase = Phase::Idle;
            assert(case_matches(self.results@[c as int], self.input@[c as int]));
            assert forall|k: int| 0 <= k < self.remaining@.len() implies #[trigger] self.remaining@[k]
                == self.input@[self.results@.len() + k] by {}
            return Action::Persist;
        }
        let ghost old_steps = self.steps@;
        let step = self.steps.remove(0);
        let ghost st = step;
        assert(st == old_steps[0]);
        match parse_method(step.method.as_str()) {
            Err(error) => {
                self.phase = Phase::Aborted { error };
                return Action::Abort { error };
            },
            Ok(_) => {},
        }
        match self.store.substitute(step) {
            Err(error) => {
                self.phase = Phase::Aborted { error };
                Action::Abort { error }
            },
            Ok(s) => {
                self.phase = Phase::Sending { step: s };
                assert forall|j: int| 0 <= j < self.steps@.len() implies #[trigger] self.steps@[j]
                    == self.input@[self.results@.len() as int].steps@[self.scored@.len() + 1 + j] by {
                    assert(self.steps@[j] == old_steps[j + 1]);
                }
                Action::Send
            },
        }
    }

    /// Records the response to the step being sent, which was sent at `start_time`: captures
    /// its variables, and asks for the judge's score.
    pub fn respond(&mut self, start_time: u64, response: &Json) -> (a: Action)
        requires
            old(self).wf(),
            old(self).phase is Sending,
        ensures
            final(self).wf(),
            final(self).input == old(self).input,
            ({
                let st = old(self).phase->Sending_step;
                &&& final(self).phase == (Phase::Judging { step: st, start_time })
                &&& final(self).store@ == captured(old(self).store@, st.captures@, *response)
                &&& a is Judge
                &&& a->Judge_payload@ == payload_text(st.request, *response, st.expected_response)
            }),
            final(self).results == old(self).results,
            final(self).remaining == old(self).remaining,
            final(self).steps == old(self).steps,
            final(self).scored == old(self).scored,
            final(self).case_name == old(self).case_name,
    {
        let mut phase = Phase::Idle;
        std::mem::swap(&mut phase, &mut self.phase);
        match phase {
            Phase::Sending { step } => {
                self.store.capture(&step.captures, response);
                let payload = judge_payload(&step.request, response, &step.expected_response);
                self.phase = Phase::Judging { step, start_time };
                Action::Judge { payload }
            },
            _ => {
                self.phase = phase;
                Action::Finish
            },
        }
    }

    /// Records the judge's `reply` for the step being scored, received at `end_time`.
    pub fn judge(&mut self, reply: &str, end_time: u64)
        requires
            old(self).wf(),
            old(self).phase is Judging,
        ensures
            final(self).wf(),
            final(self).input == old(self).input,
            final(self).phase is Ready,
            ({
                let st = old(self).phase->Judging_step;
                let start = old(self).phase->Judging_start_time;
                final(self).scored@ == old(self).scored@.push(
                    ScoredStep {
                        endpoint: st.endpoint,
                        method: st.method,
                        request: st.request,
                        expected_response: st.expected_response,
                        score: score_of(reply@),
                        start_time: start,
                        end_time,
                        duration: elapsed(start, end_time),
                    },
                )
            }),
            final(self).results == old(self).results,
            final(self).remaining == old(self).remaining,
            final(self).steps == old(self).steps,
            final(self).store == old(self).store,
            final(self).case_name == old(self).case_name,
    {
        let mut phase = Phase::Idle;
        std::mem::swap(&mut phase, &mut self.phase);
        match phase {
            Phase::Judging { step, start_time } => {
                let score = extract_score(reply);
                let duration = if end_time >= start_time {
                    end_time - start_time
                } else {
                    0
                };
                let Step { endpoint, method, request, expected_response, captures: _ } = step;
                self.scored.push(
                    ScoredStep {
                        endpoint,
                        method,
                        request,
                        expected_response,
                        score,
                        start_time,
                        end_time,
                        duration,
                    },
                );
                self.phase = Phase::Ready;
            },
            _ => {
                self.phase = phase;
            },
        }
    }

    /// Stops the run on `error`, met while performing an action.
    pub fn fail(&mut self, error: RunError)
        requires
            old(self).wf(),
        ensures
            final(self).wf(),
            final(self).input == old(self).input,
            final(self).phase == (Phase::Aborted { error }),
            final(self).results == old(self).results,
    {
        self.phase = Phase::Aborted { error };
    }
}

/// Once a run is finished, its scored test cases match the input one for one, in order, each
/// with one scored step per step, in order.
pub proof fn lemma_finished_run_matches_input(r: &Runner)
    requires
        r.wf(),
        r.phase is Finished,
    ensures
        r.results@.len() == r.input@.len(),
        forall|k: int|
            0 <= k < r.input@.len() ==> case_matches(#[trigger] r.results@[k], r.input@[k]),
{
}

} // verus!
