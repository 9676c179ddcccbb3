//! The decisions of a run: when to send the next query, when to wait for a
//! response, what to log, and when to give up.
//!
//! The scheduler sends nothing itself. Its driver asks it what to do next,
//! does that, and tells it of each request that has come to an end.

use crate::log_csv::{LogCsvRecord, LogCsvResult, RecordView, ResultView};
use crate::plan::{occurrences, repetition_at, RepetitionCounter};
use crate::plan::{lemma_occurrences_take_le, lemma_occurrences_take_step};
use crate::run_query::RunQueryResult;
use crate::time::UnixTimeWrap;
use crate::types::{QueryReference, QueryReferenceWithRepetition};
use std::collections::BTreeMap;
use vstd::prelude::*;
use vstd::string::*;

verus! {

broadcast use {vstd::std_specs::btree::group_btree_axioms, vstd::string::group_string_axioms};

/// What the driver is to do next.
#[derive(Debug, Clone, Copy, PartialEq, Eq)]
pub enum Action {
    /// Send this instance; it now counts as running.
    Submit(QueryReferenceWithRepetition),
    /// Wait until any running request has come to an end, and report it.
    AwaitOne,
    /// Nothing is left to do: the plan is through, or the run was given up.
    Finish,
}

/// A request that has come to an end.
#[derive(Debug)]
pub struct TaskOutcome {
    pub query_reference_with_repetition: QueryReferenceWithRepetition,
    /// When the request was sent.
    pub start: UnixTimeWrap,
    /// When it came to an end.
    pub end: UnixTimeWrap,
    /// What is kept of the response, or the failure in words.
    pub run_query_result: Result<RunQueryResult, String>,
}

/// What follows from the end of a request.
#[derive(Debug)]
pub struct Completion {
    /// The row for the log, where a log is kept.
    pub record: Option<LogCsvRecord>,
    /// The failure to show at once, with the time at which it was noted,
    /// where failures are not collected for the end.
    pub shown_error: Option<(UnixTimeWrap, String)>,
    /// Whether the run is given up: more requests have failed than the
    /// budget allows.
    pub abort: bool,
}

/// Why the end of a request cannot be taken in.
#[derive(Debug, Clone, Copy, PartialEq, Eq, Structural)]
pub enum SchedulerError {
    /// No request is running.
    NoTaskRunning,
    /// A log is kept, and the response comes without a checksum.
    MissingChecksum,
    /// The request ended before it was sent.
    EndBeforeStart,
}

/// Why a plan cannot be run.
#[derive(Debug, Clone, Copy, PartialEq, Eq)]
pub enum PlanError {
    /// The plan refers to a query that the corpus does not hold.
    ReferenceOutOfRange { position: usize },
    /// The plan schedules one query more often than repetitions count to.
    TooManyRepetitions { position: usize },
}

/// The state of a run.
pub struct SchedulerView {
    /// The references of the plan, in the order in which they are sent.
    pub plan: Seq<QueryReference>,
    /// The number of instances sent so far.
    pub submitted: nat,
    /// The number of requests that are under way.
    pub running: nat,
    /// The number of requests that may be under way at a time.
    pub concurrency: nat,
    /// The number of failed requests that the run puts up with.
    pub max_errors: nat,
    /// Whether failures are kept for the end rather than shown at once.
    pub collect_errors: bool,
    /// Whether a log is kept.
    pub logging: bool,
    /// The number of requests that failed.
    pub num_errors: nat,
    /// The failures kept for the end, each with the time at which it was noted.
    pub errors: Seq<(UnixTimeWrap, Seq<char>)>,
    /// The number of responses with each status.
    pub status_tally: Map<u16, usize>,
}

impl SchedulerView {
    /// Whether more requests have failed than the budget allows.
    pub open spec fn aborted(self) -> bool {
        self.num_errors > self.max_errors
    }

    /// The number of requests that have come to an end.
    pub open spec fn completed(self) -> int {
        self.submitted - self.running
    }

    /// What the driver is to do next: nothing once the run is given up;
    /// else to send the next instance of the plan where fewer requests are
    /// under way than may be, and to wait for one where not; and with the
    /// plan through, to wait for the requests still under way.
    pub open spec fn next_action(self) -> Action {
        if self.aborted() {
            Action::Finish
        } else if self.submitted < self.plan.len() {
            if self.running >= self.concurrency {
                Action::AwaitOne
            } else {
                Action::Submit(
                    QueryReferenceWithRepetition {
                        query_reference: self.plan[self.submitted as int],
                        repetition: repetition_at(self.plan, self.submitted as int) as u32,
                    },
                )
            }
        } else if self.running > 0 {
            Action::AwaitOne
        } else {
            Action::Finish
        }
    }

    /// The state after the action that `next_action` names.
    pub open spec fn after_action(self) -> SchedulerView {
        match self.next_action() {
            Action::Submit(_) => SchedulerView {
                submitted: self.submitted + 1,
                running: self.running + 1,
                ..self
            },
            _ => self,
        }
    }

    /// The state after a request has come to an end at the time `now`: one
    /// request fewer is under way, and the response is counted under its
    /// status, or the failure as one more failure.
    pub open spec fn after_completion(
        self,
        run_query_result: Result<RunQueryResult, String>,
        now: UnixTimeWrap,
    ) -> SchedulerView {
        match run_query_result {
            Ok(response) => SchedulerView {
                running: (self.running - 1) as nat,
                status_tally: self.status_tally.insert(
                    response.status.0,
                    if self.status_tally.contains_key(response.status.0) {
                        (self.status_tally[response.status.0] + 1) as usize
                    } else {
                        1
                    },
                ),
                ..self
            },
            Err(message) => SchedulerView {
                running: (self.running - 1) as nat,
                num_errors: self.num_errors + 1,
                errors: if self.collect_errors {
                    self.errors.push((now, message@))
                } else {
                    self.errors
                },
                ..self
            },
        }
    }

    /// The row that the log gets for a request that has come to an end.
    pub open spec fn record_of(outcome: TaskOutcome) -> Result<RecordView, SchedulerError> {
        let result = match outcome.run_query_result {
            Ok(response) => match response.crc {
                Some(crc) => Ok(ResultView::Response(response.status, response.outsize, crc)),
                None => Err(SchedulerError::MissingChecksum),
            },
            Err(message) => Ok(ResultView::Failure(message@)),
        };
        match result {
            Err(e) => Err(e),
            Ok(result) => if outcome.end.0.as_nanos() < outcome.start.0.as_nanos() {
                Err(SchedulerError::EndBeforeStart)
            } else {
                Ok(
                    RecordView {
                        query_reference: outcome.query_reference_with_repetition.query_reference,
                        repetition: outcome.query_reference_with_repetition.repetition,
                        start: outcome.start,
                        end: outcome.end,
                        duration: crate::time::Seconds {
                            secs: ((outcome.end.0.as_nanos() - outcome.start.0.as_nanos())
                                / 1_000_000_000) as u64,
                            nanos: ((outcome.end.0.as_nanos() - outcome.start.0.as_nanos())
                                % 1_000_000_000) as u32,
                        },
                        result,
                    },
                )
            },
        }
    }
}

/// Whether failures are collected for the end or shown at once makes no
/// difference to their number, and so none to when a run is given up.
pub proof fn lemma_collecting_keeps_the_budget(
    run: SchedulerView,
    run_query_result: Result<RunQueryResult, String>,
    now: UnixTimeWrap,
)
    ensures
        ({
            let collecting = SchedulerView { collect_errors: true, ..run };
            let showing = SchedulerView { collect_errors: false, ..run };
            &&& collecting.after_completion(run_query_result, now).num_errors
                == showing.after_completion(run_query_result, now).num_errors
            &&& collecting.after_completion(run_query_result, now).aborted()
                == showing.after_completion(run_query_result, now).aborted()
            &&& collecting.next_action() == showing.next_action()
        }),
{
}

/// A response never counts as a failure, whatever its status: only a
/// request without a response does.
pub proof fn lemma_status_is_no_failure(
    run: SchedulerView,
    response: RunQueryResult,
    now: UnixTimeWrap,
)
    ensures
        run.after_completion(Ok(response), now).num_errors == run.num_errors,
        run.after_completion(Ok(response), now).aborted() == run.aborted(),
{
}

impl TaskOutcome {
    /// Whether the times count their nanoseconds within a second and the
    /// status, if there is one, has three digits.
    pub open spec fn wf(&self) -> bool {
        &&& self.start.0.wf()
        &&& self.end.0.wf()
        &&& self.run_query_result matches Ok(response) ==> response.status.wf()
    }
}

impl TaskOutcome {
    /// Whether the times count their nanoseconds within a second and the
    /// status, if there is one, has three digits.
    pub fn is_valid(&self) -> (r: bool)
        ensures
            r == self.wf(),
    {
        self.start.0.is_valid() && self.end.0.is_valid() && match &self.run_query_result {
            Ok(response) => response.status.is_valid(),
            Err(_) => true,
        }
    }
}

/// A run: its plan, and how far it has come.
#[derive(Debug)]
pub struct Scheduler {
    plan: Vec<QueryReference>,
    counter: RepetitionCounter,
    next: usize,
    running: usize,
    concurrency: usize,
    max_errors: usize,
    collect_errors: bool,
    logging: bool,
    num_errors: usize,
    errors: Vec<(UnixTimeWrap, String)>,
    status_tally: BTreeMap<u16, usize>,
}

/// The failures with the text of each.
pub open spec fn errors_view(errors: Seq<(UnixTimeWrap, String)>) -> Seq<
    (UnixTimeWrap, Seq<char>),
> {
    Seq::new(errors.len(), |i: int| (errors[i].0, errors[i].1@))
}

impl Scheduler {
    /// The state of the run.
    pub closed spec fn view(&self) -> SchedulerView {
        SchedulerView {
            plan: self.plan@,
            submitted: self.next as nat,
            running: self.running as nat,
            concurrency: self.concurrency as nat,
            max_errors: self.max_errors as nat,
            collect_errors: self.collect_errors,
            logging: self.logging,
            num_errors: self.num_errors as nat,
            errors: errors_view(self.errors@),
            status_tally: self.status_tally@,
        }
    }

    /// Whether the state is one that a run can be in: no more requests are
    /// under way than may be, none that was not sent, and no more have
    /// failed or were counted under a status than have come to an end.
    pub closed spec fn wf(&self) -> bool {
        &&& 1 <= self.concurrency
        &&& self.running <= self.concurrency
        &&& self.running <= self.next <= self.plan@.len()
        &&& self.num_errors <= self.next - self.running
        &&& forall|status: u16| #[trigger]
            self.status_tally@.contains_key(status) ==> self.status_tally@[status]
                <= self.next - self.running - self.num_errors
        &&& forall|i: int|
            0 <= i < self.plan@.len() ==> (#[trigger] self.plan@[i]).query_index
                < self.counter.counts().len()
        &&& forall|q: QueryReference| occurrences(self.plan@, q) <= u32::MAX
        &&& forall|q: QueryReference|
            q.query_index < self.counter.counts().len() ==> self.counter.counts()[
                q.query_index as int
            ] == #[trigger] occurrences(self.plan@.take(self.next as int), q)
    }

    /// What holds of every run: never are more requests under way than may be.
    pub proof fn lemma_bounded(&self)
        requires
            self.wf(),
        ensures
            1 <= self@.concurrency,
            self@.running <= self@.concurrency,
            self@.running <= self@.submitted <= self@.plan.len(),
            self@.num_errors <= self@.completed(),
    {
    }

    /// A run of `plan` over a corpus of `queries_len` queries, with at most
    /// `concurrency` requests under way at a time, and at least one. The
    /// plan must refer to queries of the corpus only, and schedule none
    /// more often than repetitions count to.
    pub fn new(
        queries_len: usize,
        plan: Vec<QueryReference>,
        concurrency: Option<u16>,
        max_errors: usize,
        collect_errors: bool,
        logging: bool,
    ) -> (r: Result<Scheduler, PlanError>)
        ensures
            match r {
                Ok(scheduler) => {
                    &&& scheduler.wf()
                    &&& scheduler@ == SchedulerView {
                        plan: plan@,
                        submitted: 0,
                        running: 0,
                        concurrency: match concurrency {
                            Some(n) => if n >= 1 {
                                n as nat
                            } else {
                                1
                            },
                            None => 1,
                        },
                        max_errors: max_errors as nat,
                        collect_errors,
                        logging,
                        num_errors: 0,
                        errors: Seq::empty(),
                        status_tally: Map::empty(),
                    }
                    &&& forall|i: int|
                        0 <= i < plan@.len() ==> (#[trigger] plan@[i]).query_index < queries_len
                    &&& forall|q: QueryReference| #[trigger] occurrences(plan@, q) <= u32::MAX
                },
                Err(PlanError::ReferenceOutOfRange { position }) => position < plan@.len()
                    && plan@[position as int].query_index >= queries_len,
                Err(PlanError::TooManyRepetitions { position }) => position < plan@.len()
                    && repetition_at(plan@, position as int) >= u32::MAX,
            },
    {
        let mut check = RepetitionCounter::new(queries_len);
        let mut i: usize = 0;
        while i < plan.len()
            invariant
                i <= plan@.len(),
                check.counts().len() == queries_len,
                forall|k: int| 0 <= k < i ==> (#[trigger] plan@[k]).query_index < queries_len,
                forall|q: QueryReference|
                    q.query_index < queries_len ==> check.counts()[q.query_index as int]
                        == #[trigger] occurrences(plan@.take(i as int), q),
                forall|q: QueryReference| #[trigger]
                    occurrences(plan@.take(i as int), q) <= u32::MAX,
            decreases plan@.len() - i,
        {
            let reference = plan[i];
            if reference.query_index_usize() >= queries_len {
                return Err(PlanError::ReferenceOutOfRange { position: i });
            }
            if check.count(reference) == u32::MAX {
                return Err(PlanError::TooManyRepetitions { position: i });
            }
            let _ = check.assign(reference);
            proof {
                assert forall|q: QueryReference| q.query_index < queries_len implies check.counts()[
                    q.query_index as int
                ] == #[trigger] occurrences(plan@.take(i + 1), q) by {
                    lemma_occurrences_take_step(plan@, i as int, q);
                }
                assert forall|q: QueryReference| #[trigger]
                    occurrences(plan@.take(i + 1), q) <= u32::MAX by {
                    lemma_occurrences_take_step(plan@, i as int, q);
                }
            }
            i = i + 1;
        }
        proof {
            assert(plan@.take(i as int) =~= plan@);
            assert(plan@.take(0) =~= Seq::<QueryReference>::empty());
        }
        let concurrency: usize = match concurrency {
            Some(n) => if n >= 1 {
                n as usize
            } else {
                1
            },
            None => 1,
        };
        let scheduler = Scheduler {
            plan,
            counter: RepetitionCounter::new(queries_len),
            next: 0,
            running: 0,
            concurrency,
            max_errors,
            collect_errors,
            logging,
            num_errors: 0,
            errors: Vec::new(),
            status_tally: BTreeMap::new(),
        };
        proof {
            assert(scheduler@.errors =~= Seq::empty());
        }
        Ok(scheduler)
    }

    /// What the driver is to do next. An instance that is handed out for
    /// sending counts as sent and under way from then on.
    pub fn next_action(&mut self) -> (action: Action)
        requires
            old(self).wf(),
        ensures
            final(self).wf(),
            action == old(self)@.next_action(),
            final(self)@ == old(self)@.after_action(),
    {
        if self.num_errors > self.max_errors {
            Action::Finish
        } else if self.next < self.plan.len() {
            if self.running >= self.concurrency {
                Action::AwaitOne
            } else {
                let reference = self.plan[self.next];
                proof {
                    lemma_occurrences_take_step(self.plan@, self.next as int, reference);
                    lemma_occurrences_take_le(self.plan@, self.next + 1, reference);
                }
                let instance = self.counter.assign(reference);
                proof {
                    assert forall|q: QueryReference|
                        q.query_index < self.counter.counts().len() implies self.counter.counts()[
                        q.query_index as int
                    ] == #[trigger] occurrences(self.plan@.take(self.next + 1), q) by {
                        lemma_occurrences_take_step(self.plan@, self.next as int, q);
                    }
                }
                self.next = self.next + 1;
                self.running = self.running + 1;
                Action::Submit(instance)
            }
        } else if self.running > 0 {
            Action::AwaitOne
        } else {
            Action::Finish
        }
    }

    /// Takes in that a request has come to an end, at the time `now`. The
    /// request is counted whatever else happens, unless none was under way.
    pub fn on_completion(&mut self, outcome: TaskOutcome, now: UnixTimeWrap) -> (r: Result<
        Completion,
        SchedulerError,
    >)
        requires
            old(self).wf(),
            outcome.wf(),
        ensures
            final(self).wf(),
            old(self)@.running == 0 ==> r == Err::<Completion, SchedulerError>(
                SchedulerError::NoTaskRunning,
            ) && final(self)@ == old(self)@,
            old(self)@.running > 0 ==> {
                &&& final(self)@ == old(self)@.after_completion(outcome.run_query_result, now)
                &&& match r {
                    Ok(completion) => {
                        &&& completion.abort == final(self)@.aborted()
                        &&& match completion.record {
                            Some(record) => old(self)@.logging && record.wf()
                                && SchedulerView::record_of(outcome) == Ok::<
                                RecordView,
                                SchedulerError,
                            >(record@),
                            None => !old(self)@.logging,
                        }
                        &&& match completion.shown_error {
                            Some((time, message)) => {
                                &&& !old(self)@.collect_errors
                                &&& time == now
                                &&& outcome.run_query_result matches Err(text)
                                &&& text@ == message@
                            },
                            None => old(self)@.collect_errors || outcome.run_query_result is Ok,
                        }
                    },
                    Err(e) => old(self)@.logging && SchedulerView::record_of(outcome) == Err::<
                        RecordView,
                        SchedulerError,
                    >(e),
                }
            },
    {
        if self.running == 0 {
            return Err(SchedulerError::NoTaskRunning);
        }
        self.running = self.running - 1;
        let TaskOutcome { query_reference_with_repetition, start, end, run_query_result } = outcome;
        let mut shown_error: Option<(UnixTimeWrap, String)> = None;
        let log_result: Result<LogCsvResult, SchedulerError> = match run_query_result {
            Ok(response) => {
                let count: usize = match self.status_tally.get(&response.status.0) {
                    Some(count) => *count + 1,
                    None => 1,
                };
                self.status_tally.insert(response.status.0, count);
                match response.crc {
                    Some(crc) => Ok(LogCsvResult::Response(response.status, response.outsize, crc)),
                    None => Err(SchedulerError::MissingChecksum),
                }
            },
            Err(message) => {
                self.num_errors = self.num_errors + 1;
                if self.collect_errors {
                    let ghost before = errors_view(self.errors@);
                    self.errors.push((now, message.clone()));
                    proof {
                        assert(errors_view(self.errors@) =~= before.push((now, message@)));
                    }
                } else {
                    shown_error = Some((now, message.clone()));
                }
                Ok(LogCsvResult::Failure(message))
            },
        };
        let record = if self.logging {
            let result = match log_result {
                Ok(result) => result,
                Err(e) => {
                    return Err(e);
                },
            };
            let duration = match end.0.since(&start.0) {
                Some(duration) => duration,
                None => {
                    return Err(SchedulerError::EndBeforeStart);
                },
            };
            proof {
                let nanos = end.0.as_nanos() - start.0.as_nanos();
                assert(nanos == duration.secs * 1_000_000_000 + duration.nanos);
                assert(duration.secs == nanos / 1_000_000_000);
                assert(duration.nanos == nanos % 1_000_000_000);
            }
            Some(
                LogCsvRecord(
                    query_reference_with_repetition.query_reference,
                    query_reference_with_repetition.repetition,
                    start,
                    end,
                    duration,
                    result,
                ),
            )
        } else {
            None
        };
        Ok(Completion { record, shown_error, abort: self.num_errors > self.max_errors })
    }

    /// Whether the run is given up.
    pub fn aborted(&self) -> (r: bool)
        ensures
            r == self@.aborted(),
    {
        self.num_errors > self.max_errors
    }

    /// The number of requests that are under way.
    pub fn running(&self) -> (r: usize)
        ensures
            r == self@.running,
    {
        self.running
    }

    /// The number of instances sent so far.
    pub fn submitted(&self) -> (r: usize)
        ensures
            r == self@.submitted,
    {
        self.next
    }

    /// The number of requests that failed.
    pub fn num_errors(&self) -> (r: usize)
        ensures
            r == self@.num_errors,
    {
        self.num_errors
    }

    /// The failures kept for the end, each with the time at which it was noted.
    pub fn errors(&self) -> (r: &Vec<(UnixTimeWrap, String)>)
        ensures
            errors_view(r@) == self@.errors,
    {
        &self.errors
    }

    /// The number of responses with each status.
    pub fn status_tally(&self) -> (r: &BTreeMap<u16, usize>)
        ensures
            r@ == self@.status_tally,
    {
        &self.status_tally
    }
}

} // verus!
