//! The fetcher: the state machine that checks one URL.
//!
//! A fetcher does no I/O. Its driver performs what the fetcher asks for (a
//! sleep, a request) and reports what happened; the fetcher decides what is
//! next. It takes its permit from the pool before the first request and gives
//! it back when the check is over, however it ends.

use crate::handles::Handle;
use crate::handles::MaxHandles;
use crate::handles::POLL_INTERVAL_MS;
use crate::outcome::opt_text;
use crate::outcome::CheckOutcome;
use crate::outcome::CheckOutcomeView;
use crate::outcome::CheckerError;
use crate::outcome::CheckerErrorView;
use crate::rewrite::actions_rewrite;
use crate::rewrite::actions_rewrite_of;
use vstd::prelude::*;

verus! {

/// How many requests a check makes before it gives up.
pub const MAX_ATTEMPTS: u8 = 5;

/// The status that makes a check succeed.
pub const STATUS_OK: u16 = 200;

/// The status after which the rewrite is tried.
pub const STATUS_NOT_FOUND: u16 = 404;

/// Whether `status` is a redirection.
pub open spec fn is_redirection(status: u16) -> bool {
    300 <= status < 400
}

/// What came back from one request.
#[derive(Debug, PartialEq, Eq)]
pub enum Reply {
    /// Nothing came back: the request failed below HTTP. `error` describes
    /// how.
    Transport { error: String },
    /// An answer came back, with this status and, if it carried one, this
    /// `Location` header.
    Status { status: u16, location: Option<String> },
}

/// A [`Reply`] as plain values.
pub enum ReplyView {
    Transport { error: Seq<char> },
    Status { status: u16, location: Option<Seq<char>> },
}

impl View for Reply {
    type V = ReplyView;

    open spec fn view(&self) -> ReplyView {
        match *self {
            Reply::Transport { error } => ReplyView::Transport { error: error@ },
            Reply::Status { status, location } => ReplyView::Status {
                status,
                location: opt_text(location),
            },
        }
    }
}

/// What the driver reports to a fetcher.
#[derive(Debug, PartialEq, Eq)]
pub enum Event {
    /// The fetcher was started, or the sleep it asked for is over.
    Wake,
    /// The request it asked for came back.
    Reply(Reply),
}

/// An [`Event`] as plain values.
pub enum EventView {
    Wake,
    Reply(ReplyView),
}

impl View for Event {
    type V = EventView;

    open spec fn view(&self) -> EventView {
        match *self {
            Event::Wake => EventView::Wake,
            Event::Reply(reply) => EventView::Reply(reply@),
        }
    }
}

/// What a fetcher asks of its driver.
#[derive(Debug, PartialEq, Eq)]
pub enum Action {
    /// No permit is free: sleep for `millis` milliseconds, then report
    /// [`Event::Wake`].
    Wait { millis: u64 },
    /// Send one request to `url` and report the [`Reply`].
    Request { url: String },
    /// The check is over.
    Done,
}

/// An [`Action`] as plain values.
pub enum ActionView {
    Wait { millis: u64 },
    Request { url: Seq<char> },
    Done,
}

impl View for Action {
    type V = ActionView;

    open spec fn view(&self) -> ActionView {
        match *self {
            Action::Wait { millis } => ActionView::Wait { millis },
            Action::Request { url } => ActionView::Request { url: url@ },
            Action::Done => ActionView::Done,
        }
    }
}

/// Where a check stands.
#[derive(Debug, Clone, Copy, PartialEq, Eq)]
pub enum Phase {
    /// It has no permit yet.
    Waiting,
    /// It holds a permit, `done` of its requests have failed, and one more
    /// is under way.
    Attempt { done: u8 },
    /// A request was answered with status 200.
    Succeeded,
    /// All its requests failed.
    Failed,
}

/// The state of a fetcher as plain values.
///
/// A fetcher runs one check of its own URL. If the rewrite applies, that
/// check gives way to a fresh check of the rewritten URL, whose outcome
/// becomes the fetcher's. `phase` and `last_error` are those of the check
/// that is running: the fetcher's own while `rewritten` is `None`, the fresh
/// one after that.
pub struct FetcherView {
    /// The URL the fetcher was made for, under which its outcome is reported.
    pub url: Seq<char>,
    /// The URL of the fresh check, once the rewrite was made.
    pub rewritten: Option<Seq<char>>,
    pub phase: Phase,
    /// The failure of the latest request of the running check.
    pub last_error: CheckerErrorView,
}

/// One step's worth of what a fetcher is told and finds.
pub struct Input {
    /// What the driver reports.
    pub event: EventView,
    /// Whether the pool has a free permit.
    pub free: bool,
    /// Where the rewrite would lead from the fetcher's URL, if anywhere.
    pub rewrite: Option<Seq<char>>,
}

impl FetcherView {
    /// The state of a fetcher that was just made for `url`.
    pub open spec fn start(url: Seq<char>) -> FetcherView {
        FetcherView {
            url,
            rewritten: None,
            phase: Phase::Waiting,
            last_error: CheckerErrorView::NotTried,
        }
    }

    /// The URL that the running check asks for.
    pub open spec fn target(self) -> Seq<char> {
        match self.rewritten {
            Some(target) => target,
            None => self.url,
        }
    }

    /// Whether the check is over.
    pub open spec fn concluded(self) -> bool {
        self.phase is Succeeded || self.phase is Failed
    }

    /// What the check ended in, once it is over.
    pub open spec fn outcome(self) -> Option<CheckOutcomeView> {
        match self.phase {
            Phase::Succeeded => Some(CheckOutcomeView::Success),
            Phase::Failed => Some(CheckOutcomeView::Failure(self.last_error)),
            _ => None,
        }
    }

    /// How many permits were taken so far: one by the fetcher's own check
    /// when it left `Waiting`, one more by the fresh check when it did.
    pub open spec fn acquired(self) -> nat {
        let own: nat = if self.rewritten is Some || !(self.phase is Waiting) {
            1
        } else {
            0
        };
        let fresh: nat = if self.rewritten is Some && !(self.phase is Waiting) {
            1
        } else {
            0
        };
        own + fresh
    }

    /// How many permits were given back so far: none while the check runs,
    /// all that were taken once it is over.
    pub open spec fn released(self) -> nat {
        if self.concluded() {
            self.acquired()
        } else {
            0
        }
    }

    /// How many permits the fetcher holds.
    pub open spec fn held(self) -> nat {
        (self.acquired() - self.released()) as nat
    }

    /// How many replies the fetcher can still take at most: what is left of
    /// the attempts of the running check, and, before the rewrite, those of a
    /// fresh check that may follow.
    pub open spec fn attempts_left(self) -> nat {
        let later: nat = if self.rewritten is Some {
            0
        } else {
            MAX_ATTEMPTS as nat
        };
        match self.phase {
            Phase::Waiting => MAX_ATTEMPTS as nat + later,
            Phase::Attempt { done } => (MAX_ATTEMPTS - done) as nat + later,
            _ => 0,
        }
    }

    /// What holds of every state a fetcher can be in: a running check has
    /// made fewer than [`MAX_ATTEMPTS`] requests, it has a failure on record
    /// exactly if one of its requests has failed, and a check that failed has
    /// one on record.
    pub open spec fn wf(self) -> bool {
        match self.phase {
            Phase::Waiting => self.last_error is NotTried,
            Phase::Attempt { done } => done < MAX_ATTEMPTS && (done == 0 <==> self.last_error
                is NotTried),
            Phase::Succeeded => true,
            Phase::Failed => !(self.last_error is NotTried),
        }
    }

    /// What the fetcher asks of its driver in this state.
    pub open spec fn pending(self) -> ActionView {
        match self.phase {
            Phase::Waiting => ActionView::Wait { millis: POLL_INTERVAL_MS },
            Phase::Attempt { .. } => ActionView::Request { url: self.target() },
            _ => ActionView::Done,
        }
    }

    /// The running check asks for a permit: with one free it takes it and
    /// starts its first request, with none it goes on waiting.
    pub open spec fn polled(self, free: bool) -> FetcherView {
        if free {
            FetcherView { phase: Phase::Attempt { done: 0 }, ..self }
        } else {
            self
        }
    }

    /// A request of the running check has failed with `error`, after `done`
    /// earlier ones: the check goes on to the next request, or fails if this
    /// was the last.
    pub open spec fn failed_attempt(self, done: u8, error: CheckerErrorView) -> FetcherView {
        FetcherView {
            phase: if done + 1 >= MAX_ATTEMPTS {
                Phase::Failed
            } else {
                Phase::Attempt { done: (done + 1) as u8 }
            },
            last_error: error,
            ..self
        }
    }

    /// The failure that an answer with a status other than 200 stands for.
    /// The redirect target is kept for a redirection only.
    pub open spec fn status_error(status: u16, location: Option<Seq<char>>) -> CheckerErrorView {
        CheckerErrorView::HttpError {
            status,
            location: if is_redirection(status) {
                location
            } else {
                None
            },
        }
    }

    /// The state after one step.
    ///
    /// - Waiting: a wake-up makes the check ask for a permit.
    /// - A request under way and its reply:
    ///   - no answer: a failed attempt;
    ///   - status 200: the check has succeeded;
    ///   - status 404 from the fetcher's own URL where the rewrite leads
    ///     somewhere: the fresh check of that URL begins, with nothing on
    ///     record, and asks for its permit at once;
    ///   - any other status: a failed attempt.
    /// - Anything else (a reply nobody asked for, a wake-up during a
    ///   request, any event after the end) changes nothing.
    pub open spec fn step(self, input: Input) -> FetcherView {
        match (self.phase, input.event) {
            (Phase::Waiting, EventView::Wake) => self.polled(input.free),
            (Phase::Attempt { done }, EventView::Reply(ReplyView::Transport { error })) => {
                self.failed_attempt(done, CheckerErrorView::ReqwestError { error })
            },
            (Phase::Attempt { done }, EventView::Reply(ReplyView::Status { status, location })) => {
                if status == STATUS_OK {
                    FetcherView { phase: Phase::Succeeded, ..self }
                } else if status == STATUS_NOT_FOUND && self.rewritten is None && input.rewrite
                    is Some {
                    FetcherView {
                        rewritten: input.rewrite,
                        phase: Phase::Waiting,
                        last_error: CheckerErrorView::NotTried,
                        ..self
                    }.polled(input.free)
                } else {
                    self.failed_attempt(done, Self::status_error(status, location))
                }
            },
            _ => self,
        }
    }

    /// The state after a series of steps.
    pub open spec fn run(self, inputs: Seq<Input>) -> FetcherView
        decreases inputs.len(),
    {
        if inputs.len() == 0 {
            self
        } else {
            self.run(inputs.drop_last()).step(inputs.last())
        }
    }
}

/// The check of one URL.
#[derive(Debug)]
pub struct Fetcher {
    url: String,
    rewritten: Option<String>,
    phase: Phase,
    last_error: CheckerError,
    own: Option<Handle>,
    fresh: Option<Handle>,
}

impl View for Fetcher {
    type V = FetcherView;

    closed spec fn view(&self) -> FetcherView {
        FetcherView {
            url: self.url@,
            rewritten: opt_text(self.rewritten),
            phase: self.phase,
            last_error: self.last_error@,
        }
    }
}

impl Fetcher {
    /// Whether the fetcher has in hand exactly the permits that its state
    /// says it holds.
    pub closed spec fn permits_in_hand(&self) -> bool {
        &&& self.own is Some <==> self@.held() >= 1
        &&& self.fresh is Some <==> self@.held() >= 2
    }

    /// The fetcher is in a state that a fetcher can be in, with the permits
    /// to match.
    pub open spec fn wf(&self) -> bool {
        self@.wf() && self.permits_in_hand()
    }

    /// A fetcher for `url`, waiting for its permit.
    pub fn new(url: String) -> (fetcher: Fetcher)
        ensures
            fetcher.wf(),
            fetcher@ == FetcherView::start(url@),
    {
        Fetcher {
            url,
            rewritten: None,
            phase: Phase::Waiting,
            last_error: CheckerError::NotTried,
            own: None,
            fresh: None,
        }
    }

    /// The URL the fetcher was made for.
    pub fn url(&self) -> (url: &str)
        ensures
            url@ == self@.url,
    {
        self.url.as_str()
    }

    /// Where the check stands.
    pub fn phase(&self) -> (phase: Phase)
        ensures
            phase == self@.phase,
    {
        self.phase
    }

    /// The URL of the fresh check, once the rewrite was made.
    pub fn rewritten(&self) -> (target: Option<&str>)
        ensures
            match target {
                Some(text) => self@.rewritten == Some(text@),
                None => self@.rewritten is None,
            },
    {
        match &self.rewritten {
            Some(target) => Some(target.as_str()),
            None => None,
        }
    }

    /// How many permits the fetcher holds.
    pub fn permits(&self) -> (n: u8)
        requires
            self.wf(),
        ensures
            n == self@.held(),
    {
        match (&self.own, &self.fresh) {
            (Some(_), Some(_)) => 2,
            (Some(_), None) => 1,
            _ => 0,
        }
    }

    /// Whether the check is over.
    pub fn is_concluded(&self) -> (over: bool)
        ensures
            over == self@.concluded(),
    {
        match self.phase {
            Phase::Succeeded => true,
            Phase::Failed => true,
            _ => false,
        }
    }

    /// What the check ended in, once it is over. A failure is never
    /// [`CheckerError::NotTried`].
    pub fn outcome(&self) -> (outcome: Option<CheckOutcome>)
        requires
            self.wf(),
        ensures
            opt_outcome(outcome) == self@.outcome(),
            outcome matches Some(CheckOutcome::Failure(error)) ==> !(error is NotTried),
    {
        match self.phase {
            Phase::Succeeded => Some(CheckOutcome::Success),
            Phase::Failed => Some(CheckOutcome::Failure(self.last_error.duplicate())),
            _ => None,
        }
    }

    /// What the fetcher asks of its driver in its present state.
    pub fn pending(&self) -> (action: Action)
        ensures
            action@ == self@.pending(),
    {
        match self.phase {
            Phase::Waiting => Action::Wait { millis: POLL_INTERVAL_MS },
            Phase::Attempt { .. } => {
                let url = match &self.rewritten {
                    Some(target) => target.clone(),
                    None => self.url.clone(),
                };
                Action::Request { url }
            },
            _ => Action::Done,
        }
    }

    /// The running check asks the pool for its permit.
    fn poll(&mut self, pool: &mut MaxHandles)
        requires
            old(self)@.wf(),
            old(self).phase is Waiting,
            old(self).fresh is None,
            old(self).own is Some <==> old(self).rewritten is Some,
            old(pool).wf(),
        ensures
            final(self).wf(),
            final(self)@ == old(self)@.polled(old(pool).remaining() > 0),
            final(pool).wf(),
            final(pool).capacity() == old(pool).capacity(),
            final(pool).outstanding() - old(pool).outstanding() == final(self)@.held() - old(self)@.held(),
    {
        match pool.try_get() {
            Some(handle) => {
                if self.rewritten.is_some() {
                    self.fresh = Some(handle);
                } else {
                    self.own = Some(handle);
                }
                self.phase = Phase::Attempt { done: 0 };
            },
            None => {},
        }
    }

    /// Gives back every permit in hand.
    fn release_all(&mut self, pool: &mut MaxHandles)
        requires
            old(self)@.concluded(),
            old(pool).wf(),
            old(self).own is Some,
            old(self).fresh is Some ==> old(pool).outstanding() >= 2,
            old(pool).outstanding() >= 1,
        ensures
            final(self)@ == old(self)@,
            final(self).own is None,
            final(self).fresh is None,
            final(pool).wf(),
            final(pool).capacity() == old(pool).capacity(),
            final(pool).outstanding() == old(pool).outstanding() - (if old(self).fresh is Some {
                2int
            } else {
                1int
            }),
    {
        match self.fresh.take() {
            Some(handle) => pool.release(handle),
            None => {},
        }
        match self.own.take() {
            Some(handle) => pool.release(handle),
            None => {},
        }
    }

    /// Records a failed attempt and goes on to the next, or ends the check.
    fn fail(&mut self, pool: &mut MaxHandles, done: u8, error: CheckerError)
        requires
            old(self).wf(),
            old(self).phase == (Phase::Attempt { done }),
            !(error is NotTried),
            old(pool).wf(),
            old(self)@.held() <= old(pool).outstanding(),
        ensures
            final(self).wf(),
            final(self)@ == old(self)@.failed_attempt(done, error@),
            final(pool).wf(),
            final(pool).capacity() == old(pool).capacity(),
            final(pool).outstanding() - old(pool).outstanding() == final(self)@.held() - old(self)@.held(),
    {
        self.last_error = error;
        if done + 1 >= MAX_ATTEMPTS {
            self.phase = Phase::Failed;
            self.release_all(pool);
        } else {
            self.phase = Phase::Attempt { done: done + 1 };
        }
    }

    /// Takes one step, given where the rewrite would lead from the fetcher's
    /// URL. The pool must be the one that the fetcher's permits are from.
    pub fn step_with(
        &mut self,
        pool: &mut MaxHandles,
        event: Event,
        rewrite: Option<String>,
    ) -> (action: Action)
        requires
            old(self).wf(),
            old(pool).wf(),
            old(self)@.held() <= old(pool).outstanding(),
        ensures
            final(self).wf(),
            final(self)@ == old(self)@.step(
                Input {
                    event: event@,
                    free: old(pool).remaining() > 0,
                    rewrite: opt_text(rewrite),
                },
            ),
            action@ == final(self)@.pending(),
            final(pool).wf(),
            final(pool).capacity() == old(pool).capacity(),
            final(pool).outstanding() - old(pool).outstanding() == final(self)@.held() - old(self)@.held(),
    {
        match self.phase {
            Phase::Waiting => {
                match event {
                    Event::Wake => self.poll(pool),
                    _ => {},
                }
            },
            Phase::Attempt { done } => {
                match event {
                    Event::Wake => {},
                    Event::Reply(Reply::Transport { error }) => {
                        self.fail(pool, done, CheckerError::ReqwestError { error });
                    },
                    Event::Reply(Reply::Status { status, location }) => {
                        if status == STATUS_OK {
                            self.phase = Phase::Succeeded;
                            self.release_all(pool);
                        } else if status == STATUS_NOT_FOUND && self.rewritten.is_none()
                            && rewrite.is_some() {
                            self.rewritten = rewrite;
                            self.last_error = CheckerError::NotTried;
                            self.phase = Phase::Waiting;
                            self.poll(pool);
                        } else {
                            let location = if 300 <= status && status < 400 {
                                location
                            } else {
                                None
                            };
                            self.fail(pool, done, CheckerError::HttpError { status, location });
                        }
                    },
                }
            },
            _ => {},
        }
        self.pending()
    }

    /// Takes one step. The pool must be the one that the fetcher's permits
    /// are from.
    pub fn step(&mut self, pool: &mut MaxHandles, event: Event) -> (action: Action)
        requires
            old(self).wf(),
            old(pool).wf(),
            old(self)@.held() <= old(pool).outstanding(),
        ensures
            final(self).wf(),
            final(self)@ == old(self)@.step(
                Input {
                    event: event@,
                    free: old(pool).remaining() > 0,
                    rewrite: actions_rewrite_of(old(self)@.url),
                },
            ),
            action@ == final(self)@.pending(),
            final(pool).wf(),
            final(pool).capacity() == old(pool).capacity(),
            final(pool).outstanding() - old(pool).outstanding() == final(self)@.held() - old(self)@.held(),
    {
        let rewrite = if self.wants_rewrite(&event) {
            actions_rewrite(self.url.as_str())
        } else {
            None
        };
        self.step_with(pool, event, rewrite)
    }

    /// Whether the step for `event` depends on where the rewrite leads.
    fn wants_rewrite(&self, event: &Event) -> (wanted: bool)
        ensures
            wanted <==> {
                &&& self@.phase is Attempt
                &&& self@.rewritten is None
                &&& event@ matches EventView::Reply(ReplyView::Status { status, .. })
                &&& status == STATUS_NOT_FOUND
            },
    {
        match self.phase {
            Phase::Attempt { .. } => match event {
                Event::Reply(Reply::Status { status, .. }) => *status == STATUS_NOT_FOUND
                    && self.rewritten.is_none(),
                _ => false,
            },
            _ => false,
        }
    }
}

/// An optional outcome as plain values.
pub open spec fn opt_outcome(outcome: Option<CheckOutcome>) -> Option<CheckOutcomeView> {
    match outcome {
        Some(o) => Some(o@),
        None => None,
    }
}

/// A step leads from a state a fetcher can be in to another such state. It
/// never changes the URL the fetcher reports under, never undoes or repeats
/// the rewrite, and never takes back a count: permits taken and permits
/// given back only grow, by at most one permit taken per step.
pub proof fn lemma_step_keeps_order(s: FetcherView, input: Input)
    requires
        s.wf(),
    ensures
        s.step(input).wf(),
        s.step(input).url == s.url,
        s.rewritten is Some ==> s.step(input).rewritten == s.rewritten,
        s.acquired() <= s.step(input).acquired() <= s.acquired() + 1,
        s.released() <= s.step(input).released(),
        s.concluded() ==> s.step(input) == s,
{
}

/// No check goes on for ever: each reply to a request uses up one of the
/// attempts that are left, and with none left the check is over.
pub proof fn lemma_reply_uses_an_attempt(s: FetcherView, input: Input)
    requires
        s.wf(),
        s.phase is Attempt,
        input.event is Reply,
    ensures
        s.step(input).attempts_left() < s.attempts_left(),
        s.step(input).attempts_left() == 0 <==> s.step(input).concluded(),
{
}

/// A fetcher's permits balance. Whatever it is told, from its start on: it
/// holds no permit before its check has begun, its own check takes exactly
/// one permit and the fresh check after a rewrite exactly one more, nothing
/// is given back while the check runs, and once the check is over, by success
/// or by failure, every permit taken has been given back.
pub proof fn lemma_permits_balance(url: Seq<char>, inputs: Seq<Input>)
    ensures
        ({
            let end = FetcherView::start(url).run(inputs);
            &&& end.wf()
            &&& end.url == url
            &&& end.acquired() == (if end.rewritten is Some {
                if end.phase is Waiting {
                    1nat
                } else {
                    2nat
                }
            } else {
                if end.phase is Waiting {
                    0nat
                } else {
                    1nat
                }
            })
            &&& !end.concluded() ==> end.released() == 0 && end.held() == end.acquired()
            &&& end.concluded() ==> end.released() == end.acquired() && end.held() == 0
                && end.acquired() >= 1
        }),
    decreases inputs.len(),
{
    if inputs.len() > 0 {
        lemma_permits_balance(url, inputs.drop_last());
        lemma_step_keeps_order(FetcherView::start(url).run(inputs.drop_last()), inputs.last());
    }
}

/// Whether `input` reports a request that failed below HTTP.
pub open spec fn is_transport_failure(input: Input) -> bool {
    input.event matches EventView::Reply(ReplyView::Transport { .. })
}

/// The description of the transport failure that `input` reports.
pub open spec fn transport_error(input: Input) -> Seq<char>
    recommends
        is_transport_failure(input),
{
    match input.event {
        EventView::Reply(ReplyView::Transport { error }) => error,
        _ => Seq::empty(),
    }
}

/// A check whose every request fails below HTTP goes on through its first
/// `MAX_ATTEMPTS - 1` failures, asking for another request each time, and
/// fails at the next, with that last failure on record.
pub proof fn lemma_transport_failures_exhaust(s: FetcherView, inputs: Seq<Input>)
    requires
        s.wf(),
        s.phase == (Phase::Attempt { done: 0 }),
        inputs.len() <= MAX_ATTEMPTS,
        forall|i: int| 0 <= i < inputs.len() ==> is_transport_failure(#[trigger] inputs[i]),
    ensures
        inputs.len() < MAX_ATTEMPTS ==> s.run(inputs).phase == (Phase::Attempt {
            done: inputs.len() as u8,
        }) && s.run(inputs).pending() == (ActionView::Request { url: s.target() }),
        inputs.len() == MAX_ATTEMPTS ==> s.run(inputs).outcome() == Some(
            CheckOutcomeView::Failure(
                CheckerErrorView::ReqwestError { error: transport_error(inputs.last()) },
            ),
        ) && s.run(inputs).pending() == ActionView::Done,
        s.run(inputs).rewritten == s.rewritten,
        s.run(inputs).url == s.url,
    decreases inputs.len(),
{
    if inputs.len() > 0 {
        lemma_transport_failures_exhaust(s, inputs.drop_last());
        assert(is_transport_failure(inputs.last()));
    }
}

} // verus!
