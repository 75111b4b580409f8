//! Running one test: when to send a request, when to await a reply, and what to
//! make of the replies.

use vstd::prelude::*;

use crate::bench::{BenchResult, TestName};
use crate::request::BenchPlan;

verus! {

/// One exchange with the engine.
#[derive(Clone, Copy, Debug, PartialEq, Eq, Structural)]
pub enum Exchange {
    /// Send one copy of the request.
    Send,
    /// Await one reply.
    Receive,
}

/// What to do next.
#[derive(Clone, Copy, Debug, PartialEq, Eq, Structural)]
pub enum RunStep {
    Exchange(Exchange),
    /// Every reply has come: take the result.
    Finish,
}

/// What the engine answers a request with. Errors and partial replies are given
/// as the engine prints them.
#[derive(Debug, PartialEq, Eq)]
pub enum Reply<U> {
    InternalError(String),
    ModelError(String, String),
    ValidationError(String),
    Done(U),
    Chunk,
    CompletionModelError,
    CompletionDone(U),
    CompletionChunk,
}

/// An answer that a benchmark never gets from a working engine.
#[derive(Debug, PartialEq, Eq)]
pub enum ReplyError {
    InternalError(String),
    ModelError(String, String),
    ValidationError(String),
    Chunk,
    CompletionModelError,
    CompletionChunk,
    /// The engine hung up.
    Closed,
}

/// The usage that a reply reports: whole replies report one, and nothing else
/// is expected.
pub open spec fn usage_of_spec<U>(reply: Option<Reply<U>>) -> Result<U, ReplyError> {
    match reply {
        Some(Reply::Done(usage)) => Ok(usage),
        Some(Reply::CompletionDone(usage)) => Ok(usage),
        Some(Reply::InternalError(e)) => Err(ReplyError::InternalError(e)),
        Some(Reply::ModelError(e, response)) => Err(ReplyError::ModelError(e, response)),
        Some(Reply::ValidationError(e)) => Err(ReplyError::ValidationError(e)),
        Some(Reply::Chunk) => Err(ReplyError::Chunk),
        Some(Reply::CompletionModelError) => Err(ReplyError::CompletionModelError),
        Some(Reply::CompletionChunk) => Err(ReplyError::CompletionChunk),
        None => Err(ReplyError::Closed),
    }
}

/// The usage that a reply reports, or why it reports none. `None` stands for a
/// closed channel.
pub fn usage_of<U>(reply: Option<Reply<U>>) -> (usage: Result<U, ReplyError>)
    ensures
        usage == usage_of_spec(reply),
        reply matches Some(Reply::Done(u)) ==> usage == Ok::<U, ReplyError>(u),
        reply matches Some(Reply::CompletionDone(u)) ==> usage == Ok::<U, ReplyError>(u),
        usage is Ok <==> reply is Some && (reply->0 is Done || reply->0 is CompletionDone),
{
    match reply {
        Some(reply) => match reply {
            Reply::InternalError(e) => Err(ReplyError::InternalError(e)),
            Reply::ModelError(e, response) => Err(ReplyError::ModelError(e, response)),
            Reply::ValidationError(e) => Err(ReplyError::ValidationError(e)),
            Reply::Done(usage) => Ok(usage),
            Reply::Chunk => Err(ReplyError::Chunk),
            Reply::CompletionModelError => Err(ReplyError::CompletionModelError),
            Reply::CompletionDone(usage) => Ok(usage),
            Reply::CompletionChunk => Err(ReplyError::CompletionChunk),
        },
        None => Err(ReplyError::Closed),
    }
}

impl ReplyError {
    /// What is said of an unexpected answer.
    pub open spec fn message_spec(self) -> Seq<char> {
        let unreachable = "internal error: entered unreachable code"@;
        match self {
            ReplyError::InternalError(e) => unreachable + ": Got an internal error: "@ + e@,
            ReplyError::ModelError(e, response) => unreachable + ": Got a model error: "@ + e@
                + ", response: "@ + response@,
            ReplyError::ValidationError(e) => unreachable + ": Got a validation error: "@ + e@,
            ReplyError::Chunk => unreachable,
            ReplyError::CompletionModelError => unreachable,
            ReplyError::CompletionChunk => unreachable,
            ReplyError::Closed => unreachable + ": Expected a Done response, got None"@,
        }
    }

    /// The message with which the benchmark gives up.
    pub fn message(&self) -> (text: String)
        ensures
            text@ == self.message_spec(),
            self matches ReplyError::InternalError(e) ==> text@
                == "internal error: entered unreachable code"@ + ": Got an internal error: "@ + e@,
            self matches ReplyError::ModelError(e, response) ==> text@
                == "internal error: entered unreachable code"@ + ": Got a model error: "@ + e@
                + ", response: "@ + response@,
            self matches ReplyError::ValidationError(e) ==> text@
                == "internal error: entered unreachable code"@ + ": Got a validation error: "@ + e@,
            *self is Closed ==> text@ == "internal error: entered unreachable code"@
                + ": Expected a Done response, got None"@,
            *self is Chunk || *self is CompletionModelError || *self is CompletionChunk ==> text@
                == "internal error: entered unreachable code"@,
    {
        let mut text = "internal error: entered unreachable code".to_string();
        match self {
            ReplyError::InternalError(e) => {
                text.append(": Got an internal error: ");
                text.append(e.as_str());
            },
            ReplyError::ModelError(e, response) => {
                text.append(": Got a model error: ");
                text.append(e.as_str());
                text.append(", response: ");
                text.append(response.as_str());
            },
            ReplyError::ValidationError(e) => {
                text.append(": Got a validation error: ");
                text.append(e.as_str());
            },
            ReplyError::Chunk => {},
            ReplyError::CompletionModelError => {},
            ReplyError::CompletionChunk => {},
            ReplyError::Closed => {
                text.append(": Expected a Done response, got None");
            },
        }
        text
    }
}

/// The same exchange, `n` times.
pub open spec fn repeated(exchange: Exchange, n: nat) -> Seq<Exchange> {
    Seq::new(n, |i: int| exchange)
}

/// One repetition: every request is sent before the first reply is awaited.
pub open spec fn batch(concurrency: nat) -> Seq<Exchange> {
    repeated(Exchange::Send, concurrency) + repeated(Exchange::Receive, concurrency)
}

/// The exchanges of a whole test.
pub open spec fn run_plan(concurrency: nat, repetitions: nat) -> Seq<Exchange>
    decreases repetitions,
{
    if repetitions == 0 {
        Seq::empty()
    } else {
        batch(concurrency) + run_plan(concurrency, (repetitions - 1) as nat)
    }
}

/// How often an exchange occurs.
pub open spec fn occurrences(exchanges: Seq<Exchange>, exchange: Exchange) -> nat
    decreases exchanges.len(),
{
    if exchanges.len() == 0 {
        0
    } else {
        occurrences(exchanges.drop_last(), exchange) + if exchanges.last() == exchange {
            1nat
        } else {
            0nat
        }
    }
}

/// The state of a run: the exchanges that are left, and the usages so far.
#[verifier::ext_equal]
pub struct RunModel<U> {
    pub concurrency: usize,
    pub test_name: TestName,
    pub remaining: Seq<Exchange>,
    pub usages: Seq<U>,
}

impl<U> RunModel<U> {
    /// The state before the first exchange.
    pub open spec fn start(concurrency: usize, repetitions: usize, test_name: TestName) -> Self {
        RunModel {
            concurrency,
            test_name,
            remaining: run_plan(concurrency as nat, repetitions as nat),
            usages: Seq::empty(),
        }
    }

    pub open spec fn next(self) -> RunStep {
        if self.remaining.len() == 0 {
            RunStep::Finish
        } else {
            RunStep::Exchange(self.remaining[0])
        }
    }

    /// The state after a request was sent.
    pub open spec fn sent(self) -> Self {
        RunModel { remaining: self.remaining.drop_first(), ..self }
    }

    /// The state after a reply that reports a usage.
    pub open spec fn received(self, usage: U) -> Self {
        RunModel {
            remaining: self.remaining.drop_first(),
            usages: self.usages.push(usage),
            ..self
        }
    }
}

/// A test in progress.
#[derive(Debug, PartialEq, Eq)]
pub struct BenchRun<U> {
    concurrency: usize,
    test_name: TestName,
    to_send: usize,
    to_receive: usize,
    batches_left: usize,
    usages: Vec<U>,
}

impl<U> View for BenchRun<U> {
    type V = RunModel<U>;

    closed spec fn view(&self) -> RunModel<U> {
        RunModel {
            concurrency: self.concurrency,
            test_name: self.test_name,
            remaining: repeated(Exchange::Send, self.to_send as nat) + repeated(
                Exchange::Receive,
                self.to_receive as nat,
            ) + run_plan(self.concurrency as nat, self.batches_left as nat),
            usages: self.usages@,
        }
    }
}

impl<U> BenchRun<U> {
    /// Whether the counters agree with each other.
    pub closed spec fn wf(self) -> bool {
        &&& self.to_send <= self.to_receive <= self.concurrency
        &&& self.to_receive == 0 ==> self.batches_left == 0
    }

    /// Begins a test.
    pub fn new(plan: &BenchPlan) -> (run: Self)
        ensures
            run.wf(),
            run@ == RunModel::<U>::start(plan.concurrency, plan.repetitions, plan.test_name),
            run@.concurrency == plan.concurrency,
            run@.test_name == plan.test_name,
            run@.usages.len() == 0,
            run@.remaining.len() == 2 * plan.concurrency * plan.repetitions,
            forall|k: int|
                0 <= k < run@.remaining.len() ==> #[trigger] run@.remaining[k] == (if k % (2
                    * plan.concurrency) < plan.concurrency {
                    Exchange::Send
                } else {
                    Exchange::Receive
                }),
    {
        proof {
            lemma_idle_plan(plan.repetitions as nat);
            lemma_plan_length(plan.concurrency as nat, plan.repetitions as nat);
            assert forall|k: int|
                0 <= k < run_plan(plan.concurrency as nat, plan.repetitions as nat).len() implies (
            #[trigger] run_plan(plan.concurrency as nat, plan.repetitions as nat)[k]) == (if k % (2
                * plan.concurrency) < plan.concurrency {
                Exchange::Send
            } else {
                Exchange::Receive
            }) by {
                lemma_plan_at(plan.concurrency as nat, plan.repetitions as nat, k);
            }
        }
        let idle = plan.concurrency == 0 || plan.repetitions == 0;
        let batch_size: usize = if idle {
            0
        } else {
            plan.concurrency
        };
        let batches_left: usize = if idle {
            0
        } else {
            plan.repetitions - 1
        };
        let run = BenchRun {
            concurrency: plan.concurrency,
            test_name: plan.test_name,
            to_send: batch_size,
            to_receive: batch_size,
            batches_left,
            usages: Vec::new(),
        };
        assert(run@ =~= RunModel::<U>::start(
            plan.concurrency,
            plan.repetitions,
            plan.test_name,
        ));
        run
    }

    /// What to do next.
    pub fn next(&self) -> (step: RunStep)
        requires
            self.wf(),
        ensures
            step == self@.next(),
            self@.remaining.len() == 0 <==> step == RunStep::Finish,
            self@.remaining.len() > 0 ==> step == RunStep::Exchange(self@.remaining[0]),
    {
        if self.to_send > 0 {
            RunStep::Exchange(Exchange::Send)
        } else if self.to_receive > 0 {
            RunStep::Exchange(Exchange::Receive)
        } else {
            assert(self@.remaining =~= Seq::<Exchange>::empty());
            RunStep::Finish
        }
    }

    /// Notes that a request was sent.
    pub fn sent(&mut self)
        requires
            old(self).wf(),
            old(self)@.next() == RunStep::Exchange(Exchange::Send),
        ensures
            final(self).wf(),
            final(self)@ == old(self)@.sent(),
            final(self)@.remaining == old(self)@.remaining.skip(1),
            final(self)@.usages == old(self)@.usages,
            final(self)@.concurrency == old(self)@.concurrency,
            final(self)@.test_name == old(self)@.test_name,
    {
        proof {
            lemma_send_first(*self);
        }
        self.to_send -= 1;
        assert(self@ =~= old(self)@.sent());
    }

    /// Notes the reply that was awaited, or that the channel was closed. An
    /// unexpected answer is handed back and changes nothing.
    pub fn received(&mut self, reply: Option<Reply<U>>) -> (outcome: Result<(), ReplyError>)
        requires
            old(self).wf(),
            old(self)@.next() == RunStep::Exchange(Exchange::Receive),
        ensures
            final(self).wf(),
            match usage_of_spec(reply) {
                Ok(usage) => outcome == Ok::<(), ReplyError>(()) && final(self)@ == old(
                    self,
                )@.received(usage),
                Err(error) => outcome == Err::<(), ReplyError>(error) && *final(self) == *old(self),
            },
            outcome is Ok <==> reply is Some && (reply->0 is Done || reply->0 is CompletionDone),
            reply matches Some(Reply::Done(usage)) ==> final(self)@.usages == old(
                self,
            )@.usages.push(usage),
            reply matches Some(Reply::CompletionDone(usage)) ==> final(self)@.usages == old(
                self,
            )@.usages.push(usage),
            outcome is Ok ==> final(self)@.remaining == old(self)@.remaining.skip(1),
            final(self)@.concurrency == old(self)@.concurrency,
            final(self)@.test_name == old(self)@.test_name,
    {
        proof {
            lemma_receive_first(*self);
        }
        match usage_of(reply) {
            Err(error) => Err(error),
            Ok(usage) => {
                self.usages.push(usage);
                self.to_receive -= 1;
                if self.to_receive == 0 && self.batches_left > 0 {
                    self.batches_left -= 1;
                    self.to_send = self.concurrency;
                    self.to_receive = self.concurrency;
                }
                assert(self@ =~= old(self)@.received(usage));
                Ok(())
            },
        }
    }

    /// The result of a test whose replies have all come.
    pub fn finish(self) -> (result: BenchResult<U>)
        requires
            self.wf(),
            self@.next() == RunStep::Finish,
        ensures
            result.usages@ == self@.usages,
            result.concurrency == self@.concurrency,
            result.test_name == self@.test_name,
    {
        BenchResult {
            usages: self.usages,
            concurrency: self.concurrency,
            test_name: self.test_name,
        }
    }
}

proof fn lemma_idle_plan(repetitions: nat)
    ensures
        run_plan(0, repetitions) == Seq::<Exchange>::empty(),
    decreases repetitions,
{
    if repetitions > 0 {
        lemma_idle_plan((repetitions - 1) as nat);
        assert(run_plan(0, repetitions) =~= Seq::<Exchange>::empty());
    }
}

proof fn lemma_send_first<U>(run: BenchRun<U>)
    requires
        run.wf(),
        run@.next() == RunStep::Exchange(Exchange::Send),
    ensures
        run.to_send > 0,
{
    if run.to_send == 0 {
        if run.to_receive > 0 {
            assert(run@.remaining[0] == Exchange::Receive);
        } else {
            assert(run@.remaining =~= Seq::<Exchange>::empty());
        }
    }
}

proof fn lemma_receive_first<U>(run: BenchRun<U>)
    requires
        run.wf(),
        run@.next() == RunStep::Exchange(Exchange::Receive),
    ensures
        run.to_send == 0,
        run.to_receive > 0,
{
    if run.to_send > 0 {
        assert(run@.remaining[0] == Exchange::Send);
    } else if run.to_receive == 0 {
        assert(run@.remaining =~= Seq::<Exchange>::empty());
    }
}

proof fn lemma_occurrences_concat(a: Seq<Exchange>, b: Seq<Exchange>, exchange: Exchange)
    ensures
        occurrences(a + b, exchange) == occurrences(a, exchange) + occurrences(b, exchange),
    decreases b.len(),
{
    if b.len() == 0 {
        assert(a + b =~= a);
    } else {
        lemma_occurrences_concat(a, b.drop_last(), exchange);
        assert((a + b).drop_last() =~= a + b.drop_last());
    }
}

proof fn lemma_occurrences_repeated(e: Exchange, n: nat, exchange: Exchange)
    ensures
        occurrences(repeated(e, n), exchange) == (if e == exchange {
            n
        } else {
            0
        }),
    decreases n,
{
    if n > 0 {
        assert(repeated(e, n).drop_last() =~= repeated(e, (n - 1) as nat));
        lemma_occurrences_repeated(e, (n - 1) as nat, exchange);
    }
}

proof fn lemma_occurrences_batch(concurrency: nat, exchange: Exchange)
    ensures
        occurrences(batch(concurrency), exchange) == concurrency,
{
    lemma_occurrences_concat(
        repeated(Exchange::Send, concurrency),
        repeated(Exchange::Receive, concurrency),
        exchange,
    );
    lemma_occurrences_repeated(Exchange::Send, concurrency, exchange);
    lemma_occurrences_repeated(Exchange::Receive, concurrency, exchange);
}

/// A test sends as many requests as it awaits replies: the concurrency times
/// the repetitions.
pub proof fn run_plan_counts(concurrency: nat, repetitions: nat, exchange: Exchange)
    ensures
        occurrences(run_plan(concurrency, repetitions), exchange) == concurrency * repetitions,
    decreases repetitions,
{
    if repetitions == 0 {
        assert(concurrency * repetitions == 0) by (nonlinear_arith)
            requires
                repetitions == 0,
        ;
    } else {
        let rest = (repetitions - 1) as nat;
        run_plan_counts(concurrency, rest, exchange);
        lemma_occurrences_concat(batch(concurrency), run_plan(concurrency, rest), exchange);
        lemma_occurrences_batch(concurrency, exchange);
        assert(concurrency * repetitions == concurrency + concurrency * rest) by (nonlinear_arith)
            requires
                repetitions == rest + 1,
        ;
    }
}

/// At every point of a test no reply is awaited that was not asked for, and no
/// more requests are unanswered than the concurrency allows.
pub proof fn outstanding_requests_are_bounded(concurrency: nat, repetitions: nat, k: int)
    requires
        0 <= k <= run_plan(concurrency, repetitions).len(),
    ensures
        ({
            let done = run_plan(concurrency, repetitions).take(k);
            let sent = occurrences(done, Exchange::Send);
            let received = occurrences(done, Exchange::Receive);
            received <= sent <= received + concurrency
        }),
    decreases repetitions,
{
    let plan = run_plan(concurrency, repetitions);
    let done = plan.take(k);
    if repetitions == 0 {
        assert(done =~= Seq::<Exchange>::empty());
    } else {
        let first = batch(concurrency);
        let rest = run_plan(concurrency, (repetitions - 1) as nat);
        if k <= concurrency {
            assert(done =~= repeated(Exchange::Send, k as nat));
            lemma_occurrences_repeated(Exchange::Send, k as nat, Exchange::Send);
            lemma_occurrences_repeated(Exchange::Send, k as nat, Exchange::Receive);
        } else if k <= first.len() {
            let sends = repeated(Exchange::Send, concurrency);
            let receives = repeated(Exchange::Receive, (k - concurrency) as nat);
            assert(done =~= sends + receives);
            lemma_occurrences_concat(sends, receives, Exchange::Send);
            lemma_occurrences_concat(sends, receives, Exchange::Receive);
            lemma_occurrences_repeated(Exchange::Send, concurrency, Exchange::Send);
            lemma_occurrences_repeated(Exchange::Send, concurrency, Exchange::Receive);
            lemma_occurrences_repeated(
                Exchange::Receive,
                (k - concurrency) as nat,
                Exchange::Send,
            );
            lemma_occurrences_repeated(
                Exchange::Receive,
                (k - concurrency) as nat,
                Exchange::Receive,
            );
        } else {
            let l = k - first.len();
            assert(done =~= first + rest.take(l));
            lemma_occurrences_concat(first, rest.take(l), Exchange::Send);
            lemma_occurrences_concat(first, rest.take(l), Exchange::Receive);
            lemma_occurrences_batch(concurrency, Exchange::Send);
            lemma_occurrences_batch(concurrency, Exchange::Receive);
            outstanding_requests_are_bounded(concurrency, (repetitions - 1) as nat, l);
        }
    }
}

/// What happened in an exchange: a request was sent, or a reply reported a usage.
pub enum Event<U> {
    Sent,
    Received(U),
}

/// The exchange that an event belongs to.
pub open spec fn exchange_of<U>(event: Event<U>) -> Exchange {
    match event {
        Event::Sent => Exchange::Send,
        Event::Received(_) => Exchange::Receive,
    }
}

/// Whether the events are those that a plan asks for, in order.
pub open spec fn follows<U>(events: Seq<Event<U>>, plan: Seq<Exchange>) -> bool {
    events.len() == plan.len() && forall|i: int|
        0 <= i < events.len() ==> exchange_of(#[trigger] events[i]) == plan[i]
}

/// The usages that the replies among the events report, in order.
pub open spec fn usages_in<U>(events: Seq<Event<U>>) -> Seq<U>
    decreases events.len(),
{
    if events.len() == 0 {
        Seq::empty()
    } else {
        let before = usages_in(events.drop_last());
        match events.last() {
            Event::Sent => before,
            Event::Received(usage) => before.push(usage),
        }
    }
}

/// The state after a sequence of events.
pub open spec fn through<U>(run: RunModel<U>, events: Seq<Event<U>>) -> RunModel<U>
    decreases events.len(),
{
    if events.len() == 0 {
        run
    } else {
        let before = through(run, events.drop_last());
        match events.last() {
            Event::Sent => before.sent(),
            Event::Received(usage) => before.received(usage),
        }
    }
}

proof fn lemma_through<U>(run: RunModel<U>, events: Seq<Event<U>>)
    requires
        events.len() <= run.remaining.len(),
    ensures
        through(run, events) == (RunModel {
            remaining: run.remaining.skip(events.len() as int),
            usages: run.usages + usages_in(events),
            ..run
        }),
    decreases events.len(),
{
    if events.len() == 0 {
        assert(run.remaining.skip(0) =~= run.remaining);
        assert(run.usages + usages_in(events) =~= run.usages);
    } else {
        lemma_through(run, events.drop_last());
        let n = events.len() as int;
        assert(run.remaining.skip(n - 1).drop_first() =~= run.remaining.skip(n));
        assert(through(run, events).usages =~= run.usages + usages_in(events));
    }
}

proof fn lemma_usages_counted<U>(events: Seq<Event<U>>, plan: Seq<Exchange>)
    requires
        follows(events, plan),
    ensures
        usages_in(events).len() == occurrences(plan, Exchange::Receive),
    decreases events.len(),
{
    if events.len() > 0 {
        assert(exchange_of(events[events.len() - 1]) == plan[plan.len() - 1]);
        assert forall|i: int| 0 <= i < events.drop_last().len() implies exchange_of(
            #[trigger] events.drop_last()[i],
        ) == plan.drop_last()[i] by {
            assert(events[i] == events.drop_last()[i]);
        }
        lemma_usages_counted(events.drop_last(), plan.drop_last());
    }
}

/// While the events follow the plan, the next exchange is the one that the plan
/// has next.
pub proof fn run_keeps_to_its_plan<U>(
    concurrency: usize,
    repetitions: usize,
    test_name: TestName,
    events: Seq<Event<U>>,
)
    requires
        events.len() < run_plan(concurrency as nat, repetitions as nat).len(),
        follows(
            events,
            run_plan(concurrency as nat, repetitions as nat).take(events.len() as int),
        ),
    ensures
        through(RunModel::start(concurrency, repetitions, test_name), events).next()
            == RunStep::Exchange(
            run_plan(concurrency as nat, repetitions as nat)[events.len() as int],
        ),
{
    lemma_through(RunModel::start(concurrency, repetitions, test_name), events);
}

/// A test that has been through its plan is finished. It has collected the
/// usage of every reply in the order in which the replies came, one for each
/// request: the concurrency times the repetitions.
pub proof fn run_collects_every_usage<U>(
    concurrency: usize,
    repetitions: usize,
    test_name: TestName,
    events: Seq<Event<U>>,
)
    requires
        follows(events, run_plan(concurrency as nat, repetitions as nat)),
    ensures
        ({
            let end = through(RunModel::start(concurrency, repetitions, test_name), events);
            &&& end.next() == RunStep::Finish
            &&& end.usages == usages_in(events)
            &&& end.usages.len() == concurrency * repetitions
            &&& end.concurrency == concurrency
            &&& end.test_name == test_name
        }),
{
    let plan = run_plan(concurrency as nat, repetitions as nat);
    let start = RunModel::<U>::start(concurrency, repetitions, test_name);
    lemma_through(start, events);
    lemma_usages_counted(events, plan);
    run_plan_counts(concurrency as nat, repetitions as nat, Exchange::Receive);
    assert(start.usages + usages_in(events) =~= usages_in(events));
}

proof fn lemma_plan_length(concurrency: nat, repetitions: nat)
    ensures
        run_plan(concurrency, repetitions).len() == 2 * concurrency * repetitions,
    decreases repetitions,
{
    if repetitions == 0 {
        assert(2 * concurrency * repetitions == 0) by (nonlinear_arith)
            requires
                repetitions == 0,
        ;
    } else {
        let rest = (repetitions - 1) as nat;
        lemma_plan_length(concurrency, rest);
        assert(2 * concurrency * repetitions == 2 * concurrency + 2 * concurrency * rest)
            by (nonlinear_arith)
            requires
                repetitions == rest + 1,
        ;
    }
}

/// Every repetition first sends all its requests and then awaits all its
/// replies: of its exchanges, twice as many as the concurrency, the first half
/// are sends and the second half are receives.
pub proof fn repetitions_send_all_before_awaiting_any(
    concurrency: nat,
    repetitions: nat,
    r: nat,
    i: nat,
)
    requires
        r < repetitions,
        i < concurrency,
    ensures
        run_plan(concurrency, repetitions).len() == 2 * concurrency * repetitions,
        0 <= 2 * concurrency * r + i < 2 * concurrency * r + concurrency + i < 2 * concurrency
            * repetitions,
        run_plan(concurrency, repetitions)[(2 * concurrency * r + i) as int] == Exchange::Send,
        run_plan(concurrency, repetitions)[(2 * concurrency * r + concurrency + i) as int]
            == Exchange::Receive,
    decreases repetitions,
{
    lemma_plan_length(concurrency, repetitions);
    assert(0 <= 2 * concurrency * r && 2 * concurrency * r + 2 * concurrency <= 2 * concurrency
        * repetitions) by (nonlinear_arith)
        requires
            r + 1 <= repetitions,
    ;
    let first = batch(concurrency);
    let rest = run_plan(concurrency, (repetitions - 1) as nat);
    assert(first.len() == 2 * concurrency);
    if r == 0 {
        assert(2 * concurrency * r == 0) by (nonlinear_arith)
            requires
                r == 0,
        ;
        assert(first[i as int] == Exchange::Send);
        assert(first[(concurrency + i) as int] == Exchange::Receive);
    } else {
        let s = (r - 1) as nat;
        repetitions_send_all_before_awaiting_any(
            concurrency,
            (repetitions - 1) as nat,
            s,
            i,
        );
        assert(2 * concurrency * r == 2 * concurrency + 2 * concurrency * s) by (nonlinear_arith)
            requires
                r == s + 1,
        ;
    }
}

proof fn lemma_plan_at(concurrency: nat, repetitions: nat, k: int)
    requires
        0 <= k < run_plan(concurrency, repetitions).len(),
    ensures
        concurrency > 0,
        run_plan(concurrency, repetitions)[k] == (if k % (2 * concurrency as int) < concurrency {
            Exchange::Send
        } else {
            Exchange::Receive
        }),
{
    lemma_plan_length(concurrency, repetitions);
    if concurrency == 0 {
        lemma_idle_plan(repetitions);
    }
    let size = 2 * concurrency as int;
    let r = k / size;
    let i = k % size;
    vstd::arithmetic::div_mod::lemma_fundamental_div_mod(k, size);
    vstd::arithmetic::div_mod::lemma_mod_bound(k, size);
    assert(0 <= r < repetitions) by (nonlinear_arith)
        requires
            k == size * r + i,
            0 <= i < size,
            0 <= k < size * repetitions,
            size > 0,
    ;
    assert(2 * concurrency * (r as nat) == size * r);
    if i < concurrency {
        repetitions_send_all_before_awaiting_any(concurrency, repetitions, r as nat, i as nat);
    } else {
        repetitions_send_all_before_awaiting_any(
            concurrency,
            repetitions,
            r as nat,
            (i - concurrency) as nat,
        );
    }
}

proof fn lemma_plan_prefix(concurrency: nat, repetitions: nat, r: nat, i: nat)
    requires
        r < repetitions,
        i <= concurrency,
    ensures
        2 * concurrency * r + concurrency + i <= run_plan(concurrency, repetitions).len(),
        run_plan(concurrency, repetitions).take((2 * concurrency * r + concurrency + i) as int)
            == run_plan(concurrency, r) + repeated(Exchange::Send, concurrency) + repeated(
            Exchange::Receive,
            i,
        ),
    decreases r,
{
    lemma_plan_length(concurrency, repetitions);
    lemma_plan_length(concurrency, r);
    assert(0 <= 2 * concurrency * r && 2 * concurrency * r + 2 * concurrency <= 2 * concurrency
        * repetitions) by (nonlinear_arith)
        requires
            r + 1 <= repetitions,
    ;
    let k = (2 * concurrency * r + concurrency + i) as int;
    let plan = run_plan(concurrency, repetitions);
    let first = batch(concurrency);
    if r == 0 {
        assert(2 * concurrency * r == 0) by (nonlinear_arith)
            requires
                r == 0,
        ;
        assert(plan.take(k) =~= run_plan(concurrency, r) + repeated(Exchange::Send, concurrency)
            + repeated(Exchange::Receive, i));
    } else {
        let s = (r - 1) as nat;
        let rest = run_plan(concurrency, (repetitions - 1) as nat);
        lemma_plan_prefix(concurrency, (repetitions - 1) as nat, s, i);
        assert(2 * concurrency * r == 2 * concurrency + 2 * concurrency * s) by (nonlinear_arith)
            requires
                r == s + 1,
        ;
        assert(plan.take(k) =~= first + rest.take(k - 2 * concurrency));
        assert(plan.take(k) =~= run_plan(concurrency, r) + repeated(Exchange::Send, concurrency)
            + repeated(Exchange::Receive, i));
    }
}

proof fn lemma_prefix_counts(concurrency: nat, repetitions: nat, r: nat, i: nat)
    requires
        r < repetitions,
        i <= concurrency,
    ensures
        ({
            let done = run_plan(concurrency, repetitions).take(
                (2 * concurrency * r + concurrency + i) as int,
            );
            &&& occurrences(done, Exchange::Send) == concurrency * r + concurrency
            &&& occurrences(done, Exchange::Receive) == concurrency * r + i
        }),
{
    lemma_plan_prefix(concurrency, repetitions, r, i);
    let a = run_plan(concurrency, r);
    let b = repeated(Exchange::Send, concurrency);
    let c = repeated(Exchange::Receive, i);
    lemma_occurrences_concat(a + b, c, Exchange::Send);
    lemma_occurrences_concat(a + b, c, Exchange::Receive);
    lemma_occurrences_concat(a, b, Exchange::Send);
    lemma_occurrences_concat(a, b, Exchange::Receive);
    lemma_occurrences_repeated(Exchange::Send, concurrency, Exchange::Send);
    lemma_occurrences_repeated(Exchange::Send, concurrency, Exchange::Receive);
    lemma_occurrences_repeated(Exchange::Receive, i, Exchange::Send);
    lemma_occurrences_repeated(Exchange::Receive, i, Exchange::Receive);
    run_plan_counts(concurrency, r, Exchange::Send);
    run_plan_counts(concurrency, r, Exchange::Receive);
}

/// When the first reply of a repetition is awaited, exactly as many requests are
/// unanswered as the level of concurrency says; and with each reply it is one
/// less.
pub proof fn the_full_concurrency_is_in_flight(
    concurrency: nat,
    repetitions: nat,
    r: nat,
    i: nat,
)
    requires
        r < repetitions,
        i < concurrency,
    ensures
        ({
            let plan = run_plan(concurrency, repetitions);
            let k = (2 * concurrency * r + concurrency + i) as int;
            let done = plan.take(k);
            &&& 0 <= k < plan.len()
            &&& plan[k] == Exchange::Receive
            &&& occurrences(done, Exchange::Send) == occurrences(done, Exchange::Receive)
                + concurrency - i
        }),
{
    repetitions_send_all_before_awaiting_any(concurrency, repetitions, r, i);
    lemma_prefix_counts(concurrency, repetitions, r, i);
}

/// Counting is one by one.
pub proof fn occurrences_are_counted_one_by_one(
    exchanges: Seq<Exchange>,
    last: Exchange,
    exchange: Exchange,
)
    ensures
        occurrences(Seq::empty(), exchange) == 0,
        occurrences(exchanges.push(last), exchange) == occurrences(exchanges, exchange) + (if last
            == exchange {
            1int
        } else {
            0int
        }),
{
    assert(exchanges.push(last).drop_last() =~= exchanges);
}

/// A whole reply of either kind gives the usage that it reports, and nothing
/// else gives any.
pub proof fn whole_replies_report_their_usage<U>(usage: U, reply: Option<Reply<U>>)
    ensures
        usage_of_spec(Some(Reply::Done(usage))) == Ok::<U, ReplyError>(usage),
        usage_of_spec(Some(Reply::CompletionDone(usage))) == Ok::<U, ReplyError>(usage),
        usage_of_spec(reply) is Ok <==> reply is Some && (reply->0 is Done
            || reply->0 is CompletionDone),
{
}

/// Each unexpected answer is reported as itself, with what came with it.
pub proof fn unexpected_answers_keep_their_words<U>(e: String, response: String)
    ensures
        usage_of_spec(Some(Reply::<U>::InternalError(e))) == Err::<U, ReplyError>(
            ReplyError::InternalError(e),
        ),
        usage_of_spec(Some(Reply::<U>::ModelError(e, response))) == Err::<U, ReplyError>(
            ReplyError::ModelError(e, response),
        ),
        usage_of_spec(Some(Reply::<U>::ValidationError(e))) == Err::<U, ReplyError>(
            ReplyError::ValidationError(e),
        ),
        usage_of_spec(Some(Reply::<U>::Chunk)) == Err::<U, ReplyError>(ReplyError::Chunk),
        usage_of_spec(Some(Reply::<U>::CompletionModelError)) == Err::<U, ReplyError>(
            ReplyError::CompletionModelError,
        ),
        usage_of_spec(Some(Reply::<U>::CompletionChunk)) == Err::<U, ReplyError>(
            ReplyError::CompletionChunk,
        ),
        usage_of_spec(None::<Reply<U>>) == Err::<U, ReplyError>(ReplyError::Closed),
{
}

proof fn lemma_usage_at<U>(events: Seq<Event<U>>, k: int)
    requires
        0 <= k < events.len(),
        events[k] is Received,
    ensures
        usages_in(events.take(k)).len() < usages_in(events).len(),
        usages_in(events)[usages_in(events.take(k)).len() as int] == events[k]->Received_0,
    decreases events.len(),
{
    if k == events.len() - 1 {
        assert(events.take(k) =~= events.drop_last());
        assert(events.last() == events[k]);
    } else {
        let before = events.drop_last();
        assert(before.take(k) =~= events.take(k));
        assert(before[k] == events[k]);
        lemma_usage_at(before, k);
    }
}

/// A run ends with one usage for each reply, and the usage of the reply to the
/// `i`-th receive of repetition `r` stands in the `i`-th place of that
/// repetition.
pub proof fn usages_stand_in_the_order_of_the_replies<U>(
    concurrency: usize,
    repetitions: usize,
    test_name: TestName,
    events: Seq<Event<U>>,
    r: nat,
    i: nat,
)
    requires
        events.len() == 2 * concurrency * repetitions,
        forall|k: int|
            0 <= k < events.len() ==> (#[trigger] events[k] is Sent <==> k % (2 * concurrency)
                < concurrency),
        r < repetitions,
        i < concurrency,
    ensures
        ({
            let end = through(RunModel::start(concurrency, repetitions, test_name), events);
            let k = (2 * concurrency * r + concurrency + i) as int;
            &&& end.remaining.len() == 0
            &&& end.usages.len() == concurrency * repetitions
            &&& 0 <= k < events.len()
            &&& events[k] == Event::Received(end.usages[(concurrency * r + i) as int])
            &&& end.concurrency == concurrency
            &&& end.test_name == test_name
        }),
{
    let c = concurrency as nat;
    let plan = run_plan(c, repetitions as nat);
    lemma_plan_length(c, repetitions as nat);
    assert forall|k: int| 0 <= k < events.len() implies exchange_of(#[trigger] events[k])
        == plan[k] by {
        lemma_plan_at(c, repetitions as nat, k);
    }
    assert(follows(events, plan));
    run_collects_every_usage(concurrency, repetitions, test_name, events);
    let end = through(RunModel::start(concurrency, repetitions, test_name), events);
    let k = (2 * concurrency * r + concurrency + i) as int;
    repetitions_send_all_before_awaiting_any(c, repetitions as nat, r, i);
    assert(exchange_of(events[k]) == plan[k]);
    lemma_usage_at(events, k);
    assert forall|j: int| 0 <= j < k implies exchange_of(#[trigger] events.take(k)[j])
        == plan.take(k)[j] by {
        assert(events.take(k)[j] == events[j]);
        assert(exchange_of(events[j]) == plan[j]);
    }
    lemma_usages_counted(events.take(k), plan.take(k));
    lemma_prefix_counts(c, repetitions as nat, r, i);
}

/// The state moves on by one exchange at a time, and only a reply adds a usage.
pub proof fn a_run_moves_one_exchange_at_a_time<U>(run: RunModel<U>, usage: U)
    requires
        run.remaining.len() > 0,
    ensures
        run.next() == RunStep::Exchange(run.remaining[0]),
        run.sent().remaining == run.remaining.skip(1),
        run.sent().usages == run.usages,
        run.received(usage).remaining == run.remaining.skip(1),
        run.received(usage).usages == run.usages.push(usage),
        run.sent().concurrency == run.concurrency && run.sent().test_name == run.test_name,
        run.received(usage).concurrency == run.concurrency && run.received(usage).test_name
            == run.test_name,
{
    assert(run.remaining.drop_first() =~= run.remaining.skip(1));
}

} // verus!
