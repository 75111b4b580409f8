//! The whole benchmark: a warm-up, then for each level of concurrency its tests
//! and a report.

use vstd::prelude::*;

use crate::bench::{BenchResult, TestName};
use crate::request::{
    gen_plan, gen_plan_spec, prompt_fits, prompt_fits_spec, prompt_plan, prompt_plan_spec, warmup_request,
    warmup_request_spec, BenchModel, BenchPlan, Prompt, Request,
};
use crate::run::{follows, run_collects_every_usage, run_plan, through, Event, RunModel};

verus! {

/// The levels of concurrency to run: one request at a time, unless the user
/// says otherwise.
pub fn concurrency_levels(concurrency: Option<Vec<usize>>) -> (levels: Vec<usize>)
    ensures
        levels@ == (match concurrency {
            None => seq![1usize],
            Some(levels) => levels@,
        }),
{
    match concurrency {
        None => {
            let mut levels: Vec<usize> = Vec::new();
            levels.push(1);
            assert(levels@ =~= seq![1usize]);
            levels
        },
        Some(levels) => levels,
    }
}

/// What to do next.
#[derive(Debug, PartialEq, Eq)]
pub enum Action {
    /// Send this request once and await one answer, whatever it is.
    WarmUp(Request),
    /// Run this test.
    Bench(BenchPlan),
    /// Give up: the prompt test that is next has more tokens than there are.
    PromptTooLong,
    /// Print the results of this level.
    Report,
    /// Nothing is left to do.
    Finish,
}

/// A step of the benchmark; tests and reports name their concurrency.
pub enum Step {
    WarmUp,
    Gen(usize),
    Prompt(usize),
    Report(usize),
}

/// What the user asks for at every level.
#[derive(Clone, Copy, Debug, PartialEq, Eq, Structural)]
pub struct Settings {
    pub n_gen: usize,
    pub n_prompt: usize,
    pub repetitions: usize,
}

impl Settings {
    /// The generation test at one level: none of no tokens.
    pub open spec fn gen_steps(self, concurrency: usize) -> Seq<Step> {
        if self.n_gen > 0 {
            seq![Step::Gen(concurrency)]
        } else {
            Seq::empty()
        }
    }

    /// The prompt test at one level: none of no tokens.
    pub open spec fn prompt_steps(self, concurrency: usize) -> Seq<Step> {
        if self.n_prompt > 0 {
            seq![Step::Prompt(concurrency)]
        } else {
            Seq::empty()
        }
    }

    /// The steps of one level.
    pub open spec fn level_plan(self, concurrency: usize) -> Seq<Step> {
        self.gen_steps(concurrency) + self.prompt_steps(concurrency) + seq![
            Step::Report(concurrency),
        ]
    }

    /// The steps of all levels, in the order of the levels.
    pub open spec fn level_plans(self, levels: Seq<usize>) -> Seq<Step>
        decreases levels.len(),
    {
        if levels.len() == 0 {
            Seq::empty()
        } else {
            self.level_plan(levels[0]) + self.level_plans(levels.drop_first())
        }
    }

    /// All steps of the benchmark.
    pub open spec fn session_plan(self, levels: Seq<usize>) -> Seq<Step> {
        seq![Step::WarmUp] + self.level_plans(levels)
    }

    /// The test that a step asks for. There is no prompt test of more tokens
    /// than there are.
    pub open spec fn test_of(self, step: Step) -> Option<BenchModel> {
        match step {
            Step::Gen(c) => Some(gen_plan_spec(self.n_gen, c, self.repetitions)),
            Step::Prompt(c) => if prompt_fits_spec(self.n_prompt) {
                Some(prompt_plan_spec(self.n_prompt, c, self.repetitions))
            } else {
                None
            },
            Step::WarmUp | Step::Report(_) => None,
        }
    }

    /// The tests of each level, in order.
    pub open spec fn tests(self) -> Seq<TestName> {
        (if self.n_gen > 0 {
            seq![TestName::Gen(self.n_gen)]
        } else {
            Seq::empty()
        }) + (if self.n_prompt > 0 {
            seq![TestName::Prompt(self.n_prompt)]
        } else {
            Seq::empty()
        })
    }
}

/// The state of the benchmark: the steps that are left, and the results that
/// are not yet reported.
#[verifier::ext_equal]
pub struct SessionModel<U> {
    pub settings: Settings,
    pub remaining: Seq<Step>,
    pub results: Seq<BenchResult<U>>,
}

impl<U> SessionModel<U> {
    /// The state before the first step.
    pub open spec fn start(settings: Settings, levels: Seq<usize>) -> Self {
        SessionModel {
            settings,
            remaining: settings.session_plan(levels),
            results: Seq::empty(),
        }
    }

    /// Whether a test is next.
    pub open spec fn at_test(self) -> bool {
        self.remaining.len() > 0 && self.settings.test_of(self.remaining[0]) is Some
    }

    pub open spec fn warmed_up(self) -> Self {
        SessionModel { remaining: self.remaining.drop_first(), ..self }
    }

    pub open spec fn recorded(self, result: BenchResult<U>) -> Self {
        SessionModel {
            remaining: self.remaining.drop_first(),
            results: self.results.push(result),
            ..self
        }
    }

    pub open spec fn reported(self) -> Self {
        SessionModel { remaining: self.remaining.drop_first(), results: Seq::empty(), ..self }
    }
}

#[derive(Clone, Copy, Debug, PartialEq, Eq, Structural)]
enum Stage {
    WarmUp,
    Gen,
    Prompt,
    Report,
    Done,
}

/// The benchmark in progress.
#[derive(Debug, PartialEq, Eq)]
pub struct Session<U> {
    levels: Vec<usize>,
    settings: Settings,
    level: usize,
    stage: Stage,
    results: Vec<BenchResult<U>>,
}

impl<U> View for Session<U> {
    type V = SessionModel<U>;

    closed spec fn view(&self) -> SessionModel<U> {
        let settings = self.settings;
        let c = self.levels@[self.level as int];
        let later = settings.level_plans(self.levels@.skip(self.level + 1));
        SessionModel {
            settings,
            remaining: match self.stage {
                Stage::WarmUp => settings.session_plan(self.levels@),
                Stage::Gen => seq![Step::Gen(c)] + settings.prompt_steps(c) + seq![Step::Report(c)]
                    + later,
                Stage::Prompt => seq![Step::Prompt(c), Step::Report(c)] + later,
                Stage::Report => seq![Step::Report(c)] + later,
                Stage::Done => Seq::empty(),
            },
            results: self.results@,
        }
    }
}

impl<U> Session<U> {
    /// Whether the position is one of the plan.
    pub closed spec fn wf(self) -> bool {
        &&& self.stage is Gen || self.stage is Prompt || self.stage is Report ==> self.level
            < self.levels@.len()
        &&& self.stage is Gen ==> self.settings.n_gen > 0
        &&& self.stage is Prompt ==> self.settings.n_prompt > 0
    }

    /// Begins the benchmark.
    pub fn new(levels: Vec<usize>, settings: Settings) -> (s: Self)
        ensures
            s.wf(),
            s@ == SessionModel::<U>::start(settings, levels@),
            s@.settings == settings,
            s@.results.len() == 0,
            ({
                let gen: int = if settings.n_gen > 0 {
                    1
                } else {
                    0
                };
                let size: int = gen + (if settings.n_prompt > 0 {
                    2int
                } else {
                    1int
                });
                &&& s@.remaining.len() == 1 + levels@.len() * size
                &&& s@.remaining[0] is WarmUp
                &&& forall|k: int|
                    1 <= k < s@.remaining.len() ==> #[trigger] s@.remaining[k] == (if (k - 1) % size
                        == size - 1 {
                        Step::Report(levels@[(k - 1) / size])
                    } else if (k - 1) % size < gen {
                        Step::Gen(levels@[(k - 1) / size])
                    } else {
                        Step::Prompt(levels@[(k - 1) / size])
                    })
            }),
    {
        proof {
            let gen: int = if settings.n_gen > 0 {
                1
            } else {
                0
            };
            let size: int = gen + (if settings.n_prompt > 0 {
                2int
            } else {
                1int
            });
            let plan = settings.session_plan(levels@);
            lemma_level_plans_length(settings, levels@, size);
            assert forall|k: int| 1 <= k < plan.len() implies #[trigger] plan[k] == (if (k - 1)
                % size == size - 1 {
                Step::Report(levels@[(k - 1) / size])
            } else if (k - 1) % size < gen {
                Step::Gen(levels@[(k - 1) / size])
            } else {
                Step::Prompt(levels@[(k - 1) / size])
            }) by {
                assert(plan[k] == settings.level_plans(levels@)[k - 1]);
                lemma_level_plans_at(settings, levels@, gen, size, k - 1);
            }
        }
        let s = Session {
            levels,
            settings,
            level: 0,
            stage: Stage::WarmUp,
            results: Vec::new(),
        };
        assert(s.results@ =~= Seq::<BenchResult<U>>::empty());
        s
    }

    /// What to do next.
    pub fn action(&self) -> (action: Action)
        requires
            self.wf(),
        ensures
            if self@.remaining.len() == 0 {
                action is Finish
            } else {
                match self@.remaining[0] {
                    Step::WarmUp => action matches Action::WarmUp(request) && request@
                        == warmup_request_spec(),
                    Step::Gen(_) | Step::Prompt(_) => match self@.settings.test_of(
                        self@.remaining[0],
                    ) {
                        Some(test) => action matches Action::Bench(plan) && plan@ == test,
                        None => action is PromptTooLong,
                    },
                    Step::Report(_) => action is Report,
                }
            },
            self@.remaining.len() > 0 ==> {
                let settings = self@.settings;
                let fits = 1000 + settings.n_prompt <= u32::MAX;
                &&& self@.remaining[0] matches Step::Gen(c) ==> {
                    &&& action matches Action::Bench(plan)
                    &&& plan.test_name == TestName::Gen(settings.n_gen)
                    &&& plan.concurrency == c
                    &&& plan.repetitions == settings.repetitions
                    &&& plan.request.sampling.max_len + 1 == settings.n_gen
                }
                &&& self@.remaining[0] matches Step::Prompt(c) ==> {
                    &&& !fits ==> action is PromptTooLong
                    &&& fits ==> {
                        &&& action matches Action::Bench(plan)
                        &&& plan.test_name == TestName::Prompt(settings.n_prompt)
                        &&& plan.concurrency == c
                        &&& plan.repetitions == settings.repetitions
                        &&& plan.request.sampling.max_len == 1
                        &&& plan.request.prompt matches Prompt::CompletionTokens(tokens)
                        &&& tokens@.len() == settings.n_prompt
                    }
                }
            },
    {
        match self.stage {
            Stage::WarmUp => Action::WarmUp(warmup_request()),
            Stage::Gen => Action::Bench(
                gen_plan(self.settings.n_gen, self.levels[self.level], self.settings.repetitions),
            ),
            Stage::Prompt => {
                let settings = self.settings;
                if prompt_fits(settings.n_prompt) {
                    Action::Bench(
                        prompt_plan(
                            settings.n_prompt,
                            self.levels[self.level],
                            settings.repetitions,
                        ),
                    )
                } else {
                    Action::PromptTooLong
                }
            },
            Stage::Report => Action::Report,
            Stage::Done => Action::Finish,
        }
    }

    /// The stage in which a level begins.
    fn first_stage(&self, level: usize) -> (stage: Stage)
        ensures
            stage == self.first_stage_spec(level),
    {
        if level >= self.levels.len() {
            Stage::Done
        } else if self.settings.n_gen > 0 {
            Stage::Gen
        } else if self.settings.n_prompt > 0 {
            Stage::Prompt
        } else {
            Stage::Report
        }
    }

    closed spec fn first_stage_spec(&self, level: usize) -> Stage {
        if level >= self.levels@.len() {
            Stage::Done
        } else if self.settings.n_gen > 0 {
            Stage::Gen
        } else if self.settings.n_prompt > 0 {
            Stage::Prompt
        } else {
            Stage::Report
        }
    }

    proof fn lemma_level_begins(self)
        requires
            self.stage == self.first_stage_spec(self.level),
            self.level <= self.levels@.len(),
        ensures
            self@.remaining == self.settings.level_plans(self.levels@.skip(self.level as int)),
    {
        let rest = self.levels@.skip(self.level as int);
        if self.level < self.levels@.len() {
            assert(rest.drop_first() =~= self.levels@.skip(self.level + 1));
            assert(rest[0] == self.levels@[self.level as int]);
            assert(self@.remaining =~= self.settings.level_plans(rest));
        }
    }

    /// Notes that the warm-up is over.
    pub fn warmed_up(&mut self)
        requires
            old(self).wf(),
            old(self)@.remaining.len() > 0,
            old(self)@.remaining[0] is WarmUp,
        ensures
            final(self).wf(),
            final(self)@ == old(self)@.warmed_up(),
            final(self)@.remaining == old(self)@.remaining.skip(1),
            final(self)@.results == old(self)@.results,
            final(self)@.settings == old(self)@.settings,
    {
        let stage = self.first_stage(0);
        self.level = 0;
        self.stage = stage;
        proof {
            self.lemma_level_begins();
            assert(self.levels@.skip(0) =~= self.levels@);
            assert(self@.remaining =~= old(self)@.remaining.drop_first());
        }
    }

    /// Notes the result of the test that was next.
    pub fn record(&mut self, result: BenchResult<U>)
        requires
            old(self).wf(),
            old(self)@.at_test(),
        ensures
            final(self).wf(),
            final(self)@ == old(self)@.recorded(result),
            final(self)@.remaining == old(self)@.remaining.skip(1),
            final(self)@.results == old(self)@.results.push(result),
            final(self)@.settings == old(self)@.settings,
    {
        self.results.push(result);
        let stage = match self.stage {
            Stage::Gen => if self.settings.n_prompt > 0 {
                Stage::Prompt
            } else {
                Stage::Report
            },
            _ => Stage::Report,
        };
        self.stage = stage;
        assert(self@.remaining =~= old(self)@.remaining.drop_first());
    }

    /// Hands the results of the level out for the report that was next.
    pub fn report(&mut self) -> (results: Vec<BenchResult<U>>)
        requires
            old(self).wf(),
            old(self)@.remaining.len() > 0,
            old(self)@.remaining[0] is Report,
        ensures
            results@ == old(self)@.results,
            final(self).wf(),
            final(self)@ == old(self)@.reported(),
            final(self)@.remaining == old(self)@.remaining.skip(1),
            final(self)@.results.len() == 0,
            final(self)@.settings == old(self)@.settings,
    {
        let mut results: Vec<BenchResult<U>> = Vec::new();
        std::mem::swap(&mut results, &mut self.results);
        assert(self.level < self.levels.len());
        let next: usize = self.level + 1;
        let stage = self.first_stage(next);
        self.level = next;
        self.stage = stage;
        proof {
            self.lemma_level_begins();
            assert(self@.remaining =~= old(self)@.remaining.drop_first());
            assert(self@.results =~= Seq::<BenchResult<U>>::empty());
        }
        results
    }
}

/// What happened in a step.
pub enum SessionEvent<U> {
    WarmedUp,
    Recorded(BenchResult<U>),
    Reported,
}

/// Whether an event is what a step asks for: a result is of the test and the
/// concurrency of its step.
pub open spec fn event_fits<U>(settings: Settings, event: SessionEvent<U>, step: Step) -> bool {
    match (event, step) {
        (SessionEvent::WarmedUp, Step::WarmUp) => true,
        (SessionEvent::Recorded(result), Step::Gen(c)) => result.test_name == TestName::Gen(
            settings.n_gen,
        ) && result.concurrency == c,
        (SessionEvent::Recorded(result), Step::Prompt(c)) => result.test_name
            == TestName::Prompt(settings.n_prompt) && result.concurrency == c,
        (SessionEvent::Reported, Step::Report(_)) => true,
        _ => false,
    }
}

/// Whether the events are those that the first steps of a plan ask for.
pub open spec fn events_fit<U>(
    settings: Settings,
    events: Seq<SessionEvent<U>>,
    plan: Seq<Step>,
) -> bool {
    events.len() <= plan.len() && forall|i: int|
        0 <= i < events.len() ==> event_fits(settings, #[trigger] events[i], plan[i])
}

/// The state after a sequence of events.
pub open spec fn session_through<U>(
    session: SessionModel<U>,
    events: Seq<SessionEvent<U>>,
) -> SessionModel<U>
    decreases events.len(),
{
    if events.len() == 0 {
        session
    } else {
        let before = session_through(session, events.drop_last());
        match events.last() {
            SessionEvent::WarmedUp => before.warmed_up(),
            SessionEvent::Recorded(result) => before.recorded(result),
            SessionEvent::Reported => before.reported(),
        }
    }
}

/// The results recorded after the last report.
pub open spec fn unreported<U>(events: Seq<SessionEvent<U>>) -> Seq<BenchResult<U>>
    decreases events.len(),
{
    if events.len() == 0 {
        Seq::empty()
    } else {
        let before = unreported(events.drop_last());
        match events.last() {
            SessionEvent::WarmedUp => before,
            SessionEvent::Recorded(result) => before.push(result),
            SessionEvent::Reported => Seq::empty(),
        }
    }
}

proof fn lemma_session_through<U>(session: SessionModel<U>, events: Seq<SessionEvent<U>>)
    requires
        events.len() <= session.remaining.len(),
        session.results.len() == 0,
    ensures
        session_through(session, events) == (SessionModel {
            remaining: session.remaining.skip(events.len() as int),
            results: unreported(events),
            ..session
        }),
    decreases events.len(),
{
    if events.len() == 0 {
        assert(session.remaining.skip(0) =~= session.remaining);
        assert(session.results =~= unreported(events));
    } else {
        lemma_session_through(session, events.drop_last());
        let n = events.len() as int;
        assert(session.remaining.skip(n - 1).drop_first() =~= session.remaining.skip(n));
    }
}

proof fn lemma_unreported_after<U>(a: Seq<SessionEvent<U>>, b: Seq<SessionEvent<U>>)
    requires
        unreported(a).len() == 0,
    ensures
        unreported(a + b) == unreported(b),
    decreases b.len(),
{
    if b.len() == 0 {
        assert(a + b =~= a);
        assert(unreported(a) =~= unreported(b));
    } else {
        lemma_unreported_after(a, b.drop_last());
        assert((a + b).drop_last() =~= a + b.drop_last());
    }
}

/// Whether the results are those of one level: its tests in order, each at its
/// concurrency.
pub open spec fn results_of_level<U>(
    settings: Settings,
    concurrency: usize,
    results: Seq<BenchResult<U>>,
) -> bool {
    &&& results.len() == settings.tests().len()
    &&& forall|i: int|
        0 <= i < results.len() ==> (#[trigger] results[i]).test_name == settings.tests()[i]
            && results[i].concurrency == concurrency
}

proof fn lemma_level_results<U>(
    settings: Settings,
    levels: Seq<usize>,
    events: Seq<SessionEvent<U>>,
    concurrency: usize,
)
    requires
        events_fit(settings, events, settings.level_plans(levels)),
        events.len() < settings.level_plans(levels).len(),
        settings.level_plans(levels)[events.len() as int] == Step::Report(concurrency),
    ensures
        results_of_level(settings, concurrency, unreported(events)),
    decreases levels.len(),
{
    let plan = settings.level_plans(levels);
    let first = settings.level_plan(levels[0]);
    let rest = settings.level_plans(levels.drop_first());
    let k = first.len() as int;
    assert(plan == first + rest);
    if events.len() < k {
        assert(first[events.len() as int] == Step::Report(concurrency));
        assert(events.len() == k - 1);
        assert forall|i: int| 0 <= i < events.len() implies event_fits(
            settings,
            #[trigger] events[i],
            first[i],
        ) by {
            assert(plan[i] == first[i]);
        }
        reveal_with_fuel(unreported, 3);
        if events.len() > 0 {
            assert(event_fits(settings, events[0], first[0]));
            assert(events.drop_last().len() == events.len() - 1);
        }
        if events.len() > 1 {
            assert(event_fits(settings, events[1], first[1]));
            assert(events.drop_last()[0] == events[0]);
        }
    } else {
        let head = events.take(k);
        let tail = events.skip(k);
        assert(events =~= head + tail);
        assert(event_fits(settings, events[k - 1], plan[k - 1]));
        assert(plan[k - 1] == first[k - 1]);
        assert(head.last() == events[k - 1]);
        assert(unreported(head).len() == 0);
        lemma_unreported_after(head, tail);
        assert forall|i: int| 0 <= i < tail.len() implies event_fits(
            settings,
            #[trigger] tail[i],
            rest[i],
        ) by {
            assert(tail[i] == events[i + k]);
            assert(rest[i] == plan[i + k]);
        }
        assert(plan[events.len() as int] == rest[tail.len() as int]);
        lemma_level_results(settings, levels.drop_first(), tail, concurrency);
    }
}

/// Whenever a report is next, the results to be reported are those of its
/// level: the generation test, then the prompt test, each unless it is of no
/// tokens, at the concurrency of the level, and nothing of another level.
pub proof fn reports_hold_their_level<U>(
    settings: Settings,
    levels: Seq<usize>,
    events: Seq<SessionEvent<U>>,
    concurrency: usize,
)
    requires
        events_fit(settings, events, settings.session_plan(levels)),
        events.len() < settings.session_plan(levels).len(),
        settings.session_plan(levels)[events.len() as int] == Step::Report(concurrency),
    ensures
        ({
            let session = session_through(SessionModel::start(settings, levels), events);
            &&& session.remaining[0] == Step::Report(concurrency)
            &&& results_of_level(settings, concurrency, session.results)
        }),
{
    let plan = settings.session_plan(levels);
    let start = SessionModel::<U>::start(settings, levels);
    lemma_session_through(start, events);
    let head = events.take(1);
    let tail = events.skip(1);
    assert(events =~= head + tail);
    assert(event_fits(settings, events[0], plan[0]));
    assert(head.last() == events[0]);
    assert(unreported(head.drop_last()).len() == 0);
    lemma_unreported_after(head, tail);
    assert forall|i: int| 0 <= i < tail.len() implies event_fits(
        settings,
        #[trigger] tail[i],
        settings.level_plans(levels)[i],
    ) by {
        assert(tail[i] == events[i + 1]);
        assert(plan[i + 1] == settings.level_plans(levels)[i]);
    }
    lemma_level_results(settings, levels, tail, concurrency);
}

/// The steps of the benchmark are taken in the order of the plan, and it ends
/// when the plan does.
pub proof fn session_keeps_to_its_plan<U>(
    settings: Settings,
    levels: Seq<usize>,
    events: Seq<SessionEvent<U>>,
)
    requires
        events_fit(settings, events, settings.session_plan(levels)),
    ensures
        session_through(SessionModel::start(settings, levels), events).remaining
            == settings.session_plan(levels).skip(events.len() as int),
{
    lemma_session_through(SessionModel::start(settings, levels), events);
}

/// A test that is run to its end gives a result that fits its step, with one
/// usage for each request of each repetition.
pub proof fn completed_test_fits_its_step<U>(
    settings: Settings,
    step: Step,
    events: Seq<Event<U>>,
    result: BenchResult<U>,
)
    requires
        settings.test_of(step) is Some,
        ({
            let plan = settings.test_of(step)->0;
            let end = through(
                RunModel::start(plan.concurrency, plan.repetitions, plan.test_name),
                events,
            );
            &&& follows(events, run_plan(plan.concurrency as nat, plan.repetitions as nat))
            &&& result.usages@ == end.usages
            &&& result.concurrency == end.concurrency
            &&& result.test_name == end.test_name
        }),
    ensures
        event_fits(settings, SessionEvent::Recorded(result), step),
        result.usages@.len() == result.concurrency * settings.repetitions,
{
    let plan = settings.test_of(step)->0;
    run_collects_every_usage(plan.concurrency, plan.repetitions, plan.test_name, events);
}

/// Levels are run in the order given: the steps for more levels come after the
/// steps for the levels before them.
pub proof fn levels_run_in_order(settings: Settings, levels: Seq<usize>, more: Seq<usize>)
    ensures
        settings.level_plans(levels + more) == settings.level_plans(levels)
            + settings.level_plans(more),
    decreases levels.len(),
{
    if levels.len() == 0 {
        assert(levels + more =~= more);
        assert(settings.level_plans(levels) + settings.level_plans(more) =~= settings.level_plans(
            more,
        ));
    } else {
        assert((levels + more).drop_first() =~= levels.drop_first() + more);
        levels_run_in_order(settings, levels.drop_first(), more);
        assert(settings.level_plans(levels + more) =~= settings.level_plans(levels)
            + settings.level_plans(more));
    }
}

proof fn lemma_level_plans_length(settings: Settings, levels: Seq<usize>, size: int)
    requires
        size == 1 + (if settings.n_gen > 0 {
            1int
        } else {
            0int
        }) + (if settings.n_prompt > 0 {
            1int
        } else {
            0int
        }),
    ensures
        settings.level_plans(levels).len() == levels.len() * size,
    decreases levels.len(),
{
    let n = levels.len() as int;
    if n == 0 {
        assert(n * size == 0) by (nonlinear_arith)
            requires
                n == 0,
        ;
    } else {
        lemma_level_plans_length(settings, levels.drop_first(), size);
        assert(n * size == size + (n - 1) * size) by (nonlinear_arith);
    }
}

proof fn lemma_level_plans_at(
    settings: Settings,
    levels: Seq<usize>,
    gen: int,
    size: int,
    k: int,
)
    requires
        gen == (if settings.n_gen > 0 {
            1int
        } else {
            0int
        }),
        size == gen + (if settings.n_prompt > 0 {
            2int
        } else {
            1int
        }),
        0 <= k < settings.level_plans(levels).len(),
    ensures
        settings.level_plans(levels)[k] == (if k % size == size - 1 {
            Step::Report(levels[k / size])
        } else if k % size < gen {
            Step::Gen(levels[k / size])
        } else {
            Step::Prompt(levels[k / size])
        }),
    decreases levels.len(),
{
    let first = settings.level_plan(levels[0]);
    let rest = settings.level_plans(levels.drop_first());
    assert(first.len() == size);
    if k < size {
        assert(k % size == k && k / size == 0) by {
            if size == 1 {
            } else if size == 2 {
            } else {
                assert(size == 3);
            }
        }
    } else {
        lemma_level_plans_at(settings, levels.drop_first(), gen, size, k - size);
        assert((k - size) % size == k % size && (k - size) / size == k / size - 1 && k / size >= 1)
            by {
            if size == 1 {
            } else if size == 2 {
            } else {
                assert(size == 3);
            }
        }
        lemma_level_plans_length(settings, levels, size);
        let n = levels.len() as int;
        let q = k / size;
        let m = k % size;
        vstd::arithmetic::div_mod::lemma_fundamental_div_mod(k, size);
        vstd::arithmetic::div_mod::lemma_mod_bound(k, size);
        assert(q < n) by (nonlinear_arith)
            requires
                k == size * q + m,
                0 <= m < size,
                k < n * size,
        ;
        assert(levels.drop_first()[k / size - 1] == levels[k / size]);
    }
}

/// At each level the generation test is run exactly when it has tokens, and the
/// prompt test exactly when it has tokens; neither depends on the other. Both
/// are run at the level's own concurrency, the generation test first, and the
/// report ends the level.
pub proof fn tests_run_exactly_when_they_have_tokens(settings: Settings, c: usize, n: usize)
    ensures
        settings.level_plan(c).contains(Step::Gen(n)) <==> settings.n_gen > 0 && n == c,
        settings.level_plan(c).contains(Step::Prompt(n)) <==> settings.n_prompt > 0 && n == c,
        settings.level_plan(c).contains(Step::Report(n)) <==> n == c,
        !settings.level_plan(c).contains(Step::WarmUp),
        settings.level_plan(c).no_duplicates(),
        settings.level_plan(c).last() == Step::Report(c),
        settings.n_gen > 0 ==> settings.level_plan(c)[0] == Step::Gen(c),
{
    let plan = settings.level_plan(c);
    let report = plan.len() - 1;
    assert(plan[report] == Step::Report(c));
    if settings.n_gen > 0 {
        assert(plan[0] == Step::Gen(c));
    }
    if settings.n_prompt > 0 {
        assert(plan[report - 1] == Step::Prompt(c));
    }
    assert forall|i: int| 0 <= i < plan.len() implies (#[trigger] plan[i] == Step::Gen(c)
        && settings.n_gen > 0 && i == 0) || (plan[i] == Step::Prompt(c) && settings.n_prompt > 0
        && i == report - 1) || (plan[i] == Step::Report(c) && i == report) by {}
}

/// Turning one test on or off leaves the steps of the other as they are.
pub proof fn tests_do_not_affect_each_other(a: Settings, b: Settings, c: usize)
    ensures
        a.n_gen == b.n_gen ==> (a.level_plan(c).contains(Step::Gen(c)) <==> b.level_plan(
            c,
        ).contains(Step::Gen(c))),
        a.n_prompt == b.n_prompt ==> (a.level_plan(c).contains(Step::Prompt(c)) <==> b.level_plan(
            c,
        ).contains(Step::Prompt(c))),
{
    tests_run_exactly_when_they_have_tokens(a, c, c);
    tests_run_exactly_when_they_have_tokens(b, c, c);
}

/// The benchmark warms up once, first; then every level, in its turn, has its
/// generation test if that has tokens, its prompt test if that has tokens, and
/// its report.
pub proof fn every_level_has_its_turn(settings: Settings, levels: Seq<usize>, l: int, size: int)
    requires
        0 <= l < levels.len(),
        size == 1 + (if settings.n_gen > 0 {
            1int
        } else {
            0int
        }) + (if settings.n_prompt > 0 {
            1int
        } else {
            0int
        }),
    ensures
        ({
            let plan = settings.session_plan(levels);
            let begin = 1 + l * size;
            &&& plan.len() == 1 + levels.len() * size
            &&& 1 <= begin <= begin + size <= plan.len()
            &&& plan[0] is WarmUp
            &&& settings.n_gen > 0 ==> plan[begin] == Step::Gen(levels[l])
            &&& settings.n_prompt > 0 ==> plan[begin + size - 2] == Step::Prompt(levels[l])
            &&& plan[begin + size - 1] == Step::Report(levels[l])
        }),
{
    let plan = settings.session_plan(levels);
    let begin = 1 + l * size;
    lemma_level_plans_length(settings, levels, size);
    assert(0 <= l * size && l * size + size <= levels.len() * size) by (nonlinear_arith)
        requires
            0 <= l < levels.len(),
            size > 0,
    ;
    let gen: int = if settings.n_gen > 0 {
        1
    } else {
        0
    };
    vstd::arithmetic::div_mod::lemma_fundamental_div_mod_converse(l * size, size, l, 0);
    vstd::arithmetic::div_mod::lemma_fundamental_div_mod_converse(
        l * size + (size - 1),
        size,
        l,
        size - 1,
    );
    lemma_level_plans_at(settings, levels, gen, size, l * size);
    lemma_level_plans_at(settings, levels, gen, size, l * size + (size - 1));
    if settings.n_prompt > 0 {
        vstd::arithmetic::div_mod::lemma_fundamental_div_mod_converse(
            l * size + (size - 2),
            size,
            l,
            size - 2,
        );
        lemma_level_plans_at(settings, levels, gen, size, l * size + (size - 2));
    }
}

/// The test of a step is of the kind, the length, the concurrency and the
/// repetitions that were asked for. Only a prompt test can be missing, and only
/// where its tokens end beyond 32 bits.
pub proof fn steps_ask_for_their_own_test(settings: Settings, c: usize)
    ensures
        settings.test_of(Step::WarmUp) is None,
        settings.test_of(Step::Report(c)) is None,
        settings.test_of(Step::Gen(c)) matches Some(test) && {
            &&& test.test_name == TestName::Gen(settings.n_gen)
            &&& test.concurrency == c
            &&& test.repetitions == settings.repetitions
            &&& settings.n_gen > 0 ==> test.request.sampling.max_len + 1 == settings.n_gen
        },
        settings.test_of(Step::Prompt(c)) is Some <==> 1000 + settings.n_prompt <= u32::MAX,
        settings.test_of(Step::Prompt(c)) matches Some(test) ==> {
            &&& test.test_name == TestName::Prompt(settings.n_prompt)
            &&& test.concurrency == c
            &&& test.repetitions == settings.repetitions
            &&& test.request.sampling.max_len == 1
        },
{
}

/// Every report holds a generation result exactly when the generation test has
/// tokens, and a prompt result exactly when the prompt test has tokens, in this
/// order, all of the level that is reported, and nothing else.
pub proof fn reports_hold_each_test_that_has_tokens<U>(
    settings: Settings,
    levels: Seq<usize>,
    events: Seq<SessionEvent<U>>,
    c: usize,
)
    requires
        events.len() < settings.session_plan(levels).len(),
        settings.session_plan(levels)[events.len() as int] == Step::Report(c),
        forall|i: int|
            0 <= i < events.len() ==> match settings.session_plan(levels)[i] {
                Step::WarmUp => #[trigger] events[i] is WarmedUp,
                Step::Gen(level) => events[i] matches SessionEvent::Recorded(result)
                    && result.test_name == TestName::Gen(settings.n_gen) && result.concurrency
                    == level,
                Step::Prompt(level) => events[i] matches SessionEvent::Recorded(result)
                    && result.test_name == TestName::Prompt(settings.n_prompt)
                    && result.concurrency == level,
                Step::Report(_) => events[i] is Reported,
            },
    ensures
        ({
            let results = session_through(SessionModel::start(settings, levels), events).results;
            &&& (exists|i: int|
                0 <= i < results.len() && (#[trigger] results[i]).test_name == TestName::Gen(
                    settings.n_gen,
                )) <==> settings.n_gen > 0
            &&& (exists|i: int|
                0 <= i < results.len() && (#[trigger] results[i]).test_name == TestName::Prompt(
                    settings.n_prompt,
                )) <==> settings.n_prompt > 0
            &&& settings.n_gen > 0 ==> results[0].test_name is Gen
            &&& results.len() == (if settings.n_gen > 0 {
                1int
            } else {
                0int
            }) + (if settings.n_prompt > 0 {
                1int
            } else {
                0int
            })
            &&& forall|i: int| 0 <= i < results.len() ==> (#[trigger] results[i]).concurrency == c
        }),
{
    let plan = settings.session_plan(levels);
    assert forall|i: int| 0 <= i < events.len() implies event_fits(
        settings,
        #[trigger] events[i],
        plan[i],
    ) by {
        match plan[i] {
            Step::WarmUp => {
                assert(events[i] is WarmedUp);
            },
            Step::Gen(_) => {},
            Step::Prompt(_) => {},
            Step::Report(_) => {},
        }
    }
    reports_hold_their_level(settings, levels, events, c);
    let results = session_through(SessionModel::<U>::start(settings, levels), events).results;
    let tests = settings.tests();
    if settings.n_gen > 0 {
        assert(tests[0] == TestName::Gen(settings.n_gen));
        assert(results[0].test_name == tests[0]);
    }
    if settings.n_prompt > 0 {
        let last = results.len() - 1;
        assert(tests[last] == TestName::Prompt(settings.n_prompt));
        assert(results[last].test_name == tests[last]);
    }
}

/// The state moves on by one step at a time; a test adds its result, and a
/// report clears them.
pub proof fn a_session_moves_one_step_at_a_time<U>(
    session: SessionModel<U>,
    result: BenchResult<U>,
)
    requires
        session.remaining.len() > 0,
    ensures
        session.warmed_up().remaining == session.remaining.skip(1),
        session.recorded(result).remaining == session.remaining.skip(1),
        session.reported().remaining == session.remaining.skip(1),
        session.warmed_up().results == session.results,
        session.recorded(result).results == session.results.push(result),
        session.reported().results.len() == 0,
        session.warmed_up().settings == session.settings,
        session.recorded(result).settings == session.settings,
        session.reported().settings == session.settings,
{
    assert(session.remaining.drop_first() =~= session.remaining.skip(1));
}

} // verus!
