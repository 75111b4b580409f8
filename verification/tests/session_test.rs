use mistralrs_bench::bench::{BenchResult, TestName};
use mistralrs_bench::request::{
    gen_plan, prompt_plan, warmup_request, DEFAULT_N_GEN, DEFAULT_N_PROMPT, DEFAULT_REPETITIONS,
};
use mistralrs_bench::session::{Action, Session, Settings};

fn settings(n_gen: usize, n_prompt: usize) -> Settings {
    Settings {
        n_gen,
        n_prompt,
        repetitions: 2,
    }
}

fn result(test_name: TestName, concurrency: usize) -> BenchResult<u32> {
    BenchResult {
        usages: vec![],
        concurrency,
        test_name,
    }
}

fn reports(levels: Vec<usize>, settings: Settings) -> Vec<Vec<BenchResult<u32>>> {
    let mut session: Session<u32> = Session::new(levels, settings);
    assert_eq!(session.action(), Action::WarmUp(warmup_request()));
    session.warmed_up();
    let mut reports = vec![];
    loop {
        match session.action() {
            Action::WarmUp(_) => panic!("warmed up twice"),
            Action::Bench(plan) => session.record(result(plan.test_name, plan.concurrency)),
            Action::PromptTooLong => panic!("prompt too long"),
            Action::Report => reports.push(session.report()),
            Action::Finish => return reports,
        }
    }
}

#[test]
fn each_level_is_reported() {
    assert_eq!(
        reports(vec![1, 4], settings(8, 16)),
        vec![
            vec![
                result(TestName::Gen(8), 1),
                result(TestName::Prompt(16), 1)
            ],
            vec![
                result(TestName::Gen(8), 4),
                result(TestName::Prompt(16), 4)
            ],
        ]
    );
}

#[test]
fn tests_of_no_tokens_are_left_out() {
    assert_eq!(
        reports(vec![2, 3], settings(8, 0)),
        vec![
            vec![result(TestName::Gen(8), 2)],
            vec![result(TestName::Gen(8), 3)]
        ]
    );
    assert_eq!(
        reports(vec![2], settings(0, 8)),
        vec![vec![result(TestName::Prompt(8), 2)]]
    );
    assert_eq!(
        reports(vec![2, 3], settings(0, 0)),
        vec![vec![], vec![]]
    );
}

#[test]
fn no_levels_no_reports() {
    assert_eq!(
        reports(vec![], settings(8, 8)),
        Vec::<Vec<BenchResult<u32>>>::new()
    );
}

#[test]
fn tests_are_planned_for_their_level() {
    let mut session: Session<u32> = Session::new(vec![3], settings(8, 16));
    session.warmed_up();
    assert_eq!(session.action(), Action::Bench(gen_plan(8, 3, 2)));
    session.record(result(TestName::Gen(8), 3));
    assert_eq!(session.action(), Action::Bench(prompt_plan(16, 3, 2)));
    session.record(result(TestName::Prompt(16), 3));
    assert_eq!(session.action(), Action::Report);
    session.report();
    assert_eq!(session.action(), Action::Finish);
}

#[test]
fn too_long_a_prompt_stops_after_the_generation_test() {
    let mut session: Session<u32> = Session::new(vec![3], settings(8, u32::MAX as usize));
    assert_eq!(session.action(), Action::WarmUp(warmup_request()));
    session.warmed_up();
    assert_eq!(session.action(), Action::Bench(gen_plan(8, 3, 2)));
    session.record(result(TestName::Gen(8), 3));
    assert_eq!(session.action(), Action::PromptTooLong);
}

#[test]
fn defaults() {
    assert_eq!(DEFAULT_N_PROMPT, 512);
    assert_eq!(DEFAULT_N_GEN, 128);
    assert_eq!(DEFAULT_REPETITIONS, 5);
}
