use mistralrs_bench::bench::TestName;
use mistralrs_bench::request::{
    gen_plan, prompt_fits, prompt_plan, prompt_tokens, prompt_too_long, warmup_request, Constraint, Prompt, Sampling,
};
use mistralrs_bench::run::{BenchRun, Exchange, Reply, ReplyError, RunStep};

const SEND: RunStep = RunStep::Exchange(Exchange::Send);
const RECEIVE: RunStep = RunStep::Exchange(Exchange::Receive);

fn drive(concurrency: usize, repetitions: usize) -> (Vec<RunStep>, Vec<u32>) {
    let mut run: BenchRun<u32> = BenchRun::new(&gen_plan(8, concurrency, repetitions));
    let mut steps = vec![];
    let mut reply = 0;
    loop {
        let step = run.next();
        match step {
            RunStep::Exchange(Exchange::Send) => run.sent(),
            RunStep::Exchange(Exchange::Receive) => {
                let answer = if reply % 2 == 0 {
                    Reply::CompletionDone(reply)
                } else {
                    Reply::Done(reply)
                };
                assert_eq!(run.received(Some(answer)), Ok(()));
                reply += 1;
            }
            RunStep::Finish => {
                let result = run.finish();
                assert_eq!(result.concurrency, concurrency);
                assert_eq!(result.test_name, TestName::Gen(8));
                return (steps, result.usages);
            }
        }
        steps.push(step);
    }
}

#[test]
fn requests_are_sent_before_replies_are_awaited() {
    let (steps, usages) = drive(2, 3);
    let batch = [SEND, SEND, RECEIVE, RECEIVE];
    assert_eq!(steps, [batch, batch, batch].concat());
    assert_eq!(usages, vec![0, 1, 2, 3, 4, 5]);
}

#[test]
fn one_request_at_a_time() {
    let (steps, usages) = drive(1, 2);
    assert_eq!(steps, vec![SEND, RECEIVE, SEND, RECEIVE]);
    assert_eq!(usages, vec![0, 1]);
}

#[test]
fn idle_runs_finish_at_once() {
    assert_eq!(drive(0, 5), (vec![], vec![]));
    assert_eq!(drive(3, 0), (vec![], vec![]));
}

#[test]
fn unanswered_requests_are_bounded() {
    let (steps, _) = drive(3, 4);
    let mut unanswered = 0i32;
    for step in steps {
        unanswered += if step == SEND { 1 } else { -1 };
        assert!((0..=3).contains(&unanswered));
    }
    assert_eq!(unanswered, 0);
}

#[test]
fn unexpected_answers_are_handed_back() {
    let unreachable = "internal error: entered unreachable code";
    let cases: Vec<(Option<Reply<u32>>, ReplyError, String)> = vec![
        (
            Some(Reply::InternalError("oom".to_string())),
            ReplyError::InternalError("oom".to_string()),
            format!("{unreachable}: Got an internal error: oom"),
        ),
        (
            Some(Reply::ModelError("nan".to_string(), "R".to_string())),
            ReplyError::ModelError("nan".to_string(), "R".to_string()),
            format!("{unreachable}: Got a model error: nan, response: R"),
        ),
        (
            Some(Reply::ValidationError("bad".to_string())),
            ReplyError::ValidationError("bad".to_string()),
            format!("{unreachable}: Got a validation error: bad"),
        ),
        (Some(Reply::Chunk), ReplyError::Chunk, unreachable.to_string()),
        (
            Some(Reply::CompletionModelError),
            ReplyError::CompletionModelError,
            unreachable.to_string(),
        ),
        (
            Some(Reply::CompletionChunk),
            ReplyError::CompletionChunk,
            unreachable.to_string(),
        ),
        (
            None,
            ReplyError::Closed,
            format!("{unreachable}: Expected a Done response, got None"),
        ),
    ];
    let mut run: BenchRun<u32> = BenchRun::new(&gen_plan(8, 1, 1));
    run.sent();
    for (reply, error, message) in cases {
        assert_eq!(error.message(), message);
        assert_eq!(run.received(reply), Err(error));
        assert_eq!(run.next(), RECEIVE);
    }
    assert_eq!(run.received(Some(Reply::Done(7))), Ok(()));
    assert_eq!(run.next(), RunStep::Finish);
    assert_eq!(run.finish().usages, vec![7]);
}

fn sampling(max_len: usize) -> Sampling {
    Sampling {
        temperature_tenths: 1,
        top_k: 32,
        top_p_tenths: 1,
        top_n_logprobs: 0,
        frequency_penalty_tenths: 1,
        presence_penalty_tenths: 1,
        max_len,
        n_choices: 1,
    }
}

#[test]
fn warmup_asks_for_five_tokens() {
    let request = warmup_request();
    assert_eq!(
        request.prompt,
        Prompt::Completion {
            text: "Hello!".to_string(),
            echo_prompt: false,
            best_of: 1,
        }
    );
    assert_eq!(request.sampling, sampling(5));
    assert!(!request.return_logprobs);
    assert!(!request.is_streaming);
}

#[test]
fn generation_test_is_planned() {
    let plan = gen_plan(128, 4, 5);
    assert_eq!(
        plan.request.prompt,
        Prompt::Completion {
            text: "Rust".to_string(),
            echo_prompt: false,
            best_of: 1,
        }
    );
    assert_eq!(plan.request.sampling, sampling(127));
    assert_eq!(plan.concurrency, 4);
    assert_eq!(plan.repetitions, 5);
    assert_eq!(plan.test_name, TestName::Gen(128));
}

#[test]
fn prompt_test_is_planned() {
    let plan = prompt_plan(3, 4, 5);
    assert_eq!(
        plan.request.prompt,
        Prompt::CompletionTokens(vec![1000, 1001, 1002])
    );
    assert_eq!(plan.request.sampling, sampling(1));
    assert_eq!(plan.concurrency, 4);
    assert_eq!(plan.repetitions, 5);
    assert_eq!(plan.test_name, TestName::Prompt(3));
}

#[test]
fn prompt_tokens_are_consecutive() {
    assert_eq!(prompt_tokens(512), (1000..1512).collect::<Vec<u32>>());
    assert_eq!(prompt_tokens(0), Vec::<u32>::new());
}

#[test]
fn prompts_longer_than_the_tokens_do_not_fit() {
    let max = u32::MAX as usize;
    assert!(prompt_fits(0));
    assert!(prompt_fits(max - 1000));
    assert!(!prompt_fits(max - 999));
    assert!(!prompt_fits(max));
    assert!(!prompt_fits(max + 3));
    assert_eq!(prompt_too_long(max - 999), "attempt to add with overflow");
    assert_eq!(prompt_too_long(max), "attempt to add with overflow");
    assert_eq!(
        prompt_too_long(max + 1),
        "out of range integral type conversion attempted"
    );
}

#[test]
fn requests_carry_nothing_else() {
    for request in [
        warmup_request(),
        gen_plan(128, 4, 5).request,
        prompt_plan(3, 4, 5).request,
    ] {
        assert_eq!(request.stop_toks, None);
        assert_eq!(request.logits_bias, None);
        assert!(!request.return_logprobs);
        assert!(!request.is_streaming);
        assert_eq!(request.constraint, Constraint::Free);
        assert_eq!(request.suffix, None);
        assert_eq!(request.adapters, None);
    }
}
