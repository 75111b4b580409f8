//! The requests that the benchmark sends.

use vstd::prelude::*;

use crate::bench::TestName;
use crate::text::texts;

verus! {

/// Tokens of a prompt test, unless the user says otherwise.
pub const DEFAULT_N_PROMPT: usize = 512;

/// Tokens of a generation test, unless the user says otherwise.
pub const DEFAULT_N_GEN: usize = 128;

/// Repetitions of each test, unless the user says otherwise.
pub const DEFAULT_REPETITIONS: usize = 5;

/// Replies that the channel of a request can hold.
pub const CHANNEL_CAPACITY: usize = 10_000;

/// The first token of a prompt test.
pub const FIRST_TOKEN: u32 = 1000;

/// How the engine samples. Fractions are given in tenths.
#[derive(Clone, Copy, Debug, PartialEq, Eq, Structural)]
pub struct Sampling {
    pub temperature_tenths: u32,
    pub top_k: usize,
    pub top_p_tenths: u32,
    pub top_n_logprobs: usize,
    pub frequency_penalty_tenths: u32,
    pub presence_penalty_tenths: u32,
    pub max_len: usize,
    pub n_choices: usize,
}

/// The sampling of every request; only the length limit varies.
pub open spec fn sampling_spec(max_len: usize) -> Sampling {
    Sampling {
        temperature_tenths: 1,
        top_k: 32,
        top_p_tenths: 1,
        top_n_logprobs: 0,
        frequency_penalty_tenths: 1,
        presence_penalty_tenths: 1,
        max_len,
        n_choices: 1,
    }
}

/// The sampling of a request of at most `max_len` tokens.
pub fn sampling(max_len: usize) -> (s: Sampling)
    ensures
        s == sampling_spec(max_len),
        s.max_len == max_len,
{
    Sampling {
        temperature_tenths: 1,
        top_k: 32,
        top_p_tenths: 1,
        top_n_logprobs: 0,
        frequency_penalty_tenths: 1,
        presence_penalty_tenths: 1,
        max_len,
        n_choices: 1,
    }
}

/// What the engine is to continue.
#[derive(Debug, PartialEq, Eq)]
pub enum Prompt {
    Completion { text: String, echo_prompt: bool, best_of: usize },
    CompletionTokens(Vec<u32>),
}

/// The mathematical form of a `Prompt`.
#[verifier::ext_equal]
pub enum PromptModel {
    Completion { text: Seq<char>, echo_prompt: bool, best_of: usize },
    CompletionTokens(Seq<u32>),
}

impl View for Prompt {
    type V = PromptModel;

    open spec fn view(&self) -> PromptModel {
        match self {
            Prompt::Completion { text, echo_prompt, best_of } => PromptModel::Completion {
                text: text@,
                echo_prompt: *echo_prompt,
                best_of: *best_of,
            },
            Prompt::CompletionTokens(tokens) => PromptModel::CompletionTokens(tokens@),
        }
    }
}

/// What the reply is held to.
#[derive(Clone, Copy, Debug, PartialEq, Eq, Structural)]
pub enum Constraint {
    /// Nothing: the reply is free.
    Free,
}

/// A request to the engine.
#[derive(Debug, PartialEq, Eq)]
pub struct Request {
    pub prompt: Prompt,
    pub sampling: Sampling,
    /// Tokens that end the reply.
    pub stop_toks: Option<Vec<u32>>,
    /// Tokens made more or less likely, by so many tenths.
    pub logits_bias: Option<Vec<(u32, i32)>>,
    pub return_logprobs: bool,
    pub is_streaming: bool,
    pub constraint: Constraint,
    /// Text that is to follow the reply.
    pub suffix: Option<String>,
    /// Names of the adapters to activate.
    pub adapters: Option<Vec<String>>,
}

/// The mathematical form of a `Request`.
#[verifier::ext_equal]
pub struct RequestModel {
    pub prompt: PromptModel,
    pub sampling: Sampling,
    pub stop_toks: Option<Seq<u32>>,
    pub logits_bias: Option<Seq<(u32, i32)>>,
    pub return_logprobs: bool,
    pub is_streaming: bool,
    pub constraint: Constraint,
    pub suffix: Option<Seq<char>>,
    pub adapters: Option<Seq<Seq<char>>>,
}

impl View for Request {
    type V = RequestModel;

    open spec fn view(&self) -> RequestModel {
        RequestModel {
            prompt: self.prompt@,
            sampling: self.sampling,
            stop_toks: match self.stop_toks {
                None => None,
                Some(tokens) => Some(tokens@),
            },
            logits_bias: match self.logits_bias {
                None => None,
                Some(biases) => Some(biases@),
            },
            return_logprobs: self.return_logprobs,
            is_streaming: self.is_streaming,
            constraint: self.constraint,
            suffix: match self.suffix {
                None => None,
                Some(suffix) => Some(suffix@),
            },
            adapters: match self.adapters {
                None => None,
                Some(adapters) => Some(texts(adapters@)),
            },
        }
    }
}

/// The request for at most `max_len` tokens after a prompt: one whole reply,
/// without log probabilities, and with no stop tokens, biases, constraint,
/// suffix or adapters.
pub open spec fn request_spec(prompt: PromptModel, max_len: usize) -> RequestModel {
    RequestModel {
        prompt,
        sampling: sampling_spec(max_len),
        stop_toks: None,
        logits_bias: None,
        return_logprobs: false,
        is_streaming: false,
        constraint: Constraint::Free,
        suffix: None,
        adapters: None,
    }
}

/// The request for at most `max_len` tokens after a prompt.
pub fn request(prompt: Prompt, max_len: usize) -> (r: Request)
    ensures
        r@ == request_spec(prompt@, max_len),
        r.prompt == prompt,
        r.sampling.max_len == max_len,
        r.stop_toks is None && r.logits_bias is None && r.suffix is None && r.adapters is None,
        !r.return_logprobs && !r.is_streaming,
{
    Request {
        prompt,
        sampling: sampling(max_len),
        stop_toks: None,
        logits_bias: None,
        return_logprobs: false,
        is_streaming: false,
        constraint: Constraint::Free,
        suffix: None,
        adapters: None,
    }
}

/// The prompt of a text, which is not echoed and continued once.
pub open spec fn text_prompt_spec(text: Seq<char>) -> PromptModel {
    PromptModel::Completion { text, echo_prompt: false, best_of: 1 }
}

/// The prompt of a text.
pub fn text_prompt(text: &str) -> (p: Prompt)
    ensures
        p@ == text_prompt_spec(text@),
        p matches Prompt::Completion { text: t, echo_prompt, best_of } && t@ == text@
            && !echo_prompt && best_of == 1,
{
    Prompt::Completion { text: text.to_string(), echo_prompt: false, best_of: 1 }
}

/// Whether there are tokens enough for a prompt test: the end of their range is
/// a token too.
pub open spec fn prompt_fits_spec(n_prompt: usize) -> bool {
    FIRST_TOKEN + n_prompt <= u32::MAX
}

/// The tokens of a prompt test: consecutive, from the first one on.
pub open spec fn prompt_tokens_spec(n_prompt: usize) -> Seq<u32> {
    Seq::new(n_prompt as nat, |i: int| (FIRST_TOKEN + i) as u32)
}

/// Whether `prompt_tokens` can give the tokens.
pub fn prompt_fits(n_prompt: usize) -> (fits: bool)
    ensures
        fits == prompt_fits_spec(n_prompt),
        fits <==> 1000 + n_prompt <= u32::MAX,
{
    n_prompt <= (u32::MAX - FIRST_TOKEN) as usize
}

/// What is said of a prompt that does not fit: its length may be a token count
/// or not even that.
pub open spec fn prompt_too_long_spec(n_prompt: usize) -> Seq<char> {
    if n_prompt <= u32::MAX {
        "attempt to add with overflow"@
    } else {
        "out of range integral type conversion attempted"@
    }
}

/// The message with which the benchmark gives up on a prompt that does not fit.
pub fn prompt_too_long(n_prompt: usize) -> (text: &'static str)
    ensures
        text@ == prompt_too_long_spec(n_prompt),
        n_prompt <= u32::MAX ==> text@ == "attempt to add with overflow"@,
        n_prompt > u32::MAX ==> text@ == "out of range integral type conversion attempted"@,
{
    if n_prompt <= u32::MAX as usize {
        "attempt to add with overflow"
    } else {
        "out of range integral type conversion attempted"
    }
}

/// The tokens of a prompt test.
pub fn prompt_tokens(n_prompt: usize) -> (tokens: Vec<u32>)
    requires
        prompt_fits_spec(n_prompt),
    ensures
        tokens@ == prompt_tokens_spec(n_prompt),
        tokens@.len() == n_prompt,
        forall|i: int| 0 <= i < n_prompt ==> #[trigger] tokens@[i] == 1000 + i,
{
    let end: u32 = FIRST_TOKEN + n_prompt as u32;
    let mut tokens: Vec<u32> = Vec::new();
    let mut token: u32 = FIRST_TOKEN;
    while token < end
        invariant
            FIRST_TOKEN <= token <= end,
            tokens@.len() == token - FIRST_TOKEN,
            forall|i: int| 0 <= i < tokens@.len() ==> #[trigger] tokens@[i] == FIRST_TOKEN + i,
        decreases end - token,
    {
        tokens.push(token);
        token += 1;
    }
    assert(tokens@ =~= prompt_tokens_spec(n_prompt));
    tokens
}

/// The request that warms the engine up.
pub open spec fn warmup_request_spec() -> RequestModel {
    request_spec(text_prompt_spec("Hello!"@), 5)
}

/// The request that warms the engine up.
pub fn warmup_request() -> (r: Request)
    ensures
        r@ == warmup_request_spec(),
        r.sampling == sampling_spec(5),
        r.prompt matches Prompt::Completion { text, echo_prompt, best_of } && text@ == "Hello!"@
            && !echo_prompt && best_of == 1,
{
    request(text_prompt("Hello!"), 5)
}

/// A test to run: each repetition sends `concurrency` copies of the request at
/// once.
#[derive(Debug, PartialEq, Eq)]
pub struct BenchPlan {
    pub request: Request,
    pub concurrency: usize,
    pub repetitions: usize,
    pub test_name: TestName,
}

/// The mathematical form of a `BenchPlan`.
#[verifier::ext_equal]
pub struct BenchModel {
    pub request: RequestModel,
    pub concurrency: usize,
    pub repetitions: usize,
    pub test_name: TestName,
}

impl View for BenchPlan {
    type V = BenchModel;

    open spec fn view(&self) -> BenchModel {
        BenchModel {
            request: self.request@,
            concurrency: self.concurrency,
            repetitions: self.repetitions,
            test_name: self.test_name,
        }
    }
}

/// The generation test: a short text, and one token less than the test is named
/// after.
pub open spec fn gen_plan_spec(n_gen: usize, concurrency: usize, repetitions: usize) -> BenchModel {
    BenchModel {
        request: request_spec(text_prompt_spec("Rust"@), (n_gen - 1) as usize),
        concurrency,
        repetitions,
        test_name: TestName::Gen(n_gen),
    }
}

/// Plans the generation test.
pub fn gen_plan(n_gen: usize, concurrency: usize, repetitions: usize) -> (plan: BenchPlan)
    requires
        n_gen > 0,
    ensures
        plan@ == gen_plan_spec(n_gen, concurrency, repetitions),
        plan.test_name == TestName::Gen(n_gen),
        plan.concurrency == concurrency,
        plan.repetitions == repetitions,
        plan.request.sampling.max_len + 1 == n_gen,
        plan.request.prompt matches Prompt::Completion { text, echo_prompt, best_of } && text@
            == "Rust"@ && !echo_prompt && best_of == 1,
{
    BenchPlan {
        request: request(text_prompt("Rust"), n_gen - 1),
        concurrency,
        repetitions,
        test_name: TestName::Gen(n_gen),
    }
}

/// The prompt test: a prompt of so many tokens, and a single token after it.
pub open spec fn prompt_plan_spec(
    n_prompt: usize,
    concurrency: usize,
    repetitions: usize,
) -> BenchModel {
    BenchModel {
        request: request_spec(PromptModel::CompletionTokens(prompt_tokens_spec(n_prompt)), 1),
        concurrency,
        repetitions,
        test_name: TestName::Prompt(n_prompt),
    }
}

/// Plans the prompt test.
pub fn prompt_plan(n_prompt: usize, concurrency: usize, repetitions: usize) -> (plan: BenchPlan)
    requires
        prompt_fits_spec(n_prompt),
    ensures
        plan@ == prompt_plan_spec(n_prompt, concurrency, repetitions),
        plan.test_name == TestName::Prompt(n_prompt),
        plan.concurrency == concurrency,
        plan.repetitions == repetitions,
        plan.request.sampling.max_len == 1,
        plan.request.prompt matches Prompt::CompletionTokens(tokens) && tokens@.len() == n_prompt
            && forall|i: int| 0 <= i < n_prompt ==> #[trigger] tokens@[i] == 1000 + i,
{
    BenchPlan {
        request: request(Prompt::CompletionTokens(prompt_tokens(n_prompt)), 1),
        concurrency,
        repetitions,
        test_name: TestName::Prompt(n_prompt),
    }
}

/// A prompt test has as many tokens as its name says, no two alike.
pub proof fn prompt_has_its_tokens(n_prompt: usize)
    requires
        prompt_fits_spec(n_prompt),
    ensures
        prompt_tokens_spec(n_prompt).len() == n_prompt,
        prompt_tokens_spec(n_prompt).no_duplicates(),
{
}

/// Every request is sampled in the same way, but for its length: a tenth for
/// each fraction, among thirty-two tokens, one choice.
pub proof fn only_the_length_varies(m: usize, n: usize)
    ensures
        sampling_spec(m).max_len == m,
        sampling_spec(m) == (Sampling { max_len: m, ..sampling_spec(n) }),
        sampling_spec(m).temperature_tenths == 1,
        sampling_spec(m).top_k == 32,
        sampling_spec(m).top_p_tenths == 1,
        sampling_spec(m).top_n_logprobs == 0,
        sampling_spec(m).frequency_penalty_tenths == 1,
        sampling_spec(m).presence_penalty_tenths == 1,
        sampling_spec(m).n_choices == 1,
{
}

/// Two requests differ in their prompts and lengths and in nothing else, and
/// carry nothing that was not asked for.
pub proof fn requests_differ_in_prompt_and_length(
    p: PromptModel,
    m: usize,
    q: PromptModel,
    n: usize,
)
    ensures
        request_spec(p, m).prompt == p,
        request_spec(p, m).sampling.max_len == m,
        request_spec(p, m) == (RequestModel {
            prompt: p,
            sampling: Sampling { max_len: m, ..request_spec(q, n).sampling },
            ..request_spec(q, n)
        }),
        request_spec(p, m).stop_toks is None,
        request_spec(p, m).logits_bias is None,
        request_spec(p, m).suffix is None,
        request_spec(p, m).adapters is None,
        request_spec(p, m).constraint == Constraint::Free,
        !request_spec(p, m).return_logprobs,
        !request_spec(p, m).is_streaming,
{
}

/// A text prompt holds its own text, which is not echoed and continued once.
pub proof fn text_prompts_hold_their_text(text: Seq<char>)
    ensures
        text_prompt_spec(text) matches PromptModel::Completion { text: t, echo_prompt, best_of }
            && t == text && !echo_prompt && best_of == 1,
{
}

/// What a request shows in specifications is what it holds.
pub proof fn requests_are_seen_as_they_are(r: Request)
    ensures
        r@.sampling == r.sampling,
        r@.stop_toks is None <==> r.stop_toks is None,
        r@.logits_bias is None <==> r.logits_bias is None,
        r@.suffix is None <==> r.suffix is None,
        r@.adapters is None <==> r.adapters is None,
        r@.return_logprobs == r.return_logprobs,
        r@.is_streaming == r.is_streaming,
        r.prompt matches Prompt::CompletionTokens(tokens) ==> r@.prompt
            == PromptModel::CompletionTokens(tokens@),
        r.prompt matches Prompt::Completion { text, echo_prompt, best_of } ==> r@.prompt == (
        PromptModel::Completion { text: text@, echo_prompt, best_of }),
{
}

/// What a plan shows in specifications is what it holds.
pub proof fn plans_are_seen_as_they_are(plan: BenchPlan)
    ensures
        plan@.request == plan.request@,
        plan@.concurrency == plan.concurrency,
        plan@.repetitions == plan.repetitions,
        plan@.test_name == plan.test_name,
{
}

/// The reply of a generation test may have one token less than the test is named
/// after, for every length. The text, the concurrency and the repetitions do not
/// depend on the length.
pub proof fn generation_stops_one_short_of_its_name(
    n_gen: usize,
    other: usize,
    concurrency: usize,
    repetitions: usize,
)
    requires
        n_gen > 0,
    ensures
        ({
            let plan = gen_plan_spec(n_gen, concurrency, repetitions);
            &&& plan.test_name == TestName::Gen((plan.request.sampling.max_len + 1) as usize)
            &&& plan.request.sampling.max_len + 1 == n_gen
            &&& plan.request.prompt == gen_plan_spec(
                other,
                concurrency,
                repetitions,
            ).request.prompt
            &&& plan.concurrency == concurrency
            &&& plan.repetitions == repetitions
        }),
{
}

/// A prompt test sends exactly the tokens that it is named after, numbered on
/// from one thousand, and asks for a single token; for every length.
pub proof fn prompt_test_sends_its_tokens(n_prompt: usize, concurrency: usize, repetitions: usize)
    requires
        1000 + n_prompt <= u32::MAX,
    ensures
        prompt_fits_spec(n_prompt),
        ({
            let plan = prompt_plan_spec(n_prompt, concurrency, repetitions);
            &&& plan.request.prompt matches PromptModel::CompletionTokens(tokens)
            &&& plan.test_name == TestName::Prompt(n_prompt)
            &&& tokens.len() == n_prompt
            &&& forall|i: int| 0 <= i < n_prompt ==> #[trigger] tokens[i] == 1000 + i
            &&& plan.request.sampling.max_len == 1
            &&& plan.concurrency == concurrency
            &&& plan.repetitions == repetitions
        }),
{
}

/// A prompt fits if and only if the range of its tokens ends within 32 bits.
pub proof fn prompts_fit_up_to_the_last_token(n_prompt: usize)
    ensures
        prompt_fits_spec(n_prompt) <==> 1000 + n_prompt <= 0xffff_ffff,
{
}

/// Both tests and the warm-up send requests that are alike but for their prompt
/// and length.
pub proof fn all_requests_are_alike(n_gen: usize, n_prompt: usize, c: usize, r: usize)
    ensures
        ({
            let warmup = warmup_request_spec();
            let gen = gen_plan_spec(n_gen, c, r).request;
            let prompt = prompt_plan_spec(n_prompt, c, r).request;
            &&& warmup.sampling.max_len == 5
            &&& gen == request_spec(gen.prompt, gen.sampling.max_len)
            &&& prompt == request_spec(prompt.prompt, prompt.sampling.max_len)
            &&& warmup == request_spec(warmup.prompt, 5)
            &&& gen.prompt == text_prompt_spec("Rust"@)
            &&& warmup.prompt == text_prompt_spec("Hello!"@)
        }),
{
}

/// What holds unless the user says otherwise.
pub proof fn defaults_are_as_documented()
    ensures
        DEFAULT_N_PROMPT == 512,
        DEFAULT_N_GEN == 128,
        DEFAULT_REPETITIONS == 5,
        CHANNEL_CAPACITY == 10_000,
{
}

} // verus!
