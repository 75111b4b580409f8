//! The tests of the benchmark and what they measure.

use vstd::prelude::*;

use crate::text::{decimal, decimal_is_injective, decimal_string};

verus! {

/// A test: processing a prompt of so many tokens, or generating so many tokens.
#[derive(Clone, Copy, Debug, PartialEq, Eq, Structural)]
pub enum TestName {
    Prompt(usize),
    Gen(usize),
}

impl TestName {
    /// The name of the test in the result table.
    pub open spec fn label_spec(self) -> Seq<char> {
        match self {
            TestName::Prompt(n) => "pp "@ + decimal(n as nat),
            TestName::Gen(n) => "tg "@ + decimal(n as nat),
        }
    }

    /// Names the test for the result table.
    pub fn label(&self) -> (label: String)
        ensures
            label@ == self.label_spec(),
            self matches TestName::Prompt(n) ==> label@ == "pp "@ + decimal(*n as nat),
            self matches TestName::Gen(n) ==> label@ == "tg "@ + decimal(*n as nat),
    {
        match self {
            TestName::Prompt(n) => {
                let mut label = "pp ".to_string();
                label.append(decimal_string(*n).as_str());
                label
            },
            TestName::Gen(n) => {
                let mut label = "tg ".to_string();
                label.append(decimal_string(*n).as_str());
                label
            },
        }
    }
}

/// Different tests have different labels.
pub proof fn labels_are_injective(a: TestName, b: TestName)
    requires
        a.label_spec() == b.label_spec(),
    ensures
        a == b,
{
    reveal_strlit("pp ");
    reveal_strlit("tg ");
    let (m, n) = (
        match a {
            TestName::Prompt(m) => m,
            TestName::Gen(m) => m,
        },
        match b {
            TestName::Prompt(n) => n,
            TestName::Gen(n) => n,
        },
    );
    assert("pp "@[0] == 'p' && "tg "@[0] == 't');
    assert(a.label_spec()[0] == (if a is Prompt { 'p' } else { 't' }));
    assert(b.label_spec()[0] == (if b is Prompt { 'p' } else { 't' }));
    assert(a is Prompt <==> b is Prompt);
    assert(a.label_spec().skip(3) =~= decimal(m as nat));
    assert(b.label_spec().skip(3) =~= decimal(n as nat));
    decimal_is_injective(m as nat, n as nat);
}

/// The rates that the engine reports of one request, in tokens per second. The
/// kind of number, `R`, is the caller's.
#[derive(Debug, PartialEq, Eq)]
pub struct Usage<R> {
    pub avg_prompt_tok_per_sec: R,
    pub avg_compl_tok_per_sec: R,
}

/// What one test gave at one level of concurrency: one usage for each request.
#[derive(Debug, PartialEq, Eq)]
pub struct BenchResult<U> {
    pub usages: Vec<U>,
    pub concurrency: usize,
    pub test_name: TestName,
}

/// The rate of a usage that a test is about.
pub open spec fn measured_rate<R>(test_name: TestName, usage: Usage<R>) -> R {
    match test_name {
        TestName::Prompt(_) => usage.avg_prompt_tok_per_sec,
        TestName::Gen(_) => usage.avg_compl_tok_per_sec,
    }
}

impl<R: Copy> BenchResult<Usage<R>> {
    /// The rates that the test is about, one for each request, in order.
    pub fn rates(&self) -> (rates: Vec<R>)
        ensures
            rates@.len() == self.usages@.len(),
            forall|i: int|
                0 <= i < rates@.len() ==> #[trigger] rates@[i] == measured_rate(
                    self.test_name,
                    self.usages@[i],
                ),
            self.test_name is Prompt ==> forall|i: int|
                0 <= i < rates@.len() ==> #[trigger] rates@[i]
                    == self.usages@[i].avg_prompt_tok_per_sec,
            self.test_name is Gen ==> forall|i: int|
                0 <= i < rates@.len() ==> #[trigger] rates@[i]
                    == self.usages@[i].avg_compl_tok_per_sec,
    {
        let mut rates: Vec<R> = Vec::new();
        let mut i: usize = 0;
        while i < self.usages.len()
            invariant
                i <= self.usages.len(),
                rates@.len() == i,
                forall|j: int|
                    0 <= j < i ==> #[trigger] rates@[j] == measured_rate(
                        self.test_name,
                        self.usages@[j],
                    ),
            decreases self.usages.len() - i,
        {
            let rate = match self.test_name {
                TestName::Prompt(_) => self.usages[i].avg_prompt_tok_per_sec,
                TestName::Gen(_) => self.usages[i].avg_compl_tok_per_sec,
            };
            rates.push(rate);
            i += 1;
        }
        rates
    }
}

/// A label is a two letter kind and the number of tokens.
pub proof fn labels_name_kind_and_tokens(n: usize)
    ensures
        TestName::Prompt(n).label_spec() == seq!['p', 'p', ' '] + decimal(n as nat),
        TestName::Gen(n).label_spec() == seq!['t', 'g', ' '] + decimal(n as nat),
{
    reveal_strlit("pp ");
    reveal_strlit("tg ");
    assert("pp "@ =~= seq!['p', 'p', ' ']);
    assert("tg "@ =~= seq!['t', 'g', ' ']);
}

/// A prompt test measures the prompt rate, whatever the completion rate is, and
/// a generation test the completion rate, whatever the prompt rate is.
pub proof fn tests_measure_their_own_rate<R>(n: usize, prompt: R, compl: R)
    ensures
        ({
            let usage = Usage { avg_prompt_tok_per_sec: prompt, avg_compl_tok_per_sec: compl };
            &&& measured_rate(TestName::Prompt(n), usage) == prompt
            &&& measured_rate(TestName::Gen(n), usage) == compl
        }),
{
}

} // verus!
