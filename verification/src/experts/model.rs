//! Generation with one expert: what is fed to the model, in which order, and when
//! to stop.
//!
//! The model itself (tokenising, decoding, sampling) is driven from outside: it
//! performs what [`Generation`] asks for next and reports what came of it.

use crate::score::{Score, Temperature};
use vstd::prelude::*;
use vstd::string::*;

verus! {

/// A generated text with the log-probability of each generated token.
pub struct GenerationOutput {
    pub text: String,
    /// One for each generated token. The prompt is left out, and so is the token
    /// that ends the generation: where it comes first, nothing was generated.
    pub token_logprobs: Vec<Score>,
}

/// A token to decode, with its position in the sequence and whether the model's
/// prediction behind it is wanted.
#[derive(Debug, Clone, Copy, PartialEq, Eq, Structural)]
pub struct BatchEntry {
    pub token: i32,
    pub pos: i32,
    pub logits: bool,
}

/// Whether to put the begin-of-sequence token before a prompt.
#[derive(Debug, Clone, Copy, PartialEq, Eq, Structural)]
pub enum BosPolicy {
    Always,
    Never,
}

/// How to pick the next token.
#[derive(Debug, Clone, Copy, PartialEq, Eq, Structural)]
pub enum SamplerKind {
    /// The likeliest one.
    Greedy,
    /// By chance, at a temperature.
    Random,
}

/// How many tokens precede the prompt, where `restored` tells how many tokens of
/// state were restored, if any were.
pub fn restored_position(restored: Option<usize>) -> (n_past: i32)
    ensures
        n_past == match restored {
            Some(n) => n as i32,
            None => 0i32,
        },
{
    match restored {
        Some(n) => #[verifier::truncate] (n as i32),
        None => 0,
    }
}

/// The begin-of-sequence token belongs at the very start of a sequence only.
pub fn bos_policy(n_past: i32) -> (p: BosPolicy)
    ensures
        p is Always <==> n_past == 0,
{
    if n_past == 0 {
        BosPolicy::Always
    } else {
        BosPolicy::Never
    }
}

/// A temperature of zero or less asks for the likeliest token.
pub fn sampler_kind(temperature: Temperature) -> (k: SamplerKind)
    ensures
        k is Greedy <==> temperature.not_positive(),
{
    if temperature.le_zero() {
        SamplerKind::Greedy
    } else {
        SamplerKind::Random
    }
}

/// How many tokens to make room for in a batch.
pub fn batch_capacity(n_tokens: usize) -> (n: usize)
    ensures
        n == if n_tokens < 512 {
            512
        } else {
            n_tokens
        },
{
    if n_tokens < 512 {
        512
    } else {
        n_tokens
    }
}

/// The prompt from position `n_past` on; only the prediction behind its last
/// token is wanted.
pub fn prompt_batch(tokens: &[i32], n_past: i32) -> (batch: Vec<BatchEntry>)
    requires
        tokens@.len() <= i32::MAX,
        n_past + tokens@.len() <= i32::MAX + 1,
    ensures
        batch@ == Seq::new(
            tokens@.len(),
            |i: int|
                BatchEntry {
                    token: tokens@[i],
                    pos: (n_past + i) as i32,
                    logits: i == tokens@.len() - 1,
                },
        ),
{
    let n: usize = tokens.len();
    let mut batch: Vec<BatchEntry> = Vec::new();
    let mut i: usize = 0;
    while i < n
        invariant
            i <= n,
            n == tokens@.len(),
            n <= i32::MAX,
            n_past + n <= i32::MAX + 1,
            batch@.len() == i,
            forall|j: int|
                0 <= j < i ==> #[trigger] batch@[j] == (BatchEntry {
                    token: tokens@[j],
                    pos: (n_past + j) as i32,
                    logits: j == n - 1,
                }),
        decreases n - i,
    {
        batch.push(
            BatchEntry { token: tokens[i], pos: n_past + i as i32, logits: i == n - 1 },
        );
        i = i + 1;
    }
    batch
}

/// A whole sequence from its start.
pub open spec fn sequence(tokens: Seq<i32>, logits: bool) -> Seq<BatchEntry> {
    Seq::new(tokens.len(), |i: int| BatchEntry { token: tokens[i], pos: i as i32, logits })
}

/// A whole sequence from its start, with the prediction behind every token or
/// behind none.
pub fn sequence_batch(tokens: &[i32], logits: bool) -> (batch: Vec<BatchEntry>)
    ensures
        batch@ == sequence(tokens@, logits),
{
    let n: usize = tokens.len();
    let mut batch: Vec<BatchEntry> = Vec::new();
    let mut i: usize = 0;
    while i < n
        invariant
            i <= n,
            n == tokens@.len(),
            batch@.len() == i,
            forall|j: int|
                0 <= j < i ==> #[trigger] batch@[j] == (BatchEntry {
                    token: tokens@[j],
                    pos: j as i32,
                    logits,
                }),
        decreases n - i,
    {
        batch.push(
            BatchEntry { token: tokens[i], pos: #[verifier::truncate] (i as i32), logits },
        );
        i = i + 1;
    }
    batch
}

/// What to do next in a generation.
#[derive(Debug, Clone, Copy, PartialEq, Eq, Structural)]
pub enum NextStep {
    /// Sample a token from the prediction at this index of the last batch.
    Sample(i32),
    /// Stop: the text is complete.
    Finish,
}

/// A generation in progress, from the decoded prompt on.
pub struct Generation {
    n_past: i32,
    n_prompt: usize,
    n_cur: i32,
    max_new_tokens: usize,
    generated: Vec<i32>,
    all_tokens: Vec<i32>,
    token_logprobs: Vec<Score>,
    stopped: bool,
}

/// What a generation has come to.
pub struct Progress {
    /// The position of the first prompt token.
    pub n_past: int,
    pub prompt: Seq<i32>,
    pub max_new_tokens: nat,
    /// The tokens generated so far.
    pub generated: Seq<i32>,
    /// The log-probability of each of them.
    pub logprobs: Seq<Score>,
    /// Whether an end-of-generation token was sampled.
    pub stopped: bool,
}

/// A token that was sampled: its id, its log-probability, and whether it ends the
/// generation.
pub type Sampled = (i32, Score, bool);

impl Progress {
    /// The position of the next token.
    pub open spec fn position(self) -> int {
        self.n_past + self.prompt.len() + self.generated.len()
    }

    /// Whether nothing more is to be sampled.
    pub open spec fn finished(self) -> bool {
        self.stopped || self.generated.len() >= self.max_new_tokens
    }

    /// Every generated token has its log-probability, and no more than allowed were
    /// generated.
    pub open spec fn wf(self) -> bool {
        &&& self.generated.len() <= self.max_new_tokens
        &&& self.logprobs.len() == self.generated.len()
    }

    /// After a token was sampled; one that ends the generation adds nothing to it.
    pub open spec fn accepted(self, s: Sampled) -> Progress {
        if s.2 {
            Progress { stopped: true, ..self }
        } else {
            Progress {
                logprobs: self.logprobs.push(s.1),
                generated: self.generated.push(s.0),
                ..self
            }
        }
    }

    /// After sampling from `samples` until the generation finishes.
    pub open spec fn run(self, samples: Seq<Sampled>) -> Progress
        decreases samples.len(),
    {
        if samples.len() == 0 {
            self
        } else {
            let before = self.run(samples.drop_last());
            if before.finished() {
                before
            } else {
                before.accepted(samples.last())
            }
        }
    }
}

impl View for Generation {
    type V = Progress;

    closed spec fn view(&self) -> Progress {
        Progress {
            n_past: self.n_past as int,
            prompt: self.all_tokens@.take(self.n_prompt as int),
            max_new_tokens: self.max_new_tokens as nat,
            generated: self.generated@,
            logprobs: self.token_logprobs@,
            stopped: self.stopped,
        }
    }
}

impl Generation {
    /// The counts agree and the tokens are the prompt and what was generated.
    pub closed spec fn wf(&self) -> bool {
        &&& self@.wf()
        &&& self.n_prompt <= self.all_tokens@.len()
        &&& 0 < self.n_prompt <= i32::MAX
        &&& self.all_tokens@ == self@.prompt + self.generated@
        &&& self@.position() == self.n_cur
    }

    /// A generation in order is so in its view.
    pub proof fn view_is_in_order(&self)
        requires
            self.wf(),
        ensures
            self@.wf(),
            self@.prompt.len() > 0,
            self@.position() <= i32::MAX,
    {
    }

    /// Starts behind a decoded prompt.
    pub fn start(prompt_tokens: &[i32], n_past: i32, max_new_tokens: usize) -> (g: Self)
        requires
            0 < prompt_tokens@.len() <= i32::MAX,
            n_past + prompt_tokens@.len() <= i32::MAX,
        ensures
            g.wf(),
            g@ == (Progress {
                n_past: n_past as int,
                prompt: prompt_tokens@,
                max_new_tokens: max_new_tokens as nat,
                generated: Seq::empty(),
                logprobs: Seq::empty(),
                stopped: false,
            }),
    {
        let n: usize = prompt_tokens.len();
        let mut all_tokens: Vec<i32> = Vec::new();
        let mut i: usize = 0;
        while i < n
            invariant
                i <= n,
                n == prompt_tokens@.len(),
                all_tokens@ == prompt_tokens@.take(i as int),
            decreases n - i,
        {
            all_tokens.push(prompt_tokens[i]);
            assert(all_tokens@ =~= prompt_tokens@.take(i + 1));
            i = i + 1;
        }
        assert(prompt_tokens@.take(n as int) =~= prompt_tokens@);
        let g = Generation {
            n_past,
            n_prompt: n,
            n_cur: n_past + n as i32,
            max_new_tokens,
            generated: Vec::new(),
            all_tokens,
            token_logprobs: Vec::new(),
            stopped: false,
        };
        assert(g@.prompt =~= prompt_tokens@);
        assert(g.all_tokens@ =~= g@.prompt + g.generated@);
        g
    }

    /// What to do next. The first sample reads the end of the prompt, every later
    /// one the token decoded last.
    pub fn next_step(&self) -> (s: NextStep)
        requires
            self.wf(),
        ensures
            s == if self@.finished() {
                NextStep::Finish
            } else if self@.generated.len() == 0 {
                NextStep::Sample((self@.prompt.len() - 1) as i32)
            } else {
                NextStep::Sample(0)
            },
    {
        if self.stopped || self.generated.len() >= self.max_new_tokens {
            NextStep::Finish
        } else if self.generated.len() == 0 {
            NextStep::Sample(self.n_prompt as i32 - 1)
        } else {
            NextStep::Sample(0)
        }
    }

    /// Takes in a sampled token and says what to decode before the next one;
    /// nothing where the token ends the generation.
    pub fn accept(&mut self, token: i32, logprob: Score, is_eog: bool) -> (r: Option<BatchEntry>)
        requires
            old(self).wf(),
            !old(self)@.finished(),
            !is_eog ==> old(self)@.position() < i32::MAX,
        ensures
            final(self).wf(),
            final(self)@ == old(self)@.accepted((token, logprob, is_eog)),
            r == if is_eog {
                None::<BatchEntry>
            } else {
                Some(
                    BatchEntry {
                        token,
                        pos: old(self)@.position() as i32,
                        logits: true,
                    },
                )
            },
    {
        let ghost before = self@;
        if is_eog {
            self.stopped = true;
            return None;
        }
        self.token_logprobs.push(logprob);
        let pos: i32 = self.n_cur;
        self.n_cur = pos + 1;
        self.generated.push(token);
        self.all_tokens.push(token);
        assert(self@.prompt =~= before.prompt);
        assert(self.all_tokens@ =~= self@.prompt + self.generated@);
        Some(BatchEntry { token, pos, logits: true })
    }

    /// The tokens of the text.
    pub fn generated(&self) -> (t: &[i32])
        ensures
            t@ == self@.generated,
    {
        self.generated.as_slice()
    }

    /// The tokens to save with the model's state: the prompt and the text.
    pub fn all_tokens(&self) -> (t: &[i32])
        requires
            self.wf(),
        ensures
            t@ == self@.prompt + self@.generated,
    {
        self.all_tokens.as_slice()
    }

    /// The output, given the text of the generated tokens.
    pub fn into_output(self, text: String) -> (o: GenerationOutput)
        ensures
            o.text@ == text@,
            o.token_logprobs@ == self@.logprobs,
    {
        GenerationOutput { text, token_logprobs: self.token_logprobs }
    }
}

/// A generation never yields more tokens than asked for, takes the samples as
/// they come, each token with its log-probability, and stops short only behind a
/// token that ends it.
pub proof fn generation_follows_the_samples(start: Progress, samples: Seq<Sampled>)
    requires
        start.generated.len() == 0,
        start.logprobs.len() == 0,
        !start.stopped,
    ensures
        ({
            let end = start.run(samples);
            let n = end.generated.len() as int;
            &&& end.wf()
            &&& end.max_new_tokens == start.max_new_tokens
            &&& end.prompt == start.prompt
            &&& end.n_past == start.n_past
            &&& n <= start.max_new_tokens
            &&& n <= samples.len()
            &&& end.generated == samples.take(n).map_values(|s: Sampled| s.0)
            &&& end.logprobs == samples.take(n).map_values(|s: Sampled| s.1)
            &&& forall|i: int| 0 <= i < n ==> !(#[trigger] samples[i]).2
            &&& end.stopped ==> n < samples.len() && samples[n].2
            &&& !end.finished() ==> n == samples.len()
        }),
{
    lemma_run_keeps_limits(start, samples);
    lemma_run_follows(start, samples);
    let end = start.run(samples);
    let n = end.generated.len() as int;
    assert(end.generated =~= samples.take(n).map_values(|s: Sampled| s.0)) by {
        assert forall|i: int| 0 <= i < n implies end.generated[i] == samples[i].0 by {
            assert(follows_at(end, samples, i));
        }
    }
    assert(end.logprobs =~= samples.take(n).map_values(|s: Sampled| s.1)) by {
        assert forall|i: int| 0 <= i < n implies end.logprobs[i] == samples[i].1 by {
            assert(follows_at(end, samples, i));
        }
    }
    assert forall|i: int| 0 <= i < n implies !(#[trigger] samples[i]).2 by {
        assert(follows_at(end, samples, i));
    }
}

/// A generation that ends at once yields nothing, so there is nothing to be sure of.
pub proof fn immediate_end_yields_nothing(start: Progress, s: Sampled)
    requires
        start.generated.len() == 0,
        start.logprobs.len() == 0,
        !start.stopped,
        start.max_new_tokens > 0,
        s.2,
    ensures
        start.run(seq![s]).finished(),
        start.run(seq![s]).generated.len() == 0,
        start.run(seq![s]).logprobs.len() == 0,
{
    let one = seq![s];
    assert(one.drop_last() =~= Seq::empty());
    assert(start.run(one.drop_last()) == start);
}

/// Whether generated token `i` is sample `i`.
spec fn follows_at(end: Progress, samples: Seq<Sampled>, i: int) -> bool {
    &&& end.generated[i] == samples[i].0
    &&& end.logprobs[i] == samples[i].1
    &&& !samples[i].2
}

#[verifier::spinoff_prover]
proof fn lemma_run_follows(start: Progress, samples: Seq<Sampled>)
    requires
        start.generated.len() == 0,
        start.logprobs.len() == 0,
        !start.stopped,
    ensures
        start.run(samples).wf(),
        start.run(samples).generated.len() <= samples.len(),
        forall|i: int|
            0 <= i < start.run(samples).generated.len() ==> #[trigger] follows_at(
                start.run(samples),
                samples,
                i,
            ),
        start.run(samples).stopped ==> start.run(samples).generated.len() < samples.len()
            && samples[start.run(samples).generated.len() as int].2,
        !start.run(samples).finished() ==> start.run(samples).generated.len() == samples.len(),
    decreases samples.len(),
{
    if samples.len() > 0 {
        let short = samples.drop_last();
        let before = start.run(short);
        let end = start.run(samples);
        lemma_run_follows(start, short);
        lemma_run_keeps_limits(start, short);
        assert forall|i: int| 0 <= i < end.generated.len() implies #[trigger] follows_at(
            end,
            samples,
            i,
        ) by {
            if i < before.generated.len() {
                assert(follows_at(before, short, i));
            }
        }
    }
}

proof fn lemma_run_keeps_limits(start: Progress, samples: Seq<Sampled>)
    ensures
        start.run(samples).max_new_tokens == start.max_new_tokens,
        start.run(samples).n_past == start.n_past,
        start.run(samples).prompt == start.prompt,
    decreases samples.len(),
{
    if samples.len() > 0 {
        lemma_run_keeps_limits(start, samples.drop_last());
    }
}

/// Tokens are decoded at consecutive positions: the first behind the prompt, and
/// each other one behind the token before it.
pub proof fn positions_are_consecutive(start: Progress, samples: Seq<Sampled>, s: Sampled)
    requires
        start.generated.len() == 0,
        !s.2,
    ensures
        start.position() == start.n_past + start.prompt.len(),
        start.run(samples).accepted(s).position() == start.run(samples).position() + 1,
        start.run(samples).position() == start.position() + start.run(samples).generated.len(),
{
    lemma_run_keeps_limits(start, samples);
}

/// A whole sequence is decoded from its start, every token at its own place, with the
/// predictions wanted or not.
pub proof fn sequences_start_at_zero(tokens: Seq<i32>, logits: bool, i: int)
    requires
        0 <= i < tokens.len() <= i32::MAX,
    ensures
        sequence(tokens, logits).len() == tokens.len(),
        sequence(tokens, logits)[i].token == tokens[i],
        sequence(tokens, logits)[i].pos == i,
        sequence(tokens, logits)[i].logits == logits,
{
}

/// A sampled token either ends the generation, which then keeps what it had, or adds
/// itself and its log-probability at the end, and the generation goes on to be finished
/// exactly when as many tokens were generated as allowed.
pub proof fn samples_end_or_extend(p: Progress, s: Sampled)
    requires
        p.wf(),
        !p.finished(),
    ensures
        ({
            let next = p.accepted(s);
            &&& s.2 ==> next.finished() && next.generated == p.generated && next.logprobs
                == p.logprobs
            &&& !s.2 ==> next.generated == p.generated.push(s.0) && next.logprobs
                == p.logprobs.push(s.1) && next.position() == p.position() + 1
            &&& !s.2 ==> (next.finished() <==> p.generated.len() + 1 == p.max_new_tokens)
            &&& next.prompt == p.prompt && next.n_past == p.n_past && next.max_new_tokens
                == p.max_new_tokens
        }),
{
}

}
