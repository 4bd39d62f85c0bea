//! The pipeline: from a prompt to an answer.
//!
//! An attempt reads the session's state, routes the prompt, has every selected expert
//! answer it, fuses the answers, lets the critic judge the result, and saves the state
//! that routing came to. What the critic refuses is tried again, a limited number of
//! times; then the last result is returned as best effort. An action that fails ends
//! the turn at once. The actions are performed outside: the pipeline says what to do
//! next and takes in what came of it.

use crate::brain::gate;
use crate::brain::gate::{adaptive_k_gate, GateOutput};
use crate::config;
use crate::config::MoEConfig;
use crate::experts::expert_router::CompletionRequest;
use crate::layers::fusion;
use crate::layers::fusion::text_fuse;
use crate::memory::context;
use crate::memory::context::{ContextMemory, FilePath};
use crate::score::{Score, BITS_ZERO};
use crate::text;
use vstd::prelude::*;
use vstd::string::*;

verus! {

/// The pattern of `0.05`: experts below this weight are pruned.
pub const BITS_MIN_WEIGHT: u32 = 0x3D4C_CCCD;

/// The pipeline: its settings and how often it routes again.
pub struct MoEPipeline {
    config: MoEConfig,
    max_retries: usize,
}

/// Why there is no pipeline.
#[derive(Debug, Clone, Copy, PartialEq, Eq, Structural)]
pub enum PipelineError {
    /// No expert has its checkpoint on disk.
    NoExperts,
}

impl PipelineError {
    /// The message for a person.
    pub fn message(&self) -> (m: String)
        ensures
            m@
                == "no expert GGUFs found on disk — see config.rs for the expected paths under ../models/"@,
    {
        "no expert GGUFs found on disk — see config.rs for the expected paths under ../models/".to_string()
    }
}

/// What to do next in a turn.
#[derive(Debug)]
pub enum Action {
    /// Read the session's state from this file; it is empty where there is no file.
    Load(FilePath),
    /// Score the prompt against the pool and select experts, with the state of
    /// earlier turns if there is any.
    Route(Option<Vec<u8>>),
    /// Have this expert answer the prompt.
    Generate(String),
    /// Have the critic judge this text.
    Verify(String),
    /// Write the session's state to this file.
    Save(FilePath, Vec<u8>),
    /// Answer with this text.
    Return(String),
    /// Give up: report why the last action failed.
    Fail,
}

/// What came of an action.
pub enum Event {
    /// The state was read.
    Restored(Vec<u8>),
    /// Experts were selected; `weights` are their fusion weights as shown, and
    /// `state` is the session's new state.
    Routed { gate: GateOutput, weights: Vec<String>, state: Vec<u8> },
    /// The expert answered.
    Generated(String),
    /// The critic passed the text, or did not.
    Judged(bool),
    /// The state was written.
    Saved,
    /// The action failed.
    Failed,
}

/// How far an attempt has come. From routing on it holds the state to save.
pub enum Stage {
    Restoring,
    Routing,
    Generating {
        names: Vec<String>,
        weights: Vec<String>,
        outputs: Vec<(String, String)>,
        state: Vec<u8>,
    },
    Judging { fused: String, state: Vec<u8> },
    Saving { fused: String, passed: bool },
    Done,
}

/// A turn of a session in progress. Attempts count from zero.
pub struct Turn {
    attempt: usize,
    memory: ContextMemory,
    stage: Stage,
}

/// How far an attempt has come, in characters and bytes.
pub enum StageView {
    Restoring,
    Routing,
    Generating {
        names: Seq<Seq<char>>,
        weights: Seq<Seq<char>>,
        outputs: Seq<(Seq<char>, Seq<char>)>,
        state: Seq<u8>,
    },
    Judging { fused: Seq<char>, state: Seq<u8> },
    Saving { fused: Seq<char>, passed: bool },
    Done,
}

/// A turn, in characters and bytes.
pub struct TurnView {
    pub attempt: nat,
    /// The session, and the directory that holds its state.
    pub session: Seq<char>,
    pub dir: Seq<char>,
    pub stage: StageView,
}

/// An action, in characters and bytes; files by directory and name.
pub enum ActionView {
    Load(Seq<char>, Seq<char>),
    Route(Option<Seq<u8>>),
    Generate(Seq<char>),
    Verify(Seq<char>),
    Save(Seq<char>, Seq<char>, Seq<u8>),
    Return(Seq<char>),
    Fail,
}

impl View for Stage {
    type V = StageView;

    open spec fn view(&self) -> StageView {
        match *self {
            Stage::Restoring => StageView::Restoring,
            Stage::Routing => StageView::Routing,
            Stage::Generating { names, weights, outputs, state } => StageView::Generating {
                names: text::views(names@),
                weights: text::views(weights@),
                outputs: fusion::pair_views(outputs@),
                state: state@,
            },
            Stage::Judging { fused, state } => StageView::Judging {
                fused: fused@,
                state: state@,
            },
            Stage::Saving { fused, passed } => StageView::Saving { fused: fused@, passed },
            Stage::Done => StageView::Done,
        }
    }
}

impl View for Turn {
    type V = TurnView;

    closed spec fn view(&self) -> TurnView {
        TurnView {
            attempt: self.attempt as nat,
            session: self.memory.session(),
            dir: self.memory.dir(),
            stage: self.stage@,
        }
    }
}

impl View for Action {
    type V = ActionView;

    open spec fn view(&self) -> ActionView {
        match *self {
            Action::Load(p) => ActionView::Load(p.dir@, p.file_name@),
            Action::Route(Some(state)) => ActionView::Route(Some(state@)),
            Action::Route(None) => ActionView::Route(None),
            Action::Generate(name) => ActionView::Generate(name@),
            Action::Verify(s) => ActionView::Verify(s@),
            Action::Save(p, state) => ActionView::Save(p.dir@, p.file_name@, state@),
            Action::Return(s) => ActionView::Return(s@),
            Action::Fail => ActionView::Fail,
        }
    }
}

/// The file of the state that routing carries from turn to turn of a session.
pub open spec fn brain_file(session: Seq<char>) -> Seq<char> {
    context::state_file(session, "brain"@)
}

/// What routing is handed of a state that was read: nothing where it is empty.
pub open spec fn prior_state(state: Seq<u8>) -> Option<Seq<u8>> {
    if state.len() == 0 {
        None
    } else {
        Some(state)
    }
}

/// The names of the experts of a pool.
pub open spec fn pool_of(experts: Seq<config::ExpertConfig>) -> Seq<Seq<char>> {
    experts.map_values(|e: config::ExpertConfig| e.name@)
}

/// Whether a judged attempt ends the turn: the critic passed it, or it was the
/// last one.
pub open spec fn ends_turn(attempt: nat, max_retries: nat, passed: bool) -> bool {
    passed || attempt >= max_retries
}

/// The names of the experts at these places of the pool.
pub open spec fn names_at(pool: Seq<Seq<char>>, indices: Seq<usize>) -> Seq<Seq<char>> {
    Seq::new(indices.len(), |m: int| pool[indices[m] as int])
}

impl TurnView {
    /// Whether the turn waits for this event.
    pub open spec fn expects(self, pool: Seq<Seq<char>>, event: Event) -> bool {
        match (self.stage, event) {
            (StageView::Restoring, Event::Restored(_)) => true,
            (StageView::Routing, Event::Routed { gate, weights, .. }) => {
                &&& gate.expert_indices@.len() > 0
                &&& weights@.len() == gate.expert_indices@.len()
                &&& forall|m: int|
                    0 <= m < gate.expert_indices@.len() ==> (#[trigger] gate.expert_indices@[m])
                        < pool.len()
            },
            (StageView::Generating { .. }, Event::Generated(_)) => true,
            (StageView::Judging { .. }, Event::Judged(_)) => true,
            (StageView::Saving { .. }, Event::Saved) => true,
            (stage, Event::Failed) => !(stage is Done),
            _ => false,
        }
    }

    /// The counts agree with the stage, every expert that is asked is one of the
    /// pool, and no attempt goes beyond the limit.
    pub open spec fn wf(self, pool: Seq<Seq<char>>, max_retries: nat) -> bool {
        &&& self.attempt <= max_retries
        &&& match self.stage {
            StageView::Generating { names, weights, outputs, .. } => {
                &&& forall|i: int| 0 <= i < names.len() ==> pool.contains(#[trigger] names[i])
                &&& names.len() == weights.len()
                &&& outputs.len() < names.len()
                &&& forall|i: int|
                    0 <= i < outputs.len() ==> (#[trigger] outputs[i]).0 == names[i]
            },
            _ => true,
        }
    }

    /// Reading the session's state.
    pub open spec fn load(self) -> ActionView {
        ActionView::Load(self.dir, brain_file(self.session))
    }

    /// The turn after an event, and what to do next.
    pub open spec fn after(self, pool: Seq<Seq<char>>, max_retries: nat, event: Event) -> (
        TurnView,
        ActionView,
    ) {
        match (self.stage, event) {
            (StageView::Restoring, Event::Restored(state)) => {
                (
                    TurnView { stage: StageView::Routing, ..self },
                    ActionView::Route(prior_state(state@)),
                )
            },
            (StageView::Routing, Event::Routed { gate, weights, state }) => {
                let names = names_at(pool, gate.expert_indices@);
                let stage = StageView::Generating {
                    names,
                    weights: text::views(weights@),
                    outputs: Seq::empty(),
                    state: state@,
                };
                (TurnView { stage, ..self }, ActionView::Generate(names[0]))
            },
            (
                StageView::Generating { names, weights, outputs, state },
                Event::Generated(answer),
            ) => {
                let done = outputs.push((names[outputs.len() as int], answer@));
                if done.len() < names.len() {
                    let stage = StageView::Generating { names, weights, outputs: done, state };
                    (TurnView { stage, ..self }, ActionView::Generate(names[done.len() as int]))
                } else {
                    let fused = fusion::fused(done, weights);
                    let stage = StageView::Judging { fused, state };
                    (TurnView { stage, ..self }, ActionView::Verify(fused))
                }
            },
            (StageView::Judging { fused, state }, Event::Judged(passed)) => {
                (
                    TurnView { stage: StageView::Saving { fused, passed }, ..self },
                    ActionView::Save(self.dir, brain_file(self.session), state),
                )
            },
            (StageView::Saving { fused, passed }, Event::Saved) => {
                if ends_turn(self.attempt, max_retries, passed) {
                    (TurnView { stage: StageView::Done, ..self }, ActionView::Return(fused))
                } else {
                    let again = TurnView {
                        attempt: self.attempt + 1,
                        stage: StageView::Restoring,
                        ..self
                    };
                    (again, self.load())
                }
            },
            _ => (TurnView { stage: StageView::Done, ..self }, ActionView::Fail),
        }
    }
}

impl MoEPipeline {
    /// The names of the pool.
    pub closed spec fn pool(&self) -> Seq<Seq<char>> {
        pool_of(self.config.experts@)
    }

    /// How often a refused text is routed again.
    pub closed spec fn retries(&self) -> nat {
        self.max_retries as nat
    }

    /// The settings.
    pub closed spec fn settings(&self) -> MoEConfig {
        self.config
    }

    /// A pipeline over the experts whose checkpoints are on disk; `on_disk` says
    /// of each expert whether its is.
    pub fn new(config: MoEConfig, on_disk: &[bool]) -> (r: Result<Self, PipelineError>)
        requires
            on_disk@.len() == config.experts@.len(),
        ensures
            ({
                let present = config::kept(config.experts@, on_disk@);
                if present.len() == 0 {
                    r matches Err(e) && e is NoExperts
                } else {
                    r matches Ok(p) && p.settings().experts@ == present && p.settings() == (
                    MoEConfig { experts: p.settings().experts, ..config }) && p.retries() == 2
                        && p.pool() == pool_of(present)
                }
            }),
    {
        let mut config = config;
        config.filter_to_present_experts(on_disk);
        if config.experts.is_empty() {
            return Err(PipelineError::NoExperts);
        }
        Ok(MoEPipeline { config, max_retries: 2 })
    }

    /// The settings.
    pub fn config(&self) -> (c: &MoEConfig)
        ensures
            *c == self.settings(),
            self.pool() == pool_of(c.experts@),
    {
        &self.config
    }

    /// Selects the experts for a prompt whose distribution over the pool is `probs`,
    /// with this normalised entropy.
    pub fn select(&self, probs: &[Score], entropy: Score) -> (selected: GateOutput)
        requires
            probs@.len() > 0,
            probs@.len() > 1 ==> forall|i: int|
                0 <= i < probs@.len() ==> !(#[trigger] probs@[i]).nan(),
        ensures
            gate::is_gate_output(
                probs@,
                entropy,
                self.settings().k_max as nat,
                Score { bits: BITS_MIN_WEIGHT },
                selected,
            ),
            probs@.len() == 1 ==> selected.entropy.bits == BITS_ZERO,
    {
        adaptive_k_gate(probs, entropy, self.config.k_max, Score { bits: BITS_MIN_WEIGHT })
    }

    /// What to ask an expert for this prompt.
    pub fn completion_request(&self, expert_name: &str, prompt: &str) -> (r: CompletionRequest)
        ensures
            r.model@ == expert_name@,
            r.prompt@ == prompt@,
            r.max_tokens == self.settings().max_new_tokens,
            r.temperature == self.settings().temperature,
    {
        CompletionRequest {
            model: expert_name.to_string(),
            prompt: prompt.to_string(),
            max_tokens: self.config.max_new_tokens,
            temperature: self.config.temperature,
        }
    }

    /// Starts a turn of a session: its state is read first.
    pub fn run(&self, session_id: &str) -> (r: (Turn, Action))
        ensures
            r.0@ == (TurnView {
                attempt: 0,
                session: session_id@,
                dir: self.settings().sessions_dir@,
                stage: StageView::Restoring,
            }),
            r.0@.wf(self.pool(), self.retries()),
            r.1@ == r.0@.load(),
    {
        let memory = ContextMemory::new(session_id, self.config.sessions_dir.as_str());
        let file = memory.path("brain");
        (Turn { attempt: 0, memory, stage: Stage::Restoring }, Action::Load(file))
    }

    /// Takes in what came of the last action and says what to do next.
    pub fn step(&self, turn: Turn, event: Event) -> (r: (Turn, Action))
        requires
            turn@.wf(self.pool(), self.retries()),
            turn@.expects(self.pool(), event),
        ensures
            (r.0@, r.1@) == turn@.after(self.pool(), self.retries(), event),
            r.0@.wf(self.pool(), self.retries()),
    {
        let Turn { attempt, memory, stage } = turn;
        match (stage, event) {
            (Stage::Restoring, Event::Restored(state)) => {
                let prior = if state.len() == 0 {
                    None
                } else {
                    Some(state)
                };
                (Turn { attempt, memory, stage: Stage::Routing }, Action::Route(prior))
            },
            (Stage::Routing, Event::Routed { gate, weights, state }) => {
                let names = self.selected_names(&gate.expert_indices);
                assert(text::views(names@).len() == gate.expert_indices@.len());
                assert(text::views(names@)[0] == names@[0]@);
                let first = names[0].clone();
                let outputs: Vec<(String, String)> = Vec::new();
                assert(fusion::pair_views(outputs@) =~= Seq::empty());
                let stage = Stage::Generating { names, weights, outputs, state };
                (Turn { attempt, memory, stage }, Action::Generate(first))
            },
            (Stage::Generating { names, weights, outputs, state }, Event::Generated(answer)) => {
                let ghost before = fusion::pair_views(outputs@);
                let ghost said = answer@;
                let mut outputs = outputs;
                let n: usize = outputs.len();
                let total: usize = names.len();
                assert(n == before.len() && n < total);
                assert(text::views(names@)[n as int] == names@[n as int]@);
                outputs.push((names[n].clone(), answer));
                assert(fusion::pair_views(outputs@) =~= before.push((names@[n as int]@, said)));
                if n + 1 < total {
                    assert(text::views(names@)[n + 1] == names@[n + 1]@);
                    let next = names[n + 1].clone();
                    let stage = Stage::Generating { names, weights, outputs, state };
                    (Turn { attempt, memory, stage }, Action::Generate(next))
                } else {
                    let fused = text_fuse(outputs.as_slice(), weights.as_slice());
                    let text = fused.clone();
                    let stage = Stage::Judging { fused, state };
                    (Turn { attempt, memory, stage }, Action::Verify(text))
                }
            },
            (Stage::Judging { fused, state }, Event::Judged(passed)) => {
                let file = memory.path("brain");
                let stage = Stage::Saving { fused, passed };
                (Turn { attempt, memory, stage }, Action::Save(file, state))
            },
            (Stage::Saving { fused, passed }, Event::Saved) => {
                if passed || attempt >= self.max_retries {
                    (Turn { attempt, memory, stage: Stage::Done }, Action::Return(fused))
                } else {
                    let file = memory.path("brain");
                    (
                        Turn { attempt: attempt + 1, memory, stage: Stage::Restoring },
                        Action::Load(file),
                    )
                }
            },
            _ => (Turn { attempt, memory, stage: Stage::Done }, Action::Fail),
        }
    }

    /// The names of the selected experts.
    fn selected_names(&self, indices: &Vec<usize>) -> (names: Vec<String>)
        requires
            forall|m: int|
                0 <= m < indices@.len() ==> (#[trigger] indices@[m]) < self.pool().len(),
        ensures
            text::views(names@) == names_at(self.pool(), indices@),
    {
        let n: usize = indices.len();
        let mut names: Vec<String> = Vec::new();
        let mut m: usize = 0;
        while m < n
            invariant
                m <= n,
                n == indices@.len(),
                names@.len() == m,
                forall|l: int|
                    0 <= l < indices@.len() ==> (#[trigger] indices@[l]) < self.pool().len(),
                forall|l: int|
                    0 <= l < m ==> (#[trigger] names@[l])@ == self.pool()[indices@[l] as int],
            decreases n - m,
        {
            let i: usize = indices[m];
            names.push(self.config.experts[i].name.clone());
            m = m + 1;
        }
        assert(text::views(names@) =~= names_at(self.pool(), indices@));
        names
    }
}

/// The answer of a turn whose attempts come to these texts, each with the critic's
/// word on it, where `judging` is the turn as it waits for the word on attempt
/// `judging.attempt`; none while the turn goes on.
pub open spec fn answer(
    judging: TurnView,
    pool: Seq<Seq<char>>,
    max_retries: nat,
    attempts: Seq<(Seq<char>, bool)>,
) -> Option<Seq<char>>
    decreases attempts.len() - judging.attempt,
{
    if judging.attempt >= attempts.len() {
        None
    } else {
        let passed = attempts[judging.attempt as int].1;
        let saving = judging.after(pool, max_retries, Event::Judged(passed)).0;
        let (next, action) = saving.after(pool, max_retries, Event::Saved);
        match action {
            ActionView::Return(s) => Some(s),
            _ => if next.attempt == judging.attempt + 1 && next.attempt < attempts.len() {
                let fused = attempts[next.attempt as int].0;
                answer(at_judging(next, fused), pool, max_retries, attempts)
            } else {
                None
            },
        }
    }
}

/// A turn whose attempt has come to a text that the critic is to judge.
pub open spec fn at_judging(turn: TurnView, fused: Seq<char>) -> TurnView {
    TurnView { stage: StageView::Judging { fused, state: Seq::empty() }, ..turn }
}

/// A turn answers with the first text that the critic passes, or else, as best
/// effort, with that of its last attempt. It never takes more than `max_retries`
/// attempts besides the first.
pub proof fn turn_answers_with_the_first_pass(
    turn: TurnView,
    pool: Seq<Seq<char>>,
    max_retries: nat,
    attempts: Seq<(Seq<char>, bool)>,
    k: nat,
)
    requires
        turn.attempt == 0,
        k < attempts.len(),
        k <= max_retries,
        forall|j: int| 0 <= j < k ==> !(#[trigger] attempts[j]).1,
        attempts[k as int].1 || k == max_retries,
    ensures
        answer(at_judging(turn, attempts[0].0), pool, max_retries, attempts) == Some(
            attempts[k as int].0,
        ),
{
    lemma_answer_from(turn, pool, max_retries, attempts, k);
}

proof fn lemma_answer_from(
    turn: TurnView,
    pool: Seq<Seq<char>>,
    max_retries: nat,
    attempts: Seq<(Seq<char>, bool)>,
    k: nat,
)
    requires
        turn.attempt <= k < attempts.len(),
        k <= max_retries,
        forall|j: int| 0 <= j < k ==> !(#[trigger] attempts[j]).1,
        attempts[k as int].1 || k == max_retries,
    ensures
        answer(
            at_judging(turn, attempts[turn.attempt as int].0),
            pool,
            max_retries,
            attempts,
        ) == Some(attempts[k as int].0),
    decreases k - turn.attempt,
{
    let from = turn.attempt;
    let judging = at_judging(turn, attempts[from as int].0);
    let passed = attempts[from as int].1;
    let saving = judging.after(pool, max_retries, Event::Judged(passed)).0;
    let next = saving.after(pool, max_retries, Event::Saved).0;
    if from < k {
        assert(!attempts[from as int].1);
        lemma_answer_from(next, pool, max_retries, attempts, k);
    }
}

/// A turn after the experts gave these answers, one after the other.
pub open spec fn told(
    turn: TurnView,
    pool: Seq<Seq<char>>,
    max_retries: nat,
    answers: Seq<String>,
) -> TurnView
    decreases answers.len(),
{
    if answers.len() == 0 {
        turn
    } else {
        told(turn, pool, max_retries, answers.drop_last()).after(
            pool,
            max_retries,
            Event::Generated(answers.last()),
        ).0
    }
}

/// The first `n` answers with the names of the experts that gave them.
pub open spec fn named_answers(names: Seq<Seq<char>>, answers: Seq<String>, n: nat) -> Seq<
    (Seq<char>, Seq<char>),
> {
    Seq::new(n, |i: int| (names[i], answers[i]@))
}

/// An attempt asks every selected expert once, in the order of selection, and the
/// critic judges the fusion of all their answers. Then, whatever the critic says, the
/// state that routing came to is saved as the session's.
pub proof fn attempt_fuses_every_answer(
    turn: TurnView,
    pool: Seq<Seq<char>>,
    max_retries: nat,
    names: Seq<Seq<char>>,
    weights: Seq<Seq<char>>,
    state: Seq<u8>,
    answers: Seq<String>,
    passed: bool,
)
    requires
        turn.stage == (StageView::Generating { names, weights, outputs: Seq::empty(), state }),
        names.len() > 0,
        answers.len() == names.len(),
    ensures
        told(turn, pool, max_retries, answers) == (TurnView {
            stage: StageView::Judging {
                fused: fusion::fused(
                    Seq::new(names.len(), |i: int| (names[i], answers[i]@)),
                    weights,
                ),
                state,
            },
            ..turn
        }),
        told(turn, pool, max_retries, answers).after(pool, max_retries, Event::Judged(passed)).1
            == ActionView::Save(turn.dir, brain_file(turn.session), state),
{
    let n = names.len();
    let before = answers.drop_last();
    lemma_told(turn, pool, max_retries, names, weights, state, before);
    assert(named_answers(names, before, (n - 1) as nat).push((names[n - 1], answers.last()@))
        =~= named_answers(names, answers, n));
}

proof fn lemma_told(
    turn: TurnView,
    pool: Seq<Seq<char>>,
    max_retries: nat,
    names: Seq<Seq<char>>,
    weights: Seq<Seq<char>>,
    state: Seq<u8>,
    answers: Seq<String>,
)
    requires
        turn.stage == (StageView::Generating { names, weights, outputs: Seq::empty(), state }),
        answers.len() < names.len(),
    ensures
        told(turn, pool, max_retries, answers) == (TurnView {
            stage: StageView::Generating {
                names,
                weights,
                outputs: named_answers(names, answers, answers.len()),
                state,
            },
            ..turn
        }),
    decreases answers.len(),
{
    let n = answers.len();
    if n == 0 {
        assert(named_answers(names, answers, 0) =~= Seq::empty());
    } else {
        let before = answers.drop_last();
        lemma_told(turn, pool, max_retries, names, weights, state, before);
        assert(named_answers(names, before, (n - 1) as nat).push((names[n - 1], answers.last()@))
            =~= named_answers(names, answers, n));
    }
}

/// A turn touches only its own session's state. It routes only right after reading
/// it, and with what was read; it writes only right after the critic's word, and what
/// routing came to; and it answers only when that is written.
pub proof fn turn_reads_before_routing_and_saves_after_judging(
    turn: TurnView,
    pool: Seq<Seq<char>>,
    max_retries: nat,
    event: Event,
)
    ensures
        ({
            let (next, action) = turn.after(pool, max_retries, event);
            &&& next.session == turn.session && next.dir == turn.dir
            &&& action matches ActionView::Load(dir, file) ==> dir == turn.dir && file
                == brain_file(turn.session) && next.stage is Restoring
            &&& next.stage is Restoring ==> action is Load
            &&& action matches ActionView::Route(prior) ==> turn.stage is Restoring && (
            event matches Event::Restored(state) && prior == prior_state(state@))
            &&& next.stage is Routing ==> action is Route
            &&& action matches ActionView::Save(dir, file, saved) ==> dir == turn.dir && file
                == brain_file(turn.session) && event is Judged && (
            turn.stage matches StageView::Judging { state, .. } && saved == state)
            &&& action is Return ==> turn.stage is Saving && event is Saved
        }),
{
}

/// Turns of different sessions read and write different files.
pub proof fn sessions_keep_their_own_state(a: Seq<char>, b: Seq<char>)
    requires
        a != b,
    ensures
        brain_file(a) != brain_file(b),
{
    context::sessions_are_isolated(a, b, "brain"@);
}

/// Whatever experts are selected from a distribution over the pool, a turn that is
/// routing can go on with them.
pub proof fn routing_fits_the_pool(
    turn: TurnView,
    pool: Seq<Seq<char>>,
    probs: Seq<Score>,
    entropy: Score,
    k_max: nat,
    min_weight: Score,
    selected: GateOutput,
    weights: Vec<String>,
    state: Vec<u8>,
)
    requires
        turn.stage is Routing,
        pool.len() > 0,
        probs.len() == pool.len(),
        gate::is_gate_output(probs, entropy, k_max, min_weight, selected),
        weights@.len() == selected.k,
    ensures
        turn.expects(pool, Event::Routed { gate: selected, weights, state }),
{
    gate::gate_keeps_its_bounds(probs, entropy, k_max, min_weight, selected);
}

/// An attempt asks one expert at least and `k_max` at most (one, where that is
/// zero), when its experts are selected from a distribution over the pool.
pub proof fn attempt_asks_at_most_k_max(
    turn: TurnView,
    pool: Seq<Seq<char>>,
    max_retries: nat,
    probs: Seq<Score>,
    entropy: Score,
    k_max: nat,
    min_weight: Score,
    selected: GateOutput,
    weights: Vec<String>,
    state: Vec<u8>,
)
    requires
        turn.stage is Routing,
        pool.len() > 0,
        probs.len() == pool.len(),
        gate::is_gate_output(probs, entropy, k_max, min_weight, selected),
        weights@.len() == selected.k,
    ensures
        turn.after(pool, max_retries, Event::Routed { gate: selected, weights, state }).0.stage matches
            StageView::Generating { names, .. } && 1 <= names.len() && names.len() <= if k_max
            == 0 {
            1
        } else {
            k_max
        },
{
    gate::gate_keeps_its_bounds(probs, entropy, k_max, min_weight, selected);
}

/// How many kinds of work are left in an attempt.
pub open spec fn steps_left(turn: TurnView) -> nat {
    match turn.stage {
        StageView::Restoring => 5,
        StageView::Routing => 4,
        StageView::Generating { .. } => 3,
        StageView::Judging { .. } => 2,
        StageView::Saving { .. } => 1,
        StageView::Done => 0,
    }
}

/// A turn makes progress with every event that it waits for, so it ends.
pub proof fn turn_makes_progress(
    turn: TurnView,
    pool: Seq<Seq<char>>,
    max_retries: nat,
    event: Event,
)
    requires
        turn.wf(pool, max_retries),
        turn.expects(pool, event),
    ensures
        ({
            let next = turn.after(pool, max_retries, event).0;
            &&& next.wf(pool, max_retries)
            &&& {
                ||| next.attempt > turn.attempt
                ||| next.attempt == turn.attempt && steps_left(next) < steps_left(turn)
                ||| {
                    &&& next.attempt == turn.attempt
                    &&& turn.stage matches StageView::Generating { names, outputs, .. }
                    && next.stage matches StageView::Generating {
                        names: same,
                        outputs: more,
                        ..
                    } && same == names && outputs.len() < more.len() && more.len() < names.len()
                }
            }
        }),
{
    lemma_after_keeps_wf(turn, pool, max_retries, event);
}

proof fn lemma_after_keeps_wf(
    turn: TurnView,
    pool: Seq<Seq<char>>,
    max_retries: nat,
    event: Event,
)
    requires
        turn.wf(pool, max_retries),
        turn.expects(pool, event),
    ensures
        turn.after(pool, max_retries, event).0.wf(pool, max_retries),
{
    match (turn.stage, event) {
        (StageView::Routing, Event::Routed { gate, .. }) => {
            let indices = gate.expert_indices@;
            let names = names_at(pool, indices);
            assert forall|i: int| 0 <= i < names.len() implies pool.contains(
                #[trigger] names[i],
            ) by {
                assert(indices[i] < pool.len());
            }
        },
        _ => {},
    }
}

/// Only experts of the pool are ever asked.
pub proof fn only_experts_of_the_pool_are_asked(
    turn: TurnView,
    pool: Seq<Seq<char>>,
    max_retries: nat,
    event: Event,
)
    requires
        turn.wf(pool, max_retries),
        turn.expects(pool, event),
    ensures
        turn.after(pool, max_retries, event).1 matches ActionView::Generate(name) ==> pool.contains(
            name,
        ),
{
    lemma_after_keeps_wf(turn, pool, max_retries, event);
}

/// The pool holds only experts whose checkpoint is on disk, and all of them.
pub proof fn served_experts_are_on_disk(
    experts: Seq<config::ExpertConfig>,
    on_disk: Seq<bool>,
    name: Seq<char>,
)
    requires
        on_disk.len() == experts.len(),
    ensures
        pool_of(config::kept(experts, on_disk)).contains(name) <==> exists|i: int|
            0 <= i < experts.len() && on_disk[i] && (#[trigger] experts[i]).name@ == name,
{
    let present = config::kept(experts, on_disk);
    if pool_of(present).contains(name) {
        let k = choose|k: int| 0 <= k < present.len() && pool_of(present)[k] == name;
        config::filtering_keeps_exactly_the_present(experts, on_disk, present[k]);
        assert(present.contains(present[k]));
    }
    if exists|i: int|
        0 <= i < experts.len() && on_disk[i] && (#[trigger] experts[i]).name@ == name {
        let i = choose|i: int|
            0 <= i < experts.len() && on_disk[i] && (#[trigger] experts[i]).name@ == name;
        config::filtering_keeps_exactly_the_present(experts, on_disk, experts[i]);
        let k = choose|k: int| 0 <= k < present.len() && present[k] == experts[i];
        assert(pool_of(present)[k] == name);
    }
}

/// A failed action ends the turn at once: it is reported, not tried again, and
/// nothing is done any more, so nothing is written either.
pub proof fn failure_ends_the_turn(
    turn: TurnView,
    pool: Seq<Seq<char>>,
    max_retries: nat,
    event: Event,
)
    ensures
        turn.after(pool, max_retries, Event::Failed) == (
            TurnView { stage: StageView::Done, ..turn },
            ActionView::Fail,
        ),
        !(TurnView { stage: StageView::Done, ..turn }).expects(pool, event),
{
}

/// A turn asks exactly the experts that were selected: as many as there are indices, in
/// their order, each the one of the pool at its index, the first of them at once.
pub proof fn turn_asks_the_selected_experts(
    turn: TurnView,
    pool: Seq<Seq<char>>,
    max_retries: nat,
    selected: GateOutput,
    weights: Vec<String>,
    state: Vec<u8>,
)
    requires
        turn.stage is Routing,
        turn.expects(pool, Event::Routed { gate: selected, weights, state }),
    ensures
        ({
            let (next, action) = turn.after(
                pool,
                max_retries,
                Event::Routed { gate: selected, weights, state },
            );
            let indices = selected.expert_indices@;
            &&& action == ActionView::Generate(pool[indices[0] as int])
            &&& next.attempt == turn.attempt
            &&& next.stage matches StageView::Generating {
                names,
                weights: shown,
                outputs,
                state: held,
            } && {
                &&& names.len() == indices.len()
                &&& forall|m: int|
                    0 <= m < indices.len() ==> #[trigger] names[m] == pool[indices[m] as int]
                &&& shown.len() == weights@.len()
                &&& forall|m: int| 0 <= m < shown.len() ==> #[trigger] shown[m] == weights@[m]@
                &&& outputs.len() == 0
                &&& held == state@
            }
        }),
{
}

/// The pool is the experts' names, one for each, in their order.
pub proof fn pool_names_every_expert(experts: Seq<config::ExpertConfig>, i: int)
    requires
        0 <= i < experts.len(),
    ensures
        pool_of(experts).len() == experts.len(),
        pool_of(experts)[i] == experts[i].name@,
{
}

/// Every answer is kept under the name of the expert that gave it, behind those before
/// it. While experts are left the next one is asked; after the last one the critic is
/// shown one text, which is the answer itself where a single expert was asked.
pub proof fn answers_are_gathered_in_order(
    turn: TurnView,
    pool: Seq<Seq<char>>,
    max_retries: nat,
    names: Seq<Seq<char>>,
    weights: Seq<Seq<char>>,
    outputs: Seq<(Seq<char>, Seq<char>)>,
    state: Seq<u8>,
    given: String,
)
    requires
        turn.stage == (StageView::Generating { names, weights, outputs, state }),
        outputs.len() < names.len(),
    ensures
        ({
            let n = outputs.len() as int;
            let (next, action) = turn.after(pool, max_retries, Event::Generated(given));
            &&& next.attempt == turn.attempt
            &&& n + 1 < names.len() ==> {
                &&& action == ActionView::Generate(names[n + 1])
                &&& next.stage == (StageView::Generating {
                    names,
                    weights,
                    outputs: outputs.push((names[n], given@)),
                    state,
                })
            }
            &&& n + 1 == names.len() ==> (action matches ActionView::Verify(shown) && next.stage
                == (StageView::Judging { fused: shown, state }) && shown == fusion::fused(
                outputs.push((names[n], given@)),
                weights,
            ))
            &&& names.len() == 1 ==> action == ActionView::Verify(given@)
        }),
{
}

/// The file of a session's state: its name starts with the session and ends with the
/// key of routing, and the directory is that of the turn.
pub proof fn state_file_of_a_turn(turn: TurnView)
    ensures
        turn.load() == ActionView::Load(
            turn.dir,
            turn.session + "_"@ + "brain"@ + ".llama-state"@,
        ),
        brain_file(turn.session) == turn.session + "_"@ + "brain"@ + ".llama-state"@,
{
}

/// What was read goes into routing as it is; nothing does where it was empty.
pub proof fn routing_gets_what_was_read(
    turn: TurnView,
    pool: Seq<Seq<char>>,
    max_retries: nat,
    state: Vec<u8>,
)
    requires
        turn.stage is Restoring,
    ensures
        ({
            let (next, action) = turn.after(pool, max_retries, Event::Restored(state));
            &&& next == (TurnView { stage: StageView::Routing, ..turn })
            &&& state@.len() == 0 ==> action == ActionView::Route(None)
            &&& state@.len() > 0 ==> action == ActionView::Route(Some(state@))
        }),
{
}

/// The critic's word on a text is kept until the state is saved. Then a text that
/// passed is the answer, and so is one of the last attempt allowed; any other is dropped
/// and the prompt is tried again, one attempt further on.
pub proof fn word_of_the_critic_decides(
    turn: TurnView,
    pool: Seq<Seq<char>>,
    max_retries: nat,
    fused: Seq<char>,
    state: Seq<u8>,
    passed: bool,
)
    requires
        turn.stage == (StageView::Judging { fused, state }),
        turn.attempt <= max_retries,
    ensures
        ({
            let (saving, save) = turn.after(pool, max_retries, Event::Judged(passed));
            let (next, action) = saving.after(pool, max_retries, Event::Saved);
            let file = turn.session + "_"@ + "brain"@ + ".llama-state"@;
            &&& save == ActionView::Save(turn.dir, file, state)
            &&& passed || turn.attempt == max_retries ==> action == ActionView::Return(fused)
                && next.stage is Done
            &&& !passed && turn.attempt < max_retries ==> {
                &&& action == ActionView::Load(turn.dir, file)
                &&& next.stage is Restoring
                &&& next.attempt == turn.attempt + 1
                &&& next.session == turn.session
            }
        }),
{
}

/// What a turn waits for: whatever was read, answered or judged is taken in, the end of
/// saving too, and a failure at any time before the turn is done.
pub proof fn turn_takes_in_every_outcome(
    turn: TurnView,
    pool: Seq<Seq<char>>,
    state: Vec<u8>,
    given: String,
    passed: bool,
)
    ensures
        turn.stage is Restoring ==> turn.expects(pool, Event::Restored(state)),
        turn.stage is Generating ==> turn.expects(pool, Event::Generated(given)),
        turn.stage is Judging ==> turn.expects(pool, Event::Judged(passed)),
        turn.stage is Saving ==> turn.expects(pool, Event::Saved),
        turn.expects(pool, Event::Failed) <==> !(turn.stage is Done),
{
}

/// An action is viewed as what it is, with its own characters and bytes.
pub proof fn actions_are_viewed_as_they_are(action: Action)
    ensures
        action matches Action::Load(p) ==> action@ == ActionView::Load(p.dir@, p.file_name@),
        action matches Action::Route(Some(state)) ==> action@ == ActionView::Route(Some(state@)),
        action matches Action::Route(None) ==> action@ == ActionView::Route(None),
        action matches Action::Generate(name) ==> action@ == ActionView::Generate(name@),
        action matches Action::Verify(s) ==> action@ == ActionView::Verify(s@),
        action matches Action::Save(p, state) ==> action@ == ActionView::Save(
            p.dir@,
            p.file_name@,
            state@,
        ),
        action matches Action::Return(s) ==> action@ == ActionView::Return(s@),
        action is Fail ==> action@ == ActionView::Fail,
{
}

}
