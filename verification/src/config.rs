//! The expert pool and the settings of the engine.

use crate::score::{Score, Temperature};
use crate::text;
use vstd::prelude::*;
use vstd::string::*;

verus! {

/// Whether an expert runs on the GPU or on the CPU.
#[derive(Debug, Clone, Copy, PartialEq, Eq, Structural)]
pub enum LoadMode {
    Gpu,
    Cpu,
}

/// One expert of the pool.
#[derive(Debug)]
pub struct ExpertConfig {
    pub name: String,
    /// Hub repository of the model, kept as a record of where it comes from.
    pub model_id: String,
    /// Path of the GGUF checkpoint that is loaded.
    pub gguf_path: String,
    /// `Cpu` saves video memory and costs speed; it suits experts that are
    /// rarely used.
    pub load_mode: LoadMode,
}

/// What an expert's configuration says.
pub struct ExpertView {
    pub name: Seq<char>,
    pub model_id: Seq<char>,
    pub gguf_path: Seq<char>,
    pub load_mode: LoadMode,
}

impl View for ExpertConfig {
    type V = ExpertView;

    open spec fn view(&self) -> ExpertView {
        ExpertView {
            name: self.name@,
            model_id: self.model_id@,
            gguf_path: self.gguf_path@,
            load_mode: self.load_mode,
        }
    }
}

impl Clone for ExpertConfig {
    fn clone(&self) -> (r: Self)
        ensures
            r == *self,
    {
        ExpertConfig {
            name: self.name.clone(),
            model_id: self.model_id.clone(),
            gguf_path: self.gguf_path.clone(),
            load_mode: self.load_mode,
        }
    }
}

impl ExpertConfig {
    /// An expert on the GPU.
    pub fn new(name: &str, model_id: &str, gguf_path: &str) -> (e: Self)
        ensures
            e@ == (ExpertView {
                name: name@,
                model_id: model_id@,
                gguf_path: gguf_path@,
                load_mode: LoadMode::Gpu,
            }),
    {
        ExpertConfig {
            name: name.to_string(),
            model_id: model_id.to_string(),
            gguf_path: gguf_path.to_string(),
            load_mode: LoadMode::Gpu,
        }
    }
}

/// The settings of the engine.
#[derive(Debug)]
pub struct MoEConfig {
    /// The zero-shot classifier that scores prompts, and its labels.
    pub brain_model_id: String,
    pub brain_labels: Vec<String>,
    pub brain_threshold: Score,
    pub critic_model_id: String,
    /// The expert pool; every entry is a full pretrained checkpoint.
    pub experts: Vec<ExpertConfig>,
    /// How many experts may run for one prompt.
    pub k_max: usize,
    pub confidence_threshold: Score,
    pub critic_threshold: Score,
    pub llama_server_exe: String,
    pub llama_server_base_port: u16,
    /// Layers offloaded to the GPU; the server caps a value that is too high.
    pub n_gpu_layers: u32,
    pub adapters_dir: String,
    pub warm_cache_size: usize,
    pub sessions_dir: String,
    pub max_new_tokens: usize,
    pub temperature: Temperature,
}

impl Clone for MoEConfig {
    fn clone(&self) -> (r: Self)
        ensures
            r.brain_labels@ == self.brain_labels@,
            r.experts@ == self.experts@,
            r == (MoEConfig { brain_labels: r.brain_labels, experts: r.experts, ..*self }),
    {
        let brain_labels = self.brain_labels.clone();
        let experts = self.experts.clone();
        assert(brain_labels@ =~= self.brain_labels@);
        assert(experts@ =~= self.experts@);
        MoEConfig {
            brain_model_id: self.brain_model_id.clone(),
            brain_labels,
            brain_threshold: self.brain_threshold,
            critic_model_id: self.critic_model_id.clone(),
            experts,
            k_max: self.k_max,
            confidence_threshold: self.confidence_threshold,
            critic_threshold: self.critic_threshold,
            llama_server_exe: self.llama_server_exe.clone(),
            llama_server_base_port: self.llama_server_base_port,
            n_gpu_layers: self.n_gpu_layers,
            adapters_dir: self.adapters_dir.clone(),
            warm_cache_size: self.warm_cache_size,
            sessions_dir: self.sessions_dir.clone(),
            max_new_tokens: self.max_new_tokens,
            temperature: self.temperature,
        }
    }
}

/// Why a lookup in the pool failed.
#[derive(Debug)]
pub enum ConfigError {
    /// No expert has this name.
    UnknownExpert(String),
}

impl ConfigError {
    /// The message for a person.
    pub fn message(&self) -> (m: String)
        ensures
            match *self {
                ConfigError::UnknownExpert(name) => m@ == "Unknown expert: "@ + name@,
            },
    {
        match self {
            ConfigError::UnknownExpert(name) => text::concat2("Unknown expert: ", name.as_str()),
        }
    }
}

/// What the configurations of a pool say.
pub open spec fn expert_views(experts: Seq<ExpertConfig>) -> Seq<ExpertView> {
    experts.map_values(|e: ExpertConfig| e@)
}

/// An expert on the GPU.
pub open spec fn gpu_expert(name: &str, model_id: &str, gguf_path: &str) -> ExpertView {
    ExpertView {
        name: name@,
        model_id: model_id@,
        gguf_path: gguf_path@,
        load_mode: LoadMode::Gpu,
    }
}

/// The default pool.
pub open spec fn default_experts() -> Seq<ExpertView> {
    seq![
        gpu_expert(
            "coding",
            "mistralai/Mamba-Codestral-7B-v0.1",
            "../models/codestral-mamba-q4_k_m.gguf",
        ),
        gpu_expert(
            "math",
            "xl-zhao/PromptCoT-Mamba-Math-7B",
            "../models/promptcot-math-q4_k_m.gguf",
        ),
        gpu_expert(
            "reasoning",
            "v3dqnt/mamba-2.8b-instruct-openhermes-st",
            "../models/openhermes-2.8b-q4_k_m.gguf",
        ),
        gpu_expert(
            "general",
            "v3dqnt/mamba-2.8b-instruct-openhermes-st",
            "../models/openhermes-2.8b-q4_k_m.gguf",
        ),
        ExpertView {
            name: "creative"@,
            model_id: "havenhq/mamba-chat"@,
            gguf_path: "../models/mamba-chat-q4_k_m.gguf"@,
            load_mode: LoadMode::Cpu,
        },
    ]
}

/// An expert of the plumbing pool: one of two small checkpoints that are quick
/// to fetch, on the GPU.
pub open spec fn stub_expert(e: ExpertView) -> ExpertView {
    ExpertView {
        name: e.name,
        model_id: if e.name == "coding"@ {
            "empero-ai/Qwythos-9B-v2-GGUF"@
        } else {
            "openbmb/MiniCPM5-1B-GGUF"@
        },
        gguf_path: if e.name == "coding"@ {
            "../models/qwythos-9b-q4_k_m.gguf"@
        } else {
            "../models/minicpm5-1b-q4_k_m.gguf"@
        },
        load_mode: LoadMode::Gpu,
    }
}

/// The entries of `s` whose flag is set, in order.
pub open spec fn kept<T>(s: Seq<T>, flags: Seq<bool>) -> Seq<T>
    decreases s.len(),
{
    if s.len() == 0 {
        Seq::empty()
    } else {
        let before = kept(s.drop_last(), flags);
        if flags[s.len() - 1] {
            before.push(s.last())
        } else {
            before
        }
    }
}

impl MoEConfig {
    /// Every setting besides the pool has its default.
    pub open spec fn has_default_settings(self) -> bool {
        &&& self.brain_model_id@ == "facebook/bart-large-mnli"@
        &&& text::views(self.brain_labels@) == seq![
            "coding"@,
            "math"@,
            "reasoning"@,
            "creative"@,
            "general"@,
        ]
        // 0.65, the threshold tuned when the data was labelled
        &&& self.brain_threshold == Score { bits: 0x3F26_6666 }
        &&& self.critic_model_id@ == "state-spaces/mamba-130m-hf"@
        // one expert at a time fits the video memory
        &&& self.k_max == 1
        // 0.70
        &&& self.confidence_threshold == Score { bits: 0x3F33_3333 }
        // 0.75
        &&& self.critic_threshold == Score { bits: 0x3F40_0000 }
        &&& self.llama_server_exe@ == "../llama.cpp/llama-server.exe"@
        &&& self.llama_server_base_port == 8100
        &&& self.n_gpu_layers == 999
        &&& self.adapters_dir@ == "./adapters"@
        &&& self.warm_cache_size == 3
        &&& self.sessions_dir@ == "./.sessions"@
        &&& self.max_new_tokens == 2048
        // 0.7
        &&& self.temperature == Temperature { bits: 0x3FE6_6666_6666_6666 }
    }
}

/// The default pool.
fn default_pool() -> (experts: Vec<ExpertConfig>)
    ensures
        expert_views(experts@) == default_experts(),
{
    let mut experts: Vec<ExpertConfig> = Vec::new();
    experts.push(
        ExpertConfig::new(
            "coding",
            "mistralai/Mamba-Codestral-7B-v0.1",
            "../models/codestral-mamba-q4_k_m.gguf",
        ),
    );
    experts.push(
        ExpertConfig::new(
            "math",
            "xl-zhao/PromptCoT-Mamba-Math-7B",
            "../models/promptcot-math-q4_k_m.gguf",
        ),
    );
    experts.push(
        ExpertConfig::new(
            "reasoning",
            "v3dqnt/mamba-2.8b-instruct-openhermes-st",
            "../models/openhermes-2.8b-q4_k_m.gguf",
        ),
    );
    experts.push(
        ExpertConfig::new(
            "general",
            "v3dqnt/mamba-2.8b-instruct-openhermes-st",
            "../models/openhermes-2.8b-q4_k_m.gguf",
        ),
    );
    experts.push(
        ExpertConfig {
            name: "creative".to_string(),
            model_id: "havenhq/mamba-chat".to_string(),
            gguf_path: "../models/mamba-chat-q4_k_m.gguf".to_string(),
            load_mode: LoadMode::Cpu,
        },
    );
    assert(expert_views(experts@) =~= default_experts());
    experts
}

impl Default for MoEConfig {
    fn default() -> (c: Self)
        ensures
            c.has_default_settings(),
            expert_views(c.experts@) == default_experts(),
    {
        let mut brain_labels: Vec<String> = Vec::new();
        brain_labels.push("coding".to_string());
        brain_labels.push("math".to_string());
        brain_labels.push("reasoning".to_string());
        brain_labels.push("creative".to_string());
        brain_labels.push("general".to_string());
        assert(text::views(brain_labels@) =~= seq![
            "coding"@,
            "math"@,
            "reasoning"@,
            "creative"@,
            "general"@,
        ]);
        MoEConfig {
            brain_model_id: "facebook/bart-large-mnli".to_string(),
            brain_labels,
            brain_threshold: Score { bits: 0x3F26_6666 },
            critic_model_id: "state-spaces/mamba-130m-hf".to_string(),
            experts: default_pool(),
            k_max: 1,
            confidence_threshold: Score { bits: 0x3F33_3333 },
            critic_threshold: Score { bits: 0x3F40_0000 },
            llama_server_exe: "../llama.cpp/llama-server.exe".to_string(),
            llama_server_base_port: 8100,
            n_gpu_layers: 999,
            adapters_dir: "./adapters".to_string(),
            warm_cache_size: 3,
            sessions_dir: "./.sessions".to_string(),
            max_new_tokens: 2048,
            temperature: Temperature { bits: 0x3FE6_6666_6666_6666 },
        }
    }
}

impl MoEConfig {
    /// How many experts the pool holds.
    pub fn n_experts(&self) -> (n: usize)
        ensures
            n == self.experts@.len(),
    {
        self.experts.len()
    }

    /// The names of the experts, in pool order.
    pub fn expert_names(&self) -> (names: Vec<&str>)
        ensures
            names@.len() == self.experts@.len(),
            forall|i: int|
                0 <= i < names@.len() ==> (#[trigger] names@[i])@ == self.experts@[i].name@,
    {
        let n: usize = self.experts.len();
        let mut names: Vec<&str> = Vec::new();
        let mut i: usize = 0;
        while i < n
            invariant
                i <= n,
                n == self.experts@.len(),
                names@.len() == i,
                forall|j: int|
                    0 <= j < i ==> (#[trigger] names@[j])@ == self.experts@[j].name@,
            decreases n - i,
        {
            names.push(self.experts[i].name.as_str());
            i = i + 1;
        }
        names
    }

    /// The first expert with this name.
    pub fn get_expert(&self, name: &str) -> (r: Result<&ExpertConfig, ConfigError>)
        ensures
            match r {
                Ok(e) => exists|i: int|
                    {
                        &&& 0 <= i < self.experts@.len()
                        &&& *e == #[trigger] self.experts@[i]
                        &&& e.name@ == name@
                        &&& forall|j: int| 0 <= j < i ==> self.experts@[j].name@ != name@
                    },
                Err(ConfigError::UnknownExpert(asked)) => {
                    &&& asked@ == name@
                    &&& forall|j: int|
                        0 <= j < self.experts@.len() ==> (#[trigger] self.experts@[j]).name@
                            != name@
                },
            },
    {
        let n: usize = self.experts.len();
        let mut i: usize = 0;
        while i < n
            invariant
                i <= n,
                n == self.experts@.len(),
                forall|j: int|
                    0 <= j < i ==> (#[trigger] self.experts@[j]).name@ != name@,
            decreases n - i,
        {
            if text::str_eq(self.experts[i].name.as_str(), name) {
                return Ok(&self.experts[i]);
            }
            i = i + 1;
        }
        Err(ConfigError::UnknownExpert(name.to_string()))
    }

    /// A pool for trying out the plumbing: ordinary transformers that are small
    /// and quick to fetch stand in for the real experts.
    pub fn testing_stub() -> (c: Self)
        ensures
            c.has_default_settings(),
            expert_views(c.experts@) == default_experts().map_values(
                |e: ExpertView| stub_expert(e),
            ),
    {
        let mut c = MoEConfig::default();
        let n: usize = c.experts.len();
        let mut experts: Vec<ExpertConfig> = Vec::new();
        let mut i: usize = 0;
        while i < n
            invariant
                i <= n,
                n == c.experts@.len(),
                c.has_default_settings(),
                expert_views(c.experts@) == default_experts(),
                experts@.len() == i,
                forall|j: int|
                    0 <= j < i ==> (#[trigger] experts@[j])@ == stub_expert(c.experts@[j]@),
            decreases n - i,
        {
            let name = c.experts[i].name.clone();
            let coding: bool = text::str_eq(name.as_str(), "coding");
            let (model_id, gguf_path) = if coding {
                ("empero-ai/Qwythos-9B-v2-GGUF", "../models/qwythos-9b-q4_k_m.gguf")
            } else {
                ("openbmb/MiniCPM5-1B-GGUF", "../models/minicpm5-1b-q4_k_m.gguf")
            };
            experts.push(
                ExpertConfig {
                    name,
                    model_id: model_id.to_string(),
                    gguf_path: gguf_path.to_string(),
                    load_mode: LoadMode::Gpu,
                },
            );
            i = i + 1;
        }
        assert(expert_views(experts@) =~= default_experts().map_values(
            |e: ExpertView| stub_expert(e),
        )) by {
            assert forall|j: int| 0 <= j < n implies expert_views(experts@)[j] == stub_expert(
                default_experts()[j],
            ) by {
                assert(expert_views(c.experts@)[j] == c.experts@[j]@);
            }
        }
        c.experts = experts;
        c
    }

    /// Drops the experts whose checkpoint is not on disk, so that no prompt is
    /// routed to one of them. `on_disk` says of each expert whether it is there.
    pub fn filter_to_present_experts(&mut self, on_disk: &[bool])
        requires
            on_disk@.len() == old(self).experts@.len(),
        ensures
            final(self).experts@ == kept(old(self).experts@, on_disk@),
            *final(self) == (MoEConfig { experts: final(self).experts, ..*old(self) }),
    {
        let n: usize = self.experts.len();
        let ghost all = self.experts@;
        let mut seen: usize = 0;
        let mut at: usize = 0;
        assert(all.skip(0) =~= all);
        while seen < n
            invariant
                n == all.len(),
                at <= seen <= n,
                on_disk@.len() == n,
                self.experts@ == kept(all.take(seen as int), on_disk@) + all.skip(seen as int),
                at == kept(all.take(seen as int), on_disk@).len(),
                *self == (MoEConfig { experts: self.experts, ..*old(self) }),
            decreases n - seen,
        {
            assert(all.take(seen + 1).drop_last() =~= all.take(seen as int));
            if on_disk[seen] {
                at = at + 1;
            } else {
                self.experts.remove(at);
            }
            assert(self.experts@ =~= kept(all.take(seen + 1), on_disk@) + all.skip(seen + 1));
            seen = seen + 1;
        }
        assert(all.take(n as int) =~= all);
        assert(self.experts@ =~= kept(all, on_disk@));
    }
}

/// After filtering, an expert is in the pool exactly if it was there with its
/// checkpoint on disk.
pub proof fn filtering_keeps_exactly_the_present<T>(experts: Seq<T>, on_disk: Seq<bool>, e: T)
    requires
        on_disk.len() == experts.len(),
    ensures
        kept(experts, on_disk).contains(e) <==> exists|i: int|
            0 <= i < experts.len() && on_disk[i] && #[trigger] experts[i] == e,
        kept(experts, on_disk).len() <= experts.len(),
{
    lemma_kept_contains(experts, on_disk, e);
}

proof fn lemma_kept_contains<T>(s: Seq<T>, flags: Seq<bool>, e: T)
    requires
        s.len() <= flags.len(),
    ensures
        kept(s, flags).contains(e) <==> exists|i: int|
            0 <= i < s.len() && flags[i] && #[trigger] s[i] == e,
        kept(s, flags).len() <= s.len(),
    decreases s.len(),
{
    if s.len() > 0 {
        let n = s.len() - 1;
        let t = s.drop_last();
        let before = kept(t, flags);
        lemma_kept_contains(t, flags, e);
        if kept(s, flags).contains(e) {
            let k = choose|k: int| 0 <= k < kept(s, flags).len() && kept(s, flags)[k] == e;
            if k < before.len() {
                assert(before[k] == e);
                assert(before.contains(e));
                let i = choose|i: int| 0 <= i < t.len() && flags[i] && #[trigger] t[i] == e;
                assert(s[i] == e);
            } else {
                assert(s[n] == e);
            }
        }
        if exists|i: int| 0 <= i < s.len() && flags[i] && #[trigger] s[i] == e {
            let i = choose|i: int| 0 <= i < s.len() && flags[i] && #[trigger] s[i] == e;
            if i < n {
                assert(t[i] == e);
                let k = choose|k: int| 0 <= k < before.len() && before[k] == e;
                assert(kept(s, flags)[k] == e);
            } else {
                assert(kept(s, flags)[before.len() as int] == e);
            }
        }
    }
}

/// Filtering keeps the order: one expert more adds itself at the end where its
/// checkpoint is there, and changes nothing else.
pub proof fn filtering_keeps_the_order<T>(experts: Seq<T>, on_disk: Seq<bool>, e: T, there: bool)
    requires
        on_disk.len() == experts.len(),
    ensures
        kept(Seq::<T>::empty(), Seq::<bool>::empty()) == Seq::<T>::empty(),
        there ==> kept(experts.push(e), on_disk.push(there)) == kept(experts, on_disk).push(e),
        !there ==> kept(experts.push(e), on_disk.push(there)) == kept(experts, on_disk),
{
    assert(experts.push(e).drop_last() =~= experts);
    lemma_kept_prefix(experts, on_disk, there);
}

proof fn lemma_kept_prefix<T>(s: Seq<T>, flags: Seq<bool>, more: bool)
    requires
        s.len() <= flags.len(),
    ensures
        kept(s, flags.push(more)) == kept(s, flags),
    decreases s.len(),
{
    if s.len() > 0 {
        lemma_kept_prefix(s.drop_last(), flags, more);
    }
}

/// The plumbing pool keeps every name, runs on the GPU, and gives the coding expert one
/// checkpoint and all the others another.
pub proof fn stubs_keep_their_names(e: ExpertView)
    ensures
        stub_expert(e).name == e.name,
        stub_expert(e).load_mode is Gpu,
        e.name == "coding"@ ==> stub_expert(e).model_id == "empero-ai/Qwythos-9B-v2-GGUF"@
            && stub_expert(e).gguf_path == "../models/qwythos-9b-q4_k_m.gguf"@,
        e.name != "coding"@ ==> stub_expert(e).model_id == "openbmb/MiniCPM5-1B-GGUF"@
            && stub_expert(e).gguf_path == "../models/minicpm5-1b-q4_k_m.gguf"@,
{
}

/// A pool is viewed expert by expert, in its order.
pub proof fn expert_views_keep_every_expert(experts: Seq<ExpertConfig>, i: int)
    requires
        0 <= i < experts.len(),
    ensures
        expert_views(experts).len() == experts.len(),
        expert_views(experts)[i].name == experts[i].name@,
        expert_views(experts)[i].model_id == experts[i].model_id@,
        expert_views(experts)[i].gguf_path == experts[i].gguf_path@,
        expert_views(experts)[i].load_mode == experts[i].load_mode,
{
}

/// The default pool: five experts of different names, of which only the last stays off
/// the GPU, and of which the third and the fourth share a checkpoint.
pub proof fn default_pool_has_five_experts(i: int)
    requires
        0 <= i < default_experts().len(),
    ensures
        default_experts().len() == 5,
        default_experts()[i].name == seq![
            "coding"@,
            "math"@,
            "reasoning"@,
            "general"@,
            "creative"@,
        ][i],
        default_experts()[i].model_id == seq![
            "mistralai/Mamba-Codestral-7B-v0.1"@,
            "xl-zhao/PromptCoT-Mamba-Math-7B"@,
            "v3dqnt/mamba-2.8b-instruct-openhermes-st"@,
            "v3dqnt/mamba-2.8b-instruct-openhermes-st"@,
            "havenhq/mamba-chat"@,
        ][i],
        default_experts()[i].gguf_path == seq![
            "../models/codestral-mamba-q4_k_m.gguf"@,
            "../models/promptcot-math-q4_k_m.gguf"@,
            "../models/openhermes-2.8b-q4_k_m.gguf"@,
            "../models/openhermes-2.8b-q4_k_m.gguf"@,
            "../models/mamba-chat-q4_k_m.gguf"@,
        ][i],
        default_experts()[i].load_mode is Cpu <==> i == 4,
{
    assert(i == 0 || i == 1 || i == 2 || i == 3 || i == 4);
}

}
