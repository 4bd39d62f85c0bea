//! Expert router: one persistent server process that serves every expert, loads
//! models on first use and evicts them by itself.
//!
//! This module writes the server's preset file and command line, says where to
//! send requests, and judges the answers. Starting the process and talking to it
//! happen outside.

use crate::config::{ExpertConfig, LoadMode, MoEConfig};
use crate::memory::context::FilePath;
use crate::score::Temperature;
use crate::text;
use vstd::prelude::*;
use vstd::string::*;

verus! {

/// How long to wait for the server to come up, in seconds.
pub const READY_TIMEOUT_SECS: u64 = 60;

/// How long to wait for a completion, in seconds: the first one of an expert
/// includes loading it.
pub const COMPLETION_TIMEOUT_SECS: u64 = 180;

/// The pause between two looks at a server that is not up yet, in milliseconds.
pub const POLL_PAUSE_MILLIS: u64 = 500;

/// The server that serves the experts.
pub struct ExpertRouter {
    base_url: String,
}

/// A request for a completion; `model` names the expert.
#[derive(Debug)]
pub struct CompletionRequest {
    pub model: String,
    pub prompt: String,
    pub max_tokens: usize,
    pub temperature: Temperature,
}

/// Why the preset file cannot be written.
#[derive(Debug)]
pub enum PresetError {
    /// The checkpoint of this expert is not there.
    MissingModel { name: String, gguf_path: String },
}

impl PresetError {
    /// The message for a person.
    pub fn message(&self) -> (m: String)
        ensures
            match *self {
                PresetError::MissingModel { name, gguf_path } => m@ == "expert '"@ + name@
                    + "' GGUF not found at "@ + gguf_path@
                    + " — run the model download/conversion step first"@,
            },
    {
        match self {
            PresetError::MissingModel { name, gguf_path } => {
                let mut m = text::concat3("expert '", name.as_str(), "' GGUF not found at ");
                m.append(gguf_path.as_str());
                m.append(" — run the model download/conversion step first");
                m
            },
        }
    }
}

/// Why a completion has no text.
#[derive(Debug)]
pub enum CompletionError {
    /// The server answered this expert's request without a choice.
    EmptyChoices(String),
}

impl CompletionError {
    /// The message for a person.
    pub fn message(&self) -> (m: String)
        ensures
            match *self {
                CompletionError::EmptyChoices(name) => m@
                    == "empty choices in completion response for '"@ + name@ + "'"@,
            },
    {
        match self {
            CompletionError::EmptyChoices(name) => text::concat3(
                "empty choices in completion response for '",
                name.as_str(),
                "'",
            ),
        }
    }
}

/// What to do while the server comes up.
#[derive(Debug, Clone, Copy, PartialEq, Eq, Structural)]
pub enum WaitStep {
    Ready,
    TimedOut,
    /// Pause for this many milliseconds and look again.
    Pause(u64),
}

/// How many layers go to the GPU: none for a CPU expert, all otherwise.
pub open spec fn gpu_layers(mode: LoadMode) -> nat {
    match mode {
        LoadMode::Gpu => 999,
        LoadMode::Cpu => 0,
    }
}

/// A resolved path without the verbatim prefix that Windows puts before it.
pub open spec fn plain_path(path: Seq<char>) -> Seq<char> {
    if text::has_prefix(path, "\\\\?\\"@) {
        path.skip(4)
    } else {
        path
    }
}

/// What stands before the sections of the experts.
pub open spec fn preset_header() -> Seq<char> {
    "version = 1\n\n[*]\nc = 4096\n\n"@
}

/// The section of an expert whose checkpoint is at `path`.
pub open spec fn preset_section(name: Seq<char>, path: Seq<char>, mode: LoadMode) -> Seq<char> {
    "["@ + name + "]\nmodel = "@ + plain_path(path) + "\nn-gpu-layers = "@ + text::decimal(
        gpu_layers(mode),
    ) + "\n\n"@
}

/// The preset file of the first `n` experts with their resolved paths.
pub open spec fn preset(experts: Seq<ExpertConfig>, paths: Seq<Option<String>>, n: nat) -> Seq<
    char,
>
    decreases n,
{
    if n == 0 {
        preset_header()
    } else {
        let i = n - 1;
        preset(experts, paths, (n - 1) as nat) + preset_section(
            experts[i].name@,
            paths[i].unwrap()@,
            experts[i].load_mode,
        )
    }
}

/// How many layers go to the GPU. The server caps the value by itself where the
/// model has fewer layers or memory runs out.
pub fn ngl_for_load_mode(mode: LoadMode) -> (n: u32)
    ensures
        n == gpu_layers(mode),
{
    match mode {
        LoadMode::Gpu => 999,
        LoadMode::Cpu => 0,
    }
}

/// Builds the preset file: one section for each expert, named by the alias that
/// requests are routed by. `paths` holds the resolved path of each checkpoint,
/// or nothing where it could not be resolved.
pub fn build_preset_ini(experts: &[ExpertConfig], paths: &[Option<String>]) -> (r: Result<
    String,
    PresetError,
>)
    requires
        paths@.len() == experts@.len(),
    ensures
        match r {
            Ok(ini) => {
                &&& forall|i: int| 0 <= i < paths@.len() ==> (#[trigger] paths@[i]) is Some
                &&& ini@ == preset(experts@, paths@, experts@.len())
            },
            Err(PresetError::MissingModel { name, gguf_path }) => exists|i: int|
                {
                    &&& 0 <= i < paths@.len()
                    &&& (#[trigger] paths@[i]) is None
                    &&& forall|j: int| 0 <= j < i ==> (#[trigger] paths@[j]) is Some
                    &&& name@ == experts@[i].name@
                    &&& gguf_path@ == experts@[i].gguf_path@
                },
        },
{
    let n: usize = experts.len();
    let mut ini = "version = 1\n\n[*]\nc = 4096\n\n".to_string();
    let mut i: usize = 0;
    while i < n
        invariant
            i <= n,
            n == experts@.len(),
            n == paths@.len(),
            forall|j: int| 0 <= j < i ==> (#[trigger] paths@[j]) is Some,
            ini@ == preset(experts@, paths@, i as nat),
        decreases n - i,
    {
        match &paths[i] {
            None => {
                return Err(
                    PresetError::MissingModel {
                        name: experts[i].name.clone(),
                        gguf_path: experts[i].gguf_path.clone(),
                    },
                );
            },
            Some(path) => {
                proof {
                    reveal_strlit("\\\\?\\");
                }
                let plain = match text::str_strip_prefix(path.as_str(), "\\\\?\\") {
                    Some(rest) => rest,
                    None => path.as_str(),
                };
                let mut part = text::concat3("[", experts[i].name.as_str(), "]\nmodel = ");
                part.append(plain);
                part.append("\nn-gpu-layers = ");
                part.append(
                    text::to_decimal(ngl_for_load_mode(experts[i].load_mode) as u128).as_str(),
                );
                part.append("\n\n");
                ini.append(part.as_str());
            },
        }
        i = i + 1;
    }
    Ok(ini)
}

/// How many models the server keeps loaded at most.
pub open spec fn models_max(k_max: nat) -> nat {
    if k_max == 0 {
        1
    } else {
        k_max
    }
}

/// The server's command line.
pub open spec fn command_line(config: MoEConfig, preset_path: Seq<char>) -> Seq<Seq<char>> {
    seq![
        "--models-preset"@,
        preset_path,
        "--models-max"@,
        text::decimal(models_max(config.k_max as nat)),
        "--port"@,
        text::decimal(config.llama_server_base_port as nat),
        "--sleep-idle-seconds"@,
        "300"@,
    ]
}

impl ExpertRouter {
    /// The address that requests go to.
    pub closed spec fn address(&self) -> Seq<char> {
        self.base_url@
    }

    /// Where the preset file goes.
    pub fn preset_path(config: &MoEConfig) -> (p: FilePath)
        ensures
            p.dir@ == config.sessions_dir@,
            p.file_name@ == "experts_preset.ini"@,
    {
        FilePath {
            dir: config.sessions_dir.clone(),
            file_name: "experts_preset.ini".to_string(),
        }
    }

    /// The arguments to start the server with. Idle models release their memory
    /// after five minutes.
    pub fn spawn_args(config: &MoEConfig, preset_path: &str) -> (args: Vec<String>)
        ensures
            text::views(args@) == command_line(*config, preset_path@),
    {
        let models: usize = if config.k_max == 0 {
            1
        } else {
            config.k_max
        };
        let mut args: Vec<String> = Vec::new();
        args.push("--models-preset".to_string());
        args.push(preset_path.to_string());
        args.push("--models-max".to_string());
        args.push(text::to_decimal(models as u128));
        args.push("--port".to_string());
        args.push(text::to_decimal(config.llama_server_base_port as u128));
        args.push("--sleep-idle-seconds".to_string());
        args.push("300".to_string());
        assert(text::views(args@) =~= command_line(*config, preset_path@));
        args
    }

    /// The router for a server started with this configuration.
    pub fn spawn(config: &MoEConfig) -> (r: Self)
        ensures
            r.address() == "http://127.0.0.1:"@ + text::decimal(
                config.llama_server_base_port as nat,
            ),
    {
        let port = text::to_decimal(config.llama_server_base_port as u128);
        ExpertRouter { base_url: text::concat2("http://127.0.0.1:", port.as_str()) }
    }

    /// Where to ask whether the server is up.
    pub fn health_url(&self) -> (u: String)
        ensures
            u@ == self.address() + "/health"@,
    {
        text::concat2(self.base_url.as_str(), "/health")
    }

    /// Where to ask for completions.
    pub fn completions_url(&self) -> (u: String)
        ensures
            u@ == self.address() + "/v1/completions"@,
    {
        text::concat2(self.base_url.as_str(), "/v1/completions")
    }

    /// What to do after a look at the server: a server that is up counts, however
    /// long it took; one that is not is waited for until the time is over.
    pub fn wait_until_ready(healthy: bool, elapsed_nanos: u128, timeout_nanos: u128) -> (s:
        WaitStep)
        ensures
            s == if healthy {
                WaitStep::Ready
            } else if elapsed_nanos > timeout_nanos {
                WaitStep::TimedOut
            } else {
                WaitStep::Pause(500)
            },
    {
        if healthy {
            WaitStep::Ready
        } else if elapsed_nanos > timeout_nanos {
            WaitStep::TimedOut
        } else {
            WaitStep::Pause(POLL_PAUSE_MILLIS)
        }
    }

    /// The text of a completion: that of the first choice.
    pub fn generate(expert_name: &str, choices: Vec<String>) -> (r: Result<
        String,
        CompletionError,
    >)
        ensures
            if choices@.len() == 0 {
                r matches Err(CompletionError::EmptyChoices(name)) && name@ == expert_name@
            } else {
                r matches Ok(t) && t == choices@[0]
            },
    {
        if choices.len() == 0 {
            return Err(CompletionError::EmptyChoices(expert_name.to_string()));
        }
        Ok(choices[0].clone())
    }
}

/// Every expert has its section in the preset file, under its own name.
pub proof fn every_expert_has_a_section(
    experts: Seq<ExpertConfig>,
    paths: Seq<Option<String>>,
    i: int,
)
    requires
        experts.len() == paths.len(),
        0 <= i < experts.len(),
    ensures
        text::contains(
            preset(experts, paths, experts.len()),
            preset_section(experts[i].name@, paths[i].unwrap()@, experts[i].load_mode),
        ),
{
    lemma_section_in_preset(experts, paths, experts.len(), i);
}

proof fn lemma_section_in_preset(
    experts: Seq<ExpertConfig>,
    paths: Seq<Option<String>>,
    n: nat,
    i: int,
)
    requires
        0 <= i < n,
    ensures
        text::contains(
            preset(experts, paths, n),
            preset_section(experts[i].name@, paths[i].unwrap()@, experts[i].load_mode),
        ),
    decreases n,
{
    let all = preset(experts, paths, n);
    let before = preset(experts, paths, (n - 1) as nat);
    let part = preset_section(experts[i].name@, paths[i].unwrap()@, experts[i].load_mode);
    if i == n - 1 {
        let at = before.len() as int;
        assert(all.subrange(at, at + part.len()) =~= part);
        assert(text::occurs_at(all, part, at));
    } else {
        lemma_section_in_preset(experts, paths, (n - 1) as nat, i);
        let at = choose|at: int| text::occurs_at(before, part, at);
        assert(all.subrange(at, at + part.len()) =~= before.subrange(at, at + part.len()));
        assert(text::occurs_at(all, part, at));
    }
}

/// The preset file starts with its header and goes on with a section for each expert in
/// the order of the pool: its name, the resolved path of its checkpoint, and all layers
/// on the GPU or none.
#[verifier::spinoff_prover]
pub proof fn preset_lists_the_experts_in_order(
    experts: Seq<ExpertConfig>,
    paths: Seq<Option<String>>,
    n: nat,
)
    requires
        n < experts.len(),
        paths.len() == experts.len(),
        paths[n as int] is Some,
    ensures
        preset(experts, paths, 0) == "version = 1\n\n[*]\nc = 4096\n\n"@,
        ({
            let path = paths[n as int].unwrap()@;
            let e = experts[n as int];
            let layers = if e.load_mode is Cpu {
                "0"@
            } else {
                "999"@
            };
            let shown = |p: Seq<char>|
                "["@ + e.name@ + "]\nmodel = "@ + p + "\nn-gpu-layers = "@ + layers + "\n\n"@;
            let added = |p: Seq<char>| preset(experts, paths, n) + shown(p);
            &&& !text::has_prefix(path, "\\\\?\\"@) ==> preset(experts, paths, n + 1) == added(path)
            &&& forall|plain: Seq<char>|
                path == #[trigger] ("\\\\?\\"@ + plain) ==> preset(experts, paths, n + 1) == added(
                    plain,
                )
        }),
{
    reveal_strlit("0");
    reveal_strlit("999");
    reveal_strlit("\\\\?\\");
    reveal_with_fuel(text::decimal, 4);
    assert(text::decimal(0) =~= "0"@);
    assert(text::decimal(999) =~= "999"@);
    let path = paths[n as int].unwrap()@;
    assert forall|plain: Seq<char>| path == #[trigger] ("\\\\?\\"@ + plain) implies plain_path(path)
        == plain by {
        assert(path.take(4) =~= "\\\\?\\"@);
        assert(path.skip(4) =~= plain);
    }
}

/// The command line: the preset, room for as many models as experts may run and for one
/// at least, the port, and five minutes of idling.
pub proof fn command_line_follows_the_settings(config: MoEConfig, preset_path: Seq<char>)
    ensures
        ({
            let line = command_line(config, preset_path);
            &&& line.len() == 8
            &&& line[0] == "--models-preset"@ && line[1] == preset_path
            &&& line[2] == "--models-max"@
            &&& text::digits_value(line[3], 10) == if config.k_max > 1 {
                config.k_max as int
            } else {
                1
            }
            &&& line[4] == "--port"@
            &&& text::digits_value(line[5], 10) == config.llama_server_base_port
            &&& line[6] == "--sleep-idle-seconds"@ && line[7] == "300"@
        }),
{
    text::digits_stand_for_their_number(models_max(config.k_max as nat));
    text::digits_stand_for_their_number(config.llama_server_base_port as nat);
}

/// A CPU expert keeps all its layers off the GPU, and no other does.
pub proof fn only_cpu_experts_stay_off_the_gpu(mode: LoadMode)
    ensures
        gpu_layers(mode) == 0 <==> mode is Cpu,
        gpu_layers(mode) == 999 <==> mode is Gpu,
{
}

}
