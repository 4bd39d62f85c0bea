use ssm_moe::config::{ExpertConfig, LoadMode, MoEConfig};

#[test]
fn defaults_have_their_values() {
    let c = MoEConfig::default();
    assert_eq!(f32::from_bits(c.brain_threshold.bits), 0.65);
    assert_eq!(f32::from_bits(c.confidence_threshold.bits), 0.70);
    assert_eq!(f32::from_bits(c.critic_threshold.bits), 0.75);
    assert_eq!(f64::from_bits(c.temperature.bits), 0.7);
    assert_eq!(c.brain_model_id, "facebook/bart-large-mnli");
    assert_eq!(c.brain_labels, vec!["coding", "math", "reasoning", "creative", "general"]);
    assert_eq!(c.critic_model_id, "state-spaces/mamba-130m-hf");
    assert_eq!(c.k_max, 1);
    assert_eq!(c.llama_server_base_port, 8100);
    assert_eq!(c.n_gpu_layers, 999);
    assert_eq!(c.warm_cache_size, 3);
    assert_eq!(c.max_new_tokens, 2048);
    assert_eq!(c.sessions_dir, "./.sessions");
    assert_eq!(c.adapters_dir, "./adapters");
    assert_eq!(c.llama_server_exe, "../llama.cpp/llama-server.exe");
    assert_eq!(c.n_experts(), 5);
    assert_eq!(
        c.get_expert("reasoning").unwrap().gguf_path,
        c.get_expert("general").unwrap().gguf_path
    );
}

#[test]
fn clone_keeps_the_settings() {
    let mut c = MoEConfig::testing_stub();
    c.k_max = 4;
    let d = c.clone();
    assert_eq!(d.k_max, 4);
    assert_eq!(d.expert_names(), c.expert_names());
    assert_eq!(d.brain_labels, c.brain_labels);
    assert_eq!(d.experts[0].gguf_path, c.experts[0].gguf_path);
    assert_eq!(d.sessions_dir, c.sessions_dir);
}

#[test]
fn unknown_expert_is_named() {
    let e = MoEConfig::default().get_expert("cooking").unwrap_err();
    assert_eq!(e.message(), "Unknown expert: cooking");
}

#[test]
fn new_experts_run_on_the_gpu() {
    let e = ExpertConfig::new("n", "m", "p");
    assert_eq!((e.name.as_str(), e.model_id.as_str(), e.gguf_path.as_str()), ("n", "m", "p"));
    assert_eq!(e.load_mode, LoadMode::Gpu);
    let f = e.clone();
    assert_eq!(f.name, "n");
}

#[test]
fn testing_stub_swaps_every_model() {
    let c = MoEConfig::testing_stub();
    assert_eq!(c.expert_names(), MoEConfig::default().expert_names());
    for e in &c.experts {
        assert_eq!(e.load_mode, LoadMode::Gpu);
        if e.name == "coding" {
            assert_eq!(e.model_id, "empero-ai/Qwythos-9B-v2-GGUF");
            assert_eq!(e.gguf_path, "../models/qwythos-9b-q4_k_m.gguf");
        } else {
            assert_eq!(e.model_id, "openbmb/MiniCPM5-1B-GGUF");
            assert_eq!(e.gguf_path, "../models/minicpm5-1b-q4_k_m.gguf");
        }
    }
}

#[test]
fn absent_experts_are_dropped() {
    let mut c = MoEConfig::default();
    c.filter_to_present_experts(&[true, false, true, false, true]);
    assert_eq!(c.expert_names(), vec!["coding", "reasoning", "creative"]);
    c.filter_to_present_experts(&[false, false, false]);
    assert_eq!(c.n_experts(), 0);
}
