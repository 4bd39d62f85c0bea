use ssm_moe::config::{ExpertConfig, LoadMode, MoEConfig};
use ssm_moe::experts::expert_router::{
    build_preset_ini, ngl_for_load_mode, ExpertRouter, WaitStep,
};

#[test]
fn cpu_load_mode_disables_gpu_offload() {
    assert_eq!(ngl_for_load_mode(LoadMode::Cpu), 0);
}

#[test]
fn gpu_load_mode_offloads_everything() {
    assert_eq!(ngl_for_load_mode(LoadMode::Gpu), 999);
}

#[test]
fn preset_has_a_section_for_each_expert() {
    let mut creative = ExpertConfig::new("creative", "m", "c.gguf");
    creative.load_mode = LoadMode::Cpu;
    let experts = [ExpertConfig::new("coding", "m", "a.gguf"), creative];
    let paths = [Some("/m/a.gguf".to_string()), Some(r"\\?\C:\m\c.gguf".to_string())];
    assert_eq!(
        build_preset_ini(&experts, &paths).unwrap(),
        "version = 1\n\n[*]\nc = 4096\n\n\
         [coding]\nmodel = /m/a.gguf\nn-gpu-layers = 999\n\n\
         [creative]\nmodel = C:\\m\\c.gguf\nn-gpu-layers = 0\n\n"
    );
}

#[test]
fn missing_checkpoint_is_named() {
    let experts = [ExpertConfig::new("a", "m", "a.gguf"), ExpertConfig::new("b", "m", "b.gguf")];
    let e = build_preset_ini(&experts, &[Some("/a".to_string()), None]).unwrap_err();
    assert_eq!(
        e.message(),
        "expert 'b' GGUF not found at b.gguf — run the model download/conversion step first"
    );
}

#[test]
fn server_is_started_with_its_arguments() {
    let mut c = MoEConfig::default();
    c.k_max = 0;
    assert_eq!(
        ExpertRouter::spawn_args(&c, "x/experts_preset.ini"),
        vec![
            "--models-preset",
            "x/experts_preset.ini",
            "--models-max",
            "1",
            "--port",
            "8100",
            "--sleep-idle-seconds",
            "300"
        ]
    );
    c.k_max = 3;
    assert_eq!(ExpertRouter::spawn_args(&c, "x")[3], "3");
    let p = ExpertRouter::preset_path(&c);
    assert_eq!((p.dir.as_str(), p.file_name.as_str()), ("./.sessions", "experts_preset.ini"));
    let r = ExpertRouter::spawn(&c);
    assert_eq!(r.health_url(), "http://127.0.0.1:8100/health");
    assert_eq!(r.completions_url(), "http://127.0.0.1:8100/v1/completions");
}

#[test]
fn waiting_ends_with_health_or_time() {
    assert_eq!(ExpertRouter::wait_until_ready(true, 9, 5), WaitStep::Ready);
    assert_eq!(ExpertRouter::wait_until_ready(false, 5, 5), WaitStep::Pause(500));
    assert_eq!(ExpertRouter::wait_until_ready(false, 6, 5), WaitStep::TimedOut);
}

#[test]
fn first_choice_is_the_completion() {
    let t = ExpertRouter::generate("math", vec!["x".to_string(), "y".to_string()]).unwrap();
    assert_eq!(t, "x");
    let e = ExpertRouter::generate("math", vec![]).unwrap_err();
    assert_eq!(e.message(), "empty choices in completion response for 'math'");
}
