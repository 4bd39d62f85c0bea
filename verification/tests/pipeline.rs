use ssm_moe::brain::gate::GateOutput;
use ssm_moe::config::MoEConfig;
use ssm_moe::pipeline::{Action, Event, MoEPipeline, Turn, BITS_MIN_WEIGHT};
use ssm_moe::score::Score;

fn routed(indices: &[usize], weights: &[&str]) -> Event {
    Event::Routed {
        gate: GateOutput {
            expert_indices: indices.to_vec(),
            expert_probs: vec![Score { bits: 0 }; indices.len()],
            k: indices.len(),
            entropy: Score { bits: 0 },
        },
        weights: weights.iter().map(|w| w.to_string()).collect(),
        state: vec![7],
    }
}

/// A turn of session "s" whose state was read.
fn begin(p: &MoEPipeline) -> Turn {
    let (turn, action) = p.run("s");
    restore(p, turn, action, vec![])
}

fn restore(p: &MoEPipeline, turn: Turn, action: Action, state: Vec<u8>) -> Turn {
    match action {
        Action::Load(path) => {
            assert_eq!(path.dir, "./.sessions");
            assert_eq!(path.file_name, "s_brain.llama-state");
        }
        _ => panic!("state is read first"),
    }
    let want = if state.is_empty() { None } else { Some(state.clone()) };
    let (turn, action) = p.step(turn, Event::Restored(state));
    assert!(matches!(action, Action::Route(prior) if prior == want));
    turn
}

fn attempt(p: &MoEPipeline, turn: Turn, text: &str, passed: bool) -> (Turn, Action) {
    let (turn, action) = p.step(turn, routed(&[0], &["1.00"]));
    assert!(matches!(action, Action::Generate(n) if n == "coding"));
    let (turn, action) = p.step(turn, Event::Generated(text.to_string()));
    assert!(matches!(action, Action::Verify(t) if t == text));
    save(p, p.step(turn, Event::Judged(passed)))
}

fn save(p: &MoEPipeline, judged: (Turn, Action)) -> (Turn, Action) {
    match judged.1 {
        Action::Save(path, state) => {
            assert_eq!(path.file_name, "s_brain.llama-state");
            assert_eq!(state, vec![7]);
        }
        _ => panic!("state is saved before the verdict counts"),
    }
    p.step(judged.0, Event::Saved)
}

fn pipeline() -> MoEPipeline {
    MoEPipeline::new(MoEConfig::default(), &[true; 5]).unwrap()
}

#[test]
fn passing_output_is_returned_at_once() {
    let p = pipeline();
    let turn = begin(&p);
    let (_, action) = attempt(&p, turn, "good", true);
    assert!(matches!(action, Action::Return(t) if t == "good"));
}

#[test]
fn refused_output_is_routed_again_and_then_returned() {
    let p = pipeline();
    let (turn, action) = attempt(&p, begin(&p), "one", false);
    let turn = restore(&p, turn, action, vec![7]);
    let (turn, action) = attempt(&p, turn, "two", false);
    let turn = restore(&p, turn, action, vec![7]);
    let (_, action) = attempt(&p, turn, "three", false);
    assert!(matches!(action, Action::Return(t) if t == "three"));
}

#[test]
fn second_attempt_can_pass() {
    let p = pipeline();
    let (turn, action) = attempt(&p, begin(&p), "one", false);
    let turn = restore(&p, turn, action, vec![7]);
    let (_, action) = attempt(&p, turn, "two", true);
    assert!(matches!(action, Action::Return(t) if t == "two"));
}

#[test]
fn several_experts_are_asked_in_turn() {
    let p = pipeline();
    let turn = begin(&p);
    let (turn, action) = p.step(turn, routed(&[1, 4], &["0.60", "0.40"]));
    assert!(matches!(action, Action::Generate(n) if n == "math"));
    let (turn, action) = p.step(turn, Event::Generated("4".to_string()));
    assert!(matches!(action, Action::Generate(n) if n == "creative"));
    let (turn, action) = p.step(turn, Event::Generated("ode".to_string()));
    let want = "[math · weight=0.60]\n4\n\n[creative · weight=0.40]\node";
    assert!(matches!(action, Action::Verify(t) if t == want));
    let (_, action) = save(&p, p.step(turn, Event::Judged(true)));
    assert!(matches!(action, Action::Return(t) if t == want));
}

#[test]
fn failure_is_reported_at_once() {
    let p = pipeline();
    let turn = begin(&p);
    let (turn, action) = p.step(turn, routed(&[1, 2], &["0.50", "0.50"]));
    assert!(matches!(action, Action::Generate(_)));
    let (_, action) = p.step(turn, Event::Failed);
    assert!(matches!(action, Action::Fail));
    let (turn, _) = p.run("s");
    let (_, action) = p.step(turn, Event::Failed);
    assert!(matches!(action, Action::Fail));
}

#[test]
fn selected_experts_can_be_routed_to() {
    let probs: Vec<Score> =
        [0.1f32, 0.1, 0.5, 0.2, 0.1].iter().map(|x| Score { bits: x.to_bits() }).collect();
    let entropy = Score { bits: 0.9f32.to_bits() };
    let mut config = MoEConfig::default();
    config.k_max = 2;
    let p = MoEPipeline::new(config, &[true; 5]).unwrap();
    let gate = p.select(&probs, entropy);
    assert_eq!(gate.expert_indices, vec![2, 3]);
    let weights = vec!["0.71".to_string(), "0.29".to_string()];
    let turn = begin(&p);
    let (turn, action) = p.step(turn, Event::Routed { gate, weights, state: vec![] });
    assert!(matches!(action, Action::Generate(n) if n == "reasoning"));
    let (_, action) = p.step(turn, Event::Generated("so".to_string()));
    assert!(matches!(action, Action::Generate(n) if n == "general"));
}

#[test]
fn experts_are_asked_with_the_settings() {
    let r = pipeline().completion_request("math", "1+1?");
    assert_eq!((r.model.as_str(), r.prompt.as_str()), ("math", "1+1?"));
    assert_eq!(r.max_tokens, 2048);
    assert_eq!(f64::from_bits(r.temperature.bits), 0.7);
}

#[test]
fn pipeline_boots_with_the_experts_on_disk() {
    let p = MoEPipeline::new(MoEConfig::default(), &[false, true, false, false, true]).unwrap();
    assert_eq!(p.config().expert_names(), vec!["math", "creative"]);
    let e = MoEPipeline::new(MoEConfig::default(), &[false; 5]).err().unwrap();
    assert_eq!(
        e.message(),
        "no expert GGUFs found on disk — see config.rs for the expected paths under ../models/"
    );
    assert_eq!(f32::from_bits(BITS_MIN_WEIGHT), 0.05);
}
