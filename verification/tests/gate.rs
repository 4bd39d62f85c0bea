use candle_core::{Device, Tensor};
use ssm_moe::brain::gate::{adaptive_k_gate, BITS_CLEAR, BITS_MIXED};
use ssm_moe::config::{LoadMode, MoEConfig};
use ssm_moe::score::Score;

fn score(x: f32) -> Score {
    Score { bits: x.to_bits() }
}

fn softmax(logits: &Tensor) -> Vec<f32> {
    let max = logits.max(0).unwrap();
    let exp = logits.broadcast_sub(&max).unwrap().exp().unwrap();
    let sum = exp.sum_all().unwrap();
    exp.broadcast_div(&sum).unwrap().to_vec1().unwrap()
}

fn entropy(probs: &[f32]) -> f32 {
    probs
        .iter()
        .map(|&p| if p > 1e-9 { -p * p.ln() } else { 0.0 })
        .sum::<f32>()
        / (probs.len() as f32).ln()
}

#[test]
fn adaptive_k_gate_basic_behaviour() {
    // A 5-dim logits vector with a clear dominant expert (index 0).
    let logits = Tensor::new(&[2.0_f32, 0.5, 0.1, -1.0, -2.0], &Device::Cpu).unwrap();
    let probs = softmax(&logits);
    let h = entropy(&probs);
    let scores: Vec<Score> = probs.iter().map(|&p| score(p)).collect();

    // Allow up to three experts; no more may be selected.
    let gate = adaptive_k_gate(&scores, score(h), 3, score(0.05));

    assert!(!gate.expert_indices.is_empty(), "zero experts");
    assert!(gate.k <= 3, "selected more experts than k_max");

    // Each selected expert comes with its own probability; the weights are the shares
    // in their sum.
    let selected: Vec<f32> = gate.expert_indices.iter().map(|&i| probs[i]).collect();
    let returned: Vec<f32> = gate.expert_probs.iter().map(|p| f32::from_bits(p.bits)).collect();
    assert_eq!(returned, selected);
    let mass: f32 = selected.iter().sum();
    let weight_sum: f32 = returned.iter().map(|p| p / mass).sum();
    assert!((weight_sum - 1.0).abs() < 1e-5, "weights do not sum to 1.0 (got {weight_sum})");

    let h = f32::from_bits(gate.entropy.bits);
    assert!((0.0..=1.0).contains(&h), "entropy out of bounds");

    assert_eq!(gate.expert_indices[0], 0);
}

#[test]
fn config_expert_order_and_load_mode() {
    let cfg = MoEConfig::default();

    let expected = vec!["coding", "math", "reasoning", "general", "creative"];
    let actual: Vec<_> = cfg.expert_names().into_iter().collect();
    assert_eq!(expected, actual, "expert ordering mismatch");

    // The "creative" expert should be CPU-only per the default config.
    let creative_cfg = cfg.get_expert("creative").expect("creative expert missing");
    assert_eq!(creative_cfg.load_mode, LoadMode::Cpu, "creative expert is not marked as Cpu");
}

#[test]
fn entropy_thresholds_set_the_budget() {
    assert_eq!(f32::from_bits(BITS_CLEAR), 0.33);
    assert_eq!(f32::from_bits(BITS_MIXED), 0.66);
    let probs: Vec<Score> = [0.2, 0.25, 0.15, 0.3, 0.1].iter().map(|&p| score(p)).collect();
    let at = |h: f32, k_max: usize| {
        adaptive_k_gate(&probs, score(h), k_max, score(0.05)).expert_indices
    };
    assert_eq!(at(0.1, 4), vec![3]);
    assert_eq!(at(0.33, 4), vec![3, 1]);
    assert_eq!(at(0.33, 1), vec![3]);
    assert_eq!(at(0.66, 4), vec![3, 1, 0, 2]);
    assert_eq!(at(0.9, 9), vec![3, 1, 0, 2, 4]);
    // an entropy that is not a number counts as ambiguous
    assert_eq!(at(f32::NAN, 2), vec![3, 1]);
    let reported = |h: f32| {
        f32::from_bits(adaptive_k_gate(&probs, score(h), 2, score(0.05)).entropy.bits)
    };
    assert_eq!(reported(0.5), 0.5);
    assert_eq!(reported(1.000001), 1.0);
    assert_eq!(reported(-0.000001), 0.0);
    assert_eq!(reported(f32::NAN), 1.0);
}

#[test]
fn light_experts_are_pruned_but_one_stays() {
    let probs: Vec<Score> = [0.04, 0.9, 0.06].iter().map(|&p| score(p)).collect();
    let gate = adaptive_k_gate(&probs, score(0.9), 3, score(0.05));
    assert_eq!(gate.expert_indices, vec![1, 2]);
    assert_eq!(gate.expert_probs, vec![score(0.9), score(0.06)]);
    assert_eq!(gate.k, 2);

    let gate = adaptive_k_gate(&probs, score(0.9), 3, score(0.95));
    assert_eq!(gate.expert_indices, vec![0]);
    assert_eq!(gate.expert_probs, vec![score(1.0)]);

    let gate = adaptive_k_gate(&probs, score(0.9), 0, score(0.05));
    assert_eq!(gate.expert_indices, vec![0]);

    let gate = adaptive_k_gate(&[score(f32::NAN)], score(f32::NAN), 1, score(0.05));
    assert_eq!(gate.expert_indices, vec![0]);
    assert_eq!(gate.k, 1);
}

#[test]
fn pool_of_one_is_certain() {
    for k_max in [0, 1, 3] {
        let gate = adaptive_k_gate(&[score(1.0)], score(0.0 / 0.0), k_max, score(0.05));
        assert_eq!(gate.expert_indices, vec![0]);
        assert_eq!(gate.expert_probs, vec![score(1.0)]);
        assert_eq!(gate.k, 1);
        assert_eq!(gate.entropy, score(0.0));
    }
}

#[test]
fn budget_never_shrinks_with_entropy() {
    let probs: Vec<Score> = [0.4, 0.3, 0.2, 0.1].iter().map(|&p| score(p)).collect();
    let ks: Vec<usize> = [0.0, 0.32, 0.33, 0.5, 0.66, 1.0]
        .iter()
        .map(|&h| adaptive_k_gate(&probs, score(h), 3, score(0.05)).k)
        .collect();
    assert_eq!(ks, vec![1, 1, 2, 2, 3, 3]);
}

#[test]
fn equally_likely_experts_come_in_pool_order() {
    let probs: Vec<Score> = [0.25, 0.25, 0.25, 0.25].iter().map(|&p| score(p)).collect();
    let gate = adaptive_k_gate(&probs, score(1.0), 3, score(0.05));
    assert_eq!(gate.expert_indices, vec![0, 1, 2]);
}

#[test]
fn score_comparison_is_that_of_floats() {
    let values = [
        0.0f32,
        -0.0,
        1.0,
        -1.0,
        0.5,
        f32::MIN_POSITIVE,
        1e-45,
        -1e-45,
        f32::MAX,
        f32::MIN,
        f32::INFINITY,
        f32::NEG_INFINITY,
        f32::NAN,
        -f32::NAN,
        0.65,
    ];
    for a in values {
        assert_eq!(score(a).is_nan(), a.is_nan());
        for b in values {
            assert_eq!(score(a).lt(score(b)), a < b, "{a} < {b}");
            assert_eq!(score(a).ge(score(b)), a >= b, "{a} >= {b}");
        }
    }
}
