use ssm_moe::experts::model::{
    batch_capacity, bos_policy, prompt_batch, restored_position, sampler_kind, sequence_batch,
    BatchEntry, BosPolicy, Generation, NextStep, SamplerKind,
};
use ssm_moe::score::{Score, Temperature};

fn entry(token: i32, pos: i32, logits: bool) -> BatchEntry {
    BatchEntry { token, pos, logits }
}

fn lp(x: f32) -> Score {
    Score { bits: x.to_bits() }
}

#[test]
fn prompt_follows_restored_state() {
    assert_eq!(restored_position(None), 0);
    assert_eq!(restored_position(Some(12)), 12);
    assert_eq!(bos_policy(0), BosPolicy::Always);
    assert_eq!(bos_policy(12), BosPolicy::Never);
    assert_eq!(
        prompt_batch(&[5, 6, 7], 12),
        vec![entry(5, 12, false), entry(6, 13, false), entry(7, 14, true)]
    );
    assert_eq!(sequence_batch(&[5, 6], true), vec![entry(5, 0, true), entry(6, 1, true)]);
    assert_eq!(sequence_batch(&[5], false), vec![entry(5, 0, false)]);
    assert_eq!(batch_capacity(3), 512);
    assert_eq!(batch_capacity(600), 600);
}

#[test]
fn temperature_picks_the_sampler() {
    let t = |x: f64| sampler_kind(Temperature { bits: x.to_bits() });
    assert_eq!(t(0.7), SamplerKind::Random);
    for x in [0.0, -0.0, -1.0, f64::NEG_INFINITY] {
        assert_eq!(t(x), SamplerKind::Greedy);
    }
    for x in [f64::NAN, -f64::NAN, f64::INFINITY, 5e-324] {
        assert_eq!(t(x), SamplerKind::Random);
    }
}

#[test]
fn generation_stops_at_the_limit() {
    let mut g = Generation::start(&[5, 6, 7], 2, 2);
    assert_eq!(g.next_step(), NextStep::Sample(2));
    assert_eq!(g.accept(40, lp(-0.5), false), Some(entry(40, 5, true)));
    assert_eq!(g.next_step(), NextStep::Sample(0));
    assert_eq!(g.accept(41, lp(-0.25), false), Some(entry(41, 6, true)));
    assert_eq!(g.next_step(), NextStep::Finish);
    assert_eq!(g.generated(), &[40, 41]);
    assert_eq!(g.all_tokens(), &[5, 6, 7, 40, 41]);
    let o = g.into_output("hi".to_string());
    assert_eq!(o.text, "hi");
    assert_eq!(o.token_logprobs, vec![lp(-0.5), lp(-0.25)]);
}

#[test]
fn generation_stops_at_its_end_token() {
    let mut g = Generation::start(&[5], 0, 10);
    assert_eq!(g.next_step(), NextStep::Sample(0));
    g.accept(40, lp(-0.5), false);
    assert_eq!(g.accept(2, lp(-0.1), true), None);
    assert_eq!(g.next_step(), NextStep::Finish);
    assert_eq!(g.generated(), &[40]);
    assert_eq!(g.all_tokens(), &[5, 40]);
    assert_eq!(g.into_output(String::new()).token_logprobs, vec![lp(-0.5)]);
}

#[test]
fn immediate_end_leaves_nothing() {
    let mut g = Generation::start(&[5], 0, 10);
    assert_eq!(g.accept(2, lp(-0.1), true), None);
    assert_eq!(g.next_step(), NextStep::Finish);
    let o = g.into_output(String::new());
    assert_eq!(o.text, "");
    assert!(o.token_logprobs.is_empty());
}

#[test]
fn nothing_is_sampled_without_allowance() {
    let g = Generation::start(&[5], 0, 0);
    assert_eq!(g.next_step(), NextStep::Finish);
    assert!(g.generated().is_empty());
}
