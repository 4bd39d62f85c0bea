use ssm_moe::experts::model::BatchEntry;
use ssm_moe::layers::confidence::check_confidence;
use ssm_moe::layers::critic::{
    completion_heuristic, head_outputs, heuristic_scores, safety_heuristic, safety_of_lowercase, scoring_targets,
    CriticModel, CriticStep,
};
use ssm_moe::layers::fusion::text_fuse;
use ssm_moe::layers::linear_head::{read_f32_vec, HeadError, LinearHead};
use ssm_moe::score::Score;

fn score(x: f32) -> Score {
    Score { bits: x.to_bits() }
}

fn head_file(n_in: u32, n_out: u32, numbers: &[f32]) -> Vec<u8> {
    let mut f = b"SMHD".to_vec();
    f.extend(1u32.to_le_bytes());
    f.extend(n_in.to_le_bytes());
    f.extend(n_out.to_le_bytes());
    for x in numbers {
        f.extend(x.to_le_bytes());
    }
    f
}

#[test]
fn head_is_read_back() {
    let f = head_file(2, 3, &[1.0, 2.0, -3.5, 4.0, 5.0, 6.25, 0.1, 0.2, 0.3]);
    let h = LinearHead::load(&f, 2).ok().unwrap();
    assert_eq!((h.n_in(), h.n_out()), (2, 3));
    assert_eq!(h.row(0), (&[score(1.0), score(2.0)][..], score(0.1)));
    assert_eq!(h.row(1), (&[score(-3.5), score(4.0)][..], score(0.2)));
    assert_eq!(h.row(2), (&[score(5.0), score(6.25)][..], score(0.3)));

    let rows: Vec<_> = (0..h.n_out()).map(|o| h.row(o)).collect();
    let mut numbers: Vec<f32> = Vec::new();
    numbers.extend(rows.iter().flat_map(|(w, _)| w.iter()).map(|s| f32::from_bits(s.bits)));
    numbers.extend(rows.iter().map(|(_, b)| f32::from_bits(b.bits)));
    assert_eq!(head_file(h.n_in() as u32, h.n_out() as u32, &numbers), f);
}

#[test]
fn bad_head_files_are_refused() {
    let good = head_file(1, 1, &[1.0, 2.0]);
    let err = |f: &[u8], n: usize| LinearHead::load(f, n).err().unwrap();
    assert_eq!(err(&good[..15], 1), HeadError::TooShort);
    assert_eq!(
        err(&good[..15], 1).message("h.bin"),
        "linear head file h.bin is too short to contain a header"
    );
    let mut f = good.clone();
    f[0] = b'X';
    assert_eq!(err(&f, 1), HeadError::BadMagic);
    assert_eq!(
        HeadError::BadMagic.message("h"),
        "linear head file h has bad magic (not an SMHD file)"
    );
    let mut f = good.clone();
    f[4] = 2;
    assert_eq!(err(&f, 1), HeadError::UnsupportedVersion(2));
    assert_eq!(
        HeadError::UnsupportedVersion(2).message("h"),
        "linear head file h has unsupported version 2"
    );
    assert_eq!(err(&good, 7), HeadError::WrongInputSize { n_in: 1, expected_n_in: 7 });
    assert_eq!(
        err(&good, 7).message("h"),
        "linear head file h was trained for n_in=1 but the model's embedding size is 7 — wrong \
         head for this model?"
    );
    assert_eq!(
        err(&good[..20], 1),
        HeadError::WrongLength { len: 20, expected_len: 24, n_in: 1, n_out: 1 }
    );
    assert_eq!(
        err(&good[..20], 1).message("h"),
        "linear head file h is 20 bytes, expected 24 for n_in=1 n_out=1"
    );
    let huge = head_file(u32::MAX, u32::MAX, &[]);
    assert!(matches!(err(&huge, u32::MAX as usize), HeadError::WrongLength { .. }));
}

#[test]
fn numbers_are_read_in_order() {
    let bytes = [9u8, 0, 0, 0x80, 0x3f, 1, 2, 3, 4];
    let mut offset = 1usize;
    assert_eq!(
        read_f32_vec(&bytes, &mut offset, 2),
        vec![score(1.0), Score { bits: 0x0403_0201 }]
    );
    assert_eq!(offset, 9);
}

#[test]
fn low_confidence_is_flagged() {
    let scores = [
        ("a".to_string(), score(0.69)),
        ("b".to_string(), score(0.7)),
        ("c".to_string(), score(f32::NAN)),
        ("d".to_string(), score(0.0)),
    ];
    assert_eq!(check_confidence(&scores, score(0.7)), vec!["a", "d"]);
}

#[test]
fn one_output_passes_and_several_are_headed() {
    let one = [("math".to_string(), "4".to_string())];
    assert_eq!(text_fuse(&one, &["1.00".to_string()]), "4");
    let two = [one[0].clone(), ("coding".to_string(), "fn".to_string())];
    assert_eq!(
        text_fuse(&two, &["0.75".to_string(), "0.25".to_string()]),
        "[math · weight=0.75]\n4\n\n[coding · weight=0.25]\nfn"
    );
}

#[test]
fn completion_is_scored_by_the_ending() {
    for (s, want) in [
        ("", 0.0),
        (" \n", 0.0),
        ("It is done.", 1.0),
        ("`code()` ", 1.0),
        ("Yes!", 0.6),
        ("it goes on and", 0.6),
        ("no", 0.3),
        ("\u{65e5}\u{672c}\u{8a9e}", 0.6),
        ("say \"so\"", 1.0),
        ("(a)", 0.6),
    ] {
        assert_eq!(completion_heuristic(s), score(want), "{s}");
    }
}

#[test]
fn safety_ignores_case() {
    assert_eq!(safety_heuristic("All fine."), score(1.0));
    assert_eq!(safety_heuristic("HOW to Make a BOMB at home"), score(0.0));
    assert_eq!(safety_heuristic("Kill yourself"), score(0.0));
    assert_eq!(safety_of_lowercase("KILL YOURSELF"), score(1.0));
    assert_eq!(safety_of_lowercase("then kill yourself"), score(0.0));
}

#[test]
fn heuristic_scores_come_from_the_text() {
    assert_eq!(
        heuristic_scores("It is done.", score(0.8)),
        (score(0.8), score(1.0), score(1.0))
    );
    assert_eq!(
        heuristic_scores("Kill Yourself", score(0.8)),
        (score(0.8), score(0.6), score(0.0))
    );
}

#[test]
fn critic_without_head_scores_tokens() {
    let c = CriticModel::load(score(0.75), 512, None, 4).ok().unwrap();
    assert_eq!(c.n_ctx(), 512);
    assert!(c.reward_head().is_none());
    match c.verify("x", &[1]).unwrap() {
        CriticStep::Done(v) => {
            assert_eq!(v.coherence, score(0.5));
            assert_eq!(v.completion, score(0.0));
            assert_eq!(v.safety, score(1.0));
            assert_eq!(v.composite, score(0.25));
            assert!(!v.passed);
        }
        _ => panic!("too short to score"),
    }
    match c.verify("x y", &[1, 2]).unwrap() {
        CriticStep::ScoreTokens(b) => assert_eq!(
            b,
            vec![
                BatchEntry { token: 1, pos: 0, logits: true },
                BatchEntry { token: 2, pos: 1, logits: true }
            ]
        ),
        _ => panic!("long enough to score"),
    }
    assert_eq!(scoring_targets(&[1, 2, 3]), vec![(0, 2), (1, 3)]);
    assert!(scoring_targets(&[1]).is_empty());
    let v = c.verdict(score(1.0), score(1.0), score(0.5), score(0.75));
    assert!(v.passed);
    let v = c.verdict(score(1.0), score(1.0), score(0.4), score(0.7499));
    assert!(!v.passed);
}

#[test]
fn critic_with_head_embeds() {
    let f = head_file(1, 3, &[1.0, 2.0, 3.0, 0.0, 0.0, 0.0]);
    let c = CriticModel::load(score(0.75), 512, Some(&f), 1).ok().unwrap();
    assert_eq!(c.reward_head().unwrap().n_out(), 3);
    assert_eq!(
        c.verify("", &[]).err().unwrap().message(),
        "nothing to embed for critic scoring"
    );
    match c.verify("x", &[8]).unwrap() {
        CriticStep::Embed(b) => {
            assert_eq!(b, vec![BatchEntry { token: 8, pos: 0, logits: false }])
        }
        _ => panic!("there is a head"),
    }
    assert!(CriticModel::load(score(0.75), 512, Some(&f), 2).is_err());
    assert_eq!(
        head_outputs(&[score(1.0), score(2.0), score(3.0)]).unwrap(),
        (score(1.0), score(2.0), score(3.0))
    );
    assert_eq!(
        head_outputs(&[score(1.0)]).unwrap_err().message(),
        "critic reward head produced 1 outputs, expected 3 (coherence, completion, safety)"
    );
}
