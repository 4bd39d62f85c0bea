use ssm_moe::brain::native_router::{NativeRouteError, NativeRouter};
use ssm_moe::brain::router::BrainRouter;
use ssm_moe::cli::{is_blank, select_mode, Mode};
use ssm_moe::config::MoEConfig;
use ssm_moe::experts::model::BatchEntry;
use ssm_moe::memory::context::ContextMemory;
use ssm_moe::score::Score;

fn score(x: f32) -> Score {
    Score { bits: x.to_bits() }
}

#[test]
fn sidecar_answers_with_one_score_per_expert() {
    let r = BrainRouter::load(&MoEConfig::default(), None);
    assert_eq!(r.health_url(), "http://127.0.0.1:8008/health");
    assert_eq!(r.route_url(), "http://127.0.0.1:8008/route");
    assert_eq!(
        r.unreachable_message(),
        "Brain Router sidecar not reachable at http://127.0.0.1:8008/health. Start it with: \
         python router_server.py"
    );
    let scores = vec![score(0.1); 5];
    assert_eq!(r.forward(scores.clone()).unwrap(), scores);
    assert_eq!(
        r.forward(vec![score(0.1); 4]).unwrap_err().message(),
        "sidecar returned 4 scores, expected 5"
    );
    let r = BrainRouter::load(&MoEConfig::default(), Some("http://h:1".to_string()));
    assert_eq!(r.route_url(), "http://h:1/route");
}

#[test]
fn native_router_checks_its_head() {
    let mut f = b"SMHD".to_vec();
    for w in [1u32, 1, 2] {
        f.extend(w.to_le_bytes());
    }
    f.extend([0u8; 16]);
    let r = NativeRouter::load(&f, 1, 256, 2).ok().unwrap();
    assert_eq!(r.n_ctx(), 256);
    assert_eq!(r.head().n_out(), 2);
    assert_eq!(
        r.embedding_batch(&[3]).unwrap(),
        vec![BatchEntry { token: 3, pos: 0, logits: false }]
    );
    assert_eq!(r.embedding_batch(&[]).unwrap_err(), NativeRouteError::NothingToEmbed);
    assert_eq!(NativeRouteError::NothingToEmbed.message(), "nothing to embed for routing");
    assert!(r.route(vec![score(0.0); 2]).is_ok());
    assert_eq!(
        r.route(vec![score(0.0); 3]).unwrap_err().message(),
        "native router head produced 3 outputs, expected 2 (one per expert)"
    );
    assert!(NativeRouter::load(&f, 2, 256, 2).is_err());
}

#[test]
fn sessions_have_their_own_files() {
    let m = ContextMemory::new("s1", "dir");
    let p = m.path("brain");
    assert_eq!((p.dir.as_str(), p.file_name.as_str()), ("dir", "s1_brain.llama-state"));
    let other = ContextMemory::new("s2", "dir").path("brain");
    assert_ne!(p.file_name, other.file_name);
    assert_ne!(p.file_name, m.path("critic").file_name);
    // an underscore in a key can make two pairs meet
    assert_eq!(
        ContextMemory::new("a_b", "d").path("c").file_name,
        ContextMemory::new("a", "d").path("b_c").file_name
    );
    assert!(m.clear("brain", false).is_none());
    assert_eq!(m.clear("brain", true).unwrap().file_name, "s1_brain.llama-state");
}

#[test]
fn forgetting_a_session_spares_the_others() {
    let m = ContextMemory::new("s1", "dir");
    let names = [
        "s1_brain.llama-state",
        "s10_brain.llama-state",
        "s1_math.llama-state",
        "s1_b_math.llama-state",
        "s2_brain.llama-state",
        "s10",
        "s1",
        "s1_notes.txt",
        "x_s1_brain.llama-state",
    ]
    .map(String::from);
    assert_eq!(
        m.clear_all(&names),
        vec![
            "s1_brain.llama-state",
            "s1_math.llama-state",
            "s1_b_math.llama-state",
            "s10",
            "s1",
            "s1_notes.txt",
        ]
    );
    let m = ContextMemory::new("s1_b", "dir");
    assert_eq!(m.clear_all(&names), vec!["s1_b_math.llama-state"]);
    // whatever the key
    let m = ContextMemory::new("s1", "dir");
    let own = [m.path("my_key").file_name];
    assert_eq!(m.clear_all(&own), own);
}

#[test]
fn command_line_picks_one_mode() {
    assert!(matches!(select_mode(true, true, Some("p".to_string())), Mode::Serve));
    assert!(matches!(select_mode(false, true, Some("p".to_string())), Mode::Interactive));
    match select_mode(false, false, Some("p".to_string())) {
        Mode::OneShot(p) => assert_eq!(p, "p"),
        _ => panic!("a prompt was given"),
    }
    assert!(matches!(select_mode(false, false, None), Mode::Usage));
    assert!(is_blank(" \t"));
    assert!(!is_blank(" x "));
}
