use ssm_moe::config::ExpertConfig;
use ssm_moe::experts::registry::{Activation, ExpertRegistry, ModelTier, RegistryError};

fn registry(names: &[&str], warm: usize) -> ExpertRegistry {
    let mut r = ExpertRegistry::new(warm);
    for n in names {
        r.register_cold(n, ExpertConfig::new(n, "m", "p"));
    }
    r
}

fn load(r: &mut ExpertRegistry, name: &str, handle: u64) {
    match r.activate(name).unwrap() {
        Activation::Load(cfg) => {
            assert_eq!(cfg.name, name);
            r.finish_load(name, handle);
        }
        Activation::Ready(_) => panic!("already constructed"),
    }
}

fn ready(r: &mut ExpertRegistry, name: &str) -> u64 {
    match r.activate(name).unwrap() {
        Activation::Ready(h) => h,
        Activation::Load(_) => panic!("not constructed"),
    }
}

#[test]
fn experts_move_between_tiers() {
    let mut r = registry(&["a", "b"], 2);
    assert_eq!(r.tier("a"), ModelTier::Cold);
    load(&mut r, "a", 7);
    assert_eq!(r.tier("a"), ModelTier::Hot);
    assert_eq!(ready(&mut r, "a"), 7);
    r.hibernate("a");
    assert_eq!(r.tier("a"), ModelTier::Warm);
    r.hibernate("a");
    assert_eq!(r.tier("a"), ModelTier::Warm);
    assert_eq!(ready(&mut r, "a"), 7);
    assert_eq!(r.tier("a"), ModelTier::Hot);
    assert_eq!(r.tier("b"), ModelTier::Cold);
}

#[test]
fn unregistered_experts_are_refused() {
    let mut r = registry(&["a"], 1);
    let e: RegistryError = r.activate("z").unwrap_err();
    assert_eq!(e.message(), "No registered expert for 'z'");
    assert_eq!(r.tier("z"), ModelTier::Cold);
}

#[test]
fn full_warm_tier_drops_the_least_recently_used() {
    let mut r = registry(&["a", "b", "c"], 2);
    load(&mut r, "a", 1);
    load(&mut r, "b", 2);
    load(&mut r, "c", 3);
    r.hibernate("a");
    r.hibernate("b");
    r.hibernate("c");
    assert_eq!(r.tier("a"), ModelTier::Cold);
    assert_eq!(r.tier("b"), ModelTier::Warm);
    assert_eq!(r.tier("c"), ModelTier::Warm);
    assert_eq!(ready(&mut r, "b"), 2);
    assert_eq!(ready(&mut r, "c"), 3);
    load(&mut r, "a", 4);
    assert_eq!(ready(&mut r, "a"), 4);
}

#[test]
fn asking_for_a_tier_does_not_count_as_use() {
    let mut r = registry(&["a", "b", "c"], 2);
    load(&mut r, "a", 1);
    load(&mut r, "b", 2);
    load(&mut r, "c", 3);
    r.hibernate("a");
    r.hibernate("b");
    assert_eq!(r.tier("a"), ModelTier::Warm);
    r.hibernate("c");
    assert_eq!(r.tier("a"), ModelTier::Cold);
}

#[test]
fn eviction_spares_the_named() {
    let mut r = registry(&["a", "b", "c", "d"], 3);
    for (i, n) in ["a", "b", "c", "d"].iter().enumerate() {
        load(&mut r, n, i as u64);
    }
    r.evict_except(&["b", "x"]);
    assert_eq!(r.tier("b"), ModelTier::Hot);
    for n in ["a", "c", "d"] {
        assert_eq!(r.tier(n), ModelTier::Warm);
    }
    r.evict_except(&[]);
    assert_eq!(r.tier("b"), ModelTier::Warm);
    let warm = ["a", "b", "c", "d"].iter().filter(|n| r.tier(n) == ModelTier::Warm).count();
    assert_eq!(warm, 3);
}

#[test]
fn eviction_fills_the_warm_tier() {
    let mut r = registry(&["a", "b", "c", "d", "e"], 3);
    for (i, n) in ["a", "b", "c"].iter().enumerate() {
        load(&mut r, n, i as u64);
    }
    r.hibernate("a");
    r.evict_except(&["c"]);
    assert_eq!(r.tier("a"), ModelTier::Warm);
    assert_eq!(r.tier("b"), ModelTier::Warm);
    assert_eq!(r.tier("c"), ModelTier::Hot);
    load(&mut r, "d", 3);
    r.evict_except(&[]);
    let warm = ["a", "b", "c", "d"].iter().filter(|n| r.tier(n) == ModelTier::Warm).count();
    assert_eq!(warm, 3);
    assert_eq!(r.tier("a"), ModelTier::Cold);
    assert_eq!(r.tier("e"), ModelTier::Cold);
    assert_eq!(ready(&mut r, "d"), 3);
}

#[test]
fn registering_again_replaces_the_configuration() {
    let mut r = registry(&["a"], 1);
    r.register_cold("a", ExpertConfig::new("a", "other", "q"));
    match r.activate("a").unwrap() {
        Activation::Load(cfg) => assert_eq!(cfg.model_id, "other"),
        Activation::Ready(_) => panic!("not constructed"),
    }
}
