//! Expert registry: a three-tier memory manager.
//!
//! - Hot: the model is constructed and resident.
//! - Warm: taken off the hot tier and kept in a cache, from which it comes back
//!   without being constructed again.
//! - Cold: only the configuration is known.
//!
//! The registry holds a handle for each constructed model. Whoever owns the
//! models constructs them when the registry asks for it, and hands the handle in.

use super::table::NameTable;
use super::warm_tier::{warm_contains, warm_new, warm_pop, warm_put, MAX_WARM_CAPACITY};
use crate::config::ExpertConfig;
use crate::experts::table;
use crate::experts::warm_tier;
use crate::text;
use lru::LruCache;
use vstd::prelude::*;
use vstd::string::*;

verus! {

/// Where an expert lives.
#[derive(Debug, Clone, Copy, PartialEq, Eq, Structural)]
pub enum ModelTier {
    Hot,
    Warm,
    Cold,
}

/// The experts that are known and the models that are constructed.
pub struct ExpertRegistry {
    hot: NameTable<u64>,
    warm: LruCache<String, u64>,
    cold_configs: NameTable<ExpertConfig>,
}

/// The three tiers.
pub struct Tiers {
    /// The handles of the resident models.
    pub hot: Map<Seq<char>, u64>,
    /// The handles of the cached models, the most recently used first.
    pub warm: Seq<(Seq<char>, u64)>,
    /// The registered configurations.
    pub cold: Map<Seq<char>, ExpertConfig>,
    /// How many models the warm tier holds at most.
    pub capacity: nat,
}

/// What to do for an expert that is to become hot.
#[derive(Debug)]
pub enum Activation {
    /// The model is resident under this handle.
    Ready(u64),
    /// The model must be constructed from this configuration.
    Load(ExpertConfig),
}

/// Why an expert cannot be activated.
#[derive(Debug)]
pub enum RegistryError {
    /// No expert is registered under this name.
    NotRegistered(String),
}

impl RegistryError {
    /// The message for a person.
    pub fn message(&self) -> (m: String)
        ensures
            match *self {
                RegistryError::NotRegistered(name) => m@ == "No registered expert for '"@ + name@
                    + "'"@,
            },
    {
        match self {
            RegistryError::NotRegistered(name) => text::concat3(
                "No registered expert for '",
                name.as_str(),
                "'",
            ),
        }
    }
}

impl Tiers {
    /// No model is both hot and warm, and the warm tier keeps its bound.
    pub open spec fn wf(self) -> bool {
        &&& warm_tier::names_differ(self.warm)
        &&& 0 < self.capacity
        &&& self.warm.len() <= self.capacity
        &&& forall|n: Seq<char>| #[trigger]
            self.hot.dom().contains(n) ==> warm_tier::lookup(self.warm, n) is None
    }

    /// The tier of an expert.
    pub open spec fn tier(self, name: Seq<char>) -> ModelTier {
        if self.hot.dom().contains(name) {
            ModelTier::Hot
        } else if warm_tier::lookup(self.warm, name) is Some {
            ModelTier::Warm
        } else {
            ModelTier::Cold
        }
    }

    /// After a model that is warm became hot; all else stays.
    pub open spec fn activated(self, name: Seq<char>) -> Tiers {
        if self.tier(name) is Warm {
            Tiers {
                hot: self.hot.insert(name, warm_tier::lookup(self.warm, name).unwrap()),
                warm: warm_tier::without(self.warm, name),
                ..self
            }
        } else {
            self
        }
    }

    /// After a cold expert was constructed.
    pub open spec fn loaded(self, name: Seq<char>, handle: u64) -> Tiers {
        Tiers { hot: self.hot.insert(name, handle), ..self }
    }

    /// After a model that is hot became warm; all else stays.
    pub open spec fn hibernated(self, name: Seq<char>) -> Tiers {
        if self.hot.dom().contains(name) {
            Tiers {
                hot: self.hot.remove(name),
                warm: warm_tier::with_entry(self.warm, self.capacity, name, self.hot[name]),
                ..self
            }
        } else {
            self
        }
    }

    /// After hibernating the experts of `order` one after the other.
    pub open spec fn hibernated_all(self, order: Seq<Seq<char>>) -> Tiers
        decreases order.len(),
    {
        if order.len() == 0 {
            self
        } else {
            self.hibernated_all(order.drop_last()).hibernated(order.last())
        }
    }

    /// Whether `order` names every hot expert outside `keep` once, and no other.
    pub open spec fn is_eviction_order(self, keep: Seq<&str>, order: Seq<Seq<char>>) -> bool {
        &&& order.no_duplicates()
        &&& forall|n: Seq<char>| #[trigger]
            order.contains(n) <==> self.hot.dom().contains(n) && !table::is_among(keep, n)
    }
}

impl View for ExpertRegistry {
    type V = Tiers;

    closed spec fn view(&self) -> Tiers {
        Tiers {
            hot: self.hot@,
            warm: warm_tier::warm_entries(self.warm),
            cold: self.cold_configs@,
            capacity: warm_tier::warm_capacity(self.warm),
        }
    }
}

impl ExpertRegistry {
    /// The tables hold every name once and the tiers are consistent.
    pub closed spec fn wf(&self) -> bool {
        self.hot.wf() && self.cold_configs.wf() && self@.wf()
    }

    /// The tiers of a registry are consistent.
    pub proof fn tiers_are_consistent(&self)
        requires
            self.wf(),
        ensures
            self@.wf(),
    {
    }

    /// An empty registry whose warm tier holds `warm_cache_size` models.
    pub fn new(warm_cache_size: usize) -> (r: Self)
        requires
            0 < warm_cache_size <= MAX_WARM_CAPACITY,
        ensures
            r.wf(),
            r@ == (Tiers {
                hot: Map::empty(),
                warm: Seq::empty(),
                cold: Map::empty(),
                capacity: warm_cache_size as nat,
            }),
    {
        ExpertRegistry {
            hot: NameTable::new(),
            warm: warm_new(warm_cache_size),
            cold_configs: NameTable::new(),
        }
    }

    /// Registers an expert's configuration. Nothing is constructed yet.
    pub fn register_cold(&mut self, name: &str, cfg: ExpertConfig)
        requires
            old(self).wf(),
        ensures
            final(self).wf(),
            final(self)@ == (Tiers { cold: old(self)@.cold.insert(name@, cfg), ..old(self)@ }),
    {
        self.cold_configs.insert(name, cfg);
    }

    /// Promotes an expert to hot. A hot or warm model is ready at once; for a
    /// cold one the caller constructs the model and calls `finish_load`.
    pub fn activate(&mut self, name: &str) -> (r: Result<Activation, RegistryError>)
        requires
            old(self).wf(),
        ensures
            final(self).wf(),
            final(self)@ == old(self)@.activated(name@),
            match old(self)@.tier(name@) {
                ModelTier::Hot => r == Ok::<Activation, RegistryError>(
                    Activation::Ready(old(self)@.hot[name@]),
                ),
                ModelTier::Warm => r == Ok::<Activation, RegistryError>(
                    Activation::Ready(warm_tier::lookup(old(self)@.warm, name@).unwrap()),
                ),
                ModelTier::Cold => if old(self)@.cold.dom().contains(name@) {
                    r == Ok::<Activation, RegistryError>(Activation::Load(old(self)@.cold[name@]))
                } else {
                    r matches Err(RegistryError::NotRegistered(asked)) && asked@ == name@
                },
            },
    {
        if let Some(handle) = self.hot.get(name) {
            return Ok(Activation::Ready(*handle));
        }
        let ghost before = self@;
        proof {
            activation_keeps_tiers(before, name@);
            warm_tier::lemma_without(before.warm, name@);
        }
        if let Some(handle) = warm_pop(&mut self.warm, name) {
            self.hot.insert(name, handle);
            return Ok(Activation::Ready(handle));
        }
        match self.cold_configs.get(name) {
            Some(cfg) => Ok(Activation::Load(cfg.clone())),
            None => Err(RegistryError::NotRegistered(name.to_string())),
        }
    }

    /// Takes in the model that was constructed for a cold expert.
    pub fn finish_load(&mut self, name: &str, handle: u64)
        requires
            old(self).wf(),
            old(self)@.tier(name@) is Cold,
        ensures
            final(self).wf(),
            final(self)@ == old(self)@.loaded(name@, handle),
    {
        self.hot.insert(name, handle);
    }

    /// Demotes an expert from hot to warm.
    pub fn hibernate(&mut self, name: &str)
        requires
            old(self).wf(),
        ensures
            final(self).wf(),
            final(self)@ == old(self)@.hibernated(name@),
    {
        let ghost before = self@;
        proof {
            hibernation_keeps_tiers(before, name@);
        }
        if let Some(handle) = self.hot.remove(name) {
            warm_put(&mut self.warm, name.to_string(), handle);
        } else {
            assert(before.hot.remove(name@) =~= before.hot);
        }
    }

    /// Demotes every hot expert outside `keep`, one after the other in an order
    /// that is left open.
    pub fn evict_except(&mut self, keep: &[&str])
        requires
            old(self).wf(),
        ensures
            final(self).wf(),
            exists|order: Seq<Seq<char>>| #[trigger]
                old(self)@.is_eviction_order(keep@, order) && final(self)@ == old(
                    self,
                )@.hibernated_all(order),
    {
        let ghost start = self@;
        let ghost mut order: Seq<Seq<char>> = Seq::empty();
        loop
            invariant
                self.wf(),
                self@ == start.hibernated_all(order),
                order.no_duplicates(),
                start == old(self)@,
                forall|n: Seq<char>| #[trigger]
                    order.contains(n) ==> start.hot.dom().contains(n) && !table::is_among(
                        keep@,
                        n,
                    ),
                forall|n: Seq<char>| #[trigger]
                    self@.hot.dom().contains(n) <==> start.hot.dom().contains(n)
                        && !order.contains(n),
            decreases self.hot.size(),
        {
            match self.hot.name_outside(keep) {
                None => {
                    proof {
                        assert forall|n: Seq<char>|
                            start.hot.dom().contains(n) && !table::is_among(
                                keep@,
                                n,
                            ) implies #[trigger] order.contains(n) by {
                            assert(self@.hot.dom().contains(n) ==> table::is_among(keep@, n));
                        }
                        assert(start.is_eviction_order(keep@, order));
                    }
                    return;
                },
                Some(name) => {
                    let ghost before = self@;
                    let ghost previous = order;
                    proof {
                        hibernation_keeps_tiers(before, name@);
                        assert(before.hot.dom().contains(name@));
                        order = order.push(name@);
                        assert(order.drop_last() =~= previous);
                        lemma_push_name(previous, name@);
                    }
                    if let Some(handle) = self.hot.remove(name.as_str()) {
                        warm_put(&mut self.warm, name, handle);
                    }
                },
            }
        }
    }

    /// The tier that an expert is in.
    pub fn tier(&self, name: &str) -> (t: ModelTier)
        requires
            self.wf(),
        ensures
            t == self@.tier(name@),
    {
        if self.hot.get(name).is_some() {
            ModelTier::Hot
        } else if warm_contains(&self.warm, name) {
            ModelTier::Warm
        } else {
            ModelTier::Cold
        }
    }
}

proof fn lemma_push_name(order: Seq<Seq<char>>, name: Seq<char>)
    ensures
        forall|n: Seq<char>| #[trigger]
            order.push(name).contains(n) <==> order.contains(n) || n == name,
        order.no_duplicates() && !order.contains(name) ==> order.push(name).no_duplicates(),
{
    let longer = order.push(name);
    assert forall|n: Seq<char>| #[trigger] longer.contains(n) <==> order.contains(n) || n
        == name by {
        if order.contains(n) {
            let i = choose|i: int| 0 <= i < order.len() && order[i] == n;
            assert(longer[i] == n);
        }
        assert(longer[order.len() as int] == name);
    }
}

/// Activating keeps the tiers apart and bounded; the expert is hot unless it was
/// cold, and every other expert stays where it is.
pub proof fn activation_keeps_tiers(t: Tiers, name: Seq<char>)
    requires
        t.wf(),
    ensures
        t.activated(name).wf(),
        t.tier(name) is Cold || t.tier(name) is Hot ==> t.activated(name) == t,
        !(t.tier(name) is Cold) ==> t.activated(name).tier(name) is Hot,
        forall|n: Seq<char>| n != name ==> #[trigger] t.activated(name).tier(n) == t.tier(n),
{
    warm_tier::lemma_without(t.warm, name);
    let after = t.activated(name);
    assert forall|n: Seq<char>| #[trigger] after.hot.dom().contains(n) implies warm_tier::lookup(
        after.warm,
        n,
    ) is None by {
        if n != name {
            assert(t.hot.dom().contains(n));
        }
    }
}

/// A cold expert that was constructed is hot, and every other expert stays where
/// it is.
pub proof fn loading_makes_hot(t: Tiers, name: Seq<char>, handle: u64)
    requires
        t.wf(),
        t.tier(name) is Cold,
    ensures
        t.loaded(name, handle).wf(),
        t.loaded(name, handle).tier(name) is Hot,
        t.loaded(name, handle).hot == t.hot.insert(name, handle),
        t.loaded(name, handle).warm == t.warm,
        t.loaded(name, handle).cold == t.cold,
        t.loaded(name, handle).capacity == t.capacity,
        forall|n: Seq<char>| n != name ==> #[trigger] t.loaded(name, handle).tier(n) == t.tier(n),
{
}

/// Hibernating keeps the tiers apart and bounded. A hot expert is then warm with
/// the same model, every other hot expert stays hot, and a warm expert stays
/// warm unless the tier was full and it was the least recently used one.
pub proof fn hibernation_keeps_tiers(t: Tiers, name: Seq<char>)
    requires
        t.wf(),
    ensures
        t.hibernated(name).wf(),
        t.tier(name) is Hot ==> t.hibernated(name).tier(name) is Warm && warm_tier::lookup(
            t.hibernated(name).warm,
            name,
        ) == Some(t.hot[name]),
        !(t.tier(name) is Hot) ==> t.hibernated(name) == t,
        forall|n: Seq<char>|
            n != name && !(t.warm.len() == t.capacity && n == t.warm.last().0)
                ==> #[trigger] t.hibernated(name).tier(n) == t.tier(n),
{
    if t.hot.dom().contains(name) {
        warm_tier::lemma_with_entry(t.warm, t.capacity, name, t.hot[name]);
        let after = t.hibernated(name);
        assert forall|n: Seq<char>| #[trigger] after.hot.dom().contains(
            n,
        ) implies warm_tier::lookup(after.warm, n) is None by {
            assert(t.hot.dom().contains(n));
            if t.warm.len() == t.capacity && n == t.warm.last().0 {
                warm_tier::lemma_lookup_finds(t.warm, t.warm.len() - 1);
            }
        }
    }
}

/// Activation undoes hibernation: the same model is hot again, and all that was
/// hot is.
pub proof fn activation_undoes_hibernation(t: Tiers, name: Seq<char>)
    requires
        t.wf(),
        t.tier(name) is Hot,
    ensures
        t.hibernated(name).activated(name).hot == t.hot,
        t.hibernated(name).activated(name).cold == t.cold,
{
    hibernation_keeps_tiers(t, name);
    assert(t.hibernated(name).activated(name).hot =~= t.hot);
}

/// After eviction exactly the hot experts among `keep` are hot, with their
/// models.
pub proof fn eviction_keeps_exactly_the_named(
    t: Tiers,
    keep: Seq<&str>,
    order: Seq<Seq<char>>,
    n: Seq<char>,
)
    requires
        t.wf(),
        t.is_eviction_order(keep, order),
    ensures
        t.hibernated_all(order).tier(n) is Hot <==> t.tier(n) is Hot && table::is_among(keep, n),
        t.hibernated_all(order).tier(n) is Hot ==> t.hibernated_all(order).hot[n] == t.hot[n],
        t.hibernated_all(order).cold == t.cold,
        t.hibernated_all(order).wf(),
{
    lemma_hibernated_all(t, order);
    assert(order.contains(n) <==> t.hot.dom().contains(n) && !table::is_among(keep, n));
}

/// Eviction fills the warm tier. Only evicted experts and those that were warm are
/// warm then, each with its model; all of them are, while there is room; and where
/// there is not, the tier is full.
pub proof fn eviction_fills_the_warm_tier(t: Tiers, keep: Seq<&str>, order: Seq<Seq<char>>)
    requires
        t.wf(),
        t.is_eviction_order(keep, order),
    ensures
        ({
            let after = t.hibernated_all(order);
            let total = t.warm.len() + order.len();
            &&& forall|n: Seq<char>| #[trigger]
                after.tier(n) is Warm ==> (t.tier(n) is Hot && !table::is_among(keep, n)
                    && warm_tier::lookup(after.warm, n) == Some(t.hot[n])) || (t.tier(n) is Warm
                    && warm_tier::lookup(after.warm, n) == warm_tier::lookup(t.warm, n))
            &&& total <= t.capacity ==> forall|n: Seq<char>|
                (t.tier(n) is Hot && !table::is_among(keep, n)) || t.tier(n) is Warm
                    ==> #[trigger] after.tier(n) is Warm
            &&& after.warm.len() == if total <= t.capacity {
                total
            } else {
                t.capacity
            }
        }),
{
    assert forall|n: Seq<char>| #[trigger] order.contains(n) implies t.hot.dom().contains(n) by {}
    lemma_hibernated_all(t, order);
    lemma_warm_after(t, order);
    let after = t.hibernated_all(order);
    assert forall|n: Seq<char>| #[trigger] after.tier(n) is Warm implies (t.tier(n) is Hot
        && !table::is_among(keep, n) && warm_tier::lookup(after.warm, n) == Some(t.hot[n])) || (
    t.tier(n) is Warm && warm_tier::lookup(after.warm, n) == warm_tier::lookup(t.warm, n)) by {
        assert(warm_tier::lookup(after.warm, n) is Some);
        assert(after.hot.dom().contains(n) <==> t.hot.dom().contains(n) && !order.contains(n));
    }
    if t.warm.len() + order.len() <= t.capacity {
        assert forall|n: Seq<char>|
            (t.tier(n) is Hot && !table::is_among(keep, n)) || t.tier(n) is Warm implies (
        #[trigger] after.tier(n)) is Warm by {
            assert(order.contains(n) <==> t.hot.dom().contains(n) && !table::is_among(keep, n));
            assert(after.hot.dom().contains(n) <==> t.hot.dom().contains(n)
                && !order.contains(n));
            assert(order.contains(n) || warm_tier::lookup(t.warm, n) is Some);
            assert(warm_tier::lookup(after.warm, n) is Some);
        }
    }
}

/// The warm tier after hibernating distinct hot experts.
#[verifier::spinoff_prover]
proof fn lemma_warm_after(t: Tiers, order: Seq<Seq<char>>)
    requires
        t.wf(),
        order.no_duplicates(),
        forall|n: Seq<char>| #[trigger] order.contains(n) ==> t.hot.dom().contains(n),
    ensures
        ({
            let after = t.hibernated_all(order);
            let total = t.warm.len() + order.len();
            &&& forall|n: Seq<char>|
                (#[trigger] warm_tier::lookup(after.warm, n)) is Some ==> warm_tier::lookup(
                    after.warm,
                    n,
                ) == if order.contains(n) {
                    Some(t.hot[n])
                } else {
                    warm_tier::lookup(t.warm, n)
                }
            &&& total <= t.capacity ==> forall|n: Seq<char>|
                order.contains(n) || warm_tier::lookup(t.warm, n) is Some
                    ==> #[trigger] warm_tier::lookup(after.warm, n) is Some
            &&& after.warm.len() == if total <= t.capacity {
                total
            } else {
                t.capacity
            }
        }),
    decreases order.len(),
{
    if order.len() > 0 {
        let short = order.drop_last();
        let name = order.last();
        let before = t.hibernated_all(short);
        let after = t.hibernated_all(order);
        assert(short.push(name) =~= order);
        lemma_push_name(short, name);
        assert(!short.contains(name)) by {
            if short.contains(name) {
                let i = choose|i: int| 0 <= i < short.len() && short[i] == name;
                assert(order[i] == order[order.len() - 1]);
            }
        }
        assert forall|n: Seq<char>| #[trigger] short.contains(n) implies t.hot.dom().contains(
            n,
        ) by {
            assert(order.contains(n));
        }
        assert(order.contains(name));
        lemma_hibernated_all(t, short);
        lemma_warm_after(t, short);
        assert(before.hot.dom().contains(name));
        assert(before.hot[name] == t.hot[name]);
        assert(warm_tier::lookup(before.warm, name) is None);
        warm_tier::lemma_with_entry(before.warm, before.capacity, name, t.hot[name]);
        assert forall|n: Seq<char>|
            (#[trigger] warm_tier::lookup(after.warm, n)) is Some implies warm_tier::lookup(
            after.warm,
            n,
        ) == if order.contains(n) {
            Some(t.hot[n])
        } else {
            warm_tier::lookup(t.warm, n)
        } by {
            if n != name {
                warm_tier::lemma_lookup(after.warm, n);
                let h = warm_tier::lookup(after.warm, n).unwrap();
                let i = choose|i: int|
                    0 <= i < after.warm.len() && #[trigger] after.warm[i] == (n, h);
                assert(before.warm[i - 1] == (n, h));
                warm_tier::lemma_lookup_finds(before.warm, i - 1);
            }
        }
    }
}

proof fn lemma_hibernated_all(t: Tiers, order: Seq<Seq<char>>)
    requires
        t.wf(),
    ensures
        t.hibernated_all(order).wf(),
        t.hibernated_all(order).cold == t.cold,
        t.hibernated_all(order).capacity == t.capacity,
        forall|n: Seq<char>| #[trigger]
            t.hibernated_all(order).hot.dom().contains(n) <==> t.hot.dom().contains(n)
                && !order.contains(n),
        forall|n: Seq<char>| #[trigger]
            t.hibernated_all(order).hot.dom().contains(n) ==> t.hibernated_all(order).hot[n]
                == t.hot[n],
    decreases order.len(),
{
    if order.len() > 0 {
        let short = order.drop_last();
        lemma_hibernated_all(t, short);
        hibernation_keeps_tiers(t.hibernated_all(short), order.last());
        lemma_push_name(short, order.last());
        assert(short.push(order.last()) =~= order);
    }
}

/// The tier of an expert: hot where it has a resident model, warm where it has none but
/// stands in the cache, and cold otherwise.
pub proof fn tier_says_where_an_expert_is(t: Tiers, name: Seq<char>)
    ensures
        t.tier(name) is Hot <==> t.hot.dom().contains(name),
        t.tier(name) is Warm <==> !t.hot.dom().contains(name) && exists|i: int|
            0 <= i < t.warm.len() && (#[trigger] t.warm[i]).0 == name,
{
    warm_tier::lemma_lookup(t.warm, name);
    if let Some(h) = warm_tier::lookup(t.warm, name) {
        let i = choose|i: int| 0 <= i < t.warm.len() && #[trigger] t.warm[i] == (name, h);
        assert(t.warm[i].0 == name);
    }
}

/// A hot expert that hibernates leaves the hot tier and stands in front of the cache with
/// its model. Of the others only the last in the cache leaves, where it was full.
pub proof fn hibernation_puts_in_front(t: Tiers, name: Seq<char>)
    requires
        t.wf(),
        t.hot.dom().contains(name),
    ensures
        t.hibernated(name).hot == t.hot.remove(name),
        t.hibernated(name).cold == t.cold,
        t.hibernated(name).capacity == t.capacity,
        t.warm.len() < t.capacity ==> t.hibernated(name).warm == seq![(name, t.hot[name])] + t.warm,
        t.warm.len() == t.capacity ==> t.hibernated(name).warm == seq![(name, t.hot[name])]
            + t.warm.drop_last(),
{
}

/// A warm expert that is activated moves to the hot tier with its model; the others stay
/// in the cache, in their order.
pub proof fn activation_takes_out_of_the_cache(t: Tiers, i: int)
    requires
        t.wf(),
        0 <= i < t.warm.len(),
    ensures
        ({
            let (name, model) = t.warm[i];
            &&& t.activated(name).hot == t.hot.insert(name, model)
            &&& t.activated(name).warm == t.warm.remove(i)
            &&& t.activated(name).cold == t.cold
            &&& t.activated(name).capacity == t.capacity
        }),
{
    let (name, model) = t.warm[i];
    warm_tier::lemma_lookup_finds(t.warm, i);
    warm_tier::lemma_without_is_removal(t.warm, i);
    assert(!t.hot.dom().contains(name));
}

}
