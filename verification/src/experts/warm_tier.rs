//! The warm tier: the cache of the `lru` crate, from expert names to the
//! handles of constructed models.

use lru::{DefaultHasher, LruCache};
use std::num::NonZeroUsize;
use vstd::prelude::*;
use vstd::string::*;

verus! {

/// The cache type of the `lru` crate.
#[verifier::external_type_specification]
#[verifier::external_body]
#[verifier::reject_recursive_types(K)]
#[verifier::reject_recursive_types(V)]
#[verifier::reject_recursive_types(S)]
pub struct ExLruCache<K, V, S>(LruCache<K, V, S>);

/// The hasher that the cache uses by default.
#[verifier::external_type_specification]
#[verifier::external_body]
pub struct ExDefaultHasher(DefaultHasher);

/// The entries of a cache, the most recently used first.
pub uninterp spec fn warm_entries(cache: LruCache<String, u64>) -> Seq<(Seq<char>, u64)>;

/// How many entries a cache holds at most.
pub uninterp spec fn warm_capacity(cache: LruCache<String, u64>) -> nat;

/// The handle of `name` among `entries`.
pub open spec fn lookup(entries: Seq<(Seq<char>, u64)>, name: Seq<char>) -> Option<u64>
    decreases entries.len(),
{
    if entries.len() == 0 {
        None
    } else if entries.first().0 == name {
        Some(entries.first().1)
    } else {
        lookup(entries.drop_first(), name)
    }
}

/// `entries` without `name`, the others in their order.
pub open spec fn without(entries: Seq<(Seq<char>, u64)>, name: Seq<char>) -> Seq<
    (Seq<char>, u64),
>
    decreases entries.len(),
{
    if entries.len() == 0 {
        entries
    } else if entries.first().0 == name {
        without(entries.drop_first(), name)
    } else {
        seq![entries.first()] + without(entries.drop_first(), name)
    }
}

/// `entries` with `name` in front as the most recently used. Where `name` is new
/// and the cache is full, the least recently used entry leaves.
pub open spec fn with_entry(
    entries: Seq<(Seq<char>, u64)>,
    capacity: nat,
    name: Seq<char>,
    handle: u64,
) -> Seq<(Seq<char>, u64)> {
    seq![(name, handle)] + if lookup(entries, name) is Some {
        without(entries, name)
    } else if entries.len() == capacity {
        entries.drop_last()
    } else {
        entries
    }
}

/// The largest capacity whose hash table fits every address space.
pub const MAX_WARM_CAPACITY: usize = 0x0700_0000;

/// `lru::LruCache::new`: an empty cache for at most `capacity` entries. It
/// reserves a hash table for that many at once and panics where such a table
/// cannot be addressed, so the capacity is bounded.
#[verifier::external_body]
pub(crate) fn warm_new(capacity: usize) -> (cache: LruCache<String, u64>)
    requires
        0 < capacity <= MAX_WARM_CAPACITY,
    ensures
        warm_entries(cache) == Seq::<(Seq<char>, u64)>::empty(),
        warm_capacity(cache) == capacity,
{
    LruCache::new(NonZeroUsize::new(capacity).unwrap())
}

/// `lru::LruCache::put`: the entry goes to the front; an entry of the same name
/// is replaced, and else a full cache drops its least recently used entry.
#[verifier::external_body]
pub(crate) fn warm_put(cache: &mut LruCache<String, u64>, name: String, handle: u64)
    ensures
        warm_entries(*final(cache)) == with_entry(
            warm_entries(*old(cache)),
            warm_capacity(*old(cache)),
            name@,
            handle,
        ),
        warm_capacity(*final(cache)) == warm_capacity(*old(cache)),
{
    cache.put(name, handle);
}

/// `lru::LruCache::pop`: takes the entry of `name` out, where there is one, and
/// returns its value; the others stay as they are.
#[verifier::external_body]
pub(crate) fn warm_pop(cache: &mut LruCache<String, u64>, name: &str) -> (r: Option<u64>)
    ensures
        r == lookup(warm_entries(*old(cache)), name@),
        warm_entries(*final(cache)) == without(warm_entries(*old(cache)), name@),
        warm_capacity(*final(cache)) == warm_capacity(*old(cache)),
{
    cache.pop(name)
}

/// `lru::LruCache::contains`: whether there is an entry of `name`. The order of
/// use stays as it is.
#[verifier::external_body]
pub(crate) fn warm_contains(cache: &LruCache<String, u64>, name: &str) -> (r: bool)
    ensures
        r == (lookup(warm_entries(*cache), name@) is Some),
{
    cache.contains(name)
}

/// Whether no name occurs twice.
pub open spec fn names_differ(entries: Seq<(Seq<char>, u64)>) -> bool {
    forall|i: int, j: int| #![trigger entries[i], entries[j]]
        0 <= i < j < entries.len() ==> entries[i].0 != entries[j].0
}

/// A lookup finds what stands among the entries.
pub proof fn lemma_lookup(entries: Seq<(Seq<char>, u64)>, name: Seq<char>)
    ensures
        match lookup(entries, name) {
            Some(h) => exists|i: int|
                0 <= i < entries.len() && #[trigger] entries[i] == (name, h),
            None => forall|i: int|
                0 <= i < entries.len() ==> (#[trigger] entries[i]).0 != name,
        },
    decreases entries.len(),
{
    if entries.len() > 0 && entries.first().0 != name {
        let rest = entries.drop_first();
        lemma_lookup(rest, name);
        match lookup(rest, name) {
            Some(h) => {
                let i = choose|i: int| 0 <= i < rest.len() && #[trigger] rest[i] == (name, h);
                assert(entries[i + 1] == (name, h));
            },
            None => {
                assert forall|i: int| 0 <= i < entries.len() implies (#[trigger] entries[i]).0
                    != name by {
                    if i > 0 {
                        assert(rest[i - 1] == entries[i]);
                    }
                }
            },
        }
    }
}

/// What stands among entries of different names is what a lookup finds.
pub proof fn lemma_lookup_finds(entries: Seq<(Seq<char>, u64)>, i: int)
    requires
        names_differ(entries),
        0 <= i < entries.len(),
    ensures
        lookup(entries, entries[i].0) == Some(entries[i].1),
{
    lemma_lookup(entries, entries[i].0);
    if let Some(h) = lookup(entries, entries[i].0) {
        let j = choose|j: int|
            0 <= j < entries.len() && #[trigger] entries[j] == (entries[i].0, h);
        if i < j {
            assert(entries[i].0 != entries[j].0);
        } else if j < i {
            assert(entries[j].0 != entries[i].0);
        }
    }
}

/// What is left without a name: the entries of the other names.
pub proof fn lemma_without(entries: Seq<(Seq<char>, u64)>, name: Seq<char>)
    ensures
        forall|n: Seq<char>| #[trigger]
            lookup(without(entries, name), n) == if n == name {
                None
            } else {
                lookup(entries, n)
            },
        forall|i: int|
            0 <= i < without(entries, name).len() ==> entries.contains(
                #[trigger] without(entries, name)[i],
            ),
        names_differ(entries) ==> names_differ(without(entries, name)),
        without(entries, name).len() <= entries.len(),
        lookup(entries, name) is Some ==> without(entries, name).len() < entries.len(),
        lookup(entries, name) is None ==> without(entries, name) == entries,
    decreases entries.len(),
{
    if entries.len() > 0 {
        let rest = entries.drop_first();
        let left = without(rest, name);
        let all = without(entries, name);
        lemma_without(rest, name);
        assert forall|i: int| 0 <= i < all.len() implies entries.contains(#[trigger] all[i]) by {
            if entries.first().0 == name {
                assert(rest.contains(left[i]));
                let j = choose|j: int| 0 <= j < rest.len() && rest[j] == left[i];
                assert(entries[j + 1] == all[i]);
            } else if i == 0 {
                assert(entries[0] == all[0]);
            } else {
                assert(rest.contains(left[i - 1]));
                let j = choose|j: int| 0 <= j < rest.len() && rest[j] == left[i - 1];
                assert(entries[j + 1] == all[i]);
            }
        }
        if entries.first().0 != name {
            assert(all.drop_first() =~= left);
            assert(all.first() == entries.first());
        }
        assert forall|n: Seq<char>| #[trigger] lookup(all, n) == if n == name {
            None
        } else {
            lookup(entries, n)
        } by {
            assert(lookup(left, n) == if n == name {
                None
            } else {
                lookup(rest, n)
            });
        }
        if names_differ(entries) {
            assert forall|i: int, j: int| 0 <= i < j < rest.len() implies rest[i].0
                != rest[j].0 by {
                assert(entries[i + 1].0 != entries[j + 1].0);
            }
            if entries.first().0 != name {
                assert forall|i: int, j: int| 0 <= i < j < all.len() implies all[i].0
                    != all[j].0 by {
                    assert(all[j] == left[j - 1]);
                    if i == 0 {
                        assert(rest.contains(left[j - 1]));
                        let k = choose|k: int| 0 <= k < rest.len() && rest[k] == left[j - 1];
                        assert(entries[0].0 != entries[k + 1].0);
                    } else {
                        assert(left[i - 1].0 != left[j - 1].0);
                    }
                }
            }
        }
        if lookup(entries, name) is None {
            assert(all =~= entries);
        }
    }
}

/// What a put does to lookups: the name itself is found, and of the others only
/// the least recently used one of a full cache can be missed.
pub proof fn lemma_with_entry(
    entries: Seq<(Seq<char>, u64)>,
    capacity: nat,
    name: Seq<char>,
    handle: u64,
)
    requires
        names_differ(entries),
        0 < capacity,
        entries.len() <= capacity,
    ensures
        ({
            let after = with_entry(entries, capacity, name, handle);
            &&& names_differ(after)
            &&& 0 < after.len() <= capacity
            &&& lookup(after, name) == Some(handle)
            &&& forall|n: Seq<char>|
                n != name && !(lookup(entries, name) is None && entries.len() == capacity && n
                    == entries.last().0) ==> #[trigger] lookup(after, n) == lookup(entries, n)
        }),
{
    let after = with_entry(entries, capacity, name, handle);
    let rest = after.drop_first();
    lemma_without(entries, name);
    lemma_lookup(entries, name);
    if lookup(entries, name) is Some {
        assert(rest =~= without(entries, name));
        lemma_lookup(rest, name);
    } else if entries.len() == capacity {
        assert(rest =~= entries.drop_last());
        lemma_drop_last(entries);
        assert forall|i: int| 0 <= i < rest.len() implies (#[trigger] rest[i]).0 != name by {
            assert(entries[i] == rest[i]);
        }
    } else {
        assert(rest =~= entries);
    }
    assert(names_differ(rest));
    lemma_lookup(rest, name);
    assert forall|i: int, j: int| 0 <= i < j < after.len() implies after[i].0 != after[j].0 by {
        assert(after[j] == rest[j - 1]);
        if i > 0 {
            assert(after[i] == rest[i - 1]);
        } else {
            lemma_lookup(rest, name);
        }
    }
    assert forall|n: Seq<char>|
        n != name && !(lookup(entries, name) is None && entries.len() == capacity && n
            == entries.last().0) implies #[trigger] lookup(after, n) == lookup(entries, n) by {
        assert(lookup(after, n) == lookup(rest, n));
    }
}

proof fn lemma_drop_last(entries: Seq<(Seq<char>, u64)>)
    requires
        names_differ(entries),
        entries.len() > 0,
    ensures
        names_differ(entries.drop_last()),
        forall|n: Seq<char>|
            n != entries.last().0 ==> #[trigger] lookup(entries.drop_last(), n) == lookup(
                entries,
                n,
            ),
    decreases entries.len(),
{
    let short = entries.drop_last();
    assert forall|i: int, j: int| 0 <= i < j < short.len() implies short[i].0 != short[j].0 by {
        assert(entries[i].0 != entries[j].0);
    }
    if entries.len() > 1 {
        let rest = entries.drop_first();
        assert forall|i: int, j: int| 0 <= i < j < rest.len() implies rest[i].0 != rest[j].0 by {
            assert(entries[i + 1].0 != entries[j + 1].0);
        }
        lemma_drop_last(rest);
        assert(rest.drop_last() =~= short.drop_first());
        assert(rest.last() == entries.last());
        assert forall|n: Seq<char>| n != entries.last().0 implies #[trigger] lookup(short, n)
            == lookup(entries, n) by {
            assert(lookup(rest.drop_last(), n) == lookup(rest, n));
            assert(short.first() == entries.first());
        }
    } else {
        assert(entries.drop_first() =~= Seq::<(Seq<char>, u64)>::empty());
        assert forall|n: Seq<char>| n != entries.last().0 implies #[trigger] lookup(short, n)
            == lookup(entries, n) by {
            assert(lookup(entries.drop_first(), n) is None);
        }
    }
}

/// Taking a name out of entries of different names takes out the one entry.
pub proof fn lemma_without_is_removal(entries: Seq<(Seq<char>, u64)>, i: int)
    requires
        names_differ(entries),
        0 <= i < entries.len(),
    ensures
        without(entries, entries[i].0) == entries.remove(i),
    decreases entries.len(),
{
    let name = entries[i].0;
    let rest = entries.drop_first();
    assert forall|a: int, b: int| 0 <= a < b < rest.len() implies rest[a].0 != rest[b].0 by {
        assert(entries[a + 1].0 != entries[b + 1].0);
    }
    if i == 0 {
        lemma_lookup(rest, name);
        if lookup(rest, name) is Some {
            let h = lookup(rest, name).unwrap();
            let j = choose|j: int| 0 <= j < rest.len() && #[trigger] rest[j] == (name, h);
            assert(entries[0].0 != entries[j + 1].0);
        }
        lemma_without(rest, name);
        assert(entries.remove(0) =~= rest);
    } else {
        assert(entries[0].0 != entries[i].0);
        assert(rest[i - 1] == entries[i]);
        lemma_without_is_removal(rest, i - 1);
        assert(seq![entries.first()] + rest.remove(i - 1) =~= entries.remove(i));
    }
}

}
