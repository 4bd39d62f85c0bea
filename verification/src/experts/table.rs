//! A table from names to values, with one value for each name.

use crate::text;
use vstd::prelude::*;
use vstd::string::*;

verus! {

/// Values by name. No name occurs twice.
pub struct NameTable<T> {
    entries: Vec<(String, T)>,
}

/// Whether no name occurs twice.
spec fn names_differ<T>(entries: Seq<(String, T)>) -> bool {
    forall|i: int, j: int| #![trigger entries[i], entries[j]]
        0 <= i < j < entries.len() ==> entries[i].0@ != entries[j].0@
}

/// The entries as a map; of two with one name the later counts.
spec fn as_map<T>(entries: Seq<(String, T)>) -> Map<Seq<char>, T>
    decreases entries.len(),
{
    if entries.len() == 0 {
        Map::empty()
    } else {
        as_map(entries.drop_last()).insert(entries.last().0@, entries.last().1)
    }
}

proof fn lemma_as_map<T>(entries: Seq<(String, T)>)
    requires
        names_differ(entries),
    ensures
        forall|n: Seq<char>| #[trigger]
            as_map(entries).dom().contains(n) <==> exists|i: int|
                0 <= i < entries.len() && (#[trigger] entries[i]).0@ == n,
        forall|i: int|
            0 <= i < entries.len() ==> as_map(entries)[(#[trigger] entries[i]).0@] == entries[i].1,
        as_map(entries).dom().finite(),
    decreases entries.len(),
{
    if entries.len() > 0 {
        let t = entries.drop_last();
        let m = entries.len() - 1;
        lemma_as_map(t);
        assert forall|n: Seq<char>| #[trigger] as_map(entries).dom().contains(n) implies exists|
            i: int,
        |
            0 <= i < entries.len() && (#[trigger] entries[i]).0@ == n by {
            if n == entries[m].0@ {
            } else {
                assert(as_map(t).dom().contains(n));
                let i = choose|i: int| 0 <= i < t.len() && (#[trigger] t[i]).0@ == n;
                assert(entries[i].0@ == n);
            }
        }
        assert forall|i: int| 0 <= i < entries.len() implies as_map(entries).dom().contains(
            (#[trigger] entries[i]).0@,
        ) && as_map(entries)[entries[i].0@] == entries[i].1 by {
            if i < m {
                assert(t[i] == entries[i]);
                assert(as_map(t).dom().contains(t[i].0@));
                assert(entries[i].0@ != entries[m].0@);
            }
        }
    }
}

impl<T> View for NameTable<T> {
    type V = Map<Seq<char>, T>;

    closed spec fn view(&self) -> Map<Seq<char>, T> {
        as_map(self.entries@)
    }
}

impl<T> NameTable<T> {
    /// Whether no name occurs twice.
    pub closed spec fn wf(&self) -> bool {
        names_differ(self.entries@)
    }

    /// How many names there are.
    pub closed spec fn size(&self) -> nat {
        self.entries@.len()
    }

    /// An empty table.
    pub fn new() -> (t: Self)
        ensures
            t.wf(),
            t@ == Map::<Seq<char>, T>::empty(),
    {
        NameTable { entries: Vec::new() }
    }

    /// Where `name` stands.
    fn position(&self, name: &str) -> (r: Option<usize>)
        ensures
            match r {
                Some(i) => i < self.entries@.len() && self.entries@[i as int].0@ == name@,
                None => forall|i: int|
                    0 <= i < self.entries@.len() ==> (#[trigger] self.entries@[i]).0@ != name@,
            },
    {
        let n: usize = self.entries.len();
        let mut i: usize = 0;
        while i < n
            invariant
                i <= n,
                n == self.entries@.len(),
                forall|j: int|
                    0 <= j < i ==> (#[trigger] self.entries@[j]).0@ != name@,
            decreases n - i,
        {
            if text::str_eq(self.entries[i].0.as_str(), name) {
                return Some(i);
            }
            i = i + 1;
        }
        None
    }

    /// The value of `name`.
    pub fn get(&self, name: &str) -> (r: Option<&T>)
        requires
            self.wf(),
        ensures
            match r {
                Some(v) => self@.dom().contains(name@) && self@[name@] == *v,
                None => !self@.dom().contains(name@),
            },
    {
        proof {
            lemma_as_map(self.entries@);
        }
        match self.position(name) {
            Some(i) => {
                assert(self.entries@[i as int].0@ == name@);
                Some(&self.entries[i].1)
            },
            None => None,
        }
    }

    /// Takes `name` and its value out.
    pub fn remove(&mut self, name: &str) -> (r: Option<T>)
        requires
            old(self).wf(),
        ensures
            final(self).wf(),
            final(self)@ == old(self)@.remove(name@),
            match r {
                Some(v) => {
                    &&& old(self)@.dom().contains(name@)
                    &&& old(self)@[name@] == v
                    &&& final(self).size() + 1 == old(self).size()
                },
                None => !old(self)@.dom().contains(name@) && final(self).size() == old(
                    self,
                ).size(),
            },
    {
        let ghost before = self.entries@;
        proof {
            lemma_as_map(before);
        }
        match self.position(name) {
            Some(i) => {
                let (_, v) = self.entries.remove(i);
                proof {
                    let after = self.entries@;
                    assert forall|a: int, b: int| 0 <= a < b < after.len() implies after[a].0@
                        != after[b].0@ by {
                        let x = if a < i {
                            a
                        } else {
                            a + 1
                        };
                        let y = if b < i {
                            b
                        } else {
                            b + 1
                        };
                        assert(before[x].0@ != before[y].0@);
                    }
                    lemma_as_map(after);
                    lemma_removed(before, after, i as int);
                }
                Some(v)
            },
            None => {
                assert(as_map(before).remove(name@) =~= as_map(before));
                None
            },
        }
    }

    /// Gives `name` a value, in place of the one it may have.
    pub fn insert(&mut self, name: &str, value: T)
        requires
            old(self).wf(),
        ensures
            final(self).wf(),
            final(self)@ == old(self)@.insert(name@, value),
    {
        let ghost start = self@;
        let _ = self.remove(name);
        let ghost before = self.entries@;
        proof {
            lemma_as_map(before);
        }
        self.entries.push((name.to_string(), value));
        proof {
            let after = self.entries@;
            assert(after.drop_last() =~= before);
            assert forall|a: int, b: int| 0 <= a < b < after.len() implies after[a].0@
                != after[b].0@ by {
                if b == before.len() {
                    assert(as_map(before).dom().contains(before[a].0@));
                } else {
                    assert(before[a].0@ != before[b].0@);
                }
            }
            assert(as_map(after) =~= start.insert(name@, value));
        }
    }

    /// A name that is not among `keep`.
    pub fn name_outside(&self, keep: &[&str]) -> (r: Option<String>)
        requires
            self.wf(),
        ensures
            match r {
                Some(n) => self@.dom().contains(n@) && !is_among(keep@, n@),
                None => forall|n: Seq<char>| #[trigger]
                    self@.dom().contains(n) ==> is_among(keep@, n),
            },
    {
        proof {
            lemma_as_map(self.entries@);
        }
        let n: usize = self.entries.len();
        let mut i: usize = 0;
        while i < n
            invariant
                i <= n,
                n == self.entries@.len(),
                self.wf(),
                forall|j: int|
                    0 <= j < i ==> is_among(keep@, (#[trigger] self.entries@[j]).0@),
            decreases n - i,
        {
            if !among(keep, self.entries[i].0.as_str()) {
                proof {
                    lemma_as_map(self.entries@);
                    assert(as_map(self.entries@).dom().contains(self.entries@[i as int].0@));
                }
                return Some(self.entries[i].0.clone());
            }
            i = i + 1;
        }
        None
    }
}

/// Taking an entry out takes its name out of the map.
proof fn lemma_removed<T>(before: Seq<(String, T)>, after: Seq<(String, T)>, i: int)
    requires
        names_differ(before),
        names_differ(after),
        0 <= i < before.len(),
        after == before.remove(i),
    ensures
        as_map(after) == as_map(before).remove(before[i].0@),
{
    lemma_as_map(before);
    lemma_as_map(after);
    let name = before[i].0@;
    let want = as_map(before).remove(name);
    assert forall|n: Seq<char>| #[trigger] as_map(after).dom().contains(n) implies want.dom().contains(
        n,
    ) && as_map(after)[n] == want[n] by {
        let a = choose|a: int| 0 <= a < after.len() && (#[trigger] after[a]).0@ == n;
        let x = if a < i {
            a
        } else {
            a + 1
        };
        assert(before[x] == after[a]);
        assert(as_map(before).dom().contains(before[x].0@));
        assert(as_map(before)[before[x].0@] == before[x].1);
        assert(before[x].0@ != before[i].0@);
    }
    assert forall|n: Seq<char>| #[trigger] want.dom().contains(n) implies as_map(
        after,
    ).dom().contains(n) by {
        assert(as_map(before).dom().contains(n));
        let x = choose|x: int| 0 <= x < before.len() && (#[trigger] before[x]).0@ == n;
        let a = if x < i {
            x
        } else {
            x - 1
        };
        assert(after[a] == before[x]);
    }
    assert(as_map(after) =~= want);
}

/// Whether `name` is among `names`.
pub open spec fn is_among(names: Seq<&str>, name: Seq<char>) -> bool {
    exists|i: int| 0 <= i < names.len() && (#[trigger] names[i])@ == name
}

/// Tests whether `name` is among `names`.
fn among(names: &[&str], name: &str) -> (r: bool)
    ensures
        r == is_among(names@, name@),
{
    let n: usize = names.len();
    let mut i: usize = 0;
    while i < n
        invariant
            i <= n,
            n == names@.len(),
            forall|j: int| 0 <= j < i ==> (#[trigger] names@[j])@ != name@,
        decreases n - i,
    {
        if text::str_eq(names[i], name) {
            return true;
        }
        i = i + 1;
    }
    false
}

/// A name is among others exactly if one of them has its characters.
pub proof fn among_means_listed(before: Seq<&str>, listed: &str, behind: Seq<&str>, name: Seq<char>)
    ensures
        is_among(before.push(listed) + behind, name) <==> listed@ == name || is_among(before, name)
            || is_among(behind, name),
        !is_among(Seq::<&str>::empty(), name),
{
    let all = before.push(listed) + behind;
    let n = before.len() as int;
    assert(all[n] == listed);
    if is_among(before, name) {
        let i = choose|i: int| 0 <= i < before.len() && (#[trigger] before[i])@ == name;
        assert(all[i]@ == name);
    }
    if is_among(behind, name) {
        let i = choose|i: int| 0 <= i < behind.len() && (#[trigger] behind[i])@ == name;
        assert(all[n + 1 + i]@ == name);
    }
    if is_among(all, name) {
        let i = choose|i: int| 0 <= i < all.len() && (#[trigger] all[i])@ == name;
        if i < n {
            assert(before[i]@ == name);
        } else if i > n {
            assert(behind[i - n - 1]@ == name);
        }
    }
}

}
