//! Values by name.
use crate::text;
use vstd::prelude::*;

verus! {

/// Values by name.
#[derive(Debug)]
pub struct TextMap<V> {
    pub entries: Vec<(String, V)>,
}

/// Where a name stands from the `i`-th entry on; the number of entries where it does not.
pub open spec fn key_from<V>(e: Seq<(String, V)>, key: Seq<char>, i: int) -> int
    decreases e.len() - i,
{
    if i >= e.len() {
        e.len() as int
    } else if e[i].0@ == key {
        i
    } else {
        key_from(e, key, i + 1)
    }
}

proof fn lemma_key_from<V>(e: Seq<(String, V)>, key: Seq<char>, i: int)
    requires
        0 <= i <= e.len(),
    ensures
        i <= key_from(e, key, i) <= e.len(),
        key_from(e, key, i) < e.len() ==> e[key_from(e, key, i)].0@ == key,
        forall|j: int| i <= j < key_from(e, key, i) ==> (#[trigger] e[j]).0@ != key,
    decreases e.len() - i,
{
    if i < e.len() && e[i].0@ != key {
        lemma_key_from(e, key, i + 1);
    }
}

impl<V> View for TextMap<V> {
    type V = Map<Seq<char>, V>;

    open spec fn view(&self) -> Map<Seq<char>, V> {
        Map::new(
            |k: Seq<char>| key_from(self.entries@, k, 0) < self.entries@.len(),
            |k: Seq<char>| self.entries@[key_from(self.entries@, k, 0)].1,
        )
    }
}

impl<V> TextMap<V> {
    /// Whether no name comes twice.
    pub open spec fn wf(&self) -> bool {
        forall|i: int, j: int|
            0 <= i < j < self.entries@.len() ==> (#[trigger] self.entries@[i]).0@ != (
            #[trigger] self.entries@[j]).0@
    }

    /// Without values.
    pub fn new() -> (r: Self)
        ensures
            r.wf(),
            r@ == Map::<Seq<char>, V>::empty(),
            r.entries@.len() == 0,
    {
        let r = TextMap { entries: Vec::new() };
        assert(r@ =~= Map::<Seq<char>, V>::empty());
        r
    }

    /// The value of a name.
    pub fn get(&self, key: &str) -> (r: Option<&V>)
        ensures
            match r {
                Some(v) => self@.dom().contains(key@) && *v == self@[key@],
                None => !self@.dom().contains(key@),
            },
    {
        let mut i: usize = 0;
        while i < self.entries.len()
            invariant
                i <= self.entries@.len(),
                key_from(self.entries@, key@, 0) == key_from(self.entries@, key@, i as int),
            decreases self.entries@.len() - i,
        {
            if text::same(self.entries[i].0.as_str(), key) {
                return Some(&self.entries[i].1);
            }
            i += 1;
        }
        None
    }

    /// Sets the value of a name, in place of the one it had.
    pub fn insert(&mut self, key: String, value: V)
        ensures
            final(self)@ == old(self)@.insert(key@, value),
            old(self).wf() ==> final(self).wf(),
    {
        let mut i: usize = 0;
        while i < self.entries.len() && !text::same(self.entries[i].0.as_str(), key.as_str())
            invariant
                i <= self.entries@.len(),
                *self == *old(self),
                key_from(self.entries@, key@, 0) == key_from(self.entries@, key@, i as int),
            decreases self.entries@.len() - i,
        {
            i += 1;
        }
        let ghost before = self.entries@;
        let ghost name = key@;
        if i < self.entries.len() {
            self.entries.set(i, (key, value));
        } else {
            self.entries.push((key, value));
        }
        proof {
            let after = self.entries@;
            lemma_key_from(before, name, 0);
            assert(key_from(before, name, 0) == i);
            assert forall|k: Seq<char>| self@.dom().contains(k) <==> old(self)@.insert(
                name,
                value,
            ).dom().contains(k) by {
                lemma_set(before, after, i as int, k);
            }
            assert forall|k: Seq<char>| self@.dom().contains(k) implies self@[k] == old(
                self,
            )@.insert(name, value)[k] by {
                lemma_set(before, after, i as int, k);
            }
            assert(self@ =~= old(self)@.insert(name, value));
            if old(self).wf() {
                assert forall|a: int, b: int| 0 <= a < b < after.len() implies (
                #[trigger] after[a]).0@ != (#[trigger] after[b]).0@ by {
                    assert(a < before.len() ==> after[a].0@ == before[a].0@);
                    assert(b < before.len() ==> after[b].0@ == before[b].0@);
                }
            }
        }
    }
}

proof fn lemma_set<V>(before: Seq<(String, V)>, after: Seq<(String, V)>, i: int, k: Seq<char>)
    requires
        0 <= i <= before.len(),
        i < before.len() ==> after == before.update(i, after[i]) && after[i].0@ == before[i].0@,
        i == before.len() ==> after == before.push(after[i]) && after.len() == i + 1,
        i == before.len() ==> key_from(before, after[i].0@, 0) == i,
        i < before.len() ==> key_from(before, before[i].0@, 0) == i,
    ensures
        k == after[i].0@ ==> key_from(after, k, 0) == i,
        k != after[i].0@ ==> (key_from(after, k, 0) < after.len() <==> key_from(before, k, 0)
            < before.len()),
        k != after[i].0@ && key_from(after, k, 0) < after.len() ==> after[key_from(after, k, 0)]
            == before[key_from(before, k, 0)],
{
    lemma_key_from(before, k, 0);
    lemma_key_from(after, k, 0);
    lemma_key_from(before, after[i].0@, 0);
    let x = key_from(before, k, 0);
    let y = key_from(after, k, 0);
    if k == after[i].0@ {
        if y < i {
            assert(after[y] == before[y]);
        }
        if y > i {
            assert(after[i].0@ != k);
        }
    } else {
        if y < after.len() {
            assert(y != i);
            assert(after[y] == before[y]);
            if x < y {
                assert(after[x].0@ == before[x].0@);
            }
        }
        if x < before.len() {
            assert(before[x].0@ == k);
            assert(after[x].0@ == before[x].0@);
        }
    }
}

/// A map holds under a key what its first entry with that key has, and nothing exactly if no entry
/// has it.
pub proof fn law_entries<V>(m: TextMap<V>, key: Seq<char>, i: int)
    ensures
        0 <= i < m.entries@.len() && m.entries@[i].0@ == key && (forall|j: int|
            0 <= j < i ==> (#[trigger] m.entries@[j]).0@ != key) ==> m@.contains_key(key) && m@[key]
            == m.entries@[i].1,
        m@.contains_key(key) <==> exists|j: int|
            0 <= j < m.entries@.len() && (#[trigger] m.entries@[j]).0@ == key,
{
    lemma_key_from(m.entries@, key, 0);
    let k = key_from(m.entries@, key, 0);
    if k < m.entries@.len() {
        assert(m.entries@[k].0@ == key);
    }
}

} // verus!
