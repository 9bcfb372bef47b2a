use vstd::prelude::*;

use crate::text::{chars_of, has_prefix, starts_with_chars};

verus! {

/// The map that the pairs hold, a later pair winning over an earlier one.
pub open spec fn map_of<V>(pairs: Seq<(String, V)>) -> Map<Seq<char>, V>
    decreases pairs.len(),
{
    if pairs.len() == 0 {
        Map::empty()
    } else {
        map_of(pairs.drop_last()).insert(pairs.last().0@, pairs.last().1)
    }
}

/// No key occurs twice.
pub open spec fn keys_distinct<V>(pairs: Seq<(String, V)>) -> bool {
    forall|i: int, j: int| 0 <= i < j < pairs.len() ==> #[trigger] pairs[i].0@ != #[trigger] pairs[j].0@
}

pub proof fn lemma_map_of_dom<V>(pairs: Seq<(String, V)>, k: Seq<char>)
    ensures
        map_of(pairs).dom().contains(k) <==> exists|i: int| 0 <= i < pairs.len() && #[trigger] pairs[i].0@ == k,
    decreases pairs.len(),
{
    if pairs.len() > 0 {
        let init = pairs.drop_last();
        lemma_map_of_dom(init, k);
        if map_of(pairs).dom().contains(k) {
            if k != pairs.last().0@ {
                let i = choose|i: int| 0 <= i < init.len() && #[trigger] init[i].0@ == k;
                assert(pairs[i].0@ == k);
            } else {
                assert(pairs[pairs.len() - 1].0@ == k);
            }
        }
        if exists|i: int| 0 <= i < pairs.len() && #[trigger] pairs[i].0@ == k {
            let i = choose|i: int| 0 <= i < pairs.len() && #[trigger] pairs[i].0@ == k;
            if i < pairs.len() - 1 {
                assert(init[i].0@ == k);
            }
        }
    }
}

pub proof fn lemma_map_of_value<V>(pairs: Seq<(String, V)>, i: int)
    requires
        keys_distinct(pairs),
        0 <= i < pairs.len(),
    ensures
        map_of(pairs).dom().contains(pairs[i].0@),
        map_of(pairs)[pairs[i].0@] == pairs[i].1,
    decreases pairs.len(),
{
    let init = pairs.drop_last();
    if i < pairs.len() - 1 {
        assert(init[i] == pairs[i]);
        assert(keys_distinct(init)) by {
            assert forall|a: int, b: int| 0 <= a < b < init.len() implies #[trigger] init[a].0@ != #[trigger] init[b].0@ by {
                assert(init[a] == pairs[a] && init[b] == pairs[b]);
            }
        }
        lemma_map_of_value(init, i);
        assert(pairs[i].0@ != pairs[pairs.len() - 1].0@);
    }
}

pub proof fn lemma_map_of_len<V>(pairs: Seq<(String, V)>)
    requires
        keys_distinct(pairs),
    ensures
        map_of(pairs).dom().finite(),
        map_of(pairs).dom().len() == pairs.len(),
    decreases pairs.len(),
{
    if pairs.len() > 0 {
        let init = pairs.drop_last();
        assert(keys_distinct(init)) by {
            assert forall|a: int, b: int| 0 <= a < b < init.len() implies #[trigger] init[a].0@ != #[trigger] init[b].0@ by {
                assert(init[a] == pairs[a] && init[b] == pairs[b]);
            }
        }
        lemma_map_of_len(init);
        lemma_map_of_dom(init, pairs.last().0@);
        if map_of(init).dom().contains(pairs.last().0@) {
            let i = choose|i: int| 0 <= i < init.len() && #[trigger] init[i].0@ == pairs.last().0@;
            assert(pairs[i].0@ == pairs[pairs.len() - 1].0@);
        }
    }
}

/// Removing the pair at `i` removes its key from the map.
pub proof fn lemma_map_of_remove<V>(pairs: Seq<(String, V)>, i: int)
    requires
        keys_distinct(pairs),
        0 <= i < pairs.len(),
    ensures
        keys_distinct(pairs.remove(i)),
        map_of(pairs.remove(i)) =~= map_of(pairs).remove(pairs[i].0@),
{
    let r = pairs.remove(i);
    assert(forall|j: int| 0 <= j < r.len() ==> #[trigger] r[j] == (if j < i { pairs[j] } else { pairs[j + 1] }));
    assert(keys_distinct(r)) by {
        assert forall|a: int, b: int| 0 <= a < b < r.len() implies #[trigger] r[a].0@ != #[trigger] r[b].0@ by {
            let a2 = if a < i { a } else { a + 1 };
            let b2 = if b < i { b } else { b + 1 };
            assert(r[a] == pairs[a2] && r[b] == pairs[b2]);
        }
    }
    assert forall|k: Seq<char>| #[trigger] map_of(r).dom().contains(k) <==> map_of(pairs).remove(pairs[i].0@).dom().contains(k) by {
        lemma_map_of_dom(r, k);
        lemma_map_of_dom(pairs, k);
        if map_of(pairs).remove(pairs[i].0@).dom().contains(k) {
            let j = choose|j: int| 0 <= j < pairs.len() && #[trigger] pairs[j].0@ == k;
            assert(j != i);
            let j2 = if j < i { j } else { j - 1 };
            assert(r[j2].0@ == k);
        }
        if map_of(r).dom().contains(k) {
            let j = choose|j: int| 0 <= j < r.len() && #[trigger] r[j].0@ == k;
            let j2 = if j < i { j } else { j + 1 };
            assert(pairs[j2].0@ == k);
            assert(j2 != i);
        }
    }
    assert forall|k: Seq<char>| #[trigger] map_of(r).dom().contains(k) implies map_of(r)[k] == map_of(pairs)[k] by {
        lemma_map_of_dom(r, k);
        let j = choose|j: int| 0 <= j < r.len() && #[trigger] r[j].0@ == k;
        let j2 = if j < i { j } else { j + 1 };
        lemma_map_of_value(r, j);
        lemma_map_of_value(pairs, j2);
    }
}

/// Replacing the pair at `i` by one with the same key sets that key's value.
pub proof fn lemma_map_of_update<V>(pairs: Seq<(String, V)>, i: int, x: (String, V))
    requires
        keys_distinct(pairs),
        0 <= i < pairs.len(),
        x.0@ == pairs[i].0@,
    ensures
        keys_distinct(pairs.update(i, x)),
        map_of(pairs.update(i, x)) =~= map_of(pairs).insert(x.0@, x.1),
{
    let u = pairs.update(i, x);
    assert(keys_distinct(u)) by {
        assert forall|a: int, b: int| 0 <= a < b < u.len() implies #[trigger] u[a].0@ != #[trigger] u[b].0@ by {
            assert(u[a].0@ == pairs[a].0@ && u[b].0@ == pairs[b].0@);
        }
    }
    assert forall|k: Seq<char>| #[trigger] map_of(u).dom().contains(k) <==> map_of(pairs).insert(x.0@, x.1).dom().contains(k) by {
        lemma_map_of_dom(u, k);
        lemma_map_of_dom(pairs, k);
        if map_of(pairs).dom().contains(k) {
            let j = choose|j: int| 0 <= j < pairs.len() && #[trigger] pairs[j].0@ == k;
            assert(u[j].0@ == k);
        }
        if k == x.0@ {
            assert(u[i].0@ == k);
        }
        if map_of(u).dom().contains(k) {
            let j = choose|j: int| 0 <= j < u.len() && #[trigger] u[j].0@ == k;
            assert(pairs[j].0@ == k);
        }
    }
    assert forall|k: Seq<char>| #[trigger] map_of(u).dom().contains(k) implies map_of(u)[k] == map_of(pairs).insert(x.0@, x.1)[k] by {
        lemma_map_of_dom(u, k);
        let j = choose|j: int| 0 <= j < u.len() && #[trigger] u[j].0@ == k;
        lemma_map_of_value(u, j);
        if j != i {
            lemma_map_of_value(pairs, j);
        }
    }
}

/// Where `key` is among the pairs.
fn find_key<V>(entries: &Vec<(String, V)>, key: &str) -> (res: Option<usize>)
    ensures
        match res {
            Some(i) => i < entries@.len() && entries@[i as int].0@ == key@,
            None => forall|j: int| 0 <= j < entries@.len() ==> #[trigger] entries@[j].0@ != key@,
        },
{
    let k = String::from_str(key);
    let mut i: usize = 0;
    while i < entries.len()
        invariant
            i <= entries@.len(),
            k@ == key@,
            forall|j: int| 0 <= j < i ==> #[trigger] entries@[j].0@ != key@,
        decreases entries@.len() - i,
    {
        if entries[i].0 == k {
            return Some(i);
        }
        i = i + 1;
    }
    None
}

/// A map from text keys to values, kept as a list of pairs in which no key
/// occurs twice.
pub struct KeyedMap<V> {
    entries: Vec<(String, V)>,
}

impl<V> KeyedMap<V> {
    #[verifier::type_invariant]
    spec fn keys_are_distinct(self) -> bool {
        keys_distinct(self.entries@)
    }

    /// The value of each key.
    pub closed spec fn map(self) -> Map<Seq<char>, V> {
        map_of(self.entries@)
    }
}

impl<V> View for KeyedMap<V> {
    type V = Map<Seq<char>, V>;

    open spec fn view(&self) -> Map<Seq<char>, V> {
        self.map()
    }
}

/// The map without the keys that begin with `prefix`.
pub open spec fn without_prefix<V>(m: Map<Seq<char>, V>, prefix: Seq<char>) -> Map<Seq<char>, V> {
    Map::new(|k: Seq<char>| m.dom().contains(k) && !has_prefix(k, prefix), |k: Seq<char>| m[k])
}

/// The map after giving the value of `from` to `to`, when there is one.
pub open spec fn moved<V>(m: Map<Seq<char>, V>, from: Seq<char>, to: Seq<char>) -> Map<Seq<char>, V> {
    if m.dom().contains(from) {
        m.remove(from).insert(to, m[from])
    } else {
        m
    }
}

impl<V> KeyedMap<V> {
    /// An empty map.
    pub fn new() -> (res: Self)
        ensures
            res@ == Map::<Seq<char>, V>::empty(),
    {
        KeyedMap { entries: Vec::new() }
    }

    /// Set the value of a key.
    pub fn insert(&mut self, key: &str, value: V)
        ensures
            final(self)@ == old(self)@.insert(key@, value),
    {
        proof { use_type_invariant(&*self); }
        let ghost before = self.entries@;
        let mut entries: Vec<(String, V)> = Vec::new();
        std::mem::swap(&mut entries, &mut self.entries);
        let k = String::from_str(key);
        match find_key(&entries, key) {
            Some(i) => {
                proof { lemma_map_of_update(before, i as int, (k, value)); }
                entries.set(i, (k, value));
            },
            None => {
                assert(keys_distinct(before.push((k, value)))) by {
                    let p = before.push((k, value));
                    assert forall|a: int, b: int| 0 <= a < b < p.len() implies #[trigger] p[a].0@ != #[trigger] p[b].0@ by {
                        if b < before.len() {
                            assert(p[a] == before[a] && p[b] == before[b]);
                        } else {
                            assert(p[a] == before[a]);
                        }
                    }
                }
                entries.push((k, value));
                assert(entries@.drop_last() =~= before);
            },
        }
        self.entries = entries;
    }

    /// Remove a key and its value.
    pub fn remove(&mut self, key: &str)
        ensures
            final(self)@ == old(self)@.remove(key@),
    {
        proof { use_type_invariant(&*self); }
        let ghost before = self.entries@;
        let mut entries: Vec<(String, V)> = Vec::new();
        std::mem::swap(&mut entries, &mut self.entries);
        match find_key(&entries, key) {
            Some(i) => {
                proof { lemma_map_of_remove(before, i as int); }
                entries.remove(i);
            },
            None => {
                proof {
                    lemma_map_of_dom(before, key@);
                    assert(map_of(before).remove(key@) =~= map_of(before));
                }
            },
        }
        self.entries = entries;
    }

    /// Remove every key that begins with `prefix`.
    pub fn remove_with_prefix(&mut self, prefix: &str)
        ensures
            final(self)@ == without_prefix(old(self)@, prefix@),
    {
        proof { use_type_invariant(&*self); }
        let ghost all = self.entries@;
        let p = chars_of(prefix);
        let mut rest: Vec<(String, V)> = Vec::new();
        std::mem::swap(&mut rest, &mut self.entries);
        let mut kept: Vec<(String, V)> = Vec::new();
        let ghost mut taken: int = 0;
        while rest.len() > 0
            invariant
                0 <= taken <= all.len(),
                keys_distinct(all),
                rest@ == all.skip(taken),
                p@ == prefix@,
                keys_distinct(kept@),
                map_of(kept@) =~= without_prefix(map_of(all.take(taken)), prefix@),
            decreases rest@.len(),
        {
            let x = rest.remove(0);
            let ghost t = all.take(taken);
            proof {
                assert(x == all[taken]);
                assert(all.take(taken + 1).drop_last() =~= t);
                assert(all.take(taken + 1).last() == x);
                lemma_map_of_dom(t, x.0@);
                if map_of(t).dom().contains(x.0@) {
                    let j = choose|j: int| 0 <= j < t.len() && #[trigger] t[j].0@ == x.0@;
                    assert(all[j].0@ == all[taken].0@);
                }
                lemma_map_of_dom(kept@, x.0@);
            }
            let k = chars_of(x.0.as_str());
            if !starts_with_chars(k.as_slice(), p.as_slice()) {
                proof {
                    let q = kept@.push(x);
                    assert(keys_distinct(q)) by {
                        assert forall|a: int, b: int| 0 <= a < b < q.len() implies #[trigger] q[a].0@ != #[trigger] q[b].0@ by {
                            if b < kept@.len() {
                                assert(q[a] == kept@[a] && q[b] == kept@[b]);
                            } else {
                                assert(q[a] == kept@[a]);
                                assert(map_of(kept@).dom().contains(q[a].0@)) by {
                                    lemma_map_of_dom(kept@, q[a].0@);
                                }
                            }
                        }
                    }
                    assert(q.drop_last() =~= kept@);
                }
                kept.push(x);
            }
            proof {
                taken = taken + 1;
                assert(rest@ =~= all.skip(taken));
            }
        }
        proof {
            assert(all.take(all.len() as int) =~= all);
        }
        self.entries = kept;
    }

    /// Give the value of `old_key` to `new_key` instead, if it has one.
    pub fn move_key(&mut self, old_key: &str, new_key: &str)
        ensures
            final(self)@ == moved(old(self)@, old_key@, new_key@),
    {
        proof { use_type_invariant(&*self); }
        let ghost before = self.entries@;
        match find_key(&self.entries, old_key) {
            Some(i) => {
                proof {
                    lemma_map_of_remove(before, i as int);
                    lemma_map_of_value(before, i as int);
                }
                let mut entries: Vec<(String, V)> = Vec::new();
                std::mem::swap(&mut entries, &mut self.entries);
                let (_, value) = entries.remove(i);
                self.entries = entries;
                self.insert(new_key, value);
            },
            None => {
                proof { lemma_map_of_dom(before, old_key@); }
            },
        }
    }

    /// The value of a key, if it has one.
    pub fn get(&self, key: &str) -> (res: Option<&V>)
        ensures
            self@.dom().contains(key@) ==> (res matches Some(e) && *e == self@[key@]),
            !self@.dom().contains(key@) ==> res is None,
    {
        proof { use_type_invariant(self); }
        proof { lemma_map_of_dom(self.entries@, key@); }
        match find_key(&self.entries, key) {
            Some(i) => {
                proof { lemma_map_of_value(self.entries@, i as int); }
                Some(&self.entries[i].1)
            },
            None => None,
        }
    }

    /// Every key, each once.
    pub fn keys(&self) -> (res: Vec<String>)
        ensures
            forall|a: int| 0 <= a < res@.len() ==> self@.dom().contains(#[trigger] res@[a]@),
            forall|k: Seq<char>| #[trigger] self@.dom().contains(k)
                ==> exists|a: int| 0 <= a < res@.len() && #[trigger] res@[a]@ == k,
            forall|a: int, b: int| 0 <= a < b < res@.len() ==> #[trigger] res@[a]@ != #[trigger] res@[b]@,
    {
        proof { use_type_invariant(self); }
        let ghost es = self.entries@;
        let mut out: Vec<String> = Vec::new();
        let mut i: usize = 0;
        while i < self.entries.len()
            invariant
                i <= es.len(),
                es == self.entries@,
                out@.len() == i,
                forall|a: int| 0 <= a < i ==> (#[trigger] out@[a])@ == es[a].0@,
            decreases es.len() - i,
        {
            out.push(self.entries[i].0.clone());
            i = i + 1;
        }
        proof {
            assert forall|a: int| 0 <= a < out@.len() implies self@.dom().contains(#[trigger] out@[a]@) by {
                lemma_map_of_value(es, a);
            }
            assert forall|k: Seq<char>| #[trigger] self@.dom().contains(k)
                implies exists|a: int| 0 <= a < out@.len() && #[trigger] out@[a]@ == k by {
                lemma_map_of_dom(es, k);
                let j = choose|j: int| 0 <= j < es.len() && #[trigger] es[j].0@ == k;
                assert(out@[j]@ == k);
            }
            assert forall|a: int, b: int| 0 <= a < b < out@.len() implies #[trigger] out@[a]@ != #[trigger] out@[b]@ by {
                assert(es[a].0@ != es[b].0@);
            }
        }
        out
    }

    /// The number of keys.
    pub fn len(&self) -> (res: usize)
        ensures
            self@.dom().finite(),
            res == self@.dom().len(),
    {
        proof {
            use_type_invariant(self);
            lemma_map_of_len(self.entries@);
        }
        self.entries.len()
    }
}

/// After setting a key, it has exactly that value and every other key
/// keeps what it had.
pub proof fn law_insert_then_lookup<V>(m: Map<Seq<char>, V>, key: Seq<char>, e: V, other: Seq<char>)
    ensures
        m.insert(key, e).dom().contains(key),
        m.insert(key, e)[key] == e,
        other != key ==> (m.insert(key, e).dom().contains(other) <==> m.dom().contains(other)),
        other != key && m.dom().contains(other) ==> m.insert(key, e)[other] == m[other],
{
}

/// After removing a key it has no value; the other keys keep theirs.
pub proof fn law_remove_then_absent<V>(m: Map<Seq<char>, V>, key: Seq<char>, other: Seq<char>)
    ensures
        !m.remove(key).dom().contains(key),
        other != key ==> (m.remove(key).dom().contains(other) <==> m.dom().contains(other)),
{
}

/// Moving a key carries its value to the new key and leaves nothing at the
/// old one; moving a key without a value changes nothing.
pub proof fn law_move_carries_value<V>(m: Map<Seq<char>, V>, from: Seq<char>, to: Seq<char>)
    ensures
        m.dom().contains(from) ==> moved(m, from, to).dom().contains(to) && moved(m, from, to)[to] == m[from],
        m.dom().contains(from) && from != to ==> !moved(m, from, to).dom().contains(from),
        !m.dom().contains(from) ==> moved(m, from, to) == m,
{
}

/// Removing by prefix keeps exactly the keys that do not begin with it,
/// with their values.
pub proof fn law_prefix_removal_keeps_the_rest<V>(m: Map<Seq<char>, V>, prefix: Seq<char>, k: Seq<char>)
    ensures
        without_prefix(m, prefix).dom().contains(k) <==> (m.dom().contains(k) && !has_prefix(k, prefix)),
        without_prefix(m, prefix).dom().contains(k) ==> without_prefix(m, prefix)[k] == m[k],
{
}

} // verus!
