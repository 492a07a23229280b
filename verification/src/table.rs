//! A small table keyed by strings, with a map as its model.

use vstd::prelude::*;
use crate::text::str_equals;

verus! {

/// Values keyed by strings; no key occurs twice.
pub struct Table<V> {
    keys: Vec<String>,
    vals: Vec<V>,
}

/// Keys and values pair up, and no key occurs twice.
spec fn parts_ok<V>(keys: Seq<String>, vals: Seq<V>) -> bool {
    &&& keys.len() == vals.len()
    &&& forall|i: int, j: int|
        0 <= i < keys.len() && 0 <= j < keys.len() && i != j ==> #[trigger] keys[i]@
            != #[trigger] keys[j]@
}

/// The value held under each key of paired keys and values.
spec fn entries_of<V>(keys: Seq<String>, vals: Seq<V>) -> Map<Seq<char>, V> {
    Map::new(
        |k: Seq<char>| exists|i: int| 0 <= i < keys.len() && keys[i]@ == k,
        |k: Seq<char>| vals[choose|i: int| 0 <= i < keys.len() && keys[i]@ == k],
    )
}

proof fn lemma_entry_at<V>(keys: Seq<String>, vals: Seq<V>, i: int)
    requires
        parts_ok(keys, vals),
        0 <= i < keys.len(),
    ensures
        entries_of(keys, vals).contains_key(keys[i]@),
        entries_of(keys, vals)[keys[i]@] == vals[i],
{
    let k = keys[i]@;
    let j = choose|j: int| 0 <= j < keys.len() && keys[j]@ == k;
    assert(0 <= j < keys.len() && keys[j]@ == k);
}

/// The index of `key` among `keys`, if it is there.
fn position(keys: &Vec<String>, key: &str) -> (r: Option<usize>)
    ensures
        match r {
            Some(i) => i < keys@.len() && keys@[i as int]@ == key@,
            None => forall|j: int| 0 <= j < keys@.len() ==> keys@[j]@ != key@,
        },
{
    let mut i: usize = 0;
    while i < keys.len()
        invariant
            i <= keys@.len(),
            forall|j: int| 0 <= j < i ==> keys@[j]@ != key@,
        decreases keys@.len() - i,
    {
        if str_equals(keys[i].as_str(), key) {
            return Some(i);
        }
        i = i + 1;
    }
    None
}

impl<V> Table<V> {
    #[verifier::type_invariant]
    spec fn well_formed(self) -> bool {
        parts_ok(self.keys@, self.vals@)
    }

    /// The value held under each key.
    pub closed spec fn entries(&self) -> Map<Seq<char>, V> {
        entries_of(self.keys@, self.vals@)
    }

    /// An empty table.
    pub fn new() -> (t: Self)
        ensures
            t.entries() == Map::<Seq<char>, V>::empty(),
    {
        let t = Table { keys: Vec::new(), vals: Vec::new() };
        assert(t.entries() =~= Map::<Seq<char>, V>::empty());
        t
    }

    /// The value held under `key`, if any.
    pub fn get(&self, key: &str) -> (r: Option<&V>)
        ensures
            r is Some <==> self.entries().contains_key(key@),
            r matches Some(v) ==> *v == self.entries()[key@],
    {
        proof {
            use_type_invariant(self);
        }
        match position(&self.keys, key) {
            Some(i) => {
                proof {
                    lemma_entry_at(self.keys@, self.vals@, i as int);
                }
                Some(&self.vals[i])
            },
            None => None,
        }
    }

    /// Takes the keys and values out, leaving the table empty.
    fn take_parts(&mut self) -> (r: (Vec<String>, Vec<V>))
        ensures
            r.0@ == old(self).keys@,
            r.1@ == old(self).vals@,
            parts_ok(r.0@, r.1@),
    {
        proof {
            use_type_invariant(&*self);
        }
        let mut t: Table<V> = Table::new();
        std::mem::swap(self, &mut t);
        proof {
            use_type_invariant(&t);
        }
        let Table { keys, vals } = t;
        (keys, vals)
    }

    /// Holds `value` under `key`, replacing any earlier value.
    pub fn insert(&mut self, key: &str, value: V)
        ensures
            final(self).entries() == old(self).entries().insert(key@, value),
    {
        let (mut keys, mut vals) = self.take_parts();
        let ghost ok = keys@;
        let ghost ov = vals@;
        let ghost before = entries_of(ok, ov);
        let ghost after = before.insert(key@, value);
        match position(&keys, key) {
            Some(i) => {
                vals.set(i, value);
                proof {
                    assert(keys@ == ok);
                    assert forall|k: Seq<char>| #[trigger] entries_of(keys@, vals@).contains_key(k)
                        == after.contains_key(k) by {
                        if before.contains_key(k) {
                            let j = choose|j: int| 0 <= j < ok.len() && ok[j]@ == k;
                            assert(keys@[j]@ == k);
                        }
                        if entries_of(keys@, vals@).contains_key(k) {
                            let j = choose|j: int| 0 <= j < keys@.len() && keys@[j]@ == k;
                            assert(ok[j]@ == k);
                        }
                    }
                    assert forall|k: Seq<char>| #[trigger] entries_of(keys@, vals@).contains_key(k)
                        implies entries_of(keys@, vals@)[k] == after[k] by {
                        let j = choose|j: int| 0 <= j < keys@.len() && keys@[j]@ == k;
                        lemma_entry_at(keys@, vals@, j);
                        if j != i {
                            lemma_entry_at(ok, ov, j);
                            assert(keys@[j]@ != keys@[i as int]@);
                        }
                    }
                    assert(entries_of(keys@, vals@) =~= after);
                }
            },
            None => {
                keys.push(key.to_owned());
                vals.push(value);
                proof {
                    let n = ok.len() as int;
                    assert(keys@[n]@ == key@);
                    assert forall|i: int, j: int|
                        0 <= i < keys@.len() && 0 <= j < keys@.len() && i != j
                            implies #[trigger] keys@[i]@ != #[trigger] keys@[j]@ by {
                        if i == n {
                            assert(keys@[j] == ok[j]);
                        } else if j == n {
                            assert(keys@[i] == ok[i]);
                        } else {
                            assert(keys@[i] == ok[i]);
                            assert(keys@[j] == ok[j]);
                        }
                    }
                    assert forall|k: Seq<char>| #[trigger] entries_of(keys@, vals@).contains_key(k)
                        == after.contains_key(k) by {
                        if before.contains_key(k) {
                            let j = choose|j: int| 0 <= j < ok.len() && ok[j]@ == k;
                            assert(keys@[j]@ == k);
                        }
                        if entries_of(keys@, vals@).contains_key(k) {
                            let j = choose|j: int| 0 <= j < keys@.len() && keys@[j]@ == k;
                            if j < n {
                                assert(ok[j]@ == k);
                            }
                        }
                    }
                    assert forall|k: Seq<char>| #[trigger] entries_of(keys@, vals@).contains_key(k)
                        implies entries_of(keys@, vals@)[k] == after[k] by {
                        let j = choose|j: int| 0 <= j < keys@.len() && keys@[j]@ == k;
                        lemma_entry_at(keys@, vals@, j);
                        if j < n {
                            lemma_entry_at(ok, ov, j);
                            assert(keys@[j] == ok[j]);
                            assert(vals@[j] == ov[j]);
                        }
                    }
                    assert(entries_of(keys@, vals@) =~= after);
                }
            },
        }
        *self = Table { keys, vals };
    }

    /// Drops the value held under `key`, if any.
    pub fn remove(&mut self, key: &str)
        ensures
            final(self).entries() == old(self).entries().remove(key@),
    {
        let (mut keys, mut vals) = self.take_parts();
        let ghost ok = keys@;
        let ghost ov = vals@;
        let ghost before = entries_of(ok, ov);
        let ghost after = before.remove(key@);
        match position(&keys, key) {
            Some(i) => {
                keys.remove(i);
                vals.remove(i);
                proof {
                    // index in the old table of each index in the new one
                    assert forall|j: int| 0 <= j < keys@.len() implies #[trigger] keys@[j]
                        == ok[if j < i { j } else { j + 1 }] && vals@[j] == ov[if j < i {
                        j
                    } else {
                        j + 1
                    }] by {}
                    assert forall|a: int, b: int|
                        0 <= a < keys@.len() && 0 <= b < keys@.len() && a != b
                            implies #[trigger] keys@[a]@ != #[trigger] keys@[b]@ by {
                        let oa = if a < i { a } else { a + 1 };
                        let ob = if b < i { b } else { b + 1 };
                        assert(ok[oa]@ != ok[ob]@);
                    }
                    assert forall|k: Seq<char>| #[trigger] entries_of(keys@, vals@).contains_key(k)
                        == after.contains_key(k) by {
                        if after.contains_key(k) {
                            let j = choose|j: int| 0 <= j < ok.len() && ok[j]@ == k;
                            assert(j != i);
                            let nj = if j < i { j } else { j - 1 };
                            assert(keys@[nj]@ == k);
                        }
                        if entries_of(keys@, vals@).contains_key(k) {
                            let j = choose|j: int| 0 <= j < keys@.len() && keys@[j]@ == k;
                            let oj = if j < i { j } else { j + 1 };
                            assert(ok[oj]@ == k);
                            assert(oj != i);
                        }
                    }
                    assert forall|k: Seq<char>| #[trigger] entries_of(keys@, vals@).contains_key(k)
                        implies entries_of(keys@, vals@)[k] == after[k] by {
                        let j = choose|j: int| 0 <= j < keys@.len() && keys@[j]@ == k;
                        lemma_entry_at(keys@, vals@, j);
                        let oj = if j < i { j } else { j + 1 };
                        lemma_entry_at(ok, ov, oj);
                    }
                    assert(entries_of(keys@, vals@) =~= after);
                }
            },
            None => {
                proof {
                    assert forall|k: Seq<char>| #[trigger] before.contains_key(k) implies k
                        != key@ by {
                        let j = choose|j: int| 0 <= j < ok.len() && ok[j]@ == k;
                    }
                    assert(entries_of(keys@, vals@) =~= after);
                }
            },
        }
        *self = Table { keys, vals };
    }
}

} // verus!
