use vstd::prelude::*;

verus! {

/// `i` is the first position of `s` whose key is `k`.
pub open spec fn key_at<V>(s: Seq<(String, V)>, k: Seq<char>, i: int) -> bool {
    &&& 0 <= i < s.len()
    &&& s[i].0@ == k
    &&& forall|j: int| 0 <= j < i ==> s[j].0@ != k
}

/// The value stored under `k`: the one at its first position.
pub open spec fn lookup<V>(s: Seq<(String, V)>, k: Seq<char>) -> Option<V> {
    if exists|i: int| key_at(s, k, i) {
        Some(s[choose|i: int| key_at(s, k, i)].1)
    } else {
        None
    }
}

/// The keys of `s`, in order.
pub open spec fn keys_of<V>(s: Seq<(String, V)>) -> Seq<Seq<char>> {
    s.map_values(|e: (String, V)| e.0@)
}

pub proof fn lemma_lookup_at<V>(s: Seq<(String, V)>, k: Seq<char>, i: int)
    requires
        key_at(s, k, i),
    ensures
        lookup(s, k) == Some(s[i].1),
{
    let j = choose|j: int| key_at(s, k, j);
    assert(key_at(s, k, j));
    if j < i {
        assert(s[j].0@ != k);
    } else if i < j {
        assert(s[i].0@ != k);
    }
}

pub proof fn lemma_lookup_absent<V>(s: Seq<(String, V)>, k: Seq<char>)
    requires
        forall|j: int| 0 <= j < s.len() ==> s[j].0@ != k,
    ensures
        lookup(s, k) == None::<V>,
{
}

/// Sequences with the same keys give the same first positions.
pub proof fn lemma_same_keys<V>(s: Seq<(String, V)>, t: Seq<(String, V)>, k: Seq<char>, i: int)
    requires
        s.len() == t.len(),
        forall|j: int| 0 <= j < s.len() ==> s[j].0@ == t[j].0@,
    ensures
        key_at(s, k, i) == key_at(t, k, i),
{
}

/// The first position of `key` in `entries`, if any.
pub fn find_key<V>(entries: &Vec<(String, V)>, key: &String) -> (r: Option<usize>)
    ensures
        match r {
            Some(i) => key_at(entries@, key@, i as int),
            None => forall|j: int| 0 <= j < entries@.len() ==> entries@[j].0@ != key@,
        },
{
    let mut i: usize = 0;
    while i < entries.len()
        invariant
            i <= entries@.len(),
            forall|j: int| 0 <= j < i ==> entries@[j].0@ != key@,
        decreases entries@.len() - i,
    {
        if entries[i].0 == *key {
            return Some(i);
        }
        i = i + 1;
    }
    None
}

/// Stores `value` under `key`, in place of the value stored there before.
pub fn insert_entry<V>(entries: &mut Vec<(String, V)>, key: String, value: V)
    ensures
        forall|j: int|
            0 <= j < final(entries)@.len() ==> (j < old(entries)@.len()
                && #[trigger] final(entries)@[j] == old(entries)@[j]) || final(entries)@[j].1
                == value,
        forall|k: Seq<char>|
            #![trigger lookup(final(entries)@, k)]
            lookup(final(entries)@, k) == if k == key@ {
                Some(value)
            } else {
                lookup(old(entries)@, k)
            },
{
    let ghost s = entries@;
    let ghost kv = key@;
    match find_key(entries, &key) {
        Some(i) => {
            entries.set(i, (key, value));
            proof {
                let t = entries@;
                assert forall|k: Seq<char>| #[trigger]
                    lookup(t, k) == if k == kv {
                        Some(value)
                    } else {
                        lookup(s, k)
                    } by {
                    if k == kv {
                        lemma_lookup_at(t, k, i as int);
                    } else if exists|j: int| key_at(s, k, j) {
                        let j = choose|j: int| key_at(s, k, j);
                        lemma_same_keys(s, t, k, j);
                        lemma_lookup_at(s, k, j);
                        lemma_lookup_at(t, k, j);
                    } else {
                        assert forall|j: int| 0 <= j < t.len() implies t[j].0@ != k by {
                            if t[j].0@ == k {
                                lemma_first_key(t, k, j);
                                let m = choose|m: int| key_at(t, k, m);
                                lemma_same_keys(s, t, k, m);
                            }
                        }
                    }
                }
            }
        },
        None => {
            entries.push((key, value));
            proof {
                let t = entries@;
                assert forall|k: Seq<char>| #[trigger]
                    lookup(t, k) == if k == kv {
                        Some(value)
                    } else {
                        lookup(s, k)
                    } by {
                    if k == kv {
                        lemma_lookup_at(t, k, s.len() as int);
                    } else if exists|j: int| key_at(s, k, j) {
                        let j = choose|j: int| key_at(s, k, j);
                        lemma_lookup_at(s, k, j);
                        lemma_lookup_at(t, k, j);
                    } else {
                        assert forall|j: int| 0 <= j < t.len() implies t[j].0@ != k by {
                            if j < s.len() && t[j].0@ == k {
                                lemma_first_key(s, k, j);
                            }
                        }
                    }
                }
            }
        },
    }
}

/// A key that occurs has a first position.
pub proof fn lemma_first_key<V>(s: Seq<(String, V)>, k: Seq<char>, j: int)
    requires
        0 <= j < s.len(),
        s[j].0@ == k,
    ensures
        exists|i: int| key_at(s, k, i),
    decreases j,
{
    if exists|m: int| 0 <= m < j && s[m].0@ == k {
        let m = choose|m: int| 0 <= m < j && s[m].0@ == k;
        lemma_first_key(s, k, m);
    } else {
        assert(key_at(s, k, j));
    }
}

/// The strings listed under `k`, as text; empty when `k` has no entry.
pub open spec fn list_of(s: Seq<(String, Vec<String>)>, k: Seq<char>) -> Seq<Seq<char>> {
    match lookup(s, k) {
        Some(v) => v@.map_values(|x: String| x@),
        None => seq![],
    }
}

/// Appends `item` to the list stored under `key`, starting a list if
/// there is none.
pub fn append_entry(entries: &mut Vec<(String, Vec<String>)>, key: &String, item: String)
    ensures
        forall|k: Seq<char>|
            #![trigger list_of(final(entries)@, k)]
            list_of(final(entries)@, k) == if k == key@ {
                list_of(old(entries)@, k).push(item@)
            } else {
                list_of(old(entries)@, k)
            },
        final(entries)@.len() >= old(entries)@.len(),
        forall|j: int|
            0 <= j < final(entries)@.len() ==> (#[trigger] final(entries)@[j]).0@ == if j < old(
                entries,
            )@.len() {
                old(entries)@[j].0@
            } else {
                key@
            },
        forall|j: int, m: int|
            0 <= j < final(entries)@.len() && 0 <= m < final(entries)@[j].1@.len() ==> (j < old(
                entries,
            )@.len() && m < old(entries)@[j].1@.len() && #[trigger] final(entries)@[j].1@[m] == old(
                entries,
            )@[j].1@[m]) || (final(entries)@[j].0@ == key@ && final(entries)@[j].1@[m]@ == item@),
{
    let ghost s = entries@;
    let ghost kv = key@;
    let ghost iv = item@;
    match find_key(entries, key) {
        Some(i) => {
            let ghost before = entries@[i as int].1@;
            entries[i].1.push(item);
            proof {
                let t = entries@;
                assert(t[i as int].1@ == before.push(t[i as int].1@.last()));
                assert forall|j: int| 0 <= j < t.len() && j != i implies t[j] == s[j] by {}
                assert forall|k: Seq<char>| #[trigger]
                    list_of(t, k) == if k == kv {
                        list_of(s, k).push(iv)
                    } else {
                        list_of(s, k)
                    } by {
                    if k == kv {
                        lemma_lookup_at(s, k, i as int);
                        lemma_same_keys(s, t, k, i as int);
                        lemma_lookup_at(t, k, i as int);
                        assert(t[i as int].1@.map_values(|x: String| x@) =~= s[i as int].1@.map_values(
                            |x: String| x@,
                        ).push(iv));
                    } else if exists|j: int| key_at(s, k, j) {
                        let j = choose|j: int| key_at(s, k, j);
                        lemma_same_keys(s, t, k, j);
                        lemma_lookup_at(s, k, j);
                        lemma_lookup_at(t, k, j);
                    } else {
                        assert forall|j: int| 0 <= j < t.len() implies t[j].0@ != k by {
                            if t[j].0@ == k {
                                lemma_first_key(t, k, j);
                                let m = choose|m: int| key_at(t, k, m);
                                lemma_same_keys(s, t, k, m);
                            }
                        }
                    }
                }
            }
        },
        None => {
            let list = vec![item];
            entries.push((key.clone(), list));
            proof {
                let t = entries@;
                assert forall|k: Seq<char>| #[trigger]
                    list_of(t, k) == if k == kv {
                        list_of(s, k).push(iv)
                    } else {
                        list_of(s, k)
                    } by {
                    if k == kv {
                        lemma_lookup_absent(s, k);
                        lemma_lookup_at(t, k, s.len() as int);
                        assert(t[s.len() as int].1@.map_values(|x: String| x@) =~= seq![iv]);
                    } else if exists|j: int| key_at(s, k, j) {
                        let j = choose|j: int| key_at(s, k, j);
                        lemma_lookup_at(s, k, j);
                        lemma_lookup_at(t, k, j);
                    } else {
                        assert forall|j: int| 0 <= j < t.len() implies t[j].0@ != k by {
                            if j < s.len() && t[j].0@ == k {
                                lemma_first_key(s, k, j);
                            }
                        }
                    }
                }
            }
        },
    }
}

} // verus!
