use vstd::prelude::*;

use crate::errors::Error;
use crate::paths::{sep, valid_key};
use crate::text::{has_prefix, str_eq};

verus! {

/// Whether `k2` lies strictly below the namespace `k`.
pub open spec fn under_key(k: Seq<char>, k2: Seq<char>) -> bool {
    (k + sep()).is_prefix_of(k2)
}

/// Whether `k` addresses a directory of `m`: some stored key lies strictly
/// below it.
pub open spec fn dir_key(m: Map<Seq<char>, Seq<char>>, k: Seq<char>) -> bool {
    exists|k2: Seq<char>| #[trigger] m.contains_key(k2) && under_key(k, k2)
}

/// `m` without every key strictly below `k`.
pub open spec fn without_subtree(m: Map<Seq<char>, Seq<char>>, k: Seq<char>) -> Map<
    Seq<char>,
    Seq<char>,
> {
    Map::new(
        (|k2: Seq<char>| m.contains_key(k2) && !under_key(k, k2)),
        (|k2: Seq<char>| m[k2]),
    )
}

/// A store of values under slash-delimited keys. Retrieval and listing read
/// the entries; storing and removal rewrite them as the contracts state.
pub trait Storage: Sized {
    /// The stored entries: each key's value.
    spec fn entries(&self) -> Map<Seq<char>, Seq<char>>;

    /// Internal well-formedness.
    spec fn inv(&self) -> bool;

    /// Whether a store of `value` under `key` is owed success from this
    /// state. The reference store always owes it; a decorator owes whatever
    /// its backing store owes.
    spec fn set_succeeds(&self, key: Seq<char>, value: Seq<char>) -> bool;

    /// Retrieval: the stored value, or a key rejection when nothing is
    /// stored under `key`.
    fn get(&self, key: &str) -> (r: Result<String, Error>)
        requires
            self.inv(),
        ensures
            match r {
                Ok(v) => self.entries().contains_key(key@) && v@ == self.entries()[key@],
                Err(e) => !self.entries().contains_key(key@) && e is InvalidKey,
            },
    ;

    /// Storing: succeeds exactly when the state owes success; then the
    /// entries map `key` to `value` and hold nothing else new. On failure
    /// they are unchanged.
    fn set(&mut self, key: &str, value: &str) -> (r: Result<(), Error>)
        requires
            old(self).inv(),
            valid_key(key@),
        ensures
            final(self).inv(),
            r is Ok <==> old(self).set_succeeds(key@, value@),
            r is Ok ==> final(self).entries() == old(self).entries().insert(key@, value@),
            r is Err ==> final(self).entries() == old(self).entries(),
    ;

    /// Listing: exactly the stored keys that start with `prefix`.
    fn list(&self, prefix: &str) -> (r: Result<Vec<String>, Error>)
        requires
            self.inv(),
        ensures
            r matches Ok(keys) && (forall|k: Seq<char>|
                keys.deep_view().contains(k) <==> (self.entries().contains_key(k)
                    && prefix@.is_prefix_of(k))),
    ;

    /// Removal: a directory key is removed only recursively and loses its
    /// whole subtree; a stored leaf key loses its entry; a key with nothing
    /// behind it is an I/O failure.
    fn remove(&mut self, key: &str, recursive: bool) -> (r: Result<(), Error>)
        requires
            old(self).inv(),
        ensures
            final(self).inv(),
            dir_key(old(self).entries(), key@) && !recursive ==> (r matches Err(e) && e
                is InvalidKey) && final(self).entries() == old(self).entries(),
            dir_key(old(self).entries(), key@) && recursive ==> r is Ok && final(self).entries()
                == without_subtree(old(self).entries(), key@),
            !dir_key(old(self).entries(), key@) && old(self).entries().contains_key(key@) ==> r
                is Ok && final(self).entries() == old(self).entries().remove(key@),
            !dir_key(old(self).entries(), key@) && !old(self).entries().contains_key(key@) ==> (
            r matches Err(e) && e is IO) && final(self).entries() == old(self).entries(),
    ;
}

/// Round-trip law: once a store of `v` under `k` has succeeded, retrieval
/// of `k` is owed exactly `v`, whatever was stored before.
pub proof fn lemma_set_then_get(m: Map<Seq<char>, Seq<char>>, k: Seq<char>, v: Seq<char>)
    ensures
        m.insert(k, v).contains_key(k),
        m.insert(k, v)[k] == v,
{
}

/// Deletion law: once a removal of the leaf key `k` has succeeded, nothing
/// is stored under `k`, so retrieval of `k` is owed a key rejection.
pub proof fn lemma_remove_then_get(m: Map<Seq<char>, Seq<char>>, k: Seq<char>)
    ensures
        !m.remove(k).contains_key(k),
{
}

/// Directory law: a recursive removal of `k` leaves nothing strictly below
/// `k`, and leaves every other key untouched.
pub proof fn lemma_subtree_removed(m: Map<Seq<char>, Seq<char>>, k: Seq<char>, k2: Seq<char>)
    ensures
        under_key(k, k2) ==> !without_subtree(m, k).contains_key(k2),
        !under_key(k, k2) && m.contains_key(k2) ==> without_subtree(m, k).contains_key(k2)
            && without_subtree(m, k)[k2] == m[k2],
{
}

/// The entries a sequence of key-value pairs holds; a later pair wins.
pub open spec fn map_of(s: Seq<(String, String)>) -> Map<Seq<char>, Seq<char>>
    decreases s.len(),
{
    if s.len() == 0 {
        Map::empty()
    } else {
        map_of(s.drop_last()).insert(s.last().0@, s.last().1@)
    }
}

/// No two pairs share a key.
pub open spec fn unique_keys(s: Seq<(String, String)>) -> bool {
    forall|i: int, j: int| 0 <= i < j < s.len() ==> (#[trigger] s[i]).0@ != (#[trigger] s[j]).0@
}

/// A key is in the entries exactly when some pair holds it.
pub proof fn lemma_map_of_contains(s: Seq<(String, String)>, k: Seq<char>)
    ensures
        map_of(s).contains_key(k) <==> exists|i: int|
            0 <= i < s.len() && (#[trigger] s[i]).0@ == k,
    decreases s.len(),
{
    if s.len() > 0 {
        let d = s.drop_last();
        lemma_map_of_contains(d, k);
        assert(forall|i: int| 0 <= i < d.len() ==> d[i] == s[i]);
        if s.last().0@ == k {
            assert((s[s.len() - 1]).0@ == k);
        } else {
            if exists|i: int| 0 <= i < s.len() && (#[trigger] s[i]).0@ == k {
                let i = choose|i: int| 0 <= i < s.len() && (#[trigger] s[i]).0@ == k;
                assert(i < d.len() && d[i].0@ == k);
            }
        }
    }
}

/// With unique keys, the entries hold each pair's value under its key.
pub proof fn lemma_map_of_at(s: Seq<(String, String)>, i: int)
    requires
        unique_keys(s),
        0 <= i < s.len(),
    ensures
        map_of(s).contains_key(s[i].0@),
        map_of(s)[s[i].0@] == s[i].1@,
    decreases s.len(),
{
    let d = s.drop_last();
    assert(forall|a: int| 0 <= a < d.len() ==> d[a] == s[a]);
    if i < s.len() - 1 {
        assert(unique_keys(d));
        lemma_map_of_at(d, i);
        assert(s.last().0@ != s[i].0@);
    }
}

/// With unique keys, removing a pair removes exactly its key.
pub proof fn lemma_map_of_remove(s: Seq<(String, String)>, i: int)
    requires
        unique_keys(s),
        0 <= i < s.len(),
    ensures
        map_of(s.remove(i)) == map_of(s).remove(s[i].0@),
        unique_keys(s.remove(i)),
    decreases s.len(),
{
    let t = s.remove(i);
    assert(forall|a: int| 0 <= a < i ==> t[a] == s[a]);
    assert(forall|a: int| i <= a < t.len() ==> t[a] == s[a + 1]);
    assert(unique_keys(t));
    let d = s.drop_last();
    assert(forall|a: int| 0 <= a < d.len() ==> d[a] == s[a]);
    assert(unique_keys(d));
    if i == s.len() - 1 {
        assert(t =~= d);
        lemma_map_of_contains(d, s[i].0@);
        assert(!map_of(d).contains_key(s[i].0@));
        assert(map_of(d) =~= map_of(d).insert(s.last().0@, s.last().1@).remove(s[i].0@));
    } else {
        lemma_map_of_remove(d, i);
        assert(t.drop_last() =~= d.remove(i));
        assert(t.last() == s.last());
        assert(map_of(t) == map_of(d.remove(i)).insert(s.last().0@, s.last().1@));
        assert(s.last().0@ != s[i].0@);
        assert(map_of(d).remove(s[i].0@).insert(s.last().0@, s.last().1@) =~= map_of(d).insert(
            s.last().0@,
            s.last().1@,
        ).remove(s[i].0@));
    }
}

/// Appending a pair inserts its entry.
pub proof fn lemma_map_of_push(s: Seq<(String, String)>, e: (String, String))
    ensures
        map_of(s.push(e)) == map_of(s).insert(e.0@, e.1@),
{
    assert(s.push(e).drop_last() =~= s);
    assert(s.push(e).last() == e);
}

/// `k` addresses a directory of the entries exactly when some pair's key
/// lies strictly below it.
pub proof fn lemma_dir_key_index(s: Seq<(String, String)>, k: Seq<char>)
    ensures
        dir_key(map_of(s), k) <==> exists|i: int|
            0 <= i < s.len() && under_key(k, (#[trigger] s[i]).0@),
{
    if dir_key(map_of(s), k) {
        let k2 = choose|k2: Seq<char>| #[trigger] map_of(s).contains_key(k2) && under_key(k, k2);
        lemma_map_of_contains(s, k2);
        let i = choose|i: int| 0 <= i < s.len() && (#[trigger] s[i]).0@ == k2;
        assert(under_key(k, s[i].0@));
    }
    if exists|i: int| 0 <= i < s.len() && under_key(k, (#[trigger] s[i]).0@) {
        let i = choose|i: int| 0 <= i < s.len() && under_key(k, (#[trigger] s[i]).0@);
        lemma_map_of_contains(s, s[i].0@);
        assert(map_of(s).contains_key(s[i].0@) && under_key(k, s[i].0@));
    }
}

/// The pairs whose keys do not lie strictly below `k`, in order.
pub open spec fn keep_outside(s: Seq<(String, String)>, k: Seq<char>) -> Seq<(String, String)>
    decreases s.len(),
{
    if s.len() == 0 {
        s
    } else if under_key(k, s.last().0@) {
        keep_outside(s.drop_last(), k)
    } else {
        keep_outside(s.drop_last(), k).push(s.last())
    }
}

/// Keeping the pairs outside `k`'s subtree removes exactly the subtree from
/// the entries, preserves key uniqueness, and invents no pair.
pub proof fn lemma_keep_outside(s: Seq<(String, String)>, k: Seq<char>)
    requires
        unique_keys(s),
    ensures
        map_of(keep_outside(s, k)) == without_subtree(map_of(s), k),
        unique_keys(keep_outside(s, k)),
        forall|l: int|
            0 <= l < keep_outside(s, k).len() ==> s.contains(#[trigger] keep_outside(s, k)[l]),
    decreases s.len(),
{
    if s.len() == 0 {
        assert(map_of(keep_outside(s, k)) =~= without_subtree(map_of(s), k));
    } else {
        let d = s.drop_last();
        assert(forall|a: int| 0 <= a < d.len() ==> d[a] == s[a]);
        assert(unique_keys(d));
        lemma_keep_outside(d, k);
        let kd = keep_outside(d, k);
        let lk = s.last().0@;
        let lv = s.last().1@;
        assert(map_of(s) == map_of(d).insert(lk, lv));
        assert forall|l: int| 0 <= l < kd.len() implies s.contains(#[trigger] kd[l]) by {
            let j = choose|j: int| 0 <= j < d.len() && d[j] == kd[l];
            assert(s[j] == kd[l]);
        }
        if under_key(k, lk) {
            assert(without_subtree(map_of(d).insert(lk, lv), k) =~= without_subtree(
                map_of(d),
                k,
            ));
        } else {
            let w = kd.push(s.last());
            assert(keep_outside(s, k) == w);
            lemma_map_of_push(kd, s.last());
            assert(without_subtree(map_of(d).insert(lk, lv), k) =~= without_subtree(
                map_of(d),
                k,
            ).insert(lk, lv));
            assert forall|a: int, b: int| 0 <= a < b < w.len() implies (#[trigger] w[a]).0@ != (
            #[trigger] w[b]).0@ by {
                if b < kd.len() {
                    assert(kd[a].0@ != kd[b].0@);
                } else {
                    assert(w[b] == s.last());
                    let j = choose|j: int| 0 <= j < d.len() && d[j] == kd[a];
                    assert(s[j] == kd[a]);
                    assert(s[j].0@ != s[s.len() - 1].0@);
                }
            }
            assert forall|l: int| 0 <= l < w.len() implies s.contains(#[trigger] w[l]) by {
                if l < kd.len() {
                    assert(s.contains(kd[l]));
                } else {
                    assert(w[l] == s[s.len() - 1]);
                }
            }
        }
    }
}

/// The keys of the pairs that start with `p`, in order.
pub open spec fn keys_with_prefix(s: Seq<(String, String)>, p: Seq<char>) -> Seq<Seq<char>>
    decreases s.len(),
{
    if s.len() == 0 {
        Seq::empty()
    } else if p.is_prefix_of(s.last().0@) {
        keys_with_prefix(s.drop_last(), p).push(s.last().0@)
    } else {
        keys_with_prefix(s.drop_last(), p)
    }
}

/// A key is in the prefixed listing exactly when some pair holds it and it
/// starts with `p`.
pub proof fn lemma_keys_with_prefix(s: Seq<(String, String)>, p: Seq<char>, k: Seq<char>)
    ensures
        keys_with_prefix(s, p).contains(k) <==> exists|i: int|
            0 <= i < s.len() && (#[trigger] s[i]).0@ == k && p.is_prefix_of(k),
    decreases s.len(),
{
    if s.len() > 0 {
        let d = s.drop_last();
        lemma_keys_with_prefix(d, p, k);
        assert(forall|a: int| 0 <= a < d.len() ==> d[a] == s[a]);
        let rest = keys_with_prefix(d, p);
        if p.is_prefix_of(s.last().0@) {
            let w = rest.push(s.last().0@);
            assert(keys_with_prefix(s, p) == w);
            if w.contains(k) {
                let j = choose|j: int| 0 <= j < w.len() && w[j] == k;
                if j < rest.len() {
                    assert(rest[j] == k);
                    assert(rest.contains(k));
                } else {
                    assert((s[s.len() - 1]).0@ == k);
                }
            }
            if exists|i: int| 0 <= i < s.len() && (#[trigger] s[i]).0@ == k && p.is_prefix_of(k) {
                let i = choose|i: int|
                    0 <= i < s.len() && (#[trigger] s[i]).0@ == k && p.is_prefix_of(k);
                if i < d.len() {
                    assert(rest.contains(k));
                    let j = choose|j: int| 0 <= j < rest.len() && rest[j] == k;
                    assert(w[j] == k);
                } else {
                    assert(w.last() == k);
                }
                assert(w.contains(k));
            }
        } else {
            if rest.contains(k) {
                let i = choose|i: int|
                    0 <= i < d.len() && (#[trigger] d[i]).0@ == k && p.is_prefix_of(k);
                assert((s[i]).0@ == k);
            }
            if exists|i: int| 0 <= i < s.len() && (#[trigger] s[i]).0@ == k && p.is_prefix_of(k) {
                let i = choose|i: int|
                    0 <= i < s.len() && (#[trigger] s[i]).0@ == k && p.is_prefix_of(k);
                assert(i < d.len());
                assert((d[i]).0@ == k);
            }
        }
    }
}

/// With unique keys, the prefixed listing repeats no key.
pub proof fn lemma_keys_with_prefix_unique(s: Seq<(String, String)>, p: Seq<char>)
    requires
        unique_keys(s),
    ensures
        keys_with_prefix(s, p).no_duplicates(),
    decreases s.len(),
{
    if s.len() > 0 {
        let d = s.drop_last();
        assert(forall|a: int| 0 <= a < d.len() ==> d[a] == s[a]);
        assert(unique_keys(d));
        lemma_keys_with_prefix_unique(d, p);
        let rest = keys_with_prefix(d, p);
        if p.is_prefix_of(s.last().0@) {
            let w = rest.push(s.last().0@);
            assert(keys_with_prefix(s, p) == w);
            lemma_keys_with_prefix(d, p, s.last().0@);
            if rest.contains(s.last().0@) {
                let i = choose|i: int|
                    0 <= i < d.len() && (#[trigger] d[i]).0@ == s.last().0@ && p.is_prefix_of(
                        s.last().0@,
                    );
                assert(s[i].0@ == s[s.len() - 1].0@);
                assert(false);
            }
            assert forall|a: int, b: int|
                0 <= a < w.len() && 0 <= b < w.len() && a != b implies w[a] != w[b] by {
                if a < rest.len() && b < rest.len() {
                    assert(rest[a] != rest[b]);
                } else if a < rest.len() {
                    assert(w[b] == s.last().0@);
                    if w[a] == w[b] {
                        assert(rest[a] == s.last().0@);
                        assert(rest.contains(s.last().0@));
                    }
                } else {
                    assert(w[a] == s.last().0@);
                    if w[a] == w[b] {
                        assert(rest[b] == s.last().0@);
                        assert(rest.contains(s.last().0@));
                    }
                }
            }
        }
    }
}

/// The reference store: entries held in memory, keys unique. It implements
/// the storage interface exactly and stands in for the encrypted store
/// wherever no external tool is wanted.
pub struct MemStorage {
    items: Vec<(String, String)>,
}

impl MemStorage {
    /// An empty store.
    pub fn new() -> (s: MemStorage)
        ensures
            s.inv(),
            s.entries() == Map::<Seq<char>, Seq<char>>::empty(),
    {
        let s = MemStorage { items: Vec::new() };
        proof {
            assert(s.entries() =~= Map::<Seq<char>, Seq<char>>::empty());
        }
        s
    }
}

/// The index of the pair holding `key`, when one does.
fn find_key(items: &Vec<(String, String)>, key: &str) -> (r: Option<usize>)
    ensures
        match r {
            Some(i) => i < items@.len() && items@[i as int].0@ == key@,
            None => forall|j: int| 0 <= j < items@.len() ==> (#[trigger] items@[j]).0@ != key@,
        },
{
    let n = items.len();
    let mut idx: usize = 0;
    while idx < n
        invariant
            idx <= n,
            n == items@.len(),
            forall|j: int| 0 <= j < idx ==> (#[trigger] items@[j]).0@ != key@,
        decreases n - idx,
    {
        if str_eq(items[idx].0.as_str(), key) {
            return Some(idx);
        }
        idx += 1;
    }
    None
}

/// Whether some pair's key lies strictly below `key`.
fn any_under(items: &Vec<(String, String)>, key: &str) -> (r: bool)
    ensures
        r == exists|j: int| 0 <= j < items@.len() && under_key(key@, (#[trigger] items@[j]).0@),
{
    let mut ks = String::from_str(key);
    ks.append("/");
    proof {
        reveal_strlit("/");
        assert(ks@ =~= key@ + sep());
    }
    let n = items.len();
    let mut idx: usize = 0;
    while idx < n
        invariant
            idx <= n,
            n == items@.len(),
            ks@ == key@ + sep(),
            forall|j: int| 0 <= j < idx ==> !under_key(key@, (#[trigger] items@[j]).0@),
        decreases n - idx,
    {
        if has_prefix(items[idx].0.as_str(), ks.as_str()) {
            assert(under_key(key@, items@[idx as int].0@));
            return true;
        }
        idx += 1;
    }
    false
}

impl Storage for MemStorage {
    closed spec fn entries(&self) -> Map<Seq<char>, Seq<char>> {
        map_of(self.items@)
    }

    closed spec fn inv(&self) -> bool {
        unique_keys(self.items@)
    }

    open spec fn set_succeeds(&self, key: Seq<char>, value: Seq<char>) -> bool {
        true
    }

    fn get(&self, key: &str) -> (r: Result<String, Error>) {
        match find_key(&self.items, key) {
            Some(i) => {
                proof {
                    lemma_map_of_at(self.items@, i as int);
                }
                Ok(self.items[i].1.clone())
            },
            None => {
                proof {
                    lemma_map_of_contains(self.items@, key@);
                }
                Err(Error::InvalidKey(String::from_str("no entry under this key")))
            },
        }
    }

    fn set(&mut self, key: &str, value: &str) -> (r: Result<(), Error>) {
        let ghost s0 = self.items@;
        match find_key(&self.items, key) {
            Some(i) => {
                proof {
                    lemma_map_of_at(s0, i as int);
                    lemma_map_of_remove(s0, i as int);
                }
                let _ = self.items.remove(i);
                proof {
                    assert(forall|a: int|
                        0 <= a < self.items@.len() ==> (#[trigger] self.items@[a]).0@ != key@);
                }
            },
            None => {
            },
        }
        let ghost s1 = self.items@;
        let kq = String::from_str(key);
        let vq = String::from_str(value);
        let ghost e = (kq, vq);
        self.items.push((kq, vq));
        proof {
            lemma_map_of_push(s1, e);
            assert(self.items@.drop_last() =~= s1);
            assert(map_of(self.items@) == map_of(s1).insert(key@, value@));
            assert(map_of(s0).remove(key@).insert(key@, value@) =~= map_of(s0).insert(
                key@,
                value@,
            ));
            assert forall|a: int, b: int|
                0 <= a < b < self.items@.len() implies (#[trigger] self.items@[a]).0@ != (
            #[trigger] self.items@[b]).0@ by {
                if b < s1.len() {
                    assert(s1[a] == self.items@[a] && s1[b] == self.items@[b]);
                } else {
                    assert(self.items@[b].0@ == key@);
                    assert(s1[a] == self.items@[a]);
                }
            }
        }
        Ok(())
    }

    fn list(&self, prefix: &str) -> (r: Result<Vec<String>, Error>)
        ensures
            r matches Ok(keys) && keys.deep_view().no_duplicates(),
    {
        let mut out: Vec<String> = Vec::new();
        let n = self.items.len();
        let mut i: usize = 0;
        proof {
            assert(self.items@.take(0) =~= Seq::<(String, String)>::empty());
            assert(out.deep_view() =~= keys_with_prefix(self.items@.take(0), prefix@));
        }
        while i < n
            invariant
                i <= n,
                n == self.items@.len(),
                out.deep_view() == keys_with_prefix(self.items@.take(i as int), prefix@),
            decreases n - i,
        {
            proof {
                assert(self.items@.take(i as int + 1).drop_last() =~= self.items@.take(i as int));
                assert(self.items@.take(i as int + 1).last() == self.items@[i as int]);
            }
            if has_prefix(self.items[i].0.as_str(), prefix) {
                let ghost before = out.deep_view();
                out.push(self.items[i].0.clone());
                proof {
                    assert(out.deep_view() =~= before.push(self.items@[i as int].0@));
                }
            }
            i += 1;
        }
        proof {
            assert(self.items@.take(n as int) =~= self.items@);
            assert forall|k: Seq<char>|
                out.deep_view().contains(k) <==> (self.entries().contains_key(k)
                    && prefix@.is_prefix_of(k)) by {
                lemma_keys_with_prefix(self.items@, prefix@, k);
                lemma_map_of_contains(self.items@, k);
            }
            lemma_keys_with_prefix_unique(self.items@, prefix@);
        }
        Ok(out)
    }

    fn remove(&mut self, key: &str, recursive: bool) -> (r: Result<(), Error>) {
        let ghost s0 = self.items@;
        let isdir = any_under(&self.items, key);
        proof {
            lemma_dir_key_index(s0, key@);
        }
        if isdir {
            if !recursive {
                return Err(Error::InvalidKey(String::from_str("Key is a directory")));
            }
            let mut ks = String::from_str(key);
            ks.append("/");
            proof {
                reveal_strlit("/");
                assert(ks@ =~= key@ + sep());
            }
            let mut kept: Vec<(String, String)> = Vec::new();
            let n = self.items.len();
            let mut i: usize = 0;
            proof {
                assert(s0.take(0) =~= Seq::<(String, String)>::empty());
                assert(kept@ =~= keep_outside(s0.take(0), key@));
            }
            while i < n
                invariant
                    i <= n,
                    n == self.items@.len(),
                    self.items@ == s0,
                    ks@ == key@ + sep(),
                    kept@ == keep_outside(s0.take(i as int), key@),
                decreases n - i,
            {
                proof {
                    assert(s0.take(i as int + 1).drop_last() =~= s0.take(i as int));
                    assert(s0.take(i as int + 1).last() == s0[i as int]);
                }
                if !has_prefix(self.items[i].0.as_str(), ks.as_str()) {
                    let e0 = self.items[i].0.clone();
                    let e1 = self.items[i].1.clone();
                    kept.push((e0, e1));
                    proof {
                        assert((e0, e1) == s0[i as int]);
                    }
                }
                i += 1;
            }
            proof {
                assert(s0.take(n as int) =~= s0);
                lemma_keep_outside(s0, key@);
            }
            self.items = kept;
            Ok(())
        } else {
            match find_key(&self.items, key) {
                Some(i) => {
                    proof {
                        lemma_map_of_at(s0, i as int);
                        lemma_map_of_remove(s0, i as int);
                    }
                    let _ = self.items.remove(i);
                    Ok(())
                },
                None => {
                    proof {
                        lemma_map_of_contains(s0, key@);
                    }
                    Err(Error::IO(String::from_str("no entry file to remove")))
                },
            }
        }
    }
}

} // verus!
