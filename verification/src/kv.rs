use vstd::prelude::*;

verus! {

/// Key types usable in a `KvVec`: equality is decidable in executable code
/// and agrees with mathematical equality on the type.
pub trait KeyEq: Sized {
    fn key_eq(&self, other: &Self) -> (r: bool)
        ensures
            r <==> (*self == *other),
    ;
}

impl KeyEq for u64 {
    fn key_eq(&self, other: &Self) -> (r: bool) {
        *self == *other
    }
}

impl KeyEq for (u64, u64, u64) {
    fn key_eq(&self, other: &Self) -> (r: bool) {
        self.0 == other.0 && self.1 == other.1 && self.2 == other.2
    }
}

/// No key occurs twice in the entry list.
pub open spec fn distinct_keys<K, V>(s: Seq<(K, V)>) -> bool {
    forall|i: int, j: int| 0 <= i < j < s.len() ==> s[i].0 != s[j].0
}

/// The mapping an entry list stands for; meaningful when keys are distinct.
pub open spec fn assoc_view<K, V>(s: Seq<(K, V)>) -> Map<K, V> {
    Map::new(
        |k: K| exists|i: int| 0 <= i < s.len() && (#[trigger] s[i]).0 == k,
        |k: K| s[choose|i: int| 0 <= i < s.len() && (#[trigger] s[i]).0 == k].1,
    )
}

proof fn lemma_view_index<K, V>(s: Seq<(K, V)>, i: int)
    requires
        distinct_keys(s),
        0 <= i < s.len(),
    ensures
        assoc_view(s).contains_key(s[i].0),
        assoc_view(s)[s[i].0] == s[i].1,
{
    let k = s[i].0;
    assert(exists|j: int| 0 <= j < s.len() && (#[trigger] s[j]).0 == k);
    let j = choose|j: int| 0 <= j < s.len() && (#[trigger] s[j]).0 == k;
    assert(j == i);
}

proof fn lemma_view_absent<K, V>(s: Seq<(K, V)>, k: K)
    requires
        forall|j: int| 0 <= j < s.len() ==> (#[trigger] s[j]).0 != k,
    ensures
        !assoc_view(s).contains_key(k),
{
}

proof fn lemma_view_contains<K, V>(s: Seq<(K, V)>, k: K)
    ensures
        assoc_view(s).contains_key(k) <==> exists|i: int|
            0 <= i < s.len() && (#[trigger] s[i]).0 == k,
{
}

proof fn lemma_view_update<K, V>(s: Seq<(K, V)>, i: int, k: K, v: V)
    requires
        distinct_keys(s),
        0 <= i < s.len(),
        s[i].0 == k,
    ensures
        distinct_keys(s.update(i, (k, v))),
        assoc_view(s.update(i, (k, v))) == assoc_view(s).insert(k, v),
{
    let t = s.update(i, (k, v));
    assert forall|j: int| 0 <= j < t.len() implies (#[trigger] t[j]).0 == s[j].0 by {
        if j != i {
            assert(t[j] == s[j]);
        }
    }
    assert(distinct_keys(t));
    let m1 = assoc_view(t);
    let m2 = assoc_view(s).insert(k, v);
    assert forall|k2: K| #[trigger] m1.contains_key(k2) implies m2.contains_key(k2) && m1[k2]
        == m2[k2] by {
        lemma_view_contains(t, k2);
        let j = choose|j: int| 0 <= j < t.len() && (#[trigger] t[j]).0 == k2;
        lemma_view_index(t, j);
        if j == i {
            assert(k2 == k);
            assert(m1[k2] == v);
        } else {
            assert(t[j] == s[j]);
            assert(k2 != k);
            lemma_view_index(s, j);
        }
    }
    assert forall|k2: K| #[trigger] m2.contains_key(k2) implies m1.contains_key(k2) by {
        if k2 == k {
            assert((#[trigger] t[i]).0 == k2);
        } else {
            lemma_view_contains(s, k2);
            let j = choose|j: int| 0 <= j < s.len() && (#[trigger] s[j]).0 == k2;
            assert(j != i);
            assert((#[trigger] t[j]).0 == k2);
        }
        lemma_view_contains(t, k2);
    }
    assert(m1 =~= m2);
}

proof fn lemma_view_push<K, V>(s: Seq<(K, V)>, k: K, v: V)
    requires
        distinct_keys(s),
        forall|j: int| 0 <= j < s.len() ==> (#[trigger] s[j]).0 != k,
    ensures
        distinct_keys(s.push((k, v))),
        assoc_view(s.push((k, v))) == assoc_view(s).insert(k, v),
{
    let t = s.push((k, v));
    assert(forall|j: int| 0 <= j < s.len() ==> #[trigger] t[j] == s[j]);
    assert(t[s.len() as int] == (k, v));
    assert(distinct_keys(t)) by {
        assert forall|j1: int, j2: int| 0 <= j1 < j2 < t.len() implies (#[trigger] t[j1]).0 != (
        #[trigger] t[j2]).0 by {
            if j2 == s.len() {
                assert(t[j1] == s[j1]);
            } else {
                assert(t[j1] == s[j1]);
                assert(t[j2] == s[j2]);
            }
        }
    }
    let m1 = assoc_view(t);
    let m2 = assoc_view(s).insert(k, v);
    assert forall|k2: K| #[trigger] m1.contains_key(k2) implies m2.contains_key(k2) && m1[k2]
        == m2[k2] by {
        lemma_view_contains(t, k2);
        let j = choose|j: int| 0 <= j < t.len() && (#[trigger] t[j]).0 == k2;
        lemma_view_index(t, j);
        if j == s.len() {
            assert(k2 == k);
            assert(m1[k2] == v);
        } else {
            assert(t[j] == s[j]);
            assert(k2 != k);
            lemma_view_index(s, j);
        }
    }
    assert forall|k2: K| #[trigger] m2.contains_key(k2) implies m1.contains_key(k2) by {
        if k2 == k {
            assert((#[trigger] t[s.len() as int]).0 == k2);
        } else {
            lemma_view_contains(s, k2);
            let j = choose|j: int| 0 <= j < s.len() && (#[trigger] s[j]).0 == k2;
            assert((#[trigger] t[j]).0 == k2);
        }
        lemma_view_contains(t, k2);
    }
    assert(m1 =~= m2);
}

proof fn lemma_view_remove<K, V>(s: Seq<(K, V)>, i: int)
    requires
        distinct_keys(s),
        0 <= i < s.len(),
    ensures
        distinct_keys(s.remove(i)),
        assoc_view(s.remove(i)) == assoc_view(s).remove(s[i].0),
{
    let k = s[i].0;
    let t = s.remove(i);
    s.remove_ensures(i);
    assert(forall|j: int| 0 <= j < i ==> #[trigger] t[j] == s[j]);
    assert(forall|j: int| i <= j < s.len() - 1 ==> #[trigger] t[j] == s[j + 1]);
    assert forall|j1: int, j2: int| 0 <= j1 < j2 < t.len() implies (#[trigger] t[j1]).0 != (
    #[trigger] t[j2]).0 by {
        let o1 = if j1 < i { j1 } else { j1 + 1 };
        let o2 = if j2 < i { j2 } else { j2 + 1 };
        assert(t[j1] == s[o1]);
        assert(t[j2] == s[o2]);
    }
    let m1 = assoc_view(t);
    let m2 = assoc_view(s).remove(k);
    assert forall|k2: K| #[trigger] m1.contains_key(k2) implies m2.contains_key(k2) && m1[k2]
        == m2[k2] by {
        lemma_view_contains(t, k2);
        let j = choose|j: int| 0 <= j < t.len() && (#[trigger] t[j]).0 == k2;
        lemma_view_index(t, j);
        let o = if j < i { j } else { j + 1 };
        assert(t[j] == s[o]);
        assert(k2 != k);
        lemma_view_index(s, o);
    }
    assert forall|k2: K| #[trigger] m2.contains_key(k2) implies m1.contains_key(k2) by {
        lemma_view_contains(s, k2);
        let j = choose|j: int| 0 <= j < s.len() && (#[trigger] s[j]).0 == k2;
        assert(k2 != k);
        assert(j != i);
        let o = if j < i { j } else { j - 1 };
        assert(t[o] == s[j]);
        assert((#[trigger] t[o]).0 == k2);
        lemma_view_contains(t, k2);
    }
    assert(m1 =~= m2);
}

/// A mapping kept as a vector of key/value entries with distinct keys.
///
/// Every cache and in-memory table of this crate is one of these; its view
/// is the finite map the entries stand for.
pub struct KvVec<K, V> {
    entries: Vec<(K, V)>,
}

impl<K: KeyEq, V> View for KvVec<K, V> {
    type V = Map<K, V>;

    closed spec fn view(&self) -> Map<K, V> {
        assoc_view(self.entries@)
    }
}

impl<K: KeyEq, V> KvVec<K, V> {
    /// The entry list never holds a key twice.
    pub closed spec fn wf(self) -> bool {
        distinct_keys(self.entries@)
    }

    pub fn new() -> (r: Self)
        ensures
            r.wf(),
            r@ == Map::<K, V>::empty(),
    {
        let r = KvVec { entries: Vec::new() };
        proof {
            assert(r@ =~= Map::<K, V>::empty());
        }
        r
    }

    fn find(&self, k: &K) -> (r: Option<usize>)
        ensures
            match r {
                Some(i) => i < self.entries@.len() && self.entries@[i as int].0 == *k,
                None => forall|j: int|
                    0 <= j < self.entries@.len() ==> (#[trigger] self.entries@[j]).0 != *k,
            },
    {
        let n = self.entries.len();
        let mut i: usize = 0;
        while i < n
            invariant
                n == self.entries@.len(),
                i <= n,
                forall|j: int| 0 <= j < i ==> (#[trigger] self.entries@[j]).0 != *k,
            decreases n - i,
        {
            if self.entries[i].0.key_eq(k) {
                return Some(i);
            }
            i += 1;
        }
        None
    }

    pub fn get(&self, k: &K) -> (r: Option<&V>)
        requires
            self.wf(),
        ensures
            match r {
                Some(v) => self@.contains_key(*k) && *v == self@[*k],
                None => !self@.contains_key(*k),
            },
    {
        match self.find(k) {
            Some(i) => {
                proof {
                    lemma_view_index(self.entries@, i as int);
                }
                Some(&self.entries[i].1)
            },
            None => {
                proof {
                    lemma_view_absent(self.entries@, *k);
                }
                None
            },
        }
    }

    pub fn insert(&mut self, k: K, v: V)
        requires
            old(self).wf(),
        ensures
            final(self).wf(),
            final(self)@ == old(self)@.insert(k, v),
    {
        let ghost s0 = self.entries@;
        match self.find(&k) {
            Some(i) => {
                self.entries[i] = (k, v);
                proof {
                    lemma_view_update(s0, i as int, k, v);
                }
            },
            None => {
                self.entries.push((k, v));
                proof {
                    lemma_view_push(s0, k, v);
                }
            },
        }
    }

    /// Remove an entry, returning its value.
    pub fn take(&mut self, k: &K) -> (r: Option<V>)
        requires
            old(self).wf(),
        ensures
            final(self).wf(),
            final(self)@ == old(self)@.remove(*k),
            match r {
                Some(v) => old(self)@.contains_key(*k) && v == old(self)@[*k],
                None => !old(self)@.contains_key(*k),
            },
    {
        let ghost s0 = self.entries@;
        match self.find(k) {
            Some(i) => {
                proof {
                    lemma_view_index(s0, i as int);
                    lemma_view_remove(s0, i as int);
                }
                let e = self.entries.remove(i);
                Some(e.1)
            },
            None => {
                proof {
                    lemma_view_absent(s0, *k);
                    assert(old(self)@.remove(*k) =~= old(self)@);
                }
                None
            },
        }
    }

    /// Housekeeping after removals: give surplus capacity back without
    /// changing any entry.
    pub fn maintain(&mut self)
        ensures
            final(self)@ == old(self)@,
            final(self).wf() == old(self).wf(),
    {
        shrink_vec(&mut self.entries);
    }
}

/// Relies on `Vec::shrink_to_fit`: it may shed spare capacity but keeps the
/// elements exactly as they are.
#[verifier::external_body]
fn shrink_vec<T>(v: &mut Vec<T>)
    ensures
        final(v)@ == old(v)@,
{
    v.shrink_to_fit();
}

} // verus!
