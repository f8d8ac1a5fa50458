use vstd::prelude::*;

verus! {

use crate::strutil::str_eq;

/// Whether some pair of the association sequence carries the key `k`.
pub open spec fn has_key<T>(s: Seq<(Seq<char>, T)>, k: Seq<char>) -> bool {
    exists|i: int| 0 <= i < s.len() && s[i].0 == k
}

/// Position of the first pair carrying `k`; meaningful only when `has_key`.
pub open spec fn key_index<T>(s: Seq<(Seq<char>, T)>, k: Seq<char>) -> int
    decreases s.len(),
{
    if s.len() == 0 {
        0
    } else if s[0].0 == k {
        0
    } else {
        1 + key_index(s.skip(1), k)
    }
}

/// The value stored under `k`; meaningful only when `has_key`.
pub open spec fn value_of<T>(s: Seq<(Seq<char>, T)>, k: Seq<char>) -> T {
    s[key_index(s, k)].1
}

/// No two pairs carry the same key.
pub open spec fn unique_keys<T>(s: Seq<(Seq<char>, T)>) -> bool {
    forall|i: int, j: int| 0 <= i < j < s.len() ==> s[i].0 != s[j].0
}

/// Replace the value under `k` in place, or append a new pair at the end.
pub open spec fn upsert_entries<T>(s: Seq<(Seq<char>, T)>, k: Seq<char>, v: T) -> Seq<
    (Seq<char>, T),
> {
    if has_key(s, k) {
        s.update(key_index(s, k), (k, v))
    } else {
        s.push((k, v))
    }
}

pub proof fn lemma_key_index<T>(s: Seq<(Seq<char>, T)>, k: Seq<char>)
    requires
        has_key(s, k),
    ensures
        0 <= key_index(s, k) < s.len(),
        s[key_index(s, k)].0 == k,
        forall|j: int| 0 <= j < key_index(s, k) ==> s[j].0 != k,
    decreases s.len(),
{
    if s.len() > 0 && s[0].0 != k {
        let i = choose|i: int| 0 <= i < s.len() && s[i].0 == k;
        assert(s.skip(1)[i - 1].0 == k);
        lemma_key_index(s.skip(1), k);
        assert forall|j: int| 0 <= j < key_index(s, k) implies s[j].0 != k by {
            if j > 0 {
                assert(s.skip(1)[j - 1].0 != k);
            }
        }
    }
}

/// `key_index` looks only at the keys, so two sequences with the same keys in
/// the same order agree on it.
pub proof fn lemma_key_index_same_keys<T, U>(s1: Seq<(Seq<char>, T)>, s2: Seq<(Seq<char>, U)>, k: Seq<char>)
    requires
        s1.len() == s2.len(),
        forall|i: int| 0 <= i < s1.len() ==> s1[i].0 == s2[i].0,
    ensures
        key_index(s1, k) == key_index(s2, k),
        has_key(s1, k) == has_key(s2, k),
    decreases s1.len(),
{
    if s1.len() > 0 {
        assert(forall|i: int|
            0 <= i < s1.skip(1).len() ==> s1.skip(1)[i].0 == s2.skip(1)[i].0);
        lemma_key_index_same_keys(s1.skip(1), s2.skip(1), k);
        if has_key(s1, k) {
            let i = choose|i: int| 0 <= i < s1.len() && s1[i].0 == k;
            assert(s2[i].0 == k);
        }
        if has_key(s2, k) {
            let i = choose|i: int| 0 <= i < s2.len() && s2[i].0 == k;
            assert(s1[i].0 == k);
        }
        if s1[0].0 != k {
            if has_key(s1, k) {
                let i = choose|i: int| 0 <= i < s1.len() && s1[i].0 == k;
                assert(s1.skip(1)[i - 1].0 == k);
            }
            if has_key(s2, k) {
                let i = choose|i: int| 0 <= i < s2.len() && s2[i].0 == k;
                assert(s2.skip(1)[i - 1].0 == k);
            }
        }
    }
}

/// What one upsert does: the named key gets the new value, every other pair
/// stays exactly where it was, and key uniqueness is kept.
pub proof fn lemma_upsert<T>(s: Seq<(Seq<char>, T)>, k: Seq<char>, v: T)
    requires
        unique_keys(s),
    ensures
        unique_keys(upsert_entries(s, k, v)),
        has_key(upsert_entries(s, k, v), k),
        value_of(upsert_entries(s, k, v), k) == v,
        upsert_entries(s, k, v).len() == if has_key(s, k) { s.len() } else { s.len() + 1 },
        forall|j: int|
            0 <= j < s.len() && s[j].0 != k ==> upsert_entries(s, k, v)[j] == s[j],
        forall|i: int| 0 <= i < s.len() ==> upsert_entries(s, k, v)[i].0 == s[i].0,
        forall|k2: Seq<char>|
            k2 != k ==> has_key(upsert_entries(s, k, v), k2) == has_key(s, k2),
        forall|k2: Seq<char>|
            k2 != k && has_key(s, k2) ==> value_of(upsert_entries(s, k, v), k2) == value_of(
                s,
                k2,
            ),
{
    let r = upsert_entries(s, k, v);
    if has_key(s, k) {
        lemma_key_index(s, k);
        let i0 = key_index(s, k);
        assert(r[i0].0 == k);
        assert forall|j: int| 0 <= j < s.len() && s[j].0 != k implies r[j] == s[j] by {
            assert(j != i0);
        }
        assert forall|k2: Seq<char>| k2 != k implies has_key(r, k2) == has_key(s, k2) by {
            assert(forall|i: int| 0 <= i < s.len() ==> r[i].0 == s[i].0);
            lemma_key_index_same_keys(r, s, k2);
        }
        assert(has_key(r, k) && value_of(r, k) == v) by {
            lemma_key_index_same_keys(r, s, k);
        }
        assert forall|k2: Seq<char>| k2 != k && has_key(s, k2) implies value_of(r, k2)
            == value_of(s, k2) by {
            lemma_key_index_same_keys(r, s, k2);
            lemma_key_index(s, k2);
            assert(key_index(s, k2) != i0);
        }
    } else {
        assert(r == s.push((k, v)));
        assert(r[s.len() as int].0 == k);
        assert(has_key(r, k));
        assert forall|i: int, j: int| 0 <= i < j < r.len() implies r[i].0 != r[j].0 by {
            if j < s.len() {
            } else {
                assert(r[j].0 == k);
                assert(!has_key(s, k));
                assert(r[i] == s[i]);
            }
        }
        lemma_key_index(r, k);
        assert(value_of(r, k) == v) by {
            let ki = key_index(r, k);
            if ki < s.len() {
                assert(s[ki].0 == k);
                assert(false);
            }
        }
        assert forall|k2: Seq<char>| k2 != k implies has_key(r, k2) == has_key(s, k2) by {
            if has_key(r, k2) {
                let i = choose|i: int| 0 <= i < r.len() && r[i].0 == k2;
                assert(i < s.len());
            }
            if has_key(s, k2) {
                let i = choose|i: int| 0 <= i < s.len() && s[i].0 == k2;
                assert(r[i].0 == k2);
            }
        }
        assert forall|k2: Seq<char>| k2 != k && has_key(s, k2) implies value_of(r, k2)
            == value_of(s, k2) by {
            lemma_key_index(s, k2);
            let i = key_index(s, k2);
            assert(r[i].0 == k2);
            assert(has_key(r, k2));
            lemma_key_index(r, k2);
            let ir = key_index(r, k2);
            if ir < i {
                assert(s[ir].0 != k2);
            }
            if ir > i {
                assert(r[i].0 != k2);
            }
            assert(ir == i);
        }
    }
}

/// Apply a sequence of key/value pairs as upserts, earliest pair first.
pub open spec fn upsert_pairs<T>(s: Seq<(Seq<char>, T)>, ps: Seq<(Seq<char>, T)>) -> Seq<
    (Seq<char>, T),
>
    decreases ps.len(),
{
    if ps.len() == 0 {
        s
    } else {
        upsert_entries(upsert_pairs(s, ps.drop_last()), ps.last().0, ps.last().1)
    }
}

/// The value that the last pair carrying `k` assigns, if any pair does.
pub open spec fn last_value<T>(ps: Seq<(Seq<char>, T)>, k: Seq<char>) -> Option<T>
    decreases ps.len(),
{
    if ps.len() == 0 {
        None
    } else if ps.last().0 == k {
        Some(ps.last().1)
    } else {
        last_value(ps.drop_last(), k)
    }
}

pub proof fn lemma_upsert_pairs_cons<T>(s: Seq<(Seq<char>, T)>, ps: Seq<(Seq<char>, T)>)
    requires
        ps.len() > 0,
    ensures
        upsert_pairs(s, ps) == upsert_pairs(
            upsert_entries(s, ps[0].0, ps[0].1),
            ps.skip(1),
        ),
    decreases ps.len(),
{
    let s2 = upsert_entries(s, ps[0].0, ps[0].1);
    let ps1 = ps.skip(1);
    if ps.len() == 1 {
        assert(ps.last() == ps[0]);
        assert(ps.drop_last().len() == 0);
        assert(upsert_pairs(s, ps.drop_last()) == s);
        assert(upsert_pairs(s, ps) == s2);
        assert(ps1.len() == 0);
        assert(upsert_pairs(s2, ps1) == s2);
    } else {
        lemma_upsert_pairs_cons(s, ps.drop_last());
        assert(ps.drop_last()[0] == ps[0]);
        assert(ps1.drop_last() =~= ps.drop_last().skip(1));
        assert(ps1.last() == ps.last());
        assert(upsert_pairs(s, ps.drop_last()) == upsert_pairs(s2, ps1.drop_last()));
        assert(upsert_pairs(s, ps) == upsert_entries(
            upsert_pairs(s, ps.drop_last()),
            ps.last().0,
            ps.last().1,
        ));
        assert(upsert_pairs(s2, ps1) == upsert_entries(
            upsert_pairs(s2, ps1.drop_last()),
            ps1.last().0,
            ps1.last().1,
        ));
    }
}

pub proof fn lemma_last_value_cons<T>(ps: Seq<(Seq<char>, T)>, k: Seq<char>)
    requires
        ps.len() > 0,
    ensures
        last_value(ps, k) == if last_value(ps.skip(1), k) is Some {
            last_value(ps.skip(1), k)
        } else if ps[0].0 == k {
            Some(ps[0].1)
        } else {
            None::<T>
        },
    decreases ps.len(),
{
    if ps.len() == 1 {
        assert(ps.last() == ps[0]);
        assert(ps.skip(1).len() == 0);
    } else {
        lemma_last_value_cons(ps.drop_last(), k);
        assert(ps.drop_last()[0] == ps[0]);
        assert(ps.skip(1).drop_last() =~= ps.drop_last().skip(1));
        assert(ps.skip(1).last() == ps.last());
    }
}

/// What a whole pair sequence does to one key: the last pair carrying the key
/// wins, and a key no pair carries keeps its old binding.
pub proof fn lemma_upsert_pairs_value<T>(s: Seq<(Seq<char>, T)>, ps: Seq<(Seq<char>, T)>, k: Seq<char>)
    requires
        unique_keys(s),
    ensures
        unique_keys(upsert_pairs(s, ps)),
        last_value(ps, k) matches Some(v) ==> has_key(upsert_pairs(s, ps), k) && value_of(
            upsert_pairs(s, ps),
            k,
        ) == v,
        last_value(ps, k) is None ==> has_key(upsert_pairs(s, ps), k) == has_key(s, k),
        last_value(ps, k) is None && has_key(s, k) ==> value_of(upsert_pairs(s, ps), k)
            == value_of(s, k),
    decreases ps.len(),
{
    if ps.len() > 0 {
        lemma_upsert_pairs_value(s, ps.drop_last(), k);
        let mid = upsert_pairs(s, ps.drop_last());
        lemma_upsert(mid, ps.last().0, ps.last().1);
    }
}

/// Replaying a pair sequence over a state that already reflects it changes
/// nothing.  Stated over a second start state `f2` that may differ from the
/// final state `f` only at keys the pairs overwrite anyway, so that the proof
/// can peel pairs off from the front.
pub proof fn lemma_upsert_pairs_replay<T>(
    f: Seq<(Seq<char>, T)>,
    f2: Seq<(Seq<char>, T)>,
    ps: Seq<(Seq<char>, T)>,
)
    requires
        unique_keys(f),
        f.len() == f2.len(),
        forall|j: int| 0 <= j < f.len() ==> f2[j].0 == f[j].0,
        forall|j: int|
            0 <= j < f.len() ==> f2[j].1 == f[j].1 || last_value(ps, f[j].0) == Some(
                f[j].1,
            ),
        forall|k: Seq<char>| last_value(ps, k) is Some ==> has_key(f, k),
        forall|k: Seq<char>|
            last_value(ps, k) is Some ==> value_of(f, k) == last_value(ps, k)->Some_0,
    ensures
        upsert_pairs(f2, ps) == f,
    decreases ps.len(),
{
    if ps.len() == 0 {
        assert(f2 =~= f);
    } else {
        let k0 = ps[0].0;
        let v0 = ps[0].1;
        let ps1 = ps.skip(1);
        lemma_upsert_pairs_cons(f2, ps);
        lemma_last_value_cons(ps, k0);
        assert(last_value(ps, k0) is Some);
        assert(has_key(f, k0));
        lemma_key_index(f, k0);
        let i0 = key_index(f, k0);
        lemma_key_index_same_keys(f2, f, k0);
        assert(has_key(f2, k0));
        lemma_key_index(f2, k0);
        let f2b = upsert_entries(f2, k0, v0);
        assert(f2b == f2.update(i0, (k0, v0)));
        assert(f2b.len() == f.len());
        assert(forall|j: int| 0 <= j < f.len() ==> f2b[j].0 == f[j].0);
        assert forall|j: int|
            0 <= j < f.len() implies f2b[j].1 == f[j].1 || last_value(ps1, f[j].0) == Some(
            f[j].1,
        ) by {
            lemma_last_value_cons(ps, f[j].0);
            if j == i0 {
                if last_value(ps1, k0) is Some {
                    assert(last_value(ps, k0) == last_value(ps1, k0));
                    assert(value_of(f, k0) == last_value(ps1, k0)->Some_0);
                    assert(value_of(f, k0) == f[i0].1);
                } else {
                    assert(last_value(ps, k0) == Some(v0));
                    assert(value_of(f, k0) == v0);
                    assert(value_of(f, k0) == f[i0].1);
                    assert(f2b[j].1 == v0);
                }
            } else {
                assert(f[j].0 != f[i0].0);
                assert(f2b[j].1 == f2[j].1);
            }
        }
        assert forall|k: Seq<char>| last_value(ps1, k) is Some implies has_key(f, k) by {
            lemma_last_value_cons(ps, k);
        }
        assert forall|k: Seq<char>| last_value(ps1, k) is Some implies value_of(f, k)
            == last_value(ps1, k)->Some_0 by {
            lemma_last_value_cons(ps, k);
        }
        lemma_upsert_pairs_replay(f, f2b, ps1);
    }
}

/// Applying the same pair sequence a second time is a no-op.
pub proof fn lemma_upsert_pairs_idempotent<T>(s: Seq<(Seq<char>, T)>, ps: Seq<(Seq<char>, T)>)
    requires
        unique_keys(s),
    ensures
        upsert_pairs(upsert_pairs(s, ps), ps) == upsert_pairs(s, ps),
{
    let f = upsert_pairs(s, ps);
    assert forall|k: Seq<char>| last_value(ps, k) is Some implies has_key(f, k) && value_of(
        f,
        k,
    ) == last_value(ps, k)->Some_0 by {
        lemma_upsert_pairs_value(s, ps, k);
    }
    lemma_upsert_pairs_value(s, ps, Seq::empty());
    lemma_upsert_pairs_replay(f, f, ps);
}

/// A mapping from string keys to values, stored as an ordered list of pairs
/// with unique keys.  The order of the pairs is the order of first insertion,
/// which keeps rendered output deterministic.
pub struct KvMap<V> {
    entries: Vec<(String, V)>,
}

impl<V: DeepView> View for KvMap<V> {
    type V = Seq<(Seq<char>, V::V)>;

    closed spec fn view(&self) -> Seq<(Seq<char>, V::V)> {
        self.entries@.map_values(|e: (String, V)| (e.0@, e.1.deep_view()))
    }
}

impl<V: DeepView> DeepView for KvMap<V> {
    type V = Seq<(Seq<char>, V::V)>;

    open spec fn deep_view(&self) -> Seq<(Seq<char>, V::V)> {
        self.view()
    }
}

impl<V: DeepView> KvMap<V> {
    /// Key uniqueness, the invariant every operation preserves.
    pub open spec fn wf(&self) -> bool {
        unique_keys(self@)
    }

    pub fn new() -> (r: Self)
        ensures
            r@ == Seq::<(Seq<char>, V::V)>::empty(),
            r.wf(),
    {
        let r = KvMap { entries: Vec::new() };
        proof {
            assert(r@ =~= Seq::<(Seq<char>, V::V)>::empty());
        }
        r
    }

    pub fn len(&self) -> (r: usize)
        ensures
            r == self@.len(),
    {
        self.entries.len()
    }

    fn index_of(&self, k: &str) -> (r: Option<usize>)
        ensures
            match r {
                Some(i) => i < self@.len() && self@[i as int].0 == k@ && (forall|j: int|
                    0 <= j < i ==> self@[j].0 != k@),
                None => !has_key(self@, k@),
            },
    {
        let n = self.entries.len();
        let mut i: usize = 0;
        while i < n
            invariant
                i <= n,
                n == self@.len(),
                n == self.entries@.len(),
                forall|j: int| 0 <= j < i ==> self@[j].0 != k@,
            decreases n - i,
        {
            let e = &self.entries[i];
            if str_eq(e.0.as_str(), k) {
                return Some(i);
            }
            i += 1;
        }
        None
    }

    pub fn contains_key(&self, k: &str) -> (r: bool)
        ensures
            r == has_key(self@, k@),
    {
        match self.index_of(k) {
            Some(i) => {
                proof {
                    assert(self@[i as int].0 == k@);
                }
                true
            },
            None => false,
        }
    }

    pub fn get(&self, k: &str) -> (r: Option<&V>)
        ensures
            match r {
                Some(v) => has_key(self@, k@) && v.deep_view() == value_of(self@, k@),
                None => !has_key(self@, k@),
            },
    {
        match self.index_of(k) {
            Some(i) => {
                proof {
                    assert(self@[i as int].0 == k@);
                    lemma_key_index(self@, k@);
                    let ki = key_index(self@, k@);
                    assert(ki == i as int) by {
                        if ki < i as int {
                            assert(self@[ki].0 != k@);
                        }
                        if ki > i as int {
                            assert(self@[i as int].0 != k@);
                        }
                    }
                }
                let e = &self.entries[i];
                Some(&e.1)
            },
            None => None,
        }
    }

    /// Replace the value under `k`, keeping its place in the order, or append
    /// a new pair at the end.
    pub fn upsert(&mut self, k: String, v: V)
        requires
            old(self).wf(),
        ensures
            final(self)@ == upsert_entries(old(self)@, k@, v.deep_view()),
            final(self).wf(),
    {
        proof {
            lemma_upsert(old(self)@, k@, v.deep_view());
        }
        match self.index_of(k.as_str()) {
            Some(i) => {
                proof {
                    assert(old(self)@[i as int].0 == k@);
                    lemma_key_index(old(self)@, k@);
                    let ki = key_index(old(self)@, k@);
                    assert(ki == i as int) by {
                        if ki < i as int {
                            assert(old(self)@[ki].0 != k@);
                        }
                        if ki > i as int {
                            assert(old(self)@[i as int].0 != k@);
                        }
                    }
                }
                self.entries.remove(i);
                self.entries.insert(i, (k, v));
                proof {
                    assert(self@ =~= upsert_entries(old(self)@, k@, v.deep_view()));
                }
            },
            None => {
                self.entries.push((k, v));
                proof {
                    assert(self@ =~= upsert_entries(old(self)@, k@, v.deep_view()));
                }
            },
        }
    }

    pub fn key_at(&self, i: usize) -> (r: &String)
        requires
            i < self@.len(),
        ensures
            r@ == self@[i as int].0,
    {
        let e = &self.entries[i];
        &e.0
    }

    pub fn value_at(&self, i: usize) -> (r: &V)
        requires
            i < self@.len(),
        ensures
            r.deep_view() == self@[i as int].1,
    {
        let e = &self.entries[i];
        &e.1
    }
}

impl KvMap<String> {
    /// A copy whose view is the same.
    pub fn duplicate(&self) -> (r: KvMap<String>)
        ensures
            r@ == self@,
    {
        let n = self.entries.len();
        let mut entries: Vec<(String, String)> = Vec::new();
        let mut i: usize = 0;
        while i < n
            invariant
                i <= n,
                n == self.entries@.len(),
                entries@.len() == i,
                forall|j: int|
                    0 <= j < i ==> entries@[j].0@ == self@[j].0 && entries@[j].1@
                        == self@[j].1,
            decreases n - i,
        {
            let e = &self.entries[i];
            entries.push((e.0.clone(), e.1.clone()));
            i += 1;
        }
        let r = KvMap { entries };
        proof {
            assert forall|j: int| 0 <= j < n implies r@[j] == self@[j] by {
                assert(r@[j].0 == self@[j].0);
                assert(r@[j].1 == self@[j].1);
            }
            assert(r@ =~= self@);
        }
        r
    }
}

} // verus!
