//! A string-keyed map kept sorted by key, so that iterating its entries is
//! deterministic: the order depends on the contents alone, never on the order
//! in which the entries were inserted. Every index of the registry context is
//! one of these.

use vstd::prelude::*;

use crate::lex::{lex_lt, lemma_lex_asym, lemma_lex_total, lemma_lex_trans, str_cmp, NameOrder};

verus! {

/// The mathematical map described by parallel key and value columns, where a
/// later column entry overrides an earlier one with the same key.
pub open spec fn kv_map<T>(keys: Seq<Seq<char>>, vals: Seq<T>) -> Map<Seq<char>, T>
    decreases keys.len(),
{
    if keys.len() == 0 || vals.len() == 0 {
        Map::empty()
    } else {
        kv_map(keys.drop_last(), vals.drop_last()).insert(keys.last(), vals.last())
    }
}

/// A key is in the map exactly when it is in the key column.
pub proof fn lemma_kv_contains<T>(keys: Seq<Seq<char>>, vals: Seq<T>, k: Seq<char>)
    requires
        keys.len() == vals.len(),
    ensures
        kv_map(keys, vals).contains_key(k) <==> keys.contains(k),
    decreases keys.len(),
{
    if keys.len() > 0 {
        lemma_kv_contains(keys.drop_last(), vals.drop_last(), k);
        if keys.contains(k) {
            let j = choose|j: int| 0 <= j < keys.len() && keys[j] == k;
            if j < keys.len() - 1 {
                assert(keys.drop_last()[j] == k);
                assert(keys.drop_last().contains(k));
            }
        }
        if keys.drop_last().contains(k) {
            let j = choose|j: int|
                0 <= j < keys.drop_last().len() && keys.drop_last()[j] == k;
            assert(keys[j] == k);
        }
    }
}

/// A key that occurs nowhere later in the column maps to its column value.
pub proof fn lemma_kv_index<T>(keys: Seq<Seq<char>>, vals: Seq<T>, i: int)
    requires
        keys.len() == vals.len(),
        0 <= i < keys.len(),
        forall|j: int| i < j < keys.len() ==> keys[j] != keys[i],
    ensures
        kv_map(keys, vals)[keys[i]] == vals[i],
    decreases keys.len(),
{
    if i < keys.len() - 1 {
        assert(keys.drop_last()[i] == keys[i]);
        assert(forall|j: int|
            i < j < keys.drop_last().len() ==> keys.drop_last()[j] == keys[j]);
        lemma_kv_index(keys.drop_last(), vals.drop_last(), i);
    }
}

/// Inserting a fresh key and value at any column position inserts the pair
/// into the map.
pub proof fn lemma_kv_insert_mid<T>(keys: Seq<Seq<char>>, vals: Seq<T>, i: int, k: Seq<char>, v: T)
    requires
        keys.len() == vals.len(),
        0 <= i <= keys.len(),
        !keys.contains(k),
    ensures
        kv_map(keys.insert(i, k), vals.insert(i, v)) == kv_map(keys, vals).insert(k, v),
    decreases keys.len(),
{
    let nk = keys.insert(i, k);
    let nv = vals.insert(i, v);
    if i == keys.len() {
        assert(nk.drop_last() =~= keys);
        assert(nv.drop_last() =~= vals);
    } else {
        assert(nk.last() == keys.last());
        assert(nv.last() == vals.last());
        assert(nk.drop_last() =~= keys.drop_last().insert(i, k));
        assert(nv.drop_last() =~= vals.drop_last().insert(i, v));
        assert(!keys.drop_last().contains(k)) by {
            if keys.drop_last().contains(k) {
                let j = choose|j: int|
                    0 <= j < keys.drop_last().len() && keys.drop_last()[j] == k;
                assert(keys[j] == k);
            }
        }
        lemma_kv_insert_mid(keys.drop_last(), vals.drop_last(), i, k, v);
        assert(keys.contains(keys.last())) by {
            assert(keys[keys.len() - 1] == keys.last());
        }
        assert(k != keys.last());
        assert(kv_map(nk, nv) =~= kv_map(keys, vals).insert(k, v));
    }
}

/// Overwriting the value at a column position whose key occurs nowhere later
/// re-inserts that key with the new value.
pub proof fn lemma_kv_update<T>(keys: Seq<Seq<char>>, vals: Seq<T>, i: int, v: T)
    requires
        keys.len() == vals.len(),
        0 <= i < keys.len(),
        forall|j: int| i < j < keys.len() ==> keys[j] != keys[i],
    ensures
        kv_map(keys, vals.update(i, v)) == kv_map(keys, vals).insert(keys[i], v),
    decreases keys.len(),
{
    let nv = vals.update(i, v);
    if i == keys.len() - 1 {
        assert(nv.drop_last() =~= vals.drop_last());
        assert(nv.last() == v);
        assert(kv_map(keys, nv) =~= kv_map(keys, vals).insert(keys[i], v));
    } else {
        assert(nv.last() == vals.last());
        assert(nv.drop_last() =~= vals.drop_last().update(i, v));
        assert(keys.drop_last()[i] == keys[i]);
        assert(forall|j: int|
            i < j < keys.drop_last().len() ==> keys.drop_last()[j] == keys[j]);
        lemma_kv_update(keys.drop_last(), vals.drop_last(), i, v);
        assert(keys[i] != keys.last());
        assert(kv_map(keys, nv) =~= kv_map(keys, vals).insert(keys[i], v));
    }
}

/// An index from name to value whose entries stay sorted by name.
pub struct StrMap<V> {
    pub keys: Vec<String>,
    pub vals: Vec<V>,
}

impl<V: View> StrMap<V> {
    /// The key column, as character sequences, in iteration order.
    pub open spec fn key_seq(&self) -> Seq<Seq<char>> {
        Seq::new(self.keys@.len() as nat, |i: int| self.keys@[i]@)
    }

    /// The value column, as abstract values, in iteration order.
    pub open spec fn val_seq(&self) -> Seq<V::V> {
        Seq::new(self.vals@.len() as nat, |i: int| self.vals@[i]@)
    }

    /// Well-formed: the columns match up and the keys strictly increase.
    pub open spec fn wf(&self) -> bool {
        &&& self.keys@.len() == self.vals@.len()
        &&& forall|i: int, j: int|
            0 <= i < j < self.keys@.len() ==> lex_lt(
                #[trigger] self.key_seq()[i],
                #[trigger] self.key_seq()[j],
            )
    }

    /// Well-formed keys are pairwise distinct.
    pub proof fn lemma_keys_distinct(&self)
        requires
            self.wf(),
        ensures
            forall|i: int, j: int|
                0 <= i < j < self.key_seq().len() ==> #[trigger] self.key_seq()[i]
                    != #[trigger] self.key_seq()[j],
    {
        assert forall|i: int, j: int|
            0 <= i < j < self.key_seq().len() implies #[trigger] self.key_seq()[i]
            != #[trigger] self.key_seq()[j] by {
            lemma_lex_asym(self.key_seq()[i], self.key_seq()[j]);
        }
    }

    /// Each entry of a well-formed map is in its view, at its own key.
    pub proof fn lemma_entry_view(&self, i: int)
        requires
            self.wf(),
            0 <= i < self.keys@.len(),
        ensures
            self@.contains_key(self.key_seq()[i]),
            self@[self.key_seq()[i]] == self.val_seq()[i],
    {
        self.lemma_keys_distinct();
        lemma_kv_contains(self.key_seq(), self.val_seq(), self.key_seq()[i]);
        lemma_kv_index(self.key_seq(), self.val_seq(), i);
    }

    /// The view's domain is exactly the set of keys in the columns.
    pub proof fn lemma_dom(&self)
        requires
            self.wf(),
        ensures
            self@.dom() == self.key_seq().to_set(),
    {
        assert forall|k: Seq<char>|
            self@.dom().contains(k) <==> self.key_seq().to_set().contains(k) by {
            lemma_kv_contains(self.key_seq(), self.val_seq(), k);
        }
        assert(self@.dom() =~= self.key_seq().to_set());
    }

    /// An empty index.
    pub fn new() -> (r: Self)
        ensures
            r.wf(),
            r@ == Map::<Seq<char>, V::V>::empty(),
            r.key_seq() == Seq::<Seq<char>>::empty(),
    {
        let r = StrMap { keys: Vec::new(), vals: Vec::new() };
        proof {
            assert(r.key_seq() =~= Seq::<Seq<char>>::empty());
        }
        r
    }

    /// Number of entries.
    pub fn len(&self) -> (n: usize)
        requires
            self.wf(),
        ensures
            n == self.key_seq().len(),
    {
        self.keys.len()
    }

    /// The key of the entry at a position of the iteration order.
    pub fn key_at(&self, i: usize) -> (k: &String)
        requires
            self.wf(),
            i < self.key_seq().len(),
        ensures
            k@ == self.key_seq()[i as int],
    {
        &self.keys[i]
    }

    /// The value of the entry at a position of the iteration order.
    pub fn val_at(&self, i: usize) -> (v: &V)
        requires
            self.wf(),
            i < self.key_seq().len(),
        ensures
            v@ == self.val_seq()[i as int],
            self@.contains_key(self.key_seq()[i as int]),
            self@[self.key_seq()[i as int]] == v@,
    {
        proof {
            self.lemma_entry_view(i as int);
        }
        &self.vals[i]
    }

    /// The position of a name in the iteration order, if it is present.
    pub fn find(&self, k: &str) -> (r: Option<usize>)
        requires
            self.wf(),
        ensures
            match r {
                Some(i) => {
                    &&& i < self.key_seq().len()
                    &&& self.key_seq()[i as int] == k@
                    &&& self@.contains_key(k@)
                    &&& self@[k@] == self.val_seq()[i as int]
                },
                None => !self@.contains_key(k@),
            },
    {
        let n = self.keys.len();
        let mut i: usize = 0;
        while i < n
            invariant
                self.wf(),
                n == self.keys@.len(),
                i <= n,
                forall|j: int| 0 <= j < i ==> self.key_seq()[j] != k@,
            decreases n - i,
        {
            if matches!(str_cmp(self.keys[i].as_str(), k), NameOrder::Same) {
                proof {
                    self.lemma_entry_view(i as int);
                }
                return Some(i);
            }
            i += 1;
        }
        proof {
            lemma_kv_contains(self.key_seq(), self.val_seq(), k@);
            if self.key_seq().contains(k@) {
                let j = choose|j: int|
                    0 <= j < self.key_seq().len() && self.key_seq()[j] == k@;
                assert(false);
            }
        }
        None
    }

    /// Look a name up.
    pub fn get(&self, k: &str) -> (r: Option<&V>)
        requires
            self.wf(),
        ensures
            match r {
                Some(v) => self@.contains_key(k@) && self@[k@] == v@,
                None => !self@.contains_key(k@),
            },
    {
        match self.find(k) {
            Some(i) => Some(&self.vals[i]),
            None => None,
        }
    }

    /// Whether a name is present.
    pub fn contains(&self, k: &str) -> (r: bool)
        requires
            self.wf(),
        ensures
            r == self@.contains_key(k@),
    {
        self.find(k).is_some()
    }

    /// Replace the value at a position of the iteration order, keeping the key.
    pub fn update_at(&mut self, i: usize, v: V)
        requires
            old(self).wf(),
            i < old(self).key_seq().len(),
        ensures
            final(self).wf(),
            final(self)@ == old(self)@.insert(old(self).key_seq()[i as int], v@),
            final(self).key_seq() == old(self).key_seq(),
    {
        self.vals.remove(i);
        self.vals.insert(i, v);
        proof {
            assert(self.key_seq() =~= old(self).key_seq());
            assert(self.val_seq() =~= old(self).val_seq().update(i as int, v@));
            old(self).lemma_keys_distinct();
            lemma_kv_update(old(self).key_seq(), old(self).val_seq(), i as int, v@);
        }
    }

    /// The position before which a name would be inserted: the first entry
    /// not strictly below the name in the order.
    fn lower_bound(&self, k: &str) -> (r: usize)
        requires
            self.wf(),
        ensures
            r <= self.key_seq().len(),
            forall|j: int| 0 <= j < r ==> lex_lt(#[trigger] self.key_seq()[j], k@),
            r < self.key_seq().len() ==> !lex_lt(self.key_seq()[r as int], k@),
    {
        let n = self.keys.len();
        let mut i: usize = 0;
        while i < n
            invariant
                self.wf(),
                n == self.keys@.len(),
                i <= n,
                forall|j: int| 0 <= j < i ==> lex_lt(#[trigger] self.key_seq()[j], k@),
            decreases n - i,
        {
            match str_cmp(self.keys[i].as_str(), k) {
                NameOrder::Before => {
                    i += 1;
                }
                NameOrder::Same => {
                    return i;
                }
                NameOrder::After => {
                    proof {
                        lemma_lex_asym(k@, self.key_seq()[i as int]);
                    }
                    return i;
                }
            }
        }
        i
    }

    /// Insert a name with its value; a value already under that name is
    /// replaced, the last write winning.
    pub fn insert(&mut self, k: String, v: V)
        requires
            old(self).wf(),
        ensures
            final(self).wf(),
            final(self)@ == old(self)@.insert(k@, v@),
    {
        let n = self.keys.len();
        let i = self.lower_bound(k.as_str());
        if i < n {
            if matches!(str_cmp(self.keys[i].as_str(), k.as_str()), NameOrder::Same) {
                self.update_at(i, v);
                return ;
            }
        }
        proof {
            if i < n {
                assert(self.key_seq()[i as int] != k@);
                if !lex_lt(k@, self.key_seq()[i as int]) {
                    lemma_lex_total(k@, self.key_seq()[i as int]);
                }
                assert(lex_lt(k@, self.key_seq()[i as int]));
            }
            assert forall|j: int| i <= j < n implies lex_lt(k@, #[trigger] self.key_seq()[j]) by {
                if i < j {
                    lemma_lex_trans(k@, self.key_seq()[i as int], self.key_seq()[j]);
                }
            }
            assert(!self.key_seq().contains(k@)) by {
                if self.key_seq().contains(k@) {
                    let j = choose|j: int|
                        0 <= j < self.key_seq().len() && self.key_seq()[j] == k@;
                    if j < i {
                        lemma_lex_asym(self.key_seq()[j], k@);
                    } else {
                        lemma_lex_asym(k@, self.key_seq()[j]);
                    }
                }
            }
        }
        let ghost oks = self.key_seq();
        let ghost ovs = self.val_seq();
        self.keys.insert(i, k);
        self.vals.insert(i, v);
        proof {
            assert(self.key_seq() =~= oks.insert(i as int, k@));
            assert(self.val_seq() =~= ovs.insert(i as int, v@));
            lemma_kv_insert_mid(oks, ovs, i as int, k@, v@);
            assert forall|p: int, q: int|
                0 <= p < q < self.keys@.len() implies lex_lt(
                #[trigger] self.key_seq()[p],
                #[trigger] self.key_seq()[q],
            ) by {
                let ks = self.key_seq();
                if q < i {
                    assert(ks[p] == oks[p] && ks[q] == oks[q]);
                } else if p > i {
                    assert(ks[p] == oks[p - 1] && ks[q] == oks[q - 1]);
                } else if p < i && q == i {
                    assert(ks[p] == oks[p] && ks[q] == k@);
                } else if p < i && q > i {
                    assert(ks[p] == oks[p] && ks[q] == oks[q - 1]);
                } else if p == i && q > i {
                    assert(ks[p] == k@ && ks[q] == oks[q - 1]);
                }
            }
        }
    }
}

impl<V: View> View for StrMap<V> {
    type V = Map<Seq<char>, V::V>;

    open spec fn view(&self) -> Map<Seq<char>, V::V> {
        kv_map(self.key_seq(), self.val_seq())
    }
}

/// In a strictly sorted name sequence, dropping the last (greatest) name
/// removes exactly that name from the member set.
pub proof fn lemma_sorted_drop_last_set(x: Seq<Seq<char>>)
    requires
        x.len() > 0,
        forall|i: int, j: int| 0 <= i < j < x.len() ==> lex_lt(#[trigger] x[i], #[trigger] x[j]),
    ensures
        x.drop_last().to_set() == x.to_set().remove(x.last()),
{
    assert forall|e: Seq<char>|
        x.drop_last().to_set().contains(e) <==> x.to_set().remove(x.last()).contains(e) by {
        if x.drop_last().contains(e) {
            let m = choose|m: int| 0 <= m < x.drop_last().len() && x.drop_last()[m] == e;
            assert(x[m] == e);
            assert(x.contains(e));
            assert(lex_lt(x[m], x[x.len() - 1]));
            lemma_lex_asym(e, x.last());
        }
        if x.contains(e) && e != x.last() {
            let m = choose|m: int| 0 <= m < x.len() && x[m] == e;
            assert(m < x.len() - 1);
            assert(x.drop_last()[m] == e);
            assert(x.drop_last().contains(e));
        }
    }
    assert(x.drop_last().to_set() =~= x.to_set().remove(x.last()));
}

/// Two strictly sorted name sequences with the same members are the same
/// sequence: sorted iteration order is a function of the contents alone.
pub proof fn lemma_sorted_names_canonical(x: Seq<Seq<char>>, y: Seq<Seq<char>>)
    requires
        forall|i: int, j: int| 0 <= i < j < x.len() ==> lex_lt(#[trigger] x[i], #[trigger] x[j]),
        forall|i: int, j: int| 0 <= i < j < y.len() ==> lex_lt(#[trigger] y[i], #[trigger] y[j]),
        x.to_set() == y.to_set(),
    ensures
        x == y,
    decreases x.len(),
{
    if x.len() == 0 {
        if y.len() > 0 {
            assert(y[y.len() - 1] == y.last());
            assert(y.contains(y.last()));
            assert(x.to_set().contains(y.last()));
            assert(false);
        }
        assert(x =~= y);
    } else if y.len() == 0 {
        assert(x[x.len() - 1] == x.last());
        assert(x.contains(x.last()));
        assert(y.to_set().contains(x.last()));
        assert(false);
    } else {
        assert(x[x.len() - 1] == x.last());
        assert(x.contains(x.last()));
        assert(x.to_set().contains(x.last()));
        assert(y.to_set().contains(x.last()));
        assert(y.contains(x.last()));
        let j = choose|j: int| 0 <= j < y.len() && y[j] == x.last();
        assert(y[y.len() - 1] == y.last());
        assert(y.contains(y.last()));
        assert(y.to_set().contains(y.last()));
        assert(x.to_set().contains(y.last()));
        assert(x.contains(y.last()));
        let i = choose|i: int| 0 <= i < x.len() && x[i] == y.last();
        if j < y.len() - 1 && i < x.len() - 1 {
            assert(lex_lt(y[j], y[y.len() - 1]));
            assert(lex_lt(x[i], x[x.len() - 1]));
            lemma_lex_asym(x.last(), y.last());
            assert(false);
        }
        assert(x.last() == y.last());
        lemma_sorted_drop_last_set(x);
        lemma_sorted_drop_last_set(y);
        assert(forall|p: int| 0 <= p < x.drop_last().len() ==> x.drop_last()[p] == x[p]);
        assert(forall|p: int| 0 <= p < y.drop_last().len() ==> y.drop_last()[p] == y[p]);
        lemma_sorted_names_canonical(x.drop_last(), y.drop_last());
        assert(x =~= y);
    }
}

/// Two well-formed indices that hold the same entries present them in the
/// same iteration order, key for key and value for value, however they were
/// built.
pub proof fn lemma_iteration_deterministic<V: View>(a: &StrMap<V>, b: &StrMap<V>)
    requires
        a.wf(),
        b.wf(),
        a@ == b@,
    ensures
        a.key_seq() == b.key_seq(),
        a.val_seq() == b.val_seq(),
{
    a.lemma_dom();
    b.lemma_dom();
    lemma_sorted_names_canonical(a.key_seq(), b.key_seq());
    assert forall|i: int| 0 <= i < a.val_seq().len() implies a.val_seq()[i] == b.val_seq()[i] by {
        a.lemma_entry_view(i);
        b.lemma_entry_view(i);
    }
    assert(a.val_seq() =~= b.val_seq());
}

} // verus!
