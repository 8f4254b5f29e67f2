//! An ordered map keyed by text: entries kept sorted by key in code-point order, so
//! that walking it gives the order a `BTreeMap<String, _>` gives.

use vstd::prelude::*;
use crate::text::{
    chars_less, chars_of, lemma_chars_less_asymmetric, lemma_chars_less_irreflexive,
    lemma_chars_less_total, lemma_chars_less_transitive, less_chars, same_chars,
};

verus! {

/// Whether the keys of `s` strictly increase, so that no key occurs twice.
pub open spec fn keys_sorted<V>(s: Seq<(Seq<char>, V)>) -> bool {
    forall|i: int, j: int| 0 <= i < j < s.len() ==> chars_less(#[trigger] s[i].0, #[trigger] s[j].0)
}

/// The value that the first entry with key `k` holds.
pub open spec fn find<V>(s: Seq<(Seq<char>, V)>, k: Seq<char>) -> Option<V>
    decreases s.len(),
{
    if s.len() == 0 {
        None
    } else if s[0].0 == k {
        Some(s[0].1)
    } else {
        find(s.drop_first(), k)
    }
}

/// `s` with `k` bound to `v`: the entry for `k` replaced, or a new entry at the place that
/// keeps the keys sorted.
pub open spec fn insert_entry<V>(s: Seq<(Seq<char>, V)>, k: Seq<char>, v: V) -> Seq<
    (Seq<char>, V),
>
    decreases s.len(),
{
    if s.len() == 0 {
        seq![(k, v)]
    } else if s[0].0 == k {
        s.update(0, (k, v))
    } else if chars_less(k, s[0].0) {
        seq![(k, v)] + s
    } else {
        seq![s[0]] + insert_entry(s.drop_first(), k, v)
    }
}

/// `s` without its first entry for `k`.
pub open spec fn remove_entry<V>(s: Seq<(Seq<char>, V)>, k: Seq<char>) -> Seq<(Seq<char>, V)>
    decreases s.len(),
{
    if s.len() == 0 {
        s
    } else if s[0].0 == k {
        s.drop_first()
    } else {
        seq![s[0]] + remove_entry(s.drop_first(), k)
    }
}

/// The entries of `s` whose flag in `keep` is set, in order.
pub open spec fn keep_flagged<T>(s: Seq<T>, keep: Seq<bool>) -> Seq<T>
    decreases s.len(),
{
    if s.len() == 0 || keep.len() == 0 {
        Seq::empty()
    } else if keep[0] {
        seq![s[0]] + keep_flagged(s.drop_first(), keep.drop_first())
    } else {
        keep_flagged(s.drop_first(), keep.drop_first())
    }
}

/// The keys of `s`, in order.
pub open spec fn keys_of<V>(s: Seq<(Seq<char>, V)>) -> Seq<Seq<char>> {
    s.map_values(|e: (Seq<char>, V)| e.0)
}

/// The values of `s`, in order.
pub open spec fn values_of<V>(s: Seq<(Seq<char>, V)>) -> Seq<V> {
    s.map_values(|e: (Seq<char>, V)| e.1)
}

/// Entries sorted by key; a `find` that fails means no entry holds the key.
pub proof fn lemma_find_none<V>(s: Seq<(Seq<char>, V)>, k: Seq<char>)
    ensures
        find(s, k) is None <==> forall|i: int| 0 <= i < s.len() ==> (#[trigger] s[i]).0 != k,
        find(s, k) is Some ==> exists|i: int|
            0 <= i < s.len() && (#[trigger] s[i]).0 == k && find(s, k) == Some(s[i].1),
    decreases s.len(),
{
    if s.len() > 0 {
        lemma_find_none(s.drop_first(), k);
        if s[0].0 != k {
            if find(s, k) is Some {
                let j = choose|j: int|
                    0 <= j < s.drop_first().len() && (#[trigger] s.drop_first()[j]).0 == k && find(
                        s.drop_first(),
                        k,
                    ) == Some(s.drop_first()[j].1);
                assert(s[j + 1] == s.drop_first()[j]);
            }
            assert forall|i: int| 0 <= i < s.len() && (#[trigger] s[i]).0 == k implies find(
                s.drop_first(),
                k,
            ) is Some by {
                assert(s.drop_first()[i - 1] == s[i]);
            }
        } else {
            assert(s[0].0 == k);
        }
    }
}

/// In a map with sorted keys, `find` gives the value at the one index that holds the key.
pub proof fn lemma_find_at<V>(s: Seq<(Seq<char>, V)>, i: int)
    requires
        keys_sorted(s),
        0 <= i < s.len(),
    ensures
        find(s, s[i].0) == Some(s[i].1),
    decreases i,
{
    if i > 0 {
        assert(chars_less(s[0].0, s[i].0));
        lemma_chars_less_irreflexive(s[i].0);
        assert(s[0].0 != s[i].0);
        assert(keys_sorted(s.drop_first()));
        assert(s.drop_first()[i - 1] == s[i]);
        lemma_find_at(s.drop_first(), i - 1);
    }
}

/// A key that sorts before every key of a sorted map is not in it.
proof fn lemma_find_prefix<V>(s: Seq<(Seq<char>, V)>, k: Seq<char>, i: int)
    requires
        0 <= i <= s.len(),
        forall|j: int| 0 <= j < i ==> chars_less((#[trigger] s[j]).0, k),
    ensures
        find(s, k) == find(s.skip(i), k),
        insert_entry(s, k, arbitrary()) == insert_entry(s, k, arbitrary()),
    decreases i,
{
    if i > 0 {
        lemma_chars_less_irreflexive(k);
        assert(s[0].0 != k);
        assert forall|j: int| 0 <= j < i - 1 implies chars_less(
            (#[trigger] s.drop_first()[j]).0,
            k,
        ) by {
            assert(s.drop_first()[j] == s[j + 1]);
        }
        lemma_find_prefix(s.drop_first(), k, i - 1);
        assert(s.drop_first().skip(i - 1) =~= s.skip(i));
    } else {
        assert(s.skip(0) =~= s);
    }
}

/// Inserting past a prefix of smaller keys keeps the prefix.
proof fn lemma_insert_prefix<V>(s: Seq<(Seq<char>, V)>, k: Seq<char>, v: V, i: int)
    requires
        0 <= i <= s.len(),
        forall|j: int| 0 <= j < i ==> chars_less((#[trigger] s[j]).0, k),
    ensures
        insert_entry(s, k, v) == s.take(i) + insert_entry(s.skip(i), k, v),
    decreases i,
{
    if i > 0 {
        lemma_chars_less_irreflexive(k);
        lemma_chars_less_asymmetric(s[0].0, k);
        assert forall|j: int| 0 <= j < i - 1 implies chars_less(
            (#[trigger] s.drop_first()[j]).0,
            k,
        ) by {
            assert(s.drop_first()[j] == s[j + 1]);
        }
        lemma_insert_prefix(s.drop_first(), k, v, i - 1);
        assert(s.drop_first().skip(i - 1) =~= s.skip(i));
        assert(s.take(i) =~= seq![s[0]] + s.drop_first().take(i - 1));
    } else {
        assert(s.skip(0) =~= s);
        assert(s.take(0) =~= Seq::<(Seq<char>, V)>::empty());
    }
}

/// Removing past a prefix without the key keeps the prefix.
proof fn lemma_remove_prefix<V>(s: Seq<(Seq<char>, V)>, k: Seq<char>, i: int)
    requires
        0 <= i <= s.len(),
        forall|j: int| 0 <= j < i ==> (#[trigger] s[j]).0 != k,
    ensures
        remove_entry(s, k) == s.take(i) + remove_entry(s.skip(i), k),
    decreases i,
{
    if i > 0 {
        assert forall|j: int| 0 <= j < i - 1 implies (#[trigger] s.drop_first()[j]).0 != k by {
            assert(s.drop_first()[j] == s[j + 1]);
        }
        lemma_remove_prefix(s.drop_first(), k, i - 1);
        assert(s.drop_first().skip(i - 1) =~= s.skip(i));
        assert(s.take(i) =~= seq![s[0]] + s.drop_first().take(i - 1));
    } else {
        assert(s.skip(0) =~= s);
        assert(s.take(0) =~= Seq::<(Seq<char>, V)>::empty());
    }
}

/// Every key of `insert_entry(s, k, v)` is `k` or a key of `s`.
pub proof fn lemma_insert_keys<V>(s: Seq<(Seq<char>, V)>, k: Seq<char>, v: V)
    ensures
        forall|j: int|
            0 <= j < insert_entry(s, k, v).len() ==> (#[trigger] insert_entry(s, k, v)[j]).0 == k
                || exists|m: int| 0 <= m < s.len() && (#[trigger] s[m]).0 == insert_entry(
                s,
                k,
                v,
            )[j].0,
        insert_entry(s, k, v).len() >= 1,
        s.len() > 0 && !chars_less(k, s[0].0) ==> insert_entry(s, k, v)[0].0 == s[0].0,
        s.len() > 0 && chars_less(k, s[0].0) ==> insert_entry(s, k, v)[0].0 == k,
        s.len() == 0 ==> insert_entry(s, k, v)[0].0 == k,
    decreases s.len(),
{
    if s.len() > 0 && s[0].0 != k && !chars_less(k, s[0].0) {
        lemma_insert_keys(s.drop_first(), k, v);
        let r = insert_entry(s, k, v);
        let t = insert_entry(s.drop_first(), k, v);
        assert forall|j: int| 0 <= j < r.len() implies (#[trigger] r[j]).0 == k || exists|m: int|
            0 <= m < s.len() && (#[trigger] s[m]).0 == r[j].0 by {
            if j == 0 {
                assert(s[0].0 == r[0].0);
            } else {
                assert(r[j] == t[j - 1]);
                if t[j - 1].0 != k {
                    let m = choose|m: int|
                        0 <= m < s.drop_first().len() && (#[trigger] s.drop_first()[m]).0 == t[j
                            - 1].0;
                    assert(s[m + 1] == s.drop_first()[m]);
                }
            }
        }
    } else if s.len() > 0 && chars_less(k, s[0].0) && s[0].0 != k {
        let r = insert_entry(s, k, v);
        assert forall|j: int| 0 <= j < r.len() implies (#[trigger] r[j]).0 == k || exists|m: int|
            0 <= m < s.len() && (#[trigger] s[m]).0 == r[j].0 by {
            if j > 0 {
                assert(r[j] == s[j - 1]);
            }
        }
    } else if s.len() > 0 {
        let r = insert_entry(s, k, v);
        assert forall|j: int| 0 <= j < r.len() implies (#[trigger] r[j]).0 == k || exists|m: int|
            0 <= m < s.len() && (#[trigger] s[m]).0 == r[j].0 by {
            if j > 0 {
                assert(r[j] == s[j]);
            }
        }
    }
}

/// Inserting into a sorted map keeps its keys sorted.
pub proof fn lemma_insert_sorted<V>(s: Seq<(Seq<char>, V)>, k: Seq<char>, v: V)
    requires
        keys_sorted(s),
    ensures
        keys_sorted(insert_entry(s, k, v)),
    decreases s.len(),
{
    if s.len() == 0 {
    } else if s[0].0 == k {
        let r = insert_entry(s, k, v);
        assert forall|i: int, j: int| 0 <= i < j < r.len() implies chars_less(
            #[trigger] r[i].0,
            #[trigger] r[j].0,
        ) by {
            assert(r[i].0 == s[i].0);
            assert(r[j].0 == s[j].0);
        }
    } else if chars_less(k, s[0].0) {
        let r = insert_entry(s, k, v);
        assert forall|i: int, j: int| 0 <= i < j < r.len() implies chars_less(
            #[trigger] r[i].0,
            #[trigger] r[j].0,
        ) by {
            assert(r[j] == s[j - 1]);
            if i == 0 {
                if j > 1 {
                    lemma_chars_less_transitive(k, s[0].0, s[j - 1].0);
                }
            } else {
                assert(r[i] == s[i - 1]);
            }
        }
    } else {
        lemma_chars_less_total(k, s[0].0);
        assert(chars_less(s[0].0, k));
        assert(keys_sorted(s.drop_first()));
        lemma_insert_sorted(s.drop_first(), k, v);
        lemma_insert_keys(s.drop_first(), k, v);
        let r = insert_entry(s, k, v);
        let t = insert_entry(s.drop_first(), k, v);
        assert forall|i: int, j: int| 0 <= i < j < r.len() implies chars_less(
            #[trigger] r[i].0,
            #[trigger] r[j].0,
        ) by {
            assert(r[j] == t[j - 1]);
            if i == 0 {
                assert(r[0] == s[0]);
                if t[j - 1].0 == k {
                } else {
                    let m = choose|m: int|
                        0 <= m < s.drop_first().len() && (#[trigger] s.drop_first()[m]).0 == t[j
                            - 1].0;
                    assert(s.drop_first()[m] == s[m + 1]);
                }
            } else {
                assert(r[i] == t[i - 1]);
            }
        }
    }
}

/// Removing a key that is absent changes nothing.
pub proof fn lemma_remove_absent<V>(s: Seq<(Seq<char>, V)>, k: Seq<char>)
    requires
        find(s, k) is None,
    ensures
        remove_entry(s, k) == s,
    decreases s.len(),
{
    if s.len() > 0 {
        lemma_remove_absent(s.drop_first(), k);
        assert(s =~= seq![s[0]] + s.drop_first());
    }
}

/// After removing a key from a sorted map, the key is absent and the other bindings stay.
pub proof fn lemma_remove_sorted<V>(s: Seq<(Seq<char>, V)>, k: Seq<char>)
    requires
        keys_sorted(s),
    ensures
        find(remove_entry(s, k), k) is None,
        keys_sorted(remove_entry(s, k)),
        forall|k2: Seq<char>| k2 != k ==> #[trigger] find(remove_entry(s, k), k2) == find(s, k2),
    decreases s.len(),
{
    if s.len() > 0 {
        assert(keys_sorted(s.drop_first()));
        lemma_remove_sorted(s.drop_first(), k);
        if s[0].0 == k {
            assert forall|i: int| 0 <= i < s.drop_first().len() implies (
            #[trigger] s.drop_first()[i]).0 != k by {
                assert(s.drop_first()[i] == s[i + 1]);
                assert(chars_less(s[0].0, s[i + 1].0));
                lemma_chars_less_irreflexive(k);
            }
            lemma_find_none(s.drop_first(), k);
            assert forall|k2: Seq<char>| k2 != k implies #[trigger] find(remove_entry(s, k), k2)
                == find(s, k2) by {
                assert(remove_entry(s, k) == s.drop_first());
            }
        } else {
            let r = remove_entry(s, k);
            let t = remove_entry(s.drop_first(), k);
            assert(r.drop_first() =~= t);
            assert(r[0] == s[0]);
            assert forall|k2: Seq<char>| k2 != k implies #[trigger] find(remove_entry(s, k), k2)
                == find(s, k2) by {
                assert(find(t, k2) == find(s.drop_first(), k2));
            }
            lemma_remove_subseq(s.drop_first(), k);
            assert forall|i: int, j: int| 0 <= i < j < r.len() implies chars_less(
                #[trigger] r[i].0,
                #[trigger] r[j].0,
            ) by {
                assert(r[j] == t[j - 1]);
                if i == 0 {
                    let m = choose|m: int| 0 <= m < s.drop_first().len() && #[trigger] s.drop_first()[m] == t[j - 1];
                    assert(s.drop_first()[m] == s[m + 1]);
                } else {
                    assert(r[i] == t[i - 1]);
                }
            }
        }
    }
}

/// Every entry left by a removal was in the map.
proof fn lemma_remove_subseq<V>(s: Seq<(Seq<char>, V)>, k: Seq<char>)
    ensures
        forall|j: int|
            0 <= j < remove_entry(s, k).len() ==> exists|m: int|
                0 <= m < s.len() && #[trigger] s[m] == #[trigger] remove_entry(s, k)[j],
    decreases s.len(),
{
    if s.len() > 0 {
        lemma_remove_subseq(s.drop_first(), k);
        let r = remove_entry(s, k);
        let t = remove_entry(s.drop_first(), k);
        assert forall|j: int| 0 <= j < r.len() implies exists|m: int|
            0 <= m < s.len() && #[trigger] s[m] == #[trigger] r[j] by {
            if s[0].0 == k {
                assert(r[j] == s[j + 1]);
            } else if j == 0 {
                assert(r[0] == s[0]);
            } else {
                assert(r[j] == t[j - 1]);
                let m = choose|m: int| 0 <= m < s.drop_first().len() && #[trigger] s.drop_first()[m] == t[j - 1];
                assert(s.drop_first()[m] == s[m + 1]);
            }
        }
    }
}

/// After binding `k` to `v`, `k` finds `v` and other keys find what they did.
pub proof fn lemma_insert_find<V>(s: Seq<(Seq<char>, V)>, k: Seq<char>, v: V)
    ensures
        find(insert_entry(s, k, v), k) == Some(v),
        forall|k2: Seq<char>| k2 != k ==> #[trigger] find(insert_entry(s, k, v), k2) == find(s, k2),
    decreases s.len(),
{
    if s.len() > 0 {
        lemma_insert_find(s.drop_first(), k, v);
        let r = insert_entry(s, k, v);
        if s[0].0 == k {
            assert(r.drop_first() =~= s.drop_first());
        } else if chars_less(k, s[0].0) {
            assert(r.drop_first() =~= s);
        } else {
            assert(r.drop_first() =~= insert_entry(s.drop_first(), k, v));
            assert(r[0] == s[0]);
        }
        assert forall|k2: Seq<char>| k2 != k implies #[trigger] find(insert_entry(s, k, v), k2)
            == find(s, k2) by {
            if s[0].0 == k {
                assert(r.drop_first() =~= s.drop_first());
            } else if chars_less(k, s[0].0) {
                assert(r.drop_first() =~= s);
            } else {
                assert(find(insert_entry(s.drop_first(), k, v), k2) == find(s.drop_first(), k2));
            }
        }
    } else {
        let r = insert_entry(s, k, v);
        assert(r.drop_first() =~= Seq::<(Seq<char>, V)>::empty());
        assert forall|k2: Seq<char>| k2 != k implies #[trigger] find(insert_entry(s, k, v), k2)
            == find(s, k2) by {
            assert(find(r.drop_first(), k2) is None);
        }
    }
}

/// A flagged selection of a sorted map is sorted.
pub proof fn lemma_keep_flagged_sorted<V>(s: Seq<(Seq<char>, V)>, keep: Seq<bool>)
    requires
        keys_sorted(s),
    ensures
        keys_sorted(keep_flagged(s, keep)),
        forall|j: int|
            0 <= j < keep_flagged(s, keep).len() ==> exists|m: int|
                0 <= m < s.len() && #[trigger] s[m] == #[trigger] keep_flagged(s, keep)[j],
    decreases s.len(),
{
    if s.len() > 0 && keep.len() > 0 {
        assert(keys_sorted(s.drop_first()));
        lemma_keep_flagged_sorted(s.drop_first(), keep.drop_first());
        let t = keep_flagged(s.drop_first(), keep.drop_first());
        let r = keep_flagged(s, keep);
        assert forall|j: int| 0 <= j < t.len() implies exists|m: int|
            0 <= m < s.len() && #[trigger] s[m] == #[trigger] t[j] by {
            let m = choose|m: int| 0 <= m < s.drop_first().len() && #[trigger] s.drop_first()[m] == t[j];
            assert(s[m + 1] == s.drop_first()[m]);
        }
        if keep[0] {
            assert forall|i: int, j: int| 0 <= i < j < r.len() implies chars_less(
                #[trigger] r[i].0,
                #[trigger] r[j].0,
            ) by {
                assert(r[j] == t[j - 1]);
                if i == 0 {
                    let m = choose|m: int| 0 <= m < s.len() && #[trigger] s[m] == t[j - 1];
                    assert(m != 0) by {
                        let m2 = choose|m2: int|
                            0 <= m2 < s.drop_first().len() && #[trigger] s.drop_first()[m2] == t[j - 1];
                        assert(s[m2 + 1] == t[j - 1]);
                        lemma_chars_less_irreflexive(s[0].0);
                        assert(chars_less(s[0].0, s[m2 + 1].0));
                    }
                } else {
                    assert(r[i] == t[i - 1]);
                }
            }
            assert forall|j: int| 0 <= j < r.len() implies exists|m: int|
                0 <= m < s.len() && #[trigger] s[m] == #[trigger] r[j] by {
                if j == 0 {
                    assert(s[0] == r[0]);
                } else {
                    assert(r[j] == t[j - 1]);
                }
            }
        }
    }
}

/// An ordered map from text keys to values.
pub struct TextMap<V> {
    entries: Vec<(String, V)>,
}

impl<V> View for TextMap<V> {
    type V = Seq<(Seq<char>, V)>;

    closed spec fn view(&self) -> Seq<(Seq<char>, V)> {
        self.entries@.map_values(|e: (String, V)| (e.0@, e.1))
    }
}

impl<V> TextMap<V> {
    /// Well-formed: keys sorted, hence distinct.
    pub open spec fn wf(&self) -> bool {
        keys_sorted(self@)
    }

    /// Whether `k` is a key.
    pub open spec fn has(&self, k: Seq<char>) -> bool {
        find(self@, k) is Some
    }

    /// The empty map.
    pub fn new() -> (m: Self)
        ensures
            m@ == Seq::<(Seq<char>, V)>::empty(),
            m.wf(),
    {
        let m = TextMap { entries: Vec::new() };
        assert(m@ =~= Seq::<(Seq<char>, V)>::empty());
        m
    }

    /// The number of entries.
    pub fn len(&self) -> (n: usize)
        ensures
            n == self@.len(),
    {
        self.entries.len()
    }

    /// The key of entry `i`.
    pub fn key_at(&self, i: usize) -> (k: &String)
        requires
            i < self@.len(),
        ensures
            k@ == self@[i as int].0,
    {
        &self.entries[i].0
    }

    /// The value of entry `i`.
    pub fn value_at(&self, i: usize) -> (v: &V)
        requires
            i < self@.len(),
        ensures
            *v == self@[i as int].1,
    {
        &self.entries[i].1
    }

    /// Replaces the value of entry `i`.
    pub fn set_value_at(&mut self, i: usize, v: V)
        requires
            i < old(self)@.len(),
        ensures
            final(self)@ == old(self)@.update(i as int, (old(self)@[i as int].0, v)),
    {
        let ghost before = self@;
        let k = {
            let e = self.entries.remove(i);
            e.0
        };
        self.entries.insert(i, (k, v));
        assert(self@ =~= before.update(i as int, (before[i as int].0, v)));
    }

    /// The index of the entry for `k`, if any.
    pub fn index_of(&self, k: &str) -> (r: Option<usize>)
        requires
            self.wf(),
        ensures
            match r {
                Some(i) => i < self@.len() && self@[i as int].0 == k@,
                None => find(self@, k@) is None,
            },
    {
        let kv = chars_of(k);
        let mut i: usize = 0;
        while i < self.entries.len()
            invariant
                i <= self@.len(),
                self@.len() == self.entries@.len(),
                forall|j: int| 0 <= j < i ==> (#[trigger] self@[j]).0 != k@,
                kv@ == k@,
            decreases self@.len() - i,
        {
            let ev = chars_of(self.entries[i].0.as_str());
            if same_chars(&ev, &kv) {
                return Some(i);
            }
            i = i + 1;
        }
        proof {
            lemma_find_none(self@, k@);
        }
        None
    }

    /// The value bound to `k`.
    pub fn get(&self, k: &str) -> (r: Option<&V>)
        requires
            self.wf(),
        ensures
            match r {
                Some(v) => find(self@, k@) == Some(*v),
                None => find(self@, k@) is None,
            },
    {
        match self.index_of(k) {
            Some(i) => {
                proof {
                    lemma_find_at(self@, i as int);
                }
                Some(&self.entries[i].1)
            },
            None => None,
        }
    }

    /// Whether `k` is a key.
    pub fn contains_key(&self, k: &str) -> (r: bool)
        requires
            self.wf(),
        ensures
            r == self.has(k@),
    {
        match self.get(k) {
            Some(_) => true,
            None => false,
        }
    }

    fn key_less_at(&self, i: usize, kv: &Vec<char>) -> (r: bool)
        requires
            i < self@.len(),
        ensures
            r == chars_less(self@[i as int].0, kv@),
    {
        let ev = chars_of(self.entries[i].0.as_str());
        less_chars(&ev, kv)
    }

    /// Binds `k` to `v`, replacing an earlier binding.
    pub fn insert(&mut self, k: String, v: V)
        requires
            old(self).wf(),
        ensures
            final(self)@ == insert_entry(old(self)@, k@, v),
            final(self).wf(),
    {
        let ghost before = self@;
        let kv = chars_of(k.as_str());
        let mut i: usize = 0;
        while i < self.entries.len() && self.key_less_at(i, &kv)
            invariant
                i <= before.len(),
                self@ == before,
                self@.len() == self.entries@.len(),
                forall|j: int| 0 <= j < i ==> chars_less((#[trigger] before[j]).0, k@),
                kv@ == k@,
            decreases before.len() - i,
        {
            i = i + 1;
        }
        proof {
            lemma_insert_prefix(before, k@, v, i as int);
            lemma_insert_sorted(before, k@, v);
        }
        let ghost rest = before.skip(i as int);
        if i < self.entries.len() {
            let ev = chars_of(self.entries[i].0.as_str());
            if same_chars(&ev, &kv) {
                self.entries.remove(i);
                self.entries.insert(i, (k, v));
                assert(rest[0] == before[i as int]);
                assert(insert_entry(rest, kv@, v) == rest.update(0, (kv@, v)));
                assert(self@ =~= before.take(i as int) + rest.update(0, (kv@, v)));
            } else {
                proof { lemma_chars_less_total(ev@, kv@); }
                self.entries.insert(i, (k, v));
                assert(rest[0] == before[i as int]);
                assert(insert_entry(rest, kv@, v) == seq![(kv@, v)] + rest);
                assert(self@ =~= before.take(i as int) + (seq![(kv@, v)] + rest));
            }
        } else {
            self.entries.push((k, v));
            assert(rest =~= Seq::<(Seq<char>, V)>::empty());
            assert(self@ =~= before.take(i as int) + seq![(kv@, v)]);
        }
    }

    /// Removes the binding of `k`, returning its value.
    pub fn remove(&mut self, k: &str) -> (r: Option<V>)
        requires
            old(self).wf(),
        ensures
            final(self)@ == remove_entry(old(self)@, k@),
            r == find(old(self)@, k@),
            final(self).wf(),
    {
        let ghost before = self@;
        match self.index_of(k) {
            Some(i) => {
                proof {
                    assert forall|j: int| 0 <= j < i implies (#[trigger] before[j]).0 != k@ by {
                        assert(chars_less(before[j].0, before[i as int].0));
                        lemma_chars_less_irreflexive(k@);
                    }
                    lemma_remove_prefix(before, k@, i as int);
                    lemma_find_at(before, i as int);
                    let keep = Seq::new(before.len(), |j: int| j != i);
                    lemma_keep_flagged_sorted(before, keep);
                    lemma_keep_flagged_all_but(before, i as int);
                }
                let e = self.entries.remove(i);
                let ghost rest = before.skip(i as int);
                assert(rest[0].0 == k@);
                assert(remove_entry(rest, k@) == rest.drop_first());
                assert(self@ =~= before.take(i as int) + rest.drop_first());
                Some(e.1)
            },
            None => {
                proof {
                    lemma_find_none(before, k@);
                    lemma_remove_prefix(before, k@, before.len() as int);
                    assert(before.take(before.len() as int) =~= before);
                    assert(before.skip(before.len() as int) =~= Seq::<(Seq<char>, V)>::empty());
                    assert(remove_entry(before, k@) =~= before);
                }
                None
            },
        }
    }

    /// Keeps the entries whose flag in `keep` is set, in order.
    pub fn retain_flagged(&mut self, keep: &Vec<bool>)
        requires
            old(self).wf(),
            keep@.len() == old(self)@.len(),
        ensures
            final(self)@ == keep_flagged(old(self)@, keep@),
            final(self).wf(),
    {
        let ghost before = self@;
        let mut rest: Vec<(String, V)> = Vec::new();
        std::mem::swap(&mut rest, &mut self.entries);
        assert(self@ =~= Seq::<(Seq<char>, V)>::empty());
        assert(keep_flagged(before.take(0), keep@.take(0)) =~= Seq::<(Seq<char>, V)>::empty());
        let mut i: usize = 0;
        let n = keep.len();
        while i < n
            invariant
                i <= n,
                n == keep@.len(),
                n == before.len(),
                rest@.len() == n - i,
                forall|j: int|
                    0 <= j < n - i ==> (#[trigger] rest@[j]).0@ == before[i + j].0
                        && rest@[j].1 == before[i + j].1,
                self@ == keep_flagged(before.take(i as int), keep@.take(i as int)),
            decreases n - i,
        {
            let e = rest.remove(0);
            proof {
                lemma_keep_flagged_snoc(before, keep@, i as int);
            }
            if keep[i] {
                self.entries.push(e);
            }
            proof {
                assert(self@ =~= keep_flagged(before.take(i + 1), keep@.take(i + 1)));
            }
            i = i + 1;
        }
        proof {
            assert(before.take(n as int) =~= before);
            assert(keep@.take(n as int) =~= keep@);
            lemma_keep_flagged_sorted(before, keep@);
        }
    }
}

/// Selecting one more flagged entry appends it (or nothing).
pub proof fn lemma_keep_flagged_snoc<T>(s: Seq<T>, keep: Seq<bool>, i: int)
    requires
        0 <= i < s.len(),
        i < keep.len(),
    ensures
        keep_flagged(s.take(i + 1), keep.take(i + 1)) == if keep[i] {
            keep_flagged(s.take(i), keep.take(i)).push(s[i])
        } else {
            keep_flagged(s.take(i), keep.take(i))
        },
    decreases i,
{
    if i == 0 {
        assert(s.take(1).drop_first() =~= Seq::<T>::empty());
        assert(keep.take(1).drop_first() =~= Seq::<bool>::empty());
        assert(keep_flagged(s.take(0), keep.take(0)) =~= Seq::<T>::empty());
        assert(s.take(1)[0] == s[0]);
        assert(keep.take(1)[0] == keep[0]);
        assert(keep_flagged(s.take(1).drop_first(), keep.take(1).drop_first()) =~= Seq::<
            T,
        >::empty());
        if keep[0] {
            assert(keep_flagged(s.take(1), keep.take(1)) =~= seq![s[0]]);
        } else {
            assert(keep_flagged(s.take(1), keep.take(1)) =~= Seq::<T>::empty());
        }
        assert(keep_flagged(s.take(0), keep.take(0)).push(s[0]) =~= seq![s[0]]);
    } else {
        lemma_keep_flagged_snoc(s.drop_first(), keep.drop_first(), i - 1);
        assert(s.take(i + 1).drop_first() =~= s.drop_first().take(i));
        assert(keep.take(i + 1).drop_first() =~= keep.drop_first().take(i));
        assert(s.take(i).drop_first() =~= s.drop_first().take(i - 1));
        assert(keep.take(i).drop_first() =~= keep.drop_first().take(i - 1));
        assert(s.drop_first()[i - 1] == s[i]);
        assert(keep.drop_first()[i - 1] == keep[i]);
        if keep[0] {
            assert(keep_flagged(s.take(i + 1), keep.take(i + 1)) =~= seq![s[0]] + keep_flagged(
                s.drop_first().take(i),
                keep.drop_first().take(i),
            ));
            assert(keep_flagged(s.take(i), keep.take(i)) =~= seq![s[0]] + keep_flagged(
                s.drop_first().take(i - 1),
                keep.drop_first().take(i - 1),
            ));
        }
    }
}

/// A selection is no longer than what it selects from.
pub proof fn lemma_keep_flagged_len<T>(s: Seq<T>, keep: Seq<bool>)
    ensures
        keep_flagged(s, keep).len() <= s.len(),
    decreases s.len(),
{
    if s.len() > 0 && keep.len() > 0 {
        lemma_keep_flagged_len(s.drop_first(), keep.drop_first());
    }
}

/// Dropping exactly entry `i` leaves the prefix and the suffix after it.
pub proof fn lemma_keep_flagged_all_but<T>(s: Seq<T>, i: int)
    requires
        0 <= i < s.len(),
    ensures
        keep_flagged(s, Seq::new(s.len(), |j: int| j != i)) == s.take(i) + s.skip(i + 1),
    decreases s.len(),
{
    let keep = Seq::new(s.len(), |j: int| j != i);
    if i == 0 {
        lemma_keep_flagged_all(s.drop_first(), keep.drop_first());
        assert(s.skip(1) =~= s.drop_first());
        assert(s.take(0) + s.skip(1) =~= s.drop_first());
    } else {
        lemma_keep_flagged_all_but(s.drop_first(), i - 1);
        assert(keep.drop_first() =~= Seq::new(s.drop_first().len(), |j: int| j != i - 1));
        assert(s.take(i) =~= seq![s[0]] + s.drop_first().take(i - 1));
        assert(s.drop_first().skip(i) =~= s.skip(i + 1));
    }
}

/// Keeping every entry keeps the sequence.
pub proof fn lemma_keep_flagged_all<T>(s: Seq<T>, keep: Seq<bool>)
    requires
        keep.len() == s.len(),
        forall|j: int| 0 <= j < keep.len() ==> #[trigger] keep[j],
    ensures
        keep_flagged(s, keep) == s,
    decreases s.len(),
{
    if s.len() > 0 {
        lemma_keep_flagged_all(s.drop_first(), keep.drop_first());
        assert(keep[0]);
        assert(s =~= seq![s[0]] + s.drop_first());
    } else {
        assert(s =~= Seq::<T>::empty());
    }
}


/// Entries with the same keys as sorted entries are sorted.
pub proof fn lemma_same_keys_sorted<V, W>(a: Seq<(Seq<char>, V)>, b: Seq<(Seq<char>, W)>)
    requires
        keys_sorted(a),
        keys_of(a) == keys_of(b),
    ensures
        keys_sorted(b),
{
    assert forall|i: int, j: int| 0 <= i < j < b.len() implies chars_less(#[trigger] b[i].0, #[trigger] b[j].0) by {
        assert(keys_of(a).len() == a.len());
        assert(keys_of(b).len() == b.len());
        assert(keys_of(a)[i] == a[i].0);
        assert(keys_of(b)[i] == b[i].0);
        assert(keys_of(a)[j] == a[j].0);
        assert(keys_of(b)[j] == b[j].0);
        assert(chars_less(a[i].0, a[j].0));
    }
}


/// The entries of `s` with `f` applied to each value.
pub open spec fn map_entries<V, W>(s: Seq<(Seq<char>, V)>, f: spec_fn(V) -> W) -> Seq<(Seq<char>, W)> {
    s.map_values(|e: (Seq<char>, V)| (e.0, f(e.1)))
}

/// Mapping the values commutes with binding a key.
pub proof fn lemma_map_insert<V, W>(s: Seq<(Seq<char>, V)>, k: Seq<char>, v: V, f: spec_fn(V) -> W)
    ensures
        map_entries(insert_entry(s, k, v), f) == insert_entry(map_entries(s, f), k, f(v)),
    decreases s.len(),
{
    let ms = map_entries(s, f);
    if s.len() == 0 {
        assert(map_entries(seq![(k, v)], f) =~= seq![(k, f(v))]);
    } else {
        assert(ms[0] == (s[0].0, f(s[0].1)));
        if s[0].0 == k {
            assert(map_entries(s.update(0, (k, v)), f) =~= ms.update(0, (k, f(v))));
        } else if chars_less(k, s[0].0) {
            assert(map_entries(seq![(k, v)] + s, f) =~= seq![(k, f(v))] + ms);
        } else {
            lemma_map_insert(s.drop_first(), k, v, f);
            assert(map_entries(s.drop_first(), f) =~= ms.drop_first());
            assert(map_entries(seq![s[0]] + insert_entry(s.drop_first(), k, v), f) =~= seq![ms[0]]
                + map_entries(insert_entry(s.drop_first(), k, v), f));
        }
    }
}

} // verus!
