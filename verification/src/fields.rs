//! Maps from texts to values, in the order of their keys.
use crate::order::{text_at_most, text_le, text_le_antisymmetric, text_le_total, text_le_transitive};
use crate::text::same;
use vstd::prelude::*;

verus! {

/// `k` with `v` put into a list in the order of its keys, in place of what `k` had.
pub open spec fn put<V>(s: Seq<(Seq<char>, V)>, k: Seq<char>, v: V) -> Seq<(Seq<char>, V)>
    decreases s.len(),
{
    if s.len() == 0 {
        seq![(k, v)]
    } else if s.last().0 == k {
        s.drop_last().push((k, v))
    } else if text_le(s.last().0, k) {
        s.push((k, v))
    } else {
        put(s.drop_last(), k, v).push(s.last())
    }
}

/// The pairs put into a list one after the other.
pub open spec fn put_all<V>(pairs: Seq<(Seq<char>, V)>) -> Seq<(Seq<char>, V)>
    decreases pairs.len(),
{
    if pairs.len() == 0 {
        seq![]
    } else {
        put(put_all(pairs.drop_last()), pairs.last().0, pairs.last().1)
    }
}

/// What the list has for `k`.
pub open spec fn look_up<V>(s: Seq<(Seq<char>, V)>, k: Seq<char>) -> Option<V>
    decreases s.len(),
{
    if s.len() == 0 {
        None
    } else if s.last().0 == k {
        Some(s.last().1)
    } else {
        look_up(s.drop_last(), k)
    }
}

/// Each key comes before those behind it.
pub open spec fn keys_ascend<V>(s: Seq<(Seq<char>, V)>) -> bool {
    forall|i: int, j: int|
        0 <= i < j < s.len() ==> (#[trigger] s[i]).0 != (#[trigger] s[j]).0 && text_le(s[i].0, s[j].0)
}

proof fn put_stays_below<V>(s: Seq<(Seq<char>, V)>, k: Seq<char>, v: V, top: Seq<char>)
    requires
        forall|i: int| 0 <= i < s.len() ==> (#[trigger] s[i]).0 != top && text_le(s[i].0, top),
        k != top,
        text_le(k, top),
    ensures
        forall|i: int|
            0 <= i < put(s, k, v).len() ==> (#[trigger] put(s, k, v)[i]).0 != top && text_le(put(s, k, v)[i].0, top),
    decreases s.len(),
{
    if s.len() > 0 {
        assert(s.last() == s[s.len() - 1]);
        let init = s.drop_last();
        assert forall|i: int| 0 <= i < init.len() implies (#[trigger] init[i]).0 != top && text_le(init[i].0, top) by {
            assert(init[i] == s[i]);
        }
        put_stays_below(init, k, v, top);
        let out = put(s, k, v);
        assert forall|i: int| 0 <= i < out.len() implies (#[trigger] out[i]).0 != top && text_le(out[i].0, top) by {
            if s.last().0 == k {
                if i < init.len() {
                    assert(out[i] == init[i]);
                }
            } else if text_le(s.last().0, k) {
                if i < s.len() {
                    assert(out[i] == s[i]);
                }
            } else {
                if i < out.len() - 1 {
                    assert(out[i] == put(init, k, v)[i]);
                }
            }
        }
    }
}

/// Putting keeps the keys in order and distinct, gives the key its new value, and leaves what
/// the other keys have.
pub proof fn put_is_a_map_insert<V>(s: Seq<(Seq<char>, V)>, k: Seq<char>, v: V)
    requires
        keys_ascend(s),
    ensures
        keys_ascend(put(s, k, v)),
        look_up(put(s, k, v), k) == Some(v),
        forall|other: Seq<char>| other != k ==> #[trigger] look_up(put(s, k, v), other) == look_up(s, other),
    decreases s.len(),
{
    let out = put(s, k, v);
    if s.len() == 0 {
        assert(out.drop_last() =~= s);
        assert forall|other: Seq<char>| other != k implies #[trigger] look_up(out, other) == look_up(s, other) by {
            assert(out.last().0 == k);
        }
    } else {
        let init = s.drop_last();
        let last = s.last();
        assert(keys_ascend(init)) by {
            assert forall|i: int, j: int| 0 <= i < j < init.len() implies (#[trigger] init[i]).0 != (#[trigger] init[j]).0
                && text_le(init[i].0, init[j].0) by {
                assert(init[i] == s[i] && init[j] == s[j]);
            }
        }
        assert forall|i: int| 0 <= i < init.len() implies (#[trigger] init[i]).0 != last.0 && text_le(init[i].0, last.0) by {
            assert(init[i] == s[i] && last == s[s.len() - 1]);
        }
        if last.0 == k {
            assert(out.drop_last() =~= init);
        } else if text_le(last.0, k) {
            assert(out.drop_last() =~= s);
            assert forall|i: int, j: int| 0 <= i < j < out.len() implies (#[trigger] out[i]).0 != (#[trigger] out[j]).0
                && text_le(out[i].0, out[j].0) by {
                if j == s.len() {
                    if i < s.len() - 1 {
                        assert(out[i] == init[i]);
                        text_le_transitive(init[i].0, last.0, k);
                        if init[i].0 == k {
                            text_le_antisymmetric(last.0, k);
                        }
                    }
                } else {
                    assert(out[i] == s[i] && out[j] == s[j]);
                }
            }
        } else {
            text_le_total(last.0, k);
            put_is_a_map_insert(init, k, v);
            put_stays_below(init, k, v, last.0);
            let front = put(init, k, v);
            assert(out.drop_last() =~= front);
            assert forall|i: int, j: int| 0 <= i < j < out.len() implies (#[trigger] out[i]).0 != (#[trigger] out[j]).0
                && text_le(out[i].0, out[j].0) by {
                if j == out.len() - 1 {
                    assert(out[i] == front[i]);
                } else {
                    assert(out[i] == front[i] && out[j] == front[j]);
                }
            }
            assert forall|other: Seq<char>| other != k implies #[trigger] look_up(out, other) == look_up(s, other) by {
                if other != last.0 {
                    assert(look_up(front, other) == look_up(init, other));
                }
            }
        }
    }
}

/// Of pairs put one after the other, the keys come in order and distinct, and a key has the
/// value of its last pair.
pub proof fn put_all_keeps_the_last<V>(pairs: Seq<(Seq<char>, V)>)
    ensures
        keys_ascend(put_all(pairs)),
        forall|k: Seq<char>| #[trigger] look_up(put_all(pairs), k) == look_up(pairs, k),
    decreases pairs.len(),
{
    if pairs.len() > 0 {
        let before = put_all(pairs.drop_last());
        put_all_keeps_the_last(pairs.drop_last());
        put_is_a_map_insert(before, pairs.last().0, pairs.last().1);
        assert forall|k: Seq<char>| #[trigger] look_up(put_all(pairs), k) == look_up(pairs, k) by {
            if k != pairs.last().0 {
                assert(look_up(put_all(pairs), k) == look_up(before, k));
                assert(look_up(before, k) == look_up(pairs.drop_last(), k));
            }
        }
    }
}

/// The keys of a list.
pub open spec fn keys_of<V>(s: Seq<(Seq<char>, V)>) -> Seq<Seq<char>> {
    Seq::new(s.len(), |i: int| s[i].0)
}

/// No two pairs have the same key.
pub open spec fn keys_differ<V>(s: Seq<(Seq<char>, V)>) -> bool {
    forall|i: int, j: int| 0 <= i < j < s.len() ==> (#[trigger] s[i]).0 != (#[trigger] s[j]).0
}

/// What is looked up stands in the list, and what stands there is found under its key.
pub proof fn look_up_finds<V>(s: Seq<(Seq<char>, V)>, k: Seq<char>)
    ensures
        look_up(s, k) is Some ==> s.contains((k, look_up(s, k)->0)),
        look_up(s, k) is None <==> !keys_of(s).contains(k),
        keys_differ(s) ==> forall|v: V| #[trigger] s.contains((k, v)) ==> look_up(s, k) == Some(v),
    decreases s.len(),
{
    if s.len() > 0 {
        let init = s.drop_last();
        let last = s.last();
        look_up_finds(init, k);
        assert(s[s.len() - 1] == last);
        assert(keys_of(s)[s.len() - 1] == last.0);
        if last.0 == k {
            assert(s.contains((k, last.1)));
        } else {
            if look_up(init, k) is Some {
                let i = init.index_of((k, look_up(init, k)->0));
                assert(s[i] == (k, look_up(init, k)->0));
                assert(keys_of(s)[i] == k);
            } else if keys_of(s).contains(k) {
                let i = keys_of(s).index_of(k);
                assert(keys_of(init)[i] == k);
            }
        }
        if keys_differ(s) {
            assert forall|i: int, j: int| 0 <= i < j < init.len() implies (#[trigger] init[i]).0 != (#[trigger] init[j]).0 by {
                assert(s[i].0 != s[j].0);
            }
            assert forall|v: V| #[trigger] s.contains((k, v)) implies look_up(s, k) == Some(v) by {
                let i = s.index_of((k, v));
                if i < init.len() {
                    assert(init[i] == (k, v));
                    assert(init.contains((k, v)));
                    assert(s[i].0 != s[s.len() - 1].0);
                }
            }
        }
    }
}

/// Two lists in the order of their keys that have the same for every key are the same.
pub proof fn same_for_every_key<V>(s: Seq<(Seq<char>, V)>, t: Seq<(Seq<char>, V)>)
    requires
        keys_ascend(s),
        keys_ascend(t),
        forall|k: Seq<char>| #[trigger] look_up(s, k) == look_up(t, k),
    ensures
        s == t,
    decreases s.len(),
{
    if s.len() == 0 || t.len() == 0 {
        if s.len() > 0 {
            assert(look_up(s, s.last().0) is Some);
            assert(look_up(t, s.last().0) is None);
        }
        if t.len() > 0 {
            assert(look_up(s, t.last().0) is None);
            assert(look_up(t, t.last().0) is Some);
        }
        assert(s =~= t);
    } else {
        let a = s.last().0;
        let b = t.last().0;
        last_key_is_greatest(s, b, t.last().1);
        last_key_is_greatest(t, a, s.last().1);
        text_le_antisymmetric(a, b);
        assert(look_up(s, a) == look_up(t, a));
        let si = s.drop_last();
        let ti = t.drop_last();
        front_ascends(s);
        front_ascends(t);
        assert forall|k: Seq<char>| #[trigger] look_up(si, k) == look_up(ti, k) by {
            assert(look_up(s, k) == look_up(t, k));
        }
        same_for_every_key(si, ti);
        assert(s =~= si.push(s.last()));
        assert(t =~= ti.push(t.last()));
    }
}

proof fn last_key_is_greatest<V>(s: Seq<(Seq<char>, V)>, k: Seq<char>, v: V)
    requires
        s.len() > 0,
        keys_ascend(s),
        look_up(s, k) == Some(v),
    ensures
        text_le(k, s.last().0),
{
    look_up_finds(s, k);
    let i = s.index_of((k, v));
    assert(s[i].0 == k);
    assert(s[s.len() - 1] == s.last());
    text_le_total(k, k);
}

proof fn front_ascends<V>(s: Seq<(Seq<char>, V)>)
    requires
        s.len() > 0,
        keys_ascend(s),
    ensures
        keys_ascend(s.drop_last()),
        look_up(s.drop_last(), s.last().0) is None,
{
    let init = s.drop_last();
    assert forall|i: int, j: int| 0 <= i < j < init.len() implies (#[trigger] init[i]).0 != (#[trigger] init[j]).0
        && text_le(init[i].0, init[j].0) by {
        assert(init[i] == s[i] && init[j] == s[j]);
    }
    look_up_finds(init, s.last().0);
    if keys_of(init).contains(s.last().0) {
        let i = keys_of(init).index_of(s.last().0);
        assert(s[i].0 != s[s.len() - 1].0);
    }
}

/// Pairs with keys that differ come out the same in whatever order they are put.
pub proof fn order_of_putting_does_not_matter<V>(a: Seq<(Seq<char>, V)>, b: Seq<(Seq<char>, V)>)
    requires
        keys_differ(a),
        keys_differ(b),
        forall|p: (Seq<char>, V)| #[trigger] a.contains(p) == b.contains(p),
    ensures
        put_all(a) == put_all(b),
{
    put_all_keeps_the_last(a);
    put_all_keeps_the_last(b);
    assert forall|k: Seq<char>| #[trigger] look_up(put_all(a), k) == look_up(put_all(b), k) by {
        look_up_finds(a, k);
        look_up_finds(b, k);
        assert(look_up(put_all(a), k) == look_up(a, k));
        assert(look_up(put_all(b), k) == look_up(b, k));
        if look_up(a, k) is Some {
            assert(b.contains((k, look_up(a, k)->0)));
        }
        if look_up(b, k) is Some {
            assert(a.contains((k, look_up(b, k)->0)));
        }
    }
    same_for_every_key(put_all(a), put_all(b));
}

/// A list that is put in another order holds the same pairs, and their keys differ still.
pub proof fn rearranged_pairs<V>(a: Seq<(Seq<char>, V)>, b: Seq<(Seq<char>, V)>)
    requires
        keys_differ(a),
        a.to_multiset() == b.to_multiset(),
    ensures
        keys_differ(b),
        forall|p: (Seq<char>, V)| #[trigger] a.contains(p) == b.contains(p),
{
    broadcast use vstd::seq_lib::group_to_multiset_ensures;
    assert forall|p: (Seq<char>, V)| #[trigger] a.contains(p) == b.contains(p) by {
        assert(a.contains(p) <==> a.to_multiset().count(p) > 0);
        assert(b.contains(p) <==> b.to_multiset().count(p) > 0);
    }
    assert(a.no_duplicates()) by {
        assert forall|i: int, j: int| 0 <= i < a.len() && 0 <= j < a.len() && i != j implies a[i] != a[j] by {
            if i < j {
                assert(a[i].0 != a[j].0);
            } else {
                assert(a[j].0 != a[i].0);
            }
        }
    }
    a.lemma_multiset_has_no_duplicates();
    b.lemma_multiset_has_no_duplicates_conv();
    assert forall|i: int, j: int| 0 <= i < j < b.len() implies (#[trigger] b[i]).0 != (#[trigger] b[j]).0 by {
        assert(b[i] != b[j]);
        assert(b.contains(b[i]) && b.contains(b[j]));
        assert(a.contains(b[i]) && a.contains(b[j]));
        let x = a.index_of(b[i]);
        let y = a.index_of(b[j]);
        if x < y {
            assert(a[x].0 != a[y].0);
        } else {
            assert(a[y].0 != a[x].0);
        }
    }
}

/// A map from texts to values, in the order of its keys.
#[derive(Debug, PartialEq)]
pub struct FieldMap<V> {
    pub entries: Vec<(String, V)>,
}

impl<V: View> View for FieldMap<V> {
    type V = Seq<(Seq<char>, V::V)>;

    open spec fn view(&self) -> Seq<(Seq<char>, V::V)> {
        Seq::new(self.entries@.len(), |i: int| (self.entries@[i].0@, self.entries@[i].1@))
    }
}

impl<V: View> FieldMap<V> {
    pub fn new() -> (r: FieldMap<V>)
        ensures
            r@ == Seq::<(Seq<char>, V::V)>::empty(),
    {
        let r = FieldMap { entries: Vec::new() };
        assert(r@ =~= seq![]);
        r
    }

    /// Puts a value for a key, in place of what the key had.
    pub fn insert(&mut self, key: String, value: V)
        ensures
            final(self)@ == put(old(self)@, key@, value@),
    {
        let ghost before = self@;
        let ghost k = key@;
        let ghost v = value@;
        let mut p: usize = self.entries.len();
        assert(before.take(p as int) =~= before);
        assert(before.skip(p as int) =~= seq![]);
        assert(put(before, k, v) =~= put(before.take(p as int), k, v) + before.skip(p as int));
        while p > 0 && !same(self.entries[p - 1].0.as_str(), key.as_str()) && !text_at_most(
            self.entries[p - 1].0.as_str(),
            key.as_str(),
        )
            invariant
                p <= self.entries@.len(),
                before == self@,
                k == key@,
                v == value@,
                put(before, k, v) == put(before.take(p as int), k, v) + before.skip(p as int),
            decreases p,
        {
            proof {
                let head = before.take(p as int);
                assert(head.last() == before[p - 1]);
                assert(head.drop_last() =~= before.take(p - 1));
                assert(put(before.take(p - 1), k, v).push(before[p - 1]) + before.skip(p as int) =~= put(
                    before.take(p - 1),
                    k,
                    v,
                ) + before.skip(p - 1));
            }
            p -= 1;
        }
        assert(p > 0 ==> before.take(p as int).last() == before[p - 1]);
        if p > 0 && same(self.entries[p - 1].0.as_str(), key.as_str()) {
            self.entries.remove(p - 1);
            self.entries.insert(p - 1, (key, value));
            proof {
                assert(before.take(p as int).drop_last() =~= before.take(p - 1));
                assert(self@ =~= before.take(p - 1).push((k, v)) + before.skip(p as int));
            }
        } else {
            self.entries.insert(p, (key, value));
            proof {
                assert(p == 0 ==> before.take(0) =~= seq![]);
                assert(self@ =~= before.take(p as int).push((k, v)) + before.skip(p as int));
                assert(p == 0 ==> seq![(k, v)] =~= before.take(0).push((k, v)));
            }
        }
    }

    /// What the map has for a key.
    pub fn get<'a>(&'a self, key: &str) -> (r: Option<&'a V>)
        ensures
            match r {
                Some(v) => look_up(self@, key@) == Some(v@),
                None => look_up(self@, key@) is None,
            },
    {
        let ghost all = self@;
        let mut i: usize = self.entries.len();
        assert(all.take(i as int) =~= all);
        while i > 0
            invariant
                all == self@,
                i <= self.entries@.len(),
                look_up(all, key@) == look_up(all.take(i as int), key@),
            decreases i,
        {
            assert(all.take(i as int).drop_last() =~= all.take(i - 1));
            assert(all.take(i as int).last() == all[i - 1]);
            i -= 1;
            if same(self.entries[i].0.as_str(), key) {
                return Some(&self.entries[i].1);
            }
        }
        None
    }
}

} // verus!
