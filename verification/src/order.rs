//! Orders on texts and a stable sort.
use crate::text::{chars, same};
use vstd::prelude::*;

verus! {

/// `a` comes no later than `b` in the order of their code points, character by character.
pub open spec fn text_le(a: Seq<char>, b: Seq<char>) -> bool
    decreases a.len(),
{
    if a.len() == 0 {
        true
    } else if b.len() == 0 {
        false
    } else if a[0] != b[0] {
        a[0] < b[0]
    } else {
        text_le(a.drop_first(), b.drop_first())
    }
}

pub proof fn text_le_total(a: Seq<char>, b: Seq<char>)
    ensures
        text_le(a, b) || text_le(b, a),
    decreases a.len(),
{
    if a.len() > 0 && b.len() > 0 && a[0] == b[0] {
        text_le_total(a.drop_first(), b.drop_first());
    }
}

pub proof fn text_le_transitive(a: Seq<char>, b: Seq<char>, c: Seq<char>)
    requires
        text_le(a, b),
        text_le(b, c),
    ensures
        text_le(a, c),
    decreases a.len(),
{
    if a.len() > 0 && a[0] == b[0] && b[0] == c[0] {
        text_le_transitive(a.drop_first(), b.drop_first(), c.drop_first());
    }
}

pub proof fn text_le_antisymmetric(a: Seq<char>, b: Seq<char>)
    requires
        text_le(a, b),
        text_le(b, a),
    ensures
        a == b,
    decreases a.len(),
{
    if a.len() == 0 {
        assert(b.len() == 0);
        assert(a =~= b);
    } else {
        text_le_antisymmetric(a.drop_first(), b.drop_first());
        assert(a =~= seq![a[0]] + a.drop_first());
        assert(b =~= seq![b[0]] + b.drop_first());
    }
}

/// Whether `a` comes no later than `b`, as `<=` on texts says.
pub fn text_at_most(a: &str, b: &str) -> (r: bool)
    ensures
        r == text_le(a@, b@),
{
    let x = chars(a);
    let y = chars(b);
    let mut i: usize = 0;
    assert(a@.skip(0) =~= a@);
    assert(b@.skip(0) =~= b@);
    while i < x.len() && i < y.len()
        invariant
            x@ == a@,
            y@ == b@,
            i <= a@.len(),
            i <= b@.len(),
            text_le(a@, b@) == text_le(a@.skip(i as int), b@.skip(i as int)),
        decreases x@.len() - i,
    {
        assert(a@.skip(i as int)[0] == a@[i as int]);
        assert(b@.skip(i as int)[0] == b@[i as int]);
        if x[i] != y[i] {
            return x[i] < y[i];
        }
        assert(a@.skip(i as int).drop_first() =~= a@.skip(i + 1));
        assert(b@.skip(i as int).drop_first() =~= b@.skip(i + 1));
        i += 1;
    }
    i == x.len()
}

/// `a` comes no later than `b` in the order of their texts, one after the other.
pub open spec fn texts_le(a: Seq<Seq<char>>, b: Seq<Seq<char>>) -> bool
    decreases a.len(),
{
    if a.len() == 0 {
        true
    } else if b.len() == 0 {
        false
    } else if a[0] != b[0] {
        text_le(a[0], b[0])
    } else {
        texts_le(a.drop_first(), b.drop_first())
    }
}

pub proof fn texts_le_total(a: Seq<Seq<char>>, b: Seq<Seq<char>>)
    ensures
        texts_le(a, b) || texts_le(b, a),
    decreases a.len(),
{
    if a.len() > 0 && b.len() > 0 {
        text_le_total(a[0], b[0]);
        if a[0] == b[0] {
            texts_le_total(a.drop_first(), b.drop_first());
        }
    }
}

pub proof fn texts_le_transitive(a: Seq<Seq<char>>, b: Seq<Seq<char>>, c: Seq<Seq<char>>)
    requires
        texts_le(a, b),
        texts_le(b, c),
    ensures
        texts_le(a, c),
    decreases a.len(),
{
    if a.len() > 0 {
        if a[0] == b[0] && b[0] == c[0] {
            texts_le_transitive(a.drop_first(), b.drop_first(), c.drop_first());
        } else if a[0] != b[0] && b[0] != c[0] {
            text_le_transitive(a[0], b[0], c[0]);
            if a[0] == c[0] {
                text_le_antisymmetric(a[0], b[0]);
            }
        }
    }
}

/// Whether the texts `a` come no later than the texts `b`, as `<=` on tuples says.
pub fn texts_at_most(a: &Vec<&str>, b: &Vec<&str>) -> (r: bool)
    ensures
        r == texts_le(a.deep_view(), b.deep_view()),
{
    let ghost x = a.deep_view();
    let ghost y = b.deep_view();
    let mut i: usize = 0;
    assert(x.skip(0) =~= x);
    assert(y.skip(0) =~= y);
    while i < a.len() && i < b.len()
        invariant
            x == a.deep_view(),
            y == b.deep_view(),
            i <= a@.len(),
            i <= b@.len(),
            texts_le(x, y) == texts_le(x.skip(i as int), y.skip(i as int)),
        decreases a@.len() - i,
    {
        assert(x.skip(i as int)[0] == a@[i as int]@);
        assert(y.skip(i as int)[0] == b@[i as int]@);
        if !same(a[i], b[i]) {
            return text_at_most(a[i], b[i]);
        }
        assert(x.skip(i as int).drop_first() =~= x.skip(i + 1));
        assert(y.skip(i as int).drop_first() =~= y.skip(i + 1));
        i += 1;
    }
    i == a.len()
}

/// Values with a total order in which ties are possible.
pub trait Ranked: View {
    /// `a` comes no later than `b`.
    spec fn le(a: Self::V, b: Self::V) -> bool;

    proof fn le_total(a: Self::V, b: Self::V)
        ensures
            Self::le(a, b) || Self::le(b, a),
    ;

    proof fn le_transitive(a: Self::V, b: Self::V, c: Self::V)
        requires
            Self::le(a, b),
            Self::le(b, c),
        ensures
            Self::le(a, c),
    ;

    fn at_most(&self, other: &Self) -> (r: bool)
        ensures
            r == Self::le(self@, other@),
    ;
}

/// The views of a sequence of values.
pub open spec fn views<T: View>(s: Seq<T>) -> Seq<T::V> {
    Seq::new(s.len(), |i: int| s[i]@)
}

/// `x` put into `s` behind everything that comes no later than it, from the back.
pub open spec fn inserted<T: Ranked>(s: Seq<T::V>, x: T::V) -> Seq<T::V>
    decreases s.len(),
{
    if s.len() > 0 && !T::le(s.last(), x) {
        inserted::<T>(s.drop_last(), x).push(s.last())
    } else {
        s.push(x)
    }
}

/// `s` in order, ties in the order in which they came.
pub open spec fn sorted<T: Ranked>(s: Seq<T::V>) -> Seq<T::V>
    decreases s.len(),
{
    if s.len() == 0 {
        s
    } else {
        inserted::<T>(sorted::<T>(s.drop_last()), s.last())
    }
}

/// Each value comes no later than those behind it.
pub open spec fn ascending<T: Ranked>(s: Seq<T::V>) -> bool {
    forall|i: int, j: int| 0 <= i < j < s.len() ==> T::le(#[trigger] s[i], #[trigger] s[j])
}

/// Neither of two values comes before the other.
pub open spec fn tied<T: Ranked>(a: T::V, b: T::V) -> bool {
    T::le(a, b) && T::le(b, a)
}

/// The values of `s` that are tied with `x`, in their order.
pub open spec fn ties<T: Ranked>(s: Seq<T::V>, x: T::V) -> Seq<T::V>
    decreases s.len(),
{
    if s.len() == 0 {
        s
    } else if tied::<T>(s.last(), x) {
        ties::<T>(s.drop_last(), x).push(s.last())
    } else {
        ties::<T>(s.drop_last(), x)
    }
}

proof fn inserted_facts<T: Ranked>(s: Seq<T::V>, v: T::V)
    requires
        ascending::<T>(s),
    ensures
        ascending::<T>(inserted::<T>(s, v)),
        inserted::<T>(s, v).to_multiset() =~= s.to_multiset().insert(v),
        inserted::<T>(s, v).len() == s.len() + 1,
        forall|w: T::V| (forall|i: int| 0 <= i < s.len() ==> T::le(#[trigger] s[i], w)) && T::le(v, w)
            ==> forall|i: int| 0 <= i <= s.len() ==> T::le(#[trigger] inserted::<T>(s, v)[i], w),
    decreases s.len(),
{
    broadcast use vstd::seq_lib::group_to_multiset_ensures;
    let out = inserted::<T>(s, v);
    if s.len() > 0 && !T::le(s.last(), v) {
        let init = s.drop_last();
        inserted_facts::<T>(init, v);
        T::le_total(s.last(), v);
        assert(s =~= init.push(s.last()));
        let front = inserted::<T>(init, v);
        assert forall|i: int| 0 <= i < init.len() implies T::le(#[trigger] init[i], s.last()) by {
            assert(T::le(s[i], s[s.len() - 1]));
        }
        assert forall|i: int, j: int| 0 <= i < j < out.len() implies T::le(#[trigger] out[i], #[trigger] out[j]) by {
            if j == out.len() - 1 {
                assert(out[i] == front[i]);
            } else {
                assert(out[i] == front[i]);
                assert(out[j] == front[j]);
            }
        }
        assert forall|w: T::V| (forall|i: int| 0 <= i < s.len() ==> T::le(#[trigger] s[i], w)) && T::le(v, w)
            implies forall|i: int| 0 <= i <= s.len() ==> T::le(#[trigger] out[i], w) by {
            assert forall|i: int| 0 <= i < init.len() implies T::le(#[trigger] init[i], w) by {
                assert(T::le(s[i], w));
            }
            assert(T::le(s[s.len() - 1], w));
            assert forall|i: int| 0 <= i <= s.len() implies T::le(#[trigger] out[i], w) by {
                if i < s.len() {
                    assert(out[i] == front[i]);
                }
            }
        }
    } else {
        assert forall|i: int, j: int| 0 <= i < j < out.len() implies T::le(#[trigger] out[i], #[trigger] out[j]) by {
            if j == s.len() {
                if i < s.len() - 1 {
                    assert(T::le(s[i], s[s.len() - 1]));
                    T::le_transitive(s[i], s.last(), v);
                }
            } else {
                assert(T::le(s[i], s[j]));
            }
        }
    }
}

proof fn inserted_ties<T: Ranked>(s: Seq<T::V>, v: T::V, x: T::V)
    requires
        ascending::<T>(s),
    ensures
        ties::<T>(inserted::<T>(s, v), x) == if tied::<T>(v, x) {
            ties::<T>(s, x).push(v)
        } else {
            ties::<T>(s, x)
        },
    decreases s.len(),
{
    let out = inserted::<T>(s, v);
    if s.len() > 0 && !T::le(s.last(), v) {
        let init = s.drop_last();
        assert(ascending::<T>(init)) by {
            assert forall|i: int, j: int| 0 <= i < j < init.len() implies T::le(#[trigger] init[i], #[trigger] init[j]) by {
                assert(T::le(s[i], s[j]));
            }
        }
        inserted_ties::<T>(init, v, x);
        assert(out.drop_last() =~= inserted::<T>(init, v));
        if tied::<T>(v, x) && tied::<T>(s.last(), x) {
            T::le_transitive(s.last(), x, v);
        }
    } else {
        assert(out.drop_last() =~= s);
    }
}

/// Sorting puts the values in ascending order, keeps every value, and leaves ties in the
/// order in which they came.
pub proof fn sorted_is_a_stable_sort<T: Ranked>(s: Seq<T::V>)
    ensures
        ascending::<T>(sorted::<T>(s)),
        sorted::<T>(s).to_multiset() == s.to_multiset(),
        sorted::<T>(s).len() == s.len(),
        forall|x: T::V| #[trigger] ties::<T>(sorted::<T>(s), x) == ties::<T>(s, x),
    decreases s.len(),
{
    broadcast use vstd::seq_lib::group_to_multiset_ensures;
    if s.len() > 0 {
        let init = s.drop_last();
        sorted_is_a_stable_sort::<T>(init);
        inserted_facts::<T>(sorted::<T>(init), s.last());
        assert(s =~= init.push(s.last()));
        assert forall|x: T::V| #[trigger] ties::<T>(sorted::<T>(s), x) == ties::<T>(s, x) by {
            inserted_ties::<T>(sorted::<T>(init), s.last(), x);
            assert(ties::<T>(sorted::<T>(init), x) == ties::<T>(init, x));
        }
    }
}

/// Puts `x` into `out` behind everything that comes no later than it.
fn insert<T: Ranked>(out: &mut Vec<T>, x: T)
    ensures
        views(final(out)@) == inserted::<T>(views(old(out)@), x@),
{
    let mut p: usize = out.len();
    let ghost before = views(out@);
    let ghost v = x@;
    let ghost elems = out@;
    assert(before.take(p as int) =~= before);
    assert(before.skip(p as int) =~= seq![]);
    assert(inserted::<T>(before, v) =~= inserted::<T>(before.take(p as int), v) + before.skip(p as int));
    while p > 0 && !out[p - 1].at_most(&x)
        invariant
            elems == out@,
            p <= out@.len(),
            before == views(out@),
            v == x@,
            inserted::<T>(before, v) == inserted::<T>(before.take(p as int), v) + before.skip(p as int),
        decreases p,
    {
        proof {
            assert(before.take(p as int).drop_last() =~= before.take(p - 1));
            assert(before.take(p as int).last() == before[p - 1]);
            assert(inserted::<T>(before.take(p - 1), v).push(before[p - 1]) + before.skip(p as int)
                =~= inserted::<T>(before.take(p - 1), v) + before.skip(p - 1));
        }
        p -= 1;
    }
    proof {
        assert(p > 0 ==> before.take(p as int).last() == before[p - 1]);
        assert(views(elems.insert(p as int, x)) =~= before.take(p as int).push(v) + before.skip(p as int));
    }
    out.insert(p, x);
}

/// The values in order, ties in the order in which they came.
pub fn sort<T: Ranked>(items: Vec<T>) -> (r: Vec<T>)
    ensures
        views(r@) == sorted::<T>(views(items@)),
{
    let mut out: Vec<T> = Vec::new();
    let ghost all = views(items@);
    assert(views(out@) =~= sorted::<T>(all.take(0)));
    for x in it: items
        invariant
            it.seq() == items@,
            all == views(items@),
            views(out@) == sorted::<T>(all.take(it.index())),
    {
        proof {
            let k = it.index();
            assert(all.take(k + 1).drop_last() =~= all.take(k));
            assert(all.take(k + 1).last() == x@);
        }
        insert(&mut out, x);
    }
    assert(all.take(all.len() as int) =~= all);
    out
}

/// Values that are written as one line each.
pub trait Line: View {
    spec fn line(v: Self::V) -> Seq<char>;

    fn render(&self) -> (r: String)
        ensures
            r@ == Self::line(self@),
    ;
}

/// The lines of a sequence of values.
pub open spec fn lines_of<T: Line>(s: Seq<T::V>) -> Seq<Seq<char>> {
    Seq::new(s.len(), |i: int| T::line(s[i]))
}

/// The lines of a list of values.
pub fn render_all<T: Line>(items: &Vec<T>) -> (r: Vec<String>)
    ensures
        r.deep_view() == lines_of::<T>(views(items@)),
{
    let mut out: Vec<String> = Vec::new();
    let ghost all = lines_of::<T>(views(items@));
    for i in 0..items.len()
        invariant
            all == lines_of::<T>(views(items@)),
            out.deep_view() =~= all.take(i as int),
    {
        let ghost before = out.deep_view();
        let line = items[i].render();
        assert(line@ == all[i as int]);
        out.push(line);
        assert(out.deep_view() =~= before.push(line@));
    }
    assert(all.take(all.len() as int) =~= all);
    out
}

/// A key with its value, ordered by the key.
pub struct Pair {
    pub key: String,
    pub value: String,
}

impl View for Pair {
    type V = (Seq<char>, Seq<char>);

    open spec fn view(&self) -> (Seq<char>, Seq<char>) {
        (self.key@, self.value@)
    }
}

impl Ranked for Pair {
    open spec fn le(a: (Seq<char>, Seq<char>), b: (Seq<char>, Seq<char>)) -> bool {
        text_le(a.0, b.0)
    }

    proof fn le_total(a: (Seq<char>, Seq<char>), b: (Seq<char>, Seq<char>)) {
        text_le_total(a.0, b.0);
    }

    proof fn le_transitive(a: (Seq<char>, Seq<char>), b: (Seq<char>, Seq<char>), c: (Seq<char>, Seq<char>)) {
        text_le_transitive(a.0, b.0, c.0);
    }

    fn at_most(&self, other: &Self) -> (r: bool) {
        text_at_most(self.key.as_str(), other.key.as_str())
    }
}

/// A text, ordered by its characters.
pub struct Text {
    pub text: String,
}

impl View for Text {
    type V = Seq<char>;

    open spec fn view(&self) -> Seq<char> {
        self.text@
    }
}

impl Ranked for Text {
    open spec fn le(a: Seq<char>, b: Seq<char>) -> bool {
        text_le(a, b)
    }

    proof fn le_total(a: Seq<char>, b: Seq<char>) {
        text_le_total(a, b);
    }

    proof fn le_transitive(a: Seq<char>, b: Seq<char>, c: Seq<char>) {
        text_le_transitive(a, b, c);
    }

    fn at_most(&self, other: &Self) -> (r: bool) {
        text_at_most(self.text.as_str(), other.text.as_str())
    }
}

/// Texts in order.
pub fn sort_texts(texts: Vec<String>) -> (r: Vec<String>)
    ensures
        r.deep_view() == sorted::<Text>(texts.deep_view()),
{
    let ghost all = texts.deep_view();
    let mut items: Vec<Text> = Vec::new();
    for text in it: texts
        invariant
            it.seq() == texts@,
            all == texts.deep_view(),
            views(items@) =~= all.take(it.index()),
    {
        let ghost before = views(items@);
        let ghost t = text@;
        items.push(Text { text });
        assert(views(items@) =~= before.push(t));
    }
    assert(all.take(all.len() as int) =~= all);
    let ordered = sort(items);
    let ghost model = views(ordered@);
    let mut out: Vec<String> = Vec::new();
    for item in it: ordered
        invariant
            it.seq() == ordered@,
            model == views(ordered@),
            out.deep_view() =~= model.take(it.index()),
    {
        let ghost before = out.deep_view();
        let ghost t = item@;
        out.push(item.text);
        assert(out.deep_view() =~= before.push(t));
    }
    assert(model.take(model.len() as int) =~= model);
    out
}

/// The order of texts in a list does not matter to how they come out sorted.
pub proof fn sorted_texts_are_determined(a: Seq<Seq<char>>, b: Seq<Seq<char>>)
    requires
        a.to_multiset() == b.to_multiset(),
    ensures
        sorted::<Text>(a) == sorted::<Text>(b),
{
    sorted_is_a_stable_sort::<Text>(a);
    sorted_is_a_stable_sort::<Text>(b);
    let leq = |x: Seq<char>, y: Seq<char>| text_le(x, y);
    assert forall|x: Seq<char>| #[trigger] leq(x, x) by {
        text_le_total(x, x);
    }
    assert forall|x: Seq<char>, y: Seq<char>| (#[trigger] leq(x, y) && #[trigger] leq(y, x)) implies x == y by {
        text_le_antisymmetric(x, y);
    }
    assert forall|x: Seq<char>, y: Seq<char>, z: Seq<char>| #[trigger] leq(x, y) && #[trigger] leq(y, z) implies leq(
        x,
        z,
    ) by {
        text_le_transitive(x, y, z);
    }
    assert forall|x: Seq<char>, y: Seq<char>| #[trigger] leq(x, y) || leq(y, x) by {
        text_le_total(x, y);
    }
    let p = sorted::<Text>(a);
    let q = sorted::<Text>(b);
    assert(vstd::relations::sorted_by(p, leq)) by {
        assert forall|i: int, j: int| 0 <= i < j < p.len() implies #[trigger] leq(p[i], p[j]) by {
            assert(Text::le(p[i], p[j]));
        }
    }
    assert(vstd::relations::sorted_by(q, leq)) by {
        assert forall|i: int, j: int| 0 <= i < j < q.len() implies #[trigger] leq(q[i], q[j]) by {
            assert(Text::le(q[i], q[j]));
        }
    }
    vstd::seq_lib::lemma_sorted_unique(p, q, leq);
}

/// Sorting keeps what a list holds.
pub proof fn sorted_holds<T: Ranked>(s: Seq<T::V>, x: T::V)
    ensures
        sorted::<T>(s).contains(x) == s.contains(x),
        sorted::<T>(s).len() == s.len(),
{
    broadcast use vstd::seq_lib::group_to_multiset_ensures;
    sorted_is_a_stable_sort::<T>(s);
    let t = sorted::<T>(s);
    assert(s.contains(x) <==> s.to_multiset().count(x) > 0);
    assert(t.contains(x) <==> t.to_multiset().count(x) > 0);
}

/// Texts are ordered by the first character in which they differ; one that goes on where the other
/// ends comes behind it.
pub proof fn first_difference_decides(common: Seq<char>, x: char, y: char, a: Seq<char>, b: Seq<char>)
    ensures
        x < y ==> text_le(common + seq![x] + a, common + seq![y] + b) && !text_le(
            common + seq![y] + b,
            common + seq![x] + a,
        ),
        text_le(common, common + a),
        text_le(common + a, common) ==> a.len() == 0,
    decreases common.len(),
{
    let p = common + seq![x] + a;
    let q = common + seq![y] + b;
    if common.len() > 0 {
        let rest = common.drop_first();
        first_difference_decides(rest, x, y, a, b);
        assert(p.drop_first() =~= rest + seq![x] + a);
        assert(q.drop_first() =~= rest + seq![y] + b);
        assert((common + a).drop_first() =~= rest + a);
        assert(p[0] == common[0] && q[0] == common[0] && (common + a)[0] == common[0]);
    } else {
        assert(p[0] == x && q[0] == y);
        assert(common + a =~= a);
        if text_le(a, common) && a.len() > 0 {
            text_le_total(common, a);
            text_le_antisymmetric(a, common);
        }
    }
}

} // verus!
