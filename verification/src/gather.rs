//! Lists made item by item.
use vstd::prelude::*;

verus! {

/// What `f` makes of each item, one after the other.
pub open spec fn gathered<A, B>(items: Seq<A>, f: spec_fn(A) -> Seq<B>) -> Seq<B>
    decreases items.len(),
{
    if items.len() == 0 {
        seq![]
    } else {
        gathered(items.drop_last(), f) + f(items.last())
    }
}

/// Taking in one item more adds what `f` makes of it.
pub proof fn gathered_step<A, B>(items: Seq<A>, f: spec_fn(A) -> Seq<B>, i: int)
    requires
        0 <= i < items.len(),
    ensures
        gathered(items.take(i + 1), f) == gathered(items.take(i), f) + f(items[i]),
        gathered(items.take(0), f) == Seq::<B>::empty(),
        gathered(items.take(items.len() as int), f) == gathered(items, f),
{
    assert(items.take(i + 1).drop_last() =~= items.take(i));
    assert(items.take(items.len() as int) =~= items);
}

/// What is gathered from the first items comes first.
pub proof fn gathered_starts_with<A, B>(items: Seq<A>, f: spec_fn(A) -> Seq<B>, i: int)
    requires
        0 <= i <= items.len(),
    ensures
        gathered(items.take(i), f).is_prefix_of(gathered(items, f)),
    decreases items.len() - i,
{
    if i < items.len() {
        gathered_starts_with(items, f, i + 1);
        gathered_step(items, f, i);
    } else {
        assert(items.take(i) =~= items);
    }
}

/// What `f` makes of each item, one after the other, or the fault of the first item that has
/// one.
pub open spec fn gathered_or<A, B, E>(items: Seq<A>, f: spec_fn(A) -> Result<Seq<B>, E>) -> Result<Seq<B>, E>
    decreases items.len(),
{
    if items.len() == 0 {
        Ok(seq![])
    } else {
        match gathered_or(items.drop_last(), f) {
            Ok(before) => match f(items.last()) {
                Ok(more) => Ok(before + more),
                Err(e) => Err(e),
            },
            Err(e) => Err(e),
        }
    }
}

/// Taking in one item more adds what `f` makes of it, or ends in its fault.
pub proof fn gathered_or_step<A, B, E>(items: Seq<A>, f: spec_fn(A) -> Result<Seq<B>, E>, i: int)
    requires
        0 <= i < items.len(),
        gathered_or(items.take(i), f) is Ok,
    ensures
        gathered_or(items.take(i + 1), f) == match f(items[i]) {
            Ok(more) => Ok(gathered_or(items.take(i), f)->Ok_0 + more),
            Err(e) => Err(e),
        },
        f(items[i]) is Err ==> gathered_or(items, f) == Err::<Seq<B>, E>(f(items[i])->Err_0),
{
    assert(items.take(i + 1).drop_last() =~= items.take(i));
    assert(items.take(i + 1).last() == items[i]);
    if f(items[i]) is Err {
        fault_stays(items, f, i + 1);
    }
}

proof fn fault_stays<A, B, E>(items: Seq<A>, f: spec_fn(A) -> Result<Seq<B>, E>, i: int)
    requires
        0 <= i <= items.len(),
        gathered_or(items.take(i), f) is Err,
    ensures
        gathered_or(items, f) == gathered_or(items.take(i), f),
    decreases items.len() - i,
{
    if i < items.len() {
        assert(items.take(i + 1).drop_last() =~= items.take(i));
        fault_stays(items, f, i + 1);
    } else {
        assert(items.take(i) =~= items);
    }
}

/// What is gathered starts with what `f` makes of the first item.
pub proof fn gathered_first<A, B>(items: Seq<A>, f: spec_fn(A) -> Seq<B>)
    requires
        items.len() > 0,
    ensures
        gathered(items, f) == f(items[0]) + gathered(items.drop_first(), f),
    decreases items.len(),
{
    if items.len() == 1 {
        assert(items.drop_last() =~= seq![]);
        assert(items.drop_first() =~= seq![]);
        assert(gathered(items, f) =~= f(items[0]) + gathered(items.drop_first(), f));
    } else {
        let init = items.drop_last();
        gathered_first(init, f);
        assert(items.drop_first().drop_last() =~= init.drop_first());
        assert(items.drop_first().last() == items.last());
        assert(gathered(items, f) =~= f(items[0]) + gathered(items.drop_first(), f));
    }
}

/// What is gathered is what `f` makes of one of the items, and nothing else.
pub proof fn gathered_holds<A, B>(items: Seq<A>, f: spec_fn(A) -> Seq<B>, b: B)
    ensures
        gathered(items, f).contains(b) <==> exists|i: int| 0 <= i < items.len() && f(#[trigger] items[i]).contains(b),
    decreases items.len(),
{
    if items.len() > 0 {
        let init = items.drop_last();
        let last = items.last();
        gathered_holds(init, f, b);
        let before = gathered(init, f);
        let more = f(last);
        let out = gathered(items, f);
        assert(out == before + more);
        assert(items[items.len() - 1] == last);
        if out.contains(b) {
            let k = out.index_of(b);
            if k < before.len() {
                assert(before[k] == b);
                assert(before.contains(b));
                let i = choose|i: int| 0 <= i < init.len() && f(#[trigger] init[i]).contains(b);
                assert(f(items[i]).contains(b));
            } else {
                assert(more[k - before.len()] == b);
                assert(f(items[items.len() - 1]).contains(b));
            }
        }
        if exists|i: int| 0 <= i < items.len() && f(#[trigger] items[i]).contains(b) {
            let i = choose|i: int| 0 <= i < items.len() && f(#[trigger] items[i]).contains(b);
            if i < init.len() {
                assert(f(init[i]).contains(b));
                assert(before.contains(b));
                let k = before.index_of(b);
                assert(out[k] == b);
            } else {
                let k = more.index_of(b);
                assert(out[before.len() + k] == b);
            }
        }
    }
}

/// What is gathered from two lists, one after the other, is gathered from each.
pub proof fn gathered_of_both<A, B>(a: Seq<A>, b: Seq<A>, f: spec_fn(A) -> Seq<B>)
    ensures
        gathered(a + b, f) == gathered(a, f) + gathered(b, f),
        gathered(Seq::<A>::empty(), f) == Seq::<B>::empty(),
    decreases b.len(),
{
    if b.len() == 0 {
        assert(a + b =~= a);
        assert(gathered(a, f) + gathered(b, f) =~= gathered(a, f));
    } else {
        let init = b.drop_last();
        assert((a + b).drop_last() =~= a + init);
        assert((a + b).last() == b.last());
        gathered_of_both(a, init, f);
        assert(gathered(a + b, f) =~= gathered(a, f) + gathered(b, f));
    }
}

/// Where every item is in order, what is gathered is what `f` makes of one of them, and nothing
/// else; where one is not, the fault is that of the first such item.
pub proof fn gathered_or_holds<A, B, E>(items: Seq<A>, f: spec_fn(A) -> Result<Seq<B>, E>, b: B, i: int)
    ensures
        gathered_or(items, f) is Ok <==> forall|k: int| 0 <= k < items.len() ==> f(#[trigger] items[k]) is Ok,
        gathered_or(items, f) is Ok ==> (gathered_or(items, f)->Ok_0.contains(b) <==> exists|k: int|
            0 <= k < items.len() && f(#[trigger] items[k])->Ok_0.contains(b)),
        0 <= i < items.len() && f(items[i]) is Err && (forall|k: int| 0 <= k < i ==> f(#[trigger] items[k]) is Ok)
            ==> gathered_or(items, f) is Err && gathered_or(items, f)->Err_0 == f(items[i])->Err_0,
    decreases items.len(),
{
    if items.len() > 0 {
        let init = items.drop_last();
        let last = items.last();
        gathered_or_holds(init, f, b, i);
        assert(items[items.len() - 1] == last);
        if forall|k: int| 0 <= k < items.len() ==> f(#[trigger] items[k]) is Ok {
            assert forall|k: int| 0 <= k < init.len() implies f(#[trigger] init[k]) is Ok by {
                assert(f(items[k]) is Ok);
            }
            assert(f(items[items.len() - 1]) is Ok);
        }
        if gathered_or(items, f) is Ok {
            assert forall|k: int| 0 <= k < items.len() implies f(#[trigger] items[k]) is Ok by {
                if k < init.len() {
                    assert(f(init[k]) is Ok);
                }
            }
            let before = gathered_or(init, f)->Ok_0;
            let more = f(last)->Ok_0;
            let out = gathered_or(items, f)->Ok_0;
            assert(out == before + more);
            if out.contains(b) {
                let n = out.index_of(b);
                if n < before.len() {
                    assert(before[n] == b);
                    assert(before.contains(b));
                    let k = choose|k: int| 0 <= k < init.len() && f(#[trigger] init[k])->Ok_0.contains(b);
                    assert(f(items[k])->Ok_0.contains(b));
                } else {
                    assert(more[n - before.len()] == b);
                    assert(f(items[items.len() - 1])->Ok_0.contains(b));
                }
            }
            if exists|k: int| 0 <= k < items.len() && f(#[trigger] items[k])->Ok_0.contains(b) {
                let k = choose|k: int| 0 <= k < items.len() && f(#[trigger] items[k])->Ok_0.contains(b);
                if k < init.len() {
                    assert(f(init[k])->Ok_0.contains(b));
                    let n = before.index_of(b);
                    assert(out[n] == b);
                } else {
                    let n = more.index_of(b);
                    assert(out[before.len() + n] == b);
                }
            }
        }
        if 0 <= i < items.len() && f(items[i]) is Err && (forall|k: int| 0 <= k < i ==> f(#[trigger] items[k]) is Ok) {
            if i < init.len() {
                assert(init[i] == items[i]);
                assert forall|k: int| 0 <= k < i implies f(#[trigger] init[k]) is Ok by {
                    assert(f(items[k]) is Ok);
                }
            } else {
                assert forall|k: int| 0 <= k < init.len() implies f(#[trigger] init[k]) is Ok by {
                    assert(f(items[k]) is Ok);
                }
            }
        }
    }
}

} // verus!
