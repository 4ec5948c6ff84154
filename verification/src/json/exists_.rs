//! Whether a path leads somewhere.
use super::path_is_bad;
use crate::output::{Error, Outcome};
use crate::path::{bad_path, resolve_expression, resolved, steps};
use crate::value::{Json, JsonView};
use vstd::prelude::*;

verus! {

/// The arguments of the command.
#[derive(Debug)]
pub struct ExistsArgs {
    pub expression: String,
    pub files: Vec<String>,
    /// One document with the path is enough.
    pub any: bool,
}

/// Whether the path leads somewhere in every document, or in one where that is enough.
pub open spec fn exists_in(inputs: Seq<(Seq<char>, JsonView)>, expr: Seq<char>, any: bool) -> bool {
    if any {
        exists|i: int| 0 <= i < inputs.len() && resolved((#[trigger] inputs[i]).1, expr) is Some
    } else {
        forall|i: int| 0 <= i < inputs.len() ==> resolved((#[trigger] inputs[i]).1, expr) is Some
    }
}

/// Says whether the path leads somewhere in the documents.
pub fn run(args: &ExistsArgs, inputs: &Vec<(String, Json)>) -> (r: Result<Outcome, Error>)
    ensures
        match r {
            Ok(outcome) => !path_is_bad(inputs.deep_view(), Some(args.expression@)) && outcome == if exists_in(
                inputs.deep_view(),
                args.expression@,
                args.any,
            ) {
                Outcome::Found
            } else {
                Outcome::NotFound
            },
            Err(e) => path_is_bad(inputs.deep_view(), Some(args.expression@)) && e.message@ == bad_path(
                args.expression@,
            ),
        },
{
    let ghost all = inputs.deep_view();
    let mut all_present = true;
    let mut any_present = false;
    for i in 0..inputs.len()
        invariant
            all == inputs.deep_view(),
            i > 0 ==> steps(args.expression@) is Some,
            all_present == forall|k: int| 0 <= k < i ==> resolved((#[trigger] all[k]).1, args.expression@) is Some,
            any_present == exists|k: int| 0 <= k < i && resolved((#[trigger] all[k]).1, args.expression@) is Some,
    {
        assert(all[i as int].1 == inputs@[i as int].1@);
        let ghost were_all = all_present;
        let ghost was_any = any_present;
        match resolve_expression(&inputs[i].1, args.expression.as_str()) {
            Ok(found) => {
                if found.is_some() {
                    any_present = true;
                } else {
                    all_present = false;
                }
                assert(any_present == (was_any || resolved(all[i as int].1, args.expression@) is Some));
                assert(all_present == (were_all && resolved(all[i as int].1, args.expression@) is Some));
            },
            Err(e) => {
                return Err(e);
            },
        }
    }
    let present = if args.any {
        any_present
    } else {
        all_present
    };
    Ok(
        if present {
            Outcome::Found
        } else {
            Outcome::NotFound
        },
    )
}

/// A path is in all documents where it is in those of each part of them, and in any where it is in
/// any of one part; one document has it where it leads somewhere, even to null.
pub proof fn documents_are_asked_in_turn(
    a: Seq<(Seq<char>, JsonView)>,
    b: Seq<(Seq<char>, JsonView)>,
    name: Seq<char>,
    v: JsonView,
    expr: Seq<char>,
)
    ensures
        exists_in(a + b, expr, false) == (exists_in(a, expr, false) && exists_in(b, expr, false)),
        exists_in(a + b, expr, true) == (exists_in(a, expr, true) || exists_in(b, expr, true)),
        exists_in(seq![(name, v)], expr, false) == (resolved(v, expr) is Some),
        exists_in(seq![(name, v)], expr, true) == (resolved(v, expr) is Some),
{
    let all = a + b;
    let one = seq![(name, v)];
    assert(one[0].1 == v);
    assert forall|i: int| 0 <= i < a.len() implies (#[trigger] a[i]) == all[i] by {}
    assert forall|i: int| 0 <= i < b.len() implies (#[trigger] b[i]) == all[a.len() + i] by {}
    if exists_in(all, expr, true) {
        let i = choose|i: int| 0 <= i < all.len() && resolved((#[trigger] all[i]).1, expr) is Some;
        if i < a.len() {
            assert(resolved(a[i].1, expr) is Some);
        } else {
            assert(resolved(b[i - a.len()].1, expr) is Some);
        }
    }
    if exists_in(a, expr, true) {
        let i = choose|i: int| 0 <= i < a.len() && resolved((#[trigger] a[i]).1, expr) is Some;
        assert(resolved(all[i].1, expr) is Some);
    }
    if exists_in(b, expr, true) {
        let i = choose|i: int| 0 <= i < b.len() && resolved((#[trigger] b[i]).1, expr) is Some;
        assert(resolved(all[a.len() + i].1, expr) is Some);
    }
    if exists_in(a, expr, false) && exists_in(b, expr, false) {
        assert forall|i: int| 0 <= i < all.len() implies resolved((#[trigger] all[i]).1, expr) is Some by {
            if i < a.len() {
                assert(resolved(a[i].1, expr) is Some);
            } else {
                assert(resolved(b[i - a.len()].1, expr) is Some);
            }
        }
    }
    if exists_in(all, expr, false) {
        assert forall|i: int| 0 <= i < a.len() implies resolved((#[trigger] a[i]).1, expr) is Some by {
            assert(resolved(all[i].1, expr) is Some);
        }
        assert forall|i: int| 0 <= i < b.len() implies resolved((#[trigger] b[i]).1, expr) is Some by {
            assert(resolved(all[a.len() + i].1, expr) is Some);
        }
    }
}

} // verus!
