//! The shape of documents.
use super::grep::{format_grep_path, path_label};
use crate::fields::{keys_ascend, keys_of, look_up_finds, put_all, put_all_keeps_the_last, FieldMap};
use crate::gather::{gathered, gathered_holds, gathered_step};
use crate::order::{text_le, text_le_antisymmetric};
use crate::output::{answer_rows, answers, Report};
use crate::text::{borrowed, join, joined, same};
use crate::value::{type_label, type_text, Json, JsonView};
use vstd::prelude::*;
use vstd::string::*;

verus! {

/// The arguments of the command.
#[derive(Debug)]
pub struct SchemaArgs {
    pub files: Vec<String>,
    pub depth: Option<usize>,
    pub limit: Option<usize>,
}

/// One level less.
pub open spec fn one_less(depth: Option<nat>) -> Option<nat> {
    match depth {
        Some(n) => Some((n - 1) as nat),
        None => None,
    }
}

/// A list as it is.
pub open spec fn itself() -> spec_fn(Seq<(Seq<char>, Seq<char>)>) -> Seq<(Seq<char>, Seq<char>)> {
    |list: Seq<(Seq<char>, Seq<char>)>| list
}

/// The paths below a value, which stands at `path` itself, each with the type of what is there,
/// so many levels deep: a member at `.` and its name, an item of an array at `[]`.
pub open spec fn types_below(v: JsonView, path: Seq<char>, depth: Option<nat>) -> Seq<(Seq<char>, Seq<char>)>
    decreases v,
{
    if depth == Some(0nat) {
        seq![]
    } else {
        match v {
            JsonView::Object(members) => gathered(member_types(members, path, one_less(depth)), itself()),
            JsonView::Array(items) => gathered(item_types(items, path, one_less(depth)), itself()),
            _ => seq![],
        }
    }
}

/// What is at and below each member.
pub open spec fn member_types(members: Seq<(Seq<char>, JsonView)>, path: Seq<char>, depth: Option<nat>) -> Seq<
    Seq<(Seq<char>, Seq<char>)>,
>
    decreases members,
{
    Seq::new(
        members.len(),
        |i: int|
            if 0 <= i < members.len() {
                seq![(path + "."@ + members[i].0, type_text(members[i].1))] + types_below(
                    members[i].1,
                    path + "."@ + members[i].0,
                    depth,
                )
            } else {
                seq![]
            },
    )
}

/// What is at and below each item.
pub open spec fn item_types(items: Seq<JsonView>, path: Seq<char>, depth: Option<nat>) -> Seq<
    Seq<(Seq<char>, Seq<char>)>,
>
    decreases items,
{
    Seq::new(
        items.len(),
        |i: int|
            if 0 <= i < items.len() {
                seq![(path + "[]"@, type_text(items[i]))] + types_below(items[i], path + "[]"@, depth)
            } else {
                seq![]
            },
    )
}

/// A depth as a number.
pub open spec fn levels(depth: Option<usize>) -> Option<nat> {
    match depth {
        Some(n) => Some(n as nat),
        None => None,
    }
}

/// Adds the paths below a value, each with the type of what is there.
fn add_types(out: &mut Vec<(String, String)>, v: &Json, path: &str, depth: Option<usize>)
    ensures
        final(out).deep_view() == old(out).deep_view() + types_below(v@, path@, levels(depth)),
    decreases v,
{
    let ghost start = out.deep_view();
    let left: Option<usize> = match depth {
        Some(n) => {
            if n == 0 {
                assert(start + seq![] =~= start);
                return;
            }
            Some(n - 1)
        },
        None => None,
    };
    assert(levels(left) == one_less(levels(depth)));
    match v {
        Json::Object(members) => {
            let ghost model = v@->Object_0;
            let ghost lists = member_types(model, path@, levels(left));
            assert(out.deep_view() =~= start + gathered(lists.take(0), itself()));
            for i in 0..members.len()
                invariant
                    v is Object && v->Object_0 == *members,
                    model == v@->Object_0,
                    lists == member_types(model, path@, levels(left)),
                    out.deep_view() == start + gathered(lists.take(i as int), itself()),
            {
                assert(decreases_to!(*members => members@[i as int]));
                let ghost before = out.deep_view();
                assert(model[i as int] == (members@[i as int].0@, members@[i as int].1@));
                proof {
                    gathered_step(lists, itself(), i as int);
                }
                let mut at = path.to_owned();
                at.append(".");
                at.append(members[i].0.as_str());
                let kind = type_label(&members[i].1).to_owned();
                let ghost pair = (at@, kind@);
                out.push((at.clone(), kind));
                assert(out.deep_view() =~= before.push(pair));
                add_types(out, &members[i].1, at.as_str(), left);
                assert(out.deep_view() =~= before + lists[i as int]);
                assert(out.deep_view() =~= start + (gathered(lists.take(i as int), itself()) + lists[i as int]));
            }
            assert(lists.take(lists.len() as int) =~= lists);
        },
        Json::Array(items) => {
            let ghost model = v@->Array_0;
            let ghost lists = item_types(model, path@, levels(left));
            let mut at = path.to_owned();
            at.append("[]");
            assert(out.deep_view() =~= start + gathered(lists.take(0), itself()));
            for i in 0..items.len()
                invariant
                    v is Array && v->Array_0 == *items,
                    model == v@->Array_0,
                    at@ == path@ + "[]"@,
                    lists == item_types(model, path@, levels(left)),
                    out.deep_view() == start + gathered(lists.take(i as int), itself()),
            {
                assert(decreases_to!(*items => items@[i as int]));
                let ghost before = out.deep_view();
                assert(model[i as int] == items@[i as int]@);
                proof {
                    gathered_step(lists, itself(), i as int);
                }
                let kind = type_label(&items[i]).to_owned();
                let ghost pair = (at@, kind@);
                out.push((at.clone(), kind));
                assert(out.deep_view() =~= before.push(pair));
                add_types(out, &items[i], at.as_str(), left);
                assert(out.deep_view() =~= before + lists[i as int]);
                assert(out.deep_view() =~= start + (gathered(lists.take(i as int), itself()) + lists[i as int]));
            }
            assert(lists.take(lists.len() as int) =~= lists);
        },
        _ => {
            assert(start + seq![] =~= start);
        },
    }
}

/// The paths in a document, each with the type of what is there, so many levels deep.
pub fn collect_schema(v: &Json, max_depth: Option<usize>) -> (r: Vec<(String, String)>)
    ensures
        r.deep_view() == types_below(v@, seq![], levels(max_depth)),
{
    proof {
        reveal_strlit("");
        assert(""@ =~= seq![]);
    }
    let mut out: Vec<(String, String)> = Vec::new();
    let ghost before = out.deep_view();
    add_types(&mut out, v, "", max_depth);
    assert(before + types_below(v@, seq![], levels(max_depth)) =~= types_below(v@, seq![], levels(max_depth)));
    out
}

/// Texts as the keys of a list.
pub open spec fn as_keys(texts: Seq<Seq<char>>) -> Seq<(Seq<char>, ())> {
    Seq::new(texts.len(), |i: int| (texts[i], ()))
}

/// Texts in order, each once.
pub open spec fn in_order(texts: Seq<Seq<char>>) -> Seq<Seq<char>> {
    keys_of(put_all(as_keys(texts)))
}

/// The type that a pair of path and type has for the path.
pub open spec fn type_at(path: Seq<char>) -> spec_fn((Seq<char>, Seq<char>)) -> Seq<Seq<char>> {
    |pair: (Seq<char>, Seq<char>)|
        if pair.0 == path {
            seq![pair.1]
        } else {
            seq![]
        }
}

/// What is known of a document: its own type, under the empty path, and what was found in it.
pub open spec fn known_types(v: JsonView, found: Seq<(Seq<char>, Seq<char>)>) -> Seq<(Seq<char>, Seq<char>)> {
    seq![(seq![], type_text(v))] + found
}

/// The shape of a document: each path once, in order, with the types that occur there, each once,
/// in order.
pub open spec fn shape_of(v: JsonView, found: Seq<(Seq<char>, Seq<char>)>) -> Seq<(Seq<char>, Seq<Seq<char>>)> {
    let pairs = known_types(v, found);
    let paths = keys_of(put_all(pairs));
    Seq::new(paths.len(), |i: int| (paths[i], in_order(gathered(pairs, type_at(paths[i])))))
}

/// What is known of a document: its own type, under the empty path, and what was found in it.
fn gather_types<'a>(v: &Json, found: &'a Vec<(String, String)>) -> (r: Vec<(&'a str, &'a str)>)
    ensures
        r.deep_view() == known_types(v@, found.deep_view()),
{
    let ghost all = found.deep_view();
    let ghost want = known_types(v@, all);
    proof {
        reveal_strlit("");
        assert(""@ =~= seq![]);
    }
    let own = ("", type_label(v));
    let mut out: Vec<(&'a str, &'a str)> = vec![own];
    assert(out.deep_view() =~= want.take(1));
    for i in 0..found.len()
        invariant
            all == found.deep_view(),
            want == known_types(v@, all),
            out.deep_view() =~= want.take(i + 1),
    {
        let ghost before = out.deep_view();
        let (path, kind) = &found[i];
        assert(all[i as int] == (path@, kind@));
        let pair = (path.as_str(), kind.as_str());
        out.push(pair);
        assert(out.deep_view() =~= before.push((pair.0@, pair.1@)));
    }
    assert(want.take(want.len() as int) =~= want);
    out
}

/// The types that occur at a path, in order.
fn types_at(pairs: &Vec<(&str, &str)>, path: &str) -> (r: Vec<String>)
    ensures
        r.deep_view() == in_order(gathered(pairs.deep_view(), type_at(path@))),
{
    let ghost all = pairs.deep_view();
    let ghost f = type_at(path@);
    let mut kinds: FieldMap<()> = FieldMap::new();
    assert(gathered(all.take(0), f) =~= seq![]);
    assert(as_keys(seq![]) =~= seq![]);
    for i in 0..pairs.len()
        invariant
            all == pairs.deep_view(),
            f == type_at(path@),
            kinds@ == put_all(as_keys(gathered(all.take(i as int), f))),
    {
        let ghost so_far = gathered(all.take(i as int), f);
        proof {
            gathered_step(all, f, i as int);
            assert(all[i as int] == (pairs@[i as int].0@, pairs@[i as int].1@));
        }
        if same(pairs[i].0, path) {
            let ghost kind = pairs@[i as int].1@;
            assert(as_keys(so_far + seq![kind]).drop_last() =~= as_keys(so_far));
            kinds.insert(pairs[i].1.to_owned(), ());
        } else {
            assert(so_far + seq![] =~= so_far);
        }
    }
    assert(all.take(all.len() as int) =~= all);
    let ghost model = kinds@;
    let mut out: Vec<String> = Vec::new();
    for i in 0..kinds.entries.len()
        invariant
            model == kinds@,
            out.deep_view() =~= keys_of(model).take(i as int),
    {
        let ghost before = out.deep_view();
        let kind = kinds.entries[i].0.clone();
        assert(model[i as int].0 == kind@);
        out.push(kind);
        assert(out.deep_view() =~= before.push(kind@));
    }
    assert(keys_of(model).take(model.len() as int) =~= keys_of(model));
    out
}

/// The shape of a document. `found` are the paths in it with a type that occurs there, in any
/// order and however often.
pub fn shape(v: &Json, found: &Vec<(String, String)>) -> (r: Vec<(String, Vec<String>)>)
    ensures
        r.deep_view() == shape_of(v@, found.deep_view()),
{
    let pairs = gather_types(v, found);
    let ghost all = pairs.deep_view();
    let mut paths: FieldMap<String> = FieldMap::new();
    assert(put_all(all.take(0)) =~= seq![]);
    for i in 0..pairs.len()
        invariant
            all == pairs.deep_view(),
            paths@ == put_all(all.take(i as int)),
    {
        proof {
            assert(all[i as int] == (pairs@[i as int].0@, pairs@[i as int].1@));
            assert(all.take(i + 1).drop_last() =~= all.take(i as int));
            assert(all.take(i + 1).last() == all[i as int]);
        }
        paths.insert(pairs[i].0.to_owned(), pairs[i].1.to_owned());
    }
    assert(all.take(all.len() as int) =~= all);
    let ghost want = shape_of(v@, found.deep_view());
    let mut out: Vec<(String, Vec<String>)> = Vec::new();
    for i in 0..paths.entries.len()
        invariant
            all == pairs.deep_view(),
            all == known_types(v@, found.deep_view()),
            paths@ == put_all(all),
            want == shape_of(v@, found.deep_view()),
            out.deep_view() =~= want.take(i as int),
    {
        let ghost before = out.deep_view();
        let path = paths.entries[i].0.clone();
        assert(keys_of(put_all(all))[i as int] == path@);
        let kinds = types_at(&pairs, path.as_str());
        let ghost entry = (path@, kinds.deep_view());
        assert(entry == want[i as int]);
        out.push((path, kinds));
        assert(out.deep_view() =~= before.push(entry));
    }
    assert(want.take(want.len() as int) =~= want);
    out
}

/// The shape of a document, so many levels deep.
pub fn infer_schema(v: &Json, max_depth: Option<usize>) -> (r: Vec<(String, Vec<String>)>)
    ensures
        r.deep_view() == shape_of(v@, types_below(v@, seq![], levels(max_depth))),
{
    shape(v, &collect_schema(v, max_depth))
}

/// The row of a path: the types of the values that it leads to.
pub open spec fn schema_row(entry: (Seq<char>, Seq<Seq<char>>)) -> Seq<char> {
    path_label(entry.0) + ": "@ + joined(entry.1, "|"@)
}

/// The rows of one document's shape.
pub open spec fn schema_rows() -> spec_fn(Seq<(Seq<char>, Seq<Seq<char>>)>) -> Seq<Seq<char>> {
    |shape: Seq<(Seq<char>, Seq<Seq<char>>)>| Seq::new(shape.len(), |i: int| schema_row(shape[i]))
}

fn write_shape(rows: &mut Vec<String>, shape: &Vec<(String, Vec<String>)>)
    ensures
        final(rows).deep_view() == old(rows).deep_view() + schema_rows()(shape.deep_view()),
{
    let ghost before = rows.deep_view();
    let ghost all = shape.deep_view();
    let ghost add = schema_rows()(all);
    for i in 0..shape.len()
        invariant
            all == shape.deep_view(),
            add == schema_rows()(all),
            rows.deep_view() =~= before + add.take(i as int),
    {
        let ghost so_far = rows.deep_view();
        let (path, types) = &shape[i];
        assert(all[i as int] == (path@, types.deep_view()));
        let mut line = format_grep_path(path.as_str()).to_owned();
        line.append(": ");
        line.append(join(&borrowed(types), "|").as_str());
        assert(line@ == add[i as int]);
        rows.push(line);
        assert(rows.deep_view() =~= so_far.push(line@));
    }
    assert(add.take(add.len() as int) =~= add);
}

/// The rows of a document: those of its shape.
pub open spec fn document_shape() -> spec_fn((JsonView, Seq<(Seq<char>, Seq<char>)>)) -> Seq<Seq<char>> {
    |d: (JsonView, Seq<(Seq<char>, Seq<char>)>)| schema_rows()(shape_of(d.0, d.1))
}

/// Lists the shapes of documents, document by document: for each path, in order, the names of
/// the types that occur there, in order. With each document come the paths in it with a type that
/// occurs there, in any order.
pub fn run(args: &SchemaArgs, documents: &Vec<(Json, Vec<(String, String)>)>) -> (r: Report)
    ensures
        answers(r, gathered(documents.deep_view(), document_shape()), args.limit),
{
    let ghost all = documents.deep_view();
    let ghost f = document_shape();
    let mut rows: Vec<String> = Vec::new();
    assert(rows.deep_view() =~= gathered(all.take(0), f));
    for i in 0..documents.len()
        invariant
            all == documents.deep_view(),
            f == document_shape(),
            rows.deep_view() == gathered(all.take(i as int), f),
    {
        proof {
            gathered_step(all, f, i as int);
        }
        let (value, found) = &documents[i];
        assert(all[i as int] == (value@, found.deep_view()));
        write_shape(&mut rows, &shape(value, found));
    }
    assert(all.take(all.len() as int) =~= all);
    answer_rows(rows, args.limit)
}

proof fn in_order_ascends(texts: Seq<Seq<char>>)
    ensures
        forall|i: int, j: int|
            0 <= i < j < in_order(texts).len() ==> #[trigger] in_order(texts)[i] != #[trigger] in_order(texts)[j]
                && text_le(in_order(texts)[i], in_order(texts)[j]),
        forall|t: Seq<char>| #[trigger] in_order(texts).contains(t) == texts.contains(t),
{
    let keys = as_keys(texts);
    let all = put_all(keys);
    put_all_keeps_the_last(keys);
    assert forall|i: int, j: int| 0 <= i < j < in_order(texts).len() implies #[trigger] in_order(texts)[i]
        != #[trigger] in_order(texts)[j] && text_le(in_order(texts)[i], in_order(texts)[j]) by {
        assert(all[i].0 != all[j].0 && text_le(all[i].0, all[j].0));
    }
    assert(keys_of(keys) =~= texts);
    assert forall|t: Seq<char>| #[trigger] in_order(texts).contains(t) == texts.contains(t) by {
        look_up_finds(all, t);
        look_up_finds(keys, t);
    }
}

/// The paths of a shape ascend, each once, and so do the types of each path.
pub proof fn shapes_come_in_order(v: JsonView, found: Seq<(Seq<char>, Seq<char>)>)
    ensures
        ({
            let shape = shape_of(v, found);
            &&& keys_ascend(shape)
            &&& forall|i: int, a: int, b: int|
                0 <= i < shape.len() && 0 <= a < b < shape[i].1.len() ==> #[trigger] shape[i].1[a] != #[trigger] shape[i].1[b]
                    && text_le(shape[i].1[a], shape[i].1[b])
        }),
{
    let shape = shape_of(v, found);
    let pairs = known_types(v, found);
    let all = put_all(pairs);
    put_all_keeps_the_last(pairs);
    assert forall|i: int, j: int| 0 <= i < j < shape.len() implies (#[trigger] shape[i]).0 != (#[trigger] shape[j]).0
        && text_le(shape[i].0, shape[j].0) by {
        assert(all[i].0 != all[j].0 && text_le(all[i].0, all[j].0));
    }
    assert forall|i: int, a: int, b: int| 0 <= i < shape.len() && 0 <= a < b < shape[i].1.len() implies #[trigger] shape[i].1[a]
        != #[trigger] shape[i].1[b] && text_le(shape[i].1[a], shape[i].1[b]) by {
        in_order_ascends(gathered(pairs, type_at(shape[i].0)));
    }
}

proof fn types_gathered(pairs: Seq<(Seq<char>, Seq<char>)>, path: Seq<char>, kind: Seq<char>)
    ensures
        gathered(pairs, type_at(path)).contains(kind) == pairs.contains((path, kind)),
    decreases pairs.len(),
{
    if pairs.len() > 0 {
        let init = pairs.drop_last();
        let last = pairs.last();
        types_gathered(init, path, kind);
        let before = gathered(init, type_at(path));
        let more = type_at(path)(last);
        let out = gathered(pairs, type_at(path));
        assert(out == before + more);
        assert(pairs[pairs.len() - 1] == last);
        if out.contains(kind) {
            let k = out.index_of(kind);
            if k < before.len() {
                assert(before[k] == kind);
                let i = init.index_of((path, kind));
                assert(pairs[i] == (path, kind));
            } else {
                assert(more[k - before.len()] == kind);
            }
        }
        if pairs.contains((path, kind)) {
            let i = pairs.index_of((path, kind));
            if i < init.len() {
                assert(init[i] == (path, kind));
                let k = before.index_of(kind);
                assert(out[k] == kind);
            } else {
                assert(more[0] == kind);
                assert(out[before.len() as int] == kind);
            }
        }
    }
}

/// A shape says what is known of the document, and nothing else: a path has a type where the two
/// were found together, or the path is empty and the type is the document's own.
pub proof fn shapes_say_what_is_known(v: JsonView, found: Seq<(Seq<char>, Seq<char>)>, path: Seq<char>, kind: Seq<char>)
    ensures
        (exists|i: int|
            0 <= i < shape_of(v, found).len() && (#[trigger] shape_of(v, found)[i]).0 == path && shape_of(
                v,
                found,
            )[i].1.contains(kind)) <==> found.contains((path, kind)) || (path.len() == 0 && kind == type_text(v)),
{
    let shape = shape_of(v, found);
    let pairs = known_types(v, found);
    let all = put_all(pairs);
    let kinds = gathered(pairs, type_at(path));
    put_all_keeps_the_last(pairs);
    types_gathered(pairs, path, kind);
    in_order_ascends(kinds);
    look_up_finds(all, path);
    look_up_finds(pairs, path);
    assert(in_order(kinds).contains(kind) == kinds.contains(kind));
    assert(pairs.contains((path, kind)) <==> found.contains((path, kind)) || (path.len() == 0 && kind == type_text(v)))
        by {
        if pairs.contains((path, kind)) {
            let i = pairs.index_of((path, kind));
            if i > 0 {
                assert(found[i - 1] == (path, kind));
            }
        }
        if found.contains((path, kind)) {
            let i = found.index_of((path, kind));
            assert(pairs[i + 1] == (path, kind));
        }
        if path.len() == 0 && kind == type_text(v) {
            assert(path =~= seq![]);
            assert(pairs[0] == (path, kind));
        }
    }
    if pairs.contains((path, kind)) {
        let i = pairs.index_of((path, kind));
        assert(keys_of(pairs)[i] == path);
        assert(keys_of(all).contains(path));
        let k = keys_of(all).index_of(path);
        assert(shape[k].0 == path && shape[k].1 == in_order(kinds));
    }
}

/// The document itself comes first in its shape.
pub proof fn root_comes_first(v: JsonView, found: Seq<(Seq<char>, Seq<char>)>)
    ensures
        shape_of(v, found).len() > 0,
        shape_of(v, found)[0].0.len() == 0,
        shape_of(v, found)[0].1.contains(type_text(v)),
{
    let shape = shape_of(v, found);
    let root = Seq::<char>::empty();
    shapes_say_what_is_known(v, found, root, type_text(v));
    shapes_come_in_order(v, found);
    let i = choose|i: int|
        0 <= i < shape.len() && (#[trigger] shape[i]).0 == root && shape[i].1.contains(type_text(v));
    if i > 0 {
        assert(text_le(shape[0].0, shape[i].0) && shape[0].0 != shape[i].0);
        text_le_antisymmetric(shape[0].0, root);
    }
}

/// The part of a value at a position, with what its path adds: a dot and its name for a member,
/// brackets for an item.
pub open spec fn part_at(v: JsonView, i: int) -> Option<(Seq<char>, JsonView)> {
    match v {
        JsonView::Object(members) if 0 <= i < members.len() => Some((seq!['.'] + members[i].0, members[i].1)),
        JsonView::Array(items) if 0 <= i < items.len() => Some((seq!['[', ']'], items[i])),
        _ => None,
    }
}

/// Where positions lead from a value, one part after the other, with what their path is.
pub open spec fn led_to(v: JsonView, positions: Seq<int>) -> Option<(Seq<char>, JsonView)>
    decreases positions.len(),
{
    if positions.len() == 0 {
        Some((seq![], v))
    } else {
        match led_to(v, positions.drop_last()) {
            Some((path, w)) => match part_at(w, positions.last()) {
                Some((more, x)) => Some((path + more, x)),
                None => None,
            },
            None => None,
        }
    }
}

/// Positions that lead from a value to a part of that type at that path, within the depth.
pub open spec fn leads(v: JsonView, positions: Seq<int>, depth: Option<nat>, path: Seq<char>, kind: Seq<char>) -> bool {
    &&& positions.len() > 0
    &&& depth is Some ==> positions.len() <= depth->0
    &&& led_to(v, positions) is Some
    &&& (led_to(v, positions)->0).0 == path
    &&& type_text((led_to(v, positions)->0).1) == kind
}

proof fn led_from_the_first(v: JsonView, i: int, rest: Seq<int>)
    ensures
        led_to(v, seq![i] + rest) == match part_at(v, i) {
            Some((more, w)) => match led_to(w, rest) {
                Some((path, x)) => Some((more + path, x)),
                None => None,
            },
            None => None,
        },
    decreases rest.len(),
{
    let all = seq![i] + rest;
    let init = rest.drop_last();
    if rest.len() == 0 {
        assert(all.drop_last() =~= Seq::<int>::empty());
        assert(all.last() == i);
        assert(led_to(v, all.drop_last()) == Some((Seq::<char>::empty(), v)));
        if let Some((more, w)) = part_at(v, i) {
            assert(led_to(w, rest) == Some((Seq::<char>::empty(), w)));
            assert(led_to(v, all) == Some((Seq::<char>::empty() + more, w)));
            assert(Seq::<char>::empty() + more =~= more + Seq::<char>::empty());
        } else {
            assert(led_to(v, all) is None);
        }
    } else {
        assert(all.drop_last() =~= seq![i] + init);
        assert(all.last() == rest.last());
        led_from_the_first(v, i, init);
        if let Some((more, w)) = part_at(v, i) {
            if let Some((path, x)) = led_to(w, init) {
                assert(led_to(v, all.drop_last()) == Some((more + path, x)));
                if let Some((end, y)) = part_at(x, rest.last()) {
                    assert(led_to(v, all) == Some((more + path + end, y)));
                    assert(led_to(w, rest) == Some((path + end, y)));
                    assert(more + path + end =~= more + (path + end));
                } else {
                    assert(led_to(v, all) is None && led_to(w, rest) is None);
                }
            } else {
                assert(led_to(v, all.drop_last()) is None);
                assert(led_to(v, all) is None && led_to(w, rest) is None);
            }
        } else {
            assert(led_to(v, all.drop_last()) is None);
            assert(led_to(v, all) is None);
        }
    }
}

/// What is at and below the part at a position.
pub open spec fn types_of_part(v: JsonView, path: Seq<char>, depth: Option<nat>, i: int) -> Seq<(Seq<char>, Seq<char>)> {
    let (more, w) = part_at(v, i)->0;
    seq![(path + more, type_text(w))] + types_below(w, path + more, depth)
}

/// How many parts a value has.
pub open spec fn part_count(v: JsonView) -> int {
    match v {
        JsonView::Object(members) => members.len() as int,
        JsonView::Array(items) => items.len() as int,
        _ => 0,
    }
}

proof fn types_of_the_parts(v: JsonView, path: Seq<char>, depth: Option<nat>, pair: (Seq<char>, Seq<char>))
    ensures
        types_below(v, path, depth).contains(pair) <==> depth != Some(0nat) && exists|i: int|
            0 <= i < part_count(v) && #[trigger] types_of_part(v, path, one_less(depth), i).contains(pair),
{
    reveal_strlit(".");
    reveal_strlit("[]");
    assert("."@ =~= seq!['.']);
    assert("[]"@ =~= seq!['[', ']']);
    if depth != Some(0nat) {
        let less = one_less(depth);
        match v {
            JsonView::Object(members) => {
                let lists = member_types(members, path, less);
                assert forall|i: int| 0 <= i < members.len() implies #[trigger] lists[i] == types_of_part(v, path, less, i) by {
                    assert(path + "."@ + members[i].0 =~= path + (seq!['.'] + members[i].0));
                }
                gathered_holds(lists, itself(), pair);
                if types_below(v, path, depth).contains(pair) {
                    let i = choose|i: int| 0 <= i < lists.len() && itself()(#[trigger] lists[i]).contains(pair);
                    assert(types_of_part(v, path, less, i).contains(pair));
                }
                if exists|i: int| 0 <= i < part_count(v) && #[trigger] types_of_part(v, path, less, i).contains(pair) {
                    let i = choose|i: int|
                        0 <= i < part_count(v) && #[trigger] types_of_part(v, path, less, i).contains(pair);
                    assert(itself()(lists[i]).contains(pair));
                }
            },
            JsonView::Array(items) => {
                let lists = item_types(items, path, less);
                assert forall|i: int| 0 <= i < items.len() implies #[trigger] lists[i] == types_of_part(v, path, less, i) by {
                    assert(path + "[]"@ =~= path + seq!['[', ']']);
                }
                gathered_holds(lists, itself(), pair);
                if types_below(v, path, depth).contains(pair) {
                    let i = choose|i: int| 0 <= i < lists.len() && itself()(#[trigger] lists[i]).contains(pair);
                    assert(types_of_part(v, path, less, i).contains(pair));
                }
                if exists|i: int| 0 <= i < part_count(v) && #[trigger] types_of_part(v, path, less, i).contains(pair) {
                    let i = choose|i: int|
                        0 <= i < part_count(v) && #[trigger] types_of_part(v, path, less, i).contains(pair);
                    assert(itself()(lists[i]).contains(pair));
                }
            },
            _ => {},
        }
    }
}

proof fn parts_are_smaller(v: JsonView, i: int)
    requires
        part_at(v, i) is Some,
    ensures
        decreases_to!(v => (part_at(v, i)->0).1),
        0 <= i < part_count(v),
{
    match v {
        JsonView::Object(members) => {
            assert(decreases_to!(v => members));
            assert(decreases_to!(members => members[i]));
            assert(decreases_to!(members[i] => members[i].1));
        },
        JsonView::Array(items) => {
            assert(decreases_to!(v => items));
            assert(decreases_to!(items => items[i]));
        },
        _ => {},
    }
}

proof fn listed_is_led_to(v: JsonView, path: Seq<char>, depth: Option<nat>, pair: (Seq<char>, Seq<char>)) -> (positions: Seq<int>)
    requires
        types_below(v, path, depth).contains(pair),
    ensures
        leads(v, positions, depth, pair.0.skip(path.len() as int), pair.1),
        path.is_prefix_of(pair.0),
        path.len() < pair.0.len(),
    decreases v,
{
    types_of_the_parts(v, path, depth, pair);
    let less = one_less(depth);
    let i = choose|i: int| 0 <= i < part_count(v) && #[trigger] types_of_part(v, path, less, i).contains(pair);
    parts_are_smaller(v, i);
    let (more, w) = part_at(v, i)->0;
    let here = types_of_part(v, path, less, i);
    let k = here.index_of(pair);
    if k == 0 {
        let positions = seq![i];
        led_from_the_first(v, i, seq![]);
        assert(seq![i] + Seq::<int>::empty() =~= positions);
        assert(more + Seq::<char>::empty() =~= more);
        assert(pair.0.skip(path.len() as int) =~= more);
        assert(path =~= pair.0.subrange(0, path.len() as int));
        positions
    } else {
        let below = types_below(w, path + more, less);
        assert(below[k - 1] == pair);
        let rest = listed_is_led_to(w, path + more, less, pair);
        led_from_the_first(v, i, rest);
        let positions = seq![i] + rest;
        assert((path + more) =~= pair.0.subrange(0, (path + more).len() as int));
        assert(more + pair.0.skip((path + more).len() as int) =~= pair.0.skip(path.len() as int)) by {
            let tail = pair.0.skip(path.len() as int);
            assert forall|m: int| 0 <= m < more.len() implies tail[m] == more[m] by {
                assert((path + more)[path.len() + m] == pair.0[path.len() + m]);
            }
        }
        assert(path =~= pair.0.subrange(0, path.len() as int)) by {
            assert forall|m: int| 0 <= m < path.len() implies path[m] == pair.0[m] by {
                assert((path + more)[m] == pair.0[m]);
            }
        }
        positions
    }
}

proof fn led_to_is_listed(v: JsonView, positions: Seq<int>, depth: Option<nat>, path: Seq<char>)
    requires
        positions.len() > 0,
        depth is Some ==> positions.len() <= depth->0,
        led_to(v, positions) is Some,
    ensures
        types_below(v, path, depth).contains((path + (led_to(v, positions)->0).0, type_text((led_to(v, positions)->0).1))),
    decreases positions.len(),
{
    let i = positions[0];
    let rest = positions.drop_first();
    assert(seq![i] + rest =~= positions);
    led_from_the_first(v, i, rest);
    parts_are_smaller(v, i);
    let less = one_less(depth);
    let (more, w) = part_at(v, i)->0;
    let pair = (path + (led_to(v, positions)->0).0, type_text((led_to(v, positions)->0).1));
    let here = types_of_part(v, path, less, i);
    if rest.len() == 0 {
        assert(more + Seq::<char>::empty() =~= more);
        assert(here[0] == pair);
    } else {
        led_to_is_listed(w, rest, less, path + more);
        let (end, x) = led_to(w, rest)->0;
        assert(path + more + end =~= path + (more + end));
        let below = types_below(w, path + more, less);
        assert(below.contains(pair));
        let k = below.index_of(pair);
        assert(here[k + 1] == pair);
    }
    assert(types_of_part(v, path, less, i).contains(pair));
    types_of_the_parts(v, path, depth, pair);
}

/// Every part of a document within the depth is listed with its type, under the path that is made
/// of a dot and a name for each member and of brackets for each item on the way to it, and nothing
/// else is listed.
pub proof fn every_part_is_listed(v: JsonView, depth: Option<nat>, path: Seq<char>, kind: Seq<char>)
    ensures
        types_below(v, seq![], depth).contains((path, kind)) <==> exists|positions: Seq<int>| #[trigger]
            leads(v, positions, depth, path, kind),
{
    if types_below(v, seq![], depth).contains((path, kind)) {
        let positions = listed_is_led_to(v, seq![], depth, (path, kind));
        assert(path.skip(0) =~= path);
        assert(leads(v, positions, depth, path, kind));
    }
    if exists|positions: Seq<int>| #[trigger] leads(v, positions, depth, path, kind) {
        let positions = choose|positions: Seq<int>| #[trigger] leads(v, positions, depth, path, kind);
        led_to_is_listed(v, positions, depth, seq![]);
        assert(Seq::<char>::empty() + path =~= path);
    }
}

/// The paths below a value start with the path of the value and go on from there.
pub proof fn paths_go_on_from_above(v: JsonView, path: Seq<char>, depth: Option<nat>, pair: (Seq<char>, Seq<char>))
    requires
        types_below(v, path, depth).contains(pair),
    ensures
        path.is_prefix_of(pair.0),
        path.len() < pair.0.len(),
{
    let _ = listed_is_led_to(v, path, depth, pair);
}

} // verus!
