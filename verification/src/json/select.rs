//! Chosen parts of objects.
use crate::fields::{
    keys_ascend, keys_differ, look_up, look_up_finds, order_of_putting_does_not_matter, put_all,
    put_all_keeps_the_last, rearranged_pairs, FieldMap,
};
use crate::format::{compact, pretty, write_compact, write_pretty};
use crate::gather::{gathered, gathered_step};
use crate::order::views;
use crate::output::{answer_rows, answers, Error, Report};
use crate::path::{
    bad_path, first_bad, resolve_expression, resolved, token_text, unescape_pointer_token, unescaped,
};
use crate::text::{cut, cut_at_the_first, owned, pieces, pieces_add, same, split, split_once, trim, trimmed};
use crate::value::{Json, JsonView};
use vstd::prelude::*;
use vstd::string::*;

verus! {

/// The arguments of the command.
#[derive(Debug)]
pub struct SelectArgs {
    /// The parts, commas between them: each a path, or a name and a path.
    pub paths: String,
    pub files: Vec<String>,
    /// Shows what is missing as null.
    pub null_missing: bool,
    pub compact: bool,
    pub pretty: bool,
    pub lines: bool,
    pub limit: Option<usize>,
}

/// A part: the name that it is shown under and its path.
#[derive(Debug, PartialEq)]
pub struct Field {
    pub alias: String,
    pub path: String,
}

impl View for Field {
    /// The name and the path.
    type V = (Seq<char>, Seq<char>);

    open spec fn view(&self) -> (Seq<char>, Seq<char>) {
        (self.alias@, self.path@)
    }
}

/// The last of the pieces that is not empty; the empty text where there is none.
pub open spec fn last_filled(parts: Seq<Seq<char>>) -> Seq<char>
    decreases parts.len(),
{
    if parts.len() == 0 {
        seq![]
    } else if parts.last().len() > 0 {
        parts.last()
    } else {
        last_filled(parts.drop_last())
    }
}

/// The name that a path gives itself: its last segment. None where it ends in an index or has
/// no segment.
pub open spec fn own_name(path: Seq<char>) -> Option<Seq<char>> {
    if path.len() > 0 && path[0] == '/' {
        let last = pieces(path.skip(1), '/').last();
        if last.len() == 0 {
            None
        } else {
            Some(token_text(last))
        }
    } else if path.len() > 0 && path.last() == ']' {
        None
    } else {
        let last = last_filled(pieces(path, '.'));
        if last.len() == 0 {
            None
        } else {
            Some(last)
        }
    }
}

/// Why a path is refused that gives itself no name.
pub open spec fn nameless(path: Seq<char>) -> Seq<char> {
    "cannot derive output key from '"@ + path + "' — use '<alias>=<path>'"@
}

fn find_last_filled<'a>(parts: &Vec<&'a str>) -> (r: &'a str)
    ensures
        r@ == last_filled(parts.deep_view()),
{
    let ghost all = parts.deep_view();
    let mut i: usize = parts.len();
    assert(all.take(i as int) =~= all);
    while i > 0
        invariant
            all == parts.deep_view(),
            i <= parts@.len(),
            last_filled(all) == last_filled(all.take(i as int)),
        decreases i,
    {
        assert(all.take(i as int).drop_last() =~= all.take(i - 1));
        assert(all.take(i as int).last() == parts@[i - 1]@);
        i -= 1;
        if !parts[i].is_empty() {
            return parts[i];
        }
    }
    proof {
        reveal_strlit("");
        assert(""@ =~= seq![]);
    }
    ""
}

/// The name that a path gives itself.
pub fn default_alias(path: &str) -> (r: Result<String, Error>)
    ensures
        match r {
            Ok(name) => own_name(path@) == Some(name@),
            Err(e) => own_name(path@) is None && e.message@ == nameless(path@),
        },
{
    let n = path.unicode_len();
    if n > 0 && path.get_char(0) == '/' {
        let rest = path.substring_char(1, n);
        assert(rest@ =~= path@.skip(1));
        let parts = split(rest, '/');
        let last = parts[parts.len() - 1];
        assert(parts.deep_view().last() == last@);
        if !last.is_empty() {
            return Ok(unescape_pointer_token(last));
        }
    } else if n > 0 && path.get_char(n - 1) == ']' {
    } else {
        let parts = split(path, '.');
        let last = find_last_filled(&parts);
        if !last.is_empty() {
            return Ok(last.to_owned());
        }
    }
    let mut message = "cannot derive output key from '".to_owned();
    message.append(path);
    message.append("' — use '<alias>=<path>'");
    Err(Error { message })
}

/// The part that one entry writes, or what is wrong with it.
pub open spec fn field_of(raw: Seq<char>) -> Result<(Seq<char>, Seq<char>), Seq<char>> {
    let part = trimmed(raw);
    if part.len() == 0 {
        Err("empty path in --paths spec"@)
    } else {
        match cut(part, '=') {
            Some((alias, path)) => if trimmed(alias).len() == 0 {
                Err("empty alias in '"@ + part + "'"@)
            } else if trimmed(path).len() == 0 {
                Err("empty path after '=' in '"@ + part + "'"@)
            } else {
                Ok((trimmed(alias), trimmed(path)))
            },
            None => match own_name(part) {
                Some(name) => Ok((name, part)),
                None => Err(nameless(part)),
            },
        }
    }
}

/// Whether a part of that name is among the parts.
pub open spec fn has_alias(fields: Seq<(Seq<char>, Seq<char>)>, alias: Seq<char>) -> bool {
    exists|i: int| 0 <= i < fields.len() && (#[trigger] fields[i]).0 == alias
}

/// The parts that entries write, or what is wrong with the first that is not one or has the name
/// of an earlier one.
pub open spec fn fields_of(entries: Seq<Seq<char>>) -> Result<Seq<(Seq<char>, Seq<char>)>, Seq<char>>
    decreases entries.len(),
{
    if entries.len() == 0 {
        Ok(seq![])
    } else {
        match fields_of(entries.drop_last()) {
            Err(m) => Err(m),
            Ok(before) => match field_of(entries.last()) {
                Err(m) => Err(m),
                Ok(field) => if has_alias(before, field.0) {
                    Err("duplicate output key '"@ + field.0 + "' — disambiguate with '<alias>=<path>'"@)
                } else {
                    Ok(before.push(field))
                },
            },
        }
    }
}

proof fn fields_fault_stays(entries: Seq<Seq<char>>, i: int)
    requires
        0 <= i <= entries.len(),
        fields_of(entries.take(i)) is Err,
    ensures
        fields_of(entries) == fields_of(entries.take(i)),
    decreases entries.len() - i,
{
    if i < entries.len() {
        assert(entries.take(i + 1).drop_last() =~= entries.take(i));
        fields_fault_stays(entries, i + 1);
    } else {
        assert(entries.take(i) =~= entries);
    }
}

/// Parts have names that differ from each other and are not empty.
pub proof fn aliases_are_distinct(entries: Seq<Seq<char>>)
    requires
        fields_of(entries) is Ok,
    ensures
        ({
            let fields = fields_of(entries)->Ok_0;
            &&& fields.len() == entries.len()
            &&& forall|i: int| 0 <= i < fields.len() ==> (#[trigger] fields[i]).0.len() > 0
            &&& forall|i: int, j: int| 0 <= i < j < fields.len() ==> (#[trigger] fields[i]).0 != (#[trigger] fields[j]).0
        }),
    decreases entries.len(),
{
    if entries.len() > 0 {
        aliases_are_distinct(entries.drop_last());
        if trimmed(entries.last()).len() > 0 {
            let last = pieces(trimmed(entries.last()).skip(1), '/').last();
            if last.len() > 0 {
                assert(unescaped(last, '1', '/').len() > 0);
                assert(token_text(last).len() > 0);
            }
        }
        let before = fields_of(entries.drop_last())->Ok_0;
        let fields = fields_of(entries)->Ok_0;
        assert forall|i: int, j: int| 0 <= i < j < fields.len() implies (#[trigger] fields[i]).0 != (
        #[trigger] fields[j]).0 by {
            assert(fields[i] == before[i]);
            if j < before.len() {
                assert(fields[j] == before[j]);
            }
        }
    }
}

fn parse_field(raw: &str) -> (r: Result<Field, Error>)
    ensures
        match r {
            Ok(f) => field_of(raw@) == Ok::<(Seq<char>, Seq<char>), Seq<char>>(f@),
            Err(e) => field_of(raw@) == Err::<(Seq<char>, Seq<char>), Seq<char>>(e.message@),
        },
{
    let part = trim(raw);
    if part.is_empty() {
        return Err(Error { message: "empty path in --paths spec".to_owned() });
    }
    match split_once(part, '=') {
        Some((left, right)) => {
            let alias = trim(left);
            let path = trim(right);
            if alias.is_empty() {
                let mut message = "empty alias in '".to_owned();
                message.append(part);
                message.append("'");
                return Err(Error { message });
            }
            if path.is_empty() {
                let mut message = "empty path after '=' in '".to_owned();
                message.append(part);
                message.append("'");
                return Err(Error { message });
            }
            Ok(Field { alias: alias.to_owned(), path: path.to_owned() })
        },
        None => match default_alias(part) {
            Ok(alias) => Ok(Field { alias, path: part.to_owned() }),
            Err(e) => Err(e),
        },
    }
}

fn is_taken(fields: &Vec<Field>, alias: &str) -> (r: bool)
    ensures
        r == has_alias(views(fields@), alias@),
{
    for i in 0..fields.len()
        invariant
            forall|k: int| 0 <= k < i ==> (#[trigger] views(fields@)[k]).0 != alias@,
    {
        assert(views(fields@)[i as int] == fields@[i as int]@);
        if same(fields[i].alias.as_str(), alias) {
            return true;
        }
    }
    false
}

/// Reads the parts, commas between them.
pub fn parse_fields(spec_text: &str) -> (r: Result<Vec<Field>, Error>)
    ensures
        match r {
            Ok(fields) => fields_of(pieces(spec_text@, ',')) == Ok::<Seq<(Seq<char>, Seq<char>)>, Seq<char>>(
                views(fields@),
            ),
            Err(e) => fields_of(pieces(spec_text@, ',')) == Err::<Seq<(Seq<char>, Seq<char>)>, Seq<char>>(
                e.message@,
            ),
        },
{
    let entries = split(spec_text, ',');
    let ghost all = pieces(spec_text@, ',');
    let mut out: Vec<Field> = Vec::new();
    assert(all.take(0) =~= seq![]);
    assert(views(out@) =~= seq![]);
    for i in 0..entries.len()
        invariant
            all == pieces(spec_text@, ','),
            entries.deep_view() == all,
            fields_of(all.take(i as int)) == Ok::<Seq<(Seq<char>, Seq<char>)>, Seq<char>>(views(out@)),
    {
        let ghost before = views(out@);
        proof {
            assert(all.take(i + 1).drop_last() =~= all.take(i as int));
            assert(all.take(i + 1).last() == entries@[i as int]@);
        }
        let field = match parse_field(entries[i]) {
            Ok(field) => field,
            Err(e) => {
                proof {
                    fields_fault_stays(all, i + 1);
                }
                return Err(e);
            },
        };
        if is_taken(&out, field.alias.as_str()) {
            let mut message = "duplicate output key '".to_owned();
            message.append(field.alias.as_str());
            message.append("' — disambiguate with '<alias>=<path>'");
            proof {
                fields_fault_stays(all, i + 1);
            }
            return Err(Error { message });
        }
        out.push(field);
        assert(views(out@) =~= before.push(field@));
    }
    assert(entries.deep_view().len() == entries@.len());
    assert(all.take(all.len() as int) =~= all);
    Ok(out)
}

/// The part of a value: none where it is missing, unless that is to be shown as null.
pub open spec fn part_of(v: JsonView, null_missing: bool) -> spec_fn((Seq<char>, Seq<char>)) -> Seq<
    (Seq<char>, JsonView),
> {
    |field: (Seq<char>, Seq<char>)|
        match resolved(v, field.1) {
            Some(found) => seq![(field.0, found)],
            None => if null_missing {
                seq![(field.0, JsonView::Null)]
            } else {
                seq![]
            },
        }
}

/// The parts of a value by name.
pub open spec fn projected(v: JsonView, fields: Seq<(Seq<char>, Seq<char>)>, null_missing: bool) -> Seq<
    (Seq<char>, JsonView),
> {
    put_all(gathered(fields, part_of(v, null_missing)))
}

/// The parts of a value by name.
pub fn project(value: &Json, fields: &Vec<Field>, null_missing: bool) -> (r: Result<FieldMap<Json>, Error>)
    ensures
        match r {
            Ok(map) => first_bad(views(fields@)) is None && map@ == projected(value@, views(fields@), null_missing),
            Err(e) => first_bad(views(fields@)) is Some && e.message@ == bad_path(first_bad(views(fields@))->0),
        },
{
    let ghost all = views(fields@);
    let ghost f = part_of(value@, null_missing);
    let mut map: FieldMap<Json> = FieldMap::new();
    assert(gathered(all.take(0), f) =~= seq![]);
    assert(all.skip(0) =~= all);
    for i in 0..fields.len()
        invariant
            all == views(fields@),
            f == part_of(value@, null_missing),
            first_bad(all) == first_bad(all.skip(i as int)),
            map@ == put_all(gathered(all.take(i as int), f)),
    {
        let ghost so_far = gathered(all.take(i as int), f);
        proof {
            gathered_step(all, f, i as int);
            assert(all[i as int] == fields@[i as int]@);
            assert(all.skip(i as int)[0] == all[i as int]);
            assert(all.skip(i as int).drop_first() =~= all.skip(i + 1));
            assert(so_far + seq![] =~= so_far);
        }
        match resolve_expression(value, fields[i].path.as_str()) {
            Ok(Some(v)) => {
                let ghost pair = (fields@[i as int].alias@, v@);
                assert((so_far + seq![pair]).drop_last() =~= so_far);
                map.insert(fields[i].alias.clone(), v.copy());
            },
            Ok(None) => {
                if null_missing {
                    let ghost pair = (fields@[i as int].alias@, JsonView::Null);
                    assert((so_far + seq![pair]).drop_last() =~= so_far);
                    map.insert(fields[i].alias.clone(), Json::Null);
                }
            },
            Err(e) => {
                return Err(e);
            },
        }
    }
    assert(all.take(all.len() as int) =~= all);
    Ok(map)
}

/// An object as text.
pub open spec fn object_text(members: Seq<(Seq<char>, JsonView)>, is_pretty: bool) -> Seq<char> {
    if is_pretty {
        pretty(JsonView::Object(members), ""@)
    } else {
        compact(JsonView::Object(members))
    }
}

/// The lines of one document: those of its parts, where it is an object that has any, or where
/// what is missing is shown as null.
pub open spec fn selected_rows(
    fields: Seq<(Seq<char>, Seq<char>)>,
    null_missing: bool,
    is_pretty: bool,
) -> spec_fn((Seq<char>, JsonView)) -> Seq<Seq<char>> {
    |input: (Seq<char>, JsonView)|
        {
            let parts = projected(input.1, fields, null_missing);
            if input.1 is Object && (parts.len() > 0 || null_missing) {
                pieces(object_text(parts, is_pretty), '\n')
            } else {
                seq![]
            }
        }
}

fn write_object(map: FieldMap<Json>, is_pretty: bool) -> (r: String)
    ensures
        r@ == object_text(map@, is_pretty),
{
    let v = Json::Object(map.entries);
    assert(v@->Object_0 =~= map@);
    if is_pretty {
        write_pretty(&v, "")
    } else {
        write_compact(&v)
    }
}

/// Whether there is an object to look paths up in.
pub open spec fn has_object(inputs: Seq<(Seq<char>, JsonView)>) -> bool {
    exists|i: int| 0 <= i < inputs.len() && (#[trigger] inputs[i]).1 is Object
}

/// Shows the chosen parts of each document that is an object.
pub fn run(args: &SelectArgs, inputs: &Vec<(String, Json)>) -> (r: Result<Report, Error>)
    ensures
        match fields_of(pieces(args.paths@, ',')) {
            Err(m) => r is Err && r->Err_0.message@ == m,
            Ok(fields) => if has_object(inputs.deep_view()) && first_bad(fields) is Some {
                r is Err && r->Err_0.message@ == bad_path(first_bad(fields)->0)
            } else {
                r is Ok && answers(
                    r->Ok_0,
                    gathered(inputs.deep_view(), selected_rows(fields, args.null_missing, args.pretty)),
                    args.limit,
                )
            },
        },
{
    let fields = match parse_fields(args.paths.as_str()) {
        Ok(fields) => fields,
        Err(e) => {
            return Err(e);
        },
    };
    let ghost chosen = views(fields@);
    let ghost all = inputs.deep_view();
    let ghost f = selected_rows(chosen, args.null_missing, args.pretty);
    let mut rows: Vec<String> = Vec::new();
    assert(rows.deep_view() =~= gathered(all.take(0), f));
    for i in 0..inputs.len()
        invariant
            all == inputs.deep_view(),
            chosen == views(fields@),
            fields_of(pieces(args.paths@, ',')) == Ok::<Seq<(Seq<char>, Seq<char>)>, Seq<char>>(chosen),
            f == selected_rows(chosen, args.null_missing, args.pretty),
            rows.deep_view() == gathered(all.take(i as int), f),
            first_bad(chosen) is Some ==> forall|k: int| 0 <= k < i ==> !((#[trigger] all[k]).1 is Object),
    {
        proof {
            gathered_step(all, f, i as int);
        }
        let ghost before = rows.deep_view();
        let value = &inputs[i].1;
        assert(all[i as int].1 == value@);
        assert(before + seq![] =~= before);
        if value.as_object().is_some() {
            match project(value, &fields, args.null_missing) {
                Ok(map) => {
                    if map.entries.len() > 0 || args.null_missing {
                        let text = write_object(map, args.pretty);
                        let mut more = owned(&split(text.as_str(), '\n'));
                        let ghost added = more.deep_view();
                        rows.append(&mut more);
                        assert(rows.deep_view() =~= before + added);
                    }
                },
                Err(e) => {
                    assert(all[i as int].1 is Object);
                    return Err(e);
                },
            }
        }
    }
    assert(all.take(all.len() as int) =~= all);
    Ok(answer_rows(rows, args.limit))
}

/// The parts of a value come in the order of their names, each once.
pub proof fn parts_come_by_name(v: JsonView, fields: Seq<(Seq<char>, Seq<char>)>, null_missing: bool)
    ensures
        keys_ascend(projected(v, fields, null_missing)),
{
    put_all_keeps_the_last(gathered(fields, part_of(v, null_missing)));
}

/// The parts that are gathered have the names of their fields.
proof fn gathered_parts(v: JsonView, fields: Seq<(Seq<char>, Seq<char>)>, null_missing: bool)
    requires
        keys_differ(fields),
    ensures
        ({
            let f = part_of(v, null_missing);
            let parts = gathered(fields, f);
            &&& keys_differ(parts)
            &&& forall|p: (Seq<char>, JsonView)| #[trigger]
                parts.contains(p) <==> exists|i: int| 0 <= i < fields.len() && f(#[trigger] fields[i]).contains(p)
        }),
    decreases fields.len(),
{
    let f = part_of(v, null_missing);
    let parts = gathered(fields, f);
    if fields.len() > 0 {
        let init = fields.drop_last();
        let last = fields.last();
        assert(fields[fields.len() - 1] == last);
        assert(keys_differ(init)) by {
            assert forall|i: int, j: int| 0 <= i < j < init.len() implies (#[trigger] init[i]).0 != (#[trigger] init[j]).0 by {
                assert(fields[i].0 != fields[j].0);
            }
        }
        gathered_parts(v, init, null_missing);
        let before = gathered(init, f);
        let more = f(last);
        assert(parts == before + more);
        assert forall|p: (Seq<char>, JsonView)| #[trigger] parts.contains(p) <==> exists|i: int|
            0 <= i < fields.len() && f(#[trigger] fields[i]).contains(p) by {
            if parts.contains(p) {
                let k = parts.index_of(p);
                if k < before.len() {
                    assert(before[k] == p);
                    assert(before.contains(p));
                    let i = choose|i: int| 0 <= i < init.len() && f(#[trigger] init[i]).contains(p);
                    assert(f(fields[i]).contains(p));
                } else {
                    assert(more[k - before.len()] == p);
                    assert(f(fields[fields.len() - 1]).contains(p));
                }
            }
            if exists|i: int| 0 <= i < fields.len() && f(#[trigger] fields[i]).contains(p) {
                let i = choose|i: int| 0 <= i < fields.len() && f(#[trigger] fields[i]).contains(p);
                if i < init.len() {
                    assert(f(init[i]).contains(p));
                    assert(before.contains(p));
                    let k = before.index_of(p);
                    assert(parts[k] == p);
                } else {
                    let k = more.index_of(p);
                    assert(parts[before.len() + k] == p);
                }
            }
        }
        assert forall|i: int, j: int| 0 <= i < j < parts.len() implies (#[trigger] parts[i]).0 != (#[trigger] parts[j]).0 by {
            if j < before.len() {
                assert(parts[i] == before[i] && parts[j] == before[j]);
            } else {
                assert(more.len() <= 1 && parts[j] == more[0] && more[0].0 == last.0);
                assert(parts[i] == before[i]);
                assert(before.contains(before[i]));
                let k = choose|k: int| 0 <= k < init.len() && f(#[trigger] init[k]).contains(before[i]);
                assert(before[i].0 == init[k].0);
                assert(fields[k].0 != fields[fields.len() - 1].0);
            }
        }
    }
}

/// The order in which parts are asked for does not matter.
pub proof fn order_of_fields_does_not_matter(
    v: JsonView,
    a: Seq<(Seq<char>, Seq<char>)>,
    b: Seq<(Seq<char>, Seq<char>)>,
    null_missing: bool,
)
    requires
        keys_differ(a),
        a.to_multiset() == b.to_multiset(),
    ensures
        projected(v, a, null_missing) == projected(v, b, null_missing),
{
    let f = part_of(v, null_missing);
    rearranged_pairs(a, b);
    gathered_parts(v, a, null_missing);
    gathered_parts(v, b, null_missing);
    let x = gathered(a, f);
    let y = gathered(b, f);
    assert forall|p: (Seq<char>, JsonView)| #[trigger] x.contains(p) == y.contains(p) by {
        if x.contains(p) {
            let i = choose|i: int| 0 <= i < a.len() && f(#[trigger] a[i]).contains(p);
            assert(a.contains(a[i]));
            let j = b.index_of(a[i]);
            assert(f(b[j]).contains(p));
        }
        if y.contains(p) {
            let i = choose|i: int| 0 <= i < b.len() && f(#[trigger] b[i]).contains(p);
            assert(b.contains(b[i]));
            assert(a.contains(b[i]));
            let j = a.index_of(b[i]);
            assert(f(a[j]).contains(p));
        }
    }
    order_of_putting_does_not_matter(x, y);
}

/// Under the name of each part stands the value that its path leads to. Where it leads nowhere there
/// is no such part, or null where that is asked for; and there are no parts but those.
pub proof fn parts_are_where_the_paths_lead(
    v: JsonView,
    fields: Seq<(Seq<char>, Seq<char>)>,
    null_missing: bool,
    i: int,
    k: Seq<char>,
)
    requires
        keys_differ(fields),
    ensures
        0 <= i < fields.len() ==> look_up(projected(v, fields, null_missing), fields[i].0) == match resolved(
            v,
            fields[i].1,
        ) {
            Some(w) => Some(w),
            None => if null_missing {
                Some(JsonView::Null)
            } else {
                None
            },
        },
        (forall|j: int| 0 <= j < fields.len() ==> (#[trigger] fields[j]).0 != k) ==> look_up(
            projected(v, fields, null_missing),
            k,
        ) is None,
{
    let f = part_of(v, null_missing);
    let parts = gathered(fields, f);
    gathered_parts(v, fields, null_missing);
    put_all_keeps_the_last(parts);
    if 0 <= i < fields.len() {
        let name = fields[i].0;
        look_up_finds(parts, name);
        if f(fields[i]).len() > 0 {
            let p = f(fields[i])[0];
            assert(f(fields[i]).contains(p));
            assert(parts.contains(p));
            assert(p == (name, p.1));
        } else if look_up(parts, name) is Some {
            let p = (name, look_up(parts, name)->0);
            assert(parts.contains(p));
            let j = choose|j: int| 0 <= j < fields.len() && f(#[trigger] fields[j]).contains(p);
            assert(fields[j].0 == name);
            if j < i {
                assert(fields[j].0 != fields[i].0);
            } else if i < j {
                assert(fields[i].0 != fields[j].0);
            }
        }
    }
    if forall|j: int| 0 <= j < fields.len() ==> (#[trigger] fields[j]).0 != k {
        look_up_finds(parts, k);
        if look_up(parts, k) is Some {
            let p = (k, look_up(parts, k)->0);
            assert(parts.contains(p));
            let j = choose|j: int| 0 <= j < fields.len() && f(#[trigger] fields[j]).contains(p);
            assert(fields[j].0 == k);
        }
    }
}

/// A part is named before the first `=`; without one it is named by the last segment of its path,
/// a pointer's with its escapes undone.
pub proof fn parts_are_named_or_name_themselves(alias: Seq<char>, path: Seq<char>, head: Seq<char>, key: Seq<char>)
    requires
        !alias.contains('='),
        trimmed(alias) == alias && trimmed(path) == path,
        trimmed(alias + seq!['='] + path) == alias + seq!['='] + path,
        key.len() > 0,
        !key.contains('.') && key.last() != ']',
        head.len() > 0 ==> head[0] != '/',
    ensures
        alias.len() > 0 && path.len() > 0 ==> field_of(alias + seq!['='] + path) == Ok::<
            (Seq<char>, Seq<char>),
            Seq<char>,
        >((alias, path)),
        alias.len() == 0 || path.len() == 0 ==> field_of(alias + seq!['='] + path) is Err,
        own_name(head + seq!['.'] + key) == Some(key),
        !key.contains('/') ==> own_name(seq!['/'] + head + seq!['/'] + key) == Some(token_text(key)),
        own_name(seq!['.']) is None,
        own_name(head + seq!['.'] + key + seq!['[', '0', ']']) is None,
{
    cut_at_the_first(alias, path, '=');
    let dotted = head + seq!['.'] + key;
    pieces_add(head, key, '.');
    assert(dotted.last() == key.last());
    assert(dotted[0] != '/') by {
        if head.len() > 0 {
            assert(dotted[0] == head[0]);
        }
    }
    if !key.contains('/') {
        let pointed = seq!['/'] + head + seq!['/'] + key;
        assert(pointed.skip(1) =~= head + seq!['/'] + key);
        pieces_add(head, key, '/');
    }
    let dot = seq!['.'];
    let none = Seq::<char>::empty();
    assert(dot.drop_last() =~= none);
    assert(dot.last() == '.');
    assert(pieces(none, '.') =~= seq![none]);
    assert(pieces(dot, '.') =~= seq![none, none]);
    assert(seq![none, none].drop_last() =~= seq![none]);
    assert(seq![none].drop_last() =~= Seq::<Seq<char>>::empty());
    assert(last_filled(Seq::<Seq<char>>::empty()).len() == 0);
    assert(last_filled(seq![none]).len() == 0);
    assert(last_filled(seq![none, none]).len() == 0);
    let indexed = head + seq!['.'] + key + seq!['[', '0', ']'];
    assert(indexed.last() == ']');
    assert(indexed[0] == dotted[0]);
}

} // verus!
