//! Arrays of objects as tables.
use super::{reach_count, reached};
use crate::format::{compact, format_value, formatted};
use crate::gather::{gathered_or, gathered_or_holds, gathered_or_step};
use crate::output::{
    collapse_ws, collapsed_stays_in_its_row, found_if, in_one_field, BoundedWriter, Error, Outcome, Page, Report,
};
use crate::path::{bad_path, resolve_expression, resolved, steps};
use crate::text::{
    borrowed, joined, joined_splits_back, pieces, quote, quoted, row, row_splits_back, split, trim, trimmed,
    write_row,
};
use crate::value::{opt, type_label, type_text, Json, JsonView};
use vstd::prelude::*;
use vstd::string::*;

verus! {

/// The arguments of the command.
#[derive(Debug)]
pub struct TableArgs {
    pub array_path: String,
    pub files: Vec<String>,
    /// The paths of the columns, commas between them.
    pub fields: String,
    pub header: bool,
    /// What stands for a missing value.
    pub missing: String,
    pub lines: bool,
    pub limit: Option<usize>,
}

/// The path that one entry writes.
pub open spec fn field_of() -> spec_fn(Seq<char>) -> Result<Seq<Seq<char>>, Seq<char>> {
    |raw: Seq<char>|
        if trimmed(raw).len() == 0 {
            Err("empty field in --fields spec"@)
        } else {
            Ok(seq![trimmed(raw)])
        }
}

/// The paths of the columns, or that one of them is empty.
pub open spec fn fields_of(text: Seq<char>) -> Result<Seq<Seq<char>>, Seq<char>> {
    gathered_or(pieces(text, ','), field_of())
}

/// Reads the paths of the columns, commas between them.
pub fn parse_fields(text: &str) -> (r: Result<Vec<String>, Error>)
    ensures
        match r {
            Ok(fields) => fields_of(text@) == Ok::<Seq<Seq<char>>, Seq<char>>(fields.deep_view()) && fields@.len() > 0,
            Err(e) => fields_of(text@) == Err::<Seq<Seq<char>>, Seq<char>>(e.message@),
        },
{
    let entries = split(text, ',');
    let ghost all = pieces(text@, ',');
    let ghost f = field_of();
    let mut out: Vec<String> = Vec::new();
    assert(all.take(0) =~= seq![]);
    assert(out.deep_view() =~= seq![]);
    for i in 0..entries.len()
        invariant
            all == pieces(text@, ','),
            entries.deep_view() == all,
            f == field_of(),
            out@.len() == i,
            gathered_or(all.take(i as int), f) == Ok::<Seq<Seq<char>>, Seq<char>>(out.deep_view()),
    {
        proof {
            gathered_or_step(all, f, i as int);
            assert(entries@[i as int]@ == all[i as int]);
        }
        let ghost before = out.deep_view();
        let part = trim(entries[i]);
        if part.is_empty() {
            return Err(Error { message: "empty field in --fields spec".to_owned() });
        }
        out.push(part.to_owned());
        assert(out.deep_view() =~= before + seq![part@]);
    }
    assert(entries.deep_view().len() == entries@.len());
    assert(all.take(all.len() as int) =~= all);
    Ok(out)
}

/// A value as one cell: `missing` for none and for null, a text as it is, anything else on one
/// line; tabs and line ends become spaces.
pub open spec fn cell(v: Option<JsonView>, missing: Seq<char>) -> Seq<char> {
    match v {
        None => missing,
        Some(JsonView::Null) => missing,
        Some(v) => in_one_field(formatted(v, true, false)),
    }
}

/// A value as one cell.
pub fn render_cell(value: Option<&Json>, missing: &str) -> (r: String)
    ensures
        r@ == cell(opt(value), missing@),
{
    match value {
        None => missing.to_owned(),
        Some(v) => if v.is_null() {
            missing.to_owned()
        } else {
            let text = format_value(v, true, false);
            collapse_ws(text.as_str())
        },
    }
}

/// Whether a value has parts.
pub open spec fn has_parts(v: JsonView) -> bool {
    v is Object || v is Array
}

/// The cell of one column.
pub open spec fn cell_at(v: JsonView, missing: Seq<char>) -> spec_fn(Seq<char>) -> Result<Seq<Seq<char>>, Seq<char>> {
    |field: Seq<char>|
        if steps(field) is None {
            Err(bad_path(field))
        } else {
            Ok(seq![cell(resolved(v, field), missing)])
        }
}

/// The cells of an element, one per column. An element without parts stands in the first column
/// and is missing in the others.
pub open spec fn cells(v: JsonView, fields: Seq<Seq<char>>, missing: Seq<char>) -> Result<Seq<Seq<char>>, Seq<char>> {
    if has_parts(v) {
        gathered_or(fields, cell_at(v, missing))
    } else {
        Ok(
            Seq::new(
                fields.len(),
                |i: int|
                    if i == 0 {
                        cell(Some(v), missing)
                    } else {
                        missing
                    },
            ),
        )
    }
}

/// The cells of an element, one per column.
pub fn project_row(element: &Json, fields: &Vec<String>, missing: &str) -> (r: Result<Vec<String>, Error>)
    requires
        fields@.len() > 0 || has_parts(element@),
    ensures
        match r {
            Ok(out) => cells(element@, fields.deep_view(), missing@) == Ok::<Seq<Seq<char>>, Seq<char>>(
                out.deep_view(),
            ),
            Err(e) => cells(element@, fields.deep_view(), missing@) == Err::<Seq<Seq<char>>, Seq<char>>(e.message@),
        },
{
    let ghost all = fields.deep_view();
    let mut out: Vec<String> = Vec::new();
    if element.as_object().is_none() && element.as_array().is_none() {
        out.push(render_cell(Some(element), missing));
        let n = fields.len();
        let ghost want = cells(element@, all, missing@)->Ok_0;
        for i in 1..n
            invariant
                n >= 1,
                n == all.len(),
                want == cells(element@, all, missing@)->Ok_0,
                !has_parts(element@),
                out.deep_view() =~= want.take(i as int),
        {
            let ghost before = out.deep_view();
            out.push(missing.to_owned());
            assert(out.deep_view() =~= before.push(missing@));
        }
        assert(want.take(n as int) =~= want);
        return Ok(out);
    }
    let ghost f = cell_at(element@, missing@);
    assert(all.take(0) =~= seq![]);
    assert(out.deep_view() =~= seq![]);
    for i in 0..fields.len()
        invariant
            all == fields.deep_view(),
            has_parts(element@),
            f == cell_at(element@, missing@),
            gathered_or(all.take(i as int), f) == Ok::<Seq<Seq<char>>, Seq<char>>(out.deep_view()),
    {
        proof {
            gathered_or_step(all, f, i as int);
            assert(fields@[i as int]@ == all[i as int]);
        }
        let ghost before = out.deep_view();
        match resolve_expression(element, fields[i].as_str()) {
            Ok(found) => {
                let t = render_cell(found, missing);
                out.push(t);
                assert(out.deep_view() =~= before + seq![t@]);
            },
            Err(e) => {
                return Err(e);
            },
        }
    }
    assert(all.take(all.len() as int) =~= all);
    Ok(out)
}

/// The elements of a document: the value at the path where each document is an element, else
/// the items of the array there. Or what is wrong with it.
pub open spec fn elements_of(path: Seq<char>, by_line: bool) -> spec_fn((Seq<char>, JsonView)) -> Result<
    Seq<JsonView>,
    Seq<char>,
> {
    |input: (Seq<char>, JsonView)|
        if steps(path) is None {
            Err(bad_path(path))
        } else {
            match resolved(input.1, path) {
                None => Err("path "@ + quoted(path) + " did not resolve in "@ + input.0),
                Some(v) => if by_line {
                    Ok(seq![v])
                } else {
                    match v.items() {
                        Some(items) => Ok(items),
                        None => Err(
                            "expected a JSON array at "@ + quoted(path) + " in "@ + input.0 + ", found "@ + type_text(v),
                        ),
                    }
                },
            }
        }
}

/// The elements of documents, or what is wrong with the first that has none.
pub fn find_elements<'a>(inputs: &'a Vec<(String, Json)>, path: &str, by_line: bool) -> (r: Result<
    Vec<&'a Json>,
    Error,
>)
    ensures
        match r {
            Ok(found) => gathered_or(inputs.deep_view(), elements_of(path@, by_line)) == Ok::<
                Seq<JsonView>,
                Seq<char>,
            >(found.deep_view()),
            Err(e) => gathered_or(inputs.deep_view(), elements_of(path@, by_line)) == Err::<
                Seq<JsonView>,
                Seq<char>,
            >(e.message@),
        },
{
    let ghost all = inputs.deep_view();
    let ghost f = elements_of(path@, by_line);
    let mut out: Vec<&'a Json> = Vec::new();
    assert(all.take(0) =~= seq![]);
    assert(out.deep_view() =~= seq![]);
    for i in 0..inputs.len()
        invariant
            all == inputs.deep_view(),
            f == elements_of(path@, by_line),
            gathered_or(all.take(i as int), f) == Ok::<Seq<JsonView>, Seq<char>>(out.deep_view()),
    {
        proof {
            gathered_or_step(all, f, i as int);
            assert(all[i as int] == (inputs@[i as int].0@, inputs@[i as int].1@));
        }
        let ghost before = out.deep_view();
        let name = inputs[i].0.as_str();
        match resolve_expression(&inputs[i].1, path) {
            Err(e) => {
                return Err(e);
            },
            Ok(None) => {
                let mut message = "path ".to_owned();
                message.append(quote(path).as_str());
                message.append(" did not resolve in ");
                message.append(name);
                return Err(Error { message });
            },
            Ok(Some(v)) => {
                if by_line {
                    out.push(v);
                    assert(out.deep_view() =~= before + seq![v@]);
                } else {
                    match v.as_array() {
                        Some(items) => {
                            for j in 0..items.len()
                                invariant
                                    out.deep_view() =~= before + items.deep_view().take(j as int),
                            {
                                let ghost so_far = out.deep_view();
                                out.push(&items[j]);
                                assert(out.deep_view() =~= so_far.push(items@[j as int]@));
                            }
                            assert(items.deep_view().take(items@.len() as int) =~= items.deep_view());
                        },
                        None => {
                            let mut message = "expected a JSON array at ".to_owned();
                            message.append(quote(path).as_str());
                            message.append(" in ");
                            message.append(name);
                            message.append(", found ");
                            message.append(type_label(v));
                            return Err(Error { message });
                        },
                    }
                }
            },
        }
    }
    assert(all.take(all.len() as int) =~= all);
    Ok(out)
}

/// The row of an element, or what is wrong with the columns.
pub open spec fn element_row(fields: Seq<Seq<char>>, missing: Seq<char>) -> spec_fn(JsonView) -> Result<
    Seq<Seq<char>>,
    Seq<char>,
> {
    |v: JsonView|
        match cells(v, fields, missing) {
            Ok(cs) => Ok(seq![row(cs)]),
            Err(m) => Err(m),
        }
}

/// The page of a table.
pub open spec fn table_page(rows: Seq<Seq<char>>, fields: Seq<Seq<char>>, header: bool, limit: Option<usize>) -> Page {
    if header {
        Page::blank(limit).with_header(row(fields)).with_rows(rows)
    } else {
        Page::blank(limit).with_rows(rows)
    }
}

/// What is made of elements: nothing found where there are none; else their rows, under a header
/// where one is wanted, as far as the limit lets them through.
pub open spec fn tabulated(
    r: Result<Report, Error>,
    elements: Seq<JsonView>,
    fields: Seq<Seq<char>>,
    args: &TableArgs,
) -> bool {
    if elements.len() == 0 {
        r is Ok && r->Ok_0.outcome == Outcome::NotFound && r->Ok_0.lines@.len() == 0
    } else {
        match gathered_or(reached(elements, args.limit), element_row(fields, args.missing@)) {
            Err(m) => r is Err && r->Err_0.message@ == m,
            Ok(rows) => {
                &&& r is Ok
                &&& r->Ok_0.lines.deep_view() == table_page(rows, fields, args.header, args.limit).lines
                &&& r->Ok_0.outcome == found_if(args.limit != Some(0usize))
            },
        }
    }
}

fn tabulate(args: &TableArgs, elements: &Vec<&Json>, fields: &Vec<String>) -> (r: Result<Report, Error>)
    requires
        fields@.len() > 0,
    ensures
        tabulated(r, elements.deep_view(), fields.deep_view(), args),
{
    assert(elements.deep_view().len() == elements@.len());
    if elements.len() == 0 {
        return Ok(Report { lines: Vec::new(), outcome: Outcome::NotFound });
    }
    let count = reach_count(elements.len(), args.limit);
    let ghost columns = fields.deep_view();
    let ghost all = reached(elements.deep_view(), args.limit);
    let ghost f = element_row(columns, args.missing@);
    assert(all.len() == count);
    let mut rows: Vec<String> = Vec::new();
    assert(all.take(0) =~= seq![]);
    assert(rows.deep_view() =~= seq![]);
    for i in 0..count
        invariant
            count == all.len(),
            count <= elements@.len(),
            elements.deep_view().len() > 0,
            fields@.len() > 0,
            columns == fields.deep_view(),
            all == reached(elements.deep_view(), args.limit),
            all == elements.deep_view().take(count as int),
            f == element_row(columns, args.missing@),
            gathered_or(all.take(i as int), f) == Ok::<Seq<Seq<char>>, Seq<char>>(rows.deep_view()),
    {
        proof {
            gathered_or_step(all, f, i as int);
            assert(elements@[i as int]@ == all[i as int]);
        }
        let ghost before = rows.deep_view();
        match project_row(elements[i], fields, args.missing.as_str()) {
            Ok(cs) => {
                let line = write_row(&borrowed(&cs));
                rows.push(line);
                assert(rows.deep_view() =~= before + seq![line@]);
            },
            Err(e) => {
                return Err(e);
            },
        }
    }
    assert(all.take(all.len() as int) =~= all);
    let mut writer = BoundedWriter::new(args.limit);
    if args.header {
        writer.write_decoration(write_row(&borrowed(fields)));
    }
    writer.write_rows(rows);
    let outcome = match args.limit {
        Some(n) => if n == 0 {
            Outcome::NotFound
        } else {
            Outcome::Found
        },
        None => Outcome::Found,
    };
    Ok(Report { lines: writer.lines, outcome })
}

/// Shows the arrays of documents, or the documents themselves, as a table.
pub fn run(args: &TableArgs, inputs: &Vec<(String, Json)>) -> (r: Result<Report, Error>)
    ensures
        match fields_of(args.fields@) {
            Err(m) => r is Err && r->Err_0.message@ == m,
            Ok(fields) => match gathered_or(inputs.deep_view(), elements_of(args.array_path@, args.lines)) {
                Err(m) => r is Err && r->Err_0.message@ == m,
                Ok(elements) => tabulated(r, elements, fields, args),
            },
        },
{
    let fields = match parse_fields(args.fields.as_str()) {
        Ok(fields) => fields,
        Err(e) => {
            return Err(e);
        },
    };
    match find_elements(inputs, args.array_path.as_str(), args.lines) {
        Ok(elements) => tabulate(args, &elements, &fields),
        Err(e) => Err(e),
    }
}

/// Cells keep to their row, and there is one per column.
proof fn cells_are_plain(v: JsonView, fields: Seq<Seq<char>>, missing: Seq<char>)
    requires
        !missing.contains('\t'),
        cells(v, fields, missing) is Ok,
    ensures
        cells(v, fields, missing)->Ok_0.len() == fields.len(),
        forall|i: int|
            0 <= i < fields.len() ==> !(#[trigger] cells(v, fields, missing)->Ok_0[i]).contains('\t'),
    decreases fields.len(),
{
    if has_parts(v) {
        if fields.len() > 0 {
            let init = fields.drop_last();
            cells_are_plain(v, init, missing);
            if let Some(w) = resolved(v, fields.last()) {
                collapsed_stays_in_its_row(formatted(w, true, false));
            }
        }
    } else {
        collapsed_stays_in_its_row(formatted(v, true, false));
    }
}

/// No value can break its row: the cells of an element come back when the row is split at its
/// tabs, one per column, as long as the word for a missing value holds no tab.
pub proof fn table_rows_split_back(v: JsonView, fields: Seq<Seq<char>>, missing: Seq<char>)
    requires
        fields.len() > 0,
        !missing.contains('\t'),
        cells(v, fields, missing) is Ok,
    ensures
        cells(v, fields, missing)->Ok_0.len() == fields.len(),
        pieces(row(cells(v, fields, missing)->Ok_0), '\t') == cells(v, fields, missing)->Ok_0,
{
    cells_are_plain(v, fields, missing);
    row_splits_back(cells(v, fields, missing)->Ok_0);
}

/// Under each field stands the value that it leads to in the element: a text as it is, anything else
/// as JSON, both in one field; the word for what is missing where there is nothing, or null. An
/// element without parts stands in the first column, and is missing in the others.
pub proof fn cells_stand_under_their_fields(v: JsonView, fields: Seq<Seq<char>>, missing: Seq<char>, i: int, t: Seq<char>)
    requires
        cells(v, fields, missing) is Ok,
        0 <= i < fields.len(),
    ensures
        ({
            let cs = cells(v, fields, missing)->Ok_0;
            let found = resolved(v, fields[i]);
            &&& cs.len() == fields.len()
            &&& v is Object || v is Array ==> {
                &&& found is None || found == Some(JsonView::Null) ==> cs[i] == missing
                &&& found == Some(JsonView::Text(t)) ==> cs[i] == in_one_field(t)
                &&& found is Some && !(found->0 is Null) && !(found->0 is Text) ==> cs[i] == in_one_field(compact(found->0))
            }
            &&& v == JsonView::Text(t) ==> cs[i] == if i == 0 {
                in_one_field(t)
            } else {
                missing
            }
            &&& v is Null ==> cs[i] == missing
            &&& v is Bool || v is Int || v is Float ==> cs[i] == if i == 0 {
                in_one_field(compact(v))
            } else {
                missing
            }
        }),
{
    if has_parts(v) {
        cells_in_turn(v, fields, missing, i);
    }
}

proof fn cells_in_turn(v: JsonView, fields: Seq<Seq<char>>, missing: Seq<char>, i: int)
    requires
        gathered_or(fields, cell_at(v, missing)) is Ok,
    ensures
        gathered_or(fields, cell_at(v, missing))->Ok_0.len() == fields.len(),
        0 <= i < fields.len() ==> gathered_or(fields, cell_at(v, missing))->Ok_0[i] == cell(
            resolved(v, fields[i]),
            missing,
        ),
    decreases fields.len(),
{
    if fields.len() > 0 {
        cells_in_turn(v, fields.drop_last(), missing, i);
    }
}

/// The elements of documents are the items of the array that the path leads to in each, document by
/// document; where each document is an element, the value itself. It is an error where the path
/// leads nowhere, or to what is no array.
pub proof fn elements_are_the_items(path: Seq<char>, name: Seq<char>, v: JsonView, w: JsonView, items: Seq<JsonView>)
    requires
        steps(path) is Some,
    ensures
        resolved(v, path) == Some(JsonView::Array(items)) ==> elements_of(path, false)((name, v)) == Ok::<
            Seq<JsonView>,
            Seq<char>,
        >(items),
        resolved(v, path) == Some(w) ==> elements_of(path, true)((name, v)) == Ok::<Seq<JsonView>, Seq<char>>(seq![w]),
        resolved(v, path) == Some(w) && !(w is Array) ==> elements_of(path, false)((name, v)) is Err,
        resolved(v, path) is None ==> elements_of(path, false)((name, v)) is Err && elements_of(path, true)((name, v)) is Err,
{
}

/// The fields are what stands between the commas, without the white space around it, in their order;
/// an empty one is an error.
pub proof fn fields_stand_between_commas(fields: Seq<Seq<char>>)
    requires
        fields.len() > 0,
        forall|i: int| 0 <= i < fields.len() ==> !(#[trigger] fields[i]).contains(','),
    ensures
        (forall|i: int| 0 <= i < fields.len() ==> trimmed(#[trigger] fields[i]).len() > 0) ==> fields_of(
            joined(fields, seq![',']),
        ) == Ok::<Seq<Seq<char>>, Seq<char>>(Seq::new(fields.len(), |i: int| trimmed(fields[i]))),
        (exists|i: int| 0 <= i < fields.len() && trimmed(#[trigger] fields[i]).len() == 0) ==> fields_of(
            joined(fields, seq![',']),
        ) is Err,
{
    joined_splits_back(fields, ',');
    gathered_or_holds(fields, field_of(), seq![], 0);
    if forall|i: int| 0 <= i < fields.len() ==> trimmed(#[trigger] fields[i]).len() > 0 {
        trimmed_in_turn(fields);
    }
    if exists|i: int| 0 <= i < fields.len() && trimmed(#[trigger] fields[i]).len() == 0 {
        let i = choose|i: int| 0 <= i < fields.len() && trimmed(#[trigger] fields[i]).len() == 0;
        assert(field_of()(fields[i]) is Err);
    }
}

proof fn trimmed_in_turn(fields: Seq<Seq<char>>)
    requires
        forall|i: int| 0 <= i < fields.len() ==> trimmed(#[trigger] fields[i]).len() > 0,
    ensures
        gathered_or(fields, field_of()) == Ok::<Seq<Seq<char>>, Seq<char>>(
            Seq::new(fields.len(), |i: int| trimmed(fields[i])),
        ),
    decreases fields.len(),
{
    let want = Seq::new(fields.len(), |i: int| trimmed(fields[i]));
    if fields.len() > 0 {
        let init = fields.drop_last();
        assert forall|i: int| 0 <= i < init.len() implies trimmed(#[trigger] init[i]).len() > 0 by {
            assert(trimmed(fields[i]).len() > 0);
        }
        trimmed_in_turn(init);
        assert(trimmed(fields[fields.len() - 1]).len() > 0);
        assert(Seq::new(init.len(), |i: int| trimmed(init[i])) + seq![trimmed(fields.last())] =~= want);
    } else {
        assert(want =~= seq![]);
    }
}

} // verus!
