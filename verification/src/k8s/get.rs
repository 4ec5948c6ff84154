//! Objects of a kind, as JSON, as chosen columns, or as a table.
use crate::clock::{unix_time, wall_clock};
use crate::format::{compact, compact_is_one_line, format_value, formatted, plain_numbers, pretty};
use crate::gather::{gathered, gathered_starts_with, gathered_step};
use crate::k8s::podtable::{
    address, age, age_fits, node, pod_ip, pod_node, pod_ready, pod_restarts, pod_status, readiness, restarts,
    status_of, translate_timestamp,
};
use crate::number::{decimal, write_u64};
use crate::order::{
    sort, sorted, sorted_is_a_stable_sort, texts_at_most, texts_le, texts_le_total, texts_le_transitive, views, Ranked,
};
use crate::output::{
    bounded, collapse_ws, collapsed_stays_in_its_row, found_if, in_one_field, rows_in_lots, rows_past_the_limit,
    BoundedWriter, Error, Outcome, Page,
};
use crate::path::{bad_path, first_bad, resolve_expression, resolved, steps};
use crate::text::{
    borrowed, chars, cut, cut_at_the_first, pieces, pieces_of_one, position_is_first, quote, quoted, row,
    row_splits_back, same, split, split_once, to_upper, trim, trimmed, uppercased, write_row,
};
use crate::value::{
    at, filled, get_at, inner, no_text, non_empty, opt, or_text, said, str_of, text_of, text_or, Json, JsonView,
};
use vstd::prelude::*;
use vstd::string::*;

verus! {

/// How objects are shown.
#[derive(Clone, Copy, Debug, PartialEq, Eq, Structural)]
pub enum OutputFormat {
    /// One object per line in a list, one pretty-printed object otherwise.
    Json,
    Table,
    /// The table with more columns.
    Wide,
}

impl Default for OutputFormat {
    fn default() -> (r: OutputFormat)
        ensures
            r == OutputFormat::Json,
    {
        OutputFormat::Json
    }
}

/// The arguments of the command.
#[derive(Debug)]
pub struct GetArgs {
    pub kind: String,
    pub name: Option<String>,
    pub namespace: Option<String>,
    pub all_namespaces: bool,
    pub selector: Option<String>,
    pub field_selector: Option<String>,
    pub path: Option<String>,
    pub columns: Vec<String>,
    pub output: OutputFormat,
    pub limit: Option<usize>,
}

/// One chosen column: what stands above it and the path of its values.
#[derive(Debug, PartialEq)]
pub struct ColSpec {
    pub header: String,
    pub expr: String,
}

/// What a `ColSpec` says: the header and the path.
impl View for ColSpec {
    type V = (Seq<char>, Seq<char>);

    open spec fn view(&self) -> (Seq<char>, Seq<char>) {
        (self.header@, self.expr@)
    }
}

/// What follows the last `.` or `/` of a path.
pub open spec fn after_last_separator(s: Seq<char>) -> Seq<char>
    decreases s.len(),
{
    if s.len() == 0 || s.last() == '.' || s.last() == '/' {
        seq![]
    } else {
        after_last_separator(s.drop_last()).push(s.last())
    }
}

/// The part of a path that its header is made of: its last segment without an index, or the
/// whole path where nothing is left of that.
pub open spec fn header_base(expr: Seq<char>) -> Seq<char> {
    let leaf = trimmed(pieces(after_last_separator(expr), '[')[0]);
    if leaf.len() == 0 {
        expr
    } else {
        leaf
    }
}

fn last_segment<'a>(s: &'a str) -> (r: &'a str)
    ensures
        r@ == after_last_separator(s@),
{
    let cs = chars(s);
    let n = cs.len();
    let mut i: usize = n;
    assert(s@.take(n as int) =~= s@);
    assert(s@.subrange(n as int, n as int) =~= seq![]);
    assert(after_last_separator(s@) =~= after_last_separator(s@.take(n as int)) + s@.subrange(n as int, n as int));
    while i > 0 && cs[i - 1] != '.' && cs[i - 1] != '/'
        invariant
            cs@ == s@,
            n == s@.len(),
            i <= n,
            after_last_separator(s@) == after_last_separator(s@.take(i as int)) + s@.subrange(i as int, n as int),
        decreases i,
    {
        proof {
            let head = s@.take(i as int);
            assert(head.drop_last() =~= s@.take(i - 1));
            assert(head.last() == s@[i - 1]);
            assert(after_last_separator(s@.take(i - 1)).push(s@[i - 1]) + s@.subrange(i as int, n as int)
                =~= after_last_separator(s@.take(i - 1)) + s@.subrange(i - 1, n as int));
        }
        i -= 1;
    }
    assert(i > 0 ==> s@.take(i as int).last() == s@[i - 1]);
    assert(seq![] + s@.subrange(i as int, n as int) =~= s@.subrange(i as int, n as int));
    s.substring_char(i, n)
}

/// The part of a path that its header is made of.
pub fn header_text<'a>(expr: &'a str) -> (r: &'a str)
    ensures
        r@ == header_base(expr@),
{
    let parts = split(last_segment(expr), '[');
    assert(parts.deep_view()[0] == parts@[0]@);
    let leaf = trim(parts[0]);
    if leaf.is_empty() {
        expr
    } else {
        leaf
    }
}

/// The header of a column that was given none: the last segment of its path in upper case.
pub fn derive_header(expr: &str) -> (r: String)
    ensures
        r@ == uppercased(header_base(expr@)),
{
    to_upper(header_text(expr))
}

/// A column as given: `HEADER=path`, or a path alone.
pub open spec fn column(c: Seq<char>) -> (Seq<char>, Seq<char>) {
    match cut(c, '=') {
        Some((header, expr)) => (header, expr),
        None => (uppercased(header_base(c)), c),
    }
}

/// Reads the chosen columns.
pub fn parse_column_specs(cols: &[String]) -> (r: Vec<ColSpec>)
    ensures
        views(r@) == Seq::new(cols@.len(), |i: int| column(cols@[i]@)),
{
    let mut out: Vec<ColSpec> = Vec::new();
    for i in 0..cols.len()
        invariant
            views(out@) =~= Seq::new(i as nat, |i: int| column(cols@[i]@)),
    {
        let ghost before = views(out@);
        let c = cols[i].as_str();
        let item = match split_once(c, '=') {
            Some((header, expr)) => ColSpec { header: header.to_owned(), expr: expr.to_owned() },
            None => ColSpec { header: derive_header(c), expr: c.to_owned() },
        };
        assert(item@ == column(c@));
        out.push(item);
        assert(views(out@) =~= before.push(item@));
    }
    out
}

/// A value as one cell: `-` for none and for null, a text as it is, anything else on one line;
/// tabs and line ends become spaces.
pub open spec fn cell(v: Option<JsonView>) -> Seq<char> {
    match v {
        None => "-"@,
        Some(JsonView::Null) => "-"@,
        Some(v) => in_one_field(formatted(v, true, false)),
    }
}

/// The cell of the value that `expr` leads to.
pub fn render_cell(value: &Json, expr: &str) -> (r: Result<String, Error>)
    ensures
        match r {
            Ok(t) => steps(expr@) is Some && t@ == cell(resolved(value@, expr@)),
            Err(e) => steps(expr@) is None && e.message@ == bad_path(expr@),
        },
{
    match resolve_expression(value, expr) {
        Ok(found) => match found {
            None => Ok("-".to_owned()),
            Some(v) => if v.is_null() {
                Ok("-".to_owned())
            } else {
                let text = format_value(v, true, false);
                Ok(collapse_ws(text.as_str()))
            },
        },
        Err(e) => Err(e),
    }
}

/// The cells of one object, one per column.
pub open spec fn column_row(value: JsonView, specs: Seq<(Seq<char>, Seq<char>)>) -> Seq<char> {
    row(Seq::new(specs.len(), |i: int| cell(resolved(value, specs[i].1))))
}

pub open spec fn column_rows(objects: Seq<JsonView>, specs: Seq<(Seq<char>, Seq<char>)>) -> Seq<Seq<char>> {
    Seq::new(objects.len(), |i: int| column_row(objects[i], specs))
}

pub open spec fn column_header(specs: Seq<(Seq<char>, Seq<char>)>) -> Seq<char> {
    row(Seq::new(specs.len(), |i: int| specs[i].0))
}

fn render_columns(value: &Json, specs: &Vec<ColSpec>) -> (r: Result<String, Error>)
    ensures
        match r {
            Ok(line) => first_bad(views(specs@)) is None && line@ == column_row(value@, views(specs@)),
            Err(e) => first_bad(views(specs@)) is Some && e.message@ == bad_path(first_bad(views(specs@))->0),
        },
{
    let ghost model = views(specs@);
    let ghost want = Seq::new(model.len(), |i: int| cell(resolved(value@, model[i].1)));
    let mut cells: Vec<String> = Vec::new();
    assert(model.skip(0) =~= model);
    for i in 0..specs.len()
        invariant
            model == views(specs@),
            want == Seq::new(model.len(), |i: int| cell(resolved(value@, model[i].1))),
            first_bad(model) == first_bad(model.skip(i as int)),
            cells.deep_view() =~= want.take(i as int),
    {
        let ghost rest = model.skip(i as int);
        assert(rest[0] == specs@[i as int]@);
        assert(rest.drop_first() =~= model.skip(i + 1));
        let ghost before = cells.deep_view();
        match render_cell(value, specs[i].expr.as_str()) {
            Ok(t) => {
                cells.push(t);
                assert(cells.deep_view() =~= before.push(t@));
            },
            Err(e) => {
                return Err(e);
            },
        }
    }
    assert(want.take(want.len() as int) =~= want);
    Ok(write_row(&borrowed(&cells)))
}

/// Writes the chosen columns of each object under a header. Nothing is written for no objects.
pub fn emit_columns(objects: &Vec<Json>, specs: &Vec<ColSpec>, writer: &mut BoundedWriter) -> (r: Result<
    Outcome,
    Error,
>)
    ensures
        match r {
            Ok(outcome) => if objects@.len() == 0 {
                outcome == Outcome::NotFound && final(writer)@ == old(writer)@
            } else {
                &&& first_bad(views(specs@)) is None
                &&& final(writer)@ == old(writer)@.with_header(column_header(views(specs@))).with_rows(
                    column_rows(objects.deep_view(), views(specs@)),
                )
                &&& outcome == found_if(old(writer).left != Some(0usize))
            },
            Err(e) => {
                &&& objects@.len() > 0
                &&& first_bad(views(specs@)) is Some
                &&& e.message@ == bad_path(first_bad(views(specs@))->0)
                &&& final(writer)@ == old(writer)@.with_header(column_header(views(specs@)))
            },
        },
{
    if objects.len() == 0 {
        return Ok(Outcome::NotFound);
    }
    let ghost model = views(specs@);
    let mut headers: Vec<&str> = Vec::new();
    for i in 0..specs.len()
        invariant
            model == views(specs@),
            headers.deep_view() =~= Seq::new(i as nat, |k: int| model[k].0),
    {
        let ghost before = headers.deep_view();
        headers.push(specs[i].header.as_str());
        assert(headers.deep_view() =~= before.push(model[i as int].0));
    }
    writer.write_decoration(write_row(&headers));
    let ghost start = writer@;
    let ghost all = objects.deep_view();
    let ghost rows = column_rows(all, model);
    let mut wrote_any = false;
    let mut i: usize = 0;
    assert(start.with_rows(rows.take(0)).lines =~= start.lines);
    assert(rows.take(rows.len() as int) =~= rows);
    while i < objects.len()
        invariant_except_break
            i <= objects@.len(),
            all == objects.deep_view(),
            model == views(specs@),
            rows == column_rows(all, model),
            rows.len() == objects@.len(),
            rows.take(rows.len() as int) == rows,
            writer@ == start.with_rows(rows.take(i as int)),
            wrote_any == (i > 0),
            i > 0 ==> start.left != Some(0usize) && first_bad(model) is None,
            start.left == old(writer)@.left,
            objects@.len() > 0,
            start == old(writer)@.with_header(column_header(model)),
        ensures
            writer@ == start.with_rows(rows),
            first_bad(model) is None,
            wrote_any == (start.left != Some(0usize)),
        decreases objects@.len() - i,
    {
        let line = match render_columns(&objects[i], specs) {
            Ok(line) => line,
            Err(e) => {
                return Err(e);
            },
        };
        proof {
            assert(line@ == rows[i as int]);
            rows_in_lots(start, rows.take(i as int), seq![line@]);
            assert(rows.take(i + 1) =~= rows.take(i as int) + seq![line@]);
        }
        if !writer.write_line(line) {
            proof {
                rows_past_the_limit(start, rows, i as int);
            }
            break;
        }
        wrote_any = true;
        i += 1;
    }
    Ok(
        if wrote_any {
            Outcome::Found
        } else {
            Outcome::NotFound
        },
    )
}

/// A text of an object's metadata, or `-`.
pub open spec fn meta(value: JsonView, key: Seq<char>) -> Seq<char> {
    or_text(filled(text_of(at(value.get("metadata"@), key))), "-"@)
}

/// A text of an object's metadata, or `-` where it is missing or empty.
pub fn meta_str(value: &Json, key: &str) -> (r: String)
    ensures
        r@ == meta(value@, key@),
{
    text_or(non_empty(str_of(get_at(value.get("metadata"), key))), "-").to_owned()
}

/// When an object was created, where it says so.
pub open spec fn created(value: JsonView) -> Option<Seq<char>> {
    text_of(at(value.get("metadata"@), "creationTimestamp"@))
}

/// When an object was created, where it says so.
pub fn creation_ts<'a>(value: &'a Json) -> (r: Option<&'a str>)
    ensures
        opt(r) == created(value@),
{
    str_of(get_at(value.get("metadata"), "creationTimestamp"))
}

/// The headers of a table.
pub open spec fn table_header(is_pod: bool, wide: bool, all_namespaces: bool) -> Seq<Seq<char>> {
    (if all_namespaces {
        seq!["NAMESPACE"@]
    } else {
        seq![]
    }) + if is_pod {
        seq!["NAME"@, "READY"@, "STATUS"@, "RESTARTS"@, "AGE"@] + if wide {
            seq!["IP"@, "NODE"@]
        } else {
            seq![]
        }
    } else {
        seq!["NAME"@, "AGE"@]
    }
}

/// The cells of one object in a table.
pub open spec fn table_cells(value: JsonView, is_pod: bool, wide: bool, all_namespaces: bool, now: int) -> Seq<Seq<char>> {
    (if all_namespaces {
        seq![meta(value, "namespace"@)]
    } else {
        seq![]
    }) + if is_pod {
        seq![
            meta(value, "name"@),
            readiness(value),
            status_of(value),
            decimal(restarts(value) as nat),
            age(created(value), now),
        ] + if wide {
            seq![address(value), node(value)]
        } else {
            seq![]
        }
    } else {
        seq![meta(value, "name"@), age(created(value), now)]
    }
}

pub open spec fn table_rows(
    objects: Seq<JsonView>,
    is_pod: bool,
    wide: bool,
    all_namespaces: bool,
    now: int,
) -> Seq<Seq<char>> {
    Seq::new(objects.len(), |i: int| row(table_cells(objects[i], is_pod, wide, all_namespaces, now)))
}

/// Whether the row at `i` is made at all under a limit: those within it, and the first one
/// past it.
pub open spec fn row_is_made(i: int, left: Option<usize>) -> bool {
    match left {
        Some(n) => i <= n,
        None => true,
    }
}

/// Whether the numbers of an object's row are within their ranges.
pub open spec fn row_fits(value: JsonView, is_pod: bool, now: int) -> bool {
    age_fits(created(value), now) && (is_pod ==> restarts(value) <= u64::MAX)
}

pub open spec fn table_fits(objects: Seq<JsonView>, is_pod: bool, now: int, left: Option<usize>) -> bool {
    forall|i: int|
        0 <= i < objects.len() && row_is_made(i, left) ==> row_fits(#[trigger] objects[i], is_pod, now)
}

fn write_headers(is_pod: bool, wide: bool, all_namespaces: bool) -> (r: String)
    ensures
        r@ == row(table_header(is_pod, wide, all_namespaces)),
{
    let mut headers: Vec<&str> = Vec::new();
    if all_namespaces {
        headers.push("NAMESPACE");
    }
    headers.push("NAME");
    if is_pod {
        headers.push("READY");
        headers.push("STATUS");
        headers.push("RESTARTS");
    }
    headers.push("AGE");
    if is_pod && wide {
        headers.push("IP");
        headers.push("NODE");
    }
    assert(headers.deep_view() =~= table_header(is_pod, wide, all_namespaces));
    write_row(&headers)
}

fn write_cells(value: &Json, is_pod: bool, wide: bool, all_namespaces: bool, now: i64) -> (r: String)
    requires
        row_fits(value@, is_pod, now as int),
    ensures
        r@ == row(table_cells(value@, is_pod, wide, all_namespaces, now as int)),
{
    let mut cells: Vec<String> = Vec::new();
    if all_namespaces {
        cells.push(meta_str(value, "namespace"));
    }
    cells.push(meta_str(value, "name"));
    if is_pod {
        cells.push(pod_ready(value));
        cells.push(pod_status(value));
        cells.push(write_u64(pod_restarts(value)));
    }
    cells.push(translate_timestamp(creation_ts(value), now));
    if is_pod && wide {
        cells.push(pod_ip(value));
        cells.push(pod_node(value));
    }
    assert(cells.deep_view() =~= table_cells(value@, is_pod, wide, all_namespaces, now as int));
    write_row(&borrowed(&cells))
}

/// Writes a table of the objects under a header, ages taken at `now`. Nothing is written for
/// no objects.
pub fn emit_table(
    objects: &Vec<Json>,
    is_pod: bool,
    wide: bool,
    all_namespaces: bool,
    now: i64,
    writer: &mut BoundedWriter,
) -> (outcome: Outcome)
    requires
        table_fits(objects.deep_view(), is_pod, now as int, old(writer).left),
    ensures
        objects@.len() == 0 ==> outcome == Outcome::NotFound && final(writer)@ == old(writer)@,
        objects@.len() > 0 ==> {
            &&& final(writer)@ == old(writer)@.with_header(row(table_header(is_pod, wide, all_namespaces))).with_rows(
                table_rows(objects.deep_view(), is_pod, wide, all_namespaces, now as int),
            )
            &&& outcome == found_if(old(writer).left != Some(0usize))
        },
{
    if objects.len() == 0 {
        return Outcome::NotFound;
    }
    writer.write_decoration(write_headers(is_pod, wide, all_namespaces));
    let ghost start = writer@;
    let ghost all = objects.deep_view();
    let ghost rows = table_rows(all, is_pod, wide, all_namespaces, now as int);
    let mut wrote_any = false;
    let mut i: usize = 0;
    assert(start.with_rows(rows.take(0)).lines =~= start.lines);
    assert(rows.take(rows.len() as int) =~= rows);
    while i < objects.len()
        invariant_except_break
            i <= objects@.len(),
            all == objects.deep_view(),
            rows == table_rows(all, is_pod, wide, all_namespaces, now as int),
            rows.len() == objects@.len(),
            rows.take(rows.len() as int) == rows,
            table_fits(all, is_pod, now as int, start.left),
            writer@ == start.with_rows(rows.take(i as int)),
            wrote_any == (i > 0),
            i > 0 ==> start.left != Some(0usize),
            row_is_made(i as int, start.left),
            objects@.len() > 0,
        ensures
            writer@ == start.with_rows(rows),
            wrote_any == (start.left != Some(0usize)),
        decreases objects@.len() - i,
    {
        assert(objects@[i as int]@ == all[i as int]);
        let line = write_cells(&objects[i], is_pod, wide, all_namespaces, now);
        proof {
            assert(line@ == rows[i as int]);
            rows_in_lots(start, rows.take(i as int), seq![line@]);
            assert(rows.take(i + 1) =~= rows.take(i as int) + seq![line@]);
        }
        if !writer.write_line(line) {
            proof {
                rows_past_the_limit(start, rows, i as int);
            }
            break;
        }
        wrote_any = true;
        i += 1;
    }
    if wrote_any {
        Outcome::Found
    } else {
        Outcome::NotFound
    }
}

/// How the writing of one value ended: whether a line of it was written, whether the limit
/// cut it short, and whether there was a value at all.
#[derive(Clone, Copy, Debug, PartialEq, Eq, Structural)]
pub struct Emit {
    pub wrote: bool,
    pub stop: bool,
    pub matched: bool,
}

/// The lines of a value as text.
pub open spec fn value_lines(v: JsonView, is_pretty: bool) -> Seq<Seq<char>> {
    pieces(formatted(v, false, is_pretty), '\n')
}

/// Whether the limit cuts so many lines short.
pub open spec fn cut_short(lines: nat, left: Option<usize>) -> bool {
    match left {
        Some(n) => n < lines,
        None => false,
    }
}

/// Writes a value, each line of it a row.
pub fn emit_value(value: &Json, is_pretty: bool, writer: &mut BoundedWriter) -> (r: Emit)
    ensures
        final(writer)@ == old(writer)@.with_rows(value_lines(value@, is_pretty)),
        r.wrote == (old(writer).left != Some(0usize)),
        r.stop == cut_short(value_lines(value@, is_pretty).len(), old(writer).left),
        r.matched,
{
    let text = format_value(value, false, is_pretty);
    let lines = split(text.as_str(), '\n');
    let ghost start = writer@;
    let ghost rows = value_lines(value@, is_pretty);
    assert(lines.deep_view() == rows && rows.len() == lines@.len());
    let mut wrote = false;
    let mut i: usize = 0;
    assert(start.with_rows(rows.take(0)).lines =~= start.lines);
    while i < lines.len()
        invariant
            i <= lines@.len(),
            lines@.len() > 0,
            lines.deep_view() == rows,
            rows == value_lines(value@, is_pretty),
            rows.len() == lines@.len(),
            start == old(writer)@,
            writer@ == start.with_rows(rows.take(i as int)),
            wrote == (i > 0),
            !cut_short(i as nat, start.left),
        decreases lines@.len() - i,
    {
        let line = lines[i].to_owned();
        proof {
            assert(line@ == rows[i as int]);
            rows_in_lots(start, rows.take(i as int), seq![line@]);
            assert(rows.take(i + 1) =~= rows.take(i as int) + seq![line@]);
        }
        if !writer.write_line(line) {
            proof {
                rows_past_the_limit(start, rows, i as int);
            }
            return Emit { wrote, stop: true, matched: true };
        }
        wrote = true;
        i += 1;
    }
    assert(rows.take(rows.len() as int) =~= rows);
    Emit { wrote, stop: false, matched: true }
}

/// Writes the value that `expr` leads to, on one line; nothing where there is none.
pub fn emit_path(value: &Json, expr: &str, writer: &mut BoundedWriter) -> (r: Result<Emit, Error>)
    ensures
        match r {
            Ok(emit) => steps(expr@) is Some && match resolved(value@, expr@) {
                Some(v) => {
                    &&& final(writer)@ == old(writer)@.with_rows(value_lines(v, false))
                    &&& emit.wrote == (old(writer).left != Some(0usize))
                    &&& emit.stop == cut_short(value_lines(v, false).len(), old(writer).left)
                    &&& emit.matched
                },
                None => {
                    &&& final(writer)@ == old(writer)@
                    &&& emit == Emit { wrote: false, stop: false, matched: false }
                },
            },
            Err(e) => steps(expr@) is None && e.message@ == bad_path(expr@) && final(writer)@ == old(writer)@,
        },
{
    match resolve_expression(value, expr) {
        Ok(found) => match found {
            Some(v) => Ok(emit_value(v, false, writer)),
            None => Ok(Emit { wrote: false, stop: false, matched: false }),
        },
        Err(e) => Err(e),
    }
}

/// What is said of a path that matched none of the records that there were.
pub open spec fn miss_hint(expr: Seq<char>, records: int, matched: int) -> Option<Seq<char>> {
    if records == 0 || matched > 0 {
        None
    } else {
        Some(
            "sak: --path "@ + quoted(expr) + " matched 0 of "@ + decimal(records as nat)
                + " record(s)\nnote: `sak k8s get` output is NDJSON (one object per line) — --path is applied to each object, not a kubectl-style List wrapper. Use a per-object path like `.metadata.name`, not `.items[0].metadata.name`."@,
        )
    }
}

/// What is said of a path that matched none of the records that there were.
pub fn path_miss_hint(expr: &str, records: usize, matched: usize) -> (r: Option<String>)
    ensures
        opt(r) == miss_hint(expr@, records as int, matched as int),
{
    if records == 0 || matched > 0 {
        return None;
    }
    let mut out = "sak: --path ".to_owned();
    out.append(quote(expr).as_str());
    out.append(" matched 0 of ");
    out.append(write_u64(records as u64).as_str());
    out.append(
        " record(s)\nnote: `sak k8s get` output is NDJSON (one object per line) — --path is applied to each object, not a kubectl-style List wrapper. Use a per-object path like `.metadata.name`, not `.items[0].metadata.name`.",
    );
    Some(out)
}

/// An object of a list, by its namespace and name.
pub struct Listed {
    pub value: Json,
}

impl View for Listed {
    type V = JsonView;

    open spec fn view(&self) -> JsonView {
        self.value@
    }
}

/// The namespace and the name of an object, empty where not given.
pub open spec fn place(v: JsonView) -> Seq<Seq<char>> {
    let metadata = v.get("metadata"@);
    seq![or_text(text_of(at(metadata, "namespace"@)), ""@), or_text(text_of(at(metadata, "name"@)), ""@)]
}

fn read_place<'a>(v: &'a Json) -> (r: Vec<&'a str>)
    ensures
        r.deep_view() == place(v@),
{
    let metadata = v.get("metadata");
    let r = vec![
        text_or(str_of(get_at(metadata, "namespace")), ""),
        text_or(str_of(get_at(metadata, "name")), ""),
    ];
    assert(r.deep_view() =~= place(v@));
    r
}

impl Ranked for Listed {
    open spec fn le(a: JsonView, b: JsonView) -> bool {
        texts_le(place(a), place(b))
    }

    proof fn le_total(a: JsonView, b: JsonView) {
        texts_le_total(place(a), place(b));
    }

    proof fn le_transitive(a: JsonView, b: JsonView, c: JsonView) {
        texts_le_transitive(place(a), place(b), place(c));
    }

    fn at_most(&self, other: &Self) -> (r: bool) {
        texts_at_most(&read_place(&self.value), &read_place(&other.value))
    }
}

/// Objects by namespace and name.
pub fn sort_objects(objects: Vec<Json>) -> (r: Vec<Json>)
    ensures
        r.deep_view() == sorted::<Listed>(objects.deep_view()),
{
    let ghost all = objects.deep_view();
    let mut listed: Vec<Listed> = Vec::new();
    for value in it: objects
        invariant
            it.seq() == objects@,
            all == objects.deep_view(),
            views(listed@) =~= all.take(it.index()),
    {
        let ghost before = views(listed@);
        let ghost v = value@;
        listed.push(Listed { value });
        assert(views(listed@) =~= before.push(v));
    }
    assert(all.take(all.len() as int) =~= all);
    let ordered = sort(listed);
    let ghost model = views(ordered@);
    let mut out: Vec<Json> = Vec::new();
    for item in it: ordered
        invariant
            it.seq() == ordered@,
            model == views(ordered@),
            out.deep_view() =~= model.take(it.index()),
    {
        let ghost before = out.deep_view();
        let ghost v = item@;
        out.push(item.value);
        assert(out.deep_view() =~= before.push(v));
    }
    assert(model.take(model.len() as int) =~= model);
    out
}

/// The time that ages are taken at: the whole seconds since the start of 1970, or zero where the
/// clock stands before that.
pub fn now_unix() -> i64 {
    unix_time(&wall_clock())
}

/// What `get` wrote, how it ended, and a hint for the one who asked.
#[derive(Debug, PartialEq)]
pub struct GetReport {
    pub lines: Vec<String>,
    pub outcome: Outcome,
    pub hint: Option<String>,
}

/// The lines of one object: the value at the path where one is asked for, else the object,
/// pretty-printed where it stands alone.
pub open spec fn object_lines(path: Option<Seq<char>>, single: bool) -> spec_fn(JsonView) -> Seq<Seq<char>> {
    |v: JsonView|
        match path {
            Some(expr) => match resolved(v, expr) {
                Some(w) => value_lines(w, false),
                None => seq![],
            },
            None => value_lines(v, single),
        }
}

/// How many of the objects have a value at the path.
pub open spec fn match_count(objects: Seq<JsonView>, expr: Seq<char>) -> int
    decreases objects.len(),
{
    if objects.len() == 0 {
        0
    } else {
        match_count(objects.drop_last(), expr) + if resolved(objects.last(), expr) is Some {
            1int
        } else {
            0int
        }
    }
}

proof fn match_count_grows(objects: Seq<JsonView>, expr: Seq<char>, i: int)
    requires
        0 <= i <= objects.len(),
    ensures
        0 <= match_count(objects.take(i), expr) <= match_count(objects, expr),
        match_count(objects.take(i), expr) <= i,
    decreases objects.len(),
{
    if objects.len() > 0 {
        let init = objects.drop_last();
        let j = if i < objects.len() {
            i
        } else {
            i - 1
        };
        match_count_grows(init, expr, j);
        assert(init.take(j) =~= objects.take(j));
    }
    if i == objects.len() {
        assert(objects.take(i) =~= objects);
        if i > 0 {
            assert(objects.drop_last() =~= objects.take(i - 1));
        }
    }
}

/// What `get` reports of objects as JSON.
pub open spec fn json_report(
    r: GetReport,
    objects: Seq<JsonView>,
    path: Option<Seq<char>>,
    single: bool,
    limit: Option<usize>,
) -> bool {
    let rows = gathered(objects, object_lines(path, single));
    &&& r.lines.deep_view() == bounded(rows, limit)
    &&& r.outcome == found_if(bounded(rows, limit).len() > 0)
    &&& opt(r.hint) == match path {
        Some(expr) => miss_hint(expr, objects.len() as int, match_count(objects, expr)),
        None => None,
    }
}

/// Writes objects as JSON, or the value at a path of each.
pub fn emit_json(objects: &Vec<Json>, path: &Option<String>, single: bool, limit: Option<usize>) -> (r: Result<
    GetReport,
    Error,
>)
    ensures
        match r {
            Ok(report) => {
                &&& path is Some && objects@.len() > 0 ==> steps(path->0@) is Some
                &&& json_report(report, objects.deep_view(), opt(*path), single, limit)
            },
            Err(e) => {
                &&& path is Some
                &&& objects@.len() > 0
                &&& steps(path->0@) is None
                &&& e.message@ == bad_path(path->0@)
            },
        },
{
    let ghost all = objects.deep_view();
    let ghost f = object_lines(opt(*path), single);
    let ghost rows = gathered(all, f);
    let ghost blank = Page::blank(limit);
    let mut writer = BoundedWriter::new(limit);
    let mut records: usize = 0;
    let mut matched: usize = 0;
    let mut i: usize = 0;
    assert(gathered(all.take(0), f) =~= seq![]);
    assert(blank.with_rows(gathered(all.take(0), f)).lines =~= blank.lines);
    assert(all.take(all.len() as int) =~= all);
    while i < objects.len()
        invariant_except_break
            i <= objects@.len(),
            writer@ == blank.with_rows(gathered(all.take(i as int), f)),
            path is Some ==> records == i && matched == match_count(all.take(i as int), path->0@),
            path is Some && i > 0 ==> steps(path->0@) is Some,
        invariant
            all == objects.deep_view(),
            all.take(all.len() as int) == all,
            f == object_lines(opt(*path), single),
            rows == gathered(all, f),
            blank == Page::blank(limit),
        ensures
            writer@ == blank.with_rows(rows),
            path is Some && objects@.len() > 0 ==> steps(path->0@) is Some,
            path is Some ==> miss_hint(path->0@, records as int, matched as int) == miss_hint(
                path->0@,
                all.len() as int,
                match_count(all, path->0@),
            ),
        decreases objects@.len() - i,
    {
        let value = &objects[i];
        let ghost so_far = gathered(all.take(i as int), f);
        proof {
            assert(value@ == all[i as int]);
            gathered_step(all, f, i as int);
            rows_in_lots(blank, so_far, f(value@));
            assert(writer@.with_rows(seq![]).lines =~= writer@.lines);
            if path is Some {
                assert(all.take(i + 1).drop_last() =~= all.take(i as int));
                match_count_grows(all, path->0@, i as int);
                match_count_grows(all, path->0@, i + 1);
            }
        }
        let ghost left = writer.left;
        let emit = match path {
            Some(expr) => {
                records += 1;
                match emit_path(value, expr.as_str(), &mut writer) {
                    Ok(emit) => {
                        if emit.matched {
                            matched += 1;
                        }
                        emit
                    },
                    Err(e) => {
                        return Err(e);
                    },
                }
            },
            None => emit_value(value, single, &mut writer),
        };
        i += 1;
        if emit.stop {
            proof {
                let head = gathered(all.take(i as int), f);
                gathered_starts_with(all, f, i as int);
                assert(rows.take(head.len() as int) =~= head);
                rows_past_the_limit(blank, rows, head.len() as int);
            }
            break;
        }
    }
    assert(writer@.lines =~= bounded(rows, limit));
    let hint = match path {
        Some(expr) => path_miss_hint(expr.as_str(), records, matched),
        None => None,
    };
    let outcome = if writer.lines.len() > 0 {
        Outcome::Found
    } else {
        Outcome::NotFound
    };
    Ok(GetReport { lines: writer.lines, outcome, hint })
}

/// The objects in the order in which they are shown.
pub open spec fn arranged(objects: Seq<JsonView>, single: bool) -> Seq<JsonView> {
    if single {
        objects
    } else {
        sorted::<Listed>(objects)
    }
}

/// Whether objects are shown as a table.
pub open spec fn as_table(args: &GetArgs) -> bool {
    args.columns@.len() == 0 && (args.output == OutputFormat::Table || args.output == OutputFormat::Wide)
}

/// What the chosen columns say.
pub open spec fn chosen_columns(args: &GetArgs) -> Seq<(Seq<char>, Seq<char>)> {
    Seq::new(args.columns@.len(), |i: int| column(args.columns@[i]@))
}

/// A page and the outcome of what was written on it, with no hint.
pub open spec fn page_report(r: GetReport, page: Page, outcome: Outcome) -> bool {
    r.lines.deep_view() == page.lines && r.outcome == outcome && r.hint is None
}

/// Shows the objects that were fetched: those of a list, or at most one where a name was
/// given; none where there is no object of that name. `kind` is the proper name of the kind
/// and `now` the time that ages are taken at.
pub fn run(args: &GetArgs, kind: &str, objects: Vec<Json>, now: i64) -> (r: Result<GetReport, Error>)
    requires
        as_table(args) ==> table_fits(
            arranged(objects.deep_view(), args.name is Some),
            kind@ == "Pod"@,
            now as int,
            args.limit,
        ),
    ensures
        ({
            let shown = arranged(objects.deep_view(), args.name is Some);
            let specs = chosen_columns(args);
            let wide = args.output == OutputFormat::Wide;
            let is_pod = kind@ == "Pod"@;
            match r {
                Ok(report) => if args.columns@.len() > 0 {
                    if shown.len() == 0 {
                        page_report(report, Page::blank(args.limit), Outcome::NotFound)
                    } else {
                        first_bad(specs) is None && page_report(
                            report,
                            Page::blank(args.limit).with_header(column_header(specs)).with_rows(
                                column_rows(shown, specs),
                            ),
                            found_if(args.limit != Some(0usize)),
                        )
                    }
                } else if as_table(args) {
                    if shown.len() == 0 {
                        page_report(report, Page::blank(args.limit), Outcome::NotFound)
                    } else {
                        page_report(
                            report,
                            Page::blank(args.limit).with_header(
                                row(table_header(is_pod, wide, args.all_namespaces)),
                            ).with_rows(table_rows(shown, is_pod, wide, args.all_namespaces, now as int)),
                            found_if(args.limit != Some(0usize)),
                        )
                    }
                } else {
                    &&& args.path is Some && shown.len() > 0 ==> steps(args.path->0@) is Some
                    &&& json_report(report, shown, opt(args.path), args.name is Some, args.limit)
                },
                Err(e) => shown.len() > 0 && if args.columns@.len() > 0 {
                    first_bad(specs) is Some && e.message@ == bad_path(first_bad(specs)->0)
                } else {
                    &&& !as_table(args)
                    &&& args.path is Some
                    &&& steps(args.path->0@) is None
                    &&& e.message@ == bad_path(args.path->0@)
                },
            }
        }),
{
    let single = args.name.is_some();
    let shown = if single {
        objects
    } else {
        sort_objects(objects)
    };
    assert(shown.deep_view().len() == shown@.len());
    if args.columns.len() > 0 {
        let mut writer = BoundedWriter::new(args.limit);
        let specs = parse_column_specs(args.columns.as_slice());
        assert(views(specs@) =~= chosen_columns(args));
        return match emit_columns(&shown, &specs, &mut writer) {
            Ok(outcome) => Ok(GetReport { lines: writer.lines, outcome, hint: None }),
            Err(e) => Err(e),
        };
    }
    let wide = match args.output {
        OutputFormat::Wide => true,
        _ => false,
    };
    let table = match args.output {
        OutputFormat::Json => false,
        _ => true,
    };
    if table {
        let mut writer = BoundedWriter::new(args.limit);
        let is_pod = same(kind, "Pod");
        let outcome = emit_table(&shown, is_pod, wide, args.all_namespaces, now, &mut writer);
        return Ok(GetReport { lines: writer.lines, outcome, hint: None });
    }
    emit_json(&shown, &args.path, single, args.limit)
}

/// No value can break its row: the cells of an object come back when the row is split at its tabs,
/// one per column.
pub proof fn column_rows_split_back(value: JsonView, specs: Seq<(Seq<char>, Seq<char>)>)
    requires
        specs.len() > 0,
    ensures
        pieces(column_row(value, specs), '\t') == Seq::new(
            specs.len(),
            |i: int| cell(resolved(value, specs[i].1)),
        ),
{
    let cells = Seq::new(specs.len(), |i: int| cell(resolved(value, specs[i].1)));
    reveal_strlit("-");
    assert forall|i: int| 0 <= i < cells.len() implies !(#[trigger] cells[i]).contains('\t') by {
        if let Some(v) = resolved(value, specs[i].1) {
            collapsed_stays_in_its_row(formatted(v, true, false));
        }
    }
    row_splits_back(cells);
}

/// Objects of a list come by namespace and name, those with the same in the order in which they
/// came, and none is left out; an object that was asked for by name stands as it is.
pub proof fn objects_come_by_place(objects: Seq<JsonView>, i: int, j: int)
    ensures
        arranged(objects, true) == objects,
        arranged(objects, false).len() == objects.len(),
        arranged(objects, false).to_multiset() == objects.to_multiset(),
        0 <= i < j < objects.len() ==> ({
            let a = arranged(objects, false)[i];
            let b = arranged(objects, false)[j];
            texts_le(
                seq![said(inner(a, "metadata"@, "namespace"@), ""@), said(inner(a, "metadata"@, "name"@), ""@)],
                seq![said(inner(b, "metadata"@, "namespace"@), ""@), said(inner(b, "metadata"@, "name"@), ""@)],
            )
        }),
{
    sorted_is_a_stable_sort::<Listed>(objects);
    if 0 <= i < j < objects.len() {
        let a = arranged(objects, false)[i];
        let b = arranged(objects, false)[j];
        assert(Listed::le(a, b));
        assert(place(a) =~= seq![said(inner(a, "metadata"@, "namespace"@), ""@), said(inner(a, "metadata"@, "name"@), ""@)]);
        assert(place(b) =~= seq![said(inner(b, "metadata"@, "namespace"@), ""@), said(inner(b, "metadata"@, "name"@), ""@)]);
    }
}

/// Under each header of a table stands what the header names, and the columns are those of the
/// kind: a pod has its readiness, status and restarts as well, its address and its node where the
/// table is wide, and every object its namespace where all of them are listed.
pub proof fn cells_stand_under_their_headers(value: JsonView, is_pod: bool, wide: bool, all: bool, now: int, j: int)
    requires
        0 <= j < table_header(is_pod, wide, all).len(),
    ensures
        ({
            let header = table_header(is_pod, wide, all);
            let cells = table_cells(value, is_pod, wide, all, now);
            &&& cells.len() == header.len()
            &&& header.len() == (if all {
                1int
            } else {
                0int
            }) + (if is_pod && wide {
                7int
            } else if is_pod {
                5int
            } else {
                2int
            })
            &&& header[j] == "NAMESPACE"@ ==> cells[j] == meta(value, "namespace"@) && all
            &&& header[j] == "NAME"@ ==> cells[j] == meta(value, "name"@)
            &&& header[j] == "READY"@ ==> cells[j] == readiness(value)
            &&& header[j] == "STATUS"@ ==> cells[j] == status_of(value)
            &&& header[j] == "RESTARTS"@ ==> cells[j] == decimal(restarts(value) as nat)
            &&& header[j] == "AGE"@ ==> cells[j] == match inner(value, "metadata"@, "creationTimestamp"@) {
                Some(JsonView::Text(ts)) => age(Some(ts), now),
                _ => "-"@,
            }
            &&& header[j] == "IP"@ ==> cells[j] == address(value)
            &&& header[j] == "NODE"@ ==> cells[j] == node(value)
        }),
{
    reveal_strlit("NAMESPACE");
    reveal_strlit("NAME");
    reveal_strlit("READY");
    reveal_strlit("STATUS");
    reveal_strlit("RESTARTS");
    reveal_strlit("AGE");
    reveal_strlit("IP");
    reveal_strlit("NODE");
    assert("NAMESPACE"@.len() == 9 && "NAME"@.len() == 4 && "READY"@.len() == 5 && "STATUS"@.len() == 6
        && "RESTARTS"@.len() == 8 && "AGE"@.len() == 3 && "IP"@.len() == 2 && "NODE"@.len() == 4);
    assert("NAME"@[1] == 'A' && "NODE"@[1] == 'O');
}

/// The headers of a table, in their order.
pub proof fn headers_of_a_table(wide: bool, all: bool)
    ensures
        table_header(true, false, false) == seq!["NAME"@, "READY"@, "STATUS"@, "RESTARTS"@, "AGE"@],
        table_header(true, true, false) == seq!["NAME"@, "READY"@, "STATUS"@, "RESTARTS"@, "AGE"@, "IP"@, "NODE"@],
        table_header(false, wide, false) == seq!["NAME"@, "AGE"@],
        table_header(wide, all, true) == seq!["NAMESPACE"@] + table_header(wide, all, false),
{
    assert(table_header(true, false, false) =~= seq!["NAME"@, "READY"@, "STATUS"@, "RESTARTS"@, "AGE"@]);
    assert(table_header(true, true, false) =~= seq![
        "NAME"@,
        "READY"@,
        "STATUS"@,
        "RESTARTS"@,
        "AGE"@,
        "IP"@,
        "NODE"@,
    ]);
    assert(table_header(false, wide, false) =~= seq!["NAME"@, "AGE"@]);
    assert(table_header(wide, all, true) =~= seq!["NAMESPACE"@] + table_header(wide, all, false));
}

/// What an object's metadata says, or `-` where it says nothing.
pub proof fn metadata_is_shown(value: JsonView, key: Seq<char>, t: Seq<char>)
    ensures
        inner(value, "metadata"@, key) == Some(JsonView::Text(t)) && t.len() > 0 ==> meta(value, key) == t,
        no_text(inner(value, "metadata"@, key)) ==> meta(value, key) == "-"@,
{
}

/// A column is cut at its first `=` into its header and its path. A path alone has its last segment
/// for a header, without the index behind it and in upper case.
pub proof fn columns_are_cut_at_the_sign(header: Seq<char>, path: Seq<char>, leaf: Seq<char>, index: Seq<char>, sep: char)
    requires
        !header.contains('='),
        sep == '.' || sep == '/',
        leaf.len() > 0,
        trimmed(leaf) == leaf,
        forall|i: int| 0 <= i < leaf.len() ==> (#[trigger] leaf[i]) != '.' && leaf[i] != '/' && leaf[i] != '[',
        forall|i: int| 0 <= i < index.len() ==> (#[trigger] index[i]) != '.' && index[i] != '/',
        index.len() > 0 ==> index[0] == '[',
    ensures
        column(header + seq!['='] + path) == (header, path),
        !(path + seq![sep] + leaf + index).contains('=') ==> column(path + seq![sep] + leaf + index) == (
            uppercased(leaf),
            path + seq![sep] + leaf + index,
        ),
{
    cut_at_the_first(header, path, '=');
    let whole = path + seq![sep] + leaf + index;
    if !whole.contains('=') {
        position_is_first(whole, '=');
        let tail = leaf + index;
        assert(whole =~= path + seq![sep] + tail);
        assert forall|i: int| 0 <= i < tail.len() implies (#[trigger] tail[i]) != '.' && tail[i] != '/' by {
            if i < leaf.len() {
                assert(tail[i] == leaf[i]);
            } else {
                assert(tail[i] == index[i - leaf.len()]);
            }
        }
        last_segment_is_the_tail(path, sep, tail);
        assert(!leaf.contains('['));
        first_piece_of(leaf, index);
    }
}

proof fn last_segment_is_the_tail(path: Seq<char>, sep: char, tail: Seq<char>)
    requires
        sep == '.' || sep == '/',
        forall|i: int| 0 <= i < tail.len() ==> (#[trigger] tail[i]) != '.' && tail[i] != '/',
    ensures
        after_last_separator(path + seq![sep] + tail) == tail,
    decreases tail.len(),
{
    let s = path + seq![sep] + tail;
    if tail.len() == 0 {
        assert(s.last() == sep);
        assert(tail =~= seq![]);
    } else {
        let init = tail.drop_last();
        assert forall|i: int| 0 <= i < init.len() implies (#[trigger] init[i]) != '.' && init[i] != '/' by {
            assert(init[i] == tail[i]);
        }
        last_segment_is_the_tail(path, sep, init);
        assert(s.drop_last() =~= path + seq![sep] + init);
        assert(s.last() == tail[tail.len() - 1]);
        assert(init.push(tail.last()) =~= tail);
    }
}

proof fn first_piece_of(leaf: Seq<char>, index: Seq<char>)
    requires
        !leaf.contains('['),
        index.len() > 0 ==> index[0] == '[',
    ensures
        pieces(leaf + index, '[').len() > 0,
        pieces(leaf + index, '[')[0] == leaf,
        index.len() > 0 ==> pieces(leaf + index, '[').len() > 1,
    decreases index.len(),
{
    if index.len() == 0 {
        assert(leaf + index =~= leaf);
        pieces_of_one(leaf, '[');
    } else {
        let init = index.drop_last();
        let s = leaf + index;
        assert(s.drop_last() =~= leaf + init);
        assert(s.last() == index.last());
        first_piece_of(leaf, init);
        if init.len() == 0 {
            assert(index[0] == index.last());
        }
    }
}

/// The value at the path is shown for each object that has one, on one line, and nothing for the
/// others; without a path each object of a list is one line.
pub proof fn lines_of_objects(v: JsonView, expr: Seq<char>, w: JsonView)
    ensures
        resolved(v, expr) == Some(w) && plain_numbers(w) ==> object_lines(Some(expr), true)(v) == seq![compact(w)]
            && object_lines(Some(expr), false)(v) == seq![compact(w)],
        resolved(v, expr) is None ==> object_lines(Some(expr), true)(v).len() == 0 && object_lines(Some(expr), false)(
            v,
        ).len() == 0,
        plain_numbers(v) ==> object_lines(None, false)(v) == seq![compact(v)],
        object_lines(None, true)(v) == pieces(pretty(v, seq![]), '\n'),
{
    if plain_numbers(w) {
        compact_is_one_line(w);
    }
    if plain_numbers(v) {
        compact_is_one_line(v);
    }
    reveal_strlit("");
    assert(""@ =~= seq![]);
}

/// A hint is given just where there were objects and the path leads nowhere in any of them.
pub proof fn hints_follow_from_misses(objects: Seq<JsonView>, expr: Seq<char>)
    ensures
        miss_hint(expr, objects.len() as int, match_count(objects, expr)) is Some <==> objects.len() > 0 && forall|i: int|
            0 <= i < objects.len() ==> resolved(#[trigger] objects[i], expr) is None,
    decreases objects.len(),
{
    if objects.len() > 0 {
        let init = objects.drop_last();
        hints_follow_from_misses(init, expr);
        match_count_grows(init, expr, init.len() as int);
        assert(init.take(init.len() as int) =~= init);
        assert(objects[objects.len() - 1] == objects.last());
        if forall|i: int| 0 <= i < objects.len() ==> resolved(#[trigger] objects[i], expr) is None {
            assert forall|i: int| 0 <= i < init.len() implies resolved(#[trigger] init[i], expr) is None by {
                assert(resolved(objects[i], expr) is None);
            }
            assert(resolved(objects[objects.len() - 1], expr) is None);
        } else if resolved(objects.last(), expr) is None {
            let i = choose|i: int| 0 <= i < objects.len() && resolved(#[trigger] objects[i], expr) is Some;
            assert(resolved(init[i], expr) is Some);
        }
    }
}

/// A cell shows the value at its path: a text as it is, anything else as JSON on one line, both
/// with spaces for tabs and line ends; `-` where there is nothing, or null.
pub proof fn cells_show_values(v: JsonView, path: Seq<char>, w: JsonView, t: Seq<char>)
    ensures
        resolved(v, path) is None || resolved(v, path) == Some(JsonView::Null) ==> cell(resolved(v, path)) == "-"@,
        resolved(v, path) == Some(JsonView::Text(t)) ==> cell(resolved(v, path)) == in_one_field(t),
        resolved(v, path) == Some(w) && !(w is Null) && !(w is Text) ==> cell(resolved(v, path)) == in_one_field(compact(w)),
{
}

} // verus!
