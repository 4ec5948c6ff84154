//! `/proc/meminfo`: one row per field.
use super::{key_value, parse_kv_line};
use crate::format::{compact, write_compact};
use crate::gather::{gathered, gathered_holds, gathered_of_both, gathered_step};
use crate::number::{parse_u64, unsigned};
use crate::order::{sort, sorted, sorted_is_a_stable_sort, text_le, views, Pair, Ranked};
use crate::output::{report_rows, reports, Report};
use crate::text::{
    cut_at_the_first, lines, position_is_first, row, split_lines, split_words, trimmed, words, write_row,
};
use crate::value::{json_object, json_text, Json, JsonView};
use vstd::prelude::*;
use vstd::string::*;

verus! {

/// The order of the rows.
#[derive(Clone, Copy, Debug, PartialEq, Eq, Structural)]
pub enum Order {
    /// By key.
    Name,
    /// As in the file.
    File,
}

/// How rows are written.
#[derive(Clone, Copy, Debug, PartialEq, Eq, Structural)]
pub enum Format {
    /// Columns with tabs between them.
    Tsv,
    /// One JSON object per line.
    Json,
}

/// The arguments of the command.
#[derive(Debug)]
pub struct MeminfoArgs {
    pub order: Order,
    pub format: Format,
    pub limit: Option<usize>,
}

/// The key of a line and the first word of its value; nothing where one is missing.
pub open spec fn mem_field() -> spec_fn(Seq<char>) -> Seq<(Seq<char>, Seq<char>)> {
    |line: Seq<char>|
        match key_value(line) {
            Some((key, value)) => if words(value).len() > 0 {
                seq![(key, words(value)[0])]
            } else {
                seq![]
            },
            None => seq![],
        }
}

/// The fields of the file, in its order.
pub open spec fn mem_fields(input: Seq<char>) -> Seq<(Seq<char>, Seq<char>)> {
    gathered(lines(input), mem_field())
}

/// Reads the fields of the file, in its order, each without its unit.
pub fn parse_meminfo(input: &str) -> (r: Vec<(String, String)>)
    ensures
        r.deep_view() == mem_fields(input@),
{
    let all = split_lines(input);
    let ghost model = lines(input@);
    let ghost f = mem_field();
    let mut out: Vec<(String, String)> = Vec::new();
    assert(out.deep_view() =~= gathered(model.take(0), f));
    for i in 0..all.len()
        invariant
            all.deep_view() == model,
            f == mem_field(),
            out.deep_view() == gathered(model.take(i as int), f),
    {
        proof {
            gathered_step(model, f, i as int);
        }
        let ghost before = out.deep_view();
        assert(all@[i as int]@ == model[i as int]);
        assert(before + seq![] =~= before);
        if let Some((key, value)) = parse_kv_line(all[i]) {
            let parts = split_words(value.as_str());
            assert(parts.deep_view().len() == parts@.len());
            if parts.len() > 0 {
                assert(parts.deep_view()[0] == parts@[0]@);
                let ghost pair = (key@, parts@[0]@);
                out.push((key, parts[0].to_owned()));
                assert(out.deep_view() =~= before + seq![pair]);
            }
        }
    }
    assert(all.deep_view().len() == all@.len());
    assert(model.take(model.len() as int) =~= model);
    out
}

/// The object of a field: its value as a number where it is one.
pub open spec fn field_json(key: Seq<char>, value: Seq<char>) -> JsonView {
    JsonView::Object(
        seq![
            ("key"@, JsonView::Text(key)),
            (
                "value_kb"@,
                match unsigned(value, 10, u64::MAX as nat) {
                    Some(n) => JsonView::Int(n as int),
                    None => JsonView::Text(value),
                },
            ),
        ],
    )
}

/// The object of a field.
pub fn build_json(key: &str, value: &str) -> (r: Json)
    ensures
        r@ == field_json(key@, value@),
{
    let number = match parse_u64(value) {
        Some(n) => Json::Unsigned(n),
        None => json_text(value),
    };
    let members = vec![("key", json_text(key)), ("value_kb", number)];
    assert(members.deep_view() =~= field_json(key@, value@)->Object_0);
    json_object(members)
}

/// The row of a field in the given format.
pub open spec fn field_row(field: (Seq<char>, Seq<char>), format: Format) -> Seq<char> {
    match format {
        Format::Tsv => row(seq![field.0, field.1]),
        Format::Json => compact(field_json(field.0, field.1)),
    }
}

/// The fields in the given order.
pub open spec fn ordered_fields(input: Seq<char>, order: Order) -> Seq<(Seq<char>, Seq<char>)> {
    match order {
        Order::Name => sorted::<Pair>(mem_fields(input)),
        Order::File => mem_fields(input),
    }
}

/// Lists the fields of the file's text.
pub fn run(args: &MeminfoArgs, raw: &str) -> (r: Report)
    ensures
        ({
            let fields = ordered_fields(raw@, args.order);
            reports(r, Seq::new(fields.len(), |i: int| field_row(fields[i], args.format)), args.limit)
        }),
{
    let parsed = parse_meminfo(raw);
    let ghost all = mem_fields(raw@);
    let mut pairs: Vec<Pair> = Vec::new();
    for field in it: parsed
        invariant
            it.seq() == parsed@,
            parsed.deep_view() == all,
            views(pairs@) =~= all.take(it.index()),
    {
        let ghost before = views(pairs@);
        let (key, value) = field;
        let ghost pair = (key@, value@);
        assert(all[it.index()] == pair);
        pairs.push(Pair { key, value });
        assert(views(pairs@) =~= before.push(pair));
    }
    assert(parsed.deep_view().len() == parsed@.len());
    assert(all.take(all.len() as int) =~= all);
    let ordered = match args.order {
        Order::Name => sort(pairs),
        Order::File => pairs,
    };
    let ghost fields = ordered_fields(raw@, args.order);
    let ghost rows = Seq::new(fields.len(), |i: int| field_row(fields[i], args.format));
    let mut out: Vec<String> = Vec::new();
    for i in 0..ordered.len()
        invariant
            views(ordered@) == fields,
            rows == Seq::new(fields.len(), |i: int| field_row(fields[i], args.format)),
            out.deep_view() =~= rows.take(i as int),
    {
        let ghost before = out.deep_view();
        let key = ordered[i].key.as_str();
        let value = ordered[i].value.as_str();
        assert(fields[i as int] == (key@, value@));
        let line = match args.format {
            Format::Tsv => {
                let columns = vec![key, value];
                assert(columns.deep_view() =~= seq![key@, value@]);
                write_row(&columns)
            },
            Format::Json => write_compact(&build_json(key, value)),
        };
        out.push(line);
        assert(out.deep_view() =~= before.push(line@));
    }
    assert(rows.take(rows.len() as int) =~= rows);
    report_rows(out, args.limit)
}

/// A line with a key and a value gives a field: the key and the first word of the value, without
/// its unit. Lines without a colon, a key or a value give none.
pub proof fn fields_are_the_first_words(key: Seq<char>, value: Seq<char>, other: Seq<char>)
    requires
        !key.contains(':'),
        !other.contains(':'),
    ensures
        trimmed(key).len() > 0 && words(trimmed(value)).len() > 0 ==> mem_field()(key + seq![':'] + value) == seq![
            (trimmed(key), words(trimmed(value))[0]),
        ],
        trimmed(key).len() == 0 || words(trimmed(value)).len() == 0 ==> mem_field()(key + seq![':'] + value).len() == 0,
        mem_field()(other).len() == 0,
{
    cut_at_the_first(key, value, ':');
    position_is_first(other, ':');
}

/// The fields of every line are listed and no others: in the order of the file, or by name.
pub proof fn every_field_is_listed(input: Seq<char>, field: (Seq<char>, Seq<char>), i: int)
    ensures
        ordered_fields(input, Order::File).contains(field) <==> exists|l: int|
            0 <= l < lines(input).len() && mem_field()(#[trigger] lines(input)[l]).contains(field),
        ordered_fields(input, Order::Name).to_multiset() == ordered_fields(input, Order::File).to_multiset(),
        forall|a: int, b: int|
            0 <= a < b < ordered_fields(input, Order::Name).len() ==> text_le(
                (#[trigger] ordered_fields(input, Order::Name)[a]).0,
                (#[trigger] ordered_fields(input, Order::Name)[b]).0,
            ),
        0 <= i <= lines(input).len() ==> ordered_fields(input, Order::File) == gathered(
            lines(input).take(i),
            mem_field(),
        ) + gathered(lines(input).skip(i), mem_field()),
{
    gathered_holds(lines(input), mem_field(), field);
    sorted_is_a_stable_sort::<Pair>(mem_fields(input));
    let out = ordered_fields(input, Order::Name);
    assert forall|a: int, b: int| 0 <= a < b < out.len() implies text_le((#[trigger] out[a]).0, (#[trigger] out[b]).0) by {
        assert(Pair::le(out[a], out[b]));
    }
    if 0 <= i <= lines(input).len() {
        assert(lines(input).take(i) + lines(input).skip(i) =~= lines(input));
        gathered_of_both(lines(input).take(i), lines(input).skip(i), mem_field());
    }
}

/// The row of a field shows its key and its value; its object has the value as a number where it is
/// one.
pub proof fn fields_are_shown(key: Seq<char>, value: Seq<char>, n: nat)
    ensures
        field_row((key, value), Format::Tsv) == row(seq![key, value]),
        unsigned(value, 10, u64::MAX as nat) == Some(n) ==> field_row((key, value), Format::Json) == compact(
            JsonView::Object(seq![("key"@, JsonView::Text(key)), ("value_kb"@, JsonView::Int(n as int))]),
        ),
        unsigned(value, 10, u64::MAX as nat) is None ==> field_row((key, value), Format::Json) == compact(
            JsonView::Object(seq![("key"@, JsonView::Text(key)), ("value_kb"@, JsonView::Text(value))]),
        ),
{
    if unsigned(value, 10, u64::MAX as nat) == Some(n) {
        assert(field_json(key, value)->Object_0 =~= seq![
            ("key"@, JsonView::Text(key)),
            ("value_kb"@, JsonView::Int(n as int)),
        ]);
    }
    if unsigned(value, 10, u64::MAX as nat) is None {
        assert(field_json(key, value)->Object_0 =~= seq![
            ("key"@, JsonView::Text(key)),
            ("value_kb"@, JsonView::Text(value)),
        ]);
    }
}

} // verus!
