//! Instant queries, and the rows that results are shown as.
use super::client::{loki_data, HttpReply, LokiClient};
use super::common_args::CommonLokiArgs;
use super::runner::{emit_lines, ends_with, run_loki};
use crate::format::{compact, debug, write_debug};
use crate::gather::{gathered, gathered_first, gathered_or, gathered_or_holds, gathered_or_step, gathered_step};
use crate::number::{decimal, decimal_int, digit, write_i64, write_u64};
use crate::order::{sort, sorted, sorted_holds, sorted_is_a_stable_sort, text_le, views, Pair, Ranked};
use crate::output::{collapse_ws, in_one_field, Error, Report};
use crate::text::{borrowed, join, joined, quote, quoted, row, same, write_row};
use crate::value::{
    array_of, items_of, members_of, object_of, opt, or_text, said, str_of, text_of, text_or, Json, JsonView,
};
use vstd::prelude::*;
use vstd::string::*;

verus! {

/// The arguments of the command.
#[derive(Debug)]
pub struct QueryArgs {
    pub common: CommonLokiArgs,
    /// The LogQL expression.
    pub query: String,
}

/// Whether a byte stands for itself in a URL.
pub open spec fn unreserved(b: u8) -> bool {
    ||| 'A' as u8 <= b <= 'Z' as u8
    ||| 'a' as u8 <= b <= 'z' as u8
    ||| '0' as u8 <= b <= '9' as u8
    ||| b == '-' as u8 || b == '_' as u8 || b == '.' as u8 || b == '~' as u8
}

/// A hexadecimal digit, letters in upper case.
pub open spec fn upper_digit(d: int) -> char {
    if d < 10 {
        ('0' as u32 + d) as u32 as char
    } else {
        ('A' as u32 + d - 10) as u32 as char
    }
}

/// A byte as it stands in a URL.
pub open spec fn encoded_byte(b: u8) -> Seq<char> {
    if unreserved(b) {
        seq![b as char]
    } else {
        seq!['%', upper_digit(b as int / 16), upper_digit(b as int % 16)]
    }
}

/// A text as it stands in a URL: the bytes of its UTF-8, those that are not unreserved as a
/// percent sign and two digits.
pub open spec fn encoded(s: Seq<char>) -> Seq<char> {
    encoded_bytes(vstd::utf8::encode_utf8(s))
}

/// Bytes as they stand in a URL.
pub open spec fn encoded_bytes(bytes: Seq<u8>) -> Seq<char> {
    gathered(bytes, |b: u8| encoded_byte(b))
}

fn write_upper_digit(d: u8) -> (c: char)
    requires
        d < 16,
    ensures
        c == upper_digit(d as int),
{
    if d < 10 {
        (('0' as u8) + d) as char
    } else {
        (('A' as u8) + (d - 10)) as char
    }
}

fn is_unreserved(b: u8) -> (r: bool)
    ensures
        r == unreserved(b),
{
    ('A' as u8 <= b && b <= 'Z' as u8) || ('a' as u8 <= b && b <= 'z' as u8) || ('0' as u8 <= b && b <= '9' as u8) || b
        == '-' as u8 || b == '_' as u8 || b == '.' as u8 || b == '~' as u8
}

/// A text as it stands in a URL.
pub fn urlencode(s: &str) -> (r: String)
    ensures
        r@ == encoded(s@),
{
    let bytes = s.as_bytes();
    let ghost all = bytes@;
    let ghost f = |b: u8| encoded_byte(b);
    let mut out = String::new();
    assert(out@ =~= gathered(all.take(0), f));
    for i in 0..bytes.len()
        invariant
            all == bytes@,
            f == (|b: u8| encoded_byte(b)),
            out@ == gathered(all.take(i as int), f),
    {
        proof {
            gathered_step(all, f, i as int);
        }
        let ghost before = out@;
        let b: u8 = bytes[i];
        if is_unreserved(b) {
            out.push(b as char);
            assert(out@ =~= before + seq![b as char]);
        } else {
            out.push('%');
            out.push(write_upper_digit(b / 16));
            out.push(write_upper_digit(b % 16));
            assert(out@ =~= before + encoded_byte(b));
        }
    }
    assert(all.take(all.len() as int) =~= all);
    out
}

/// A character inside a label's value.
pub open spec fn escaped_char(c: char) -> Seq<char> {
    if c == '\\' {
        seq!['\\', '\\']
    } else if c == '"' {
        seq!['\\', '"']
    } else if c == '\n' {
        seq!['\\', 'n']
    } else {
        seq![c]
    }
}

/// A label's value with what must be escaped escaped.
pub open spec fn escaped(s: Seq<char>) -> Seq<char> {
    gathered(s, |c: char| escaped_char(c))
}

/// A label's value with what must be escaped escaped.
pub fn escape_label_value(s: &str) -> (r: String)
    ensures
        r@ == escaped(s@),
{
    let ghost f = |c: char| escaped_char(c);
    let mut out = String::new();
    assert(out@ =~= gathered(s@.take(0), f));
    for c in it: s.chars()
        invariant
            it.seq() == s@,
            f == (|c: char| escaped_char(c)),
            out@ == gathered(s@.take(it.index()), f),
    {
        proof {
            gathered_step(s@, f, it.index());
        }
        let ghost before = out@;
        if c == '\\' {
            out.push('\\');
            out.push('\\');
        } else if c == '"' {
            out.push('\\');
            out.push('"');
        } else if c == '\n' {
            out.push('\\');
            out.push('n');
        } else {
            out.push(c);
        }
        assert(out@ =~= before + escaped_char(c));
    }
    assert(s@.take(s@.len() as int) =~= s@);
    out
}

/// The labels of a set, by name; a value that is no text counts as empty.
pub open spec fn label_pairs(members: Seq<(Seq<char>, JsonView)>) -> Seq<(Seq<char>, Seq<char>)> {
    sorted::<Pair>(Seq::new(members.len(), |i: int| (members[i].0, or_text(members[i].1.text(), ""@))))
}

/// A set of labels as `{name="value",...}`, by name.
pub open spec fn label_text(labels: Option<JsonView>) -> Seq<char> {
    match members_of(labels) {
        Some(members) => {
            let all = label_pairs(members);
            "{"@ + joined(Seq::new(all.len(), |i: int| all[i].0 + "=\""@ + escaped(all[i].1) + "\""@), ","@) + "}"@
        },
        None => "{}"@,
    }
}

fn sorted_labels(members: &Vec<(String, Json)>) -> (r: Vec<Pair>)
    ensures
        views(r@) == label_pairs(members.deep_view()),
{
    let ghost all = members.deep_view();
    let ghost pairs = Seq::new(all.len(), |i: int| (all[i].0, or_text(all[i].1.text(), ""@)));
    let mut out: Vec<Pair> = Vec::new();
    for i in 0..members.len()
        invariant
            all == members.deep_view(),
            pairs == Seq::new(all.len(), |i: int| (all[i].0, or_text(all[i].1.text(), ""@))),
            views(out@) =~= pairs.take(i as int),
    {
        let ghost before = views(out@);
        let (key, value) = &members[i];
        assert(all[i as int] == (key@, value@));
        let pair = Pair { key: key.clone(), value: text_or(value.as_str(), "").to_owned() };
        out.push(pair);
        assert(views(out@) =~= before.push(pair@));
    }
    assert(pairs.take(all.len() as int) =~= pairs);
    sort(out)
}

/// A set of labels as `{name="value",...}`, by name; `{}` where there is none.
pub fn format_labels(labels: Option<&Json>) -> (r: String)
    ensures
        r@ == label_text(opt(labels)),
{
    let members = match object_of(labels) {
        Some(members) => members,
        None => {
            return "{}".to_owned();
        },
    };
    let all = sorted_labels(members);
    let ghost model = label_pairs(members.deep_view());
    let ghost want = Seq::new(model.len(), |i: int| model[i].0 + "=\""@ + escaped(model[i].1) + "\""@);
    let mut parts: Vec<String> = Vec::new();
    for i in 0..all.len()
        invariant
            views(all@) == model,
            want == Seq::new(model.len(), |i: int| model[i].0 + "=\""@ + escaped(model[i].1) + "\""@),
            parts.deep_view() =~= want.take(i as int),
    {
        let ghost before = parts.deep_view();
        assert(model[i as int] == all@[i as int]@);
        let mut part = all[i].key.clone();
        part.append("=\"");
        part.append(escape_label_value(all[i].value.as_str()).as_str());
        part.append("\"");
        parts.push(part);
        assert(parts.deep_view() =~= before.push(part@));
    }
    assert(want.take(want.len() as int) =~= want);
    let mut out = "{".to_owned();
    out.append(join(&borrowed(&parts), ",").as_str());
    out.append("}");
    out
}

/// The time and the line of a log entry, or what is wrong with it.
pub open spec fn stream_entry(v: JsonView) -> Result<(Seq<char>, Seq<char>), Seq<char>> {
    match v.items() {
        None => Err("expected stream entry [\"<ts>\", \"<line>\"], got "@ + debug(v)),
        Some(arr) => if arr.len() != 2 {
            Err("expected stream entry of length 2, got length "@ + decimal(arr.len()))
        } else if arr[0].text() is None {
            Err("stream entry timestamp is not a string: "@ + debug(v))
        } else if arr[1].text() is None {
            Err("stream entry line is not a string: "@ + debug(v))
        } else {
            Ok((arr[0].text()->0, arr[1].text()->0))
        },
    }
}

fn complaint(head: &str, v: &Json) -> (e: Error)
    ensures
        e.message@ == head@ + debug(v@),
{
    let mut message = head.to_owned();
    message.append(write_debug(v).as_str());
    Error { message }
}

fn length_complaint(head: &str, n: usize) -> (e: Error)
    ensures
        e.message@ == head@ + decimal(n as nat),
{
    let mut message = head.to_owned();
    message.append(write_u64(n as u64).as_str());
    Error { message }
}

/// The time and the line of a log entry.
pub fn parse_stream_entry(v: &Json) -> (r: Result<(String, String), Error>)
    ensures
        match r {
            Ok((ts, line)) => stream_entry(v@) == Ok::<(Seq<char>, Seq<char>), Seq<char>>((ts@, line@)),
            Err(e) => stream_entry(v@) == Err::<(Seq<char>, Seq<char>), Seq<char>>(e.message@),
        },
{
    let arr = match v.as_array() {
        Some(arr) => arr,
        None => {
            return Err(complaint("expected stream entry [\"<ts>\", \"<line>\"], got ", v));
        },
    };
    assert(arr.deep_view().len() == arr@.len());
    if arr.len() != 2 {
        return Err(length_complaint("expected stream entry of length 2, got length ", arr.len()));
    }
    assert(arr.deep_view()[0] == arr@[0]@ && arr.deep_view()[1] == arr@[1]@);
    match (arr[0].as_str(), arr[1].as_str()) {
        (None, _) => Err(complaint("stream entry timestamp is not a string: ", v)),
        (Some(_), None) => Err(complaint("stream entry line is not a string: ", v)),
        (Some(ts), Some(line)) => Ok((ts.to_owned(), line.to_owned())),
    }
}

/// The time of a sample as text: a number as it is written, a text as it is.
pub open spec fn time_text(v: JsonView) -> Option<Seq<char>> {
    match v {
        JsonView::Int(_) => Some(compact(v)),
        JsonView::Float(t) => Some(t),
        JsonView::Text(t) => Some(t),
        _ => None,
    }
}

/// The time and the value of a sample, or what is wrong with it.
pub open spec fn sample_pair(v: JsonView) -> Result<(Seq<char>, Seq<char>), Seq<char>> {
    match v.items() {
        None => Err("expected sample [<ts>, \"<value>\"], got "@ + debug(v)),
        Some(arr) => if arr.len() != 2 {
            Err("expected sample of length 2, got length "@ + decimal(arr.len()))
        } else if time_text(arr[0]) is None {
            Err("sample timestamp is not a number or string: "@ + debug(arr[0]))
        } else if arr[1].text() is None {
            Err("sample value is not a string: "@ + debug(v))
        } else {
            Ok((time_text(arr[0])->0, arr[1].text()->0))
        },
    }
}

fn read_time(v: &Json) -> (r: Option<String>)
    ensures
        opt(r) == time_text(v@),
{
    match v {
        Json::Unsigned(n) => Some(write_u64(*n)),
        Json::Negative(n) => Some(write_i64(*n)),
        Json::Float(t) => Some(t.clone()),
        Json::Text(t) => Some(t.clone()),
        _ => None,
    }
}

/// The time and the value of a sample.
pub fn parse_sample_pair(v: &Json) -> (r: Result<(String, String), Error>)
    ensures
        match r {
            Ok((ts, value)) => sample_pair(v@) == Ok::<(Seq<char>, Seq<char>), Seq<char>>((ts@, value@)),
            Err(e) => sample_pair(v@) == Err::<(Seq<char>, Seq<char>), Seq<char>>(e.message@),
        },
{
    let arr = match v.as_array() {
        Some(arr) => arr,
        None => {
            return Err(complaint("expected sample [<ts>, \"<value>\"], got ", v));
        },
    };
    assert(arr.deep_view().len() == arr@.len());
    if arr.len() != 2 {
        return Err(length_complaint("expected sample of length 2, got length ", arr.len()));
    }
    assert(arr.deep_view()[0] == arr@[0]@ && arr.deep_view()[1] == arr@[1]@);
    let ts = match read_time(&arr[0]) {
        Some(ts) => ts,
        None => {
            return Err(complaint("sample timestamp is not a number or string: ", &arr[0]));
        },
    };
    match arr[1].as_str() {
        Some(value) => Ok((ts, value.to_owned())),
        None => Err(complaint("sample value is not a string: ", v)),
    }
}

/// The row of one log entry.
pub open spec fn entry_row(labels: Seq<char>) -> spec_fn(JsonView) -> Result<Seq<Seq<char>>, Seq<char>> {
    |entry: JsonView|
        match stream_entry(entry) {
            Ok((ts, line)) => Ok(seq![row(seq![ts, labels, in_one_field(line)])]),
            Err(e) => Err(e),
        }
}

/// The rows of one stream.
pub open spec fn stream_rows() -> spec_fn(JsonView) -> Result<Seq<Seq<char>>, Seq<char>> {
    |s: JsonView|
        match items_of(s.get("values"@)) {
            Some(values) => gathered_or(values, entry_row(label_text(s.get("stream"@)))),
            None => Err("stream has no `values` array"@),
        }
}

/// The row of one series of a vector.
pub open spec fn vector_rows() -> spec_fn(JsonView) -> Result<Seq<Seq<char>>, Seq<char>> {
    |s: JsonView|
        match s.get("value"@) {
            Some(pair) => match sample_pair(pair) {
                Ok((_, value)) => Ok(seq![row(seq![label_text(s.get("metric"@)), value])]),
                Err(e) => Err(e),
            },
            None => Err("vector series has no `value`"@),
        }
}

/// The row of one sample of a matrix.
pub open spec fn sample_row(labels: Seq<char>) -> spec_fn(JsonView) -> Result<Seq<Seq<char>>, Seq<char>> {
    |sample: JsonView|
        match sample_pair(sample) {
            Ok((ts, value)) => Ok(seq![row(seq![labels, ts, value])]),
            Err(e) => Err(e),
        }
}

/// The rows of one series of a matrix.
pub open spec fn matrix_rows() -> spec_fn(JsonView) -> Result<Seq<Seq<char>>, Seq<char>> {
    |s: JsonView|
        match items_of(s.get("values"@)) {
            Some(values) => gathered_or(values, sample_row(label_text(s.get("metric"@)))),
            None => Err("matrix series has no `values` array"@),
        }
}

/// The rows of a result of the given type, or what is wrong with it.
pub open spec fn typed_rows(kind: Seq<char>, result: JsonView) -> Result<Seq<Seq<char>>, Seq<char>> {
    if kind == "streams"@ {
        match result.items() {
            Some(items) => gathered_or(items, stream_rows()),
            None => Err("streams `result` is not an array"@),
        }
    } else if kind == "vector"@ {
        match result.items() {
            Some(items) => gathered_or(items, vector_rows()),
            None => Err("vector `result` is not an array"@),
        }
    } else if kind == "matrix"@ {
        match result.items() {
            Some(items) => gathered_or(items, matrix_rows()),
            None => Err("matrix `result` is not an array"@),
        }
    } else {
        Err("unknown Loki resultType "@ + quoted(kind))
    }
}

/// The rows of the data of a query's reply, or what is wrong with them.
pub open spec fn result_rows() -> spec_fn(JsonView) -> Result<Seq<Seq<char>>, Seq<char>> {
    |data: JsonView|
        match text_of(data.get("resultType"@)) {
            None => Err("Loki query response has no `resultType`"@),
            Some(kind) => match data.get("result"@) {
                None => Err("Loki query response has no `result`"@),
                Some(result) => typed_rows(kind, result),
            },
        }
}

/// What a list of rows, or a complaint, says.
pub open spec fn rows_model(r: Result<Vec<String>, Error>) -> Result<Seq<Seq<char>>, Seq<char>> {
    match r {
        Ok(rows) => Ok(rows.deep_view()),
        Err(e) => Err(e.message@),
    }
}

fn complain(message: &str) -> (e: Error)
    ensures
        e.message@ == message@,
{
    Error { message: message.to_owned() }
}

fn one_stream(s: &Json) -> (r: Result<Vec<String>, Error>)
    ensures
        rows_model(r) == stream_rows()(s@),
{
    let labels = format_labels(s.get("stream"));
    let values = match array_of(s.get("values")) {
        Some(values) => values,
        None => {
            return Err(complain("stream has no `values` array"));
        },
    };
    let ghost all = values.deep_view();
    let ghost f = entry_row(labels@);
    let mut out: Vec<String> = Vec::new();
    assert(all.take(0) =~= seq![]);
    assert(out.deep_view() =~= seq![]);
    for i in 0..values.len()
        invariant
            all == values.deep_view(),
            f == entry_row(labels@),
            stream_rows()(s@) == gathered_or(all, f),
            gathered_or(all.take(i as int), f) == Ok::<Seq<Seq<char>>, Seq<char>>(out.deep_view()),
    {
        proof {
            gathered_or_step(all, f, i as int);
            assert(values@[i as int]@ == all[i as int]);
        }
        let ghost before = out.deep_view();
        match parse_stream_entry(&values[i]) {
            Ok((ts, line)) => {
                let flat = collapse_ws(line.as_str());
                let fields = vec![ts.as_str(), labels.as_str(), flat.as_str()];
                assert(fields.deep_view() =~= seq![ts@, labels@, flat@]);
                let text = write_row(&fields);
                out.push(text);
                assert(out.deep_view() =~= before + seq![text@]);
            },
            Err(e) => {
                return Err(e);
            },
        }
    }
    assert(all.take(all.len() as int) =~= all);
    Ok(out)
}

fn one_matrix(s: &Json) -> (r: Result<Vec<String>, Error>)
    ensures
        rows_model(r) == matrix_rows()(s@),
{
    let labels = format_labels(s.get("metric"));
    let values = match array_of(s.get("values")) {
        Some(values) => values,
        None => {
            return Err(complain("matrix series has no `values` array"));
        },
    };
    let ghost all = values.deep_view();
    let ghost f = sample_row(labels@);
    let mut out: Vec<String> = Vec::new();
    assert(all.take(0) =~= seq![]);
    assert(out.deep_view() =~= seq![]);
    for i in 0..values.len()
        invariant
            all == values.deep_view(),
            f == sample_row(labels@),
            matrix_rows()(s@) == gathered_or(all, f),
            gathered_or(all.take(i as int), f) == Ok::<Seq<Seq<char>>, Seq<char>>(out.deep_view()),
    {
        proof {
            gathered_or_step(all, f, i as int);
            assert(values@[i as int]@ == all[i as int]);
        }
        let ghost before = out.deep_view();
        match parse_sample_pair(&values[i]) {
            Ok((ts, value)) => {
                let fields = vec![labels.as_str(), ts.as_str(), value.as_str()];
                assert(fields.deep_view() =~= seq![labels@, ts@, value@]);
                let text = write_row(&fields);
                out.push(text);
                assert(out.deep_view() =~= before + seq![text@]);
            },
            Err(e) => {
                return Err(e);
            },
        }
    }
    assert(all.take(all.len() as int) =~= all);
    Ok(out)
}

fn one_vector(s: &Json) -> (r: Result<Vec<String>, Error>)
    ensures
        rows_model(r) == vector_rows()(s@),
{
    let pair = match s.get("value") {
        Some(pair) => pair,
        None => {
            return Err(complain("vector series has no `value`"));
        },
    };
    match parse_sample_pair(pair) {
        Ok((_ts, value)) => {
            let labels = format_labels(s.get("metric"));
            let fields = vec![labels.as_str(), value.as_str()];
            assert(fields.deep_view() =~= seq![labels@, value@]);
            let text = write_row(&fields);
            let out = vec![text];
            assert(out.deep_view() =~= seq![text@]);
            Ok(out)
        },
        Err(e) => Err(e),
    }
}

/// The rows of streams: one per log entry.
pub fn format_streams(result: &Json) -> (r: Result<Vec<String>, Error>)
    ensures
        rows_model(r) == match result@.items() {
            Some(items) => gathered_or(items, stream_rows()),
            None => Err("streams `result` is not an array"@),
        },
{
    let items = match result.as_array() {
        Some(items) => items,
        None => {
            return Err(complain("streams `result` is not an array"));
        },
    };
    let ghost all = items.deep_view();
    let ghost f = stream_rows();
    let mut out: Vec<String> = Vec::new();
    assert(all.take(0) =~= seq![]);
    assert(out.deep_view() =~= seq![]);
    for i in 0..items.len()
        invariant
            all == items.deep_view(),
            result@.items() == Some(all),
            f == stream_rows(),
            gathered_or(all.take(i as int), f) == Ok::<Seq<Seq<char>>, Seq<char>>(out.deep_view()),
    {
        proof {
            gathered_or_step(all, f, i as int);
            assert(items@[i as int]@ == all[i as int]);
        }
        let ghost before = out.deep_view();
        match one_stream(&items[i]) {
            Ok(more) => {
                let mut more = more;
                let ghost added = more.deep_view();
                out.append(&mut more);
                assert(out.deep_view() =~= before + added);
            },
            Err(e) => {
                return Err(e);
            },
        }
    }
    assert(all.take(all.len() as int) =~= all);
    Ok(out)
}

/// The rows of a vector: one per series.
pub fn format_vector(result: &Json) -> (r: Result<Vec<String>, Error>)
    ensures
        rows_model(r) == match result@.items() {
            Some(items) => gathered_or(items, vector_rows()),
            None => Err("vector `result` is not an array"@),
        },
{
    let items = match result.as_array() {
        Some(items) => items,
        None => {
            return Err(complain("vector `result` is not an array"));
        },
    };
    let ghost all = items.deep_view();
    let ghost f = vector_rows();
    let mut out: Vec<String> = Vec::new();
    assert(all.take(0) =~= seq![]);
    assert(out.deep_view() =~= seq![]);
    for i in 0..items.len()
        invariant
            all == items.deep_view(),
            result@.items() == Some(all),
            f == vector_rows(),
            gathered_or(all.take(i as int), f) == Ok::<Seq<Seq<char>>, Seq<char>>(out.deep_view()),
    {
        proof {
            gathered_or_step(all, f, i as int);
            assert(items@[i as int]@ == all[i as int]);
        }
        let ghost before = out.deep_view();
        match one_vector(&items[i]) {
            Ok(more) => {
                let mut more = more;
                let ghost added = more.deep_view();
                out.append(&mut more);
                assert(out.deep_view() =~= before + added);
            },
            Err(e) => {
                return Err(e);
            },
        }
    }
    assert(all.take(all.len() as int) =~= all);
    Ok(out)
}

/// The rows of a matrix: one per sample of each series.
pub fn format_matrix(result: &Json) -> (r: Result<Vec<String>, Error>)
    ensures
        rows_model(r) == match result@.items() {
            Some(items) => gathered_or(items, matrix_rows()),
            None => Err("matrix `result` is not an array"@),
        },
{
    let items = match result.as_array() {
        Some(items) => items,
        None => {
            return Err(complain("matrix `result` is not an array"));
        },
    };
    let ghost all = items.deep_view();
    let ghost f = matrix_rows();
    let mut out: Vec<String> = Vec::new();
    assert(all.take(0) =~= seq![]);
    assert(out.deep_view() =~= seq![]);
    for i in 0..items.len()
        invariant
            all == items.deep_view(),
            result@.items() == Some(all),
            f == matrix_rows(),
            gathered_or(all.take(i as int), f) == Ok::<Seq<Seq<char>>, Seq<char>>(out.deep_view()),
    {
        proof {
            gathered_or_step(all, f, i as int);
            assert(items@[i as int]@ == all[i as int]);
        }
        let ghost before = out.deep_view();
        match one_matrix(&items[i]) {
            Ok(more) => {
                let mut more = more;
                let ghost added = more.deep_view();
                out.append(&mut more);
                assert(out.deep_view() =~= before + added);
            },
            Err(e) => {
                return Err(e);
            },
        }
    }
    assert(all.take(all.len() as int) =~= all);
    Ok(out)
}

/// The rows of the data of a query's reply.
pub fn format_result(data: &Json) -> (r: Result<Vec<String>, Error>)
    ensures
        rows_model(r) == result_rows()(data@),
{
    let kind = match str_of(data.get("resultType")) {
        Some(kind) => kind,
        None => {
            return Err(complain("Loki query response has no `resultType`"));
        },
    };
    let result = match data.get("result") {
        Some(result) => result,
        None => {
            return Err(complain("Loki query response has no `result`"));
        },
    };
    proof {
        reveal_strlit("streams");
        reveal_strlit("vector");
        reveal_strlit("matrix");
    }
    if same(kind, "streams") {
        format_streams(result)
    } else if same(kind, "vector") {
        format_vector(result)
    } else if same(kind, "matrix") {
        format_matrix(result)
    } else {
        let mut message = "unknown Loki resultType ".to_owned();
        message.append(quote(kind).as_str());
        Err(Error { message })
    }
}

/// The path that a query is sent to.
pub open spec fn query_path(query: Seq<char>) -> Seq<char> {
    "/loki/api/v1/query?query="@ + encoded(query)
}

/// The path that a query is sent to.
pub fn request_path(args: &QueryArgs) -> (r: String)
    ensures
        r@ == query_path(args.query@),
{
    let mut out = "/loki/api/v1/query?query=".to_owned();
    out.append(urlencode(args.query.as_str()).as_str());
    out
}

/// Answers a query from the server's reply to the request for its path.
pub fn run(args: &QueryArgs, client: &LokiClient, reply: HttpReply) -> (r: Result<Report, Error>)
    ensures
        ends_with(
            r,
            args.common,
            loki_data(client.base_url@, query_path(args.query@), reply@),
            result_rows(),
        ),
{
    let path = request_path(args);
    match run_loki(&args.common, client, path.as_str(), reply) {
        Err(e) => Err(e),
        Ok(Ok(report)) => {
            assert(ends_with(
                Ok(report),
                args.common,
                loki_data(client.base_url@, query_path(args.query@), reply@),
                result_rows(),
            ));
            Ok(report)
        },
        Ok(Err(data)) => match format_result(&data) {
            Ok(rows) => Ok(emit_lines(rows, args.common.limit)),
            Err(e) => Err(e),
        },
    }
}

/// A label's value with its escapes undone.
pub open spec fn label_unescaped(s: Seq<char>) -> Seq<char>
    decreases s.len(),
{
    if s.len() == 0 {
        s
    } else if s.len() >= 2 && s[0] == '\\' {
        seq![if s[1] == 'n' { '\n' } else { s[1] }] + label_unescaped(s.skip(2))
    } else {
        seq![s[0]] + label_unescaped(s.drop_first())
    }
}

/// An escaped value, undone, is the value, so that two values never look the same.
pub proof fn label_value_reads_back(s: Seq<char>)
    ensures
        label_unescaped(escaped(s)) == s,
        !escaped(s).contains('\n'),
    decreases s.len(),
{
    let f = |c: char| escaped_char(c);
    if s.len() > 0 {
        let rest = s.drop_first();
        label_value_reads_back(rest);
        gathered_first(s, f);
        let x = escaped(rest);
        let e = escaped_char(s[0]);
        assert(escaped(s) == e + x);
        if e.len() == 2 {
            assert((e + x).skip(2) =~= x);
        } else {
            assert((e + x).drop_first() =~= x);
        }
        assert(label_unescaped(e + x) == seq![s[0]] + label_unescaped(x));
        assert(seq![s[0]] + rest =~= s);
        assert forall|i: int| 0 <= i < (e + x).len() implies (e + x)[i] != '\n' by {
            if i >= e.len() {
                assert((e + x)[i] == x[i - e.len()]);
            }
        }
    } else {
        assert(escaped(s) =~= s);
    }
}

/// The bytes that a text in a URL stands for.
pub open spec fn url_bytes(s: Seq<char>) -> Seq<u8>
    decreases s.len(),
{
    if s.len() == 0 {
        seq![]
    } else if s.len() >= 3 && s[0] == '%' {
        seq![(or_zero(digit(s[1], 16)) * 16 + or_zero(digit(s[2], 16))) as u8] + url_bytes(s.skip(3))
    } else {
        seq![s[0] as u8] + url_bytes(s.drop_first())
    }
}

pub open spec fn or_zero(n: Option<nat>) -> nat {
    match n {
        Some(n) => n,
        None => 0,
    }
}

/// Whether a character can stand in a URL: unreserved, or the percent sign of an escape.
pub open spec fn url_char(c: char) -> bool {
    c == '%' || (c as u32 <= 0xff && unreserved(c as u8))
}

proof fn encoded_bytes_read_back(bytes: Seq<u8>)
    ensures
        url_bytes(encoded_bytes(bytes)) == bytes,
        forall|i: int| 0 <= i < encoded_bytes(bytes).len() ==> url_char(#[trigger] encoded_bytes(bytes)[i]),
    decreases bytes.len(),
{
    let f = |b: u8| encoded_byte(b);
    if bytes.len() > 0 {
        let rest = bytes.drop_first();
        encoded_bytes_read_back(rest);
        gathered_first(bytes, f);
        let x = encoded_bytes(rest);
        let b = bytes[0];
        let e = encoded_byte(b);
        assert(encoded_bytes(bytes) == e + x);
        if unreserved(b) {
            assert((e + x).drop_first() =~= x);
            assert(b as char != '%');
        } else {
            assert((e + x).skip(3) =~= x);
            assert(digit(upper_digit(b as int / 16), 16) == Some((b as int / 16) as nat));
            assert(digit(upper_digit(b as int % 16), 16) == Some((b as int % 16) as nat));
        }
        assert(url_bytes(e + x) == seq![b] + url_bytes(x));
        assert(seq![b] + rest =~= bytes);
        assert forall|i: int| 0 <= i < (e + x).len() implies url_char(#[trigger] (e + x)[i]) by {
            if i >= e.len() {
                assert((e + x)[i] == x[i - e.len()]);
            }
        }
    } else {
        assert(encoded_bytes(bytes) =~= seq![]);
        assert(bytes =~= seq![]);
    }
}

/// A text in a URL is made of unreserved characters and percent signs alone, and stands for the
/// UTF-8 of the text, so that no two texts look the same.
pub proof fn url_text_reads_back(s: Seq<char>)
    ensures
        url_bytes(encoded(s)) == vstd::utf8::encode_utf8(s),
        forall|i: int| 0 <= i < encoded(s).len() ==> url_char(#[trigger] encoded(s)[i]),
{
    encoded_bytes_read_back(vstd::utf8::encode_utf8(s));
}

/// The entry of a stream is a pair of texts, and nothing else is one.
pub open spec fn entry_of(v: JsonView, ts: Seq<char>, line: Seq<char>) -> bool {
    v == JsonView::Array(seq![JsonView::Text(ts), JsonView::Text(line)])
}

/// The rows of streams: every entry of every stream has one, with its time, the labels of its
/// stream and its line in one field, and nothing else has one.
pub proof fn every_entry_has_a_row(
    streams: Seq<JsonView>,
    s: int,
    values: Seq<JsonView>,
    e: int,
    ts: Seq<char>,
    line: Seq<char>,
)
    requires
        typed_rows("streams"@, JsonView::Array(streams)) is Ok,
        0 <= s < streams.len(),
        streams[s].get("values"@) == Some(JsonView::Array(values)),
        0 <= e < values.len(),
        entry_of(values[e], ts, line),
    ensures
        typed_rows("streams"@, JsonView::Array(streams))->Ok_0.contains(
            row(seq![ts, label_text(streams[s].get("stream"@)), in_one_field(line)]),
        ),
{
    let labels = label_text(streams[s].get("stream"@));
    let out = row(seq![ts, labels, in_one_field(line)]);
    gathered_or_holds(streams, stream_rows(), out, 0);
    assert(stream_rows()(streams[s]) is Ok);
    gathered_or_holds(values, entry_row(labels), out, 0);
    assert(entry_row(labels)(values[e]) is Ok);
    assert(entry_row(labels)(values[e])->Ok_0[0] == out);
    assert(entry_row(labels)(values[e])->Ok_0.contains(out));
    assert(stream_rows()(streams[s])->Ok_0.contains(out));
}

/// The rows of a vector: every series has one, with its labels and the value of its sample, and
/// there are no others.
pub proof fn every_series_has_a_row(series: Seq<JsonView>, out: Seq<char>)
    requires
        typed_rows("vector"@, JsonView::Array(series)) is Ok,
    ensures
        typed_rows("vector"@, JsonView::Array(series))->Ok_0.contains(out) <==> exists|s: int|
            0 <= s < series.len() && vector_line(#[trigger] series[s], out),
{
    kinds_of_results_differ();
    let f = vector_rows();
    gathered_or_holds(series, f, out, 0);
    assert forall|s: int| 0 <= s < series.len() implies f(#[trigger] series[s])->Ok_0.contains(out) == vector_line(
        series[s],
        out,
    ) by {
        assert(f(series[s]) is Ok);
        let rows = f(series[s])->Ok_0;
        assert(rows.len() == 1);
        if rows[0] == out {
            assert(rows.contains(out));
        }
    }
    if typed_rows("vector"@, JsonView::Array(series))->Ok_0.contains(out) {
        let s = choose|s: int| 0 <= s < series.len() && f(#[trigger] series[s])->Ok_0.contains(out);
        assert(vector_line(series[s], out));
    }
    if exists|s: int| 0 <= s < series.len() && vector_line(#[trigger] series[s], out) {
        let s = choose|s: int| 0 <= s < series.len() && vector_line(#[trigger] series[s], out);
        assert(f(series[s])->Ok_0.contains(out));
    }
}

/// The row of a series of a vector.
pub open spec fn vector_line(s: JsonView, out: Seq<char>) -> bool {
    match s.get("value"@) {
        Some(JsonView::Array(pair)) => pair.len() == 2 && match pair[1] {
            JsonView::Text(v) => out == row(seq![label_text(s.get("metric"@)), v]),
            _ => false,
        },
        _ => false,
    }
}

/// The rows of a matrix: every sample of every series has one, with the labels of its series, its
/// time and its value.
pub proof fn every_sample_has_a_row(
    series: Seq<JsonView>,
    s: int,
    values: Seq<JsonView>,
    e: int,
    time: JsonView,
    v: Seq<char>,
    ts: Seq<char>,
)
    requires
        typed_rows("matrix"@, JsonView::Array(series)) is Ok,
        0 <= s < series.len(),
        series[s].get("values"@) == Some(JsonView::Array(values)),
        0 <= e < values.len(),
        values[e] == JsonView::Array(seq![time, JsonView::Text(v)]),
        time == JsonView::Text(ts) || time == JsonView::Float(ts) || (time is Int && ts == decimal_int(time->Int_0)),
    ensures
        typed_rows("matrix"@, JsonView::Array(series))->Ok_0.contains(
            row(seq![label_text(series[s].get("metric"@)), ts, v]),
        ),
{
    kinds_of_results_differ();
    let labels = label_text(series[s].get("metric"@));
    let out = row(seq![labels, ts, v]);
    gathered_or_holds(series, matrix_rows(), out, 0);
    assert(matrix_rows()(series[s]) is Ok);
    gathered_or_holds(values, sample_row(labels), out, 0);
    assert(sample_row(labels)(values[e]) is Ok);
    assert(sample_row(labels)(values[e])->Ok_0[0] == out);
    assert(sample_row(labels)(values[e])->Ok_0.contains(out));
    assert(matrix_rows()(series[s])->Ok_0.contains(out));
}

proof fn kinds_of_results_differ()
    ensures
        "streams"@ != "vector"@ && "streams"@ != "matrix"@ && "vector"@ != "matrix"@,
{
    reveal_strlit("streams");
    reveal_strlit("vector");
    reveal_strlit("matrix");
    assert("streams"@[0] == 's' && "vector"@[0] == 'v' && "matrix"@[0] == 'm');
}

/// A set of labels is written in braces, by name, each with its value in quotes and escaped, and
/// none is left out; without any label the braces are empty.
pub proof fn labels_are_written_by_name(members: Seq<(Seq<char>, JsonView)>, i: int, k: Seq<char>, v: Seq<char>)
    ensures
        label_pairs(members).len() == members.len(),
        0 <= i < members.len() ==> label_pairs(members).contains((members[i].0, said(Some(members[i].1), ""@))),
        forall|a: int, b: int|
            0 <= a < b < label_pairs(members).len() ==> text_le(
                (#[trigger] label_pairs(members)[a]).0,
                (#[trigger] label_pairs(members)[b]).0,
            ),
        label_text(None) == seq!['{', '}'],
        label_text(Some(JsonView::Object(seq![]))) == seq!['{', '}'],
        label_text(Some(JsonView::Object(seq![(k, JsonView::Text(v))]))) == seq!['{'] + k + seq!['=', '"'] + escaped(v)
            + seq!['"', '}'],
{
    let pairs = Seq::new(members.len(), |i: int| (members[i].0, or_text(members[i].1.text(), ""@)));
    sorted_is_a_stable_sort::<Pair>(pairs);
    let all = label_pairs(members);
    assert forall|a: int, b: int| 0 <= a < b < all.len() implies text_le((#[trigger] all[a]).0, (#[trigger] all[b]).0) by {
        assert(Pair::le(all[a], all[b]));
    }
    if 0 <= i < members.len() {
        sorted_holds::<Pair>(pairs, pairs[i]);
        assert(pairs.contains(pairs[i]));
    }
    reveal_strlit("{");
    reveal_strlit("}");
    reveal_strlit("{}");
    reveal_strlit("=\"");
    reveal_strlit("\"");
    assert("{"@ =~= seq!['{'] && "}"@ =~= seq!['}'] && "{}"@ =~= seq!['{', '}'] && "=\""@ =~= seq!['=', '"'] && "\""@
        =~= seq!['"']);
    let none = Seq::<(Seq<char>, JsonView)>::empty();
    let np = label_pairs(none);
    sorted_is_a_stable_sort::<Pair>(Seq::new(none.len(), |i: int| (none[i].0, or_text(none[i].1.text(), ""@))));
    assert(np.len() == 0);
    assert(label_text(Some(JsonView::Object(none))) =~= seq!['{', '}']);
    let one = seq![(k, JsonView::Text(v))];
    let op = Seq::new(one.len(), |i: int| (one[i].0, or_text(one[i].1.text(), ""@)));
    assert(op =~= seq![(k, v)]);
    assert(op.drop_last() =~= Seq::<(Seq<char>, Seq<char>)>::empty());
    reveal_with_fuel(sorted, 2);
    assert(sorted::<Pair>(op) =~= seq![(k, v)]);
    assert(label_text(Some(JsonView::Object(one))) =~= seq!['{'] + k + seq!['=', '"'] + escaped(v) + seq!['"', '}']);
}

/// An entry is read just where it is a pair of texts, and a sample just where it is a pair of a number
/// or a text and a text; what is read is what the pair holds.
pub proof fn pairs_alone_are_read(v: JsonView, ts: Seq<char>, line: Seq<char>, n: int)
    ensures
        entry_of(v, ts, line) ==> stream_entry(v) == Ok::<(Seq<char>, Seq<char>), Seq<char>>((ts, line)),
        stream_entry(v) == Ok::<(Seq<char>, Seq<char>), Seq<char>>((ts, line)) ==> entry_of(v, ts, line),
        entry_of(v, ts, line) ==> sample_pair(v) == Ok::<(Seq<char>, Seq<char>), Seq<char>>((ts, line)),
        v == JsonView::Array(seq![JsonView::Int(n), JsonView::Text(line)]) ==> sample_pair(v) == Ok::<
            (Seq<char>, Seq<char>),
            Seq<char>,
        >((compact(JsonView::Int(n)), line)),
        v == JsonView::Array(seq![JsonView::Float(ts), JsonView::Text(line)]) ==> sample_pair(v) == Ok::<
            (Seq<char>, Seq<char>),
            Seq<char>,
        >((ts, line)),
        !(v is Array) ==> stream_entry(v) is Err && sample_pair(v) is Err,
        v is Array && v->Array_0.len() != 2 ==> stream_entry(v) is Err && sample_pair(v) is Err,
        v is Array && v->Array_0.len() == 2 && !(v->Array_0[1] is Text) ==> stream_entry(v) is Err && sample_pair(v) is Err,
        v is Array && v->Array_0.len() == 2 && !(v->Array_0[0] is Text) ==> stream_entry(v) is Err,
        v is Array && v->Array_0.len() == 2 && (v->Array_0[0] is Null || v->Array_0[0] is Bool || v->Array_0[0] is Array
            || v->Array_0[0] is Object) ==> sample_pair(v) is Err,
{
    if stream_entry(v) == Ok::<(Seq<char>, Seq<char>), Seq<char>>((ts, line)) {
        let arr = v->Array_0;
        assert(arr =~= seq![JsonView::Text(ts), JsonView::Text(line)]);
    }
}

/// The rows of a reply are those of its result as its type reads it; a reply without a type, without a
/// result, of another type or whose result is no list has none.
pub proof fn replies_are_read_by_their_type(data: JsonView, kind: Seq<char>, result: JsonView)
    ensures
        data.get("resultType"@) == Some(JsonView::Text(kind)) && data.get("result"@) == Some(result) ==> result_rows()(data)
            == typed_rows(kind, result),
        data.get("resultType"@) is None || !(data.get("resultType"@)->0 is Text) ==> result_rows()(data) is Err,
        data.get("result"@) is None ==> result_rows()(data) is Err,
        kind != "streams"@ && kind != "vector"@ && kind != "matrix"@ ==> typed_rows(kind, result) is Err,
        !(result is Array) ==> typed_rows(kind, result) is Err,
{
}

/// No two queries are asked for at the same place.
pub proof fn queries_have_their_own_places(a: Seq<char>, b: Seq<char>)
    ensures
        query_path(a).take("/loki/api/v1/query?query="@.len() as int) == "/loki/api/v1/query?query="@,
        url_bytes(query_path(a).skip("/loki/api/v1/query?query="@.len() as int)) == vstd::utf8::encode_utf8(a),
        query_path(a) == query_path(b) ==> vstd::utf8::encode_utf8(a) == vstd::utf8::encode_utf8(b),
{
    let head = "/loki/api/v1/query?query="@;
    assert(query_path(a).take(head.len() as int) =~= head);
    assert(query_path(a).skip(head.len() as int) =~= encoded(a));
    assert(query_path(b).skip(head.len() as int) =~= encoded(b));
    url_text_reads_back(a);
    url_text_reads_back(b);
}

} // verus!
