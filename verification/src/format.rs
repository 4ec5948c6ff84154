//! JSON values as text.
use crate::gather::{gathered, gathered_first};
use crate::number::{decimal_int, decimal_int_reads_back, digit, digit_char, signed, write_i64, write_u64};
use crate::text::{borrowed, join, joined, pieces, quote, quoted};
use crate::value::{Json, JsonView};
use vstd::prelude::*;
use vstd::string::*;

verus! {

/// A character as it stands inside a JSON string.
pub open spec fn escaped_char(c: char) -> Seq<char> {
    if c == '"' {
        seq!['\\', '"']
    } else if c == '\\' {
        seq!['\\', '\\']
    } else if c == '\u{8}' {
        seq!['\\', 'b']
    } else if c == '\t' {
        seq!['\\', 't']
    } else if c == '\n' {
        seq!['\\', 'n']
    } else if c == '\u{c}' {
        seq!['\\', 'f']
    } else if c == '\r' {
        seq!['\\', 'r']
    } else if 32 > c as nat {
        seq!['\\', 'u', '0', '0', digit_char(c as nat / 16), digit_char(c as nat % 16)]
    } else {
        seq![c]
    }
}

/// A text as a JSON string, in quotes, with what must be escaped escaped.
pub open spec fn json_string(s: Seq<char>) -> Seq<char> {
    seq!['"'] + gathered(s, |c: char| escaped_char(c)) + seq!['"']
}

/// The text that `serde_json::to_string` writes for a string: a JSON string in which the quote,
/// the backslash and the characters below the space are escaped and all others stand as they
/// are.
#[verifier::external_body]
pub(crate) fn write_json_string(s: &str) -> (r: String)
    ensures
        r@ == json_string(s@),
{
    serde_json::to_string(s).unwrap_or_default()
}

/// A JSON value on one line, without spaces between its parts.
pub open spec fn compact(v: JsonView) -> Seq<char>
    decreases v,
{
    match v {
        JsonView::Null => "null"@,
        JsonView::Bool(b) => if b {
            "true"@
        } else {
            "false"@
        },
        JsonView::Int(n) => decimal_int(n),
        JsonView::Float(t) => t,
        JsonView::Text(t) => json_string(t),
        JsonView::Array(items) => "["@ + joined(compact_items(items), ","@) + "]"@,
        JsonView::Object(members) => "{"@ + joined(compact_members(members), ","@) + "}"@,
    }
}

/// The items of an array, each on one line.
pub open spec fn compact_items(items: Seq<JsonView>) -> Seq<Seq<char>>
    decreases items,
{
    Seq::new(
        items.len(),
        |i: int|
            if 0 <= i < items.len() {
                compact(items[i])
            } else {
                seq![]
            },
    )
}

/// The members of an object, each on one line.
pub open spec fn compact_members(members: Seq<(Seq<char>, JsonView)>) -> Seq<Seq<char>>
    decreases members,
{
    Seq::new(
        members.len(),
        |i: int|
            if 0 <= i < members.len() {
                json_string(members[i].0) + ":"@ + compact(members[i].1)
            } else {
                seq![]
            },
    )
}

/// A JSON value with each part on a line of its own, the parts of what `pad` precedes two
/// spaces further in.
pub open spec fn pretty(v: JsonView, pad: Seq<char>) -> Seq<char>
    decreases v,
{
    match v {
        JsonView::Array(items) => if items.len() == 0 {
            "[]"@
        } else {
            "[\n"@ + joined(pretty_items(items, pad + "  "@), ",\n"@) + "\n"@ + pad + "]"@
        },
        JsonView::Object(members) => if members.len() == 0 {
            "{}"@
        } else {
            "{\n"@ + joined(pretty_members(members, pad + "  "@), ",\n"@) + "\n"@ + pad + "}"@
        },
        _ => compact(v),
    }
}

/// The items of an array, each behind `pad`.
pub open spec fn pretty_items(items: Seq<JsonView>, pad: Seq<char>) -> Seq<Seq<char>>
    decreases items,
{
    Seq::new(
        items.len(),
        |i: int|
            if 0 <= i < items.len() {
                pad + pretty(items[i], pad)
            } else {
                seq![]
            },
    )
}

/// The members of an object, each behind `pad`.
pub open spec fn pretty_members(members: Seq<(Seq<char>, JsonView)>, pad: Seq<char>) -> Seq<Seq<char>>
    decreases members,
{
    Seq::new(
        members.len(),
        |i: int|
            if 0 <= i < members.len() {
                pad + json_string(members[i].0) + ": "@ + pretty(members[i].1, pad)
            } else {
                seq![]
            },
    )
}

/// A JSON value as text: pretty or on one line; with `raw`, a text stands for itself.
pub open spec fn formatted(v: JsonView, raw: bool, is_pretty: bool) -> Seq<char> {
    match v {
        JsonView::Text(t) => if raw {
            t
        } else {
            json_string(t)
        },
        _ => if is_pretty {
            pretty(v, seq![])
        } else {
            compact(v)
        },
    }
}

fn write_scalar(v: &Json) -> (r: Option<String>)
    ensures
        match r {
            Some(t) => !(v@ is Array) && !(v@ is Object) && t@ == compact(v@),
            None => v@ is Array || v@ is Object,
        },
{
    match v {
        Json::Null => Some("null".to_owned()),
        Json::Bool(b) => Some(
            if *b {
                "true".to_owned()
            } else {
                "false".to_owned()
            },
        ),
        Json::Unsigned(n) => Some(write_u64(*n)),
        Json::Negative(n) => Some(write_i64(*n)),
        Json::Float(t) => Some(t.clone()),
        Json::Text(t) => Some(write_json_string(t.as_str())),
        Json::Array(_) => None,
        Json::Object(_) => None,
    }
}

/// A JSON value on one line.
pub fn write_compact(v: &Json) -> (r: String)
    ensures
        r@ == compact(v@),
    decreases v,
{
    if let Some(t) = write_scalar(v) {
        return t;
    }
    match v {
        Json::Array(items) => {
            let mut parts: Vec<String> = Vec::new();
            for i in 0..items.len()
                invariant
                    v is Array && v->Array_0 == *items,
                    parts@.len() == i,
                    forall|k: int| 0 <= k < i ==> (#[trigger] parts@[k])@ == compact(items@[k]@),
            {
                assert(decreases_to!(*items => items@[i as int]));
                parts.push(write_compact(&items[i]));
            }
            let ghost model = v@->Array_0;
            assert(parts.deep_view() =~= compact_items(model));
            let mut out = "[".to_owned();
            out.append(join(&borrowed(&parts), ",").as_str());
            out.append("]");
            out
        },
        Json::Object(members) => {
            let mut parts: Vec<String> = Vec::new();
            for i in 0..members.len()
                invariant
                    v is Object && v->Object_0 == *members,
                    parts@.len() == i,
                    forall|k: int|
                        0 <= k < i ==> (#[trigger] parts@[k])@ == json_string(members@[k].0@) + ":"@ + compact(
                            members@[k].1@,
                        ),
            {
                assert(decreases_to!(*members => members@[i as int]));
                let mut part = write_json_string(members[i].0.as_str());
                part.append(":");
                part.append(write_compact(&members[i].1).as_str());
                parts.push(part);
            }
            let ghost model = v@->Object_0;
            assert(parts.deep_view() =~= compact_members(model));
            let mut out = "{".to_owned();
            out.append(join(&borrowed(&parts), ",").as_str());
            out.append("}");
            out
        },
        _ => String::new(),
    }
}

/// A JSON value with each part on a line of its own, at the given depth.
pub fn write_pretty(v: &Json, pad: &str) -> (r: String)
    ensures
        r@ == pretty(v@, pad@),
    decreases v,
{
    if let Some(t) = write_scalar(v) {
        return t;
    }
    let mut inner = pad.to_owned();
    inner.append("  ");
    match v {
        Json::Array(items) => {
            if items.len() == 0 {
                return "[]".to_owned();
            }
            let mut parts: Vec<String> = Vec::new();
            for i in 0..items.len()
                invariant
                    v is Array && v->Array_0 == *items,
                    inner@ == pad@ + "  "@,
                    parts@.len() == i,
                    forall|k: int| 0 <= k < i ==> (#[trigger] parts@[k])@ == inner@ + pretty(items@[k]@, inner@),
            {
                assert(decreases_to!(*items => items@[i as int]));
                let mut part = inner.clone();
                part.append(write_pretty(&items[i], inner.as_str()).as_str());
                parts.push(part);
            }
            let ghost model = v@->Array_0;
            assert(parts.deep_view() =~= pretty_items(model, inner@));
            let mut out = "[\n".to_owned();
            out.append(join(&borrowed(&parts), ",\n").as_str());
            out.append("\n");
            out.append(pad);
            out.append("]");
            out
        },
        Json::Object(members) => {
            if members.len() == 0 {
                return "{}".to_owned();
            }
            let mut parts: Vec<String> = Vec::new();
            for i in 0..members.len()
                invariant
                    v is Object && v->Object_0 == *members,
                    inner@ == pad@ + "  "@,
                    parts@.len() == i,
                    forall|k: int|
                        0 <= k < i ==> (#[trigger] parts@[k])@ == inner@ + json_string(members@[k].0@) + ": "@ + pretty(
                            members@[k].1@,
                            inner@,
                        ),
            {
                assert(decreases_to!(*members => members@[i as int]));
                let mut part = inner.clone();
                part.append(write_json_string(members[i].0.as_str()).as_str());
                part.append(": ");
                part.append(write_pretty(&members[i].1, inner.as_str()).as_str());
                parts.push(part);
            }
            let ghost model = v@->Object_0;
            assert(parts.deep_view() =~= pretty_members(model, inner@));
            let mut out = "{\n".to_owned();
            out.append(join(&borrowed(&parts), ",\n").as_str());
            out.append("\n");
            out.append(pad);
            out.append("}");
            out
        },
        _ => String::new(),
    }
}

/// A JSON value as text: pretty or on one line; with `raw`, a text stands for itself.
pub fn format_value(v: &Json, raw: bool, is_pretty: bool) -> (r: String)
    ensures
        r@ == formatted(v@, raw, is_pretty),
{
    match v {
        Json::Text(t) => if raw {
            t.clone()
        } else {
            write_json_string(t.as_str())
        },
        _ => if is_pretty {
            let r = write_pretty(v, "");
            proof {
                reveal_strlit("");
            }
            assert(""@ =~= seq![]);
            r
        } else {
            write_compact(v)
        },
    }
}

/// A JSON value as diagnostics show it, the kind of each part named.
pub open spec fn debug(v: JsonView) -> Seq<char>
    decreases v,
{
    match v {
        JsonView::Null => "Null"@,
        JsonView::Bool(b) => if b {
            "Bool(true)"@
        } else {
            "Bool(false)"@
        },
        JsonView::Int(n) => "Number("@ + decimal_int(n) + ")"@,
        JsonView::Float(t) => "Number("@ + t + ")"@,
        JsonView::Text(t) => "String("@ + quoted(t) + ")"@,
        JsonView::Array(items) => "Array ["@ + joined(debug_items(items), ", "@) + "]"@,
        JsonView::Object(members) => "Object {"@ + joined(debug_members(members), ", "@) + "}"@,
    }
}

pub open spec fn debug_items(items: Seq<JsonView>) -> Seq<Seq<char>>
    decreases items,
{
    Seq::new(
        items.len(),
        |i: int|
            if 0 <= i < items.len() {
                debug(items[i])
            } else {
                seq![]
            },
    )
}

pub open spec fn debug_members(members: Seq<(Seq<char>, JsonView)>) -> Seq<Seq<char>>
    decreases members,
{
    Seq::new(
        members.len(),
        |i: int|
            if 0 <= i < members.len() {
                quoted(members[i].0) + ": "@ + debug(members[i].1)
            } else {
                seq![]
            },
    )
}

fn wrapped(head: &str, body: &str, tail: &str) -> (r: String)
    ensures
        r@ == head@ + body@ + tail@,
{
    let mut out = head.to_owned();
    out.append(body);
    out.append(tail);
    out
}

/// A JSON value as diagnostics show it.
pub fn write_debug(v: &Json) -> (r: String)
    ensures
        r@ == debug(v@),
    decreases v,
{
    match v {
        Json::Null => "Null".to_owned(),
        Json::Bool(b) => if *b {
            "Bool(true)".to_owned()
        } else {
            "Bool(false)".to_owned()
        },
        Json::Unsigned(n) => wrapped("Number(", write_u64(*n).as_str(), ")"),
        Json::Negative(n) => wrapped("Number(", write_i64(*n).as_str(), ")"),
        Json::Float(t) => wrapped("Number(", t.as_str(), ")"),
        Json::Text(t) => wrapped("String(", quote(t.as_str()).as_str(), ")"),
        Json::Array(items) => {
            let mut parts: Vec<String> = Vec::new();
            for i in 0..items.len()
                invariant
                    v is Array && v->Array_0 == *items,
                    parts@.len() == i,
                    forall|k: int| 0 <= k < i ==> (#[trigger] parts@[k])@ == debug(items@[k]@),
            {
                assert(decreases_to!(*items => items@[i as int]));
                parts.push(write_debug(&items[i]));
            }
            let ghost model = v@->Array_0;
            assert(parts.deep_view() =~= debug_items(model));
            wrapped("Array [", join(&borrowed(&parts), ", ").as_str(), "]")
        },
        Json::Object(members) => {
            let mut parts: Vec<String> = Vec::new();
            for i in 0..members.len()
                invariant
                    v is Object && v->Object_0 == *members,
                    parts@.len() == i,
                    forall|k: int|
                        0 <= k < i ==> (#[trigger] parts@[k])@ == quoted(members@[k].0@) + ": "@ + debug(members@[k].1@),
            {
                assert(decreases_to!(*members => members@[i as int]));
                let mut part = quote(members[i].0.as_str());
                part.append(": ");
                part.append(write_debug(&members[i].1).as_str());
                parts.push(part);
            }
            let ghost model = v@->Object_0;
            assert(parts.deep_view() =~= debug_members(model));
            wrapped("Object {", join(&borrowed(&parts), ", ").as_str(), "}")
        },
    }
}

/// Whether a text holds no control character below the space.
pub open spec fn printable(s: Seq<char>) -> bool {
    forall|i: int| 0 <= i < s.len() ==> 32 <= (#[trigger] s[i]) as nat
}

/// Whether the texts of all numbers in a value are free of control characters, as those of JSON
/// numbers are.
pub open spec fn plain_numbers(v: JsonView) -> bool
    decreases v,
{
    match v {
        JsonView::Float(t) => printable(t),
        JsonView::Array(items) => forall|i: int| 0 <= i < items.len() ==> plain_numbers(#[trigger] items[i]),
        JsonView::Object(members) => forall|i: int|
            0 <= i < members.len() ==> plain_numbers((#[trigger] members[i]).1),
        _ => true,
    }
}

proof fn joined_is_printable(parts: Seq<Seq<char>>, sep: Seq<char>)
    requires
        printable(sep),
        forall|i: int| 0 <= i < parts.len() ==> printable(#[trigger] parts[i]),
    ensures
        printable(joined(parts, sep)),
    decreases parts.len(),
{
    if parts.len() > 1 {
        let init = parts.drop_last();
        assert forall|i: int| 0 <= i < init.len() implies printable(#[trigger] init[i]) by {
            assert(init[i] == parts[i]);
        }
        joined_is_printable(init, sep);
        assert(printable(parts[parts.len() - 1]));
    } else if parts.len() == 1 {
        assert(printable(parts[0]));
    }
}

proof fn escaped_is_printable(s: Seq<char>)
    ensures
        printable(gathered(s, |c: char| escaped_char(c))),
    decreases s.len(),
{
    if s.len() > 0 {
        escaped_is_printable(s.drop_last());
        let c = s.last();
        let e = escaped_char(c);
        assert forall|i: int| 0 <= i < e.len() implies 32 <= (#[trigger] e[i]) as nat by {}
    }
}

proof fn decimal_is_printable(n: nat)
    ensures
        printable(crate::number::decimal(n)),
    decreases n,
{
    if n >= 10 {
        decimal_is_printable(n / 10);
    }
}

proof fn compact_is_printable(v: JsonView)
    requires
        plain_numbers(v),
    ensures
        printable(compact(v)),
    decreases v,
{
    reveal_strlit("null");
    reveal_strlit("true");
    reveal_strlit("false");
    reveal_strlit("[");
    reveal_strlit("]");
    reveal_strlit("{");
    reveal_strlit("}");
    reveal_strlit(",");
    reveal_strlit(":");
    match v {
        JsonView::Null => {},
        JsonView::Bool(_) => {},
        JsonView::Int(n) => {
            if n < 0 {
                decimal_is_printable((-n) as nat);
            } else {
                decimal_is_printable(n as nat);
            }
        },
        JsonView::Float(_) => {},
        JsonView::Text(t) => {
            escaped_is_printable(t);
        },
        JsonView::Array(items) => {
            let parts = compact_items(items);
            assert forall|i: int| 0 <= i < parts.len() implies printable(#[trigger] parts[i]) by {
                compact_is_printable(items[i]);
            }
            joined_is_printable(parts, ","@);
        },
        JsonView::Object(members) => {
            let parts = compact_members(members);
            assert forall|i: int| 0 <= i < parts.len() implies printable(#[trigger] parts[i]) by {
                escaped_is_printable(members[i].0);
                compact_is_printable(members[i].1);
            }
            joined_is_printable(parts, ","@);
        },
    }
}

/// A value on one line is on one line: its text holds no line feed, no carriage return and no
/// tab, whatever its strings hold.
pub proof fn compact_is_one_line(v: JsonView)
    requires
        plain_numbers(v),
    ensures
        !compact(v).contains('\n'),
        !compact(v).contains('\r'),
        !compact(v).contains('\t'),
        pieces(compact(v), '\n') == seq![compact(v)],
{
    compact_is_printable(v);
    assert forall|i: int| 0 <= i < compact(v).len() implies compact(v)[i] != '\n' && compact(v)[i] != '\r' && compact(
        v,
    )[i] != '\t' by {
        assert(32 <= compact(v)[i] as nat);
    }
    crate::text::pieces_of_one(compact(v), '\n');
}

/// What a text stands for between the quotes: its escapes undone.
pub open spec fn unescaped(s: Seq<char>) -> Seq<char>
    decreases s.len(),
{
    if s.len() == 0 {
        s
    } else if s[0] != '\\' || s.len() == 1 {
        seq![s[0]] + unescaped(s.drop_first())
    } else if s[1] == 'u' && s.len() >= 6 {
        let code: nat = digit(s[2], 16)->0 * 4096 + digit(s[3], 16)->0 * 256 + digit(s[4], 16)->0 * 16 + digit(s[5], 16)->0;
        seq![code as u32 as char] + unescaped(s.skip(6))
    } else {
        let c = if s[1] == 'b' {
            '\u{8}'
        } else if s[1] == 't' {
            '\t'
        } else if s[1] == 'n' {
            '\n'
        } else if s[1] == 'f' {
            '\u{c}'
        } else if s[1] == 'r' {
            '\r'
        } else {
            s[1]
        };
        seq![c] + unescaped(s.skip(2))
    }
}

proof fn code_names_the_character(c: char)
    ensures
        c as nat as u32 as char == c,
{
}

proof fn escapes_are_undone(s: Seq<char>)
    ensures
        unescaped(gathered(s, |c: char| escaped_char(c))) == s,
    decreases s.len(),
{
    let f = |c: char| escaped_char(c);
    if s.len() > 0 {
        let rest = s.drop_first();
        escapes_are_undone(rest);
        gathered_first(s, f);
        let x = gathered(rest, f);
        let c = s[0];
        let e = escaped_char(c);
        assert(gathered(s, f) == e + x);
        let all = e + x;
        if e.len() == 6 {
            let n: nat = c as nat;
            code_names_the_character(c);
            assert(all.skip(6) =~= x);
            assert(digit(digit_char(n / 16), 16) == Some(n / 16));
            assert(digit(digit_char(n % 16), 16) == Some(n % 16));
            assert(digit('0', 16) == Some(0nat));
            assert(all[0] == '\\' && all[1] == 'u' && all[2] == '0' && all[3] == '0');
            assert(all[4] == digit_char(n / 16) && all[5] == digit_char(n % 16));
            assert(n / 16 * 16 + n % 16 == n);
            assert(unescaped(all) == seq![n as u32 as char] + unescaped(x));
        } else if e.len() == 2 {
            assert(all.skip(2) =~= x);
            assert(all[0] == '\\' && all[1] == e[1] && all[1] != 'u');
            assert(unescaped(all) == seq![c] + unescaped(x));
        } else {
            assert(all.drop_first() =~= x);
            assert(all[0] == c && c != '\\');
            assert(unescaped(all) == seq![c] + unescaped(x));
        }
        assert(unescaped(all) == seq![c] + unescaped(x));
        assert(seq![c] + rest =~= s);
    }
}

/// A text stands between quotes, and what is between them stands for the text, so that no two texts
/// are written alike.
pub proof fn texts_read_back(a: Seq<char>, b: Seq<char>)
    ensures
        json_string(a).len() >= 2,
        json_string(a)[0] == '"',
        json_string(a).last() == '"',
        unescaped(json_string(a).subrange(1, json_string(a).len() - 1)) == a,
        json_string(a) == json_string(b) ==> a == b,
{
    escapes_are_undone(a);
    escapes_are_undone(b);
    assert(json_string(a).subrange(1, json_string(a).len() - 1) =~= gathered(a, |c: char| escaped_char(c)));
    assert(json_string(b).subrange(1, json_string(b).len() - 1) =~= gathered(b, |c: char| escaped_char(c)));
}

/// The items of a list stand in brackets, one after another, with a comma before each but the first.
pub proof fn lists_grow_at_the_end(items: Seq<JsonView>, x: JsonView)
    ensures
        compact(JsonView::Array(seq![])) == "[]"@,
        compact(JsonView::Array(seq![x])) == "["@ + compact(x) + "]"@,
        items.len() > 0 ==> compact(JsonView::Array(items.push(x))) == compact(JsonView::Array(items)).drop_last() + ","@
            + compact(x) + "]"@,
{
    reveal_strlit("[]");
    reveal_strlit("[");
    reveal_strlit("]");
    assert(compact_items(Seq::empty()) =~= seq![]);
    assert(compact_items(seq![x]) =~= seq![compact(x)]);
    assert(compact(JsonView::Array(seq![])) =~= "[]"@);
    let parts = compact_items(items);
    let more = compact_items(items.push(x));
    assert(more =~= parts.push(compact(x)));
    assert(more.drop_last() =~= parts);
    assert(compact(JsonView::Array(items)).drop_last() =~= "["@ + joined(parts, ","@));
}

/// The members of an object stand in braces, one after another, each with its name and a colon before
/// its value and with a comma before each but the first.
pub proof fn objects_grow_at_the_end(members: Seq<(Seq<char>, JsonView)>, k: Seq<char>, x: JsonView)
    ensures
        compact(JsonView::Object(seq![])) == "{}"@,
        compact(JsonView::Object(seq![(k, x)])) == "{"@ + json_string(k) + ":"@ + compact(x) + "}"@,
        members.len() > 0 ==> compact(JsonView::Object(members.push((k, x)))) == compact(
            JsonView::Object(members),
        ).drop_last() + ","@ + json_string(k) + ":"@ + compact(x) + "}"@,
{
    reveal_strlit("{}");
    reveal_strlit("{");
    reveal_strlit("}");
    let part = json_string(k) + ":"@ + compact(x);
    assert(compact_members(Seq::empty()) =~= seq![]);
    assert(compact_members(seq![(k, x)]) =~= seq![part]);
    assert(compact(JsonView::Object(seq![])) =~= "{}"@);
    assert(compact(JsonView::Object(seq![(k, x)])) =~= "{"@ + json_string(k) + ":"@ + compact(x) + "}"@);
    let parts = compact_members(members);
    let more = compact_members(members.push((k, x)));
    assert(more =~= parts.push(part));
    assert(more.drop_last() =~= parts);
    assert(compact(JsonView::Object(members)).drop_last() =~= "{"@ + joined(parts, ","@));
    if members.len() > 0 {
        assert(compact(JsonView::Object(members.push((k, x)))) =~= compact(JsonView::Object(members)).drop_last() + ","@
            + json_string(k) + ":"@ + compact(x) + "}"@);
    }
}

proof fn regrouped(a: Seq<char>, b: Seq<char>, c: Seq<char>, d: Seq<char>)
    ensures
        a + (b + c + d) == a + b + c + d,
{
    assert(a + (b + c + d) =~= a + b + c + d);
}

proof fn tail_is_cut(a: Seq<char>, b: Seq<char>, c: Seq<char>, d: Seq<char>)
    ensures
        (a + b + c + d).take((a + b + c + d).len() - b.len() - c.len() - d.len()) == a,
{
    assert((a + b + c + d).take((a + b + c + d).len() - b.len() - c.len() - d.len()) =~= a);
}

/// With breaks, each item of a list stands on a line of its own, two spaces further in than the list,
/// whose end stands below its start; an empty list, and what holds nothing, stays on one line.
pub proof fn items_go_further_in(items: Seq<JsonView>, x: JsonView, pad: Seq<char>)
    ensures
        pretty(JsonView::Array(seq![]), pad) == "[]"@,
        !(x is Array) && !(x is Object) ==> pretty(x, pad) == compact(x),
        pretty(JsonView::Array(seq![x]), pad) == "[\n"@ + (pad + "  "@ + pretty(x, pad + "  "@)) + "\n"@ + pad + "]"@,
        items.len() > 0 ==> ({
            let before = pretty(JsonView::Array(items), pad);
            pretty(JsonView::Array(items.push(x)), pad) == before.take(
                before.len() - "\n"@.len() - pad.len() - "]"@.len(),
            ) + ",\n"@ + (pad + "  "@ + pretty(x, pad + "  "@)) + "\n"@ + pad + "]"@
        }),
{
    let within = pad + "  "@;
    let item = within + pretty(x, within);
    assert(pretty_items(seq![x], within) =~= seq![item]);
    if items.len() > 0 {
        let parts = pretty_items(items, within);
        let more = pretty_items(items.push(x), within);
        assert(more =~= parts.push(item));
        assert(more.drop_last() =~= parts);
        tail_is_cut("[\n"@ + joined(parts, ",\n"@), "\n"@, pad, "]"@);
        regrouped("[\n"@, joined(parts, ",\n"@), ",\n"@, item);
    }
}

/// With breaks, each member of an object stands on a line of its own, two spaces further in than the
/// object, whose end stands below its start; an empty object stays on one line.
pub proof fn members_go_further_in(members: Seq<(Seq<char>, JsonView)>, k: Seq<char>, x: JsonView, pad: Seq<char>)
    ensures
        pretty(JsonView::Object(seq![]), pad) == "{}"@,
        pretty(JsonView::Object(seq![(k, x)]), pad) == "{\n"@ + (pad + "  "@ + json_string(k) + ": "@ + pretty(
            x,
            pad + "  "@,
        )) + "\n"@ + pad + "}"@,
        members.len() > 0 ==> ({
            let before = pretty(JsonView::Object(members), pad);
            pretty(JsonView::Object(members.push((k, x))), pad) == before.take(
                before.len() - "\n"@.len() - pad.len() - "}"@.len(),
            ) + ",\n"@ + (pad + "  "@ + json_string(k) + ": "@ + pretty(x, pad + "  "@)) + "\n"@ + pad + "}"@
        }),
{
    let within = pad + "  "@;
    let member = within + json_string(k) + ": "@ + pretty(x, within);
    assert(pretty_members(seq![(k, x)], within) =~= seq![member]);
    if members.len() > 0 {
        let parts = pretty_members(members, within);
        let more = pretty_members(members.push((k, x)), within);
        assert(more =~= parts.push(member));
        assert(more.drop_last() =~= parts);
        tail_is_cut("{\n"@ + joined(parts, ",\n"@), "\n"@, pad, "}"@);
        regrouped("{\n"@, joined(parts, ",\n"@), ",\n"@, member);
    }
}

/// What holds nothing is written as JSON has it, and a number that is read back is the number. A text
/// asked for as it is stands so; another value is written with breaks just where they are asked for.
pub proof fn values_are_written_as_asked(v: JsonView, t: Seq<char>, n: int, raw: bool, is_pretty: bool)
    ensures
        compact(JsonView::Null) == "null"@,
        compact(JsonView::Bool(true)) == "true"@,
        compact(JsonView::Bool(false)) == "false"@,
        compact(JsonView::Float(t)) == t,
        compact(JsonView::Text(t)) == json_string(t),
        i64::MIN <= n <= i64::MAX ==> signed(compact(JsonView::Int(n))) == Some(n),
        formatted(JsonView::Text(t), true, is_pretty) == t,
        formatted(JsonView::Text(t), false, is_pretty) == json_string(t),
        !(v is Text) ==> formatted(v, raw, true) == pretty(v, seq![]),
        !(v is Text) ==> formatted(v, raw, false) == compact(v),
{
    if i64::MIN <= n <= i64::MAX {
        decimal_int_reads_back(n);
    }
}

} // verus!
