//! The kernel's knobs under `/proc/sys`.
use super::sanitize;
use crate::format::{compact, write_compact};
use crate::gather::{gathered, gathered_first, gathered_holds, gathered_step};
use crate::order::{sort, sorted, sorted_holds, sorted_is_a_stable_sort, text_le, views, Pair, Ranked};
use crate::output::{collapsed_stays_in_its_row, in_one_field, report_rows, reports, Error, Report};
use crate::pattern::{compiles, is_match, is_pattern, matches_in};
use crate::text::{
    join, joined, joined_splits_back, pieces, pieces_exist, row, row_splits_back, same, split, trim, trimmed, write_row,
};
use crate::value::{json_object, json_text, opt, Json, JsonView};
use vstd::prelude::*;
use vstd::string::*;

verus! {

/// How rows are written.
#[derive(Clone, Copy, Debug, PartialEq, Eq, Structural)]
pub enum Format {
    /// Columns with tabs between them.
    Tsv,
    /// One JSON object per line.
    Json,
}

/// The arguments of the command.
#[derive(Debug)]
pub struct SysctlArgs {
    /// Keeps the knobs whose key matches.
    pub pattern: Option<String>,
    pub format: Format,
    pub limit: Option<usize>,
}

/// `s` with each `/` turned into a dot.
pub open spec fn with_dots(s: Seq<char>) -> Seq<char> {
    Seq::new(
        s.len(),
        |i: int|
            if s[i] == '/' {
                '.'
            } else {
                s[i]
            },
    )
}

/// Whether a piece of a path, between two slashes, is a step: it is neither empty nor a lone dot.
pub open spec fn is_step(piece: Seq<char>) -> bool {
    piece.len() > 0 && piece != "."@
}

/// Where a path starts: at the root, at a lone dot, or at its first step.
pub open spec fn start_of(path: Seq<char>) -> Seq<Seq<char>> {
    if path.len() > 0 && path[0] == '/' {
        seq!["/"@]
    } else if pieces(path, '/')[0] == "."@ {
        seq!["."@]
    } else {
        seq![]
    }
}

/// A piece of a path where it is a step.
pub open spec fn step_of() -> spec_fn(Seq<char>) -> Seq<Seq<char>> {
    |piece: Seq<char>|
        if is_step(piece) {
            seq![piece]
        } else {
            seq![]
        }
}

/// The components of a path: its start and its steps. Slashes in a row count as one, and a lone
/// dot behind the start counts as nothing.
pub open spec fn components(path: Seq<char>) -> Seq<Seq<char>> {
    start_of(path) + gathered(pieces(path, '/'), step_of())
}

/// The pieces behind the first `n` steps.
pub open spec fn behind(ps: Seq<Seq<char>>, n: nat) -> Seq<Seq<char>>
    decreases ps.len(),
{
    if n == 0 || ps.len() == 0 {
        ps
    } else if is_step(ps[0]) {
        behind(ps.drop_first(), (n - 1) as nat)
    } else {
        behind(ps.drop_first(), n)
    }
}

/// The pieces from the first step on.
pub open spec fn from_step(ps: Seq<Seq<char>>) -> Seq<Seq<char>>
    decreases ps.len(),
{
    if ps.len() > 0 && !is_step(ps[0]) {
        from_step(ps.drop_first())
    } else {
        ps
    }
}

/// The pieces up to the last step.
pub open spec fn to_step(ps: Seq<Seq<char>>) -> Seq<Seq<char>>
    decreases ps.len(),
{
    if ps.len() > 0 && !is_step(ps.last()) {
        to_step(ps.drop_last())
    } else {
        ps
    }
}

/// What is left of a path behind the components of `base`, from its first step to its last; none
/// where the path does not start with them. Without any the path keeps its start.
pub open spec fn below(path: Seq<char>, base: Seq<char>) -> Option<Seq<char>> {
    let all = pieces(path, '/');
    let n = components(base).len();
    if !components(base).is_prefix_of(components(path)) {
        None
    } else if n > 0 {
        Some(joined(to_step(from_step(behind(all, (n - start_of(path).len()) as nat))), "/"@))
    } else if to_step(all).len() == 0 {
        Some(joined(start_of(path), "/"@))
    } else {
        Some(joined(to_step(all), "/"@))
    }
}

/// The dotted key of a path below `base`; none for `base` itself and for what is not below it.
pub open spec fn key_of(path: Seq<char>, base: Seq<char>) -> Option<Seq<char>> {
    match below(path, base) {
        Some(rest) => if rest.len() == 0 {
            None
        } else {
            Some(with_dots(rest))
        },
        None => None,
    }
}

fn steps_here(piece: &str) -> (r: bool)
    ensures
        r == is_step(piece@),
{
    !piece.is_empty() && !same(piece, ".")
}

fn read_start(path: &str, parts: &Vec<&str>) -> (r: Vec<&'static str>)
    requires
        parts.deep_view() == pieces(path@, '/'),
    ensures
        r.deep_view() == start_of(path@),
        r@.len() <= 1,
{
    proof {
        pieces_exist(path@, '/');
    }
    assert(parts.deep_view()[0] == parts@[0]@);
    let r: Vec<&'static str> = if path.unicode_len() > 0 && path.get_char(0) == '/' {
        vec!["/"]
    } else if same(parts[0], ".") {
        vec!["."]
    } else {
        Vec::new()
    };
    assert(r.deep_view() =~= start_of(path@));
    r
}

fn read_components<'a>(path: &'a str, parts: &Vec<&'a str>) -> (r: Vec<&'a str>)
    requires
        parts.deep_view() == pieces(path@, '/'),
    ensures
        r.deep_view() == components(path@),
{
    let ghost all = parts.deep_view();
    let ghost f = step_of();
    let start = read_start(path, parts);
    let ghost head = start.deep_view();
    let mut out: Vec<&'a str> = Vec::new();
    for i in 0..start.len()
        invariant
            head == start.deep_view(),
            out.deep_view() =~= head.take(i as int),
    {
        let ghost before = out.deep_view();
        let piece: &'a str = start[i];
        assert(head[i as int] == piece@);
        out.push(piece);
        assert(out.deep_view() =~= before.push(piece@));
    }
    assert(out.deep_view() =~= head + gathered(all.take(0), f));
    for i in 0..parts.len()
        invariant
            all == parts.deep_view(),
            f == step_of(),
            out.deep_view() == head + gathered(all.take(i as int), f),
    {
        proof {
            gathered_step(all, f, i as int);
        }
        let ghost before = out.deep_view();
        let piece: &'a str = parts[i];
        assert(all[i as int] == piece@);
        if steps_here(piece) {
            out.push(piece);
            assert(out.deep_view() =~= before.push(piece@));
        }
        assert(out.deep_view() =~= head + (gathered(all.take(i as int), f) + f(piece@)));
    }
    assert(all.take(all.len() as int) =~= all);
    out
}

/// Whether one list of texts starts with another.
fn starts_alike(long: &Vec<&str>, short: &Vec<&str>) -> (r: bool)
    ensures
        r == short.deep_view().is_prefix_of(long.deep_view()),
{
    let ghost l = long.deep_view();
    let ghost s = short.deep_view();
    if short.len() > long.len() {
        return false;
    }
    for i in 0..short.len()
        invariant
            l == long.deep_view(),
            s == short.deep_view(),
            s.len() <= l.len(),
            forall|k: int| 0 <= k < i ==> s[k] == l[k],
    {
        assert(s[i as int] == short@[i as int]@ && l[i as int] == long@[i as int]@);
        if !same(short[i], long[i]) {
            assert(l.subrange(0, s.len() as int)[i as int] == l[i as int]);
            return false;
        }
    }
    assert(s =~= l.subrange(0, s.len() as int));
    true
}

/// Where the pieces behind the first `n` steps start, and the first step among them.
fn find_first(parts: &Vec<&str>, n: usize) -> (r: usize)
    ensures
        r <= parts@.len(),
        parts.deep_view().skip(r as int) == from_step(behind(parts.deep_view(), n as nat)),
{
    let ghost all = parts.deep_view();
    let mut i: usize = 0;
    let mut left: usize = n;
    assert(all.skip(0) =~= all);
    while i < parts.len() && left > 0
        invariant
            i <= parts@.len(),
            all == parts.deep_view(),
            behind(all.skip(i as int), left as nat) == behind(all, n as nat),
        decreases parts@.len() - i,
    {
        assert(all.skip(i as int)[0] == parts@[i as int]@);
        assert(all.skip(i as int).drop_first() =~= all.skip(i + 1));
        if steps_here(parts[i]) {
            left -= 1;
        }
        i += 1;
    }
    while i < parts.len() && !steps_here(parts[i])
        invariant
            i <= parts@.len(),
            all == parts.deep_view(),
            from_step(all.skip(i as int)) == from_step(behind(all, n as nat)),
        decreases parts@.len() - i,
    {
        assert(all.skip(i as int)[0] == parts@[i as int]@);
        assert(all.skip(i as int).drop_first() =~= all.skip(i + 1));
        i += 1;
    }
    assert(i < parts@.len() ==> all.skip(i as int)[0] == parts@[i as int]@);
    i
}

/// The pieces from `from` on up to the last step.
fn take_steps<'a>(parts: &Vec<&'a str>, from: usize) -> (r: Vec<&'a str>)
    requires
        from <= parts@.len(),
    ensures
        r.deep_view() == to_step(parts.deep_view().skip(from as int)),
{
    let ghost all = parts.deep_view();
    let mut end: usize = parts.len();
    assert(all.subrange(from as int, end as int) =~= all.skip(from as int));
    while end > from && !steps_here(parts[end - 1])
        invariant
            from <= end <= parts@.len(),
            all == parts.deep_view(),
            to_step(all.subrange(from as int, end as int)) == to_step(all.skip(from as int)),
        decreases end,
    {
        let ghost rest = all.subrange(from as int, end as int);
        assert(rest.last() == parts@[end - 1]@);
        assert(rest.drop_last() =~= all.subrange(from as int, end - 1));
        end -= 1;
    }
    let ghost want = all.subrange(from as int, end as int);
    assert(end > from ==> want.last() == parts@[end - 1]@);
    let mut out: Vec<&'a str> = Vec::new();
    for i in from..end
        invariant
            from <= end <= parts@.len(),
            all == parts.deep_view(),
            out.deep_view() =~= all.subrange(from as int, i as int),
    {
        let ghost before = out.deep_view();
        assert(all[i as int] == parts@[i as int]@);
        out.push(parts[i]);
        assert(out.deep_view() =~= before.push(all[i as int]));
    }
    out
}

/// What is left of a path behind the components of `base`.
fn strip_base(path: &str, base: &str) -> (r: Option<String>)
    ensures
        opt(r) == below(path@, base@),
{
    let parts = split(path, '/');
    let base_parts = split(base, '/');
    let own = read_components(path, &parts);
    let wanted = read_components(base, &base_parts);
    if !starts_alike(&own, &wanted) {
        return None;
    }
    let start = read_start(path, &parts);
    assert(wanted.deep_view().len() == wanted@.len());
    assert(start.deep_view().len() == start@.len());
    if wanted.len() > 0 {
        let from = find_first(&parts, wanted.len() - start.len());
        Some(join(&take_steps(&parts, from), "/"))
    } else {
        let kept = take_steps(&parts, 0);
        assert(parts.deep_view().skip(0) =~= parts.deep_view());
        assert(kept.deep_view().len() == kept@.len());
        if kept.len() == 0 {
            Some(join(&start, "/"))
        } else {
            Some(join(&kept, "/"))
        }
    }
}

/// The dotted key of a path below `base`.
pub fn path_to_key(path: &str, base: &str) -> (r: Option<String>)
    ensures
        opt(r) == key_of(path@, base@),
{
    let rest = match strip_base(path, base) {
        Some(rest) => rest,
        None => {
            return None;
        },
    };
    if rest.as_str().is_empty() {
        return None;
    }
    let mut out = String::new();
    for c in it: rest.as_str().chars()
        invariant
            it.seq() == rest@,
            out@ == with_dots(rest@).take(it.index()),
    {
        out.push(if c == '/' { '.' } else { c });
        assert(out@ =~= with_dots(rest@).take(it.index() + 1));
    }
    assert(with_dots(rest@).take(rest@.len() as int) =~= with_dots(rest@));
    Some(out)
}

/// The key and the value of a file below `/proc/sys`, where the filter lets the key through.
pub open spec fn knob(pattern: Option<Seq<char>>) -> spec_fn((Seq<char>, Seq<char>)) -> Seq<(Seq<char>, Seq<char>)> {
    |file: (Seq<char>, Seq<char>)|
        match key_of(file.0, "/proc/sys"@) {
            Some(key) => if pattern is None || matches_in(pattern->0, key) {
                seq![(key, in_one_field(trimmed(file.1)))]
            } else {
                seq![]
            },
            None => seq![],
        }
}

/// The knobs by key.
pub open spec fn knobs(files: Seq<(Seq<char>, Seq<char>)>, pattern: Option<Seq<char>>) -> Seq<(Seq<char>, Seq<char>)> {
    sorted::<Pair>(gathered(files, knob(pattern)))
}

/// The object of a knob.
pub open spec fn knob_json(k: (Seq<char>, Seq<char>)) -> JsonView {
    JsonView::Object(seq![("key"@, JsonView::Text(k.0)), ("value"@, JsonView::Text(k.1))])
}

/// The row of a knob in the given format.
pub open spec fn knob_row(k: (Seq<char>, Seq<char>), format: Format) -> Seq<char> {
    match format {
        Format::Tsv => row(seq![k.0, k.1]),
        Format::Json => compact(knob_json(k)),
    }
}

pub open spec fn knob_rows(
    files: Seq<(Seq<char>, Seq<char>)>,
    pattern: Option<Seq<char>>,
    format: Format,
) -> Seq<Seq<char>> {
    let all = knobs(files, pattern);
    Seq::new(all.len(), |i: int| knob_row(all[i], format))
}

/// Whether the filter lets a key through; it is taken to be a pattern.
fn lets_through(pattern: &Option<String>, key: &str) -> (r: bool)
    ensures
        r == (pattern is None || matches_in(pattern->0@, key@)),
{
    match pattern {
        Some(p) => is_match(p.as_str(), key),
        None => true,
    }
}

/// The knobs that the filter lets through, by key. The filter is taken to be a pattern.
pub fn collect_knobs(files: &Vec<(String, String)>, pattern: &Option<String>) -> (r: Vec<Pair>)
    ensures
        views(r@) == knobs(files.deep_view(), opt(*pattern)),
{
    let ghost all = files.deep_view();
    let ghost f = knob(opt(*pattern));
    let mut out: Vec<Pair> = Vec::new();
    assert(views(out@) =~= gathered(all.take(0), f));
    for i in 0..files.len()
        invariant
            all == files.deep_view(),
            f == knob(opt(*pattern)),
            views(out@) == gathered(all.take(i as int), f),
    {
        proof {
            gathered_step(all, f, i as int);
        }
        let ghost before = views(out@);
        let (path, raw) = &files[i];
        assert(all[i as int] == (path@, raw@));
        assert(before + seq![] =~= before);
        if let Some(key) = path_to_key(path.as_str(), "/proc/sys") {
            if lets_through(pattern, key.as_str()) {
                let value = sanitize(trim(raw.as_str()));
                let ghost pair = (key@, value@);
                out.push(Pair { key, value });
                assert(views(out@) =~= before + seq![pair]);
            }
        }
    }
    assert(all.take(all.len() as int) =~= all);
    sort(out)
}

/// Refuses a filter that is not a pattern.
pub fn check_pattern(args: &SysctlArgs) -> (r: Result<(), Error>)
    ensures
        match r {
            Ok(_) => args.pattern is None || is_pattern(args.pattern->0@),
            Err(e) => args.pattern is Some && !is_pattern(args.pattern->0@) && e.message@
                == "invalid pattern regex: "@ + args.pattern->0@,
        },
{
    if let Some(p) = &args.pattern {
        if !compiles(p.as_str()) {
            let mut message = "invalid pattern regex: ".to_owned();
            message.append(p.as_str());
            return Err(Error { message });
        }
    }
    Ok(())
}

/// Lists the knobs. `files` are the files below `/proc/sys` that could be read: the path and
/// the text of each.
pub fn run(args: &SysctlArgs, files: &Vec<(String, String)>) -> (r: Result<Report, Error>)
    ensures
        match r {
            Ok(report) => {
                &&& args.pattern is None || is_pattern(args.pattern->0@)
                &&& reports(report, knob_rows(files.deep_view(), opt(args.pattern), args.format), args.limit)
            },
            Err(e) => args.pattern is Some && !is_pattern(args.pattern->0@) && e.message@
                == "invalid pattern regex: "@ + args.pattern->0@,
        },
{
    if let Err(e) = check_pattern(args) {
        return Err(e);
    }
    let all = collect_knobs(files, &args.pattern);
    let ghost rows = knob_rows(files.deep_view(), opt(args.pattern), args.format);
    let mut out: Vec<String> = Vec::new();
    for i in 0..all.len()
        invariant
            views(all@) == knobs(files.deep_view(), opt(args.pattern)),
            rows == knob_rows(files.deep_view(), opt(args.pattern), args.format),
            out.deep_view() =~= rows.take(i as int),
    {
        let ghost before = out.deep_view();
        let key = all[i].key.as_str();
        let value = all[i].value.as_str();
        assert(views(all@)[i as int] == (key@, value@));
        let line = match args.format {
            Format::Tsv => {
                let fields = vec![key, value];
                assert(fields.deep_view() =~= seq![key@, value@]);
                write_row(&fields)
            },
            Format::Json => {
                let members = vec![("key", json_text(key)), ("value", json_text(value))];
                assert(members.deep_view() =~= knob_json((key@, value@))->Object_0);
                write_compact(&json_object(members))
            },
        };
        assert(line@ == rows[i as int]);
        out.push(line);
        assert(out.deep_view() =~= before.push(line@));
    }
    assert(rows.take(rows.len() as int) =~= rows);
    Ok(report_rows(out, args.limit))
}

/// No value can break its row: the key and the value of a knob come back when the row is split at
/// its tabs, as long as the key holds none.
pub proof fn knob_rows_split_back(key: Seq<char>, text: Seq<char>)
    requires
        !key.contains('\t'),
    ensures
        pieces(knob_row((key, in_one_field(trimmed(text))), Format::Tsv), '\t') == seq![
            key,
            in_one_field(trimmed(text)),
        ],
{
    collapsed_stays_in_its_row(trimmed(text));
    row_splits_back(seq![key, in_one_field(trimmed(text))]);
}

/// Pieces that are all steps, none of them with a slash.
pub open spec fn plain_steps(ps: Seq<Seq<char>>) -> bool {
    forall|i: int| 0 <= i < ps.len() ==> is_step(#[trigger] ps[i]) && !ps[i].contains('/')
}

/// The absolute path of steps.
pub open spec fn absolute(steps: Seq<Seq<char>>) -> Seq<char> {
    joined(seq![seq![]] + steps, seq!['/'])
}

proof fn absolute_starts_at_the_root(steps: Seq<Seq<char>>)
    requires
        steps.len() > 0,
    ensures
        absolute(steps).len() > 0,
        absolute(steps)[0] == '/',
    decreases steps.len(),
{
    let all = seq![seq![]] + steps;
    let init = steps.drop_last();
    assert(all.drop_last() =~= seq![seq![]] + init);
    if init.len() > 0 {
        absolute_starts_at_the_root(init);
    } else {
        assert(all.drop_last() =~= seq![seq![]]);
        assert(joined(seq![Seq::<char>::empty()], seq!['/']) =~= seq![]);
    }
}

proof fn steps_are_gathered(ps: Seq<Seq<char>>)
    requires
        plain_steps(ps),
    ensures
        gathered(ps, step_of()) == ps,
    decreases ps.len(),
{
    if ps.len() > 0 {
        let init = ps.drop_last();
        assert(plain_steps(init)) by {
            assert forall|i: int| 0 <= i < init.len() implies is_step(#[trigger] init[i]) && !init[i].contains('/') by {
                assert(init[i] == ps[i]);
            }
        }
        steps_are_gathered(init);
        assert(is_step(ps[ps.len() - 1]));
        assert(init + seq![ps.last()] =~= ps);
    }
}

proof fn behind_steps(a: Seq<Seq<char>>, b: Seq<Seq<char>>)
    requires
        plain_steps(a),
    ensures
        behind(a + b, a.len()) == b,
    decreases a.len(),
{
    if a.len() == 0 {
        assert(a + b =~= b);
    } else {
        let rest = a.drop_first();
        assert(plain_steps(rest)) by {
            assert forall|i: int| 0 <= i < rest.len() implies is_step(#[trigger] rest[i]) && !rest[i].contains('/') by {
                assert(rest[i] == a[i + 1]);
            }
        }
        behind_steps(rest, b);
        assert((a + b)[0] == a[0]);
        assert((a + b).drop_first() =~= rest + b);
    }
}

/// The components of an absolute path are the root and its steps.
proof fn absolute_components(steps: Seq<Seq<char>>)
    requires
        steps.len() > 0,
        plain_steps(steps),
    ensures
        pieces(absolute(steps), '/') == seq![seq![]] + steps,
        start_of(absolute(steps)) == seq!["/"@],
        components(absolute(steps)) == seq!["/"@] + steps,
{
    let all = seq![seq![]] + steps;
    assert forall|i: int| 0 <= i < all.len() implies !(#[trigger] all[i]).contains('/') by {
        if i > 0 {
            assert(all[i] == steps[i - 1]);
        }
    }
    joined_splits_back(all, '/');
    absolute_starts_at_the_root(steps);
    gathered_first(all, step_of());
    assert(all.drop_first() =~= steps);
    steps_are_gathered(steps);
    assert(seq![] + steps =~= steps);
}

proof fn dots_for_slashes(steps: Seq<Seq<char>>)
    requires
        plain_steps(steps),
    ensures
        with_dots(joined(steps, seq!['/'])) == joined(steps, seq!['.']),
    decreases steps.len(),
{
    if steps.len() > 0 {
        let init = steps.drop_last();
        let last = steps.last();
        assert(plain_steps(init)) by {
            assert forall|i: int| 0 <= i < init.len() implies is_step(#[trigger] init[i]) && !init[i].contains('/') by {
                assert(init[i] == steps[i]);
            }
        }
        dots_for_slashes(init);
        assert(is_step(steps[steps.len() - 1]) && !last.contains('/'));
        assert(with_dots(last) =~= last) by {
            assert forall|i: int| 0 <= i < last.len() implies last[i] != '/' by {
                assert(last.contains(last[i]));
            }
        }
        let a = joined(init, seq!['/']);
        assert(with_dots(a + seq!['/'] + last) =~= with_dots(a) + seq!['.'] + with_dots(last));
    } else {
        assert(with_dots(seq![]) =~= seq![]);
    }
}

/// The key of a path below an absolute base has the steps behind the base, with dots between them.
pub proof fn keys_are_dotted(base: Seq<Seq<char>>, steps: Seq<Seq<char>>)
    requires
        base.len() > 0,
        steps.len() > 0,
        plain_steps(base),
        plain_steps(steps),
    ensures
        key_of(absolute(base + steps), absolute(base)) == Some(joined(steps, seq!['.'])),
{
    reveal_strlit("/");
    assert("/"@ =~= seq!['/']);
    let all = base + steps;
    assert(plain_steps(all)) by {
        assert forall|i: int| 0 <= i < all.len() implies is_step(#[trigger] all[i]) && !all[i].contains('/') by {
            if i < base.len() {
                assert(all[i] == base[i]);
            } else {
                assert(all[i] == steps[i - base.len()]);
            }
        }
    }
    absolute_components(base);
    absolute_components(all);
    let root = seq!["/"@];
    assert(root + base =~= (root + all).subrange(0, (root + base).len() as int));
    let ps = seq![seq![]] + all;
    assert(ps.drop_first() =~= all);
    behind_steps(base, steps);
    assert(behind(ps, base.len()) == steps);
    assert(is_step(steps[0]));
    assert(is_step(steps[steps.len() - 1]));
    dots_for_slashes(steps);
    rest_is_filled(steps);
}

proof fn rest_is_filled(steps: Seq<Seq<char>>)
    requires
        steps.len() > 0,
        plain_steps(steps),
    ensures
        joined(steps, seq!['/']).len() > 0,
{
    assert(is_step(steps[steps.len() - 1]));
}

/// A file below `/proc/sys` is listed under its key where the filter matches the key, or where there
/// is no filter, with its value trimmed and in one field; nothing else is listed, and the knobs come
/// by key.
pub proof fn matching_knobs_are_listed(
    files: Seq<(Seq<char>, Seq<char>)>,
    pattern: Option<Seq<char>>,
    k: (Seq<char>, Seq<char>),
    i: int,
    j: int,
)
    ensures
        knobs(files, pattern).contains(k) <==> (pattern is Some ==> matches_in(pattern->0, k.0)) && exists|f: int|
            0 <= f < files.len() && key_of((#[trigger] files[f]).0, "/proc/sys"@) == Some(k.0) && k.1 == in_one_field(
                trimmed(files[f].1),
            ),
        0 <= i < j < knobs(files, pattern).len() ==> text_le(knobs(files, pattern)[i].0, knobs(files, pattern)[j].0),
        knob_row(k, Format::Tsv) == row(seq![k.0, k.1]),
        knob_row(k, Format::Json) == compact(
            JsonView::Object(seq![("key"@, JsonView::Text(k.0)), ("value"@, JsonView::Text(k.1))]),
        ),
{
    let f = knob(pattern);
    let all = gathered(files, f);
    sorted_holds::<Pair>(all, k);
    sorted_is_a_stable_sort::<Pair>(all);
    gathered_holds(files, f, k);
    let out = knobs(files, pattern);
    if 0 <= i < j < out.len() {
        assert(Pair::le(out[i], out[j]));
    }
    if out.contains(k) {
        let n = choose|n: int| 0 <= n < files.len() && f(#[trigger] files[n]).contains(k);
        assert(f(files[n])[0] == k);
    }
    if (pattern is Some ==> matches_in(pattern->0, k.0)) && exists|n: int|
        0 <= n < files.len() && key_of((#[trigger] files[n]).0, "/proc/sys"@) == Some(k.0) && k.1 == in_one_field(
            trimmed(files[n].1),
        ) {
        let n = choose|n: int|
            0 <= n < files.len() && key_of((#[trigger] files[n]).0, "/proc/sys"@) == Some(k.0) && k.1 == in_one_field(
                trimmed(files[n].1),
            );
        assert(f(files[n])[0] == k);
        assert(f(files[n]).contains(k));
    }
}

} // verus!
