//! Paths into JSON values: dot notation (`.users[0].name`, `."a.b"`) and JSON Pointer
//! (`/users/0/name`).
use crate::gather::{gathered, gathered_first};
use crate::number::{
    decimal, decimal_reads_back, digit, digit_char, parse_unsigned, positional, positional_is_digits, unsigned,
    written_reads_back,
};
use crate::output::Error;
use crate::text::{
    chars, cut, cut_at_the_first, find_char, joined, joined_splits_back, pieces, position, position_is_first, split,
    split_once,
};
use crate::value::{opt, Json, JsonView};
use vstd::prelude::*;
use vstd::string::*;

verus! {

/// One step of a path.
#[derive(Debug, PartialEq)]
pub enum Step {
    /// The member of an object.
    Key(String),
    /// The item of an array.
    Index(u64),
    /// A JSON Pointer token: the member of an object or the item of an array.
    Token(String),
}

/// What a `Step` says.
pub enum StepModel {
    Key(Seq<char>),
    Index(int),
    Token(Seq<char>),
}

impl View for Step {
    type V = StepModel;

    open spec fn view(&self) -> StepModel {
        match self {
            Step::Key(k) => StepModel::Key(k@),
            Step::Index(i) => StepModel::Index(*i as int),
            Step::Token(t) => StepModel::Token(t@),
        }
    }
}

impl DeepView for Step {
    type V = StepModel;

    open spec fn deep_view(&self) -> StepModel {
        self.view()
    }
}

/// `s` with each `~` and `second` in a row turned into `to`.
pub open spec fn unescaped(s: Seq<char>, second: char, to: char) -> Seq<char>
    decreases s.len(),
{
    if s.len() == 0 {
        s
    } else if s.len() >= 2 && s[0] == '~' && s[1] == second {
        seq![to] + unescaped(s.skip(2), second, to)
    } else {
        seq![s[0]] + unescaped(s.drop_first(), second, to)
    }
}

/// A JSON Pointer token with `~1` turned into `/`, then `~0` into `~`.
pub open spec fn token_text(s: Seq<char>) -> Seq<char> {
    unescaped(unescaped(s, '1', '/'), '0', '~')
}

fn unescape(s: &str, second: char, to: char) -> (r: String)
    ensures
        r@ == unescaped(s@, second, to),
{
    let cs = chars(s);
    let mut out = String::new();
    let mut i: usize = 0;
    assert(s@.skip(0) =~= s@);
    assert(out@ + unescaped(s@.skip(0), second, to) =~= unescaped(s@, second, to));
    while i < cs.len()
        invariant
            cs@ == s@,
            i <= cs@.len(),
            out@ + unescaped(s@.skip(i as int), second, to) == unescaped(s@, second, to),
        decreases cs@.len() - i,
    {
        let ghost rest = s@.skip(i as int);
        let ghost before = out@;
        assert(rest[0] == s@[i as int]);
        if cs.len() - i >= 2 && cs[i] == '~' && cs[i + 1] == second {
            assert(rest[1] == s@[i + 1]);
            assert(rest.skip(2) =~= s@.skip(i + 2));
            out.push(to);
            assert(before + (seq![to] + unescaped(rest.skip(2), second, to)) =~= out@ + unescaped(
                s@.skip(i + 2),
                second,
                to,
            ));
            i += 2;
        } else {
            assert(rest.len() >= 2 ==> rest[1] == s@[i + 1]);
            assert(rest.drop_first() =~= s@.skip(i + 1));
            out.push(cs[i]);
            assert(before + (seq![rest[0]] + unescaped(rest.drop_first(), second, to)) =~= out@ + unescaped(
                s@.skip(i + 1),
                second,
                to,
            ));
            i += 1;
        }
    }
    assert(s@.skip(i as int) =~= seq![]);
    assert(out@ + seq![] =~= out@);
    out
}

/// A JSON Pointer token with its escapes undone.
pub fn unescape_pointer_token(s: &str) -> (r: String)
    ensures
        r@ == token_text(s@),
{
    let slashes = unescape(s, '1', '/');
    unescape(slashes.as_str(), '0', '~')
}

/// The index that a run of digits names.
pub open spec fn index_value(s: Seq<char>) -> Option<int> {
    if s.len() > 0 && s[0] == '+' {
        None
    } else {
        match unsigned(s, 10, u64::MAX as nat) {
            Some(n) => Some(n as int),
            None => None,
        }
    }
}

fn read_index(s: &str) -> (r: Option<u64>)
    ensures
        match r {
            Some(n) => index_value(s@) == Some(n as int),
            None => index_value(s@) is None,
        },
{
    if !s.is_empty() && s.get_char(0) == '+' {
        None
    } else {
        parse_unsigned(s, 10, u64::MAX)
    }
}

/// The index that a JSON Pointer token names: digits without a leading zero.
pub open spec fn token_index(s: Seq<char>) -> Option<int> {
    if s.len() > 1 && s[0] == '0' {
        None
    } else {
        index_value(s)
    }
}

/// The step `[digits]` at the head of `s`, and what follows it.
pub open spec fn bracket_step(s: Seq<char>) -> Option<(StepModel, Seq<char>)> {
    match position(s, ']') {
        Some(p) => match index_value(s.subrange(1, p)) {
            Some(n) => Some((StepModel::Index(n), s.skip(p + 1))),
            None => None,
        },
        None => None,
    }
}

/// How many characters precede the first `.` or `[` of `s`.
pub open spec fn key_length(s: Seq<char>) -> int
    decreases s.len(),
{
    if s.len() == 0 || s[0] == '.' || s[0] == '[' {
        0
    } else {
        1 + key_length(s.drop_first())
    }
}

pub proof fn key_length_fits(s: Seq<char>)
    ensures
        0 <= key_length(s) <= s.len(),
    decreases s.len(),
{
    if s.len() > 0 {
        key_length_fits(s.drop_first());
    }
}

/// The key at the head of `s`, in double quotes or up to the next `.` or `[`, and what
/// follows it.
pub open spec fn key_step(s: Seq<char>) -> Option<(StepModel, Seq<char>)> {
    if s.len() > 0 && s[0] == '"' {
        match cut(s.skip(1), '"') {
            Some((key, rest)) => Some((StepModel::Key(key), rest)),
            None => None,
        }
    } else if key_length(s) == 0 {
        None
    } else {
        Some((StepModel::Key(s.take(key_length(s))), s.skip(key_length(s))))
    }
}

/// The first step of `s`, which is not empty, and what follows it.
pub open spec fn first_step(s: Seq<char>) -> Option<(StepModel, Seq<char>)> {
    if s[0] == '[' {
        bracket_step(s)
    } else if s[0] != '.' {
        None
    } else if s.len() > 1 && s[1] == '[' {
        bracket_step(s.skip(1))
    } else {
        key_step(s.skip(1))
    }
}

pub proof fn first_step_consumes(s: Seq<char>)
    requires
        s.len() > 0,
        first_step(s) is Some,
    ensures
        (first_step(s)->0).1.len() < s.len(),
{
    let t = s.skip(1);
    position_is_first(s, ']');
    position_is_first(t, ']');
    position_is_first(t.skip(1), '"');
    key_length_fits(t);
}

/// The steps of a path in dot notation.
pub open spec fn dot_steps(s: Seq<char>) -> Option<Seq<StepModel>>
    decreases s.len() via dot_steps_shrink
{
    if s.len() == 0 {
        Some(seq![])
    } else {
        match first_step(s) {
            Some((step, rest)) => match dot_steps(rest) {
                Some(steps) => Some(seq![step] + steps),
                None => None,
            },
            None => None,
        }
    }
}

#[via_fn]
proof fn dot_steps_shrink(s: Seq<char>) {
    if s.len() > 0 && first_step(s) is Some {
        first_step_consumes(s);
    }
}

/// The steps that an expression writes. What starts with `/` is a JSON Pointer; the empty
/// text and `.` are the root; else dot notation, whose first dot may be left out.
pub open spec fn steps(expr: Seq<char>) -> Option<Seq<StepModel>> {
    if expr.len() == 0 || expr =~= seq!['.'] {
        Some(seq![])
    } else if expr[0] == '/' {
        let tokens = pieces(expr.skip(1), '/');
        Some(Seq::new(tokens.len(), |i: int| StepModel::Token(token_text(tokens[i]))))
    } else if expr[0] == '.' || expr[0] == '[' {
        dot_steps(expr)
    } else {
        dot_steps(seq!['.'] + expr)
    }
}

fn read_bracket<'a>(s: &'a str) -> (r: Option<(Step, &'a str)>)
    requires
        s@.len() > 0,
        s@[0] == '[',
    ensures
        r.deep_view() == bracket_step(s@),
{
    proof {
        position_is_first(s@, ']');
    }
    match find_char(s, ']') {
        Some(p) => {
            let n = s.unicode_len();
            match read_index(s.substring_char(1, p)) {
                Some(i) => {
                    let rest = s.substring_char(p + 1, n);
                    assert(rest@ =~= s@.skip(p + 1));
                    Some((Step::Index(i), rest))
                },
                None => None,
            }
        },
        None => None,
    }
}

fn read_key<'a>(s: &'a str) -> (r: Option<(Step, &'a str)>)
    ensures
        r.deep_view() == key_step(s@),
{
    let n = s.unicode_len();
    if n > 0 && s.get_char(0) == '"' {
        let inner = s.substring_char(1, n);
        assert(inner@ =~= s@.skip(1));
        return match split_once(inner, '"') {
            Some((key, rest)) => Some((Step::Key(key.to_owned()), rest)),
            None => None,
        };
    }
    let cs = chars(s);
    let mut i: usize = 0;
    assert(s@.skip(0) =~= s@);
    while i < n && cs[i] != '.' && cs[i] != '['
        invariant
            cs@ == s@,
            i <= n == s@.len(),
            key_length(s@) == i + key_length(s@.skip(i as int)),
        decreases n - i,
    {
        assert(s@.skip(i as int)[0] == s@[i as int]);
        assert(s@.skip(i as int).drop_first() =~= s@.skip(i + 1));
        i += 1;
    }
    assert(i < n ==> s@.skip(i as int)[0] == s@[i as int]);
    assert(key_length(s@) == i);
    if i == 0 {
        return None;
    }
    let key = s.substring_char(0, i);
    let rest = s.substring_char(i, n);
    assert(key@ =~= s@.take(i as int));
    assert(rest@ =~= s@.skip(i as int));
    Some((Step::Key(key.to_owned()), rest))
}

fn read_step<'a>(s: &'a str) -> (r: Option<(Step, &'a str)>)
    requires
        s@.len() > 0,
    ensures
        r.deep_view() == first_step(s@),
{
    let n = s.unicode_len();
    if s.get_char(0) == '[' {
        return read_bracket(s);
    }
    if s.get_char(0) != '.' {
        return None;
    }
    let rest = s.substring_char(1, n);
    assert(rest@ =~= s@.skip(1));
    if n > 1 && s.get_char(1) == '[' {
        assert(rest@[0] == s@[1]);
        read_bracket(rest)
    } else {
        read_key(rest)
    }
}

fn read_dot_steps(s: &str) -> (r: Option<Vec<Step>>)
    ensures
        r.deep_view() == dot_steps(s@),
{
    let mut out: Vec<Step> = Vec::new();
    let mut rest: &str = s;
    assert(out.deep_view() =~= seq![]);
    proof {
        if dot_steps(s@) is Some {
            assert(seq![] + dot_steps(s@)->0 =~= dot_steps(s@)->0);
        }
    }
    while !rest.is_empty()
        invariant
            dot_steps(s@) is Some <==> dot_steps(rest@) is Some,
            dot_steps(s@) is Some ==> dot_steps(s@)->0 == out.deep_view() + dot_steps(rest@)->0,
        decreases rest@.len(),
    {
        let ghost before = out.deep_view();
        match read_step(rest) {
            Some((step, tail)) => {
                proof {
                    first_step_consumes(rest@);
                }
                let ghost model = step@;
                out.push(step);
                assert(out.deep_view() =~= before.push(model));
                proof {
                    if dot_steps(tail@) is Some {
                        assert(before + (seq![model] + dot_steps(tail@)->0) =~= out.deep_view() + dot_steps(tail@)->0);
                    }
                }
                rest = tail;
            },
            None => {
                return None;
            },
        }
    }
    assert(out.deep_view() + seq![] =~= out.deep_view());
    Some(out)
}

/// Reads a path expression; `None` where it is not one.
pub fn parse_steps(expr: &str) -> (r: Option<Vec<Step>>)
    ensures
        r.deep_view() == steps(expr@),
{
    let n = expr.unicode_len();
    if n == 0 || (n == 1 && expr.get_char(0) == '.') {
        let out: Vec<Step> = Vec::new();
        assert(out.deep_view() =~= seq![]);
        assert(n == 1 ==> expr@ =~= seq!['.']);
        return Some(out);
    }
    assert(!(expr@ =~= seq!['.'])) by {
        if expr@ =~= seq!['.'] {
            assert(expr@.len() == 1 && expr@[0] == '.');
        }
    }
    let first = expr.get_char(0);
    if first == '/' {
        let body = expr.substring_char(1, n);
        assert(body@ =~= expr@.skip(1));
        let tokens = split(body, '/');
        let ghost parts = pieces(expr@.skip(1), '/');
        let ghost model = Seq::new(parts.len(), |i: int| StepModel::Token(token_text(parts[i])));
        let mut out: Vec<Step> = Vec::new();
        for i in 0..tokens.len()
            invariant
                tokens.deep_view() == parts,
                model == Seq::new(parts.len(), |i: int| StepModel::Token(token_text(parts[i]))),
                out.deep_view() =~= model.take(i as int),
        {
            let ghost before = out.deep_view();
            assert(parts[i as int] == tokens@[i as int]@);
            let step = Step::Token(unescape_pointer_token(tokens[i]));
            let ghost step_model = step@;
            out.push(step);
            assert(out.deep_view() =~= before.push(step_model));
        }
        assert(tokens.deep_view().len() == tokens@.len());
        assert(model.take(model.len() as int) =~= model);
        return Some(out);
    }
    if first == '.' || first == '[' {
        read_dot_steps(expr)
    } else {
        let mut dotted = ".".to_owned();
        dotted.append(expr);
        proof {
            reveal_strlit(".");
        }
        assert(dotted@ =~= seq!['.'] + expr@);
        read_dot_steps(dotted.as_str())
    }
}

/// Where one step leads from `v`.
pub open spec fn step_into(v: JsonView, step: StepModel) -> Option<JsonView> {
    let index = match step {
        StepModel::Key(_) => None,
        StepModel::Index(i) => Some(i),
        StepModel::Token(t) => token_index(t),
    };
    match v {
        JsonView::Object(_) => match step {
            StepModel::Key(k) => v.get(k),
            StepModel::Index(_) => None,
            StepModel::Token(t) => v.get(t),
        },
        JsonView::Array(items) => match index {
            Some(i) => if 0 <= i < items.len() {
                Some(items[i])
            } else {
                None
            },
            None => None,
        },
        _ => None,
    }
}

/// Where steps lead from `v`, one after the other.
pub open spec fn reach(v: JsonView, path: Seq<StepModel>) -> Option<JsonView>
    decreases path.len(),
{
    if path.len() == 0 {
        Some(v)
    } else {
        match step_into(v, path[0]) {
            Some(w) => reach(w, path.drop_first()),
            None => None,
        }
    }
}

fn item_at<'a>(v: &'a Json, index: Option<u64>) -> (r: Option<&'a Json>)
    ensures
        opt(r) == match v@ {
            JsonView::Array(items) => match index {
                Some(i) => if i < items.len() {
                    Some(items[i as int])
                } else {
                    None
                },
                None => None,
            },
            _ => None,
        },
{
    match (v, index) {
        (Json::Array(items), Some(i)) => {
            if i < items.len() as u64 {
                Some(&items[i as usize])
            } else {
                None
            }
        },
        _ => None,
    }
}

fn take_step<'a>(v: &'a Json, step: &Step) -> (r: Option<&'a Json>)
    ensures
        opt(r) == step_into(v@, step@),
{
    match step {
        Step::Key(k) => v.get(k.as_str()),
        Step::Index(i) => item_at(v, Some(*i)),
        Step::Token(t) => match v {
            Json::Object(_) => v.get(t.as_str()),
            _ => {
                let index = if t.as_str().unicode_len() > 1 && t.as_str().get_char(0) == '0' {
                    None
                } else {
                    read_index(t.as_str())
                };
                item_at(v, index)
            },
        },
    }
}

/// Follows steps from `v`.
pub fn follow<'a>(v: &'a Json, path: &Vec<Step>) -> (r: Option<&'a Json>)
    ensures
        opt(r) == reach(v@, path.deep_view()),
{
    let ghost all = path.deep_view();
    let mut current: &'a Json = v;
    let mut i: usize = 0;
    assert(all.skip(0) =~= all);
    while i < path.len()
        invariant
            all == path.deep_view(),
            i <= path@.len(),
            reach(v@, all) == reach(current@, all.skip(i as int)),
        decreases path@.len() - i,
    {
        assert(all.skip(i as int)[0] == path@[i as int]@);
        assert(all.skip(i as int).drop_first() =~= all.skip(i + 1));
        match take_step(current, &path[i]) {
            Some(next) => {
                current = next;
            },
            None => {
                return None;
            },
        }
        i += 1;
    }
    Some(current)
}

/// Why an expression is refused that is not a path.
pub open spec fn bad_path(expr: Seq<char>) -> Seq<char> {
    "invalid path expression '"@ + expr + "'"@
}

/// The value that an expression leads to, if any.
pub open spec fn resolved(v: JsonView, expr: Seq<char>) -> Option<JsonView> {
    match steps(expr) {
        Some(path) => reach(v, path),
        None => None,
    }
}

/// The value that a path expression leads to, if any; an error where the expression is not a
/// path.
pub fn resolve_expression<'a>(v: &'a Json, expr: &str) -> (r: Result<Option<&'a Json>, Error>)
    ensures
        match r {
            Ok(found) => steps(expr@) is Some && opt(found) == resolved(v@, expr@),
            Err(e) => steps(expr@) is None && e.message@ == bad_path(expr@),
        },
{
    match parse_steps(expr) {
        Some(path) => Ok(follow(v, &path)),
        None => {
            let mut message = "invalid path expression '".to_owned();
            message.append(expr);
            message.append("'");
            Err(Error { message })
        },
    }
}

/// The first of the named paths that is not one.
pub open spec fn first_bad(specs: Seq<(Seq<char>, Seq<char>)>) -> Option<Seq<char>>
    decreases specs.len(),
{
    if specs.len() == 0 {
        None
    } else if steps(specs[0].1) is None {
        Some(specs[0].1)
    } else {
        first_bad(specs.drop_first())
    }
}

/// A key as a JSON Pointer token: `~` as `~0` and `/` as `~1`.
pub open spec fn token_of(s: Seq<char>) -> Seq<char> {
    gathered(
        s,
        |c: char|
            if c == '~' {
                seq!['~', '0']
            } else if c == '/' {
                seq!['~', '1']
            } else {
                seq![c]
            },
    )
}

/// The token of a key, undone, is the key; and a token holds no slash.
pub proof fn token_reads_back(s: Seq<char>)
    ensures
        token_text(token_of(s)) == s,
        !token_of(s).contains('/'),
{
    slashes_come_back(s);
    tildes_come_back(s);
    token_has_no_slash(s);
}

proof fn token_has_no_slash(s: Seq<char>)
    ensures
        forall|i: int| 0 <= i < token_of(s).len() ==> token_of(s)[i] != '/',
    decreases s.len(),
{
    let f = |c: char|
        if c == '~' {
            seq!['~', '0']
        } else if c == '/' {
            seq!['~', '1']
        } else {
            seq![c]
        };
    if s.len() > 0 {
        token_has_no_slash(s.drop_last());
        let x = token_of(s.drop_last());
        assert(token_of(s) == x + f(s.last()));
        assert forall|i: int| 0 <= i < token_of(s).len() implies token_of(s)[i] != '/' by {
            if i < x.len() {
                assert(token_of(s)[i] == x[i]);
            }
        }
    }
}

/// `s` with each `~` as `~0`.
spec fn tildes_escaped(s: Seq<char>) -> Seq<char> {
    gathered(
        s,
        |c: char|
            if c == '~' {
                seq!['~', '0']
            } else {
                seq![c]
            },
    )
}

proof fn slashes_come_back(s: Seq<char>)
    ensures
        unescaped(token_of(s), '1', '/') == tildes_escaped(s),
    decreases s.len(),
{
    let f = |c: char|
        if c == '~' {
            seq!['~', '0']
        } else if c == '/' {
            seq!['~', '1']
        } else {
            seq![c]
        };
    let g = |c: char|
        if c == '~' {
            seq!['~', '0']
        } else {
            seq![c]
        };
    if s.len() > 0 {
        let rest = s.drop_first();
        slashes_come_back(rest);
        gathered_first(s, f);
        gathered_first(s, g);
        let x = token_of(rest);
        assert(token_of(s) == f(s[0]) + x);
        assert(tildes_escaped(s) == g(s[0]) + tildes_escaped(rest));
        if s[0] == '~' {
            let t = seq!['~', '0'] + x;
            assert(t.drop_first() =~= seq!['0'] + x);
            assert((seq!['0'] + x).drop_first() =~= x);
            assert(unescaped(seq!['0'] + x, '1', '/') == seq!['0'] + unescaped(x, '1', '/'));
            assert(unescaped(t, '1', '/') == seq!['~'] + unescaped(seq!['0'] + x, '1', '/'));
            assert(unescaped(t, '1', '/') =~= seq!['~', '0'] + unescaped(x, '1', '/'));
        } else if s[0] == '/' {
            let t = seq!['~', '1'] + x;
            assert(t.skip(2) =~= x);
        } else {
            let t = seq![s[0]] + x;
            assert(t.drop_first() =~= x);
        }
    }
}

proof fn tildes_come_back(s: Seq<char>)
    ensures
        unescaped(tildes_escaped(s), '0', '~') == s,
    decreases s.len(),
{
    let g = |c: char|
        if c == '~' {
            seq!['~', '0']
        } else {
            seq![c]
        };
    if s.len() > 0 {
        let rest = s.drop_first();
        tildes_come_back(rest);
        gathered_first(s, g);
        let x = tildes_escaped(rest);
        assert(tildes_escaped(s) == g(s[0]) + x);
        if s[0] == '~' {
            let t = seq!['~', '0'] + x;
            assert(t.skip(2) =~= x);
        } else {
            let t = seq![s[0]] + x;
            assert(t.drop_first() =~= x);
        }
        assert(seq![s[0]] + rest =~= s);
    } else {
        assert(tildes_escaped(s) =~= s);
    }
}

/// Whether a key can stand in dot notation without quotes and in a JSON Pointer without escapes.
pub open spec fn simple_key(k: Seq<char>) -> bool {
    k.len() > 0 && k[0] != '"' && forall|i: int|
        0 <= i < k.len() ==> (#[trigger] k[i]) != '.' && k[i] != '[' && k[i] != '/' && k[i] != '~'
}

proof fn simple_key_is_whole(k: Seq<char>)
    requires
        forall|i: int| 0 <= i < k.len() ==> (#[trigger] k[i]) != '.' && k[i] != '[',
    ensures
        key_length(k) == k.len(),
    decreases k.len(),
{
    if k.len() > 0 {
        let rest = k.drop_first();
        assert forall|i: int| 0 <= i < rest.len() implies (#[trigger] rest[i]) != '.' && rest[i] != '[' by {
            assert(rest[i] == k[i + 1]);
        }
        simple_key_is_whole(rest);
    }
}

proof fn no_tilde_stays(s: Seq<char>, second: char, to: char)
    requires
        !s.contains('~'),
    ensures
        unescaped(s, second, to) == s,
    decreases s.len(),
{
    if s.len() > 0 {
        let rest = s.drop_first();
        assert(!rest.contains('~')) by {
            assert forall|i: int| 0 <= i < rest.len() implies rest[i] != '~' by {
                assert(rest[i] == s[i + 1]);
            }
        }
        no_tilde_stays(rest, second, to);
        assert(s[0] != '~');
        assert(seq![s[0]] + rest =~= s);
    }
}

/// The two notations agree: `.key`, `key` and `/key` lead to the same member of an object, and
/// the empty text and `.` to the value itself.
pub proof fn notations_agree(v: JsonView, k: Seq<char>)
    requires
        v is Object,
        simple_key(k),
    ensures
        resolved(v, seq!['.'] + k) == v.get(k),
        resolved(v, seq!['/'] + k) == v.get(k),
        resolved(v, k) == v.get(k),
        resolved(v, seq![]) == Some(v),
        resolved(v, seq!['.']) == Some(v),
{
    let dotted = seq!['.'] + k;
    assert(dotted.skip(1) =~= k);
    assert(dotted[1] == k[0]);
    simple_key_is_whole(k);
    assert(k.take(k.len() as int) =~= k);
    assert(k.skip(k.len() as int) =~= seq![]);
    let step = StepModel::Key(k);
    assert(first_step(dotted) == Some((step, k.skip(k.len() as int))));
    assert(dot_steps(k.skip(k.len() as int)) == Some(Seq::<StepModel>::empty()));
    assert(dot_steps(dotted) == Some(seq![step] + Seq::<StepModel>::empty()));
    assert(seq![step] + Seq::<StepModel>::empty() =~= seq![step]);
    assert(dotted.len() > 1);
    assert(steps(dotted) == Some(seq![step]));
    assert(seq![step].drop_first() =~= Seq::<StepModel>::empty());
    let none = Seq::<StepModel>::empty();
    assert(forall|w: JsonView| reach(w, none) == Some(w));
    assert(seq![step][0] == step);
    assert(step_into(v, step) == v.get(k));
    assert(reach(v, seq![step]) == match v.get(k) {
        Some(w) => reach(w, none),
        None => None,
    });
    let pointed = seq!['/'] + k;
    assert(pointed.skip(1) =~= k);
    assert(!k.contains('/'));
    assert(!k.contains('~'));
    crate::text::pieces_of_one(k, '/');
    no_tilde_stays(k, '1', '/');
    no_tilde_stays(k, '0', '~');
    let token = StepModel::Token(k);
    assert(steps(pointed)->0 =~= seq![token]);
    assert(seq![token].drop_first() =~= none);
    assert(seq![token][0] == token);
    assert(step_into(v, token) == v.get(k));
    assert(reach(v, seq![token]) == match v.get(k) {
        Some(w) => reach(w, none),
        None => None,
    });
    if k.len() == 1 {
        assert(!(k =~= seq!['.'])) by {
            assert(k[0] != '.');
        }
    }
    assert(steps(k) == dot_steps(dotted));
}

/// A way down a JSON value: to a member, or to an item.
pub enum Way {
    Member(Seq<char>),
    Item(nat),
}

/// Where a way leads: a member only from an object, an item only from an array.
pub open spec fn go(v: JsonView, way: Way) -> Option<JsonView> {
    match (v, way) {
        (JsonView::Object(_), Way::Member(name)) => v.get(name),
        (JsonView::Array(items), Way::Item(i)) => if i < items.len() {
            Some(items[i as int])
        } else {
            None
        },
        _ => None,
    }
}

/// Where ways lead, one after the other.
pub open spec fn go_all(v: JsonView, ways: Seq<Way>) -> Option<JsonView>
    decreases ways.len(),
{
    if ways.len() == 0 {
        Some(v)
    } else {
        match go(v, ways[0]) {
            Some(w) => go_all(w, ways.drop_first()),
            None => None,
        }
    }
}

/// A way in dot notation: a name behind a dot, in quotes where it is not simple; an index in
/// brackets.
pub open spec fn dot_text(way: Way) -> Seq<char> {
    match way {
        Way::Member(name) => if simple_key(name) {
            seq!['.'] + name
        } else {
            seq!['.', '"'] + name + seq!['"']
        },
        Way::Item(i) => seq!['['] + decimal(i) + seq![']'],
    }
}

/// Ways in dot notation.
pub open spec fn dot_path(ways: Seq<Way>) -> Seq<char>
    decreases ways.len(),
{
    if ways.len() == 0 {
        seq![]
    } else {
        dot_text(ways[0]) + dot_path(ways.drop_first())
    }
}

/// Ways that dot notation can write: no name with a quote, no index past the range of `u64`.
pub open spec fn writable(ways: Seq<Way>) -> bool {
    forall|i: int|
        0 <= i < ways.len() ==> match #[trigger] ways[i] {
            Way::Member(name) => !name.contains('"'),
            Way::Item(n) => n <= u64::MAX,
        }
}

/// What a way is as a step.
pub open spec fn step_of_way(way: Way) -> StepModel {
    match way {
        Way::Member(name) => StepModel::Key(name),
        Way::Item(i) => StepModel::Index(i as int),
    }
}

proof fn key_ends_where_the_rest_starts(k: Seq<char>, rest: Seq<char>)
    requires
        forall|i: int| 0 <= i < k.len() ==> (#[trigger] k[i]) != '.' && k[i] != '[',
        rest.len() > 0 ==> rest[0] == '.' || rest[0] == '[',
    ensures
        key_length(k + rest) == k.len(),
    decreases k.len(),
{
    if k.len() > 0 {
        let tail = k.drop_first();
        assert forall|i: int| 0 <= i < tail.len() implies (#[trigger] tail[i]) != '.' && tail[i] != '[' by {
            assert(tail[i] == k[i + 1]);
        }
        key_ends_where_the_rest_starts(tail, rest);
        assert((k + rest)[0] == k[0]);
        assert((k + rest).drop_first() =~= tail + rest);
    } else {
        assert(k + rest =~= rest);
    }
}

proof fn way_is_the_first_step(way: Way, rest: Seq<char>)
    requires
        writable(seq![way]),
        rest.len() > 0 ==> rest[0] == '.' || rest[0] == '[',
    ensures
        (dot_text(way) + rest).len() > 0,
        first_step(dot_text(way) + rest) == Some((step_of_way(way), rest)),
{
    let s = dot_text(way) + rest;
    assert(seq![way][0] == way);
    match way {
        Way::Member(name) => {
            if simple_key(name) {
                key_ends_where_the_rest_starts(name, rest);
                assert(s.skip(1) =~= name + rest);
                assert(s[1] == name[0]);
                assert((name + rest)[0] == name[0]);
                assert((name + rest).take(name.len() as int) =~= name);
                assert((name + rest).skip(name.len() as int) =~= rest);
            } else {
                assert(s.skip(1) =~= seq!['"'] + name + seq!['"'] + rest);
                assert(s.skip(1).skip(1) =~= name + seq!['"'] + rest);
                assert(s[0] == '.' && s[1] == '"');
                assert(s.skip(1)[0] == '"');
                cut_at_the_first(name, rest, '"');
            }
        },
        Way::Item(i) => {
            let digits = decimal(i);
            written_reads_back(i, 10);
            positional_is_digits(digits, 10);
            decimal_reads_back(i, u64::MAX as nat);
            assert(s[0] == '[');
            let p = digits.len() as int + 1;
            assert(s[p] == ']');
            position_is_first(s, ']');
            assert forall|k: int| 0 <= k < p implies s[k] != ']' by {
                if k > 0 {
                    assert(s[k] == digits[k - 1]);
                    assert(digit(digits[k - 1], 10) is Some);
                }
            }
            assert(position(s, ']') == Some(p));
            assert(s.subrange(1, p) =~= digits);
            assert(digit(digits[0], 10) is Some);
            assert(digits[0] != '+');
            assert(s.skip(p + 1) =~= rest);
        },
    }
}

proof fn dot_path_starts(ways: Seq<Way>)
    ensures
        ways.len() > 0 ==> dot_path(ways).len() > 0 && (dot_path(ways)[0] == '.' || dot_path(ways)[0] == '['),
        ways.len() > 0 ==> !(dot_path(ways) =~= seq!['.']),
{
    if ways.len() > 0 {
        let d = dot_text(ways[0]);
        assert(dot_path(ways)[0] == d[0]);
        assert(d.len() > 1);
    }
}

proof fn dot_path_is_its_steps(ways: Seq<Way>)
    requires
        writable(ways),
    ensures
        dot_steps(dot_path(ways)) == Some(Seq::new(ways.len(), |i: int| step_of_way(ways[i]))),
    decreases ways.len(),
{
    let all = Seq::new(ways.len(), |i: int| step_of_way(ways[i]));
    if ways.len() > 0 {
        let rest = ways.drop_first();
        assert(writable(rest)) by {
            assert forall|i: int| 0 <= i < rest.len() implies match #[trigger] rest[i] {
                Way::Member(name) => !name.contains('"'),
                Way::Item(n) => n <= u64::MAX,
            } by {
                assert(rest[i] == ways[i + 1]);
            }
        }
        assert(writable(seq![ways[0]])) by {
            assert(seq![ways[0]][0] == ways[0]);
        }
        dot_path_is_its_steps(rest);
        dot_path_starts(rest);
        way_is_the_first_step(ways[0], dot_path(rest));
        assert(seq![step_of_way(ways[0])] + Seq::new(rest.len(), |i: int| step_of_way(rest[i])) =~= all);
    } else {
        assert(all =~= seq![]);
    }
}

proof fn steps_go_the_ways(v: JsonView, ways: Seq<Way>)
    ensures
        reach(v, Seq::new(ways.len(), |i: int| step_of_way(ways[i]))) == go_all(v, ways),
    decreases ways.len(),
{
    let all = Seq::new(ways.len(), |i: int| step_of_way(ways[i]));
    if ways.len() > 0 {
        let rest = ways.drop_first();
        assert(all.drop_first() =~= Seq::new(rest.len(), |i: int| step_of_way(rest[i])));
        assert(step_into(v, all[0]) == go(v, ways[0]));
        if let Some(w) = go(v, ways[0]) {
            steps_go_the_ways(w, rest);
        }
    }
}

/// A path in dot notation leads where its parts say, from the first to the last: each name to the
/// member of that name, each index to the item there, and nowhere where there is none.
pub proof fn dotted_paths_lead_down(v: JsonView, ways: Seq<Way>)
    requires
        writable(ways),
    ensures
        resolved(v, dot_path(ways)) == go_all(v, ways),
{
    dot_path_is_its_steps(ways);
    dot_path_starts(ways);
    steps_go_the_ways(v, ways);
    if ways.len() == 0 {
        assert(Seq::new(ways.len(), |i: int| step_of_way(ways[i])) =~= Seq::<StepModel>::empty());
    }
}

/// A way as a JSON Pointer token.
pub open spec fn pointer_token(way: Way) -> Seq<char> {
    match way {
        Way::Member(name) => token_of(name),
        Way::Item(i) => decimal(i),
    }
}

/// Ways as a JSON Pointer.
pub open spec fn pointer(ways: Seq<Way>) -> Seq<char> {
    seq!['/'] + joined(Seq::new(ways.len(), |i: int| pointer_token(ways[i])), seq!['/'])
}

proof fn written_has_no_leading_zero(n: nat)
    ensures
        decimal(n).len() > 0,
        decimal(n).len() > 1 ==> decimal(n)[0] != '0',
    decreases n,
{
    written_reads_back(n, 10);
    if n >= 10 {
        written_has_no_leading_zero(n / 10);
        let head = decimal(n / 10);
        assert(decimal(n) == head.push(digit_char(n % 10)));
        assert(decimal(n)[0] == head[0]);
        if head.len() == 1 && head[0] == '0' {
            written_reads_back(n / 10, 10);
            reveal_with_fuel(positional, 3);
            assert(head.drop_last() =~= seq![]);
        }
    }
}

proof fn tokens_go_the_ways(v: JsonView, ways: Seq<Way>, path: Seq<StepModel>)
    requires
        path.len() == ways.len(),
        forall|i: int|
            0 <= i < ways.len() ==> #[trigger] path[i] == StepModel::Token(
                match ways[i] {
                    Way::Member(name) => name,
                    Way::Item(n) => decimal(n),
                },
            ),
        writable_items(ways),
        go_all(v, ways) is Some,
    ensures
        reach(v, path) == go_all(v, ways),
    decreases ways.len(),
{
    if ways.len() > 0 {
        let rest = ways.drop_first();
        let w = go(v, ways[0])->0;
        assert forall|i: int| 0 <= i < rest.len() implies #[trigger] path.drop_first()[i] == StepModel::Token(
            match rest[i] {
                Way::Member(name) => name,
                Way::Item(n) => decimal(n),
            },
        ) by {
            assert(path[i + 1] == path.drop_first()[i]);
        }
        assert(writable_items(rest)) by {
            assert forall|i: int| 0 <= i < rest.len() implies match #[trigger] rest[i] {
                Way::Item(n) => n <= u64::MAX,
                _ => true,
            } by {
                assert(rest[i] == ways[i + 1]);
            }
        }
        assert(step_into(v, path[0]) == Some(w)) by {
            if let Way::Item(n) = ways[0] {
                written_has_no_leading_zero(n);
                written_reads_back(n, 10);
                positional_is_digits(decimal(n), 10);
                decimal_reads_back(n, u64::MAX as nat);
                assert(digit(decimal(n)[0], 10) is Some);
                assert(token_index(decimal(n)) == Some(n as int));
            }
        }
        tokens_go_the_ways(w, rest, path.drop_first());
    }
}

/// Ways without an index past the range of `u64`.
pub open spec fn writable_items(ways: Seq<Way>) -> bool {
    forall|i: int|
        0 <= i < ways.len() ==> match #[trigger] ways[i] {
            Way::Item(n) => n <= u64::MAX,
            _ => true,
        }
}

proof fn digits_stay_a_token(n: nat)
    ensures
        token_text(decimal(n)) == decimal(n),
        !decimal(n).contains('/'),
{
    let d = decimal(n);
    written_reads_back(n, 10);
    positional_is_digits(d, 10);
    assert forall|i: int| 0 <= i < d.len() implies d[i] != '/' && d[i] != '~' by {
        assert(digit(d[i], 10) is Some);
    }
    no_tilde_stays(d, '1', '/');
    no_tilde_stays(d, '0', '~');
}

/// A JSON Pointer leads where its tokens say: wherever names and indexes lead to a value, the
/// pointer that is made of them leads to it, whatever the names hold.
pub proof fn pointers_lead_down(v: JsonView, ways: Seq<Way>)
    requires
        ways.len() > 0,
        writable_items(ways),
        go_all(v, ways) is Some,
    ensures
        resolved(v, pointer(ways)) == go_all(v, ways),
{
    let tokens = Seq::new(ways.len(), |i: int| pointer_token(ways[i]));
    let text = pointer(ways);
    assert forall|i: int| 0 <= i < tokens.len() implies !(#[trigger] tokens[i]).contains('/') by {
        match ways[i] {
            Way::Member(name) => token_reads_back(name),
            Way::Item(n) => digits_stay_a_token(n),
        }
    }
    joined_splits_back(tokens, '/');
    assert(text.skip(1) =~= joined(tokens, seq!['/']));
    assert(text[0] == '/');
    assert(!(text =~= seq!['.']));
    let path = steps(text)->0;
    assert forall|i: int| 0 <= i < ways.len() implies #[trigger] path[i] == StepModel::Token(
        match ways[i] {
            Way::Member(name) => name,
            Way::Item(n) => decimal(n),
        },
    ) by {
        assert(tokens[i] == pointer_token(ways[i]));
        match ways[i] {
            Way::Member(name) => token_reads_back(name),
            Way::Item(n) => digits_stay_a_token(n),
        }
    }
    tokens_go_the_ways(v, ways, path);
}

} // verus!
