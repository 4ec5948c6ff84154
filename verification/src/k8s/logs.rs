//! The logs of a pod's containers.
use crate::gather::{gathered, gathered_holds, gathered_of_both, gathered_step};
use crate::number::{
    decimal, digit, digit_run, digit_run_facts, digit_run_of_digits, digit_run_of_longer, digits_have_a_value,
    positional, positional_is_digits, written_reads_back,
};
use crate::output::{report_rows, reports, Error, Report};
use crate::pattern::{compiles, is_match, is_pattern, matches_in};
use crate::text::{borrowed, chars, join, joined, lines, split_lines};
use crate::value::{array_of, at, get_at, inner, items_of, list_of, opt, or_none, str_of, text_of, Json, JsonView};
use vstd::prelude::*;
use vstd::string::*;

verus! {

/// The arguments of the command.
#[derive(Debug)]
pub struct LogsArgs {
    pub pod: String,
    pub container: Option<String>,
    pub all_containers: bool,
    pub tail: Option<i64>,
    pub since: Option<String>,
    pub previous: bool,
    pub grep: Option<String>,
    pub namespace: Option<String>,
    pub limit: Option<usize>,
}

/// What is wrong with a duration.
pub enum SinceFault {
    Empty,
    Overflow,
    UnitWithoutDigits,
    BadUnit(char),
    TrailingDigits,
}

/// The seconds of a unit.
pub open spec fn unit_seconds(c: char) -> Option<int> {
    if c == 's' {
        Some(1)
    } else if c == 'm' {
        Some(60)
    } else if c == 'h' {
        Some(3600)
    } else if c == 'd' {
        Some(86400)
    } else {
        None
    }
}

/// The seconds that the pairs of number and unit in `s` come to, added to those before them;
/// or what is wrong with the first pair that is not one.
pub open spec fn since_from(s: Seq<char>, before: int) -> Result<int, SinceFault>
    decreases s.len() via since_from_shrinks
{
    let n = digit_run(s);
    let value = positional(s.take(n), 10)->0;
    if s.len() == 0 {
        Ok(before)
    } else if n == 0 {
        Err(SinceFault::UnitWithoutDigits)
    } else if value > i64::MAX {
        Err(SinceFault::Overflow)
    } else if n == s.len() {
        Err(SinceFault::TrailingDigits)
    } else if unit_seconds(s[n]) is None {
        Err(SinceFault::BadUnit(s[n]))
    } else {
        let total = before + value * unit_seconds(s[n])->0;
        if total > i64::MAX {
            Err(SinceFault::Overflow)
        } else {
            since_from(s.skip(n + 1), total)
        }
    }
}

#[via_fn]
proof fn since_from_shrinks(s: Seq<char>, before: int) {
    digit_run_facts(s);
}

/// The seconds of a duration such as `2h30m`, or what is wrong with it.
pub open spec fn since(s: Seq<char>) -> Result<int, SinceFault> {
    if s.len() == 0 {
        Err(SinceFault::Empty)
    } else {
        since_from(s, 0)
    }
}

pub open spec fn since_message(s: Seq<char>, fault: SinceFault) -> Seq<char> {
    match fault {
        SinceFault::Empty => "empty --since duration"@,
        SinceFault::Overflow => "--since duration overflow: "@ + s,
        SinceFault::UnitWithoutDigits => "invalid --since duration `"@ + s + "`: unit without digits"@,
        SinceFault::BadUnit(c) => "invalid --since unit `"@ + seq![c] + "` in `"@ + s + "` (expected s/m/h/d)"@,
        SinceFault::TrailingDigits => "invalid --since duration `"@ + s + "`: trailing digits without unit"@,
    }
}

fn fault(s: &str, f: SinceFault) -> (e: Error)
    ensures
        e.message@ == since_message(s@, f),
{
    let message = match f {
        SinceFault::Empty => "empty --since duration".to_owned(),
        SinceFault::Overflow => {
            let mut m = "--since duration overflow: ".to_owned();
            m.append(s);
            m
        },
        SinceFault::UnitWithoutDigits => {
            let mut m = "invalid --since duration `".to_owned();
            m.append(s);
            m.append("`: unit without digits");
            m
        },
        SinceFault::BadUnit(c) => {
            let mut m = "invalid --since unit `".to_owned();
            let ghost head = m@;
            m.push(c);
            assert(m@ =~= head + seq![c]);
            m.append("` in `");
            m.append(s);
            m.append("` (expected s/m/h/d)");
            m
        },
        SinceFault::TrailingDigits => {
            let mut m = "invalid --since duration `".to_owned();
            m.append(s);
            m.append("`: trailing digits without unit");
            m
        },
    };
    Error { message }
}

fn digit_value(c: char) -> (r: Option<i64>)
    ensures
        match r {
            Some(d) => digit(c, 10) == Some(d as nat) && 0 <= d < 10,
            None => digit(c, 10) is None,
        },
{
    if '0' <= c && c <= '9' {
        Some(((c as u32) - ('0' as u32)) as i64)
    } else {
        None
    }
}

fn unit_of(c: char) -> (r: Option<i64>)
    ensures
        match r {
            Some(m) => unit_seconds(c) == Some(m as int) && 1 <= m <= 86400,
            None => unit_seconds(c) is None,
        },
{
    match c {
        's' => Some(1),
        'm' => Some(60),
        'h' => Some(3600),
        'd' => Some(86400),
        _ => None,
    }
}

/// Reads the digits from `from` on, up to `to`, where they end.
fn read_number(cs: &Vec<char>, from: usize, to: usize) -> (r: Option<i64>)
    requires
        from <= to <= cs@.len(),
        forall|i: int| from <= i < to ==> digit(#[trigger] cs@[i], 10) is Some,
    ensures
        match r {
            Some(v) => positional(cs@.subrange(from as int, to as int), 10) == Some(v as nat) && v >= 0,
            None => positional(cs@.subrange(from as int, to as int), 10) is Some && positional(
                cs@.subrange(from as int, to as int),
                10,
            )->0 > i64::MAX,
        },
{
    let ghost body = cs@.subrange(from as int, to as int);
    let mut value: i64 = 0;
    let mut i: usize = from;
    assert(body.take(0) =~= seq![]);
    proof {
        assert forall|k: int| 0 <= k < body.len() implies digit(#[trigger] body[k], 10) is Some by {
            assert(body[k] == cs@[from + k]);
        }
        digits_have_a_value(body);
    }
    while i < to
        invariant
            from <= i <= to <= cs@.len(),
            body == cs@.subrange(from as int, to as int),
            positional(body, 10) is Some,
            forall|k: int| from <= k < to ==> digit(#[trigger] cs@[k], 10) is Some,
            value >= 0,
            positional(body.take(i - from), 10) == Some(value as nat),
        decreases to - i,
    {
        proof {
            assert(body.take(i - from + 1).drop_last() =~= body.take(i - from));
            assert(body.take(i - from + 1).last() == cs@[i as int]);
            crate::number::positional_grows(body, 10, i - from + 1);
        }
        let d: i64 = match digit_value(cs[i]) {
            Some(d) => d,
            None => 0,
        };
        value = match value.checked_mul(10) {
            Some(v) => match v.checked_add(d) {
                Some(v) => v,
                None => {
                    return None;
                },
            },
            None => {
                return None;
            },
        };
        i += 1;
    }
    assert(body.take(to - from) =~= body);
    Some(value)
}

/// The seconds of a duration: pairs of a number and a unit (`s`, `m`, `h` or `d`) in a row.
pub fn parse_since(s: &str) -> (r: Result<i64, Error>)
    ensures
        match r {
            Ok(n) => since(s@) == Ok::<int, SinceFault>(n as int) && n >= 0,
            Err(e) => since(s@) is Err && e.message@ == since_message(s@, since(s@)->Err_0),
        },
{
    if s.is_empty() {
        return Err(fault(s, SinceFault::Empty));
    }
    let cs = chars(s);
    let mut total: i64 = 0;
    let mut i: usize = 0;
    assert(s@.skip(0) =~= s@);
    while i < cs.len()
        invariant
            cs@ == s@,
            s@.len() > 0,
            i <= cs@.len(),
            total >= 0,
            since(s@) == since_from(s@.skip(i as int), total as int),
        decreases cs@.len() - i,
    {
        let ghost rest = s@.skip(i as int);
        let ghost n = digit_run(rest);
        proof {
            digit_run_facts(rest);
        }
        let mut j: usize = i;
        while j < cs.len() && digit_value(cs[j]).is_some()
            invariant
                cs@ == s@,
                i <= j <= cs@.len(),
                rest == s@.skip(i as int),
                n == digit_run(rest),
                0 <= n <= rest.len(),
                j - i <= n,
                n < rest.len() ==> digit(rest[n], 10) is None,
                forall|k: int| i <= k < j ==> digit(#[trigger] cs@[k], 10) is Some,
            decreases cs@.len() - j,
        {
            assert(j - i < rest.len() ==> rest[j - i] == cs@[j as int]);
            j += 1;
        }
        proof {
            assert(j - i < rest.len() ==> rest[j - i] == cs@[j as int]);
            assert(forall|k: int| 0 <= k < n ==> digit(#[trigger] rest[k], 10) is Some);
            assert(n == j - i);
            assert(rest.take(n) =~= cs@.subrange(i as int, j as int));
        }
        if j == i {
            return Err(fault(s, SinceFault::UnitWithoutDigits));
        }
        let value: i64 = match read_number(&cs, i, j) {
            Some(v) => v,
            None => {
                return Err(fault(s, SinceFault::Overflow));
            },
        };
        if j == cs.len() {
            return Err(fault(s, SinceFault::TrailingDigits));
        }
        let unit: i64 = match unit_of(cs[j]) {
            Some(m) => m,
            None => {
                return Err(fault(s, SinceFault::BadUnit(cs[j])));
            },
        };
        assert(value * unit >= 0) by (nonlinear_arith)
            requires
                value >= 0,
                unit >= 1,
        ;
        let segment: i64 = match value.checked_mul(unit) {
            Some(v) => v,
            None => {
                return Err(fault(s, SinceFault::Overflow));
            },
        };
        total = match total.checked_add(segment) {
            Some(v) => v,
            None => {
                return Err(fault(s, SinceFault::Overflow));
            },
        };
        assert(rest.skip(n + 1) =~= s@.skip(j + 1));
        i = j + 1;
    }
    assert(s@.skip(i as int) =~= seq![]);
    Ok(total)
}

/// The name of a container; none where it has none.
pub open spec fn name_of() -> spec_fn(JsonView) -> Seq<Seq<char>> {
    |c: JsonView|
        match text_of(c.get("name"@)) {
            Some(name) => seq![name],
            None => seq![],
        }
}

/// The names of a pod's containers, in order.
pub open spec fn names_of(pod: JsonView) -> Seq<Seq<char>> {
    gathered(or_none(items_of(at(pod.get("spec"@), "containers"@))), name_of())
}

/// The names of a pod's containers, in order.
pub fn container_names(pod: &Json) -> (r: Vec<String>)
    ensures
        r.deep_view() == names_of(pod@),
{
    let mut out: Vec<String> = Vec::new();
    let ghost f = name_of();
    assert(out.deep_view() =~= seq![]);
    if let Some(items) = array_of(get_at(pod.get("spec"), "containers")) {
        let ghost all = items.deep_view();
        assert(out.deep_view() =~= gathered(all.take(0), f));
        for i in 0..items.len()
            invariant
                all == items.deep_view(),
                f == name_of(),
                out.deep_view() == gathered(all.take(i as int), f),
        {
            proof {
                gathered_step(all, f, i as int);
            }
            let ghost before = out.deep_view();
            assert(items@[i as int]@ == all[i as int]);
            if let Some(name) = str_of(items[i].get("name")) {
                out.push(name.to_owned());
                assert(out.deep_view() =~= before + seq![name@]);
            } else {
                assert(before =~= before + seq![]);
            }
        }
        assert(all.take(all.len() as int) =~= all);
    }
    out
}

/// Why the containers of a pod cannot be told.
pub open spec fn container_refusal(ns: Seq<char>, pod: Seq<char>, names: Seq<Seq<char>>) -> Seq<char> {
    if names.len() == 0 {
        "pod "@ + ns + "/"@ + pod + " has no containers"@
    } else {
        "pod "@ + ns + "/"@ + pod + " has multiple containers ("@ + joined(names, ", "@)
            + "); pass --container or --all-containers"@
    }
}

/// The containers whose logs are wanted: the one named; else all of them, where all are asked
/// for or there is only one. The pod, in namespace `ns`, is looked at only where no container
/// was named.
pub fn choose_containers(args: &LogsArgs, ns: &str, pod: &Json) -> (r: Result<Vec<String>, Error>)
    ensures
        match (args.container, r) {
            (Some(c), Ok(names)) => names.deep_view() == seq![c@],
            (None, Ok(names)) => names.deep_view() == names_of(pod@) && (names@.len() == 1 || (args.all_containers
                && names@.len() > 0)),
            (Some(_), Err(_)) => false,
            (None, Err(e)) => {
                let names = names_of(pod@);
                &&& names.len() == 0 || (names.len() > 1 && !args.all_containers)
                &&& e.message@ == container_refusal(ns@, args.pod@, names)
            },
        },
{
    if let Some(c) = &args.container {
        let names = vec![c.clone()];
        assert(names.deep_view() =~= seq![c@]);
        return Ok(names);
    }
    let names = container_names(pod);
    assert(names.deep_view().len() == names@.len());
    if names.len() == 1 || (args.all_containers && names.len() > 0) {
        return Ok(names);
    }
    let mut message = "pod ".to_owned();
    message.append(ns);
    message.append("/");
    message.append(args.pod.as_str());
    if names.len() == 0 {
        message.append(" has no containers");
    } else {
        message.append(" has multiple containers (");
        message.append(join(&borrowed(&names), ", ").as_str());
        message.append("); pass --container or --all-containers");
    }
    Err(Error { message })
}

/// A line as it is shown: behind the name of its container where it is labelled.
pub open spec fn shown_line(container: Seq<char>, labelled: bool, line: Seq<char>) -> Seq<char> {
    if labelled {
        "["@ + container + "] "@ + line
    } else {
        line
    }
}

/// The line as it is shown, where the filter lets it through.
pub open spec fn kept_line(container: Seq<char>, labelled: bool, grep: Option<Seq<char>>) -> spec_fn(Seq<char>) -> Seq<
    Seq<char>,
> {
    |line: Seq<char>|
        match grep {
            Some(pattern) => if matches_in(pattern, line) {
                seq![shown_line(container, labelled, line)]
            } else {
                seq![]
            },
            None => seq![shown_line(container, labelled, line)],
        }
}

/// The rows of one container's log.
pub open spec fn log_rows_of(labelled: bool, grep: Option<Seq<char>>) -> spec_fn((Seq<char>, Seq<char>)) -> Seq<Seq<char>> {
    |log: (Seq<char>, Seq<char>)| gathered(lines(log.1), kept_line(log.0, labelled, grep))
}

/// The rows of the logs, container by container.
pub open spec fn log_rows(logs: Seq<(Seq<char>, Seq<char>)>, labelled: bool, grep: Option<Seq<char>>) -> Seq<
    Seq<char>,
> {
    gathered(logs, log_rows_of(labelled, grep))
}

fn collect_log(rows: &mut Vec<String>, container: &str, body: &str, labelled: bool, grep: &Option<String>)
    ensures
        final(rows).deep_view() == old(rows).deep_view() + log_rows_of(labelled, opt(*grep))((container@, body@)),
{
    let all = split_lines(body);
    let ghost model = lines(body@);
    let ghost f = kept_line(container@, labelled, opt(*grep));
    let ghost before = rows.deep_view();
    assert(before + gathered(model.take(0), f) =~= before);
    for i in 0..all.len()
        invariant
            all.deep_view() == model,
            f == kept_line(container@, labelled, opt(*grep)),
            rows.deep_view() == before + gathered(model.take(i as int), f),
    {
        proof {
            gathered_step(model, f, i as int);
        }
        let line = all[i];
        assert(line@ == model[i as int]);
        let ghost so_far = rows.deep_view();
        let keep = match grep {
            Some(pattern) => is_match(pattern.as_str(), line),
            None => true,
        };
        if keep {
            let shown = if labelled {
                let mut out = "[".to_owned();
                out.append(container);
                out.append("] ");
                out.append(line);
                out
            } else {
                line.to_owned()
            };
            rows.push(shown);
            assert(rows.deep_view() =~= so_far.push(shown@));
            assert(rows.deep_view() =~= before + (gathered(model.take(i as int), f) + f(line@)));
        } else {
            assert(gathered(model.take(i as int), f) + seq![] =~= gathered(model.take(i as int), f));
        }
    }
    assert(all.deep_view().len() == all@.len());
    assert(model.take(model.len() as int) =~= model);
}

/// Why the arguments are refused: the filter is not a pattern, or the duration is not one.
pub open spec fn arguments_fault(args: &LogsArgs) -> Option<Seq<char>> {
    if args.grep is Some && !is_pattern(args.grep->0@) {
        Some("invalid --grep regex: "@ + args.grep->0@)
    } else if args.since is Some && since(args.since->0@) is Err {
        Some(since_message(args.since->0@, since(args.since->0@)->Err_0))
    } else {
        None
    }
}

/// Checks the filter and reads the duration: how many seconds back the logs are wanted.
pub fn check_arguments(args: &LogsArgs) -> (r: Result<Option<i64>, Error>)
    ensures
        match r {
            Ok(seconds) => arguments_fault(args) is None && match (seconds, args.since) {
                (Some(n), Some(s)) => since(s@) == Ok::<int, SinceFault>(n as int),
                (None, None) => true,
                _ => false,
            },
            Err(e) => arguments_fault(args) == Some(e.message@),
        },
{
    if let Some(pattern) = &args.grep {
        if !compiles(pattern.as_str()) {
            let mut message = "invalid --grep regex: ".to_owned();
            message.append(pattern.as_str());
            return Err(Error { message });
        }
    }
    match &args.since {
        Some(s) => match parse_since(s.as_str()) {
            Ok(n) => Ok(Some(n)),
            Err(e) => Err(e),
        },
        None => Ok(None),
    }
}

/// The lines of logs that pass a filter, which is taken to be a pattern, each behind the name of
/// its container where they are to be labelled.
pub fn emit_logs(
    logs: &Vec<(String, String)>,
    labelled: bool,
    grep: &Option<String>,
    limit: Option<usize>,
) -> (r: Report)
    ensures
        reports(r, log_rows(logs.deep_view(), labelled, opt(*grep)), limit),
{
    let ghost all = logs.deep_view();
    let ghost f = log_rows_of(labelled, opt(*grep));
    let mut rows: Vec<String> = Vec::new();
    assert(rows.deep_view() =~= gathered(all.take(0), f));
    for i in 0..logs.len()
        invariant
            all == logs.deep_view(),
            f == log_rows_of(labelled, opt(*grep)),
            rows.deep_view() == gathered(all.take(i as int), f),
    {
        proof {
            gathered_step(all, f, i as int);
        }
        let (container, body) = &logs[i];
        assert(all[i as int] == (container@, body@));
        collect_log(&mut rows, container.as_str(), body.as_str(), labelled, grep);
    }
    assert(all.take(all.len() as int) =~= all);
    report_rows(rows, limit)
}

/// Shows the logs that were fetched. Where every container is wanted, each line stands behind the
/// name of its container.
pub fn run(args: &LogsArgs, logs: &Vec<(String, String)>) -> (r: Result<Report, Error>)
    ensures
        match r {
            Ok(report) => arguments_fault(args) is None && reports(
                report,
                log_rows(logs.deep_view(), args.all_containers, opt(args.grep)),
                args.limit,
            ),
            Err(e) => arguments_fault(args) == Some(e.message@),
        },
{
    match check_arguments(args) {
        Ok(_) => Ok(emit_logs(logs, args.all_containers, &args.grep, args.limit)),
        Err(e) => Err(e),
    }
}

proof fn since_from_adds(a: Seq<char>, b: Seq<char>, before: int)
    requires
        since_from(a, before) is Ok,
    ensures
        since_from(a + b, before) == since_from(b, since_from(a, before)->Ok_0),
    decreases a.len(),
{
    if a.len() == 0 {
        assert(a + b =~= b);
    } else {
        digit_run_facts(a);
        let n = digit_run(a);
        digit_run_of_longer(a, b);
        assert((a + b).take(n) =~= a.take(n));
        assert((a + b)[n] == a[n]);
        assert((a + b).skip(n + 1) =~= a.skip(n + 1) + b);
        since_from_adds(a.skip(n + 1), b, before + positional(a.take(n), 10)->0 * unit_seconds(a[n])->0);
    }
}

/// What comes before a duration is added to it, as far as the sum stays within range.
proof fn since_from_moves(s: Seq<char>, less: int, before: int)
    requires
        0 <= less <= before,
        since_from(s, less) is Ok,
        since_from(s, less)->Ok_0 - less + before <= i64::MAX,
    ensures
        since_from(s, before) == Ok::<int, SinceFault>(since_from(s, less)->Ok_0 - less + before),
    decreases s.len(),
{
    if s.len() > 0 {
        digit_run_facts(s);
        let n = digit_run(s);
        let value = positional(s.take(n), 10)->0;
        let unit = unit_seconds(s[n])->0;
        let step = value * unit;
        assert(step >= 0) by (nonlinear_arith)
            requires
                step == value * unit,
                value >= 0,
                unit >= 1,
        ;
        since_from_stays_positive(s.skip(n + 1), less + step);
        since_from_moves(s.skip(n + 1), less + step, before + step);
    }
}

/// Two durations written one after the other come to their sum, as long as it stays within range.
pub proof fn durations_add_up(a: Seq<char>, b: Seq<char>)
    requires
        since(a) is Ok,
        since(b) is Ok,
        since(a)->Ok_0 + since(b)->Ok_0 <= i64::MAX,
    ensures
        since(a + b) == Ok::<int, SinceFault>(since(a)->Ok_0 + since(b)->Ok_0),
{
    since_from_adds(a, b, 0);
    since_from_stays_positive(a, 0);
    since_from_moves(b, 0, since(a)->Ok_0);
}

proof fn since_from_stays_positive(s: Seq<char>, before: int)
    requires
        0 <= before,
        since_from(s, before) is Ok,
    ensures
        before <= since_from(s, before)->Ok_0,
    decreases s.len(),
{
    if s.len() > 0 {
        digit_run_facts(s);
        let n = digit_run(s);
        let value = positional(s.take(n), 10)->0;
        let unit = unit_seconds(s[n])->0;
        assert(value * unit >= 0) by (nonlinear_arith)
            requires
                value >= 0,
                unit >= 1,
        ;
        since_from_stays_positive(s.skip(n + 1), before + value * unit);
    }
}

/// The lines of the logs come container by container, each in its order. Those that the filter
/// matches are kept, all of them where there is no filter; each stands behind the name of its
/// container in brackets where it is labelled, else as it is.
pub proof fn log_lines_are_kept(
    before: Seq<(Seq<char>, Seq<char>)>,
    container: Seq<char>,
    body: Seq<char>,
    after: Seq<(Seq<char>, Seq<char>)>,
    labelled: bool,
    grep: Option<Seq<char>>,
    line: Seq<char>,
)
    ensures
        log_rows(before + seq![(container, body)] + after, labelled, grep) == log_rows(before, labelled, grep) + log_rows(
            seq![(container, body)],
            labelled,
            grep,
        ) + log_rows(after, labelled, grep),
        log_rows(seq![(container, body)], false, None) == lines(body),
        log_rows(seq![(container, body)], false, grep).contains(line) <==> lines(body).contains(line) && (grep is Some
            ==> matches_in(grep->0, line)),
        log_rows(seq![(container, body)], true, grep).len() == log_rows(seq![(container, body)], false, grep).len(),
        forall|i: int|
            0 <= i < log_rows(seq![(container, body)], false, grep).len() ==> #[trigger] log_rows(
                seq![(container, body)],
                true,
                grep,
            )[i] == seq!['['] + container + seq![']', ' '] + log_rows(seq![(container, body)], false, grep)[i],
{
    let f = log_rows_of(labelled, grep);
    gathered_of_both(before, seq![(container, body)], f);
    gathered_of_both(before + seq![(container, body)], after, f);
    one_log(container, body, false, grep);
    one_log(container, body, true, grep);
    one_log(container, body, false, None);
    plain_lines(container, lines(body));
    labels_stand_before(container, lines(body), grep);
    let g = kept_line(container, false, grep);
    gathered_holds(lines(body), g, line);
    if lines(body).contains(line) && (grep is Some ==> matches_in(grep->0, line)) {
        let i = lines(body).index_of(line);
        assert(g(lines(body)[i])[0] == line);
        assert(g(lines(body)[i]).contains(line));
    }
    if log_rows(seq![(container, body)], false, grep).contains(line) {
        let i = choose|i: int| 0 <= i < lines(body).len() && g(#[trigger] lines(body)[i]).contains(line);
        assert(g(lines(body)[i])[0] == line);
        assert(lines(body).contains(lines(body)[i]));
    }
}

proof fn one_log(container: Seq<char>, body: Seq<char>, labelled: bool, grep: Option<Seq<char>>)
    ensures
        log_rows(seq![(container, body)], labelled, grep) == gathered(lines(body), kept_line(container, labelled, grep)),
{
    let one = seq![(container, body)];
    let f = log_rows_of(labelled, grep);
    assert(one.drop_last() =~= Seq::<(Seq<char>, Seq<char>)>::empty());
    assert(gathered(one.drop_last(), f) =~= Seq::<Seq<char>>::empty());
    assert(gathered(one, f) == gathered(one.drop_last(), f) + f(one.last()));
    assert(gathered(one, f) =~= f(one.last()));
}

proof fn plain_lines(container: Seq<char>, all: Seq<Seq<char>>)
    ensures
        gathered(all, kept_line(container, false, None)) == all,
    decreases all.len(),
{
    if all.len() > 0 {
        plain_lines(container, all.drop_last());
        assert(all.drop_last() + seq![all.last()] =~= all);
    }
}

proof fn labels_stand_before(container: Seq<char>, all: Seq<Seq<char>>, grep: Option<Seq<char>>)
    ensures
        ({
            let plain = gathered(all, kept_line(container, false, grep));
            let labelled = gathered(all, kept_line(container, true, grep));
            &&& labelled.len() == plain.len()
            &&& forall|i: int|
                0 <= i < plain.len() ==> #[trigger] labelled[i] == seq!['['] + container + seq![']', ' '] + plain[i]
        }),
    decreases all.len(),
{
    reveal_strlit("[");
    reveal_strlit("] ");
    assert("["@ =~= seq!['[']);
    assert("] "@ =~= seq![']', ' ']);
    if all.len() > 0 {
        labels_stand_before(container, all.drop_last(), grep);
    }
}

/// The names of a pod's containers are those that are told, in their order.
pub proof fn container_names_are_told(pod: JsonView, name: Seq<char>)
    ensures
        names_of(pod).contains(name) <==> exists|i: int|
            0 <= i < list_of(inner(pod, "spec"@, "containers"@)).len() && (#[trigger] list_of(
                inner(pod, "spec"@, "containers"@),
            )[i]).get("name"@) == Some(JsonView::Text(name)),
{
    let items = list_of(inner(pod, "spec"@, "containers"@));
    gathered_holds(items, name_of(), name);
    if names_of(pod).contains(name) {
        let i = choose|i: int| 0 <= i < items.len() && name_of()(#[trigger] items[i]).contains(name);
        assert(items[i].get("name"@) == Some(JsonView::Text(name)));
    }
    if exists|i: int| 0 <= i < items.len() && (#[trigger] items[i]).get("name"@) == Some(JsonView::Text(name)) {
        let i = choose|i: int| 0 <= i < items.len() && (#[trigger] items[i]).get("name"@) == Some(JsonView::Text(name));
        assert(name_of()(items[i])[0] == name);
        assert(name_of()(items[i]).contains(name));
    }
}

/// One number with a unit is a duration of that many seconds, minutes, hours or days.
pub proof fn one_pair_is_a_duration(n: nat, unit: char)
    requires
        unit == 's' || unit == 'm' || unit == 'h' || unit == 'd',
        n * 86400 <= i64::MAX,
    ensures
        since(decimal(n) + seq![unit]) == Ok::<int, SinceFault>(
            n * (if unit == 's' {
                1int
            } else if unit == 'm' {
                60int
            } else if unit == 'h' {
                60int * 60
            } else {
                24int * 60 * 60
            }),
        ),
{
    let digits = decimal(n);
    let s = digits + seq![unit];
    written_reads_back(n, 10);
    positional_is_digits(digits, 10);
    digit_run_of_digits(digits, seq![unit]);
    let k = digits.len() as int;
    assert(s.take(k) =~= digits);
    assert(s[k] == unit);
    assert(s.skip(k + 1) =~= seq![]);
    assert(since_from(s.skip(k + 1), n * unit_seconds(unit)->0) == Ok::<int, SinceFault>(n * unit_seconds(unit)->0));
}

} // verus!
