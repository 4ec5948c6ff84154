//! `/proc/<pid>`: one record per process.
use super::{key_value, parse_kv_line, sanitize};
use crate::fields::{keys_ascend, look_up, put_all, put_all_keeps_the_last, FieldMap};
use crate::format::{compact, write_compact};
use crate::gather::{gathered, gathered_holds, gathered_step};
use crate::number::{decimal, decimal_reads_back, parse_u32, parse_u64, unsigned};
use crate::order::{sort, sorted, sorted_holds, sorted_is_a_stable_sort, views, Ranked};
use crate::output::{collapsed_stays_in_its_row, in_one_field, report_rows, reports, Error, Report};
use crate::text::{
    find_char, from_utf8_lossy, join, joined, joined_splits_back, last_position, last_position_is_last, lines,
    lossy, only_the_ends_are_trimmed, pieces, position, position_is_first, rfind_char, row, row_splits_back,
    split, split_lines, split_words, trim, trimmed, white, words, words_are_plain, write_row,
};
use crate::value::{json_object, json_text, opt, Json, JsonView};
use vstd::prelude::*;
use vstd::string::*;

verus! {

/// How many characters of a command line are shown.
pub const CMDLINE_MAX: usize = 200;

/// How rows are written.
#[derive(Clone, Copy, Debug, PartialEq, Eq, Structural)]
pub enum Format {
    /// Columns with tabs between them.
    Tsv,
    /// One JSON object per line.
    Json,
}

/// The arguments of the command.
#[derive(Debug)]
pub struct ProcessArgs {
    pub pid: Option<u32>,
    pub all: bool,
    pub format: Format,
    pub limit: Option<usize>,
}

/// One process. What the kernel does not tell of it is `-`.
#[derive(Debug, PartialEq)]
pub struct Process {
    pub pid: String,
    pub name: String,
    pub state: String,
    pub ppid: String,
    pub uid: String,
    pub gid: String,
    pub vm_rss_kb: String,
    pub vm_size_kb: String,
    pub threads: String,
    pub cmdline: String,
    /// All that the status file says.
    pub status: FieldMap<String>,
}

/// What a `Process` says.
#[verifier::ext_equal]
pub struct ProcessModel {
    /// The ten columns in their order.
    pub columns: Seq<Seq<char>>,
    pub status: Seq<(Seq<char>, Seq<char>)>,
}

impl View for Process {
    type V = ProcessModel;

    open spec fn view(&self) -> ProcessModel {
        ProcessModel {
            columns: seq![
                self.pid@,
                self.name@,
                self.state@,
                self.ppid@,
                self.uid@,
                self.gid@,
                self.vm_rss_kb@,
                self.vm_size_kb@,
                self.threads@,
                self.cmdline@,
            ],
            status: self.status@,
        }
    }
}

/// The pair of a line; none where it has no key.
pub open spec fn line_pair() -> spec_fn(Seq<char>) -> Seq<(Seq<char>, Seq<char>)> {
    |line: Seq<char>|
        match key_value(line) {
            Some(pair) => seq![pair],
            None => seq![],
        }
}

/// What a status file says, by key; the last value of a key counts.
pub open spec fn status_map(input: Seq<char>) -> Seq<(Seq<char>, Seq<char>)> {
    put_all(gathered(lines(input), line_pair()))
}

/// Reads a status file.
pub fn parse_status(input: &str) -> (r: FieldMap<String>)
    ensures
        r@ == status_map(input@),
{
    let all = split_lines(input);
    let ghost model = lines(input@);
    let ghost f = line_pair();
    let mut map: FieldMap<String> = FieldMap::new();
    assert(gathered(model.take(0), f) =~= seq![]);
    for i in 0..all.len()
        invariant
            all.deep_view() == model,
            f == line_pair(),
            map@ == put_all(gathered(model.take(i as int), f)),
    {
        let ghost so_far = gathered(model.take(i as int), f);
        proof {
            gathered_step(model, f, i as int);
        }
        assert(all@[i as int]@ == model[i as int]);
        if let Some((key, value)) = parse_kv_line(all[i]) {
            let ghost pair = (key@, value@);
            assert((so_far + seq![pair]).drop_last() =~= so_far);
            assert((so_far + seq![pair]).last() == pair);
            map.insert(key, value);
        } else {
            assert(so_far + seq![] =~= so_far);
        }
    }
    assert(all.deep_view().len() == all@.len());
    assert(model.take(model.len() as int) =~= model);
    map
}

/// The name and the state of a process from a stat line: the name stands between the first `(`
/// and the last `)`, the state is the first word after that.
pub open spec fn name_and_state(input: Seq<char>) -> Option<(Seq<char>, Seq<char>)> {
    match (position(input, '('), last_position(input, ')')) {
        (Some(open), Some(close)) => {
            let after = words(input.skip(close + 1));
            if close < open || after.len() == 0 {
                None
            } else {
                Some((input.subrange(open + 1, close), after[0]))
            }
        },
        _ => None,
    }
}

/// The name and the state of a process from a stat line.
pub fn parse_stat_comm_state(input: &str) -> (r: Option<(String, String)>)
    ensures
        r.deep_view() == name_and_state(input@),
{
    proof {
        position_is_first(input@, '(');
        last_position_is_last(input@, ')');
    }
    let (open, close): (usize, usize) = match (find_char(input, '('), rfind_char(input, ')')) {
        (Some(open), Some(close)) => (open, close),
        _ => {
            return None;
        },
    };
    if close < open {
        return None;
    }
    let n = input.unicode_len();
    let tail = input.substring_char(close + 1, n);
    assert(tail@ =~= input@.skip(close + 1));
    let after = split_words(tail);
    assert(after.deep_view().len() == after@.len());
    if after.len() == 0 {
        return None;
    }
    assert(after.deep_view()[0] == after@[0]@);
    Some((input.substring_char(open + 1, close).to_owned(), after[0].to_owned()))
}

/// `s`, or its first `max` characters and an ellipsis where it is longer.
pub open spec fn shortened(s: Seq<char>, max: int) -> Seq<char> {
    if s.len() <= max {
        s
    } else {
        s.take(max).push('…')
    }
}

/// `s`, or its first `max` characters and an ellipsis where it is longer.
pub fn truncate_ellipsis(s: &str, max: usize) -> (r: String)
    ensures
        r@ == shortened(s@, max as int),
{
    let n = s.unicode_len();
    if n <= max {
        s.to_owned()
    } else {
        let mut out = s.substring_char(0, max).to_owned();
        assert(out@ =~= s@.take(max as int));
        out.push('…');
        out
    }
}

/// A piece of a command line, unless it is empty.
pub open spec fn filled_piece() -> spec_fn(Seq<char>) -> Seq<Seq<char>> {
    |p: Seq<char>|
        if p.len() > 0 {
            seq![p]
        } else {
            seq![]
        }
}

/// A command line as shown: its arguments with spaces between them, or the name in brackets where
/// there is none, on one line and shortened.
pub open spec fn shown_cmdline(text: Seq<char>, name: Seq<char>) -> Seq<char> {
    let line = trimmed(joined(gathered(pieces(text, '\0'), filled_piece()), " "@));
    let shown = if line.len() == 0 {
        "["@ + name + "]"@
    } else {
        line
    };
    shortened(in_one_field(shown), CMDLINE_MAX as int)
}

/// A command line, given as text with NUL characters between its arguments, as shown.
pub fn render_cmdline(text: &str, name: &str) -> (r: String)
    ensures
        r@ == shown_cmdline(text@, name@),
{
    let all = split(text, '\0');
    let ghost model = pieces(text@, '\0');
    let ghost f = filled_piece();
    let mut args: Vec<&str> = Vec::new();
    assert(args.deep_view() =~= gathered(model.take(0), f));
    for i in 0..all.len()
        invariant
            all.deep_view() == model,
            f == filled_piece(),
            args.deep_view() == gathered(model.take(i as int), f),
    {
        proof {
            gathered_step(model, f, i as int);
        }
        let ghost before = args.deep_view();
        assert(all@[i as int]@ == model[i as int]);
        if !all[i].is_empty() {
            args.push(all[i]);
            assert(args.deep_view() =~= before + seq![model[i as int]]);
        } else {
            assert(before + seq![] =~= before);
        }
    }
    assert(all.deep_view().len() == all@.len());
    assert(model.take(model.len() as int) =~= model);
    let joined_args = join(&args, " ");
    let line = trim(joined_args.as_str());
    if line.is_empty() {
        let mut out = "[".to_owned();
        out.append(name);
        out.append("]");
        truncate_ellipsis(sanitize(out.as_str()).as_str(), CMDLINE_MAX)
    } else {
        truncate_ellipsis(sanitize(line).as_str(), CMDLINE_MAX)
    }
}

/// A command line, as the kernel gives it, as shown.
pub fn decode_cmdline(raw: &[u8], name: &str) -> (r: String)
    ensures
        r@ == shown_cmdline(lossy(raw@), name@),
        vstd::utf8::valid_utf8(raw@) ==> r@ == shown_cmdline(vstd::utf8::decode_utf8(raw@), name@),
{
    let text = from_utf8_lossy(raw);
    render_cmdline(text.as_str(), name)
}

/// A shown command line is no longer than the limit and an ellipsis, and holds nothing that would
/// end a field or a row.
pub proof fn cmdline_is_short(text: Seq<char>, name: Seq<char>)
    ensures
        shown_cmdline(text, name).len() <= CMDLINE_MAX + 1,
        !shown_cmdline(text, name).contains('\t'),
        !shown_cmdline(text, name).contains('\n'),
        !shown_cmdline(text, name).contains('\r'),
{
    let line = trimmed(joined(gathered(pieces(text, '\0'), filled_piece()), " "@));
    let shown = if line.len() == 0 {
        "["@ + name + "]"@
    } else {
        line
    };
    let all = in_one_field(shown);
    let short = shown_cmdline(text, name);
    collapsed_stays_in_its_row(shown);
    assert forall|i: int| 0 <= i < short.len() implies all.contains(#[trigger] short[i]) || short[i] == '…' by {
        if i < CMDLINE_MAX {
            assert(short[i] == all[i]);
        }
    }
}

/// The first word of a status value, or `-`.
pub open spec fn first_word(status: Seq<(Seq<char>, Seq<char>)>, key: Seq<char>) -> Seq<char> {
    match look_up(status, key) {
        Some(v) => if words(v).len() > 0 {
            words(v)[0]
        } else {
            "-"@
        },
        None => "-"@,
    }
}

fn read_first_word(status: &FieldMap<String>, key: &str) -> (r: String)
    ensures
        r@ == first_word(status@, key@),
{
    match status.get(key) {
        Some(v) => {
            let parts = split_words(v.as_str());
            assert(parts.deep_view().len() == parts@.len());
            if parts.len() > 0 {
                assert(parts.deep_view()[0] == parts@[0]@);
                parts[0].to_owned()
            } else {
                "-".to_owned()
            }
        },
        None => "-".to_owned(),
    }
}

/// The record of a process.
pub open spec fn assembled(
    pid: Seq<char>,
    status: Seq<(Seq<char>, Seq<char>)>,
    comm: Seq<char>,
    state: Seq<char>,
    cmdline: Seq<char>,
) -> ProcessModel {
    ProcessModel {
        columns: seq![
            pid,
            in_one_field(comm),
            state,
            first_word(status, "PPid"@),
            first_word(status, "Uid"@),
            first_word(status, "Gid"@),
            first_word(status, "VmRSS"@),
            first_word(status, "VmSize"@),
            first_word(status, "Threads"@),
            cmdline,
        ],
        status,
    }
}

/// Puts the record of a process together.
pub fn assemble(pid: &str, status: FieldMap<String>, comm: &str, state: &str, cmdline: &str) -> (r: Process)
    ensures
        r@ == assembled(pid@, status@, comm@, state@, cmdline@),
{
    let r = Process {
        pid: pid.to_owned(),
        name: sanitize(comm),
        state: state.to_owned(),
        ppid: read_first_word(&status, "PPid"),
        uid: read_first_word(&status, "Uid"),
        gid: read_first_word(&status, "Gid"),
        vm_rss_kb: read_first_word(&status, "VmRSS"),
        vm_size_kb: read_first_word(&status, "VmSize"),
        threads: read_first_word(&status, "Threads"),
        cmdline: cmdline.to_owned(),
        status,
    };
    assert(r@ =~= assembled(pid@, status@, comm@, state@, cmdline@));
    r
}

/// The record of a process from the texts of its status and stat files and its command line;
/// nothing where the stat file has another shape.
pub fn collect_process(pid: &str, status: &str, stat: &str, cmdline: &[u8]) -> (r: Option<Process>)
    ensures
        opt(r) == match name_and_state(stat@) {
            Some((comm, state)) => Some(
                assembled(pid@, status_map(status@), comm, state, shown_cmdline(lossy(cmdline@), comm)),
            ),
            None => None,
        },
{
    match parse_stat_comm_state(stat) {
        Some((comm, state)) => {
            let line = decode_cmdline(cmdline, comm.as_str());
            Some(assemble(pid, parse_status(status), comm.as_str(), state.as_str(), line.as_str()))
        },
        None => None,
    }
}

/// The columns of a process come back when its row is split at its tabs, as long as its number and
/// its state are plain words.
pub proof fn process_rows_split_back(
    pid: Seq<char>,
    status: Seq<(Seq<char>, Seq<char>)>,
    comm: Seq<char>,
    state: Seq<char>,
    text: Seq<char>,
)
    requires
        !pid.contains('\t'),
        !state.contains('\t'),
    ensures
        ({
            let columns = assembled(pid, status, comm, state, shown_cmdline(text, comm)).columns;
            columns.len() == 10 && pieces(row(columns), '\t') == columns
        }),
{
    let columns = assembled(pid, status, comm, state, shown_cmdline(text, comm)).columns;
    collapsed_stays_in_its_row(comm);
    cmdline_is_short(text, comm);
    first_word_is_plain(status, "PPid"@);
    first_word_is_plain(status, "Uid"@);
    first_word_is_plain(status, "Gid"@);
    first_word_is_plain(status, "VmRSS"@);
    first_word_is_plain(status, "VmSize"@);
    first_word_is_plain(status, "Threads"@);
    row_splits_back(columns);
}

proof fn first_word_is_plain(status: Seq<(Seq<char>, Seq<char>)>, key: Seq<char>)
    ensures
        !first_word(status, key).contains('\t'),
{
    reveal_strlit("-");
    if let Some(v) = look_up(status, key) {
        words_are_plain(v);
        if words(v).len() > 0 {
            let w = words(v)[0];
            assert forall|k: int| 0 <= k < w.len() implies w[k] != '\t' by {
                assert(!white(w[k]));
            }
        }
    }
}

/// The columns of a process.
pub fn format_row(p: &Process) -> (r: String)
    ensures
        r@ == row(p@.columns),
{
    let fields = vec![
        p.pid.as_str(),
        p.name.as_str(),
        p.state.as_str(),
        p.ppid.as_str(),
        p.uid.as_str(),
        p.gid.as_str(),
        p.vm_rss_kb.as_str(),
        p.vm_size_kb.as_str(),
        p.threads.as_str(),
        p.cmdline.as_str(),
    ];
    assert(fields.deep_view() =~= p@.columns);
    write_row(&fields)
}

/// The object of a process, its members by name, with all that the status file says.
pub open spec fn process_json(p: ProcessModel) -> JsonView {
    let c = p.columns;
    let pid = match unsigned(c[0], 10, u64::MAX as nat) {
        Some(n) => JsonView::Int(n as int),
        None => JsonView::Text(c[0]),
    };
    JsonView::Object(
        seq![
            ("cmdline"@, JsonView::Text(c[9])),
            ("gid"@, JsonView::Text(c[5])),
            ("name"@, JsonView::Text(c[1])),
            ("pid"@, pid),
            ("ppid"@, JsonView::Text(c[3])),
            ("state"@, JsonView::Text(c[2])),
            (
                "status"@,
                JsonView::Object(Seq::new(p.status.len(), |i: int| (p.status[i].0, JsonView::Text(p.status[i].1)))),
            ),
            ("threads"@, JsonView::Text(c[8])),
            ("uid"@, JsonView::Text(c[4])),
            ("vm_rss_kb"@, JsonView::Text(c[6])),
            ("vm_size_kb"@, JsonView::Text(c[7])),
        ],
    )
}

fn status_json(status: &FieldMap<String>) -> (r: Json)
    ensures
        r@ == JsonView::Object(Seq::new(status@.len(), |i: int| (status@[i].0, JsonView::Text(status@[i].1)))),
{
    let ghost want = Seq::new(status@.len(), |i: int| (status@[i].0, JsonView::Text(status@[i].1)));
    let mut out: Vec<(String, Json)> = Vec::new();
    for i in 0..status.entries.len()
        invariant
            want == Seq::new(status@.len(), |i: int| (status@[i].0, JsonView::Text(status@[i].1))),
            out@.len() == i,
            forall|k: int| 0 <= k < i ==> (#[trigger] out@[k]).0@ == want[k].0 && out@[k].1@ == want[k].1,
    {
        let (key, value) = &status.entries[i];
        assert(status@[i as int] == (key@, value@));
        out.push((key.clone(), Json::Text(value.clone())));
    }
    let r = Json::Object(out);
    assert(r@->Object_0 =~= want);
    r
}

/// The object of a process.
pub fn build_json(p: &Process) -> (r: Json)
    ensures
        r@ == process_json(p@),
{
    let pid = match parse_u64(p.pid.as_str()) {
        Some(n) => Json::Unsigned(n),
        None => json_text(p.pid.as_str()),
    };
    let members = vec![
        ("cmdline", json_text(p.cmdline.as_str())),
        ("gid", json_text(p.gid.as_str())),
        ("name", json_text(p.name.as_str())),
        ("pid", pid),
        ("ppid", json_text(p.ppid.as_str())),
        ("state", json_text(p.state.as_str())),
        ("status", status_json(&p.status)),
        ("threads", json_text(p.threads.as_str())),
        ("uid", json_text(p.uid.as_str())),
        ("vm_rss_kb", json_text(p.vm_rss_kb.as_str())),
        ("vm_size_kb", json_text(p.vm_size_kb.as_str())),
    ];
    assert(members.deep_view() =~= process_json(p@)->Object_0);
    json_object(members)
}

/// A process number, ordered by its value.
pub struct Pid {
    pub number: u32,
}

impl View for Pid {
    type V = int;

    open spec fn view(&self) -> int {
        self.number as int
    }
}

impl Ranked for Pid {
    open spec fn le(a: int, b: int) -> bool {
        a <= b
    }

    proof fn le_total(a: int, b: int) {
    }

    proof fn le_transitive(a: int, b: int, c: int) {
    }

    fn at_most(&self, other: &Self) -> (r: bool) {
        self.number <= other.number
    }
}

/// The process number that a directory name is, if it is one.
pub open spec fn pid_of() -> spec_fn(Seq<char>) -> Seq<int> {
    |name: Seq<char>|
        match unsigned(name, 10, u32::MAX as nat) {
            Some(n) => seq![n as int],
            None => seq![],
        }
}

/// The process numbers among the names of the directories under `/proc`, in order.
pub fn process_ids(names: &Vec<String>) -> (r: Vec<Pid>)
    ensures
        views(r@) == sorted::<Pid>(gathered(names.deep_view(), pid_of())),
{
    let ghost all = names.deep_view();
    let ghost f = pid_of();
    let mut out: Vec<Pid> = Vec::new();
    assert(views(out@) =~= gathered(all.take(0), f));
    for i in 0..names.len()
        invariant
            all == names.deep_view(),
            f == pid_of(),
            views(out@) == gathered(all.take(i as int), f),
    {
        proof {
            gathered_step(all, f, i as int);
        }
        let ghost before = views(out@);
        assert(names@[i as int]@ == all[i as int]);
        match parse_u32(names[i].as_str()) {
            Some(number) => {
                out.push(Pid { number });
                assert(views(out@) =~= before + seq![number as int]);
            },
            None => {
                assert(before + seq![] =~= before);
            },
        }
    }
    assert(all.take(all.len() as int) =~= all);
    sort(out)
}

/// Why the arguments are refused.
pub open spec fn arguments_fault(args: &ProcessArgs) -> Option<Seq<char>> {
    if args.all && args.pid is Some {
        Some("pass either a PID or --all, not both"@)
    } else if !args.all && args.pid is None {
        Some("specify a PID or pass --all"@)
    } else {
        None
    }
}

/// Checks that one process or all of them are asked for.
pub fn check_arguments(args: &ProcessArgs) -> (r: Result<(), Error>)
    ensures
        match r {
            Ok(_) => arguments_fault(args) is None,
            Err(e) => arguments_fault(args) == Some(e.message@),
        },
{
    if args.all && args.pid.is_some() {
        Err(Error { message: "pass either a PID or --all, not both".to_owned() })
    } else if !args.all && args.pid.is_none() {
        Err(Error { message: "specify a PID or pass --all".to_owned() })
    } else {
        Ok(())
    }
}

/// The row of a process in the given format.
pub open spec fn process_row(p: ProcessModel, format: Format) -> Seq<char> {
    match format {
        Format::Tsv => row(p.columns),
        Format::Json => compact(process_json(p)),
    }
}

/// Lists the processes that were found.
pub fn run(args: &ProcessArgs, processes: &Vec<Process>) -> (r: Result<Report, Error>)
    ensures
        match r {
            Ok(report) => arguments_fault(args) is None && reports(
                report,
                Seq::new(processes@.len(), |i: int| process_row(processes@[i]@, args.format)),
                args.limit,
            ),
            Err(e) => arguments_fault(args) == Some(e.message@),
        },
{
    if let Err(e) = check_arguments(args) {
        return Err(e);
    }
    let ghost rows = Seq::new(processes@.len(), |i: int| process_row(processes@[i]@, args.format));
    let mut out: Vec<String> = Vec::new();
    for i in 0..processes.len()
        invariant
            rows == Seq::new(processes@.len(), |i: int| process_row(processes@[i]@, args.format)),
            out.deep_view() =~= rows.take(i as int),
    {
        let ghost before = out.deep_view();
        let line = match args.format {
            Format::Tsv => format_row(&processes[i]),
            Format::Json => write_compact(&build_json(&processes[i])),
        };
        assert(line@ == rows[i as int]);
        out.push(line);
        assert(out.deep_view() =~= before.push(line@));
    }
    assert(rows.take(rows.len() as int) =~= rows);
    Ok(report_rows(out, args.limit))
}

/// Whatever a process is called, with spaces and brackets in its name, its name and its state are
/// read from its stat line.
pub proof fn any_name_is_read(head: Seq<char>, comm: Seq<char>, tail: Seq<char>)
    requires
        !head.contains('('),
        !tail.contains(')'),
        words(tail).len() > 0,
    ensures
        name_and_state(head + seq!['('] + comm + seq![')'] + tail) == Some((comm, words(tail)[0])),
{
    let s = head + seq!['('] + comm + seq![')'] + tail;
    let open = head.len() as int;
    let close = (head.len() + 1 + comm.len()) as int;
    position_is_first(s, '(');
    last_position_is_last(s, ')');
    assert(s[open] == '(');
    assert(s[close] == ')');
    assert forall|j: int| 0 <= j < open implies s[j] != '(' by {
        assert(s[j] == head[j]);
    }
    assert forall|j: int| close < j < s.len() implies s[j] != ')' by {
        assert(s[j] == tail[j - close - 1]);
    }
    assert(s.skip(close + 1) =~= tail);
    assert(s.subrange(open + 1, close) =~= comm);
}

/// The columns of a process: its number, its name in one field and its state; then the first words
/// that its status gives for its parent, its user and group, its memory and its threads, `-` where
/// there is none; then its command line.
pub proof fn columns_of_a_process(
    pid: Seq<char>,
    status: Seq<(Seq<char>, Seq<char>)>,
    comm: Seq<char>,
    state: Seq<char>,
    cmdline: Seq<char>,
    key: Seq<char>,
    v: Seq<char>,
)
    ensures
        ({
            let c = assembled(pid, status, comm, state, cmdline).columns;
            let given = look_up(status, key) == Some(v) && words(v).len() > 0;
            let missing = look_up(status, key) is None;
            &&& c.len() == 10
            &&& c[0] == pid && c[1] == in_one_field(comm) && c[2] == state && c[9] == cmdline
            &&& key == "PPid"@ ==> (given ==> c[3] == words(v)[0]) && (missing ==> c[3] == "-"@)
            &&& key == "Uid"@ ==> (given ==> c[4] == words(v)[0]) && (missing ==> c[4] == "-"@)
            &&& key == "Gid"@ ==> (given ==> c[5] == words(v)[0]) && (missing ==> c[5] == "-"@)
            &&& key == "VmRSS"@ ==> (given ==> c[6] == words(v)[0]) && (missing ==> c[6] == "-"@)
            &&& key == "VmSize"@ ==> (given ==> c[7] == words(v)[0]) && (missing ==> c[7] == "-"@)
            &&& key == "Threads"@ ==> (given ==> c[8] == words(v)[0]) && (missing ==> c[8] == "-"@)
            &&& assembled(pid, status, comm, state, cmdline).status == status
        }),
{
}

/// The object of a process holds its columns under their names, its number as a number, and all that
/// its status says.
pub proof fn processes_are_named(p: ProcessModel, n: nat)
    requires
        p.columns.len() == 10,
    ensures
        ({
            let members = process_json(p)->Object_0;
            let c = p.columns;
            &&& process_json(p) is Object && members.len() == 11
            &&& unsigned(c[0], 10, u64::MAX as nat) == Some(n) ==> members.contains(("pid"@, JsonView::Int(n as int)))
            &&& members.contains(("name"@, JsonView::Text(c[1])))
            &&& members.contains(("state"@, JsonView::Text(c[2])))
            &&& members.contains(("ppid"@, JsonView::Text(c[3])))
            &&& members.contains(("uid"@, JsonView::Text(c[4])))
            &&& members.contains(("gid"@, JsonView::Text(c[5])))
            &&& members.contains(("vm_rss_kb"@, JsonView::Text(c[6])))
            &&& members.contains(("vm_size_kb"@, JsonView::Text(c[7])))
            &&& members.contains(("threads"@, JsonView::Text(c[8])))
            &&& members.contains(("cmdline"@, JsonView::Text(c[9])))
            &&& members.contains(
                (
                    "status"@,
                    JsonView::Object(Seq::new(p.status.len(), |i: int| (p.status[i].0, JsonView::Text(p.status[i].1)))),
                ),
            )
        }),
{
    let m = process_json(p)->Object_0;
    let c = p.columns;
    assert(m[0] == ("cmdline"@, JsonView::Text(c[9])));
    assert(m[1] == ("gid"@, JsonView::Text(c[5])));
    assert(m[2] == ("name"@, JsonView::Text(c[1])));
    assert(m[3].0 == "pid"@);
    assert(m.contains(m[3]));
    assert(m[4] == ("ppid"@, JsonView::Text(c[3])));
    assert(m[5] == ("state"@, JsonView::Text(c[2])));
    assert(m.contains(m[6]));
    assert(m[7] == ("threads"@, JsonView::Text(c[8])));
    assert(m[8] == ("uid"@, JsonView::Text(c[4])));
    assert(m[9] == ("vm_rss_kb"@, JsonView::Text(c[6])));
    assert(m[10] == ("vm_size_kb"@, JsonView::Text(c[7])));
}

/// The status of a process has for a key what the last line with that key says.
pub proof fn last_status_line_counts(input: Seq<char>, key: Seq<char>)
    ensures
        look_up(status_map(input), key) == look_up(gathered(lines(input), line_pair()), key),
        keys_ascend(status_map(input)),
{
    put_all_keeps_the_last(gathered(lines(input), line_pair()));
}

/// The arguments of a command line stand with one space between them, empty ones left out, where
/// they have no white space of their own and the line is short enough; without any argument the name
/// stands in brackets.
pub proof fn arguments_are_joined_by_spaces(args: Seq<Seq<char>>, name: Seq<char>)
    requires
        forall|i: int|
            0 <= i < args.len() ==> (#[trigger] args[i]).len() > 0 && forall|k: int|
                0 <= k < args[i].len() ==> !white(#[trigger] args[i][k]) && args[i][k] != '\0',
    ensures
        args.len() > 0 && joined(args, seq![' ']).len() <= 200 ==> shown_cmdline(joined(args, seq!['\0']), name) == joined(
            args,
            seq![' '],
        ),
        args.len() > 0 && joined(args, seq![' ']).len() > 200 ==> shown_cmdline(joined(args, seq!['\0']), name) == joined(
            args,
            seq![' '],
        ).take(200).push('…'),
        name.len() + 2 <= 200 ==> shown_cmdline(seq![], name) == in_one_field(seq!['['] + name + seq![']']),
{
    reveal_strlit(" ");
    reveal_strlit("[");
    reveal_strlit("]");
    assert(" "@ =~= seq![' ']);
    assert("["@ =~= seq!['[']);
    assert("]"@ =~= seq![']']);
    if args.len() > 0 {
        assert forall|i: int| 0 <= i < args.len() implies !(#[trigger] args[i]).contains('\0') by {
            assert forall|k: int| 0 <= k < args[i].len() implies args[i][k] != '\0' by {
                assert(!white(args[i][k]) && args[i][k] != '\0');
            }
        }
        joined_splits_back(args, '\0');
        filled_stay(args);
        joined_by_spaces(args);
        let line = joined(args, seq![' ']);
        only_the_ends_are_trimmed(seq![], line, seq![]);
        assert(Seq::<char>::empty() + line + Seq::<char>::empty() =~= line);
        assert(in_one_field(line) =~= line);
    }
    let none = Seq::<char>::empty();
    assert(pieces(none, '\0') =~= seq![none]);
    assert(seq![none].drop_last() =~= Seq::<Seq<char>>::empty());
    assert(gathered(seq![none].drop_last(), filled_piece()) =~= Seq::<Seq<char>>::empty());
    assert(seq![none].last() == none);
    assert(gathered(seq![none], filled_piece()) == gathered(seq![none].drop_last(), filled_piece()) + filled_piece()(none));
    assert(gathered(seq![none], filled_piece()) =~= Seq::<Seq<char>>::empty());
    only_the_ends_are_trimmed(none, none, none);
    assert(none + none + none =~= none);
}

proof fn filled_stay(args: Seq<Seq<char>>)
    requires
        forall|i: int| 0 <= i < args.len() ==> (#[trigger] args[i]).len() > 0,
    ensures
        gathered(args, filled_piece()) == args,
    decreases args.len(),
{
    if args.len() > 0 {
        let init = args.drop_last();
        assert forall|i: int| 0 <= i < init.len() implies (#[trigger] init[i]).len() > 0 by {
            assert(args[i].len() > 0);
        }
        filled_stay(init);
        assert(args[args.len() - 1].len() > 0);
        assert(init + seq![args.last()] =~= args);
    }
}

proof fn joined_by_spaces(args: Seq<Seq<char>>)
    requires
        args.len() > 0,
        forall|i: int|
            0 <= i < args.len() ==> (#[trigger] args[i]).len() > 0 && forall|k: int|
                0 <= k < args[i].len() ==> !white(#[trigger] args[i][k]) && args[i][k] != '\0',
    ensures
        ({
            let line = joined(args, seq![' ']);
            &&& line.len() > 0 && !white(line[0]) && !white(line.last())
            &&& forall|k: int| 0 <= k < line.len() ==> (#[trigger] line[k]) != '\n' && line[k] != '\r' && line[k] != '\t'
        }),
    decreases args.len(),
{
    let last = args[args.len() - 1];
    assert(last.len() > 0);
    assert(!white(last[0]) && !white(last[last.len() - 1]));
    assert forall|k: int| 0 <= k < last.len() implies (#[trigger] last[k]) != '\n' && last[k] != '\r' && last[k] != '\t' by {
        assert(!white(last[k]));
    }
    if args.len() > 1 {
        let init = args.drop_last();
        assert forall|i: int| 0 <= i < init.len() implies (#[trigger] init[i]).len() > 0 && forall|k: int|
            0 <= k < init[i].len() ==> !white(#[trigger] init[i][k]) && init[i][k] != '\0' by {
            assert(init[i] == args[i]);
        }
        joined_by_spaces(init);
        let front = joined(init, seq![' ']);
        let line = joined(args, seq![' ']);
        assert(line == front + seq![' '] + last);
        assert(line[0] == front[0]);
        assert(line.last() == last.last());
        assert forall|k: int| 0 <= k < line.len() implies (#[trigger] line[k]) != '\n' && line[k] != '\r' && line[k]
            != '\t' by {
            if k < front.len() {
                assert(line[k] == front[k]);
            } else if k > front.len() {
                assert(line[k] == last[k - front.len() - 1]);
            }
        }
    }
}

/// The processes are the directories whose name is a number, in the order of the numbers.
pub proof fn numbers_are_processes(names: Seq<Seq<char>>, n: nat, i: int, j: int)
    requires
        n <= u32::MAX,
    ensures
        ({
            let ids = sorted::<Pid>(gathered(names, pid_of()));
            &&& names.contains(decimal(n)) ==> ids.contains(n as int)
            &&& ids.contains(n as int) ==> exists|k: int|
                0 <= k < names.len() && unsigned(#[trigger] names[k], 10, u32::MAX as nat) == Some(n)
            &&& 0 <= i < j < ids.len() ==> ids[i] <= ids[j]
        }),
{
    let all = gathered(names, pid_of());
    sorted_holds::<Pid>(all, n as int);
    sorted_is_a_stable_sort::<Pid>(all);
    gathered_holds(names, pid_of(), n as int);
    let ids = sorted::<Pid>(all);
    if 0 <= i < j < ids.len() {
        assert(Pid::le(ids[i], ids[j]));
    }
    if names.contains(decimal(n)) {
        let k = names.index_of(decimal(n));
        decimal_reads_back(n, u32::MAX as nat);
        assert(pid_of()(names[k])[0] == n as int);
        assert(pid_of()(names[k]).contains(n as int));
    }
    if ids.contains(n as int) {
        let k = choose|k: int| 0 <= k < names.len() && pid_of()(#[trigger] names[k]).contains(n as int);
        assert(pid_of()(names[k])[0] == n as int);
    }
}

/// A text that fits stands as it is; of a longer one the first characters stand, as many as fit, and
/// an ellipsis after them.
pub proof fn long_texts_are_cut(s: Seq<char>, max: int, i: int)
    requires
        max >= 0,
    ensures
        s.len() <= max ==> shortened(s, max) == s,
        s.len() > max ==> shortened(s, max).len() == max + 1 && shortened(s, max)[max] == '…',
        0 <= i < max && i < s.len() ==> shortened(s, max)[i] == s[i],
{
}

} // verus!
