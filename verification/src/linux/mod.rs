//! Kernel state read from files under `/proc`.
pub mod cpuinfo;
pub mod hook;
pub mod loadavg;
pub mod meminfo;
pub mod mounts;
pub mod network;
pub mod process;
pub mod sysctl;
pub mod uptime;

use crate::number::{parse_u64, unsigned};
use crate::output::{collapse_ws, in_one_field, reports, Error, Outcome, Report};
use crate::pattern::is_pattern;
use crate::text::{cut, cut_at_the_first, split_once, starts_with, trim, trimmed};
use crate::value::{opt, Json, JsonView};
use vstd::prelude::*;
use vstd::string::*;

verus! {

/// Refuses a path that does not stand under `/proc/`.
pub fn check_proc_path(path: &str) -> (r: Result<(), Error>)
    ensures
        match r {
            Ok(_) => "/proc/"@.is_prefix_of(path@),
            Err(e) => !"/proc/"@.is_prefix_of(path@) && e.message@ == "refusing to read "@ + path@
                + ": the linux domain only reads paths under /proc/"@,
        },
{
    if starts_with(path, "/proc/") {
        return Ok(());
    }
    let mut message = "refusing to read ".to_owned();
    message.append(path);
    message.append(": the linux domain only reads paths under /proc/");
    Err(Error { message })
}

/// The key and the value of a `Key: value` line, cut at the first colon, without the white
/// space around them; nothing where there is no colon or no key.
pub open spec fn key_value(line: Seq<char>) -> Option<(Seq<char>, Seq<char>)> {
    match cut(line, ':') {
        Some((key, value)) => if trimmed(key).len() == 0 {
            None
        } else {
            Some((trimmed(key), trimmed(value)))
        },
        None => None,
    }
}

/// Reads a `Key: value` line.
pub fn parse_kv_line(line: &str) -> (r: Option<(String, String)>)
    ensures
        r.deep_view() == key_value(line@),
{
    match split_once(line, ':') {
        Some((key, value)) => {
            let key = trim(key);
            if key.is_empty() {
                None
            } else {
                Some((key.to_owned(), trim(value).to_owned()))
            }
        },
        None => None,
    }
}

/// `value` with each line feed, carriage return and tab turned into a space.
pub fn sanitize(value: &str) -> (r: String)
    ensures
        r@ == in_one_field(value@),
{
    collapse_ws(value)
}

/// What a text says as a floating-point number, to be had from `str::parse`.
#[derive(Debug, PartialEq)]
pub enum FloatReading {
    /// Not a floating-point number.
    NotANumber,
    /// One that is infinite or undefined; `whole` as for a finite one.
    NotFinite { whole: u64 },
    /// A finite one: as JSON writes it, and its whole part where it is not negative, else zero.
    Finite { json: String, whole: u64 },
}

/// A numeric text as a JSON number: an integer where it is a `u64`, else a floating-point
/// number where it is a finite one, else the text itself.
pub open spec fn number_or_text(s: Seq<char>, float: FloatReading) -> JsonView {
    match unsigned(s, 10, u64::MAX as nat) {
        Some(n) => JsonView::Int(n as int),
        None => match float {
            FloatReading::Finite { json, whole: _ } => JsonView::Float(json@),
            FloatReading::NotFinite { whole: _ } => JsonView::Text(s),
            FloatReading::NotANumber => JsonView::Text(s),
        },
    }
}

/// A numeric text as a JSON number, a text that JSON has no number for as itself. `float` is what
/// the text says as a floating-point number.
pub fn json_num(s: &str, float: &FloatReading) -> (r: Json)
    ensures
        r@ == number_or_text(s@, *float),
{
    match parse_u64(s) {
        Some(n) => Json::Unsigned(n),
        None => match float {
            FloatReading::Finite { json, whole: _ } => Json::Float(json.clone()),
            FloatReading::NotFinite { whole: _ } => Json::Text(s.to_owned()),
            FloatReading::NotANumber => Json::Text(s.to_owned()),
        },
    }
}

/// The commands on kernel state.
#[derive(Debug)]
pub enum LinuxCommand {
    Cpuinfo(cpuinfo::CpuinfoArgs),
    Meminfo(meminfo::MeminfoArgs),
    Mounts(mounts::MountsArgs),
    Loadavg(loadavg::LoadavgArgs),
    Uptime(uptime::UptimeArgs),
    Sysctl(sysctl::SysctlArgs),
    Process(process::ProcessArgs),
    Network(network::NetworkArgs),
}

/// What was read for a command.
#[derive(Debug)]
pub enum LinuxInput {
    /// The text of the one file that the command reads.
    Text(String),
    /// The text of `/proc/loadavg`, and what its fields say as floating-point numbers.
    Load(String, loadavg::LoadReadings),
    /// The text of `/proc/uptime`, and what its fields say as floating-point numbers.
    Times(String, FloatReading, FloatReading),
    /// The files below `/proc/sys`: the path and the text of each.
    Files(Vec<(String, String)>),
    Processes(Vec<process::Process>),
    /// The sockets in their order, and what the user and the inode of each say as
    /// floating-point numbers.
    Sockets(Vec<network::Conn>, Vec<(FloatReading, FloatReading)>),
}

/// Whether what was read is what the command reads.
pub open spec fn belongs(cmd: LinuxCommand, input: LinuxInput) -> bool {
    match (cmd, input) {
        (LinuxCommand::Cpuinfo(_), LinuxInput::Text(_)) => true,
        (LinuxCommand::Meminfo(_), LinuxInput::Text(_)) => true,
        (LinuxCommand::Mounts(_), LinuxInput::Text(_)) => true,
        (LinuxCommand::Loadavg(_), LinuxInput::Load(_, _)) => true,
        (LinuxCommand::Uptime(_), LinuxInput::Times(_, _, _)) => true,
        (LinuxCommand::Sysctl(_), LinuxInput::Files(_)) => true,
        (LinuxCommand::Process(_), LinuxInput::Processes(_)) => true,
        (LinuxCommand::Network(_), LinuxInput::Sockets(conns, floats)) => conns@.len() == floats@.len(),
        _ => false,
    }
}

/// A single row, or nothing found.
pub open spec fn single_row(r: Report, line: Option<Seq<char>>) -> bool {
    match line {
        Some(line) => r.outcome == Outcome::Found && r.lines.deep_view() == seq![line],
        None => r.outcome == Outcome::NotFound && r.lines@.len() == 0,
    }
}

/// What a command that succeeds reports of what was read.
pub open spec fn reported(cmd: LinuxCommand, input: LinuxInput, r: Report) -> bool {
    match (cmd, input) {
        (LinuxCommand::Cpuinfo(args), LinuxInput::Text(raw)) => {
            let all = cpuinfo::cpus(raw@);
            reports(r, Seq::new(all.len(), |i: int| cpuinfo::cpu_row(all[i], args.full, args.format)), args.limit)
        },
        (LinuxCommand::Meminfo(args), LinuxInput::Text(raw)) => {
            let all = meminfo::ordered_fields(raw@, args.order);
            reports(r, Seq::new(all.len(), |i: int| meminfo::field_row(all[i], args.format)), args.limit)
        },
        (LinuxCommand::Mounts(args), LinuxInput::Text(raw)) => reports(r, mounts::mount_rows(&args, raw@), args.limit),
        (LinuxCommand::Loadavg(args), LinuxInput::Load(raw, floats)) => single_row(
            r,
            match loadavg::load(raw@) {
                Some(la) => Some(loadavg::load_row(la, floats, args.format)),
                None => None,
            },
        ),
        (LinuxCommand::Uptime(args), LinuxInput::Times(raw, up, idle)) => single_row(
            r,
            match uptime::times(raw@) {
                Some(times) => Some(uptime::uptime_row(times, up, idle, args.human, args.format)),
                None => None,
            },
        ),
        (LinuxCommand::Sysctl(args), LinuxInput::Files(files)) => reports(
            r,
            sysctl::knob_rows(files.deep_view(), opt(args.pattern), args.format),
            args.limit,
        ),
        (LinuxCommand::Process(args), LinuxInput::Processes(all)) => reports(
            r,
            Seq::new(all@.len(), |i: int| process::process_row(all@[i]@, args.format)),
            args.limit,
        ),
        (LinuxCommand::Network(args), LinuxInput::Sockets(all, floats)) => reports(
            r,
            Seq::new(all@.len(), |i: int| network::socket_row(all@[i]@, floats@[i], args.format)),
            args.limit,
        ),
        _ => false,
    }
}

/// Why a command is refused.
pub open spec fn refused(cmd: LinuxCommand) -> Option<Seq<char>> {
    match cmd {
        LinuxCommand::Sysctl(args) => if args.pattern is Some && !is_pattern(args.pattern->0@) {
            Some("invalid pattern regex: "@ + args.pattern->0@)
        } else {
            None
        },
        LinuxCommand::Process(args) => process::arguments_fault(&args),
        _ => None,
    }
}

/// Runs a command on what was read for it.
pub fn run(cmd: &LinuxCommand, input: &LinuxInput) -> (r: Result<Report, Error>)
    requires
        belongs(*cmd, *input),
    ensures
        match r {
            Ok(report) => refused(*cmd) is None && reported(*cmd, *input, report),
            Err(e) => refused(*cmd) == Some(e.message@),
        },
{
    match (cmd, input) {
        (LinuxCommand::Cpuinfo(args), LinuxInput::Text(raw)) => Ok(cpuinfo::run(args, raw.as_str())),
        (LinuxCommand::Meminfo(args), LinuxInput::Text(raw)) => Ok(meminfo::run(args, raw.as_str())),
        (LinuxCommand::Mounts(args), LinuxInput::Text(raw)) => Ok(mounts::run(args, raw.as_str())),
        (LinuxCommand::Loadavg(args), LinuxInput::Load(raw, floats)) => Ok(loadavg::run(args, raw.as_str(), floats)),
        (LinuxCommand::Uptime(args), LinuxInput::Times(raw, up, idle)) => Ok(
            uptime::run(args, raw.as_str(), up, idle),
        ),
        (LinuxCommand::Sysctl(args), LinuxInput::Files(files)) => sysctl::run(args, files),
        (LinuxCommand::Process(args), LinuxInput::Processes(all)) => process::run(args, all),
        (LinuxCommand::Network(args), LinuxInput::Sockets(all, floats)) => Ok(network::run(args, all, floats)),
        _ => Ok(Report { lines: Vec::new(), outcome: Outcome::NotFound }),
    }
}

/// A value keeps its colons: a line is cut at the first one alone.
pub proof fn values_keep_their_colons(key: Seq<char>, value: Seq<char>)
    requires
        !key.contains(':'),
        trimmed(key).len() > 0,
    ensures
        key_value(key + seq![':'] + value) == Some((trimmed(key), trimmed(value))),
{
    cut_at_the_first(key, value, ':');
}

} // verus!
