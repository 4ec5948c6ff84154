use sak::linux::cpuinfo::{self, CpuinfoArgs};
use sak::linux::loadavg::{self, LoadReadings, LoadavgArgs};
use sak::linux::meminfo::{self, MeminfoArgs};
use sak::linux::mounts::{self, MountsArgs};
use sak::linux::network::{
    self, connections, decode_endpoint, decode_v4, decode_v6, family_names, parse_line, NetworkArgs, Proto,
};
use sak::linux::process::{
    self, check_arguments, collect_process, decode_cmdline, format_row, process_ids, truncate_ellipsis, ProcessArgs,
    CMDLINE_MAX,
};
use sak::linux::sysctl::{self, check_pattern, path_to_key, SysctlArgs};
use sak::linux::uptime::{self, humanize, UptimeArgs};
use sak::linux::{check_proc_path, json_num, parse_kv_line, run, FloatReading, LinuxCommand, LinuxInput};
use sak::output::Outcome;
use sak::value::Json;

/// What a text says as a floating-point number.
fn reading(s: &str) -> FloatReading {
    match s.parse::<f64>() {
        Ok(f) => match serde_json::Number::from_f64(f) {
            Some(n) => FloatReading::Finite {
                json: n.to_string(),
                whole: f.max(0.0) as u64,
            },
            None => FloatReading::NotFinite {
                whole: f.max(0.0) as u64,
            },
        },
        Err(_) => FloatReading::NotANumber,
    }
}

#[test]
fn paths_outside_proc_are_refused() {
    assert_eq!(
        check_proc_path("/proc").unwrap_err().message,
        "refusing to read /proc: the linux domain only reads paths under /proc/"
    );
    assert!(check_proc_path("/proc/meminfo").is_ok());
}

#[test]
fn numbers_that_are_not_finite_stay_texts() {
    assert_eq!(json_num("inf", &reading("inf")), Json::Text("inf".into()));
    assert_eq!(json_num("nan", &reading("nan")), Json::Text("nan".into()));
    assert_eq!(json_num("-1", &reading("-1")), Json::Float("-1.0".into()));
    assert_eq!(json_num("+7", &reading("+7")), Json::Unsigned(7));
    assert_eq!(json_num("x", &reading("x")), Json::Text("x".into()));
}

const CPUS: &str =
    "processor\t: 0\nvendor_id\t: V\ncache size\t: 8192 KB\nflags\t: a b\n\n\nBogoMIPS\t: 50\nFeatures\t: c\n";

#[test]
fn cpus_have_one_row_each() {
    let mut args = CpuinfoArgs {
        full: false,
        format: cpuinfo::Format::Tsv,
        limit: None,
    };
    let r = cpuinfo::run(&args, CPUS);
    assert_eq!(r.lines, ["0\tV\t-\t-\t8192\t-\t-\t2", "1\t-\t-\t-\t-\t-\t-\t1"]);
    args.full = true;
    assert_eq!(cpuinfo::run(&args, CPUS).lines[0], "0\tV\t-\t-\t8192\t-\t-\ta b");
    args.format = cpuinfo::Format::Json;
    args.limit = Some(1);
    assert_eq!(
        cpuinfo::run(&args, CPUS).lines,
        [r##"{"cache_kb":"8192","cores":"-","cpu":"0","flags":["a","b"],"flags_count":2,"mhz":"-","model_name":"-","siblings":"-","vendor":"V"}"##]
    );
    assert_eq!(cpuinfo::run(&args, "\n \n").outcome, Outcome::NotFound);
}

fn load_readings(tokens: [&str; 6]) -> LoadReadings {
    LoadReadings {
        one: reading(tokens[0]),
        five: reading(tokens[1]),
        fifteen: reading(tokens[2]),
        running: reading(tokens[3]),
        total: reading(tokens[4]),
        last_pid: reading(tokens[5]),
    }
}

#[test]
fn load_is_one_row() {
    let floats = load_readings(["3.14", "2.71", "1.41", "1", "284", "12345"]);
    let raw = "3.14 2.71 1.41 1/284 12345\n";
    let mut args = LoadavgArgs {
        format: loadavg::Format::Tsv,
    };
    assert_eq!(loadavg::run(&args, raw, &floats).lines, ["3.14\t2.71\t1.41\t1\t284\t12345"]);
    args.format = loadavg::Format::Json;
    assert_eq!(
        loadavg::run(&args, raw, &floats).lines,
        [r##"{"15m":1.41,"1m":3.14,"5m":2.71,"last_pid":12345,"running":1,"total":284}"##]
    );
    assert_eq!(loadavg::run(&args, "1 2 3 4 5", &floats).outcome, Outcome::NotFound);
    assert_eq!(loadavg::run(&args, "", &floats).outcome, Outcome::NotFound);
}

#[test]
fn memory_is_sorted_or_not() {
    let raw = "MemTotal: 16 kB\nnothing\nEmpty:\nHugePages_Total: 0\nActive: x kB\n";
    let mut args = MeminfoArgs {
        order: meminfo::Order::Name,
        format: meminfo::Format::Tsv,
        limit: None,
    };
    assert_eq!(meminfo::run(&args, raw).lines, ["Active\tx", "HugePages_Total\t0", "MemTotal\t16"]);
    args.order = meminfo::Order::File;
    args.format = meminfo::Format::Json;
    assert_eq!(
        meminfo::run(&args, raw).lines,
        [
            r##"{"key":"MemTotal","value_kb":16}"##,
            r##"{"key":"HugePages_Total","value_kb":0}"##,
            r##"{"key":"Active","value_kb":"x"}"##
        ]
    );
}

#[test]
fn mounts_are_kept_by_type() {
    let info = "36 35 98:0 /mnt1 /mnt2 rw,noatime master:1 - ext3 /dev/root rw\n1 2 0:1 / /x rw - tmpfs tmpfs rw\n1 2 3 - x\n";
    let mut args = MountsArgs {
        fs_type: Some("ext3".into()),
        mounts: false,
        format: mounts::Format::Tsv,
        limit: None,
    };
    let want = "36\t35\t98:0\t/mnt1\t/mnt2\trw,noatime\text3\t/dev/root";
    assert_eq!(mounts::run(&args, info).lines, [want]);
    assert_eq!(want.split('\t').count(), 8);
    args.fs_type = None;
    assert_eq!(mounts::run(&args, info).lines.len(), 2);
    args.mounts = true;
    let table = "proc /proc proc rw 0 0\nshort line\n";
    assert_eq!(mounts::run(&args, table).lines, ["proc\t/proc\tproc\trw"]);
    args.format = mounts::Format::Json;
    assert_eq!(
        mounts::run(&args, table).lines,
        [r##"{"device":"proc","fs_type":"proc","mount_point":"/proc","options":"rw"}"##]
    );
    args.fs_type = Some("ext4".into());
    assert_eq!(mounts::run(&args, table).outcome, Outcome::NotFound);
}

#[test]
fn addresses_are_decoded() {
    let cases = [
        ("00000000000000000000000001000000", "::1"),
        ("00000000000000000000000000000000", "::"),
        ("0000000000000000FFFF00000100007F", "::ffff:127.0.0.1"),
        ("B80D0120000000000000000001000000", "2001:db8::1"),
        ("B80D0120000000000100000000000000", "2001:db8::1:0:0"),
        ("B80D01200000010000000000000000FF", "2001:db8:1::ff00:0"),
        ("000000FE000000000000000000000001", "fe00::100:0"),
        ("00000100020000000300000000000400", "1::2:0:3:4:0"),
        ("00000000000000000000000004030201", "::102:304"),
    ];
    for (hex, want) in cases {
        assert_eq!(decode_v6(hex).unwrap(), want, "{hex}");
    }
    assert_eq!(decode_v4("0100007F").unwrap(), "127.0.0.1");
    assert_eq!(decode_v4("0200a8c0").unwrap(), "192.168.0.2");
    for bad in ["", "0100007", "0100007G", "010000ä7", "01 0007F", "+1+1+1+1"] {
        assert_eq!(decode_v4(bad), None, "{bad:?}");
    }
    assert_eq!(decode_v6("0100007F"), None);
    assert_eq!(decode_endpoint("0100007F:0050", false).unwrap(), "127.0.0.1:80");
    assert_eq!(decode_endpoint("0100007F:10000", false), None);
    assert_eq!(decode_endpoint("0100007F:+50", false), None);
    assert_eq!(decode_endpoint("0100007F:", false), None);
    assert_eq!(decode_endpoint("0100007F", false), None);
}

const TCP: &str = "  sl  local_address rem_address   st tx_queue rx_queue tr tm->when retrnsmt   uid  timeout inode
   0: 0100007F:0050 00000000:0000 0A 00000000:00000000 00:00000000 00000000  1000        0 42 1
   1: 0100007F:0016 0200007F:1234 FF 00000000:00000000 00:00000000 00000000  x        0 43 1
";

#[test]
fn sockets_are_filtered_and_sorted() {
    let tables = vec![("tcp".to_string(), TCP.to_string())];
    let conns = connections(&tables, &None);
    let floats: Vec<(FloatReading, FloatReading)> =
        conns.iter().map(|c| (reading(&c.uid), reading(&c.inode))).collect();
    let mut args = NetworkArgs {
        proto: Proto::All,
        state: None,
        format: network::Format::Tsv,
        limit: None,
    };
    assert_eq!(
        network::run(&args, &conns, &floats).lines,
        ["tcp\tFF\t127.0.0.1:22\t127.0.0.2:4660\tx\t43", "tcp\tLISTEN\t127.0.0.1:80\t0.0.0.0:0\t1000\t42"]
    );
    args.format = network::Format::Json;
    assert_eq!(
        network::run(&args, &conns, &floats).lines[0],
        r##"{"inode":43,"local":"127.0.0.1:22","proto":"tcp","remote":"127.0.0.2:4660","state":"FF","uid":"x"}"##
    );
    let listening = connections(&tables, &Some("listen".into()));
    assert_eq!(listening.len(), 1);
    assert_eq!(listening[0].state, "LISTEN");
    assert!(parse_line("tcp6", TCP.lines().nth(1).unwrap()).is_none());
    assert_eq!(family_names(Proto::All), ["tcp", "tcp6", "udp", "udp6"]);
    assert_eq!(family_names(Proto::Udp6), ["udp6"]);
    assert_eq!(network::run(&args, &vec![], &vec![]).outcome, Outcome::NotFound);
}

fn process_args(pid: Option<u32>, all: bool) -> ProcessArgs {
    ProcessArgs {
        pid,
        all,
        format: process::Format::Tsv,
        limit: None,
    }
}

#[test]
fn processes_are_put_together() {
    let status = "Name:\tx\nPPid:\t1\nUid:\t0\t0\t0\t0\nVmRSS:\t  12 kB\n";
    let p = collect_process("7", status, "7 ((a) b\tc) S 1 7", b"/bin/x\0-\xff\0").unwrap();
    assert_eq!(format_row(&p), "7\t(a) b c\tS\t1\t0\t-\t12\t-\t-\t/bin/x -\u{fffd}");
    let mut args = process_args(Some(7), false);
    args.format = process::Format::Json;
    let line = process::run(&args, &vec![p]).unwrap().lines.remove(0);
    let value: serde_json::Value = serde_json::from_str(&line).unwrap();
    assert_eq!(value["pid"], 7);
    assert_eq!(value["ppid"], "1");
    assert_eq!(value["cmdline"], "/bin/x -\u{fffd}");
    assert_eq!(value["status"]["Uid"], "0\t0\t0\t0");
    assert_eq!(value.as_object().unwrap().len(), 11);
    assert_eq!(serde_json::to_string(&value).unwrap(), line);
    assert!(collect_process("7", status, "7 ) S (", b"").is_none());
    assert!(collect_process("7", status, "7 (x)", b"").is_none());
}

#[test]
fn rows_of_processes_stay_in_one_piece() {
    let p = collect_process("7", "", "7 (a\nb) S", b"").unwrap();
    assert_eq!(p.cmdline, "[a b]");
    assert_eq!(format_row(&p).split('\t').count(), 10);
    let long = "x".repeat(500);
    assert_eq!(decode_cmdline(b"", &long).chars().count(), CMDLINE_MAX + 1);
    assert_eq!(truncate_ellipsis("äöü", 2), "äö…");
    assert_eq!(truncate_ellipsis("äöü", 3), "äöü");
    assert_eq!(decode_cmdline(b"\0 \0", "n"), "[n]");
}

#[test]
fn processes_are_asked_for_one_way() {
    let message = |pid, all| check_arguments(&process_args(pid, all)).unwrap_err().message;
    assert_eq!(message(Some(1), true), "pass either a PID or --all, not both");
    assert_eq!(message(None, false), "specify a PID or pass --all");
    assert!(process::run(&process_args(None, false), &vec![]).is_err());
    assert_eq!(process::run(&process_args(None, true), &vec![]).unwrap().outcome, Outcome::NotFound);
    let names = ["10", "self", "9", "4294967296", "2"].map(String::from).to_vec();
    let ids: Vec<u32> = process_ids(&names).iter().map(|p| p.number).collect();
    assert_eq!(ids, [2, 9, 10]);
}

fn sysctl_args(pattern: Option<&str>) -> SysctlArgs {
    SysctlArgs {
        pattern: pattern.map(str::to_string),
        format: sysctl::Format::Tsv,
        limit: None,
    }
}

#[test]
fn knobs_are_matched_by_key() {
    let files = vec![
        ("/proc/sys/net/ipv4/tcp_rmem".to_string(), "4096\t131072\n1\n".to_string()),
        ("/proc/sys/kernel/x".to_string(), " 1 \n".to_string()),
        ("/proc/sys".to_string(), "z".to_string()),
    ];
    let r = sysctl::run(&sysctl_args(None), &files).unwrap();
    assert_eq!(r.lines, ["kernel.x\t1", "net.ipv4.tcp_rmem\t4096 131072 1"]);
    let mut args = sysctl_args(Some("^net\\."));
    args.format = sysctl::Format::Json;
    assert_eq!(
        sysctl::run(&args, &files).unwrap().lines,
        [r##"{"key":"net.ipv4.tcp_rmem","value":"4096 131072 1"}"##]
    );
    assert_eq!(sysctl::run(&sysctl_args(Some("[")), &files).unwrap_err().message, "invalid pattern regex: [");
    assert!(check_pattern(&sysctl_args(Some("a|b"))).is_ok());
    assert_eq!(path_to_key("/proc/sysx/a", "/proc/sys"), None);
    let keys = [
        ("/proc/sys/net/", "/proc/sys", Some("net")),
        ("/proc/sys//net", "/proc/sys", Some("net")),
        ("/proc/sys/./net/.", "/proc/sys/", Some("net")),
        ("/proc//sys/./net//ipv4/x", "/proc/sys", Some("net..ipv4.x")),
        ("/proc/sys/", "/proc/sys", None),
        ("/proc/sys/.", "/proc/sys", None),
        ("/proc/sys/..", "/proc/sys", Some("..")),
        ("proc/sys/a", "/proc/sys", None),
        ("./a/b", ".", Some("a.b")),
        ("a/b/", "a", Some("b")),
        ("/a/b", "/", Some("a.b")),
        ("/a/", "", Some(".a")),
        ("//", "", Some(".")),
        ("", "", None),
    ];
    for (path, base, want) in keys {
        assert_eq!(path_to_key(path, base).as_deref(), want, "{path:?} {base:?}");
        let rest = std::path::Path::new(path).strip_prefix(base).ok().and_then(|p| p.to_str());
        let dotted = rest.filter(|s| !s.is_empty()).map(|s| s.replace('/', "."));
        assert_eq!(path_to_key(path, base), dotted, "{path:?} {base:?}");
    }
    assert_eq!(sysctl::run(&sysctl_args(Some("nope")), &files).unwrap().outcome, Outcome::NotFound);
}

#[test]
fn uptime_is_one_row() {
    let raw = "93784.99 12.5\n";
    let (up, idle) = (reading("93784.99"), reading("12.5"));
    let mut args = UptimeArgs {
        human: true,
        format: uptime::Format::Tsv,
    };
    assert_eq!(uptime::run(&args, raw, &up, &idle).lines, ["1d 2h 3m\t12.5"]);
    args.format = uptime::Format::Json;
    assert_eq!(
        uptime::run(&args, raw, &up, &idle).lines,
        [r##"{"idle_seconds":12.5,"uptime_human":"1d 2h 3m","uptime_seconds":93784.99}"##]
    );
    assert_eq!(uptime::run(&args, "1", &up, &idle).outcome, Outcome::NotFound);
    args.format = uptime::Format::Tsv;
    assert_eq!(uptime::run(&args, "x 1", &reading("x"), &reading("1")).lines, ["x\t1"]);
    assert_eq!(uptime::run(&args, "-5 1", &reading("-5"), &reading("1")).lines, ["0d 0h 0m\t1"]);
    assert_eq!(humanize(u64::MAX), "213503982334601d 7h 0m");
}

#[test]
fn commands_are_dispatched() {
    let text = |s: &str| LinuxInput::Text(s.to_string());
    let cpu = CpuinfoArgs {
        full: false,
        format: cpuinfo::Format::Tsv,
        limit: Some(1),
    };
    let expected = cpuinfo::run(&cpu, CPUS).lines;
    assert_eq!(run(&LinuxCommand::Cpuinfo(cpu), &text(CPUS)).unwrap().lines, expected);
    let mem = MeminfoArgs {
        order: meminfo::Order::File,
        format: meminfo::Format::Tsv,
        limit: None,
    };
    assert_eq!(run(&LinuxCommand::Meminfo(mem), &text("A: 1 kB")).unwrap().lines, ["A\t1"]);
    let floats = load_readings(["1", "2", "3", "4", "5", "6"]);
    let load = LoadavgArgs {
        format: loadavg::Format::Tsv,
    };
    let r = run(&LinuxCommand::Loadavg(load), &LinuxInput::Load("1 2 3 4/5 6".into(), floats)).unwrap();
    assert_eq!(r.lines, ["1\t2\t3\t4\t5\t6"]);
    let r = run(&LinuxCommand::Sysctl(sysctl_args(Some("("))), &LinuxInput::Files(vec![]));
    assert_eq!(r.unwrap_err().message, "invalid pattern regex: (");
    let r = run(&LinuxCommand::Process(process_args(None, false)), &LinuxInput::Processes(vec![]));
    assert_eq!(r.unwrap_err().message, "specify a PID or pass --all");
}

#[test]
fn lines_are_cut_at_their_first_colon() {
    let pair = parse_kv_line(" a b\t:  c : d:").unwrap();
    assert_eq!(pair, ("a b".to_string(), "c : d:".to_string()));
    assert_eq!(parse_kv_line(" : x"), None);
}

#[test]
fn optional_fields_of_a_mount_are_dropped() {
    let with = mounts::parse_mountinfo("1 2 0:1 / /x rw shared:1 master:2 - tmpfs src rw");
    let without = mounts::parse_mountinfo("1 2 0:1 / /x rw - tmpfs src rw");
    assert_eq!(with, without);
    assert_eq!(with.len(), 1);
}

#[test]
fn names_may_hold_brackets() {
    let found = process::parse_stat_comm_state("12 (a) (b) ) R 1 2").unwrap();
    assert_eq!(found, ("a) (b) ".to_string(), "R".to_string()));
}
