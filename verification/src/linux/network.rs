//! The socket tables in `/proc/net`.
use super::{json_num, number_or_text, FloatReading};
use crate::format::{compact, write_compact};
use crate::gather::{gathered, gathered_holds, gathered_step};
use crate::number::{
    decimal, digit, digits_value, parse_digits, positional, write_radix, write_u64, written,
};
use crate::order::{
    sort, sorted, sorted_holds, sorted_is_a_stable_sort, texts_at_most, texts_le, texts_le_total, texts_le_transitive,
    views, Ranked,
};
use crate::output::{report_rows, reports, Report};
use crate::text::{
    borrowed, cut, cut_at_the_first, join, joined, lines, lowered, position, position_is_first, row, same,
    same_ignoring_case, split_lines, split_once, split_words, words, write_row,
};
use crate::value::{first_member_counts, json_object, json_text, opt, Json, JsonView};
use vstd::prelude::*;
use vstd::string::*;

verus! {

/// Which tables are read.
#[derive(Clone, Copy, Debug, PartialEq, Eq, Structural)]
pub enum Proto {
    Tcp,
    Tcp6,
    Udp,
    Udp6,
    All,
}

/// How rows are written.
#[derive(Clone, Copy, Debug, PartialEq, Eq, Structural)]
pub enum Format {
    /// Columns with tabs between them.
    Tsv,
    /// One JSON object per line.
    Json,
}

/// The arguments of the command.
#[derive(Debug)]
pub struct NetworkArgs {
    pub proto: Proto,
    /// Keeps the sockets in one state.
    pub state: Option<String>,
    pub format: Format,
    pub limit: Option<usize>,
}

/// One socket.
#[derive(Debug, PartialEq)]
pub struct Conn {
    pub proto: String,
    pub state: String,
    pub local: String,
    pub remote: String,
    pub uid: String,
    pub inode: String,
}

impl View for Conn {
    /// The protocol, the state, the local and the remote endpoint, the user and the inode.
    type V = Seq<Seq<char>>;

    open spec fn view(&self) -> Seq<Seq<char>> {
        seq![self.proto@, self.state@, self.local@, self.remote@, self.uid@, self.inode@]
    }
}

/// The byte that the two hexadecimal digits from `i` on write.
pub open spec fn byte_at(hex: Seq<char>, i: int) -> Option<nat> {
    digits_value(hex.subrange(i, i + 2), 16, 255)
}

/// The first `n` bytes that a run of hexadecimal digits writes, two digits each.
pub open spec fn bytes_of(hex: Seq<char>, n: nat) -> Option<Seq<nat>>
    decreases n,
{
    if n == 0 {
        Some(seq![])
    } else {
        match (bytes_of(hex, (n - 1) as nat), byte_at(hex, 2 * n - 2)) {
            (Some(bytes), Some(b)) => Some(bytes.push(b)),
            _ => None,
        }
    }
}

/// Four bytes as a dotted quad.
pub open spec fn dotted(a: nat, b: nat, c: nat, d: nat) -> Seq<char> {
    decimal(a) + "."@ + decimal(b) + "."@ + decimal(c) + "."@ + decimal(d)
}

/// An IPv4 address from eight hexadecimal digits, its bytes in reverse.
pub open spec fn v4_text(hex: Seq<char>) -> Option<Seq<char>> {
    if hex.len() != 8 {
        None
    } else {
        match bytes_of(hex, 4) {
            Some(b) => Some(dotted(b[3], b[2], b[1], b[0])),
            None => None,
        }
    }
}

fn read_bytes(hex: &str, n: usize) -> (r: Option<Vec<u8>>)
    requires
        hex@.len() == 2 * n,
        n <= 16,
    ensures
        match r {
            Some(v) => {
                &&& bytes_of(hex@, n as nat) is Some
                &&& v@.len() == n
                &&& bytes_of(hex@, n as nat)->0.len() == n
                &&& forall|i: int| 0 <= i < n ==> #[trigger] v@[i] == bytes_of(hex@, n as nat)->0[i]
            },
            None => bytes_of(hex@, n as nat) is None,
        },
{
    let mut out: Vec<u8> = Vec::new();
    for i in 0..n
        invariant
            hex@.len() == 2 * n,
            n <= 16,
            bytes_of(hex@, i as nat) is Some,
            out@.len() == i,
            bytes_of(hex@, i as nat)->0.len() == i,
            forall|k: int| 0 <= k < i ==> #[trigger] out@[k] == bytes_of(hex@, i as nat)->0[k],
    {
        match parse_digits(hex.substring_char(2 * i, 2 * i + 2), 16, 255) {
            Some(b) => {
                out.push(b as u8);
            },
            None => {
                proof {
                    bytes_end_early(hex@, (i + 1) as nat, n as nat);
                }
                return None;
            },
        }
    }
    Some(out)
}

proof fn bytes_end_early(hex: Seq<char>, k: nat, n: nat)
    requires
        k <= n,
        bytes_of(hex, k) is None,
    ensures
        bytes_of(hex, n) is None,
    decreases n,
{
    if k < n {
        bytes_end_early(hex, k, (n - 1) as nat);
    }
}

fn write_dotted(a: u8, b: u8, c: u8, d: u8) -> (r: String)
    ensures
        r@ == dotted(a as nat, b as nat, c as nat, d as nat),
{
    let mut out = write_u64(a as u64);
    out.append(".");
    out.append(write_u64(b as u64).as_str());
    out.append(".");
    out.append(write_u64(c as u64).as_str());
    out.append(".");
    out.append(write_u64(d as u64).as_str());
    out
}

/// An IPv4 address from eight hexadecimal digits, its bytes in reverse.
pub fn decode_v4(hex: &str) -> (r: Option<String>)
    ensures
        opt(r) == v4_text(hex@),
{
    if hex.unicode_len() != 8 {
        return None;
    }
    match read_bytes(hex, 4) {
        Some(b) => Some(write_dotted(b[3], b[2], b[1], b[0])),
        None => None,
    }
}

/// The eight groups of an IPv6 address from sixteen bytes, each run of four in reverse.
pub open spec fn groups(b: Seq<nat>) -> Seq<nat> {
    Seq::new(8, |i: int| b[i / 2 * 4 + 3 - i % 2 * 2] * 256 + b[i / 2 * 4 + 2 - i % 2 * 2])
}

/// How many groups in a row are zero from `i` on.
pub open spec fn zeros_from(g: Seq<nat>, i: int) -> int
    decreases g.len() - i,
{
    if 0 <= i < g.len() && g[i] == 0 {
        1 + zeros_from(g, i + 1)
    } else {
        0
    }
}

/// The first of the longest runs of zeros among those that start before `n`: where it starts
/// and how long it is.
pub open spec fn longest_zeros(g: Seq<nat>, n: nat) -> (int, int)
    decreases n,
{
    if n == 0 {
        (0, 0)
    } else {
        let best = longest_zeros(g, (n - 1) as nat);
        let here = zeros_from(g, n - 1);
        if here > best.1 {
            (n - 1, here)
        } else {
            best
        }
    }
}

/// Groups in hexadecimal, a colon between each two.
pub open spec fn colon_hex(g: Seq<nat>) -> Seq<char> {
    joined(Seq::new(g.len(), |i: int| written(g[i], 16)), ":"@)
}

/// An IPv6 address as text: an address that stands for an IPv4 address with that as a dotted
/// quad; else the first longest run of two or more zero groups left out.
pub open spec fn ipv6_text(g: Seq<nat>) -> Seq<char> {
    let (start, len) = longest_zeros(g, 8);
    if g[0] == 0 && g[1] == 0 && g[2] == 0 && g[3] == 0 && g[4] == 0 && g[5] == 0xffff {
        "::ffff:"@ + dotted(g[6] / 256, g[6] % 256, g[7] / 256, g[7] % 256)
    } else if len > 1 {
        colon_hex(g.take(start)) + "::"@ + colon_hex(g.skip(start + len))
    } else {
        colon_hex(g)
    }
}

/// An IPv6 address from thirty-two hexadecimal digits, each word of four bytes in reverse.
pub open spec fn v6_text(hex: Seq<char>) -> Option<Seq<char>> {
    if hex.len() != 32 {
        None
    } else {
        match bytes_of(hex, 16) {
            Some(b) => Some(ipv6_text(groups(b))),
            None => None,
        }
    }
}

/// The views of groups.
pub open spec fn nats(g: Seq<u16>) -> Seq<nat> {
    Seq::new(g.len(), |i: int| g[i] as nat)
}

fn count_zeros(g: &Vec<u16>, from: usize) -> (r: usize)
    requires
        from <= g@.len(),
    ensures
        r == zeros_from(nats(g@), from as int),
        from + r <= g@.len(),
{
    let ghost model = nats(g@);
    let mut i: usize = from;
    while i < g.len() && g[i] == 0
        invariant
            model == nats(g@),
            from <= i <= g@.len(),
            zeros_from(model, from as int) == (i - from) + zeros_from(model, i as int),
        decreases g@.len() - i,
    {
        i += 1;
    }
    i - from
}

fn write_colon_hex(g: &Vec<u16>, from: usize, to: usize) -> (r: String)
    requires
        from <= to <= g@.len(),
    ensures
        r@ == colon_hex(nats(g@).subrange(from as int, to as int)),
{
    let ghost part = nats(g@).subrange(from as int, to as int);
    let mut out: Vec<String> = Vec::new();
    for i in from..to
        invariant
            from <= i <= to <= g@.len(),
            part == nats(g@).subrange(from as int, to as int),
            out.deep_view() =~= Seq::new((i - from) as nat, |k: int| written(part[k], 16)),
    {
        let ghost before = out.deep_view();
        let text = write_radix(g[i] as u64, 16);
        assert(part[i - from] == g@[i as int]);
        out.push(text);
        assert(out.deep_view() =~= before.push(text@));
    }
    assert(out.deep_view() =~= Seq::new(part.len(), |k: int| written(part[k], 16)));
    join(&borrowed(&out), ":")
}

fn write_ipv6(g: &Vec<u16>) -> (r: String)
    requires
        g@.len() == 8,
    ensures
        r@ == ipv6_text(nats(g@)),
{
    let ghost model = nats(g@);
    if g[0] == 0 && g[1] == 0 && g[2] == 0 && g[3] == 0 && g[4] == 0 && g[5] == 0xffff {
        let mut out = "::ffff:".to_owned();
        let quad = write_dotted((g[6] / 256) as u8, (g[6] % 256) as u8, (g[7] / 256) as u8, (g[7] % 256) as u8);
        out.append(quad.as_str());
        return out;
    }
    let mut start: usize = 0;
    let mut len: usize = 0;
    for i in 0..8
        invariant
            g@.len() == 8,
            model == nats(g@),
            (start as int, len as int) == longest_zeros(model, i as nat),
            start + len <= 8,
    {
        let here = count_zeros(g, i);
        if here > len {
            start = i;
            len = here;
        }
    }
    assert(model.subrange(0, 8) =~= model);
    assert(model.subrange(0, start as int) =~= model.take(start as int));
    assert(model.subrange(start + len, 8) =~= model.skip(start + len));
    if len > 1 {
        let mut out = write_colon_hex(g, 0, start);
        out.append("::");
        out.append(write_colon_hex(g, start + len, 8).as_str());
        out
    } else {
        write_colon_hex(g, 0, 8)
    }
}

/// An IPv6 address from thirty-two hexadecimal digits, each word of four bytes in reverse.
pub fn decode_v6(hex: &str) -> (r: Option<String>)
    ensures
        opt(r) == v6_text(hex@),
{
    if hex.unicode_len() != 32 {
        return None;
    }
    let b = match read_bytes(hex, 16) {
        Some(b) => b,
        None => {
            return None;
        },
    };
    let ghost bytes = bytes_of(hex@, 16)->0;
    let mut g: Vec<u16> = Vec::new();
    for i in 0..8
        invariant
            b@.len() == 16,
            bytes.len() == 16,
            forall|k: int| 0 <= k < 16 ==> #[trigger] b@[k] == bytes[k],
            nats(g@) =~= groups(bytes).take(i as int),
    {
        let high: usize = i / 2 * 4 + 3 - i % 2 * 2;
        let ghost before = nats(g@);
        let group: u16 = b[high] as u16 * 256 + b[high - 1] as u16;
        g.push(group);
        assert(nats(g@) =~= before.push(group as nat));
    }
    assert(groups(bytes).take(8) =~= groups(bytes));
    Some(write_ipv6(&g))
}

/// A printable endpoint from `ADDR:PORT` in hexadecimal; an IPv6 address in brackets.
pub open spec fn endpoint(field: Seq<char>, v6: bool) -> Option<Seq<char>> {
    match cut(field, ':') {
        Some((addr, port)) => match (digits_value(port, 16, 65535), if v6 {
            v6_text(addr)
        } else {
            v4_text(addr)
        }) {
            (Some(p), Some(ip)) => Some(
                if v6 {
                    "["@ + ip + "]:"@ + decimal(p)
                } else {
                    ip + ":"@ + decimal(p)
                },
            ),
            _ => None,
        },
        None => None,
    }
}

/// A printable endpoint from `ADDR:PORT` in hexadecimal.
pub fn decode_endpoint(field: &str, v6: bool) -> (r: Option<String>)
    ensures
        opt(r) == endpoint(field@, v6),
{
    let (addr, port_text) = match split_once(field, ':') {
        Some(parts) => parts,
        None => {
            return None;
        },
    };
    let port: u64 = match parse_digits(port_text, 16, 65535) {
        Some(p) => p,
        None => {
            return None;
        },
    };
    let ip = if v6 {
        decode_v6(addr)
    } else {
        decode_v4(addr)
    };
    match ip {
        Some(ip) => {
            if v6 {
                let mut out = "[".to_owned();
                out.append(ip.as_str());
                out.append("]:");
                out.append(write_u64(port).as_str());
                Some(out)
            } else {
                let mut out = ip;
                out.append(":");
                out.append(write_u64(port).as_str());
                Some(out)
            }
        },
        None => None,
    }
}

/// The name of a state code; an unknown code stands for itself.
pub open spec fn state_text(code: Seq<char>) -> Seq<char> {
    if code == "01"@ {
        "ESTABLISHED"@
    } else if code == "02"@ {
        "SYN_SENT"@
    } else if code == "03"@ {
        "SYN_RECV"@
    } else if code == "04"@ {
        "FIN_WAIT1"@
    } else if code == "05"@ {
        "FIN_WAIT2"@
    } else if code == "06"@ {
        "TIME_WAIT"@
    } else if code == "07"@ {
        "CLOSE"@
    } else if code == "08"@ {
        "CLOSE_WAIT"@
    } else if code == "09"@ {
        "LAST_ACK"@
    } else if code == "0A"@ {
        "LISTEN"@
    } else if code == "0B"@ {
        "CLOSING"@
    } else if code == "0C"@ {
        "NEW_SYN_RECV"@
    } else {
        code
    }
}

/// The name of a state code; an unknown code stands for itself.
pub fn state_name(code: &str) -> (r: String)
    ensures
        r@ == state_text(code@),
{
    let name = if same(code, "01") {
        "ESTABLISHED"
    } else if same(code, "02") {
        "SYN_SENT"
    } else if same(code, "03") {
        "SYN_RECV"
    } else if same(code, "04") {
        "FIN_WAIT1"
    } else if same(code, "05") {
        "FIN_WAIT2"
    } else if same(code, "06") {
        "TIME_WAIT"
    } else if same(code, "07") {
        "CLOSE"
    } else if same(code, "08") {
        "CLOSE_WAIT"
    } else if same(code, "09") {
        "LAST_ACK"
    } else if same(code, "0A") {
        "LISTEN"
    } else if same(code, "0B") {
        "CLOSING"
    } else if same(code, "0C") {
        "NEW_SYN_RECV"
    } else {
        code
    };
    name.to_owned()
}

/// The socket of a line of a table; nothing for the header and for lines of another shape.
pub open spec fn socket(proto: Seq<char>, line: Seq<char>) -> Option<Seq<Seq<char>>> {
    let t = words(line);
    let v6 = proto.len() > 0 && proto.last() == '6';
    if t.len() < 10 {
        None
    } else {
        match (endpoint(t[1], v6), endpoint(t[2], v6)) {
            (Some(local), Some(remote)) => Some(seq![proto, state_text(t[3]), local, remote, t[7], t[9]]),
            _ => None,
        }
    }
}

/// Reads one line of a table.
pub fn parse_line(proto: &str, line: &str) -> (r: Option<Conn>)
    ensures
        opt(r) == socket(proto@, line@),
{
    let t = split_words(line);
    let ghost model = words(line@);
    assert(model.len() == t@.len());
    assert(forall|i: int| 0 <= i < model.len() ==> model[i] == #[trigger] t@[i]@);
    if t.len() < 10 {
        return None;
    }
    let n = proto.unicode_len();
    let v6 = n > 0 && proto.get_char(n - 1) == '6';
    match (decode_endpoint(t[1], v6), decode_endpoint(t[2], v6)) {
        (Some(local), Some(remote)) => {
            let c = Conn {
                proto: proto.to_owned(),
                state: state_name(t[3]),
                local,
                remote,
                uid: t[7].to_owned(),
                inode: t[9].to_owned(),
            };
            assert(c@ =~= seq![proto@, state_text(model[3]), c.local@, c.remote@, model[7], model[9]]);
            Some(c)
        },
        _ => None,
    }
}

impl Ranked for Conn {
    /// By protocol, local endpoint and remote endpoint.
    open spec fn le(a: Seq<Seq<char>>, b: Seq<Seq<char>>) -> bool {
        texts_le(seq![a[0], a[2], a[3]], seq![b[0], b[2], b[3]])
    }

    proof fn le_total(a: Seq<Seq<char>>, b: Seq<Seq<char>>) {
        texts_le_total(seq![a[0], a[2], a[3]], seq![b[0], b[2], b[3]]);
    }

    proof fn le_transitive(a: Seq<Seq<char>>, b: Seq<Seq<char>>, c: Seq<Seq<char>>) {
        texts_le_transitive(seq![a[0], a[2], a[3]], seq![b[0], b[2], b[3]], seq![c[0], c[2], c[3]]);
    }

    fn at_most(&self, other: &Self) -> (r: bool) {
        let mine = vec![self.proto.as_str(), self.local.as_str(), self.remote.as_str()];
        let theirs = vec![other.proto.as_str(), other.local.as_str(), other.remote.as_str()];
        assert(mine.deep_view() =~= seq![self@[0], self@[2], self@[3]]);
        assert(theirs.deep_view() =~= seq![other@[0], other@[2], other@[3]]);
        texts_at_most(&mine, &theirs)
    }
}

/// The tables that are read, in their order.
pub open spec fn families(proto: Proto) -> Seq<Seq<char>> {
    match proto {
        Proto::Tcp => seq!["tcp"@],
        Proto::Tcp6 => seq!["tcp6"@],
        Proto::Udp => seq!["udp"@],
        Proto::Udp6 => seq!["udp6"@],
        Proto::All => seq!["tcp"@, "tcp6"@, "udp"@, "udp6"@],
    }
}

/// The tables that are read: the names of their files under `/proc/net`.
pub fn family_names(proto: Proto) -> (r: Vec<&'static str>)
    ensures
        r.deep_view() == families(proto),
{
    let names = match proto {
        Proto::Tcp => vec!["tcp"],
        Proto::Tcp6 => vec!["tcp6"],
        Proto::Udp => vec!["udp"],
        Proto::Udp6 => vec!["udp6"],
        Proto::All => vec!["tcp", "tcp6", "udp", "udp6"],
    };
    assert(names.deep_view() =~= families(proto));
    names
}

/// The socket of a line, where it is in the state asked for, if any, whatever its case.
pub open spec fn wanted_socket(proto: Seq<char>, state: Option<Seq<char>>) -> spec_fn(Seq<char>) -> Seq<Seq<Seq<char>>> {
    |line: Seq<char>|
        match socket(proto, line) {
            Some(c) => if state is None || lowered(c[1]) == lowered(state->0) {
                seq![c]
            } else {
                seq![]
            },
            None => seq![],
        }
}

/// The sockets of one table.
pub open spec fn table_sockets(state: Option<Seq<char>>) -> spec_fn((Seq<char>, Seq<char>)) -> Seq<Seq<Seq<char>>> {
    |table: (Seq<char>, Seq<char>)| gathered(lines(table.1), wanted_socket(table.0, state))
}

/// The sockets of all tables, by protocol, local endpoint and remote endpoint.
pub open spec fn sockets(tables: Seq<(Seq<char>, Seq<char>)>, state: Option<Seq<char>>) -> Seq<Seq<Seq<char>>> {
    sorted::<Conn>(gathered(tables, table_sockets(state)))
}

fn collect_sockets(out: &mut Vec<Conn>, proto: &str, raw: &str, state: &Option<String>)
    ensures
        views(final(out)@) == views(old(out)@) + table_sockets(opt(*state))((proto@, raw@)),
{
    let all = split_lines(raw);
    let ghost model = lines(raw@);
    let ghost f = wanted_socket(proto@, opt(*state));
    let ghost before = views(out@);
    assert(before + gathered(model.take(0), f) =~= before);
    for i in 0..all.len()
        invariant
            all.deep_view() == model,
            f == wanted_socket(proto@, opt(*state)),
            views(out@) == before + gathered(model.take(i as int), f),
    {
        let ghost so_far = gathered(model.take(i as int), f);
        proof {
            gathered_step(model, f, i as int);
        }
        assert(all@[i as int]@ == model[i as int]);
        assert(so_far + seq![] =~= so_far);
        if let Some(c) = parse_line(proto, all[i]) {
            let keep = match state {
                Some(s) => same_ignoring_case(c.state.as_str(), s.as_str()),
                None => true,
            };
            if keep {
                let ghost old_out = views(out@);
                out.push(c);
                assert(views(out@) =~= old_out.push(c@));
                assert(views(out@) =~= before + (so_far + seq![c@]));
            }
        }
    }
    assert(all.deep_view().len() == all@.len());
    assert(model.take(model.len() as int) =~= model);
}

/// The sockets of the tables that could be read, each table under its name.
pub fn connections(tables: &Vec<(String, String)>, state: &Option<String>) -> (r: Vec<Conn>)
    ensures
        views(r@) == sockets(tables.deep_view(), opt(*state)),
{
    let ghost all = tables.deep_view();
    let ghost f = table_sockets(opt(*state));
    let mut out: Vec<Conn> = Vec::new();
    assert(views(out@) =~= gathered(all.take(0), f));
    for i in 0..tables.len()
        invariant
            all == tables.deep_view(),
            f == table_sockets(opt(*state)),
            views(out@) == gathered(all.take(i as int), f),
    {
        proof {
            gathered_step(all, f, i as int);
        }
        let (proto, raw) = &tables[i];
        assert(all[i as int] == (proto@, raw@));
        collect_sockets(&mut out, proto.as_str(), raw.as_str(), state);
    }
    assert(all.take(all.len() as int) =~= all);
    sort(out)
}

/// The object of a socket, its members by name, numbers as numbers.
pub open spec fn socket_json(c: Seq<Seq<char>>, uid: FloatReading, inode: FloatReading) -> JsonView {
    JsonView::Object(
        seq![
            ("inode"@, number_or_text(c[5], inode)),
            ("local"@, JsonView::Text(c[2])),
            ("proto"@, JsonView::Text(c[0])),
            ("remote"@, JsonView::Text(c[3])),
            ("state"@, JsonView::Text(c[1])),
            ("uid"@, number_or_text(c[4], uid)),
        ],
    )
}

/// The object of a socket. `uid` and `inode` are what the two fields say as floating-point
/// numbers.
pub fn build_json(c: &Conn, uid: &FloatReading, inode: &FloatReading) -> (r: Json)
    ensures
        r@ == socket_json(c@, *uid, *inode),
{
    let members = vec![
        ("inode", json_num(c.inode.as_str(), inode)),
        ("local", json_text(c.local.as_str())),
        ("proto", json_text(c.proto.as_str())),
        ("remote", json_text(c.remote.as_str())),
        ("state", json_text(c.state.as_str())),
        ("uid", json_num(c.uid.as_str(), uid)),
    ];
    assert(members.deep_view() =~= socket_json(c@, *uid, *inode)->Object_0);
    json_object(members)
}

/// The row of a socket in the given format.
pub open spec fn socket_row(c: Seq<Seq<char>>, floats: (FloatReading, FloatReading), format: Format) -> Seq<char> {
    match format {
        Format::Tsv => row(c),
        Format::Json => compact(socket_json(c, floats.0, floats.1)),
    }
}

/// Lists sockets in their order. `floats` holds, for each of them, what its user and its inode
/// say as floating-point numbers.
pub fn run(args: &NetworkArgs, conns: &Vec<Conn>, floats: &Vec<(FloatReading, FloatReading)>) -> (r: Report)
    requires
        conns@.len() == floats@.len(),
    ensures
        reports(
            r,
            Seq::new(conns@.len(), |i: int| socket_row(conns@[i]@, floats@[i], args.format)),
            args.limit,
        ),
{
    let ghost rows = Seq::new(conns@.len(), |i: int| socket_row(conns@[i]@, floats@[i], args.format));
    let mut out: Vec<String> = Vec::new();
    for i in 0..conns.len()
        invariant
            conns@.len() == floats@.len(),
            rows == Seq::new(conns@.len(), |i: int| socket_row(conns@[i]@, floats@[i], args.format)),
            out.deep_view() =~= rows.take(i as int),
    {
        let ghost before = out.deep_view();
        let c = &conns[i];
        let line = match args.format {
            Format::Tsv => {
                let fields = vec![
                    c.proto.as_str(),
                    c.state.as_str(),
                    c.local.as_str(),
                    c.remote.as_str(),
                    c.uid.as_str(),
                    c.inode.as_str(),
                ];
                assert(fields.deep_view() =~= c@);
                write_row(&fields)
            },
            Format::Json => write_compact(&build_json(c, &floats[i].0, &floats[i].1)),
        };
        assert(line@ == rows[i as int]);
        out.push(line);
        assert(out.deep_view() =~= before.push(line@));
    }
    assert(rows.take(rows.len() as int) =~= rows);
    report_rows(out, args.limit)
}

/// The two characters are the hexadecimal digits of a byte, in either case.
pub open spec fn writes_byte(high: char, low: char, b: nat) -> bool {
    digit(high, 16) == Some(b / 16) && digit(low, 16) == Some(b % 16)
}

proof fn byte_reads_back(high: char, low: char, b: nat)
    requires
        b < 256,
        writes_byte(high, low, b),
    ensures
        digits_value(seq![high, low], 16, 255) == Some(b),
{
    let s = seq![high, low];
    reveal_with_fuel(positional, 4);
    assert(s.drop_last() =~= seq![high]);
    assert(s.drop_last().drop_last() =~= seq![]);
}

/// An address whose bytes the kernel writes from the last to the first, in hexadecimal digits of
/// either case, is shown from the first to the last.
pub proof fn v4_reverses_the_bytes(hex: Seq<char>, a: nat, b: nat, c: nat, d: nat)
    requires
        hex.len() == 8,
        a < 256 && b < 256 && c < 256 && d < 256,
        writes_byte(hex[0], hex[1], d),
        writes_byte(hex[2], hex[3], c),
        writes_byte(hex[4], hex[5], b),
        writes_byte(hex[6], hex[7], a),
    ensures
        v4_text(hex) == Some(dotted(a, b, c, d)),
{
    assert(hex.subrange(0, 2) =~= seq![hex[0], hex[1]]);
    assert(hex.subrange(2, 4) =~= seq![hex[2], hex[3]]);
    assert(hex.subrange(4, 6) =~= seq![hex[4], hex[5]]);
    assert(hex.subrange(6, 8) =~= seq![hex[6], hex[7]]);
    byte_reads_back(hex[0], hex[1], d);
    byte_reads_back(hex[2], hex[3], c);
    byte_reads_back(hex[4], hex[5], b);
    byte_reads_back(hex[6], hex[7], a);
    reveal_with_fuel(bytes_of, 6);
}

/// A hexadecimal digit, in either case.
pub open spec fn hex_digit(c: char) -> bool {
    '0' <= c <= '9' || 'a' <= c <= 'f' || 'A' <= c <= 'F'
}

/// An address of so many hexadecimal digits, a colon, and a port of one or more hexadecimal digits
/// that come to no more than a port may be.
pub open spec fn hex_endpoint(field: Seq<char>, digits: nat) -> bool {
    &&& field.len() > digits + 1
    &&& field[digits as int] == ':'
    &&& forall|i: int| 0 <= i < field.len() && i != digits ==> hex_digit(#[trigger] field[i])
    &&& positional(field.skip(digits as int + 1), 16) is Some
    &&& positional(field.skip(digits as int + 1), 16)->0 <= 65535
}

proof fn digits_make_a_number(s: Seq<char>)
    ensures
        positional(s, 16) is Some <==> forall|i: int| 0 <= i < s.len() ==> hex_digit(#[trigger] s[i]),
    decreases s.len(),
{
    if s.len() > 0 {
        let init = s.drop_last();
        digits_make_a_number(init);
        if positional(s, 16) is Some {
            assert forall|i: int| 0 <= i < s.len() implies hex_digit(#[trigger] s[i]) by {
                if i < init.len() {
                    assert(s[i] == init[i]);
                }
            }
        }
        if forall|i: int| 0 <= i < s.len() ==> hex_digit(#[trigger] s[i]) {
            assert forall|i: int| 0 <= i < init.len() implies hex_digit(#[trigger] init[i]) by {
                assert(hex_digit(s[i]));
            }
            assert(hex_digit(s[s.len() - 1]));
        }
    }
}

proof fn bytes_need_digits(hex: Seq<char>, n: nat)
    requires
        hex.len() >= 2 * n,
    ensures
        bytes_of(hex, n) is Some <==> forall|i: int| 0 <= i < 2 * n ==> hex_digit(#[trigger] hex[i]),
        bytes_of(hex, n) is Some ==> bytes_of(hex, n)->0.len() == n,
        bytes_of(hex, n) is Some ==> forall|i: int|
            0 <= i < n ==> writes_byte(hex[2 * i], hex[2 * i + 1], #[trigger] bytes_of(hex, n)->0[i]) && bytes_of(hex, n)->0[i]
                < 256,
    decreases n,
{
    if n > 0 {
        let m = (n - 1) as nat;
        bytes_need_digits(hex, m);
        let pair = hex.subrange(2 * n - 2, 2 * n as int);
        digits_make_a_number(pair);
        reveal_with_fuel(positional, 4);
        assert(pair.drop_last() =~= seq![hex[2 * n - 2]]);
        assert(pair.drop_last().drop_last() =~= seq![]);
        assert(pair[0] == hex[2 * n - 2] && pair[1] == hex[2 * n - 1]);
        if bytes_of(hex, n) is Some {
            assert forall|i: int| 0 <= i < 2 * n implies hex_digit(#[trigger] hex[i]) by {
                if i >= 2 * n - 2 {
                    assert(hex_digit(pair[i - (2 * n - 2)]));
                }
            }
            let b = bytes_of(hex, n)->0;
            assert forall|i: int| 0 <= i < n implies writes_byte(hex[2 * i], hex[2 * i + 1], #[trigger] b[i]) && b[i] < 256 by {
                if i < m {
                    assert(b[i] == bytes_of(hex, m)->0[i]);
                }
            }
        }
        if forall|i: int| 0 <= i < 2 * n ==> hex_digit(#[trigger] hex[i]) {
            assert(hex_digit(hex[2 * n - 2]) && hex_digit(hex[2 * n - 1]));
            assert forall|i: int| 0 <= i < pair.len() implies hex_digit(#[trigger] pair[i]) by {
                assert(pair[i] == hex[2 * n - 2 + i]);
            }
        }
    }
}

proof fn endpoints_are_hexadecimal(field: Seq<char>, v6: bool)
    ensures
        endpoint(field, v6) is Some <==> hex_endpoint(
            field,
            if v6 {
                32
            } else {
                8
            },
        ),
{
    let n: nat = if v6 {
        32
    } else {
        8
    };
    position_is_first(field, ':');
    if endpoint(field, v6) is Some {
        let (addr, port) = cut(field, ':')->0;
        assert(addr.len() == n);
        bytes_need_digits(addr, n / 2);
        digits_make_a_number(port);
        assert forall|i: int| 0 <= i < field.len() && i != n implies hex_digit(#[trigger] field[i]) by {
            if i < n {
                assert(field[i] == addr[i]);
            } else {
                assert(field[i] == port[i - n - 1]);
            }
        }
        assert(field.skip(n as int + 1) == port);
    }
    if hex_endpoint(field, n) {
        assert forall|i: int| 0 <= i < n implies field[i] != ':' by {
            assert(hex_digit(field[i]));
        }
        assert(position(field, ':') == Some(n as int));
        let addr = field.take(n as int);
        bytes_need_digits(addr, n / 2);
        assert forall|i: int| 0 <= i < 2 * (n / 2) implies hex_digit(#[trigger] addr[i]) by {
            assert(addr[i] == field[i]);
        }
    }
}

/// A line of a table is listed just where it has at least ten words and the second and the third
/// are endpoints in hexadecimal: with addresses of eight digits in the tables of the fourth version
/// of the protocol, and of thirty-two in those of the sixth.
pub proof fn sockets_are_listed_by_their_endpoints(line: Seq<char>)
    ensures
        socket("tcp"@, line) is Some <==> words(line).len() >= 10 && hex_endpoint(words(line)[1], 8) && hex_endpoint(
            words(line)[2],
            8,
        ),
        socket("udp"@, line) is Some <==> words(line).len() >= 10 && hex_endpoint(words(line)[1], 8) && hex_endpoint(
            words(line)[2],
            8,
        ),
        socket("tcp6"@, line) is Some <==> words(line).len() >= 10 && hex_endpoint(words(line)[1], 32) && hex_endpoint(
            words(line)[2],
            32,
        ),
        socket("udp6"@, line) is Some <==> words(line).len() >= 10 && hex_endpoint(words(line)[1], 32) && hex_endpoint(
            words(line)[2],
            32,
        ),
{
    family_versions();
    let t = words(line);
    if t.len() >= 10 {
        endpoints_are_hexadecimal(t[1], true);
        endpoints_are_hexadecimal(t[2], true);
        endpoints_are_hexadecimal(t[1], false);
        endpoints_are_hexadecimal(t[2], false);
    }
}

proof fn family_versions()
    ensures
        "tcp"@.len() > 0 && "tcp"@.last() != '6',
        "udp"@.len() > 0 && "udp"@.last() != '6',
        "tcp6"@.len() > 0 && "tcp6"@.last() == '6',
        "udp6"@.len() > 0 && "udp6"@.last() == '6',
{
    reveal_strlit("tcp");
    reveal_strlit("udp");
    reveal_strlit("tcp6");
    reveal_strlit("udp6");
    assert("tcp"@.last() == 'p' && "udp"@.last() == 'p' && "tcp6"@.last() == '6' && "udp6"@.last() == '6');
}

/// A line says the same in two tables of the same version of the protocol, but for the name of the
/// table, which is the first column.
pub proof fn tables_of_one_version_are_read_alike(line: Seq<char>)
    ensures
        socket("tcp6"@, line) is Some ==> socket("udp6"@, line) == Some(socket("tcp6"@, line)->0.update(0, "udp6"@)),
        socket("udp6"@, line) is Some ==> socket("tcp6"@, line) == Some(socket("udp6"@, line)->0.update(0, "tcp6"@)),
        socket("tcp"@, line) is Some ==> socket("udp"@, line) == Some(socket("tcp"@, line)->0.update(0, "udp"@)),
        socket("udp"@, line) is Some ==> socket("tcp"@, line) == Some(socket("udp"@, line)->0.update(0, "tcp"@)),
        forall|proto: Seq<char>| #[trigger] socket(proto, line) is Some ==> socket(proto, line)->0.len() == 6 && socket(
            proto,
            line,
        )->0[0] == proto,
{
    family_versions();
    if let Some(c) = socket("tcp6"@, line) {
        assert(socket("udp6"@, line)->0 =~= c.update(0, "udp6"@));
    }
    if let Some(c) = socket("udp6"@, line) {
        assert(socket("tcp6"@, line)->0 =~= c.update(0, "tcp6"@));
    }
    if let Some(c) = socket("tcp"@, line) {
        assert(socket("udp"@, line)->0 =~= c.update(0, "udp"@));
    }
    if let Some(c) = socket("udp"@, line) {
        assert(socket("tcp"@, line)->0 =~= c.update(0, "tcp"@));
    }
}

/// The columns of a socket come from the words of its line: the endpoints from the second and the
/// third, the state from the fourth, the user from the eighth and the inode from the tenth.
pub proof fn columns_come_from_their_words(proto: Seq<char>, line: Seq<char>)
    requires
        socket(proto, line) is Some,
    ensures
        proto == "tcp"@ || proto == "udp"@ ==> endpoint(words(line)[1], false) == Some(socket(proto, line)->0[2])
            && endpoint(words(line)[2], false) == Some(socket(proto, line)->0[3]),
        proto == "tcp6"@ || proto == "udp6"@ ==> endpoint(words(line)[1], true) == Some(socket(proto, line)->0[2])
            && endpoint(words(line)[2], true) == Some(socket(proto, line)->0[3]),
        socket(proto, line)->0[1] == state_text(words(line)[3]),
        socket(proto, line)->0[4] == words(line)[7],
        socket(proto, line)->0[5] == words(line)[9],
{
    family_versions();
}

/// The names of the states, in the order of their codes.
pub open spec fn state_names() -> Seq<Seq<char>> {
    seq![
        "ESTABLISHED"@,
        "SYN_SENT"@,
        "SYN_RECV"@,
        "FIN_WAIT1"@,
        "FIN_WAIT2"@,
        "TIME_WAIT"@,
        "CLOSE"@,
        "CLOSE_WAIT"@,
        "LAST_ACK"@,
        "LISTEN"@,
        "CLOSING"@,
        "NEW_SYN_RECV"@,
    ]
}

/// Codes are written in two hexadecimal digits, the letters in upper case, and count the states
/// from one on. Whatever is no such code is shown as it is.
pub proof fn states_are_counted_from_one(line: Seq<char>, proto: Seq<char>, n: int)
    requires
        socket(proto, line) is Some,
    ensures
        1 <= n <= 9 && words(line)[3] == seq!['0', ('0' as u32 + n as u32) as u32 as char] ==> socket(proto, line)->0[1]
            == state_names()[n - 1],
        10 <= n <= 12 && words(line)[3] == seq!['0', ('A' as u32 + (n - 10) as u32) as u32 as char] ==> socket(
            proto,
            line,
        )->0[1] == state_names()[n - 1],
        words(line)[3].len() != 2 || words(line)[3][0] != '0' ==> socket(proto, line)->0[1] == words(line)[3],
{
    let code = words(line)[3];
    reveal_strlit("01");
    reveal_strlit("02");
    reveal_strlit("03");
    reveal_strlit("04");
    reveal_strlit("05");
    reveal_strlit("06");
    reveal_strlit("07");
    reveal_strlit("08");
    reveal_strlit("09");
    reveal_strlit("0A");
    reveal_strlit("0B");
    reveal_strlit("0C");
    assert("01"@ =~= seq!['0', '1']);
    assert("02"@ =~= seq!['0', '2']);
    assert("03"@ =~= seq!['0', '3']);
    assert("04"@ =~= seq!['0', '4']);
    assert("05"@ =~= seq!['0', '5']);
    assert("06"@ =~= seq!['0', '6']);
    assert("07"@ =~= seq!['0', '7']);
    assert("08"@ =~= seq!['0', '8']);
    assert("09"@ =~= seq!['0', '9']);
    assert("0A"@ =~= seq!['0', 'A']);
    assert("0B"@ =~= seq!['0', 'B']);
    assert("0C"@ =~= seq!['0', 'C']);
}

/// A run of zero groups from `start` on, so many of them.
pub open spec fn zero_run(g: Seq<nat>, start: int, len: int) -> bool {
    0 <= start && 0 <= len && start + len <= g.len() && forall|i: int| start <= i < start + len ==> #[trigger] g[i] == 0
}

proof fn zeros_are_a_run(g: Seq<nat>, i: int)
    requires
        0 <= i <= g.len(),
    ensures
        zero_run(g, i, zeros_from(g, i)),
        forall|len: int| #[trigger] zero_run(g, i, len) ==> len <= zeros_from(g, i),
    decreases g.len() - i,
{
    if i < g.len() && g[i] == 0 {
        zeros_are_a_run(g, i + 1);
        assert forall|len: int| #[trigger] zero_run(g, i, len) implies len <= zeros_from(g, i) by {
            if len > 0 {
                assert(zero_run(g, i + 1, len - 1));
            }
        }
    } else {
        assert forall|len: int| #[trigger] zero_run(g, i, len) implies len <= 0 by {
            if len > 0 {
                assert(g[i] == 0);
            }
        }
    }
}

proof fn longest_run(g: Seq<nat>, n: nat)
    requires
        n <= g.len(),
    ensures
        ({
            let (start, len) = longest_zeros(g, n);
            &&& zero_run(g, start, len)
            &&& forall|s: int, l: int| 0 <= s < n && #[trigger] zero_run(g, s, l) ==> l <= len
            &&& forall|s: int, l: int| 0 <= s < start && #[trigger] zero_run(g, s, l) ==> l < len
        }),
    decreases n,
{
    if n > 0 {
        longest_run(g, (n - 1) as nat);
        zeros_are_a_run(g, n - 1);
        let best = longest_zeros(g, (n - 1) as nat);
        let (start, len) = longest_zeros(g, n);
        assert forall|s: int, l: int| 0 <= s < n && #[trigger] zero_run(g, s, l) implies l <= len by {
            if s < n - 1 {
                assert(l <= best.1);
            }
        }
        assert forall|s: int, l: int| 0 <= s < start && #[trigger] zero_run(g, s, l) implies l < len by {
            if start == n - 1 && len == zeros_from(g, n - 1) && len > best.1 {
                assert(l <= best.1);
            }
        }
    }
}

/// An IPv6 address is written in groups of hexadecimal digits. The longest run of two or more zero
/// groups, the first of them where several are as long, is left out and leaves two colons; where
/// there is no such run every group is written.
pub proof fn longest_zero_run_is_left_out(g: Seq<nat>, start: int, len: int)
    requires
        g.len() == 8,
        !(zero_run(g, 0, 5) && g[5] == 0xffff),
    ensures
        len >= 2 && zero_run(g, start, len) && (forall|s: int, l: int| #[trigger] zero_run(g, s, l) ==> l <= len) && (
        forall|s: int, l: int| s < start && #[trigger] zero_run(g, s, l) ==> l < len) ==> ipv6_text(g) == colon_hex(
            g.take(start),
        ) + "::"@ + colon_hex(g.skip(start + len)),
        (forall|s: int, l: int| #[trigger] zero_run(g, s, l) ==> l < 2) ==> ipv6_text(g) == colon_hex(g),
{
    longest_run(g, 8);
    let (a, n) = longest_zeros(g, 8);
    assert(zero_run(g, a, n));
    if g[0] == 0 && g[1] == 0 && g[2] == 0 && g[3] == 0 && g[4] == 0 {
        assert(zero_run(g, 0, 5));
    }
    if len >= 2 && zero_run(g, start, len) && (forall|s: int, l: int| #[trigger] zero_run(g, s, l) ==> l <= len) && (
    forall|s: int, l: int| s < start && #[trigger] zero_run(g, s, l) ==> l < len) {
        assert(n <= len);
        assert(len <= n);
        if a < start {
            assert(n < len);
        }
        if start < a {
            assert(len < n);
        }
    }
}

/// The groups of an IPv6 address: each word of four bytes is written from its last byte to its
/// first, so the first group of a word is made of the fourth byte and the third, and the second
/// group of the second byte and the first.
pub proof fn words_are_reversed(hex: Seq<char>, b: Seq<nat>, w: int)
    requires
        hex.len() == 32,
        b.len() == 16,
        forall|i: int| 0 <= i < 16 ==> #[trigger] b[i] < 256 && writes_byte(hex[2 * i], hex[2 * i + 1], b[i]),
        0 <= w < 4,
    ensures
        v6_text(hex) == Some(ipv6_text(groups(b))),
        groups(b).len() == 8,
        groups(b)[2 * w] == b[4 * w + 3] * 256 + b[4 * w + 2],
        groups(b)[2 * w + 1] == b[4 * w + 1] * 256 + b[4 * w],
{
    bytes_need_digits(hex, 16);
    assert forall|i: int| 0 <= i < 32 implies hex_digit(#[trigger] hex[i]) by {
        assert(b[i / 2] < 256);
        assert(hex[2 * (i / 2)] == hex[i] || hex[2 * (i / 2) + 1] == hex[i]);
    }
    let c = bytes_of(hex, 16)->0;
    assert forall|i: int| 0 <= i < 16 implies c[i] == b[i] by {
        assert(writes_byte(hex[2 * i], hex[2 * i + 1], c[i]));
        assert(b[i] < 256);
    }
    assert(c =~= b);
}

/// An endpoint shows its address and its port in decimal, the address of the sixth version in
/// brackets.
pub proof fn endpoints_show_address_and_port(addr: Seq<char>, port: Seq<char>, ip: Seq<char>, p: nat)
    requires
        !addr.contains(':'),
        port.len() > 0,
        positional(port, 16) == Some(p),
        p <= 65535,
    ensures
        v4_text(addr) == Some(ip) ==> endpoint(addr + seq![':'] + port, false) == Some(ip + ":"@ + decimal(p)),
        v6_text(addr) == Some(ip) ==> endpoint(addr + seq![':'] + port, true) == Some("["@ + ip + "]:"@ + decimal(p)),
{
    cut_at_the_first(addr, port, ':');
}

/// The sockets that are listed are those of the lines of the tables, and none is left out; where a
/// state is asked for, those in that state, whatever its case. They come by protocol, local and
/// remote endpoint.
pub proof fn sockets_of_the_tables_are_listed(
    tables: Seq<(Seq<char>, Seq<char>)>,
    state: Option<Seq<char>>,
    c: Seq<Seq<char>>,
)
    ensures
        sockets(tables, state).contains(c) <==> (exists|t: int, l: int|
            0 <= t < tables.len() && 0 <= l < lines(tables[t].1).len() && socket(
                tables[t].0,
                #[trigger] lines(tables[t].1)[l],
            ) == Some(c)) && (state is Some ==> lowered(c[1]) == lowered(state->0)),
        forall|i: int, j: int|
            0 <= i < j < sockets(tables, state).len() ==> texts_le(
                seq![
                    (#[trigger] sockets(tables, state)[i])[0],
                    sockets(tables, state)[i][2],
                    sockets(tables, state)[i][3],
                ],
                seq![
                    (#[trigger] sockets(tables, state)[j])[0],
                    sockets(tables, state)[j][2],
                    sockets(tables, state)[j][3],
                ],
            ),
{
    let f = table_sockets(state);
    let all = gathered(tables, f);
    sorted_holds::<Conn>(all, c);
    sorted_is_a_stable_sort::<Conn>(all);
    gathered_holds(tables, f, c);
    let out = sockets(tables, state);
    assert forall|i: int, j: int| 0 <= i < j < out.len() implies texts_le(
        seq![(#[trigger] out[i])[0], out[i][2], out[i][3]],
        seq![(#[trigger] out[j])[0], out[j][2], out[j][3]],
    ) by {
        assert(Conn::le(out[i], out[j]));
    }
    if out.contains(c) {
        let t = choose|t: int| 0 <= t < tables.len() && f(#[trigger] tables[t]).contains(c);
        let g = wanted_socket(tables[t].0, state);
        gathered_holds(lines(tables[t].1), g, c);
        let l = choose|l: int| 0 <= l < lines(tables[t].1).len() && g(#[trigger] lines(tables[t].1)[l]).contains(c);
        assert(socket(tables[t].0, lines(tables[t].1)[l]) == Some(c));
    }
    if (exists|t: int, l: int|
        0 <= t < tables.len() && 0 <= l < lines(tables[t].1).len() && socket(
            tables[t].0,
            #[trigger] lines(tables[t].1)[l],
        ) == Some(c)) && (state is Some ==> lowered(c[1]) == lowered(state->0)) {
        let (t, l) = choose|t: int, l: int|
            0 <= t < tables.len() && 0 <= l < lines(tables[t].1).len() && socket(
                tables[t].0,
                #[trigger] lines(tables[t].1)[l],
            ) == Some(c);
        let g = wanted_socket(tables[t].0, state);
        gathered_holds(lines(tables[t].1), g, c);
        assert(g(lines(tables[t].1)[l])[0] == c);
        assert(g(lines(tables[t].1)[l]).contains(c));
        assert(f(tables[t]).contains(c));
    }
}

/// Each column of a socket stands under its name in its object, which is its row in JSON; as plain
/// text its row is its columns.
pub proof fn socket_columns_are_named(c: Seq<Seq<char>>, uid: FloatReading, inode: FloatReading)
    requires
        c.len() == 6,
    ensures
        socket_json(c, uid, inode).get("proto"@) == Some(JsonView::Text(c[0])),
        socket_json(c, uid, inode).get("state"@) == Some(JsonView::Text(c[1])),
        socket_json(c, uid, inode).get("local"@) == Some(JsonView::Text(c[2])),
        socket_json(c, uid, inode).get("remote"@) == Some(JsonView::Text(c[3])),
        socket_json(c, uid, inode).get("uid"@) == Some(number_or_text(c[4], uid)),
        socket_json(c, uid, inode).get("inode"@) == Some(number_or_text(c[5], inode)),
        socket_row(c, (uid, inode), Format::Json) == compact(socket_json(c, uid, inode)),
        socket_row(c, (uid, inode), Format::Tsv) == row(c),
{
    reveal_strlit("inode");
    reveal_strlit("local");
    reveal_strlit("proto");
    reveal_strlit("remote");
    reveal_strlit("state");
    reveal_strlit("uid");
    assert("inode"@[0] == 'i' && "local"@[0] == 'l' && "proto"@[0] == 'p' && "remote"@[0] == 'r' && "state"@[0] == 's'
        && "uid"@[0] == 'u');
    let members = socket_json(c, uid, inode)->Object_0;
    first_member_counts(members, "inode"@, 0);
    first_member_counts(members, "local"@, 1);
    first_member_counts(members, "proto"@, 2);
    first_member_counts(members, "remote"@, 3);
    first_member_counts(members, "state"@, 4);
    first_member_counts(members, "uid"@, 5);
}

} // verus!
