//! `/proc/cpuinfo`: one row per logical CPU.
use super::{key_value, parse_kv_line, sanitize};
use crate::format::{compact, write_compact};
use crate::gather::gathered;
use crate::number::{decimal, write_u64};
use crate::order::views;
use crate::output::{in_one_field, report_rows, reports, Report};
use crate::text::{
    borrowed, join, joined, lines, owned, row, same, split_lines, split_words, trim, trimmed, words, write_row,
};
use crate::value::{filled, json_object, json_text, json_texts, non_empty, opt, or_text, Json, JsonView};
use vstd::prelude::*;
use vstd::string::*;

verus! {

/// How rows are written.
#[derive(Clone, Copy, Debug, PartialEq, Eq, Structural)]
pub enum Format {
    /// Columns with tabs between them.
    Tsv,
    /// One JSON object per line.
    Json,
}

/// The arguments of the command.
#[derive(Debug)]
pub struct CpuinfoArgs {
    /// Shows the flags themselves, not only how many there are.
    pub full: bool,
    pub format: Format,
    pub limit: Option<usize>,
}

/// One logical CPU. What the architecture does not tell is `-`.
#[derive(Debug, PartialEq)]
pub struct CpuRecord {
    pub cpu: String,
    pub vendor: String,
    pub model_name: String,
    pub mhz: String,
    pub cache_kb: String,
    pub cores: String,
    pub siblings: String,
    pub flags: Vec<String>,
}

/// What a `CpuRecord` says.
#[verifier::ext_equal]
pub struct Cpu {
    pub cpu: Seq<char>,
    pub vendor: Seq<char>,
    pub model_name: Seq<char>,
    pub mhz: Seq<char>,
    pub cache_kb: Seq<char>,
    pub cores: Seq<char>,
    pub siblings: Seq<char>,
    pub flags: Seq<Seq<char>>,
}

impl View for CpuRecord {
    type V = Cpu;

    open spec fn view(&self) -> Cpu {
        Cpu {
            cpu: self.cpu@,
            vendor: self.vendor@,
            model_name: self.model_name@,
            mhz: self.mhz@,
            cache_kb: self.cache_kb@,
            cores: self.cores@,
            siblings: self.siblings@,
            flags: self.flags.deep_view(),
        }
    }
}

/// The last value that a block gives for `key`.
pub open spec fn entry(block: Seq<(Seq<char>, Seq<char>)>, key: Seq<char>) -> Option<Seq<char>>
    decreases block.len(),
{
    if block.len() == 0 {
        None
    } else if block.last().0 == key {
        Some(block.last().1)
    } else {
        entry(block.drop_last(), key)
    }
}

/// The last value that a block gives for `key`.
pub fn find_entry<'a>(block: &'a Vec<(String, String)>, key: &str) -> (r: Option<&'a str>)
    ensures
        opt(r) == entry(block.deep_view(), key@),
{
    let ghost all = block.deep_view();
    let mut i: usize = block.len();
    assert(all.take(i as int) =~= all);
    while i > 0
        invariant
            all == block.deep_view(),
            i <= block@.len(),
            entry(all, key@) == entry(all.take(i as int), key@),
        decreases i,
    {
        assert(all.take(i as int).drop_last() =~= all.take(i - 1));
        i -= 1;
        assert(all[i as int] == (block@[i as int].0@, block@[i as int].1@));
        if same(block[i].0.as_str(), key) {
            return Some(block[i].1.as_str());
        }
    }
    None
}

/// The value of `key` as a field: `-` where it is missing or empty.
pub open spec fn field(block: Seq<(Seq<char>, Seq<char>)>, key: Seq<char>) -> Seq<char> {
    match filled(entry(block, key)) {
        Some(v) => in_one_field(v),
        None => "-"@,
    }
}

fn read_field(block: &Vec<(String, String)>, key: &str) -> (r: String)
    ensures
        r@ == field(block.deep_view(), key@),
{
    match non_empty(find_entry(block, key)) {
        Some(v) => sanitize(v),
        None => "-".to_owned(),
    }
}

/// The record of the block at position `ordinal`.
pub open spec fn record(block: Seq<(Seq<char>, Seq<char>)>, ordinal: int) -> Cpu {
    let cache = match entry(block, "cache size"@) {
        Some(v) => words(v),
        None => seq![],
    };
    Cpu {
        cpu: or_text(filled(entry(block, "processor"@)), decimal(ordinal as nat)),
        vendor: field(block, "vendor_id"@),
        model_name: field(block, "model name"@),
        mhz: field(block, "cpu MHz"@),
        cache_kb: if cache.len() > 0 {
            cache[0]
        } else {
            "-"@
        },
        cores: field(block, "cpu cores"@),
        siblings: field(block, "siblings"@),
        flags: match entry(block, "flags"@) {
            Some(v) => words(v),
            None => match entry(block, "Features"@) {
                Some(v) => words(v),
                None => seq![],
            },
        },
    }
}

/// The record of the block at position `ordinal`, from its entries in their order.
pub fn record_from(block: &Vec<(String, String)>, ordinal: usize) -> (r: CpuRecord)
    ensures
        r@ == record(block.deep_view(), ordinal as int),
{
    let cpu = match non_empty(find_entry(block, "processor")) {
        Some(v) => v.to_owned(),
        None => write_u64(ordinal as u64),
    };
    let cache_kb = match find_entry(block, "cache size") {
        Some(v) => {
            let parts = split_words(v);
            assert(parts.deep_view().len() == parts@.len());
            if parts.len() > 0 {
                assert(parts.deep_view()[0] == parts@[0]@);
                parts[0].to_owned()
            } else {
                "-".to_owned()
            }
        },
        None => "-".to_owned(),
    };
    let listed = match find_entry(block, "flags") {
        Some(v) => Some(v),
        None => find_entry(block, "Features"),
    };
    let flags = match listed {
        Some(v) => owned(&split_words(v)),
        None => {
            let none: Vec<String> = Vec::new();
            assert(none.deep_view() =~= seq![]);
            none
        },
    };
    CpuRecord {
        cpu,
        vendor: read_field(block, "vendor_id"),
        model_name: read_field(block, "model name"),
        mhz: read_field(block, "cpu MHz"),
        cache_kb,
        cores: read_field(block, "cpu cores"),
        siblings: read_field(block, "siblings"),
        flags,
    }
}

/// The blocks of entries that blank lines set apart, the last one still open.
pub open spec fn open_blocks(ls: Seq<Seq<char>>) -> Seq<Seq<(Seq<char>, Seq<char>)>>
    decreases ls.len(),
{
    if ls.len() == 0 {
        seq![seq![]]
    } else {
        let before = open_blocks(ls.drop_last());
        if trimmed(ls.last()).len() == 0 {
            if before.last().len() > 0 {
                before.push(seq![])
            } else {
                before
            }
        } else {
            match key_value(ls.last()) {
                Some(pair) => before.update(before.len() - 1, before.last().push(pair)),
                None => before,
            }
        }
    }
}

/// The blocks of entries that blank lines set apart; a block holds at least one entry.
pub open spec fn blocks(ls: Seq<Seq<char>>) -> Seq<Seq<(Seq<char>, Seq<char>)>> {
    let all = open_blocks(ls);
    if all.last().len() == 0 {
        all.drop_last()
    } else {
        all
    }
}

/// The records of the whole file.
pub open spec fn cpus(input: Seq<char>) -> Seq<Cpu> {
    let all = blocks(lines(input));
    Seq::new(all.len(), |i: int| record(all[i], i))
}

/// Reads the whole file: one record per block of entries.
pub fn parse_cpuinfo(input: &str) -> (r: Vec<CpuRecord>)
    ensures
        views(r@) == cpus(input@),
{
    let all = split_lines(input);
    let ghost model = lines(input@);
    let mut records: Vec<CpuRecord> = Vec::new();
    let mut current: Vec<(String, String)> = Vec::new();
    let ghost mut done: Seq<Seq<(Seq<char>, Seq<char>)>> = seq![];
    assert(current.deep_view() =~= seq![]);
    assert(done.push(current.deep_view()) =~= open_blocks(model.take(0)));
    for i in 0..all.len()
        invariant
            all.deep_view() == model,
            done.push(current.deep_view()) == open_blocks(model.take(i as int)),
            views(records@) =~= Seq::new(done.len(), |k: int| record(done[k], k)),
            records@.len() <= i,
    {
        let line = all[i];
        proof {
            assert(model.take(i + 1).drop_last() =~= model.take(i as int));
            assert(model.take(i + 1).last() == line@);
            assert(done.push(current.deep_view()).last() == current.deep_view());
        }
        let ghost block = current.deep_view();
        assert(block.len() == current@.len());
        if trim(line).is_empty() {
            if current.len() > 0 {
                let n = records.len();
                let ghost before = views(records@);
                let item = record_from(&current, n);
                records.push(item);
                current = Vec::new();
                proof {
                    assert(views(records@) =~= before.push(item@));
                    done = done.push(block);
                    assert(current.deep_view() =~= seq![]);
                }
            }
        } else if let Some((key, value)) = parse_kv_line(line) {
            let ghost pair = (key@, value@);
            current.push((key, value));
            proof {
                assert(current.deep_view() =~= block.push(pair));
                assert(done.push(block).update(done.len() as int, block.push(pair)) =~= done.push(block.push(pair)));
            }
        }
    }
    proof {
        assert(all.deep_view().len() == all@.len());
        assert(model.take(model.len() as int) =~= model);
        assert(done.push(current.deep_view()).last() == current.deep_view());
        assert(done.push(current.deep_view()).drop_last() =~= done);
        assert(current.deep_view().len() == current@.len());
    }
    if current.len() > 0 {
        let n = records.len();
        let ghost before = views(records@);
        let item = record_from(&current, n);
        records.push(item);
        assert(views(records@) =~= before.push(item@));
    }
    assert(views(records@) =~= cpus(input@));
    records
}

/// The columns of a CPU: its flags in full where asked for, else how many there are.
pub open spec fn cpu_line(c: Cpu, full: bool) -> Seq<char> {
    let last = if full {
        if c.flags.len() == 0 {
            "-"@
        } else {
            joined(c.flags, " "@)
        }
    } else {
        decimal(c.flags.len())
    };
    row(seq![c.cpu, c.vendor, c.model_name, c.mhz, c.cache_kb, c.cores, c.siblings, last])
}

/// The columns of a CPU.
pub fn format_row(rec: &CpuRecord, full: bool) -> (r: String)
    ensures
        r@ == cpu_line(rec@, full),
{
    assert(rec@.flags.len() == rec.flags@.len());
    let last = if full {
        if rec.flags.len() == 0 {
            "-".to_owned()
        } else {
            join(&borrowed(&rec.flags), " ")
        }
    } else {
        write_u64(rec.flags.len() as u64)
    };
    let fields = vec![
        rec.cpu.as_str(),
        rec.vendor.as_str(),
        rec.model_name.as_str(),
        rec.mhz.as_str(),
        rec.cache_kb.as_str(),
        rec.cores.as_str(),
        rec.siblings.as_str(),
        last.as_str(),
    ];
    assert(fields.deep_view() =~= seq![
        rec.cpu@,
        rec.vendor@,
        rec.model_name@,
        rec.mhz@,
        rec.cache_kb@,
        rec.cores@,
        rec.siblings@,
        last@,
    ]);
    write_row(&fields)
}

/// The object of a CPU, its members by name; the flags themselves only where asked for.
pub open spec fn cpu_json(c: Cpu, full: bool) -> JsonView {
    let flags = if full {
        seq![("flags"@, JsonView::Array(Seq::new(c.flags.len(), |i: int| JsonView::Text(c.flags[i]))))]
    } else {
        seq![]
    };
    JsonView::Object(
        seq![
            ("cache_kb"@, JsonView::Text(c.cache_kb)),
            ("cores"@, JsonView::Text(c.cores)),
            ("cpu"@, JsonView::Text(c.cpu)),
        ] + flags + seq![
            ("flags_count"@, JsonView::Int(c.flags.len() as int)),
            ("mhz"@, JsonView::Text(c.mhz)),
            ("model_name"@, JsonView::Text(c.model_name)),
            ("siblings"@, JsonView::Text(c.siblings)),
            ("vendor"@, JsonView::Text(c.vendor)),
        ],
    )
}

/// The object of a CPU.
pub fn build_json(rec: &CpuRecord, full: bool) -> (r: Json)
    ensures
        r@ == cpu_json(rec@, full),
{
    let mut members: Vec<(&str, Json)> = Vec::new();
    members.push(("cache_kb", json_text(rec.cache_kb.as_str())));
    members.push(("cores", json_text(rec.cores.as_str())));
    members.push(("cpu", json_text(rec.cpu.as_str())));
    if full {
        let list = json_texts(&rec.flags);
        assert(list@->Array_0 =~= Seq::new(rec@.flags.len(), |i: int| JsonView::Text(rec@.flags[i])));
        members.push(("flags", list));
    }
    members.push(("flags_count", Json::Unsigned(rec.flags.len() as u64)));
    members.push(("mhz", json_text(rec.mhz.as_str())));
    members.push(("model_name", json_text(rec.model_name.as_str())));
    members.push(("siblings", json_text(rec.siblings.as_str())));
    members.push(("vendor", json_text(rec.vendor.as_str())));
    assert(members.deep_view() =~= cpu_json(rec@, full)->Object_0);
    json_object(members)
}

/// The row of a CPU in the given format.
pub open spec fn cpu_row(c: Cpu, full: bool, format: Format) -> Seq<char> {
    match format {
        Format::Tsv => cpu_line(c, full),
        Format::Json => compact(cpu_json(c, full)),
    }
}

/// Lists the CPUs that the file's text tells of.
pub fn run(args: &CpuinfoArgs, raw: &str) -> (r: Report)
    ensures
        reports(
            r,
            Seq::new(cpus(raw@).len(), |i: int| cpu_row(cpus(raw@)[i], args.full, args.format)),
            args.limit,
        ),
{
    let records = parse_cpuinfo(raw);
    let ghost model = cpus(raw@);
    let ghost rows = Seq::new(model.len(), |i: int| cpu_row(model[i], args.full, args.format));
    let mut out: Vec<String> = Vec::new();
    for i in 0..records.len()
        invariant
            views(records@) == model,
            rows == Seq::new(model.len(), |i: int| cpu_row(model[i], args.full, args.format)),
            out.deep_view() =~= rows.take(i as int),
    {
        let ghost before = out.deep_view();
        assert(model[i as int] == records@[i as int]@);
        let line = match args.format {
            Format::Tsv => format_row(&records[i], args.full),
            Format::Json => write_compact(&build_json(&records[i], args.full)),
        };
        out.push(line);
        assert(out.deep_view() =~= before.push(line@));
    }
    assert(rows.take(rows.len() as int) =~= rows);
    report_rows(out, args.limit)
}

/// The pair of a line, where it has one.
pub open spec fn pair_of() -> spec_fn(Seq<char>) -> Seq<(Seq<char>, Seq<char>)> {
    |line: Seq<char>|
        match key_value(line) {
            Some(pair) => seq![pair],
            None => seq![],
        }
}

proof fn blocks_stay_open(ls: Seq<Seq<char>>)
    ensures
        open_blocks(ls).len() > 0,
    decreases ls.len(),
{
    if ls.len() > 0 {
        blocks_stay_open(ls.drop_last());
    }
}

proof fn blocks_behind_a_blank_line(a: Seq<Seq<char>>, blank: Seq<char>, b: Seq<Seq<char>>)
    requires
        trimmed(blank).len() == 0,
    ensures
        open_blocks(a + seq![blank] + b) == blocks(a) + open_blocks(b),
    decreases b.len(),
{
    blocks_stay_open(a);
    blocks_stay_open(b);
    let all = a + seq![blank] + b;
    let before = open_blocks(a);
    if b.len() == 0 {
        assert(all.drop_last() =~= a);
        assert(all.last() == blank);
        assert(open_blocks(b) =~= seq![seq![]]);
        if before.last().len() == 0 {
            assert(before.last() =~= seq![]);
            assert(before =~= before.drop_last() + seq![seq![]]);
        } else {
            assert(before.push(seq![]) =~= before + seq![seq![]]);
        }
    } else {
        let init = b.drop_last();
        blocks_behind_a_blank_line(a, blank, init);
        blocks_stay_open(init);
        assert(all.drop_last() =~= a + seq![blank] + init);
        assert(all.last() == b.last());
        assert(open_blocks(all) =~= blocks(a) + open_blocks(b));
    }
}

/// A blank line sets the CPUs before it and those behind it apart. Lines without a blank one among
/// them are one CPU, made of all their pairs, and none where there is no pair.
pub proof fn blank_lines_set_cpus_apart(a: Seq<Seq<char>>, blank: Seq<char>, b: Seq<Seq<char>>)
    requires
        trimmed(blank).len() == 0,
    ensures
        blocks(a + seq![blank] + b) == blocks(a) + blocks(b),
        (forall|i: int| 0 <= i < a.len() ==> trimmed(#[trigger] a[i]).len() > 0) ==> {
            let pairs = gathered(a, pair_of());
            &&& pairs.len() > 0 ==> blocks(a) == seq![pairs]
            &&& pairs.len() == 0 ==> blocks(a).len() == 0
        },
{
    blocks_behind_a_blank_line(a, blank, b);
    blocks_stay_open(b);
    let all = open_blocks(a + seq![blank] + b);
    assert(all.last() == open_blocks(b).last());
    assert(blocks(a + seq![blank] + b) =~= blocks(a) + blocks(b));
    if forall|i: int| 0 <= i < a.len() ==> trimmed(#[trigger] a[i]).len() > 0 {
        one_open_block(a);
        if gathered(a, pair_of()).len() == 0 {
            assert(open_blocks(a).drop_last() =~= seq![]);
        }
    }
}

proof fn one_open_block(a: Seq<Seq<char>>)
    requires
        forall|i: int| 0 <= i < a.len() ==> trimmed(#[trigger] a[i]).len() > 0,
    ensures
        open_blocks(a) == seq![gathered(a, pair_of())],
    decreases a.len(),
{
    if a.len() > 0 {
        let init = a.drop_last();
        assert forall|i: int| 0 <= i < init.len() implies trimmed(#[trigger] init[i]).len() > 0 by {
            assert(trimmed(a[i]).len() > 0);
        }
        one_open_block(init);
        assert(trimmed(a[a.len() - 1]).len() > 0);
        let pairs = gathered(init, pair_of());
        if let Some(pair) = key_value(a.last()) {
            assert(pairs + seq![pair] =~= pairs.push(pair));
        } else {
            assert(pairs + seq![] =~= pairs);
        }
        assert(open_blocks(a) =~= seq![gathered(a, pair_of())]);
    } else {
        assert(gathered(a, pair_of()) =~= seq![]);
        assert(open_blocks(a) =~= seq![gathered(a, pair_of())]);
    }
}

/// The pair that counts for a key is the last with that key.
pub open spec fn given_last(block: Seq<(Seq<char>, Seq<char>)>, i: int, key: Seq<char>) -> bool {
    &&& 0 <= i < block.len()
    &&& block[i].0 == key
    &&& forall|k: int| i < k < block.len() ==> (#[trigger] block[k]).0 != key
}

/// No pair has that key.
pub open spec fn not_given(block: Seq<(Seq<char>, Seq<char>)>, key: Seq<char>) -> bool {
    forall|k: int| 0 <= k < block.len() ==> (#[trigger] block[k]).0 != key
}

proof fn last_pair_counts(block: Seq<(Seq<char>, Seq<char>)>, i: int, key: Seq<char>)
    ensures
        given_last(block, i, key) ==> entry(block, key) == Some(block[i].1),
        not_given(block, key) ==> entry(block, key) is None,
    decreases block.len(),
{
    if block.len() > 0 {
        let init = block.drop_last();
        last_pair_counts(init, i, key);
        assert(block[block.len() - 1] == block.last());
        if given_last(block, i, key) && i < init.len() {
            assert(init[i] == block[i]);
        }
        if not_given(block, key) {
            assert forall|k: int| 0 <= k < init.len() implies (#[trigger] init[k]).0 != key by {
                assert(block[k].0 != key);
            }
        }
    }
}

/// The columns of a CPU come from the pairs of its block: the value given last for a key, without
/// line ends and tabs; `-` where none is given or it is empty. Its number is the one given, else its
/// place; of the cache size the first word counts; the flags are the words given for `flags`, else
/// for `Features`.
pub proof fn columns_come_from_the_block(block: Seq<(Seq<char>, Seq<char>)>, ordinal: int, i: int)
    requires
        0 <= i < block.len(),
        ordinal >= 0,
    ensures
        ({
            let c = record(block, ordinal);
            let v = block[i].1;
            &&& given_last(block, i, "processor"@) && v.len() > 0 ==> c.cpu == v
            &&& not_given(block, "processor"@) ==> c.cpu == decimal(ordinal as nat)
            &&& given_last(block, i, "vendor_id"@) && v.len() > 0 ==> c.vendor == in_one_field(v)
            &&& given_last(block, i, "model name"@) && v.len() > 0 ==> c.model_name == in_one_field(v)
            &&& given_last(block, i, "cpu MHz"@) && v.len() > 0 ==> c.mhz == in_one_field(v)
            &&& given_last(block, i, "cpu cores"@) && v.len() > 0 ==> c.cores == in_one_field(v)
            &&& given_last(block, i, "siblings"@) && v.len() > 0 ==> c.siblings == in_one_field(v)
            &&& given_last(block, i, "cache size"@) && words(v).len() > 0 ==> c.cache_kb == words(v)[0]
            &&& given_last(block, i, "flags"@) ==> c.flags == words(v)
            &&& not_given(block, "flags"@) && given_last(block, i, "Features"@) ==> c.flags == words(v)
            &&& not_given(block, "vendor_id"@) ==> c.vendor == "-"@
            &&& not_given(block, "model name"@) ==> c.model_name == "-"@
            &&& not_given(block, "cpu MHz"@) ==> c.mhz == "-"@
            &&& not_given(block, "cpu cores"@) ==> c.cores == "-"@
            &&& not_given(block, "siblings"@) ==> c.siblings == "-"@
            &&& not_given(block, "cache size"@) ==> c.cache_kb == "-"@
            &&& not_given(block, "flags"@) && not_given(block, "Features"@) ==> c.flags.len() == 0
        }),
{
    last_pair_counts(block, i, "processor"@);
    last_pair_counts(block, i, "vendor_id"@);
    last_pair_counts(block, i, "model name"@);
    last_pair_counts(block, i, "cpu MHz"@);
    last_pair_counts(block, i, "cpu cores"@);
    last_pair_counts(block, i, "siblings"@);
    last_pair_counts(block, i, "cache size"@);
    last_pair_counts(block, i, "flags"@);
    last_pair_counts(block, i, "Features"@);
}

/// The CPUs come in the order of their blocks, and their place counts from zero.
pub proof fn cpus_come_in_order(input: Seq<char>, i: int)
    requires
        0 <= i < blocks(lines(input)).len(),
    ensures
        cpus(input).len() == blocks(lines(input)).len(),
        cpus(input)[i] == record(blocks(lines(input))[i], i),
{
}

/// The row of a CPU shows its columns and how many flags it has, or the flags themselves; the object
/// holds the same.
pub proof fn cpus_are_shown(c: Cpu)
    ensures
        cpu_line(c, false) == row(
            seq![c.cpu, c.vendor, c.model_name, c.mhz, c.cache_kb, c.cores, c.siblings, decimal(c.flags.len())],
        ),
        c.flags.len() > 0 ==> cpu_line(c, true) == row(
            seq![c.cpu, c.vendor, c.model_name, c.mhz, c.cache_kb, c.cores, c.siblings, joined(c.flags, seq![' '])],
        ),
        ({
            let members = cpu_json(c, true)->Object_0;
            &&& cpu_json(c, true) is Object && members.len() == 9
            &&& members.contains(("cpu"@, JsonView::Text(c.cpu)))
            &&& members.contains(("vendor"@, JsonView::Text(c.vendor)))
            &&& members.contains(("model_name"@, JsonView::Text(c.model_name)))
            &&& members.contains(("mhz"@, JsonView::Text(c.mhz)))
            &&& members.contains(("cache_kb"@, JsonView::Text(c.cache_kb)))
            &&& members.contains(("cores"@, JsonView::Text(c.cores)))
            &&& members.contains(("siblings"@, JsonView::Text(c.siblings)))
            &&& members.contains(("flags_count"@, JsonView::Int(c.flags.len() as int)))
            &&& members.contains(
                ("flags"@, JsonView::Array(Seq::new(c.flags.len(), |i: int| JsonView::Text(c.flags[i])))),
            )
        }),
        cpu_json(c, false)->Object_0.len() == 8,
        forall|m: (Seq<char>, JsonView)| #[trigger] cpu_json(c, false)->Object_0.contains(m) ==> cpu_json(
            c,
            true,
        )->Object_0.contains(m),
{
    reveal_strlit(" ");
    assert(" "@ =~= seq![' ']);
    let full = cpu_json(c, true)->Object_0;
    let short = cpu_json(c, false)->Object_0;
    assert(full[0] == ("cache_kb"@, JsonView::Text(c.cache_kb)));
    assert(full[1] == ("cores"@, JsonView::Text(c.cores)));
    assert(full[2] == ("cpu"@, JsonView::Text(c.cpu)));
    assert(full[3] == ("flags"@, JsonView::Array(Seq::new(c.flags.len(), |i: int| JsonView::Text(c.flags[i])))));
    assert(full[4] == ("flags_count"@, JsonView::Int(c.flags.len() as int)));
    assert(full[5] == ("mhz"@, JsonView::Text(c.mhz)));
    assert(full[6] == ("model_name"@, JsonView::Text(c.model_name)));
    assert(full[7] == ("siblings"@, JsonView::Text(c.siblings)));
    assert(full[8] == ("vendor"@, JsonView::Text(c.vendor)));
    assert forall|m: (Seq<char>, JsonView)| #[trigger] short.contains(m) implies full.contains(m) by {
        let i = short.index_of(m);
        if i < 3 {
            assert(full[i] == m);
        } else {
            assert(full[i + 1] == m);
        }
    }
}

} // verus!
