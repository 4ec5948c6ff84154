//! The mount table, from `/proc/self/mountinfo` or `/proc/mounts`.
use crate::format::{compact, write_compact};
use crate::gather::{gathered, gathered_holds, gathered_step};
use crate::order::views;
use crate::output::{report_rows, reports, Report};
use crate::text::{
    lines, pieces, row, row_splits_back, same, split_lines, split_words, white, words, words_are_plain, write_row,
};
use crate::value::{json_object, json_text, opt, Json, JsonView};
use vstd::prelude::*;
use vstd::string::*;

verus! {

/// How rows are written.
#[derive(Clone, Copy, Debug, PartialEq, Eq, Structural)]
pub enum Format {
    /// Columns with tabs between them.
    Tsv,
    /// One JSON object per line.
    Json,
}

/// The arguments of the command.
#[derive(Debug)]
pub struct MountsArgs {
    /// Keeps the mounts of one type of filesystem.
    pub fs_type: Option<String>,
    /// Reads the simpler `/proc/mounts`.
    pub mounts: bool,
    pub format: Format,
    pub limit: Option<usize>,
}

/// A line of `/proc/self/mountinfo`.
#[derive(Debug, PartialEq)]
pub struct MountInfo {
    pub mount_id: String,
    pub parent: String,
    pub device: String,
    pub root: String,
    pub mount_point: String,
    pub options: String,
    pub fs_type: String,
    pub source: String,
}

impl View for MountInfo {
    /// The eight fields in their order.
    type V = Seq<Seq<char>>;

    open spec fn view(&self) -> Seq<Seq<char>> {
        seq![
            self.mount_id@,
            self.parent@,
            self.device@,
            self.root@,
            self.mount_point@,
            self.options@,
            self.fs_type@,
            self.source@,
        ]
    }
}

/// A line of `/proc/mounts`.
#[derive(Debug, PartialEq)]
pub struct MountEntry {
    pub device: String,
    pub mount_point: String,
    pub fs_type: String,
    pub options: String,
}

impl View for MountEntry {
    /// The four fields in their order.
    type V = Seq<Seq<char>>;

    open spec fn view(&self) -> Seq<Seq<char>> {
        seq![self.device@, self.mount_point@, self.fs_type@, self.options@]
    }
}

/// Where the first of the words stands that is a lone `-`.
pub open spec fn separator(tokens: Seq<Seq<char>>) -> Option<int>
    decreases tokens.len(),
{
    if tokens.len() == 0 {
        None
    } else if tokens[0] == "-"@ {
        Some(0)
    } else {
        match separator(tokens.drop_first()) {
            Some(i) => Some(i + 1),
            None => None,
        }
    }
}

/// The fields of a line: six before the separator, with any number of others behind them, and
/// two right after it. Other lines have none.
pub open spec fn info_fields() -> spec_fn(Seq<char>) -> Seq<Seq<Seq<char>>> {
    |line: Seq<char>|
        {
            let t = words(line);
            match separator(t) {
                Some(sep) => if sep < 6 || t.len() - sep - 1 < 2 {
                    seq![]
                } else {
                    seq![seq![t[0], t[1], t[2], t[3], t[4], t[5], t[sep + 1], t[sep + 2]]]
                },
                None => seq![],
            }
        }
}

/// The mounts of `/proc/self/mountinfo`.
pub open spec fn infos(input: Seq<char>) -> Seq<Seq<Seq<char>>> {
    gathered(lines(input), info_fields())
}

fn find_separator(tokens: &Vec<&str>) -> (r: Option<usize>)
    ensures
        match r {
            Some(i) => separator(tokens.deep_view()) == Some(i as int) && i < tokens@.len(),
            None => separator(tokens.deep_view()) is None,
        },
{
    let ghost all = tokens.deep_view();
    let mut i: usize = 0;
    assert(all.skip(0) =~= all);
    while i < tokens.len()
        invariant
            all == tokens.deep_view(),
            i <= tokens@.len(),
            match separator(all.skip(i as int)) {
                Some(k) => separator(all) == Some(i + k),
                None => separator(all) is None,
            },
        decreases tokens@.len() - i,
    {
        assert(all.skip(i as int)[0] == tokens@[i as int]@);
        assert(all.skip(i as int).drop_first() =~= all.skip(i + 1));
        if same(tokens[i], "-") {
            return Some(i);
        }
        i += 1;
    }
    None
}

fn read_info(line: &str) -> (r: Option<MountInfo>)
    ensures
        info_fields()(line@) == match r {
            Some(m) => seq![m@],
            None => seq![],
        },
{
    let t = split_words(line);
    let ghost model = words(line@);
    assert(model.len() == t@.len());
    assert(forall|i: int| 0 <= i < model.len() ==> model[i] == #[trigger] t@[i]@);
    match find_separator(&t) {
        Some(sep) => {
            if sep < 6 || t.len() - sep - 1 < 2 {
                return None;
            }
            let m = MountInfo {
                mount_id: t[0].to_owned(),
                parent: t[1].to_owned(),
                device: t[2].to_owned(),
                root: t[3].to_owned(),
                mount_point: t[4].to_owned(),
                options: t[5].to_owned(),
                fs_type: t[sep + 1].to_owned(),
                source: t[sep + 2].to_owned(),
            };
            assert(m@ =~= seq![
                model[0],
                model[1],
                model[2],
                model[3],
                model[4],
                model[5],
                model[sep + 1],
                model[sep + 2],
            ]);
            Some(m)
        },
        None => None,
    }
}

/// Reads `/proc/self/mountinfo`. Lines of another shape are left out.
pub fn parse_mountinfo(input: &str) -> (r: Vec<MountInfo>)
    ensures
        views(r@) == infos(input@),
{
    let all = split_lines(input);
    let ghost model = lines(input@);
    let ghost f = info_fields();
    let mut out: Vec<MountInfo> = Vec::new();
    assert(views(out@) =~= gathered(model.take(0), f));
    for i in 0..all.len()
        invariant
            all.deep_view() == model,
            f == info_fields(),
            views(out@) == gathered(model.take(i as int), f),
    {
        proof {
            gathered_step(model, f, i as int);
        }
        let ghost before = views(out@);
        assert(all@[i as int]@ == model[i as int]);
        match read_info(all[i]) {
            Some(m) => {
                out.push(m);
                assert(views(out@) =~= before + seq![m@]);
            },
            None => {
                assert(before + seq![] =~= before);
            },
        }
    }
    assert(all.deep_view().len() == all@.len());
    assert(model.take(model.len() as int) =~= model);
    out
}

/// The first four words of a line; shorter lines have none.
pub open spec fn entry_fields() -> spec_fn(Seq<char>) -> Seq<Seq<Seq<char>>> {
    |line: Seq<char>|
        {
            let t = words(line);
            if t.len() < 4 {
                seq![]
            } else {
                seq![seq![t[0], t[1], t[2], t[3]]]
            }
        }
}

/// The mounts of `/proc/mounts`.
pub open spec fn entries(input: Seq<char>) -> Seq<Seq<Seq<char>>> {
    gathered(lines(input), entry_fields())
}

/// Reads `/proc/mounts`. Lines that are too short are left out.
pub fn parse_mounts(input: &str) -> (r: Vec<MountEntry>)
    ensures
        views(r@) == entries(input@),
{
    let all = split_lines(input);
    let ghost model = lines(input@);
    let ghost f = entry_fields();
    let mut out: Vec<MountEntry> = Vec::new();
    assert(views(out@) =~= gathered(model.take(0), f));
    for i in 0..all.len()
        invariant
            all.deep_view() == model,
            f == entry_fields(),
            views(out@) == gathered(model.take(i as int), f),
    {
        proof {
            gathered_step(model, f, i as int);
        }
        let ghost before = views(out@);
        assert(all@[i as int]@ == model[i as int]);
        let t = split_words(all[i]);
        let ghost tokens = words(model[i as int]);
        assert(tokens.len() == t@.len());
        assert(forall|k: int| 0 <= k < tokens.len() ==> tokens[k] == #[trigger] t@[k]@);
        if t.len() >= 4 {
            let m = MountEntry {
                device: t[0].to_owned(),
                mount_point: t[1].to_owned(),
                fs_type: t[2].to_owned(),
                options: t[3].to_owned(),
            };
            assert(m@ =~= seq![tokens[0], tokens[1], tokens[2], tokens[3]]);
            out.push(m);
            assert(views(out@) =~= before + seq![m@]);
        } else {
            assert(before + seq![] =~= before);
        }
    }
    assert(all.deep_view().len() == all@.len());
    assert(model.take(model.len() as int) =~= model);
    out
}

/// The object of a line of `/proc/self/mountinfo`, its members by name.
pub open spec fn info_json(m: Seq<Seq<char>>) -> JsonView {
    JsonView::Object(
        seq![
            ("device"@, JsonView::Text(m[2])),
            ("fs_type"@, JsonView::Text(m[6])),
            ("mount_id"@, JsonView::Text(m[0])),
            ("mount_point"@, JsonView::Text(m[4])),
            ("options"@, JsonView::Text(m[5])),
            ("parent"@, JsonView::Text(m[1])),
            ("root"@, JsonView::Text(m[3])),
            ("source"@, JsonView::Text(m[7])),
        ],
    )
}

/// The object of a line of `/proc/self/mountinfo`.
pub fn mount_info_json(m: &MountInfo) -> (r: Json)
    ensures
        r@ == info_json(m@),
{
    let members = vec![
        ("device", json_text(m.device.as_str())),
        ("fs_type", json_text(m.fs_type.as_str())),
        ("mount_id", json_text(m.mount_id.as_str())),
        ("mount_point", json_text(m.mount_point.as_str())),
        ("options", json_text(m.options.as_str())),
        ("parent", json_text(m.parent.as_str())),
        ("root", json_text(m.root.as_str())),
        ("source", json_text(m.source.as_str())),
    ];
    assert(members.deep_view() =~= info_json(m@)->Object_0);
    json_object(members)
}

/// The object of a line of `/proc/mounts`, its members by name.
pub open spec fn entry_json(m: Seq<Seq<char>>) -> JsonView {
    JsonView::Object(
        seq![
            ("device"@, JsonView::Text(m[0])),
            ("fs_type"@, JsonView::Text(m[2])),
            ("mount_point"@, JsonView::Text(m[1])),
            ("options"@, JsonView::Text(m[3])),
        ],
    )
}

/// The object of a line of `/proc/mounts`.
pub fn mount_entry_json(m: &MountEntry) -> (r: Json)
    ensures
        r@ == entry_json(m@),
{
    let members = vec![
        ("device", json_text(m.device.as_str())),
        ("fs_type", json_text(m.fs_type.as_str())),
        ("mount_point", json_text(m.mount_point.as_str())),
        ("options", json_text(m.options.as_str())),
    ];
    assert(members.deep_view() =~= entry_json(m@)->Object_0);
    json_object(members)
}

/// Whether a filesystem is of the type asked for, if any.
pub open spec fn type_wanted(fs_type: Seq<char>, wanted: Option<Seq<char>>) -> bool {
    match wanted {
        Some(t) => fs_type == t,
        None => true,
    }
}

fn is_wanted(fs_type: &str, wanted: &Option<String>) -> (r: bool)
    ensures
        r == type_wanted(fs_type@, opt(*wanted)),
{
    match wanted {
        Some(t) => same(fs_type, t.as_str()),
        None => true,
    }
}

/// The row of a mount of `/proc/self/mountinfo`, where its type is wanted.
pub open spec fn info_row(wanted: Option<Seq<char>>, format: Format) -> spec_fn(Seq<Seq<char>>) -> Seq<Seq<char>> {
    |m: Seq<Seq<char>>|
        if type_wanted(m[6], wanted) {
            seq![
                match format {
                    Format::Tsv => row(m),
                    Format::Json => compact(info_json(m)),
                },
            ]
        } else {
            seq![]
        }
}

/// The row of a mount of `/proc/mounts`, where its type is wanted.
pub open spec fn entry_row(wanted: Option<Seq<char>>, format: Format) -> spec_fn(Seq<Seq<char>>) -> Seq<Seq<char>> {
    |m: Seq<Seq<char>>|
        if type_wanted(m[2], wanted) {
            seq![
                match format {
                    Format::Tsv => row(m),
                    Format::Json => compact(entry_json(m)),
                },
            ]
        } else {
            seq![]
        }
}

fn write_info(m: &MountInfo, format: Format) -> (r: String)
    ensures
        r@ == match format {
            Format::Tsv => row(m@),
            Format::Json => compact(info_json(m@)),
        },
{
    match format {
        Format::Tsv => {
            let fields = vec![
                m.mount_id.as_str(),
                m.parent.as_str(),
                m.device.as_str(),
                m.root.as_str(),
                m.mount_point.as_str(),
                m.options.as_str(),
                m.fs_type.as_str(),
                m.source.as_str(),
            ];
            assert(fields.deep_view() =~= m@);
            write_row(&fields)
        },
        Format::Json => write_compact(&mount_info_json(m)),
    }
}

fn write_entry(m: &MountEntry, format: Format) -> (r: String)
    ensures
        r@ == match format {
            Format::Tsv => row(m@),
            Format::Json => compact(entry_json(m@)),
        },
{
    match format {
        Format::Tsv => {
            let fields = vec![m.device.as_str(), m.mount_point.as_str(), m.fs_type.as_str(), m.options.as_str()];
            assert(fields.deep_view() =~= m@);
            write_row(&fields)
        },
        Format::Json => write_compact(&mount_entry_json(m)),
    }
}

/// The rows of the mount table, from the text of the file that the arguments call for.
pub open spec fn mount_rows(args: &MountsArgs, raw: Seq<char>) -> Seq<Seq<char>> {
    if args.mounts {
        gathered(entries(raw), entry_row(opt(args.fs_type), args.format))
    } else {
        gathered(infos(raw), info_row(opt(args.fs_type), args.format))
    }
}

fn info_lines(args: &MountsArgs, raw: &str) -> (r: Vec<String>)
    ensures
        r.deep_view() == gathered(infos(raw@), info_row(opt(args.fs_type), args.format)),
{
    let all = parse_mountinfo(raw);
    let ghost model = infos(raw@);
    let ghost f = info_row(opt(args.fs_type), args.format);
    let mut out: Vec<String> = Vec::new();
    assert(out.deep_view() =~= gathered(model.take(0), f));
    for i in 0..all.len()
        invariant
            views(all@) == model,
            f == info_row(opt(args.fs_type), args.format),
            out.deep_view() == gathered(model.take(i as int), f),
    {
        proof {
            gathered_step(model, f, i as int);
        }
        let ghost before = out.deep_view();
        let m = &all[i];
        assert(m@ == model[i as int]);
        if is_wanted(m.fs_type.as_str(), &args.fs_type) {
            let line = write_info(m, args.format);
            out.push(line);
            assert(out.deep_view() =~= before + seq![line@]);
            assert(f(m@) =~= seq![line@]);
        } else {
            assert(before + seq![] =~= before);
        }
    }
    assert(model.take(model.len() as int) =~= model);
    out
}

fn entry_lines(args: &MountsArgs, raw: &str) -> (r: Vec<String>)
    ensures
        r.deep_view() == gathered(entries(raw@), entry_row(opt(args.fs_type), args.format)),
{
    let all = parse_mounts(raw);
    let ghost model = entries(raw@);
    let ghost f = entry_row(opt(args.fs_type), args.format);
    let mut out: Vec<String> = Vec::new();
    assert(out.deep_view() =~= gathered(model.take(0), f));
    for i in 0..all.len()
        invariant
            views(all@) == model,
            f == entry_row(opt(args.fs_type), args.format),
            out.deep_view() == gathered(model.take(i as int), f),
    {
        proof {
            gathered_step(model, f, i as int);
        }
        let ghost before = out.deep_view();
        let m = &all[i];
        assert(m@ == model[i as int]);
        if is_wanted(m.fs_type.as_str(), &args.fs_type) {
            let line = write_entry(m, args.format);
            out.push(line);
            assert(out.deep_view() =~= before + seq![line@]);
            assert(f(m@) =~= seq![line@]);
        } else {
            assert(before + seq![] =~= before);
        }
    }
    assert(model.take(model.len() as int) =~= model);
    out
}

/// Lists the mounts. `raw` is the text of `/proc/mounts` where the arguments call for it, else
/// that of `/proc/self/mountinfo`.
pub fn run(args: &MountsArgs, raw: &str) -> (r: Report)
    ensures
        reports(r, mount_rows(args, raw@), args.limit),
{
    let rows = if args.mounts {
        entry_lines(args, raw)
    } else {
        info_lines(args, raw)
    };
    report_rows(rows, args.limit)
}

/// The columns of a mount come back when its row is split at its tabs: no field can break the
/// row.
pub proof fn mount_rows_split_back(line: Seq<char>)
    ensures
        info_fields()(line).len() == 1 ==> pieces(row(info_fields()(line)[0]), '\t') == info_fields()(line)[0]
            && info_fields()(line)[0].len() == 8,
        entry_fields()(line).len() == 1 ==> pieces(row(entry_fields()(line)[0]), '\t') == entry_fields()(line)[0]
            && entry_fields()(line)[0].len() == 4,
{
    let t = words(line);
    words_are_plain(line);
    separator_fits(t);
    assert forall|i: int| 0 <= i < t.len() implies !(#[trigger] t[i]).contains('\t') by {
        assert forall|k: int| 0 <= k < t[i].len() implies t[i][k] != '\t' by {
            assert(!white(t[i][k]));
        }
    }
    if info_fields()(line).len() == 1 {
        row_splits_back(info_fields()(line)[0]);
    }
    if entry_fields()(line).len() == 1 {
        row_splits_back(entry_fields()(line)[0]);
    }
}

proof fn separator_fits(tokens: Seq<Seq<char>>)
    ensures
        separator(tokens) is Some ==> 0 <= separator(tokens)->0 < tokens.len(),
    decreases tokens.len(),
{
    if tokens.len() > 0 {
        separator_fits(tokens.drop_first());
    }
}

/// The first lone `-` stands behind the words that are none.
proof fn separator_after(before: Seq<Seq<char>>, after: Seq<Seq<char>>)
    requires
        !before.contains("-"@),
    ensures
        separator(before + seq!["-"@] + after) == Some(before.len() as int),
    decreases before.len(),
{
    let all = before + seq!["-"@] + after;
    if before.len() > 0 {
        let rest = before.drop_first();
        assert(before[0] != "-"@) by {
            assert(before.contains(before[0]));
        }
        assert forall|i: int| 0 <= i < rest.len() implies rest[i] != "-"@ by {
            assert(before.contains(before[i + 1]));
        }
        separator_after(rest, after);
        assert(all.drop_first() =~= rest + seq!["-"@] + after);
        assert(all[0] == before[0]);
    } else {
        assert(all[0] == "-"@);
    }
}

/// However many optional fields a line has, its columns stay in their places.
pub proof fn optional_fields_change_nothing(
    line: Seq<char>,
    fixed: Seq<Seq<char>>,
    optional: Seq<Seq<char>>,
    rest: Seq<Seq<char>>,
)
    requires
        words(line) == fixed + optional + seq!["-"@] + rest,
        fixed.len() == 6,
        !fixed.contains("-"@),
        !optional.contains("-"@),
        rest.len() >= 2,
    ensures
        info_fields()(line) == seq![fixed + rest.take(2)],
{
    let before = fixed + optional;
    assert forall|i: int| 0 <= i < before.len() implies before[i] != "-"@ by {
        if i < 6 {
            assert(fixed.contains(fixed[i]));
        } else {
            assert(optional.contains(optional[i - 6]));
        }
    }
    separator_after(before, rest);
    let t = words(line);
    let sep = before.len() as int;
    assert(t[sep + 1] == rest[0] && t[sep + 2] == rest[1]);
    assert(fixed + rest.take(2) =~= seq![t[0], t[1], t[2], t[3], t[4], t[5], t[sep + 1], t[sep + 2]]);
}

/// The fields of a line of `/proc/mounts` are its first four words; a shorter line has none.
pub proof fn entries_are_the_first_words(line: Seq<char>)
    ensures
        words(line).len() >= 4 ==> entry_fields()(line) == seq![words(line).take(4)],
        words(line).len() < 4 ==> entry_fields()(line).len() == 0,
{
    if words(line).len() >= 4 {
        assert(words(line).take(4) =~= seq![words(line)[0], words(line)[1], words(line)[2], words(line)[3]]);
    }
}

/// Every mount of the type asked for has a row, of any type where none is asked for, and no other
/// mount has one; the rows come in the order of the file.
pub proof fn mounts_of_the_type_are_listed(args: &MountsArgs, raw: Seq<char>, m: Seq<Seq<char>>, l: int)
    requires
        0 <= l < lines(raw).len(),
    ensures
        !args.mounts && args.format == Format::Tsv && info_fields()(lines(raw)[l]) == seq![m] && (args.fs_type is None
            || m[6] == args.fs_type->0@) ==> mount_rows(args, raw).contains(row(m)),
        args.mounts && args.format == Format::Tsv && entry_fields()(lines(raw)[l]) == seq![m] && (args.fs_type is None
            || m[2] == args.fs_type->0@) ==> mount_rows(args, raw).contains(row(m)),
        !args.mounts && args.format == Format::Json && info_fields()(lines(raw)[l]) == seq![m] && (args.fs_type is None
            || m[6] == args.fs_type->0@) ==> mount_rows(args, raw).contains(compact(info_json(m))),
        args.mounts && args.format == Format::Json && entry_fields()(lines(raw)[l]) == seq![m] && (args.fs_type is None
            || m[2] == args.fs_type->0@) ==> mount_rows(args, raw).contains(compact(entry_json(m))),
{
    let wanted = opt(args.fs_type);
    if !args.mounts && info_fields()(lines(raw)[l]) == seq![m] {
        gathered_holds(lines(raw), info_fields(), m);
        assert(info_fields()(lines(raw)[l])[0] == m);
        assert(info_fields()(lines(raw)[l]).contains(m));
        let all = infos(raw);
        let k = all.index_of(m);
        let f = info_row(wanted, args.format);
        gathered_holds(all, f, row(m));
        gathered_holds(all, f, compact(info_json(m)));
        assert(all[k] == m);
        if type_wanted(m[6], wanted) {
            assert(f(all[k]).contains(f(all[k])[0]));
        }
    }
    if args.mounts && entry_fields()(lines(raw)[l]) == seq![m] {
        gathered_holds(lines(raw), entry_fields(), m);
        assert(entry_fields()(lines(raw)[l])[0] == m);
        assert(entry_fields()(lines(raw)[l]).contains(m));
        let all = entries(raw);
        let k = all.index_of(m);
        let f = entry_row(wanted, args.format);
        gathered_holds(all, f, row(m));
        gathered_holds(all, f, compact(entry_json(m)));
        assert(all[k] == m);
        if type_wanted(m[2], wanted) {
            assert(f(all[k]).contains(f(all[k])[0]));
        }
    }
}

/// A row comes from a mount of the type asked for.
pub proof fn rows_come_from_mounts_of_the_type(args: &MountsArgs, raw: Seq<char>, line: Seq<char>)
    requires
        mount_rows(args, raw).contains(line),
    ensures
        !args.mounts ==> exists|l: int|
            0 <= l < lines(raw).len() && info_fields()(#[trigger] lines(raw)[l]).len() == 1 && (args.fs_type is Some
                ==> info_fields()(lines(raw)[l])[0][6] == args.fs_type->0@),
        args.mounts ==> exists|l: int|
            0 <= l < lines(raw).len() && entry_fields()(#[trigger] lines(raw)[l]).len() == 1 && (args.fs_type is Some
                ==> entry_fields()(lines(raw)[l])[0][2] == args.fs_type->0@),
{
    let wanted = opt(args.fs_type);
    if !args.mounts {
        let f = info_row(wanted, args.format);
        gathered_holds(infos(raw), f, line);
        let k = choose|k: int| 0 <= k < infos(raw).len() && f(#[trigger] infos(raw)[k]).contains(line);
        let m = infos(raw)[k];
        gathered_holds(lines(raw), info_fields(), m);
        assert(infos(raw).contains(m));
        let l = choose|l: int| 0 <= l < lines(raw).len() && info_fields()(#[trigger] lines(raw)[l]).contains(m);
        assert(info_fields()(lines(raw)[l])[0] == m);
    } else {
        let f = entry_row(wanted, args.format);
        gathered_holds(entries(raw), f, line);
        let k = choose|k: int| 0 <= k < entries(raw).len() && f(#[trigger] entries(raw)[k]).contains(line);
        let m = entries(raw)[k];
        gathered_holds(lines(raw), entry_fields(), m);
        assert(entries(raw).contains(m));
        let l = choose|l: int| 0 <= l < lines(raw).len() && entry_fields()(#[trigger] lines(raw)[l]).contains(m);
        assert(entry_fields()(lines(raw)[l])[0] == m);
    }
}

/// The object of a mount holds its columns under their names.
pub proof fn mounts_are_named(m: Seq<Seq<char>>)
    ensures
        m.len() == 8 ==> {
            let members = info_json(m)->Object_0;
            &&& info_json(m) is Object && members.len() == 8
            &&& members.contains(("mount_id"@, JsonView::Text(m[0])))
            &&& members.contains(("parent"@, JsonView::Text(m[1])))
            &&& members.contains(("device"@, JsonView::Text(m[2])))
            &&& members.contains(("root"@, JsonView::Text(m[3])))
            &&& members.contains(("mount_point"@, JsonView::Text(m[4])))
            &&& members.contains(("options"@, JsonView::Text(m[5])))
            &&& members.contains(("fs_type"@, JsonView::Text(m[6])))
            &&& members.contains(("source"@, JsonView::Text(m[7])))
        },
        m.len() == 4 ==> {
            let members = entry_json(m)->Object_0;
            &&& entry_json(m) is Object && members.len() == 4
            &&& members.contains(("device"@, JsonView::Text(m[0])))
            &&& members.contains(("mount_point"@, JsonView::Text(m[1])))
            &&& members.contains(("fs_type"@, JsonView::Text(m[2])))
            &&& members.contains(("options"@, JsonView::Text(m[3])))
        },
{
    let a = info_json(m)->Object_0;
    assert(a[0] == ("device"@, JsonView::Text(m[2])));
    assert(a[1] == ("fs_type"@, JsonView::Text(m[6])));
    assert(a[2] == ("mount_id"@, JsonView::Text(m[0])));
    assert(a[3] == ("mount_point"@, JsonView::Text(m[4])));
    assert(a[4] == ("options"@, JsonView::Text(m[5])));
    assert(a[5] == ("parent"@, JsonView::Text(m[1])));
    assert(a[6] == ("root"@, JsonView::Text(m[3])));
    assert(a[7] == ("source"@, JsonView::Text(m[7])));
    let b = entry_json(m)->Object_0;
    assert(b[0] == ("device"@, JsonView::Text(m[0])));
    assert(b[1] == ("fs_type"@, JsonView::Text(m[2])));
    assert(b[2] == ("mount_point"@, JsonView::Text(m[1])));
    assert(b[3] == ("options"@, JsonView::Text(m[3])));
}

} // verus!
