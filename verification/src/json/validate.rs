//! Whether texts are JSON.
use super::{ndjson_records, records};
use crate::gather::{gathered, gathered_holds, gathered_step};
use crate::number::{decimal, write_u64};
use crate::order::views;
use crate::output::{answer_rows, bounded, Outcome};
use crate::value::opt;
use vstd::prelude::*;
use vstd::string::*;

verus! {

/// The arguments of the command.
#[derive(Debug)]
pub struct ValidateArgs {
    pub files: Vec<String>,
    /// Says nothing.
    pub quiet: bool,
    pub strict: bool,
    /// Each line is a JSON value of its own.
    pub lines: bool,
    pub limit: Option<usize>,
}

/// What `serde_json::from_str` says is wrong with a text, if anything: the line, the column and
/// the words.
pub uninterp spec fn json_fault(text: Seq<char>) -> Option<(int, int, Seq<char>)>;

/// What is wrong with a text as JSON, by `serde_json::from_str` into any value: the line, the
/// column and the words of the error. Which texts are JSON is named, not described.
#[verifier::external_body]
fn check_json(text: &str) -> (r: Option<(usize, usize, String)>)
    ensures
        match r {
            Some((line, column, words)) => json_fault(text@) == Some((line as int, column as int, words@)),
            None => json_fault(text@) is None,
        },
{
    match serde_json::from_str::<serde_json::Value>(text) {
        Ok(_) => None,
        Err(e) => Some((e.line(), e.column(), e.to_string())),
    }
}

/// What is said of a fault at a position.
pub open spec fn fault_text(name: Seq<char>, line: int, column: int, words: Seq<char>) -> Seq<char> {
    name + ":"@ + decimal(line as nat) + ":"@ + decimal(column as nat) + ": "@ + words
}

/// What is said of a fault at a position.
pub fn write_fault(name: &str, line: usize, column: usize, words: &str) -> (r: String)
    ensures
        r@ == fault_text(name@, line as int, column as int, words@),
{
    let mut out = name.to_owned();
    out.append(":");
    out.append(write_u64(line as u64).as_str());
    out.append(":");
    out.append(write_u64(column as u64).as_str());
    out.append(": ");
    out.append(words);
    out
}

/// What is wrong with a text, if anything.
pub open spec fn document_fault(name: Seq<char>, text: Seq<char>) -> Option<Seq<char>> {
    match json_fault(text) {
        Some((line, column, words)) => Some(fault_text(name, line, column, words)),
        None => None,
    }
}

/// Checks that a text is JSON.
pub fn validate_one(name: &str, content: &str) -> (r: Result<(), String>)
    ensures
        match r {
            Ok(_) => document_fault(name@, content@) is None,
            Err(m) => document_fault(name@, content@) == Some(m@),
        },
{
    match check_json(content) {
        Some((line, column, words)) => Err(write_fault(name, line, column, words.as_str())),
        None => Ok(()),
    }
}

/// What is wrong with a record, if anything.
pub open spec fn record_fault() -> spec_fn((Seq<char>, Seq<char>)) -> Seq<Seq<char>> {
    |record: (Seq<char>, Seq<char>)|
        match json_fault(record.1) {
            Some((_, _, words)) => seq![record.0 + ": "@ + words],
            None => seq![],
        }
}

/// What is wrong with the records of a text.
pub open spec fn record_faults(name: Seq<char>, text: Seq<char>) -> Seq<Seq<char>> {
    gathered(records(name, text), record_fault())
}

/// What is said of the fault of a record.
pub fn write_record_fault(label: &str, words: &str) -> (r: String)
    ensures
        r@ == label@ + ": "@ + words@,
{
    let mut out = label.to_owned();
    out.append(": ");
    out.append(words);
    out
}

/// Checks that each line of a text is JSON, unless it is blank: how many lines were checked, and
/// what is wrong with them.
pub fn validate_lines(name: &str, content: &str) -> (r: (usize, Vec<String>))
    ensures
        r.0 == records(name@, content@).len(),
        r.1.deep_view() == record_faults(name@, content@),
{
    let all = ndjson_records(name, content);
    let ghost model = records(name@, content@);
    let ghost f = record_fault();
    let mut out: Vec<String> = Vec::new();
    assert(out.deep_view() =~= gathered(model.take(0), f));
    for i in 0..all.len()
        invariant
            all.deep_view() == model,
            f == record_fault(),
            out.deep_view() == gathered(model.take(i as int), f),
    {
        proof {
            gathered_step(model, f, i as int);
        }
        let ghost before = out.deep_view();
        assert(model[i as int] == (all@[i as int].0@, all@[i as int].1@));
        match check_json(all[i].1) {
            Some((_, _, words)) => {
                let m = write_record_fault(all[i].0.as_str(), words.as_str());
                out.push(m);
                assert(out.deep_view() =~= before + seq![m@]);
            },
            None => {
                assert(before + seq![] =~= before);
            },
        }
    }
    assert(all.deep_view().len() == all@.len());
    assert(model.take(model.len() as int) =~= model);
    (all.len(), out)
}

/// What is said of one source: that it is valid, or what is wrong with it.
#[derive(Debug, PartialEq)]
pub struct Verdict {
    pub valid: Option<String>,
    pub faults: Vec<String>,
}

/// What a `Verdict` says.
#[verifier::ext_equal]
pub struct VerdictModel {
    pub valid: Option<Seq<char>>,
    pub faults: Seq<Seq<char>>,
}

impl View for Verdict {
    type V = VerdictModel;

    open spec fn view(&self) -> VerdictModel {
        VerdictModel { valid: opt(self.valid), faults: self.faults.deep_view() }
    }
}

/// The verdict on a source.
pub open spec fn verdict(name: Seq<char>, text: Seq<char>, by_line: bool) -> VerdictModel {
    if by_line {
        let faults = record_faults(name, text);
        VerdictModel {
            valid: if faults.len() == 0 {
                Some(name + ": valid ("@ + decimal(records(name, text).len()) + " records)"@)
            } else {
                None
            },
            faults,
        }
    } else {
        match document_fault(name, text) {
            Some(m) => VerdictModel { valid: None, faults: seq![m] },
            None => VerdictModel { valid: Some(name + ": valid"@), faults: seq![] },
        }
    }
}

/// Judges one source.
pub fn judge(name: &str, text: &str, by_line: bool) -> (r: Verdict)
    ensures
        r@ == verdict(name@, text@, by_line),
{
    if by_line {
        let (total, faults): (usize, Vec<String>) = validate_lines(name, text);
        assert(faults.deep_view().len() == faults@.len());
        let valid = if faults.len() == 0 {
            let mut line = name.to_owned();
            line.append(": valid (");
            line.append(write_u64(total as u64).as_str());
            line.append(" records)");
            Some(line)
        } else {
            None
        };
        Verdict { valid, faults }
    } else {
        match validate_one(name, text) {
            Ok(_) => {
                let mut line = name.to_owned();
                line.append(": valid");
                let none: Vec<String> = Vec::new();
                assert(none.deep_view() =~= seq![]);
                Verdict { valid: Some(line), faults: none }
            },
            Err(m) => {
                let faults = vec![m];
                assert(faults.deep_view() =~= seq![m@]);
                Verdict { valid: None, faults }
            },
        }
    }
}

/// What was written and complained of, and whether everything is valid.
#[derive(Debug, PartialEq)]
pub struct ValidateReport {
    pub lines: Vec<String>,
    /// What goes to the error output.
    pub complaints: Vec<String>,
    pub outcome: Outcome,
}

/// The line of a source that is valid.
pub open spec fn valid_line() -> spec_fn(VerdictModel) -> Seq<Seq<char>> {
    |v: VerdictModel|
        match v.valid {
            Some(line) => seq![line],
            None => seq![],
        }
}

/// What is complained of in a source that is not valid.
pub open spec fn complaint() -> spec_fn(VerdictModel) -> Seq<Seq<char>> {
    |v: VerdictModel|
        match v.valid {
            Some(_) => seq![],
            None => v.faults,
        }
}

/// Whether one of the sources is not valid.
pub open spec fn any_invalid(verdicts: Seq<VerdictModel>) -> bool {
    exists|i: int| 0 <= i < verdicts.len() && (#[trigger] verdicts[i]).valid is None
}

/// Whether a report sums verdicts up: a line for each valid source, as far as the limit goes,
/// every complaint, and an outcome that speaks of all of them. A quiet report has the outcome
/// alone. `unreadable` says that a source could not be read at all.
pub open spec fn sums_up(
    r: ValidateReport,
    verdicts: Seq<VerdictModel>,
    quiet: bool,
    limit: Option<usize>,
    unreadable: bool,
) -> bool {
    &&& r.lines.deep_view() == if quiet {
        seq![]
    } else {
        bounded(gathered(verdicts, valid_line()), limit)
    }
    &&& r.complaints.deep_view() == if quiet {
        seq![]
    } else {
        gathered(verdicts, complaint())
    }
    &&& r.outcome == if unreadable || any_invalid(verdicts) {
        Outcome::NotFound
    } else {
        Outcome::Found
    }
}

/// Sums verdicts up. `unreadable` says that a source could not be read at all.
pub fn sum_up(verdicts: &Vec<Verdict>, quiet: bool, limit: Option<usize>, unreadable: bool) -> (r: ValidateReport)
    ensures
        sums_up(r, views(verdicts@), quiet, limit, unreadable),
{
    let ghost all = views(verdicts@);
    let mut rows: Vec<String> = Vec::new();
    let mut complaints: Vec<String> = Vec::new();
    let mut invalid = false;
    assert(rows.deep_view() =~= gathered(all.take(0), valid_line()));
    assert(complaints.deep_view() =~= gathered(all.take(0), complaint()));
    for i in 0..verdicts.len()
        invariant
            all == views(verdicts@),
            rows.deep_view() == if quiet {
                seq![]
            } else {
                gathered(all.take(i as int), valid_line())
            },
            complaints.deep_view() == if quiet {
                seq![]
            } else {
                gathered(all.take(i as int), complaint())
            },
            invalid ==> any_invalid(all),
            !invalid ==> forall|k: int| 0 <= k < i ==> (#[trigger] all[k]).valid is Some,
    {
        let v = &verdicts[i];
        let ghost old_rows = rows.deep_view();
        let ghost old_complaints = complaints.deep_view();
        proof {
            gathered_step(all, valid_line(), i as int);
            gathered_step(all, complaint(), i as int);
            assert(all[i as int] == v@);
        }
        match &v.valid {
            Some(line) => {
                if !quiet {
                    let row = line.clone();
                    rows.push(row);
                    assert(rows.deep_view() =~= old_rows + seq![row@]);
                    assert(complaints.deep_view() =~= old_complaints + seq![]);
                }
            },
            None => {
                invalid = true;
                if !quiet {
                    for j in 0..v.faults.len()
                        invariant
                            complaints.deep_view() =~= old_complaints + v.faults.deep_view().take(j as int),
                    {
                        let ghost so_far = complaints.deep_view();
                        let m = v.faults[j].clone();
                        complaints.push(m);
                        assert(complaints.deep_view() =~= so_far.push(m@));
                    }
                    assert(v.faults.deep_view().take(v.faults@.len() as int) =~= v.faults.deep_view());
                    assert(rows.deep_view() =~= old_rows + seq![]);
                }
            },
        }
    }
    assert(all.take(all.len() as int) =~= all);
    let outcome = if unreadable || invalid {
        Outcome::NotFound
    } else {
        Outcome::Found
    };
    ValidateReport { lines: answer_rows(rows, limit).lines, complaints, outcome }
}

/// The verdicts on sources.
pub open spec fn verdicts(sources: Seq<(Seq<char>, Seq<char>)>, by_line: bool) -> Seq<VerdictModel> {
    Seq::new(sources.len(), |i: int| verdict(sources[i].0, sources[i].1, by_line))
}

/// Says of each source whether it is JSON. `sources` are those that could be read: the name and
/// the text of each; `unreadable` says that another could not.
pub fn run(args: &ValidateArgs, sources: &Vec<(String, String)>, unreadable: bool) -> (r: ValidateReport)
    ensures
        sums_up(r, verdicts(sources.deep_view(), args.lines), args.quiet, args.limit, unreadable),
{
    let ghost all = sources.deep_view();
    let ghost want = verdicts(all, args.lines);
    let mut out: Vec<Verdict> = Vec::new();
    for i in 0..sources.len()
        invariant
            all == sources.deep_view(),
            want == verdicts(all, args.lines),
            views(out@) =~= want.take(i as int),
    {
        let ghost before = views(out@);
        let (name, text) = &sources[i];
        assert(all[i as int] == (name@, text@));
        let v = judge(name.as_str(), text.as_str(), args.lines);
        out.push(v);
        assert(views(out@) =~= before.push(v@));
    }
    assert(want.take(want.len() as int) =~= want);
    sum_up(&out, args.quiet, args.limit, unreadable)
}

/// Where every source is valid, each has its line and nothing is complained of; each that is not
/// takes its line away.
pub proof fn valid_sources_have_a_line(verdicts: Seq<VerdictModel>)
    ensures
        !any_invalid(verdicts) ==> gathered(verdicts, valid_line()).len() == verdicts.len(),
        !any_invalid(verdicts) ==> gathered(verdicts, complaint()).len() == 0,
        any_invalid(verdicts) ==> gathered(verdicts, valid_line()).len() < verdicts.len(),
    decreases verdicts.len(),
{
    if verdicts.len() > 0 {
        let init = verdicts.drop_last();
        valid_sources_have_a_line(init);
        if any_invalid(init) {
            let i = choose|i: int| 0 <= i < init.len() && (#[trigger] init[i]).valid is None;
            assert(verdicts[i].valid is None);
        } else if any_invalid(verdicts) {
            let i = choose|i: int| 0 <= i < verdicts.len() && (#[trigger] verdicts[i]).valid is None;
            if i < init.len() {
                assert(init[i].valid is None);
            }
        } else {
            assert(verdicts[verdicts.len() - 1].valid is Some);
        }
    }
}

/// The verdict on a source that is not valid names what is wrong with it.
pub proof fn faults_are_named(name: Seq<char>, text: Seq<char>, by_line: bool)
    ensures
        verdict(name, text, by_line).valid is None <==> verdict(name, text, by_line).faults.len() > 0,
{
}

/// A document without a fault is valid, and one with a fault is told with the place and the words of
/// the fault. Lines are valid just where no record among them has a fault, and then their number is
/// told; else each record with a fault is told, and nothing more.
pub proof fn verdicts_follow_from_faults(
    name: Seq<char>,
    text: Seq<char>,
    line: int,
    column: int,
    words: Seq<char>,
    told: Seq<char>,
)
    ensures
        json_fault(text) is None ==> verdict(name, text, false).valid == Some(name + ": valid"@) && verdict(
            name,
            text,
            false,
        ).faults.len() == 0,
        json_fault(text) == Some((line, column, words)) ==> verdict(name, text, false).valid is None && verdict(
            name,
            text,
            false,
        ).faults == seq![name + ":"@ + decimal(line as nat) + ":"@ + decimal(column as nat) + ": "@ + words],
        verdict(name, text, true).valid is Some <==> forall|i: int|
            0 <= i < records(name, text).len() ==> json_fault((#[trigger] records(name, text)[i]).1) is None,
        verdict(name, text, true).valid is Some ==> verdict(name, text, true).valid == Some(
            name + ": valid ("@ + decimal(records(name, text).len()) + " records)"@,
        ),
        verdict(name, text, true).faults.contains(told) <==> exists|i: int|
            0 <= i < records(name, text).len() && json_fault((#[trigger] records(name, text)[i]).1) is Some && told
                == records(name, text)[i].0 + ": "@ + (json_fault(records(name, text)[i].1)->0).2,
{
    let all = records(name, text);
    let faults = gathered(all, record_fault());
    gathered_holds(all, record_fault(), told);
    if faults.contains(told) {
        let i = choose|i: int| 0 <= i < all.len() && record_fault()(#[trigger] all[i]).contains(told);
        assert(json_fault(all[i].1) is Some);
    }
    if exists|i: int|
        0 <= i < all.len() && json_fault((#[trigger] all[i]).1) is Some && told == all[i].0 + ": "@ + (json_fault(
            all[i].1,
        )->0).2 {
        let i = choose|i: int|
            0 <= i < all.len() && json_fault((#[trigger] all[i]).1) is Some && told == all[i].0 + ": "@ + (json_fault(
                all[i].1,
            )->0).2;
        assert(record_fault()(all[i])[0] == told);
    }
    if faults.len() == 0 {
        assert forall|i: int| 0 <= i < all.len() implies json_fault((#[trigger] all[i]).1) is None by {
            if json_fault(all[i].1) is Some {
                let t = record_fault()(all[i])[0];
                gathered_holds(all, record_fault(), t);
                assert(record_fault()(all[i]).contains(t));
            }
        }
    } else {
        let t = faults[0];
        gathered_holds(all, record_fault(), t);
        let i = choose|i: int| 0 <= i < all.len() && record_fault()(#[trigger] all[i]).contains(t);
        assert(json_fault(all[i].1) is Some);
    }
}

/// Every fault of an invalid source is told, and nothing of a valid one is; every valid source has its
/// line.
pub proof fn sources_are_told_apart(verdicts: Seq<VerdictModel>, told: Seq<char>)
    ensures
        gathered(verdicts, complaint()).contains(told) <==> exists|i: int|
            0 <= i < verdicts.len() && (#[trigger] verdicts[i]).valid is None && verdicts[i].faults.contains(told),
        gathered(verdicts, valid_line()).contains(told) <==> exists|i: int|
            0 <= i < verdicts.len() && (#[trigger] verdicts[i]).valid == Some(told),
{
    gathered_holds(verdicts, complaint(), told);
    gathered_holds(verdicts, valid_line(), told);
    if exists|i: int| 0 <= i < verdicts.len() && (#[trigger] verdicts[i]).valid is None && verdicts[i].faults.contains(told) {
        let i = choose|i: int|
            0 <= i < verdicts.len() && (#[trigger] verdicts[i]).valid is None && verdicts[i].faults.contains(told);
        assert(complaint()(verdicts[i]).contains(told));
    }
    if exists|i: int| 0 <= i < verdicts.len() && (#[trigger] verdicts[i]).valid == Some(told) {
        let i = choose|i: int| 0 <= i < verdicts.len() && (#[trigger] verdicts[i]).valid == Some(told);
        assert(valid_line()(verdicts[i])[0] == told);
    }
}

} // verus!
