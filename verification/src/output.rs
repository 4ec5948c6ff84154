//! What a command writes: rows under a limit, headers, and how it ended.
use vstd::prelude::*;

verus! {

/// How a command ended that did not fail.
#[derive(Clone, Copy, Debug, PartialEq, Eq, Structural)]
pub enum Outcome {
    Found,
    NotFound,
}

/// Why a command failed, in words.
#[derive(Debug, PartialEq)]
pub struct Error {
    pub message: String,
}

/// What a command wrote, line by line, and how it ended.
#[derive(Debug, PartialEq)]
pub struct Report {
    pub lines: Vec<String>,
    pub outcome: Outcome,
}

/// The rows that a limit lets through: the first ones.
pub open spec fn bounded(rows: Seq<Seq<char>>, limit: Option<usize>) -> Seq<Seq<char>> {
    match limit {
        Some(n) => if n < rows.len() {
            rows.take(n as int)
        } else {
            rows
        },
        None => rows,
    }
}

/// What was written so far, and how many more rows the limit lets through.
pub struct Page {
    pub lines: Seq<Seq<char>>,
    pub left: Option<usize>,
}

impl Page {
    pub open spec fn blank(limit: Option<usize>) -> Page {
        Page { lines: seq![], left: limit }
    }

    /// The page after `rows` were written: those that the limit lets through are on it.
    pub open spec fn with_rows(self, rows: Seq<Seq<char>>) -> Page {
        let kept = bounded(rows, self.left);
        Page {
            lines: self.lines + kept,
            left: match self.left {
                Some(n) => Some((n - kept.len()) as usize),
                None => None,
            },
        }
    }

    /// The page after a header, which the limit does not count.
    pub open spec fn with_header(self, line: Seq<char>) -> Page {
        Page { lines: self.lines.push(line), left: self.left }
    }
}

/// Rows written in two lots come out as if they were written in one.
pub proof fn rows_in_lots(page: Page, a: Seq<Seq<char>>, b: Seq<Seq<char>>)
    ensures
        page.with_rows(a).with_rows(b) == page.with_rows(a + b),
{
    let once = page.with_rows(a + b);
    let twice = page.with_rows(a).with_rows(b);
    assert(once.lines =~= twice.lines);
}

/// A page at its limit takes no more rows.
pub proof fn full_page_stays(page: Page, rows: Seq<Seq<char>>)
    requires
        page.left == Some(0usize),
    ensures
        page.with_rows(rows) == page,
{
    assert(page.with_rows(rows).lines =~= page.lines);
}

/// Rows that a full page would not take can be left out.
pub proof fn rows_past_the_limit(page: Page, rows: Seq<Seq<char>>, i: int)
    requires
        0 <= i <= rows.len(),
        page.with_rows(rows.take(i)).left == Some(0usize),
    ensures
        page.with_rows(rows) == page.with_rows(rows.take(i)),
{
    rows_in_lots(page, rows.take(i), rows.skip(i));
    assert(rows.take(i) + rows.skip(i) =~= rows);
    full_page_stays(page.with_rows(rows.take(i)), rows.skip(i));
}

/// No more rows are written than the limit says, and all of them where it is no less.
pub proof fn limit_holds(rows: Seq<Seq<char>>, limit: usize)
    ensures
        bounded(rows, Some(limit)).len() <= limit,
        bounded(rows, Some(limit)).is_prefix_of(rows),
        rows.len() <= limit ==> bounded(rows, Some(limit)) == rows,
        bounded(rows, None) == rows,
{
}

/// Collects lines, and stops at a number of rows.
pub struct BoundedWriter {
    pub lines: Vec<String>,
    pub left: Option<usize>,
}

impl View for BoundedWriter {
    type V = Page;

    open spec fn view(&self) -> Page {
        Page { lines: self.lines.deep_view(), left: self.left }
    }
}

impl BoundedWriter {
    pub fn new(limit: Option<usize>) -> (w: BoundedWriter)
        ensures
            w@ == Page::blank(limit),
    {
        let w = BoundedWriter { lines: Vec::new(), left: limit };
        assert(w.lines.deep_view() =~= seq![]);
        w
    }

    /// Writes one row, unless the limit is reached; says whether it did.
    pub fn write_line(&mut self, line: String) -> (written: bool)
        ensures
            final(self)@ == old(self)@.with_rows(seq![line@]),
            written == (old(self).left != Some(0usize)),
            !written ==> final(self)@ == old(self)@,
    {
        let ghost before = self@;
        match self.left {
            Some(n) => {
                if n == 0 {
                    assert(before.with_rows(seq![line@]).lines =~= before.lines);
                    return false;
                }
                self.left = Some(n - 1);
            },
            None => {},
        }
        self.lines.push(line);
        assert(self@.lines =~= before.with_rows(seq![line@]).lines);
        true
    }

    /// Writes a line that the limit does not count.
    pub fn write_decoration(&mut self, line: String)
        ensures
            final(self)@ == old(self)@.with_header(line@),
    {
        let ghost before = self@;
        self.lines.push(line);
        assert(self@.lines =~= before.lines.push(line@));
    }

    /// Writes rows until the limit is reached.
    pub fn write_rows(&mut self, rows: Vec<String>)
        ensures
            final(self)@ == old(self)@.with_rows(rows.deep_view()),
    {
        let ghost start = self@;
        let ghost all = rows.deep_view();
        assert(start.with_rows(all.take(0)).lines =~= start.lines);
        for row in it: rows
            invariant
                it.seq() == rows@,
                all == rows.deep_view(),
                self@ == start.with_rows(all.take(it.index())),
        {
            proof {
                rows_in_lots(start, all.take(it.index()), seq![row@]);
                assert(all.take(it.index() + 1) =~= all.take(it.index()) + seq![row@]);
            }
            self.write_line(row);
        }
        assert(all.take(all.len() as int) =~= all);
    }
}

/// What a command reports that finds what it writes.
pub open spec fn reports(r: Report, rows: Seq<Seq<char>>, limit: Option<usize>) -> bool {
    &&& r.lines.deep_view() == bounded(rows, limit)
    &&& r.outcome == if bounded(rows, limit).len() > 0 {
        Outcome::Found
    } else {
        Outcome::NotFound
    }
}

/// What a command reports that has found something where there is a row at all, even one
/// that the limit keeps back.
pub open spec fn answers(r: Report, rows: Seq<Seq<char>>, limit: Option<usize>) -> bool {
    &&& r.lines.deep_view() == bounded(rows, limit)
    &&& r.outcome == if rows.len() > 0 {
        Outcome::Found
    } else {
        Outcome::NotFound
    }
}

/// How a command ended that found something where it wrote something.
pub open spec fn found_if(written: bool) -> Outcome {
    if written {
        Outcome::Found
    } else {
        Outcome::NotFound
    }
}

/// Writes rows up to the limit; something was found where there is a row.
pub fn answer_rows(rows: Vec<String>, limit: Option<usize>) -> (r: Report)
    ensures
        answers(r, rows.deep_view(), limit),
{
    let outcome = if rows.len() > 0 {
        Outcome::Found
    } else {
        Outcome::NotFound
    };
    let mut writer = BoundedWriter::new(limit);
    writer.write_rows(rows);
    assert(writer@.lines =~= bounded(rows.deep_view(), limit));
    Report { lines: writer.lines, outcome }
}

/// Writes rows up to the limit; something was found where one was written.
pub fn report_rows(rows: Vec<String>, limit: Option<usize>) -> (r: Report)
    ensures
        reports(r, rows.deep_view(), limit),
{
    let mut writer = BoundedWriter::new(limit);
    writer.write_rows(rows);
    assert(writer@.lines =~= bounded(rows.deep_view(), limit));
    let outcome = if writer.lines.len() > 0 {
        Outcome::Found
    } else {
        Outcome::NotFound
    };
    Report { lines: writer.lines, outcome }
}

/// `s` with each line feed and carriage return turned into a space.
pub open spec fn on_one_line(s: Seq<char>) -> Seq<char> {
    Seq::new(
        s.len(),
        |i: int|
            if s[i] == '\n' || s[i] == '\r' {
                ' '
            } else {
                s[i]
            },
    )
}

/// `s` with each line feed and carriage return turned into a space.
pub fn collapse_newlines(s: &str) -> (r: String)
    ensures
        r@ == on_one_line(s@),
{
    let mut out = String::new();
    for c in it: s.chars()
        invariant
            it.seq() == s@,
            out@ == on_one_line(s@).take(it.index()),
    {
        out.push(if c == '\n' || c == '\r' { ' ' } else { c });
        assert(out@ =~= on_one_line(s@).take(it.index() + 1));
    }
    assert(on_one_line(s@).take(s@.len() as int) =~= on_one_line(s@));
    out
}

/// `s` with each line feed, carriage return and tab turned into a space.
pub open spec fn in_one_field(s: Seq<char>) -> Seq<char> {
    Seq::new(
        s.len(),
        |i: int|
            if s[i] == '\n' || s[i] == '\r' || s[i] == '\t' {
                ' '
            } else {
                s[i]
            },
    )
}

/// `s` with each line feed, carriage return and tab turned into a space.
pub fn collapse_ws(s: &str) -> (r: String)
    ensures
        r@ == in_one_field(s@),
{
    let mut out = String::new();
    for c in it: s.chars()
        invariant
            it.seq() == s@,
            out@ == in_one_field(s@).take(it.index()),
    {
        out.push(if c == '\n' || c == '\r' || c == '\t' { ' ' } else { c });
        assert(out@ =~= in_one_field(s@).take(it.index() + 1));
    }
    assert(in_one_field(s@).take(s@.len() as int) =~= in_one_field(s@));
    out
}

/// A collapsed text keeps its length, holds nothing that would end a field or a row, and is
/// left as it is when collapsed again.
pub proof fn collapsed_stays_in_its_row(s: Seq<char>)
    ensures
        on_one_line(s).len() == s.len(),
        !on_one_line(s).contains('\n'),
        !on_one_line(s).contains('\r'),
        on_one_line(on_one_line(s)) == on_one_line(s),
        in_one_field(s).len() == s.len(),
        !in_one_field(s).contains('\n'),
        !in_one_field(s).contains('\r'),
        !in_one_field(s).contains('\t'),
        in_one_field(in_one_field(s)) == in_one_field(s),
{
    assert(on_one_line(on_one_line(s)) =~= on_one_line(s));
    assert(in_one_field(in_one_field(s)) =~= in_one_field(s));
}

/// A limit lets the first rows through, as many as it says; a page keeps what it has and counts
/// them down. A header costs nothing.
pub proof fn limits_count_rows(page: Page, rows: Seq<Seq<char>>, header: Seq<char>, n: usize)
    ensures
        bounded(rows, Some(n)).len() == if rows.len() < n {
            rows.len() as int
        } else {
            n as int
        },
        page.left is None ==> page.with_rows(rows).lines == page.lines + rows && page.with_rows(rows).left is None,
        page.left == Some(n) && rows.len() <= n ==> page.with_rows(rows).lines == page.lines + rows && page.with_rows(
            rows,
        ).left == Some((n - rows.len()) as usize),
        page.left == Some(n) && rows.len() > n ==> page.with_rows(rows).lines == page.lines + rows.take(n as int)
            && page.with_rows(rows).left == Some(0usize),
        page.with_header(header).lines == page.lines.push(header),
        page.with_header(header).left == page.left,
        Page::blank(Some(n)).lines.len() == 0 && Page::blank(Some(n)).left == Some(n),
        Page::blank(None).lines.len() == 0 && Page::blank(None).left is None,
{
    assert(page.with_header(header).lines =~= page.lines.push(header));
}

/// A command that finds what it writes found something just where a row came through the limit;
/// one that answers found something just where there was a row at all.
pub proof fn outcomes_follow_from_rows(r: Report, rows: Seq<Seq<char>>, limit: Option<usize>)
    ensures
        reports(r, rows, limit) ==> (r.outcome == Outcome::Found <==> rows.len() > 0 && limit != Some(0usize)) && (r.outcome
            == Outcome::Found <==> r.lines@.len() > 0),
        answers(r, rows, limit) ==> (r.outcome == Outcome::Found <==> rows.len() > 0),
        reports(r, rows, limit) || answers(r, rows, limit) ==> r.lines.deep_view().is_prefix_of(rows) && (limit is None
            ==> r.lines.deep_view() == rows),
{
    assert(r.lines.deep_view().len() == r.lines@.len());
}

/// Line ends become spaces, in a field tabs as well, and every other character stays as it is.
pub proof fn only_breaks_become_spaces(s: Seq<char>, i: int)
    requires
        0 <= i < s.len(),
    ensures
        on_one_line(s)[i] == if s[i] == '\n' || s[i] == '\r' {
            ' '
        } else {
            s[i]
        },
        s[i] != '\t' ==> in_one_field(s)[i] == on_one_line(s)[i],
        s[i] == '\t' ==> in_one_field(s)[i] == ' ' && on_one_line(s)[i] == '\t',
{
}

} // verus!
