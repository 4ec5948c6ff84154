//! Character-level text operations: trimming, splitting, searching, ordering.
use vstd::prelude::*;
use vstd::string::*;

verus! {

/// Appends one character, as `String::push` does.
pub assume_specification[ String::push ](s: &mut String, c: char)
    ensures
        final(s)@ == old(s)@.push(c),
;

/// The characters with the Unicode `White_Space` property.
pub open spec fn white(c: char) -> bool {
    ||| '\t' <= c <= '\r'
    ||| c == ' ' || c == '\u{85}' || c == '\u{a0}' || c == '\u{1680}'
    ||| '\u{2000}' <= c <= '\u{200a}'
    ||| c == '\u{2028}' || c == '\u{2029}' || c == '\u{202f}' || c == '\u{205f}' || c == '\u{3000}'
}

pub fn is_white(c: char) -> (r: bool)
    ensures
        r == white(c),
{
    ('\t' <= c && c <= '\r') || c == ' ' || c == '\u{85}' || c == '\u{a0}' || c == '\u{1680}'
        || ('\u{2000}' <= c && c <= '\u{200a}') || c == '\u{2028}' || c == '\u{2029}'
        || c == '\u{202f}' || c == '\u{205f}' || c == '\u{3000}'
}

/// The characters of a text, one per element.
pub fn chars(s: &str) -> (r: Vec<char>)
    ensures
        r@ == s@,
{
    let mut out: Vec<char> = Vec::new();
    for c in it: s.chars()
        invariant
            out@ == it.seq().take(it.index()),
            it.seq() == s@,
    {
        out.push(c);
    }
    out
}

/// Whether two texts hold the same characters.
pub fn same(a: &str, b: &str) -> (r: bool)
    ensures
        r == (a@ == b@),
{
    a.to_owned() == b.to_owned()
}

/// Where `c` first occurs in `s`.
pub open spec fn position(s: Seq<char>, c: char) -> Option<int>
    decreases s.len(),
{
    if s.len() == 0 {
        None
    } else if s[0] == c {
        Some(0)
    } else {
        match position(s.drop_first(), c) {
            Some(i) => Some(i + 1),
            None => None,
        }
    }
}

/// `position` is the least index that holds `c`, and `None` only where no index does.
pub proof fn position_is_first(s: Seq<char>, c: char)
    ensures
        match position(s, c) {
            Some(i) => 0 <= i < s.len() && s[i] == c && forall|j: int| 0 <= j < i ==> s[j] != c,
            None => forall|j: int| 0 <= j < s.len() ==> s[j] != c,
        },
    decreases s.len(),
{
    if s.len() > 0 && s[0] != c {
        let rest = s.drop_first();
        position_is_first(rest, c);
        assert forall|j: int| 0 < j < s.len() implies s[j] == rest[j - 1] by {}
    }
}

/// The index of the first `c` in `s`, counted in characters.
pub fn find_char(s: &str, c: char) -> (r: Option<usize>)
    ensures
        match r {
            Some(i) => position(s@, c) == Some(i as int) && i < s@.len(),
            None => position(s@, c) is None,
        },
{
    let cs = chars(s);
    let n = cs.len();
    let mut i: usize = 0;
    proof {
        position_is_first(s@, c);
    }
    while i < n
        invariant
            cs@ == s@,
            n == cs@.len(),
            i <= n,
            forall|j: int| 0 <= j < i ==> s@[j] != c,
            match position(s@, c) {
                Some(k) => 0 <= k < s@.len() && s@[k] == c && forall|j: int| 0 <= j < k ==> s@[j] != c,
                None => forall|j: int| 0 <= j < s@.len() ==> s@[j] != c,
            },
        decreases n - i,
    {
        if cs[i] == c {
            return Some(i);
        }
        i += 1;
    }
    None
}

pub fn contains_char(s: &str, c: char) -> (r: bool)
    ensures
        r == s@.contains(c),
{
    proof {
        position_is_first(s@, c);
    }
    find_char(s, c).is_some()
}

/// Where `c` last occurs in `s`.
pub open spec fn last_position(s: Seq<char>, c: char) -> Option<int>
    decreases s.len(),
{
    if s.len() == 0 {
        None
    } else if s.last() == c {
        Some(s.len() - 1)
    } else {
        last_position(s.drop_last(), c)
    }
}

/// `last_position` is the greatest index that holds `c`, and `None` only where no index does.
pub proof fn last_position_is_last(s: Seq<char>, c: char)
    ensures
        match last_position(s, c) {
            Some(i) => 0 <= i < s.len() && s[i] == c && forall|j: int| i < j < s.len() ==> s[j] != c,
            None => forall|j: int| 0 <= j < s.len() ==> s[j] != c,
        },
    decreases s.len(),
{
    if s.len() > 0 && s.last() != c {
        last_position_is_last(s.drop_last(), c);
        assert forall|j: int| 0 <= j < s.len() - 1 implies s[j] == s.drop_last()[j] by {}
    }
}

/// The index of the last `c` in `s`, counted in characters.
pub fn rfind_char(s: &str, c: char) -> (r: Option<usize>)
    ensures
        match r {
            Some(i) => last_position(s@, c) == Some(i as int) && i < s@.len(),
            None => last_position(s@, c) is None,
        },
{
    let cs = chars(s);
    let mut i: usize = cs.len();
    assert(s@.take(i as int) =~= s@);
    while i > 0
        invariant
            cs@ == s@,
            i <= cs@.len(),
            last_position(s@, c) == last_position(s@.take(i as int), c),
        decreases i,
    {
        assert(s@.take(i as int).drop_last() =~= s@.take(i - 1));
        i -= 1;
        if cs[i] == c {
            return Some(i);
        }
    }
    None
}

/// `s` cut at the first `c`: what stands before it and what stands after it.
pub open spec fn cut(s: Seq<char>, c: char) -> Option<(Seq<char>, Seq<char>)> {
    match position(s, c) {
        Some(i) => Some((s.take(i), s.skip(i + 1))),
        None => None,
    }
}

/// `s` cut at the first `c`, as `str::split_once` does.
pub fn split_once<'a>(s: &'a str, c: char) -> (r: Option<(&'a str, &'a str)>)
    ensures
        r.deep_view() == cut(s@, c),
{
    match find_char(s, c) {
        Some(i) => {
            let n = s.unicode_len();
            let head = s.substring_char(0, i);
            let tail = s.substring_char(i + 1, n);
            assert(head@ =~= s@.take(i as int));
            assert(tail@ =~= s@.skip(i + 1));
            Some((head, tail))
        }
        None => None,
    }
}

/// The pieces of `s` between the occurrences of `sep`; one more piece than occurrences.
pub open spec fn pieces(s: Seq<char>, sep: char) -> Seq<Seq<char>>
    decreases s.len(),
{
    if s.len() == 0 {
        seq![s]
    } else {
        let front = pieces(s.drop_last(), sep);
        if s.last() == sep {
            front.push(seq![])
        } else {
            front.update(front.len() - 1, front.last().push(s.last()))
        }
    }
}

/// The pieces of `s` between the occurrences of `sep`, as `str::split` gives them.
pub fn split<'a>(s: &'a str, sep: char) -> (r: Vec<&'a str>)
    ensures
        r.deep_view() == pieces(s@, sep),
        r@.len() > 0,
{
    let cs = chars(s);
    let mut out: Vec<&'a str> = Vec::new();
    let mut start: usize = 0;
    let n = cs.len();
    assert(s@.subrange(0, 0) =~= s@.take(0));
    for i in 0..n
        invariant
            n == cs@.len(),
            cs@ == s@,
            start <= i <= n,
            out.deep_view().push(s@.subrange(start as int, i as int)) =~= pieces(s@.take(i as int), sep),
    {
        let ghost before = out.deep_view();
        let ghost open = s@.subrange(start as int, i as int);
        proof {
            assert(s@.take(i + 1).drop_last() =~= s@.take(i as int));
            assert(s@.take(i + 1).last() == s@[i as int]);
        }
        if cs[i] == sep {
            let piece = s.substring_char(start, i);
            out.push(piece);
            start = i + 1;
            assert(out.deep_view() =~= before.push(piece@));
            assert(s@.subrange(start as int, i + 1) =~= seq![]);
        } else {
            assert(s@.subrange(start as int, i + 1) =~= open.push(s@[i as int]));
            assert(before.push(open).last() == open);
            assert(before.push(open).update(before.len() as int, open.push(s@[i as int])) =~= before.push(
                open.push(s@[i as int]),
            ));
        }
    }
    let ghost before = out.deep_view();
    let piece = s.substring_char(start, n);
    out.push(piece);
    proof {
        assert(out.deep_view() =~= before.push(piece@));
        assert(s@.take(n as int) =~= s@);
    }
    out
}

/// The runs of characters of `s` that are not white space.
pub open spec fn words(s: Seq<char>) -> Seq<Seq<char>>
    decreases s.len(),
{
    if s.len() == 0 {
        seq![]
    } else {
        let init = s.drop_last();
        let front = words(init);
        if white(s.last()) {
            front
        } else if init.len() == 0 || white(init.last()) {
            front.push(seq![s.last()])
        } else {
            front.update(front.len() - 1, front.last().push(s.last()))
        }
    }
}

/// The runs of characters that are not white space, as `str::split_whitespace` gives them.
pub fn split_words<'a>(s: &'a str) -> (r: Vec<&'a str>)
    ensures
        r.deep_view() == words(s@),
{
    let cs = chars(s);
    let mut out: Vec<&'a str> = Vec::new();
    let mut start: usize = 0;
    let mut inside: bool = false;
    let n = cs.len();
    for i in 0..n
        invariant
            n == cs@.len(),
            cs@ == s@,
            start <= i <= n,
            inside <==> i > 0 && !white(s@[i - 1]),
            inside ==> start < i,
            !inside ==> out.deep_view() =~= words(s@.take(i as int)),
            inside ==> out.deep_view().push(s@.subrange(start as int, i as int)) =~= words(s@.take(i as int)),
    {
        let ghost before = out.deep_view();
        let ghost open = s@.subrange(start as int, i as int);
        proof {
            assert(s@.take(i + 1).drop_last() =~= s@.take(i as int));
            assert(s@.take(i + 1).last() == s@[i as int]);
            assert(i > 0 ==> s@.take(i as int).last() == s@[i - 1]);
        }
        if is_white(cs[i]) {
            if inside {
                let word = s.substring_char(start, i);
                out.push(word);
                assert(out.deep_view() =~= before.push(word@));
            }
            inside = false;
        } else {
            if !inside {
                start = i;
                assert(s@.subrange(start as int, i + 1) =~= seq![s@[i as int]]);
            } else {
                assert(s@.subrange(start as int, i + 1) =~= open.push(s@[i as int]));
                assert(before.push(open).last() == open);
                assert(before.push(open).update(before.len() as int, open.push(s@[i as int])) =~= before.push(
                    open.push(s@[i as int]),
                ));
            }
            inside = true;
        }
    }
    proof {
        assert(s@.take(n as int) =~= s@);
    }
    if inside {
        let ghost before = out.deep_view();
        let word = s.substring_char(start, n);
        out.push(word);
        assert(out.deep_view() =~= before.push(word@));
    }
    out
}

/// `s` without a carriage return at its end.
pub open spec fn without_cr(s: Seq<char>) -> Seq<char> {
    if s.len() > 0 && s.last() == '\r' {
        s.drop_last()
    } else {
        s
    }
}

/// The lines of `s`: each ends at a line feed, with a carriage return right before it
/// dropped; the last line may lack its line feed.
pub open spec fn lines(s: Seq<char>) -> Seq<Seq<char>> {
    let all = pieces(s, '\n');
    let ended = Seq::new((all.len() - 1) as nat, |i: int| without_cr(all[i]));
    if all.last().len() == 0 {
        ended
    } else {
        ended.push(all.last())
    }
}

/// The lines of `s`, as `str::lines` gives them.
pub fn split_lines<'a>(s: &'a str) -> (r: Vec<&'a str>)
    ensures
        r.deep_view() == lines(s@),
{
    let all = split(s, '\n');
    let ghost ps = pieces(s@, '\n');
    let n = all.len() - 1;
    let mut out: Vec<&'a str> = Vec::new();
    assert(all.deep_view().len() == all@.len());
    for i in 0..n
        invariant
            n + 1 == all@.len(),
            all.deep_view() == ps,
            out.deep_view() =~= Seq::new(i as nat, |k: int| without_cr(ps[k])),
    {
        let ghost before = out.deep_view();
        assert(ps[i as int] == all.deep_view()[i as int]);
        let line = strip_cr(all[i]);
        out.push(line);
        assert(out.deep_view() =~= before.push(line@));
    }
    assert(ps.last() == all@[n as int]@);
    assert(out.deep_view() =~= Seq::new((ps.len() - 1) as nat, |k: int| without_cr(ps[k])));
    if !all[n].is_empty() {
        let ghost before = out.deep_view();
        out.push(all[n]);
        assert(out.deep_view() =~= before.push(ps.last()));
    }
    out
}

fn strip_cr<'a>(s: &'a str) -> (r: &'a str)
    ensures
        r@ == without_cr(s@),
{
    let n = s.unicode_len();
    if n > 0 && s.get_char(n - 1) == '\r' {
        s.substring_char(0, n - 1)
    } else {
        s
    }
}

/// `s` without the white space at its start.
pub open spec fn trimmed_start(s: Seq<char>) -> Seq<char>
    decreases s.len(),
{
    if s.len() > 0 && white(s[0]) {
        trimmed_start(s.drop_first())
    } else {
        s
    }
}

/// `s` without the white space at its end.
pub open spec fn trimmed_end(s: Seq<char>) -> Seq<char>
    decreases s.len(),
{
    if s.len() > 0 && white(s.last()) {
        trimmed_end(s.drop_last())
    } else {
        s
    }
}

/// `s` without the white space at its two ends.
pub open spec fn trimmed(s: Seq<char>) -> Seq<char> {
    trimmed_end(trimmed_start(s))
}

/// `s` without the white space at its two ends, as `str::trim` gives it.
pub fn trim<'a>(s: &'a str) -> (r: &'a str)
    ensures
        r@ == trimmed(s@),
{
    let cs = chars(s);
    let mut from: usize = 0;
    let mut to: usize = cs.len();
    assert(s@.skip(0) =~= s@);
    while from < to && is_white(cs[from])
        invariant
            cs@ == s@,
            from <= to == s@.len(),
            trimmed_start(s@) == trimmed_start(s@.skip(from as int)),
        decreases to - from,
    {
        assert(s@.skip(from as int).drop_first() =~= s@.skip(from + 1));
        from += 1;
    }
    assert(trimmed_start(s@) == s@.skip(from as int));
    assert(s@.subrange(from as int, to as int) =~= s@.skip(from as int));
    while from < to && is_white(cs[to - 1])
        invariant
            cs@ == s@,
            from <= to <= s@.len(),
            trimmed(s@) == trimmed_end(s@.subrange(from as int, to as int)),
        decreases to,
    {
        assert(s@.subrange(from as int, to as int).drop_last() =~= s@.subrange(from as int, to - 1));
        to -= 1;
    }
    s.substring_char(from, to)
}

/// The lower case of an ASCII letter; any other character as it is.
pub open spec fn lower(c: char) -> char {
    if 'A' <= c <= 'Z' {
        (c as u32 + 32) as u32 as char
    } else {
        c
    }
}

pub fn lower_char(c: char) -> (r: char)
    ensures
        r == lower(c),
{
    if 'A' <= c && c <= 'Z' {
        ((c as u8) + 32) as char
    } else {
        c
    }
}

/// `s` with its ASCII letters in lower case.
pub open spec fn lowered(s: Seq<char>) -> Seq<char> {
    Seq::new(s.len(), |i: int| lower(s[i]))
}

/// `s` with its ASCII letters in lower case, as `str::to_ascii_lowercase` gives it.
pub fn to_lower(s: &str) -> (r: String)
    ensures
        r@ == lowered(s@),
{
    let mut out = String::new();
    for c in it: s.chars()
        invariant
            it.seq() == s@,
            out@ == lowered(s@).take(it.index()),
    {
        out.push(lower_char(c));
        assert(out@ =~= lowered(s@).take(it.index() + 1));
    }
    assert(lowered(s@).take(s@.len() as int) =~= lowered(s@));
    out
}

/// Whether two texts are the same but for the case of their ASCII letters.
pub fn same_ignoring_case(a: &str, b: &str) -> (r: bool)
    ensures
        r == (lowered(a@) == lowered(b@)),
{
    to_lower(a) == to_lower(b)
}

/// `parts` with `sep` between each two.
pub open spec fn joined(parts: Seq<Seq<char>>, sep: Seq<char>) -> Seq<char>
    decreases parts.len(),
{
    if parts.len() == 0 {
        seq![]
    } else if parts.len() == 1 {
        parts[0]
    } else {
        joined(parts.drop_last(), sep) + sep + parts.last()
    }
}

/// `parts` with `sep` between each two, as `join` gives them.
pub fn join(parts: &Vec<&str>, sep: &str) -> (r: String)
    ensures
        r@ == joined(parts.deep_view(), sep@),
{
    let ghost all = parts.deep_view();
    let mut out = String::new();
    for i in 0..parts.len()
        invariant
            all == parts.deep_view(),
            out@ == joined(all.take(i as int), sep@),
    {
        assert(all.take(i + 1).drop_last() =~= all.take(i as int));
        assert(all.take(i + 1).last() == parts@[i as int]@);
        if i == 0 {
            out = parts[i].to_owned();
        } else {
            out.append(sep);
            out.append(parts[i]);
        }
    }
    assert(all.take(all.len() as int) =~= all);
    out
}

/// The texts of `parts`, borrowed.
pub fn borrowed<'a>(parts: &'a Vec<String>) -> (r: Vec<&'a str>)
    ensures
        r.deep_view() == parts.deep_view(),
{
    let mut out: Vec<&'a str> = Vec::new();
    for i in 0..parts.len()
        invariant
            out.deep_view() =~= parts.deep_view().take(i as int),
    {
        let ghost before = out.deep_view();
        out.push(parts[i].as_str());
        assert(out.deep_view() =~= before.push(parts@[i as int]@));
    }
    assert(parts.deep_view().take(parts@.len() as int) =~= parts.deep_view());
    out
}

/// Copies of the texts of `parts`.
pub fn owned(parts: &Vec<&str>) -> (r: Vec<String>)
    ensures
        r.deep_view() == parts.deep_view(),
{
    let mut out: Vec<String> = Vec::new();
    for i in 0..parts.len()
        invariant
            out.deep_view() =~= parts.deep_view().take(i as int),
    {
        let ghost before = out.deep_view();
        out.push(parts[i].to_owned());
        assert(out.deep_view() =~= before.push(parts@[i as int]@));
    }
    assert(parts.deep_view().take(parts@.len() as int) =~= parts.deep_view());
    out
}

/// The fields of one row, a tab between each two.
pub open spec fn row(fields: Seq<Seq<char>>) -> Seq<char> {
    joined(fields, "\t"@)
}

/// The fields of one row, a tab between each two.
pub fn write_row(fields: &Vec<&str>) -> (r: String)
    ensures
        r@ == row(fields.deep_view()),
{
    join(fields, "\t")
}

/// Whether `s` begins with `prefix`.
pub fn starts_with(s: &str, prefix: &str) -> (r: bool)
    ensures
        r == prefix@.is_prefix_of(s@),
{
    let n = prefix.unicode_len();
    if s.unicode_len() < n {
        return false;
    }
    let head = s.substring_char(0, n);
    same(head, prefix)
}

/// The text that `{:?}` writes for `s`: in double quotes, with escapes.
pub uninterp spec fn quoted(s: Seq<char>) -> Seq<char>;

/// The text that the standard formatting macro writes for `s` under `{:?}`. It is named, not
/// described: the escapes follow Unicode tables.
#[verifier::external_body]
pub(crate) fn quote(s: &str) -> (r: String)
    ensures
        r@ == quoted(s@),
{
    format!("{:?}", s)
}

/// The text that `str::to_uppercase` gives for `s`.
pub uninterp spec fn uppercased(s: Seq<char>) -> Seq<char>;

/// The text in upper case, by `str::to_uppercase`. It is named, not described: the mapping
/// follows Unicode tables.
#[verifier::external_body]
pub(crate) fn to_upper(s: &str) -> (r: String)
    ensures
        r@ == uppercased(s@),
{
    s.to_uppercase()
}

/// The text that `String::from_utf8_lossy` makes of bytes.
pub uninterp spec fn lossy(bytes: Seq<u8>) -> Seq<char>;

/// Bytes as text, by `String::from_utf8_lossy`. Bytes that are UTF-8 give the text that they
/// encode; what the others give is named, not described.
#[verifier::external_body]
pub(crate) fn from_utf8_lossy(bytes: &[u8]) -> (r: String)
    ensures
        r@ == lossy(bytes@),
        vstd::utf8::valid_utf8(bytes@) ==> r@ == vstd::utf8::decode_utf8(bytes@),
{
    String::from_utf8_lossy(bytes).into_owned()
}

/// There is at least one piece.
pub proof fn pieces_exist(s: Seq<char>, sep: char)
    ensures
        pieces(s, sep).len() > 0,
    decreases s.len(),
{
    if s.len() > 0 {
        pieces_exist(s.drop_last(), sep);
    }
}

/// A text without the separator extends the last piece.
pub proof fn pieces_extend(a: Seq<char>, b: Seq<char>, sep: char)
    requires
        !b.contains(sep),
    ensures
        pieces(a + b, sep) == pieces(a, sep).update(pieces(a, sep).len() - 1, pieces(a, sep).last() + b),
    decreases b.len(),
{
    pieces_exist(a, sep);
    let before = pieces(a, sep);
    if b.len() == 0 {
        assert(a + b =~= a);
        assert(before.last() + b =~= before.last());
        assert(before.update(before.len() - 1, before.last()) =~= before);
    } else {
        let init = b.drop_last();
        assert(!init.contains(sep)) by {
            assert forall|i: int| 0 <= i < init.len() implies init[i] != sep by {
                assert(init[i] == b[i]);
            }
        }
        pieces_extend(a, init, sep);
        assert((a + b).drop_last() =~= a + init);
        assert((a + b).last() == b.last());
        assert(b.last() == b[b.len() - 1]);
        let front = pieces(a + init, sep);
        assert(front.last() == before.last() + init);
        assert((before.last() + init).push(b.last()) =~= before.last() + b);
        assert(front.update(front.len() - 1, before.last() + b) =~= before.update(
            before.len() - 1,
            before.last() + b,
        ));
    }
}

/// A separator and a text without one add a piece.
pub proof fn pieces_add(a: Seq<char>, b: Seq<char>, sep: char)
    requires
        !b.contains(sep),
    ensures
        pieces(a + seq![sep] + b, sep) == pieces(a, sep).push(b),
{
    let x = a + seq![sep];
    assert(x.drop_last() =~= a);
    assert(x.last() == sep);
    assert(pieces(x, sep) == pieces(a, sep).push(seq![]));
    pieces_extend(x, b, sep);
    assert(seq![] + b =~= b);
    assert(pieces(a, sep).push(seq![]).update(pieces(a, sep).len() as int, b) =~= pieces(a, sep).push(b));
}

/// A text without the separator is its only piece.
pub proof fn pieces_of_one(b: Seq<char>, sep: char)
    requires
        !b.contains(sep),
    ensures
        pieces(b, sep) == seq![b],
{
    let none = Seq::<char>::empty();
    pieces_extend(none, b, sep);
    assert(none + b =~= b);
    assert(pieces(none, sep).update(0, b) =~= seq![b]);
}

/// Parts that do not hold the separator come back when what they were joined to is split.
pub proof fn joined_splits_back(parts: Seq<Seq<char>>, sep: char)
    requires
        parts.len() > 0,
        forall|i: int| 0 <= i < parts.len() ==> !(#[trigger] parts[i]).contains(sep),
    ensures
        pieces(joined(parts, seq![sep]), sep) == parts,
    decreases parts.len(),
{
    if parts.len() == 1 {
        pieces_of_one(parts[0], sep);
        assert(seq![parts[0]] =~= parts);
    } else {
        let init = parts.drop_last();
        assert forall|i: int| 0 <= i < init.len() implies !(#[trigger] init[i]).contains(sep) by {
            assert(init[i] == parts[i]);
        }
        joined_splits_back(init, sep);
        assert(!parts[parts.len() - 1].contains(sep));
        pieces_add(joined(init, seq![sep]), parts.last(), sep);
        assert(init.push(parts.last()) =~= parts);
    }
}

/// The fields of a row come back when it is split at its tabs, as long as none holds a tab.
pub proof fn row_splits_back(fields: Seq<Seq<char>>)
    requires
        fields.len() > 0,
        forall|i: int| 0 <= i < fields.len() ==> !(#[trigger] fields[i]).contains('\t'),
    ensures
        pieces(row(fields), '\t') == fields,
{
    reveal_strlit("\t");
    assert("\t"@ =~= seq!['\t']);
    joined_splits_back(fields, '\t');
}

/// Words are not empty and hold no white space.
pub proof fn words_are_plain(s: Seq<char>)
    ensures
        forall|i: int|
            0 <= i < words(s).len() ==> (#[trigger] words(s)[i]).len() > 0 && forall|k: int|
                0 <= k < words(s)[i].len() ==> !white(#[trigger] words(s)[i][k]),
        s.len() > 0 && !white(s.last()) ==> words(s).len() > 0,
    decreases s.len(),
{
    if s.len() > 0 {
        let init = s.drop_last();
        let front = words(init);
        words_are_plain(init);
        let out = words(s);
        assert forall|i: int| 0 <= i < out.len() implies (#[trigger] out[i]).len() > 0 && forall|k: int|
            0 <= k < out[i].len() ==> !white(#[trigger] out[i][k]) by {
            if white(s.last()) {
                assert(out[i] == front[i]);
            } else if init.len() == 0 || white(init.last()) {
                if i < front.len() {
                    assert(out[i] == front[i]);
                } else {
                    assert(out[i] == seq![s.last()]);
                }
            } else {
                if i < front.len() - 1 {
                    assert(out[i] == front[i]);
                } else {
                    assert(out[i] == front.last().push(s.last()));
                    assert(front.last() == front[front.len() - 1]);
                }
            }
        }
    }
}

/// A text is cut at the first separator.
pub proof fn cut_at_the_first(a: Seq<char>, b: Seq<char>, c: char)
    requires
        !a.contains(c),
    ensures
        cut(a + seq![c] + b, c) == Some((a, b)),
{
    let s = a + seq![c] + b;
    position_is_first(s, c);
    assert(s[a.len() as int] == c);
    assert forall|j: int| 0 <= j < a.len() implies s[j] != c by {
        assert(s[j] == a[j]);
    }
    assert(s.take(a.len() as int) =~= a);
    assert(s.skip(a.len() as int + 1) =~= b);
}

/// White space cuts words apart, and a run of other characters is one word.
pub proof fn white_space_cuts_words(a: Seq<char>, w: char, b: Seq<char>)
    requires
        white(w),
    ensures
        words(a + seq![w] + b) == words(a) + words(b),
        words(seq![]) == Seq::<Seq<char>>::empty(),
        a.len() > 0 && (forall|i: int| 0 <= i < a.len() ==> !white(#[trigger] a[i])) ==> words(a) == seq![a],
    decreases a.len() + b.len(),
{
    let s = a + seq![w] + b;
    if a.len() > 0 && (forall|i: int| 0 <= i < a.len() ==> !white(#[trigger] a[i])) {
        one_run_is_one_word(a);
    }
    if b.len() == 0 {
        assert(s.drop_last() =~= a);
        assert(s.last() == w);
        assert(words(a) + words(b) =~= words(a));
    } else {
        let init = b.drop_last();
        white_space_cuts_words(a, w, init);
        assert(s.drop_last() =~= a + seq![w] + init);
        assert(s.last() == b.last());
        let front = words(s.drop_last());
        if init.len() > 0 {
            assert(s.drop_last().last() == init.last());
            if !white(init.last()) && !white(b.last()) {
                words_are_plain(init);
                assert(front.last() == words(init).last());
                assert(front.drop_last() =~= words(a) + words(init).drop_last());
            }
        } else {
            assert(s.drop_last().last() == w);
        }
        assert(words(s) =~= words(a) + words(b));
    }
}

proof fn one_run_is_one_word(a: Seq<char>)
    requires
        a.len() > 0,
        forall|i: int| 0 <= i < a.len() ==> !white(#[trigger] a[i]),
    ensures
        words(a) == seq![a],
    decreases a.len(),
{
    let init = a.drop_last();
    assert(!white(a[a.len() - 1]));
    if init.len() == 0 {
        assert(words(init) =~= seq![]);
        assert(seq![a.last()] =~= a);
        assert(words(a) =~= seq![a]);
    } else {
        assert forall|i: int| 0 <= i < init.len() implies !white(#[trigger] init[i]) by {
            assert(!white(a[i]));
        }
        one_run_is_one_word(init);
        assert(!white(a[a.len() - 2]));
        assert(init.push(a.last()) =~= a);
        assert(words(a) =~= seq![a]);
    }
}

/// Trimming takes the white space at both ends away, and nothing else.
pub proof fn only_the_ends_are_trimmed(a: Seq<char>, s: Seq<char>, b: Seq<char>)
    requires
        forall|i: int| 0 <= i < a.len() ==> white(#[trigger] a[i]),
        forall|i: int| 0 <= i < b.len() ==> white(#[trigger] b[i]),
        s.len() > 0 ==> !white(s[0]) && !white(s.last()),
    ensures
        trimmed(a + s + b) == s,
{
    trimmed_front(a, s + b);
    assert(a + s + b =~= a + (s + b));
    if s.len() > 0 {
        assert((s + b)[0] == s[0]);
        trimmed_back(s, b);
    } else {
        assert(s + b =~= b);
        trimmed_front(b, seq![]);
        assert(b + Seq::<char>::empty() =~= b);
        assert(trimmed_start(b) =~= seq![]);
        assert(s =~= seq![]);
    }
}

proof fn trimmed_front(a: Seq<char>, s: Seq<char>)
    requires
        forall|i: int| 0 <= i < a.len() ==> white(#[trigger] a[i]),
    ensures
        trimmed_start(a + s) == trimmed_start(s),
    decreases a.len(),
{
    if a.len() > 0 {
        let rest = a.drop_first();
        assert(white(a[0]));
        assert forall|i: int| 0 <= i < rest.len() implies white(#[trigger] rest[i]) by {
            assert(white(a[i + 1]));
        }
        trimmed_front(rest, s);
        assert((a + s)[0] == a[0]);
        assert((a + s).drop_first() =~= rest + s);
    } else {
        assert(a + s =~= s);
    }
}

proof fn trimmed_back(s: Seq<char>, b: Seq<char>)
    requires
        s.len() > 0,
        !white(s.last()),
        forall|i: int| 0 <= i < b.len() ==> white(#[trigger] b[i]),
    ensures
        trimmed_end(s + b) == s,
    decreases b.len(),
{
    if b.len() > 0 {
        let init = b.drop_last();
        assert(white(b[b.len() - 1]));
        assert forall|i: int| 0 <= i < init.len() implies white(#[trigger] init[i]) by {
            assert(white(b[i]));
        }
        trimmed_back(s, init);
        assert((s + b).last() == b.last());
        assert((s + b).drop_last() =~= s + init);
    } else {
        assert(s + b =~= s);
    }
}

/// A line ends at a line feed, which takes a carriage return right before it along; what follows
/// the last line feed is a line where it is not empty.
pub proof fn lines_end_at_line_feeds(a: Seq<char>, b: Seq<char>)
    requires
        !a.contains('\n'),
    ensures
        a.len() == 0 || a.last() != '\r' ==> lines(a + seq!['\n'] + b) == seq![a] + lines(b),
        lines(a + seq!['\r', '\n'] + b) == seq![a] + lines(b),
        lines(seq![]) == Seq::<Seq<char>>::empty(),
        a.len() > 0 ==> lines(a) == seq![a],
{
    lines_split_off(a, b);
    let c = a + seq!['\r'];
    assert forall|i: int| 0 <= i < c.len() implies c[i] != '\n' by {
        if i < a.len() {
            assert(c[i] == a[i]);
            assert(a.contains(a[i]));
        }
    }
    lines_split_off(c, b);
    assert(c + seq!['\n'] + b =~= a + seq!['\r', '\n'] + b);
    assert(c.drop_last() =~= a);
    pieces_of_one(a, '\n');
}

/// A separator cuts a text into the pieces before it and those behind it.
pub proof fn pieces_are_cut_apart(a: Seq<char>, b: Seq<char>, sep: char)
    ensures
        pieces(a + seq![sep] + b, sep) == pieces(a, sep) + pieces(b, sep),
    decreases b.len(),
{
    let s = a + seq![sep] + b;
    pieces_exist(b, sep);
    if b.len() == 0 {
        assert(s.drop_last() =~= a);
        assert(s.last() == sep);
        assert(b =~= seq![]);
        assert(pieces(a, sep).push(seq![]) =~= pieces(a, sep) + pieces(b, sep));
    } else {
        let init = b.drop_last();
        pieces_are_cut_apart(a, init, sep);
        pieces_exist(init, sep);
        assert(s.drop_last() =~= a + seq![sep] + init);
        assert(s.last() == b.last());
        assert(pieces(s, sep) =~= pieces(a, sep) + pieces(b, sep));
    }
}

proof fn lines_split_off(a: Seq<char>, b: Seq<char>)
    requires
        !a.contains('\n'),
    ensures
        lines(a + seq!['\n'] + b) == seq![without_cr(a)] + lines(b),
{
    pieces_are_cut_apart(a, b, '\n');
    pieces_of_one(a, '\n');
    pieces_exist(b, '\n');
    let all = pieces(a + seq!['\n'] + b, '\n');
    let rest = pieces(b, '\n');
    assert(all =~= seq![a] + rest);
    assert(all.last() == rest.last());
    assert(lines(a + seq!['\n'] + b) =~= seq![without_cr(a)] + lines(b));
}

/// The letters from `A` to `Z` become small, and every other character stays as it is.
pub proof fn only_capitals_become_small(s: Seq<char>, i: int)
    requires
        0 <= i < s.len(),
    ensures
        lowered(s).len() == s.len(),
        s[i] == 'A' ==> lowered(s)[i] == 'a',
        s[i] == 'Z' ==> lowered(s)[i] == 'z',
        'A' <= s[i] <= 'Z' ==> lowered(s)[i] as nat == s[i] as nat + 32,
        s[i] < 'A' || s[i] > 'Z' ==> lowered(s)[i] == s[i],
{
}

} // verus!
