//! Every kind that a cluster serves.
use crate::k8s::scope::Scope;
use crate::order::{
    lines_of, render_all, sort, sorted, sorted_is_a_stable_sort, texts_at_most, texts_le, texts_le_total, texts_le_transitive, views, Line,
    Ranked,
};
use crate::output::{answer_rows, answers, Report};
use crate::text::{cut, cut_at_the_first, lowered, position_is_first, row, same_ignoring_case, split_once, write_row};
use vstd::prelude::*;

verus! {

/// The arguments of the command.
#[derive(Debug)]
pub struct KindsArgs {
    pub limit: Option<usize>,
}

/// A kind that a cluster serves.
#[derive(Debug, PartialEq)]
pub struct ApiKind {
    /// `group/version`, or the version alone for the core group.
    pub api_version: String,
    pub kind: String,
    pub plural: String,
    pub scope: Scope,
}

/// What an `ApiKind` says.
#[verifier::ext_equal]
pub struct ApiKindModel {
    pub api_version: Seq<char>,
    pub kind: Seq<char>,
    pub plural: Seq<char>,
    pub scope: Scope,
}

impl View for ApiKind {
    type V = ApiKindModel;

    open spec fn view(&self) -> ApiKindModel {
        ApiKindModel {
            api_version: self.api_version@,
            kind: self.kind@,
            plural: self.plural@,
            scope: self.scope,
        }
    }
}

impl Ranked for ApiKind {
    /// By version, then by kind.
    open spec fn le(a: ApiKindModel, b: ApiKindModel) -> bool {
        texts_le(seq![a.api_version, a.kind], seq![b.api_version, b.kind])
    }

    proof fn le_total(a: ApiKindModel, b: ApiKindModel) {
        texts_le_total(seq![a.api_version, a.kind], seq![b.api_version, b.kind]);
    }

    proof fn le_transitive(a: ApiKindModel, b: ApiKindModel, c: ApiKindModel) {
        texts_le_transitive(
            seq![a.api_version, a.kind],
            seq![b.api_version, b.kind],
            seq![c.api_version, c.kind],
        );
    }

    fn at_most(&self, other: &Self) -> (r: bool) {
        let a = vec![self.api_version.as_str(), self.kind.as_str()];
        let b = vec![other.api_version.as_str(), other.kind.as_str()];
        assert(a.deep_view() =~= seq![self.api_version@, self.kind@]);
        assert(b.deep_view() =~= seq![other.api_version@, other.kind@]);
        texts_at_most(&a, &b)
    }
}

pub open spec fn scope_name(scope: Scope) -> Seq<char> {
    match scope {
        Scope::Namespaced => "namespaced"@,
        Scope::Cluster => "cluster"@,
    }
}

impl Line for ApiKind {
    open spec fn line(v: ApiKindModel) -> Seq<char> {
        row(seq![v.api_version, v.kind, scope_name(v.scope)])
    }

    fn render(&self) -> (r: String) {
        let scope = match self.scope {
            Scope::Namespaced => "namespaced",
            Scope::Cluster => "cluster",
        };
        let fields = vec![self.api_version.as_str(), self.kind.as_str(), scope];
        assert(fields.deep_view() =~= seq![self.api_version@, self.kind@, scope@]);
        write_row(&fields)
    }
}

/// Lists the kinds by version and kind.
pub fn run(args: &KindsArgs, kinds: Vec<ApiKind>) -> (r: Report)
    ensures
        answers(r, lines_of::<ApiKind>(sorted::<ApiKind>(views(kinds@))), args.limit),
{
    let ordered = sort(kinds);
    answer_rows(render_all(&ordered), args.limit)
}

/// The group in a `group/version`; the core group has no name.
pub open spec fn group_of(api_version: Seq<char>) -> Option<Seq<char>> {
    match cut(api_version, '/') {
        Some((group, _)) => Some(group),
        None => None,
    }
}

/// A name in a group: `name.group`.
pub open spec fn in_group(name: Seq<char>, group: Seq<char>) -> Seq<char> {
    name + "."@ + group
}

/// A kind in a version: `apiVersion/kind`.
pub open spec fn full_name(k: ApiKindModel) -> Seq<char> {
    k.api_version + "/"@ + k.kind
}

/// Whether a kind goes by `name`, whatever the case: by its kind or its plural, alone or in its
/// group (`name.group`), or by its full name (`apiVersion/kind`).
pub open spec fn goes_by(k: ApiKindModel, name: Seq<char>) -> bool {
    ||| lowered(name) == lowered(k.kind)
    ||| lowered(name) == lowered(k.plural)
    ||| lowered(name) == lowered(full_name(k))
    ||| match group_of(k.api_version) {
        Some(group) => lowered(name) == lowered(in_group(k.kind, group)) || lowered(name) == lowered(
            in_group(k.plural, group),
        ),
        None => false,
    }
}

/// Whether a kind goes by `name`.
fn known_as(k: &ApiKind, name: &str) -> (r: bool)
    ensures
        r == goes_by(k@, name@),
{
    if same_ignoring_case(k.kind.as_str(), name) || same_ignoring_case(k.plural.as_str(), name) {
        return true;
    }
    let mut full = k.api_version.as_str().to_owned();
    full.append("/");
    full.append(k.kind.as_str());
    if same_ignoring_case(full.as_str(), name) {
        return true;
    }
    match split_once(k.api_version.as_str(), '/') {
        Some((group, _)) => {
            let mut by_kind = k.kind.as_str().to_owned();
            by_kind.append(".");
            by_kind.append(group);
            let mut by_plural = k.plural.as_str().to_owned();
            by_plural.append(".");
            by_plural.append(group);
            same_ignoring_case(by_kind.as_str(), name) || same_ignoring_case(by_plural.as_str(), name)
        },
        None => false,
    }
}

/// Where the first of the kinds that a cluster serves stands that goes by `name`.
pub fn find_kind(kinds: &Vec<ApiKind>, name: &str) -> (r: Option<usize>)
    ensures
        match r {
            Some(i) => i < kinds@.len() && goes_by(kinds@[i as int]@, name@) && forall|j: int|
                0 <= j < i ==> !goes_by(#[trigger] kinds@[j]@, name@),
            None => forall|j: int| 0 <= j < kinds@.len() ==> !goes_by(#[trigger] kinds@[j]@, name@),
        },
{
    for i in 0..kinds.len()
        invariant
            forall|j: int| 0 <= j < i ==> !goes_by(#[trigger] kinds@[j]@, name@),
    {
        if known_as(&kinds[i], name) {
            return Some(i);
        }
    }
    None
}

/// Whether the kind and its plural are plain names, without a dot or a slash.
pub open spec fn plainly_named(k: ApiKindModel) -> bool {
    &&& !k.kind.contains('.') && !k.kind.contains('/')
    &&& !k.plural.contains('.') && !k.plural.contains('/')
}

/// A dot or a slash stands in a text in lower case just where it stands in the text.
proof fn marks_stay(s: Seq<char>, c: char)
    requires
        c == '.' || c == '/',
    ensures
        lowered(s).contains(c) == s.contains(c),
{
    assert forall|i: int| 0 <= i < s.len() implies (lowered(s)[i] == c) == (s[i] == c) by {}
    if lowered(s).contains(c) {
        let i = lowered(s).index_of(c);
        assert(s[i] == c);
    }
    if s.contains(c) {
        let i = s.index_of(c);
        assert(lowered(s)[i] == c);
    }
}

/// A text in lower case is made of its parts in lower case.
proof fn parts_in_lower_case(a: Seq<char>, c: char, b: Seq<char>)
    requires
        c == '.' || c == '/',
    ensures
        lowered(a + seq![c] + b) == lowered(a) + seq![c] + lowered(b),
        lowered(a + seq![c] + b).contains(c),
{
    assert(lowered(a + seq![c] + b) =~= lowered(a) + seq![c] + lowered(b));
    assert((lowered(a) + seq![c] + lowered(b))[a.len() as int] == c);
}

/// A text that is cut at its last mark has two parts, and no others.
proof fn last_cut_is_one(a: Seq<char>, b: Seq<char>, x: Seq<char>, y: Seq<char>, c: char)
    requires
        a + seq![c] + b == x + seq![c] + y,
        !b.contains(c),
        !y.contains(c),
    ensures
        a == x,
        b == y,
{
    let l = a + seq![c] + b;
    let r = x + seq![c] + y;
    assert(l.len() == a.len() + 1 + b.len());
    assert(r.len() == x.len() + 1 + y.len());
    assert(l[a.len() as int] == c);
    assert(r[x.len() as int] == c);
    if a.len() < x.len() {
        assert(b[x.len() - a.len() - 1] == l[x.len() as int]);
    }
    if x.len() < a.len() {
        assert(y[a.len() - x.len() - 1] == r[a.len() as int]);
    }
    assert(a =~= l.take(a.len() as int));
    assert(x =~= r.take(x.len() as int));
    assert(b =~= l.skip(a.len() as int + 1));
    assert(y =~= r.skip(x.len() as int + 1));
}

/// A full name tells kinds apart: whatever goes by the full name of `a` is of the same kind and
/// version, but for the case.
pub proof fn full_names_tell_kinds_apart(a: ApiKindModel, b: ApiKindModel)
    requires
        plainly_named(a),
        plainly_named(b),
        goes_by(b, full_name(a)),
    ensures
        lowered(b.api_version) == lowered(a.api_version),
        lowered(b.kind) == lowered(a.kind),
{
    reveal_strlit("/");
    reveal_strlit(".");
    assert("/"@ =~= seq!['/']);
    assert("."@ =~= seq!['.']);
    parts_in_lower_case(a.api_version, '/', a.kind);
    parts_in_lower_case(b.api_version, '/', b.kind);
    marks_stay(a.kind, '/');
    marks_stay(b.kind, '/');
    marks_stay(b.plural, '/');
    if let Some(group) = group_of(b.api_version) {
        group_is_plain(b.api_version);
        one_mark(b.kind, group);
        one_mark(b.plural, group);
    }
    last_cut_is_one(
        lowered(b.api_version),
        lowered(b.kind),
        lowered(a.api_version),
        lowered(a.kind),
        '/',
    );
}

/// A group has no slash in its name.
proof fn group_is_plain(api_version: Seq<char>)
    requires
        group_of(api_version) is Some,
    ensures
        !group_of(api_version)->0.contains('/'),
{
    position_is_first(api_version, '/');
}

/// A plain name in a group has no slash.
proof fn one_mark(name: Seq<char>, group: Seq<char>)
    requires
        !name.contains('/'),
        !group.contains('/'),
    ensures
        !lowered(in_group(name, group)).contains('/'),
{
    reveal_strlit(".");
    marks_stay(in_group(name, group), '/');
    let all = in_group(name, group);
    if all.contains('/') {
        let i = all.index_of('/');
        if i < name.len() {
            assert(name[i] == '/');
        } else if i > name.len() {
            assert(group[i - name.len() - 1] == '/');
        }
    }
}

/// A group tells kinds apart: whatever goes by the name of `a` in its group is of that group, and
/// that name is its kind or its plural, but for the case.
pub proof fn groups_tell_kinds_apart(a: ApiKindModel, b: ApiKindModel)
    requires
        plainly_named(a),
        plainly_named(b),
        group_of(a.api_version) is Some,
        goes_by(b, in_group(a.kind, group_of(a.api_version)->0)) || goes_by(
            b,
            in_group(a.plural, group_of(a.api_version)->0),
        ),
    ensures
        group_of(b.api_version) is Some,
        lowered(group_of(b.api_version)->0) == lowered(group_of(a.api_version)->0),
        lowered(b.kind) == lowered(a.kind) || lowered(b.plural) == lowered(a.kind) || lowered(b.kind) == lowered(
            a.plural,
        ) || lowered(b.plural) == lowered(a.plural),
{
    reveal_strlit("/");
    reveal_strlit(".");
    assert("/"@ =~= seq!['/']);
    assert("."@ =~= seq!['.']);
    let group = group_of(a.api_version)->0;
    let name = if goes_by(b, in_group(a.kind, group)) {
        a.kind
    } else {
        a.plural
    };
    group_is_plain(a.api_version);
    one_mark(name, group);
    parts_in_lower_case(name, '.', group);
    parts_in_lower_case(b.api_version, '/', b.kind);
    marks_stay(name, '.');
    marks_stay(b.kind, '.');
    marks_stay(b.plural, '.');
    cut_at_the_first(lowered(name), lowered(group), '.');
    let other = group_of(b.api_version)->0;
    parts_in_lower_case(b.kind, '.', other);
    parts_in_lower_case(b.plural, '.', other);
    cut_at_the_first(lowered(b.kind), lowered(other), '.');
    cut_at_the_first(lowered(b.plural), lowered(other), '.');
}

/// The kinds are listed by version, then by kind, and none is left out; a row shows the version,
/// the kind and whether its objects stand in a namespace.
pub proof fn kinds_are_listed_by_version(kinds: Seq<ApiKindModel>, i: int, j: int)
    requires
        0 <= i < j < kinds.len(),
    ensures
        ({
            let all = sorted::<ApiKind>(kinds);
            &&& all.to_multiset() == kinds.to_multiset()
            &&& all.len() == kinds.len()
            &&& texts_le(seq![all[i].api_version, all[i].kind], seq![all[j].api_version, all[j].kind])
            &&& all[i].scope == Scope::Namespaced ==> lines_of::<ApiKind>(all)[i] == row(
                seq![all[i].api_version, all[i].kind, "namespaced"@],
            )
            &&& all[i].scope == Scope::Cluster ==> lines_of::<ApiKind>(all)[i] == row(
                seq![all[i].api_version, all[i].kind, "cluster"@],
            )
        }),
{
    sorted_is_a_stable_sort::<ApiKind>(kinds);
    assert(ApiKind::le(sorted::<ApiKind>(kinds)[i], sorted::<ApiKind>(kinds)[j]));
}

/// A kind goes by its kind and its plural, by each of them in its group, and by its full name, in
/// any case.
pub proof fn kinds_go_by_their_names(k: ApiKindModel, name: Seq<char>, group: Seq<char>, version: Seq<char>)
    requires
        k.api_version == group + seq!['/'] + version,
        !group.contains('/'),
    ensures
        lowered(name) == lowered(k.kind) || lowered(name) == lowered(k.plural) ==> goes_by(k, name),
        lowered(name) == lowered(k.kind + seq!['.'] + group) || lowered(name) == lowered(k.plural + seq!['.'] + group)
            ==> goes_by(k, name),
        lowered(name) == lowered(k.api_version + seq!['/'] + k.kind) ==> goes_by(k, name),
{
    reveal_strlit("/");
    reveal_strlit(".");
    assert("/"@ =~= seq!['/']);
    assert("."@ =~= seq!['.']);
    cut_at_the_first(group, version, '/');
}

} // verus!
