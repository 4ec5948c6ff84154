//! The images of a daemon.
use super::client::{in_project, payload, project_path, with_recursion, LxcClient, LxcReply};
use super::list::not_an_array;
use crate::gather::{gathered, gathered_step};
use crate::number::{decimal_int, write_i64};
use crate::order::{
    lines_of, render_all, sort, sorted, sorted_is_a_stable_sort, text_at_most, text_le, text_le_total,
    text_le_transitive, views, Line, Ranked,
};
use crate::output::{report_rows, reports, Error, Outcome, Report};
use crate::text::{join, joined, row, write_row};
use crate::value::{
    array_of, at, get_at, i64_of, inner, int_of, items_of, opt, or_none, or_text, said, str_of, text_of, text_or,
    Json, JsonView,
};
use vstd::prelude::*;
use vstd::string::*;

verus! {

/// The arguments of the command.
#[derive(Debug)]
pub struct ImagesArgs {
    pub project: Option<String>,
    pub limit: Option<usize>,
}

/// The name of an alias; none where it has none.
pub open spec fn alias_name() -> spec_fn(JsonView) -> Seq<Seq<char>> {
    |a: JsonView|
        match text_of(a.get("name"@)) {
            Some(name) => seq![name],
            None => seq![],
        }
}

/// The names of an image's aliases, commas between them; `-` where there are none.
pub open spec fn aliases(item: JsonView) -> Seq<char> {
    let names = gathered(or_none(items_of(item.get("aliases"@))), alias_name());
    if names.len() == 0 {
        "-"@
    } else {
        joined(names, ","@)
    }
}

/// The names of an image's aliases, commas between them; `-` where there are none.
pub fn format_aliases(item: &Json) -> (r: String)
    ensures
        r@ == aliases(item@),
{
    let list = match array_of(item.get("aliases")) {
        Some(list) => list,
        None => {
            return "-".to_owned();
        },
    };
    let ghost all = list.deep_view();
    let ghost f = alias_name();
    let mut names: Vec<&str> = Vec::new();
    assert(names.deep_view() =~= gathered(all.take(0), f));
    for i in 0..list.len()
        invariant
            all == list.deep_view(),
            f == alias_name(),
            names.deep_view() == gathered(all.take(i as int), f),
    {
        proof {
            gathered_step(all, f, i as int);
        }
        let ghost before = names.deep_view();
        assert(list@[i as int]@ == all[i as int]);
        if let Some(name) = str_of(list[i].get("name")) {
            names.push(name);
            assert(names.deep_view() =~= before + seq![name@]);
        } else {
            assert(before + seq![] =~= before);
        }
    }
    assert(all.take(all.len() as int) =~= all);
    assert(names.deep_view().len() == names@.len());
    if names.len() == 0 {
        "-".to_owned()
    } else {
        join(&names, ",")
    }
}

/// The columns of an image.
pub open spec fn image_line(item: JsonView) -> Seq<char> {
    let size = match i64_of(item.get("size"@)) {
        Some(n) => decimal_int(n),
        None => "-"@,
    };
    row(
        seq![
            or_text(text_of(item.get("fingerprint"@)), "-"@),
            aliases(item),
            or_text(text_of(item.get("architecture"@)), "-"@),
            size,
            or_text(text_of(at(item.get("properties"@), "description"@)), "-"@),
        ],
    )
}

/// The columns of an image.
pub fn format_row(item: &Json) -> (r: String)
    ensures
        r@ == image_line(item@),
{
    let names = format_aliases(item);
    let size = match int_of(item.get("size")) {
        Some(n) => write_i64(n),
        None => "-".to_owned(),
    };
    let fields = vec![
        text_or(str_of(item.get("fingerprint")), "-"),
        names.as_str(),
        text_or(str_of(item.get("architecture")), "-"),
        size.as_str(),
        text_or(str_of(get_at(item.get("properties"), "description")), "-"),
    ];
    assert(fields.deep_view() =~= seq![
        or_text(text_of(item@.get("fingerprint"@)), "-"@),
        names@,
        or_text(text_of(item@.get("architecture"@)), "-"@),
        size@,
        or_text(text_of(at(item@.get("properties"@), "description"@)), "-"@),
    ]);
    write_row(&fields)
}

/// An image, ordered by its fingerprint.
pub struct Image {
    pub value: Json,
}

impl View for Image {
    type V = JsonView;

    open spec fn view(&self) -> JsonView {
        self.value@
    }
}

pub open spec fn fingerprint(item: JsonView) -> Seq<char> {
    or_text(text_of(item.get("fingerprint"@)), ""@)
}

impl Ranked for Image {
    open spec fn le(a: JsonView, b: JsonView) -> bool {
        text_le(fingerprint(a), fingerprint(b))
    }

    proof fn le_total(a: JsonView, b: JsonView) {
        text_le_total(fingerprint(a), fingerprint(b));
    }

    proof fn le_transitive(a: JsonView, b: JsonView, c: JsonView) {
        text_le_transitive(fingerprint(a), fingerprint(b), fingerprint(c));
    }

    fn at_most(&self, other: &Self) -> (r: bool) {
        text_at_most(
            text_or(str_of(self.value.get("fingerprint")), ""),
            text_or(str_of(other.value.get("fingerprint")), ""),
        )
    }
}

impl Line for Image {
    open spec fn line(v: JsonView) -> Seq<char> {
        image_line(v)
    }

    fn render(&self) -> (r: String) {
        format_row(&self.value)
    }
}

/// The path of the images.
pub open spec fn images_path(project: Option<Seq<char>>) -> Seq<char> {
    in_project("/1.0/images"@, project)
}

/// The path of the images; it is asked for with a recursion depth of one.
pub fn request_path(args: &ImagesArgs) -> (r: String)
    ensures
        r@ == images_path(opt(args.project)),
{
    project_path("/1.0/images", &args.project)
}

fn wrap_images(items: Vec<Json>) -> (r: Vec<Image>)
    ensures
        views(r@) == items.deep_view(),
{
    let ghost all = items.deep_view();
    let mut out: Vec<Image> = Vec::new();
    for value in it: items
        invariant
            it.seq() == items@,
            all == items.deep_view(),
            views(out@) =~= all.take(it.index()),
    {
        let ghost before = views(out@);
        let ghost v = value@;
        out.push(Image { value });
        assert(views(out@) =~= before.push(v));
    }
    assert(all.take(all.len() as int) =~= all);
    out
}

/// Lists the images from the daemon's reply to the request for their path.
pub fn run(args: &ImagesArgs, client: &LxcClient, reply: &LxcReply) -> (r: Result<Report, Error>)
    ensures
        match payload(with_recursion(images_path(opt(args.project)), 1), *reply) {
            Err(m) => r is Err && r->Err_0.message@ == m,
            Ok(None) => r is Ok && r->Ok_0.outcome == Outcome::NotFound && r->Ok_0.lines@.len() == 0,
            Ok(Some(v)) => match v.items() {
                Some(items) => r is Ok && reports(r->Ok_0, lines_of::<Image>(sorted::<Image>(items)), args.limit),
                None => r is Err && r->Err_0.message@ == not_an_array(images_path(opt(args.project))),
            },
        },
{
    let path = request_path(args);
    let found = match client.get_json_recursive(path.as_str(), 1, reply) {
        Ok(Some(found)) => found,
        Ok(None) => {
            return Ok(Report { lines: Vec::new(), outcome: Outcome::NotFound });
        },
        Err(e) => {
            return Err(e);
        },
    };
    let ghost model = found@.items();
    match found {
        Json::Array(items) => {
            assert(model->0 =~= items.deep_view());
            let all = sort(wrap_images(items));
            Ok(report_rows(render_all(&all), args.limit))
        },
        _ => {
            let mut message = "LXD response for ".to_owned();
            message.append(path.as_str());
            message.append(" was not an array");
            Err(Error { message })
        },
    }
}

/// The row of an image shows its fingerprint, its aliases, its architecture, its size in bytes and
/// its description, each `-` where it is not told. Images come by fingerprint.
pub proof fn images_are_shown_by_fingerprint(items: Seq<JsonView>, item: JsonView, i: int, j: int)
    ensures
        ({
            let size = match item.get("size"@) {
                Some(JsonView::Int(n)) if n <= i64::MAX => decimal_int(n),
                _ => "-"@,
            };
            image_line(item) == row(
                seq![
                    said(item.get("fingerprint"@), "-"@),
                    aliases(item),
                    said(item.get("architecture"@), "-"@),
                    size,
                    said(inner(item, "properties"@, "description"@), "-"@),
                ],
            )
        }),
        sorted::<Image>(items).to_multiset() == items.to_multiset(),
        0 <= i < j < sorted::<Image>(items).len() ==> text_le(
            said(sorted::<Image>(items)[i].get("fingerprint"@), ""@),
            said(sorted::<Image>(items)[j].get("fingerprint"@), ""@),
        ),
{
    sorted_is_a_stable_sort::<Image>(items);
    if 0 <= i < j < sorted::<Image>(items).len() {
        assert(Image::le(sorted::<Image>(items)[i], sorted::<Image>(items)[j]));
    }
}

/// The aliases of an image stand with commas between them, in their order; `-` where it has none.
pub proof fn aliases_are_joined(item: JsonView, names: Seq<Seq<char>>, list: Seq<JsonView>)
    requires
        item.get("aliases"@) == Some(JsonView::Array(list)),
        list.len() == names.len(),
        forall|i: int| 0 <= i < list.len() ==> (#[trigger] list[i]).get("name"@) == Some(JsonView::Text(names[i])),
    ensures
        names.len() > 0 ==> aliases(item) == joined(names, seq![',']),
        names.len() == 0 ==> aliases(item) == "-"@,
{
    reveal_strlit(",");
    assert(","@ =~= seq![',']);
    names_are_gathered(names, list);
}

proof fn names_are_gathered(names: Seq<Seq<char>>, list: Seq<JsonView>)
    requires
        list.len() == names.len(),
        forall|i: int| 0 <= i < list.len() ==> (#[trigger] list[i]).get("name"@) == Some(JsonView::Text(names[i])),
    ensures
        gathered(list, alias_name()) == names,
    decreases list.len(),
{
    if list.len() > 0 {
        let a = names.drop_last();
        let b = list.drop_last();
        assert forall|i: int| 0 <= i < b.len() implies (#[trigger] b[i]).get("name"@) == Some(JsonView::Text(a[i])) by {
            assert(list[i].get("name"@) == Some(JsonView::Text(names[i])));
        }
        names_are_gathered(a, b);
        assert(list[list.len() - 1].get("name"@) == Some(JsonView::Text(names[names.len() - 1])));
        assert(a + seq![names.last()] =~= names);
    } else {
        assert(names =~= seq![]);
    }
}

/// Images are asked for at one place, in a project where one is given.
pub proof fn images_are_asked_for_by_project(project: Seq<char>)
    ensures
        images_path(None) == "/1.0/images"@,
        images_path(Some(project)) == "/1.0/images?project="@ + project,
{
    reveal_strlit("/1.0/images");
    reveal_strlit("?project=");
    reveal_strlit("/1.0/images?project=");
    assert("/1.0/images"@ + "?project="@ =~= "/1.0/images?project="@);
}

} // verus!
