//! The images that containers are made from.
use crate::gather::{gathered, gathered_holds, gathered_step};
use crate::k8s::containers::{containers_are_walked_in_order, declared, walk_containers, walked};
use crate::order::{
    lines_of, render_all, sort, sorted, sorted_holds, sorted_is_a_stable_sort, texts_at_most, texts_le,
    texts_le_total, texts_le_transitive, views, Line, Ranked,
};
use crate::output::{report_rows, reports, Report};
use crate::text::{row, write_row};
use crate::value::{inner, or_text, said, text_or, Json, JsonView};
use vstd::prelude::*;
use vstd::string::*;

verus! {

/// The arguments of the command.
#[derive(Debug)]
pub struct ImagesArgs {
    pub kind: String,
    pub namespace: Option<String>,
    pub all_namespaces: bool,
    pub selector: Option<String>,
    pub limit: Option<usize>,
}

/// One container and its image.
pub struct ImageRow {
    pub namespace: String,
    pub name: String,
    pub container: String,
    pub image: String,
}

impl View for ImageRow {
    /// The namespace, the object's name, the container's name and the image.
    type V = Seq<Seq<char>>;

    open spec fn view(&self) -> Seq<Seq<char>> {
        seq![self.namespace@, self.name@, self.container@, self.image@]
    }
}

impl Ranked for ImageRow {
    open spec fn le(a: Seq<Seq<char>>, b: Seq<Seq<char>>) -> bool {
        texts_le(a, b)
    }

    proof fn le_total(a: Seq<Seq<char>>, b: Seq<Seq<char>>) {
        texts_le_total(a, b);
    }

    proof fn le_transitive(a: Seq<Seq<char>>, b: Seq<Seq<char>>, c: Seq<Seq<char>>) {
        texts_le_transitive(a, b, c);
    }

    fn at_most(&self, other: &Self) -> (r: bool) {
        let a = vec![self.namespace.as_str(), self.name.as_str(), self.container.as_str(), self.image.as_str()];
        let b = vec![other.namespace.as_str(), other.name.as_str(), other.container.as_str(), other.image.as_str()];
        assert(a.deep_view() =~= self@);
        assert(b.deep_view() =~= other@);
        texts_at_most(&a, &b)
    }
}

/// An object's name, behind its namespace where it has one.
pub open spec fn full_name(namespace: Seq<char>, name: Seq<char>) -> Seq<char> {
    if namespace.len() == 0 {
        name
    } else {
        namespace + "/"@ + name
    }
}

/// An object's name, behind its namespace where it has one.
pub fn write_full_name(namespace: &str, name: &str) -> (r: String)
    ensures
        r@ == full_name(namespace@, name@),
{
    if namespace.is_empty() {
        name.to_owned()
    } else {
        let mut out = namespace.to_owned();
        out.append("/");
        out.append(name);
        out
    }
}

impl Line for ImageRow {
    open spec fn line(v: Seq<Seq<char>>) -> Seq<char> {
        row(seq![full_name(v[0], v[1]), v[2], v[3]])
    }

    fn render(&self) -> (r: String) {
        let name = write_full_name(self.namespace.as_str(), self.name.as_str());
        let fields = vec![name.as_str(), self.container.as_str(), self.image.as_str()];
        assert(fields.deep_view() =~= seq![name@, self.container@, self.image@]);
        write_row(&fields)
    }
}

/// The image rows of one object, in the order of its containers.
pub open spec fn images_of() -> spec_fn(JsonView) -> Seq<Seq<Seq<char>>> {
    |value: JsonView|
        {
            let all = walked(value);
            Seq::new(
                all.len(),
                |i: int| seq![or_text(all[i].namespace, ""@), all[i].name, all[i].container, all[i].image],
            )
        }
}

/// The image rows of all objects, by namespace, name, container and image.
pub open spec fn image_rows(objects: Seq<JsonView>) -> Seq<Seq<Seq<char>>> {
    sorted::<ImageRow>(gathered(objects, images_of()))
}

/// Adds the image rows of one object.
fn collect_images(rows: &mut Vec<ImageRow>, value: &Json)
    ensures
        views(final(rows)@) == views(old(rows)@) + images_of()(value@),
{
    let all = walk_containers(value);
    let ghost before = views(rows@);
    let ghost add = images_of()(value@);
    for i in 0..all.len()
        invariant
            all.deep_view() == walked(value@),
            add == images_of()(value@),
            views(rows@) =~= before + add.take(i as int),
    {
        let c = &all[i];
        assert(c@ == walked(value@)[i as int]);
        let item = ImageRow {
            namespace: text_or(c.namespace, "").to_owned(),
            name: c.name.to_owned(),
            container: c.container.to_owned(),
            image: c.image.to_owned(),
        };
        assert(item@ =~= add[i as int]);
        let ghost so_far = views(rows@);
        rows.push(item);
        assert(views(rows@) =~= so_far.push(item@));
    }
    assert(all.deep_view().len() == all@.len());
    assert(add.take(add.len() as int) =~= add);
}

/// Lists the images of the given objects.
pub fn run(args: &ImagesArgs, objects: &Vec<Json>) -> (r: Report)
    ensures
        reports(r, lines_of::<ImageRow>(image_rows(objects.deep_view())), args.limit),
{
    let ghost all = objects.deep_view();
    let ghost f = images_of();
    let mut rows: Vec<ImageRow> = Vec::new();
    assert(views(rows@) =~= gathered(all.take(0), f));
    for i in 0..objects.len()
        invariant
            all == objects.deep_view(),
            f == images_of(),
            views(rows@) == gathered(all.take(i as int), f),
    {
        proof {
            gathered_step(all, f, i as int);
        }
        collect_images(&mut rows, &objects[i]);
    }
    assert(all.take(all.len() as int) =~= all);
    let ordered = sort(rows);
    report_rows(render_all(&ordered), args.limit)
}

/// Every container of every object is listed, with where the object is, and nothing else; the rows
/// come by namespace, name, container and image.
pub proof fn every_container_is_listed(objects: Seq<JsonView>, r: Seq<Seq<char>>)
    ensures
        image_rows(objects).contains(r) <==> r.len() == 4 && exists|p: int, c: int|
            0 <= p < objects.len() && 0 <= c < declared(objects[p]).len() && r[0] == said(
                inner(objects[p], "metadata"@, "namespace"@),
                ""@,
            ) && r[1] == said(inner(objects[p], "metadata"@, "name"@), ""@) && r[2] == said(
                (#[trigger] declared(objects[p])[c]).get("name"@),
                ""@,
            ) && r[3] == said(declared(objects[p])[c].get("image"@), ""@),
        forall|i: int, j: int|
            0 <= i < j < image_rows(objects).len() ==> texts_le(
                #[trigger] image_rows(objects)[i],
                #[trigger] image_rows(objects)[j],
            ),
        r.len() == 4 && r[0].len() == 0 ==> ImageRow::line(r) == row(seq![r[1], r[2], r[3]]),
        r.len() == 4 && r[0].len() > 0 ==> ImageRow::line(r) == row(seq![r[0] + seq!['/'] + r[1], r[2], r[3]]),
{
    let f = images_of();
    let all = gathered(objects, f);
    let out = image_rows(objects);
    sorted_holds::<ImageRow>(all, r);
    sorted_is_a_stable_sort::<ImageRow>(all);
    gathered_holds(objects, f, r);
    assert forall|i: int, j: int| 0 <= i < j < out.len() implies texts_le(#[trigger] out[i], #[trigger] out[j]) by {
        assert(ImageRow::le(out[i], out[j]));
    }
    if out.contains(r) {
        let p = choose|p: int| 0 <= p < objects.len() && f(#[trigger] objects[p]).contains(r);
        let rows = f(objects[p]);
        let c = rows.index_of(r);
        containers_are_walked_in_order(objects[p], c);
        assert(declared(objects[p])[c] == declared(objects[p])[c]);
    }
    if r.len() == 4 && exists|p: int, c: int|
        0 <= p < objects.len() && 0 <= c < declared(objects[p]).len() && r[0] == said(
            inner(objects[p], "metadata"@, "namespace"@),
            ""@,
        ) && r[1] == said(inner(objects[p], "metadata"@, "name"@), ""@) && r[2] == said(
            (#[trigger] declared(objects[p])[c]).get("name"@),
            ""@,
        ) && r[3] == said(declared(objects[p])[c].get("image"@), ""@) {
        let (p, c) = choose|p: int, c: int|
            0 <= p < objects.len() && 0 <= c < declared(objects[p]).len() && r[0] == said(
                inner(objects[p], "metadata"@, "namespace"@),
                ""@,
            ) && r[1] == said(inner(objects[p], "metadata"@, "name"@), ""@) && r[2] == said(
                (#[trigger] declared(objects[p])[c]).get("name"@),
                ""@,
            ) && r[3] == said(declared(objects[p])[c].get("image"@), ""@);
        containers_are_walked_in_order(objects[p], c);
        assert(f(objects[p])[c] =~= r);
        assert(f(objects[p]).contains(r));
    }
    reveal_strlit("/");
    assert("/"@ =~= seq!['/']);
}

} // verus!
