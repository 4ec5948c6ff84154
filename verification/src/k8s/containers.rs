//! The containers of pods and of the kinds that carry a pod template.
use crate::value::{
    array_of, at, deeper, get_at, inner, items_of, list_of, opt, or_none, or_text, said, str_of, text_of, text_or, Json,
    JsonView,
};
use vstd::prelude::*;

verus! {

/// One container, with the object that it stands in.
#[derive(Debug)]
pub struct ContainerView<'a> {
    pub namespace: Option<&'a str>,
    /// The name of the object, not of the container.
    pub name: &'a str,
    pub container: &'a str,
    pub image: &'a str,
    /// The container's variables.
    pub env: &'a [Json],
}

/// What a `ContainerView` says.
#[verifier::ext_equal]
pub struct ContainerModel {
    pub namespace: Option<Seq<char>>,
    pub name: Seq<char>,
    pub container: Seq<char>,
    pub image: Seq<char>,
    pub env: Seq<JsonView>,
}

impl<'a> View for ContainerView<'a> {
    type V = ContainerModel;

    open spec fn view(&self) -> ContainerModel {
        ContainerModel {
            namespace: opt(self.namespace),
            name: self.name@,
            container: self.container@,
            image: self.image@,
            env: self.env.deep_view(),
        }
    }
}

impl<'a> DeepView for ContainerView<'a> {
    type V = ContainerModel;

    open spec fn deep_view(&self) -> ContainerModel {
        self.view()
    }
}

/// The containers under `spec.containers` of `owner`.
pub open spec fn under_spec(owner: Option<JsonView>) -> Option<Seq<JsonView>> {
    items_of(at(at(owner, "spec"@), "containers"@))
}

/// The containers that an object declares: those of a job's template, else those of a pod
/// template, else its own; none for any other shape.
pub open spec fn declared(value: JsonView) -> Seq<JsonView> {
    let spec_ = value.get("spec"@);
    let job = at(at(at(spec_, "jobTemplate"@), "spec"@), "template"@);
    match under_spec(job) {
        Some(items) => items,
        None => match under_spec(at(spec_, "template"@)) {
            Some(items) => items,
            None => or_none(under_spec(Some(value))),
        },
    }
}

/// One declared container of an object.
pub open spec fn model_of(value: JsonView, c: JsonView) -> ContainerModel {
    let metadata = value.get("metadata"@);
    ContainerModel {
        namespace: text_of(at(metadata, "namespace"@)),
        name: or_text(text_of(at(metadata, "name"@)), ""@),
        container: or_text(text_of(c.get("name"@)), ""@),
        image: or_text(text_of(c.get("image"@)), ""@),
        env: or_none(items_of(c.get("env"@))),
    }
}

/// Every container that an object declares, in order.
pub open spec fn walked(value: JsonView) -> Seq<ContainerModel> {
    let items = declared(value);
    Seq::new(items.len(), |i: int| model_of(value, items[i]))
}

fn containers_under<'a>(owner: Option<&'a Json>) -> (r: Option<&'a Vec<Json>>)
    ensures
        match r {
            Some(v) => under_spec(opt(owner)) == Some(v.deep_view()),
            None => under_spec(opt(owner)) is None,
        },
{
    array_of(get_at(get_at(owner, "spec"), "containers"))
}

/// Every container that an object declares, in order. The shape of a job's template is tried
/// first, then that of a pod template, then that of a pod.
pub fn walk_containers<'a>(value: &'a Json) -> (r: Vec<ContainerView<'a>>)
    ensures
        r.deep_view() == walked(value@),
{
    let metadata = value.get("metadata");
    let namespace = str_of(get_at(metadata, "namespace"));
    let name = text_or(str_of(get_at(metadata, "name")), "");
    let outer = value.get("spec");
    let job = get_at(get_at(get_at(outer, "jobTemplate"), "spec"), "template");
    let found = match containers_under(job) {
        Some(items) => Some(items),
        None => match containers_under(get_at(outer, "template")) {
            Some(items) => Some(items),
            None => containers_under(Some(value)),
        },
    };
    let mut out: Vec<ContainerView<'a>> = Vec::new();
    if let Some(items) = found {
        for i in 0..items.len()
            invariant
                items.deep_view() == declared(value@),
                opt(namespace) == text_of(at(value@.get("metadata"@), "namespace"@)),
                name@ == or_text(text_of(at(value@.get("metadata"@), "name"@)), ""@),
                out.deep_view() =~= walked(value@).take(i as int),
        {
            let c = &items[i];
            assert(c@ == declared(value@)[i as int]);
            let env: &'a [Json] = match array_of(c.get("env")) {
                Some(list) => list.as_slice(),
                None => &[],
            };
            let view = ContainerView {
                namespace,
                name,
                container: text_or(str_of(c.get("name")), ""),
                image: text_or(str_of(c.get("image")), ""),
                env,
            };
            let ghost before = out.deep_view();
            assert(view@.env =~= or_none(items_of(c@.get("env"@))));
            out.push(view);
            assert(out.deep_view() =~= before.push(view@));
        }
    }
    assert(out.deep_view() =~= walked(value@));
    out
}

/// Where a job's template declares containers, those alone are walked, whatever else the
/// object holds.
pub proof fn job_template_comes_first(value: JsonView)
    ensures
        ({
            let job = at(at(at(value.get("spec"@), "jobTemplate"@), "spec"@), "template"@);
            under_spec(job) is Some ==> declared(value) == under_spec(job)->0
        }),
        walked(value).len() == declared(value).len(),
{
}

/// The first of the shapes that an object has decides which containers are walked: that of a job's
/// template, that of a pod template, that of a pod.
pub proof fn first_shape_decides(value: JsonView, spec_: JsonView, items: Seq<JsonView>)
    requires
        value.get("spec"@) == Some(spec_),
    ensures
        ({
            let of_job = match deeper(spec_, "jobTemplate"@, "spec"@, "template"@) {
                Some(template) => inner(template, "spec"@, "containers"@),
                None => None,
            };
            let of_template = deeper(spec_, "template"@, "spec"@, "containers"@);
            let of_pod = spec_.get("containers"@);
            &&& of_job == Some(JsonView::Array(items)) ==> declared(value) == items
            &&& items_of(of_job) is None && of_template == Some(JsonView::Array(items)) ==> declared(value) == items
            &&& items_of(of_job) is None && items_of(of_template) is None && of_pod == Some(JsonView::Array(items))
                ==> declared(value) == items
            &&& items_of(of_job) is None && items_of(of_template) is None && items_of(of_pod) is None ==> declared(value)
                == Seq::<JsonView>::empty()
        }),
{
}

/// The containers that an object declares are walked in their order, each with its name, its image
/// and its variables, and with the namespace and the name of the object.
pub proof fn containers_are_walked_in_order(value: JsonView, i: int)
    requires
        0 <= i < declared(value).len(),
    ensures
        walked(value).len() == declared(value).len(),
        walked(value)[i].container == said(declared(value)[i].get("name"@), ""@),
        walked(value)[i].image == said(declared(value)[i].get("image"@), ""@),
        walked(value)[i].env == list_of(declared(value)[i].get("env"@)),
        walked(value)[i].name == said(inner(value, "metadata"@, "name"@), ""@),
        or_text(walked(value)[i].namespace, ""@) == said(inner(value, "metadata"@, "namespace"@), ""@),
        walked(value)[i].namespace is Some <==> text_of(inner(value, "metadata"@, "namespace"@)) is Some,
{
}

} // verus!
