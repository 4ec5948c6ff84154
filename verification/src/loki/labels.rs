//! The names of labels.
use super::client::{loki_data, HttpReply, LokiClient};
use super::common_args::CommonLokiArgs;
use super::query::rows_model;
use super::runner::{emit_lines, ends_with, run_loki};
use crate::format::{debug, write_debug};
use crate::gather::{gathered_or, gathered_or_step};
use crate::output::{Error, Report};
use crate::value::{Json, JsonView};
use vstd::prelude::*;
use vstd::string::*;

verus! {

/// The arguments of the command.
#[derive(Debug)]
pub struct LabelsArgs {
    pub common: CommonLokiArgs,
}

/// The text of one item, or what is wrong with it.
pub open spec fn item_text(path: Seq<char>) -> spec_fn(JsonView) -> Result<Seq<Seq<char>>, Seq<char>> {
    |v: JsonView|
        match v.text() {
            Some(t) => Ok(seq![t]),
            None => Err("Loki "@ + path + " `data` element is not a string: "@ + debug(v)),
        }
}

/// The texts of an array, or what is wrong with it.
pub open spec fn texts_of(path: Seq<char>) -> spec_fn(JsonView) -> Result<Seq<Seq<char>>, Seq<char>> {
    |data: JsonView|
        match data.items() {
            Some(items) => gathered_or(items, item_text(path)),
            None => Err("Loki "@ + path + " `data` is not an array"@),
        }
}

/// The texts of the data of a reply to the request for `path`.
pub fn extract_strings(data: &Json, path: &str) -> (r: Result<Vec<String>, Error>)
    ensures
        rows_model(r) == texts_of(path@)(data@),
{
    let items = match data.as_array() {
        Some(items) => items,
        None => {
            let mut message = "Loki ".to_owned();
            message.append(path);
            message.append(" `data` is not an array");
            return Err(Error { message });
        },
    };
    let ghost all = items.deep_view();
    let ghost f = item_text(path@);
    let mut out: Vec<String> = Vec::new();
    assert(all.take(0) =~= seq![]);
    assert(out.deep_view() =~= seq![]);
    for i in 0..items.len()
        invariant
            all == items.deep_view(),
            f == item_text(path@),
            texts_of(path@)(data@) == gathered_or(all, f),
            gathered_or(all.take(i as int), f) == Ok::<Seq<Seq<char>>, Seq<char>>(out.deep_view()),
    {
        proof {
            gathered_or_step(all, f, i as int);
            assert(items@[i as int]@ == all[i as int]);
        }
        let ghost before = out.deep_view();
        match items[i].as_str() {
            Some(t) => {
                out.push(t.to_owned());
                assert(out.deep_view() =~= before + seq![t@]);
            },
            None => {
                let mut message = "Loki ".to_owned();
                message.append(path);
                message.append(" `data` element is not a string: ");
                message.append(write_debug(&items[i]).as_str());
                return Err(Error { message });
            },
        }
    }
    assert(all.take(all.len() as int) =~= all);
    Ok(out)
}

/// Lists the names of labels from the server's reply to the request for
/// `/loki/api/v1/labels`.
pub fn run(args: &LabelsArgs, client: &LokiClient, reply: HttpReply) -> (r: Result<Report, Error>)
    ensures
        ends_with(
            r,
            args.common,
            loki_data(client.base_url@, "/loki/api/v1/labels"@, reply@),
            texts_of("/loki/api/v1/labels"@),
        ),
{
    let ghost data = loki_data(client.base_url@, "/loki/api/v1/labels"@, reply@);
    match run_loki(&args.common, client, "/loki/api/v1/labels", reply) {
        Err(e) => Err(e),
        Ok(Ok(report)) => {
            assert(ends_with(Ok(report), args.common, data, texts_of("/loki/api/v1/labels"@)));
            Ok(report)
        },
        Ok(Err(found)) => match extract_strings(&found, "/loki/api/v1/labels") {
            Ok(rows) => Ok(emit_lines(rows, args.common.limit)),
            Err(e) => Err(e),
        },
    }
}

/// The names that a reply lists are all there, in its order, where each of them is a text.
pub proof fn texts_are_taken_in_order(path: Seq<char>, texts: Seq<Seq<char>>)
    ensures
        texts_of(path)(JsonView::Array(Seq::new(texts.len(), |i: int| JsonView::Text(texts[i])))) == Ok::<
            Seq<Seq<char>>,
            Seq<char>,
        >(texts),
    decreases texts.len(),
{
    let items = Seq::new(texts.len(), |i: int| JsonView::Text(texts[i]));
    if texts.len() > 0 {
        let init = texts.drop_last();
        texts_are_taken_in_order(path, init);
        assert(items.drop_last() =~= Seq::new(init.len(), |i: int| JsonView::Text(init[i])));
        assert(init + seq![texts.last()] =~= texts);
    } else {
        assert(texts =~= seq![]);
    }
}

} // verus!
