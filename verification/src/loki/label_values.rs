//! The values of one label.
use super::client::{loki_data, HttpReply, LokiClient};
use super::common_args::CommonLokiArgs;
use super::labels::{extract_strings, texts_of};
use super::query::{encoded, url_text_reads_back, urlencode};
use super::runner::{emit_lines, ends_with, run_loki};
use crate::output::{Error, Report};
use vstd::prelude::*;
use vstd::string::*;

verus! {

/// The arguments of the command.
#[derive(Debug)]
pub struct LabelValuesArgs {
    pub common: CommonLokiArgs,
    /// The label.
    pub name: String,
}

/// The path of the values of a label.
pub open spec fn values_path(name: Seq<char>) -> Seq<char> {
    "/loki/api/v1/label/"@ + encoded(name) + "/values"@
}

/// The path of the values of a label.
pub fn request_path(args: &LabelValuesArgs) -> (r: String)
    ensures
        r@ == values_path(args.name@),
{
    let mut out = "/loki/api/v1/label/".to_owned();
    out.append(urlencode(args.name.as_str()).as_str());
    out.append("/values");
    out
}

/// Lists the values of a label from the server's reply to the request for its path.
pub fn run(args: &LabelValuesArgs, client: &LokiClient, reply: HttpReply) -> (r: Result<Report, Error>)
    ensures
        ends_with(
            r,
            args.common,
            loki_data(client.base_url@, values_path(args.name@), reply@),
            texts_of(values_path(args.name@)),
        ),
{
    let path = request_path(args);
    let ghost data = loki_data(client.base_url@, path@, reply@);
    match run_loki(&args.common, client, path.as_str(), reply) {
        Err(e) => Err(e),
        Ok(Ok(report)) => {
            assert(ends_with(Ok(report), args.common, data, texts_of(path@)));
            Ok(report)
        },
        Ok(Err(found)) => match extract_strings(&found, path.as_str()) {
            Ok(rows) => Ok(emit_lines(rows, args.common.limit)),
            Err(e) => Err(e),
        },
    }
}

/// The values of a label are asked for by its name, so that no two names are asked for at the same
/// place.
pub proof fn labels_have_their_own_places(a: Seq<char>, b: Seq<char>)
    ensures
        values_path(a) == values_path(b) ==> vstd::utf8::encode_utf8(a) == vstd::utf8::encode_utf8(b),
        "/loki/api/v1/label/"@.is_prefix_of(values_path(a)),
        "/values"@.is_suffix_of(values_path(a)),
{
    let head = "/loki/api/v1/label/"@;
    let tail = "/values"@;
    url_text_reads_back(a);
    url_text_reads_back(b);
    assert(values_path(a).take(head.len() as int) =~= head);
    assert(values_path(a).skip(values_path(a).len() - tail.len()) =~= tail);
    if values_path(a) == values_path(b) {
        let n = values_path(a).len();
        assert(values_path(a).subrange(head.len() as int, n - tail.len()) =~= encoded(a));
        assert(values_path(b).subrange(head.len() as int, n - tail.len()) =~= encoded(b));
    }
}

} // verus!
